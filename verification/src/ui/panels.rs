//! The text of the dashboard's panels, as plain data: titles, status
//! tallies, and the rows of the focused epic's layered task list.
use vstd::prelude::*;

use crate::app::{first_position, position_in};
use crate::gh::opt_string_view;
use crate::model::{ActivityEvent, Component, EventView, Issue, Status};
use crate::text::{
    decimal, join, joined, pad_right, padded_right, push_decimal, push_str, string_views, truncate,
    truncated,
};
use crate::ui::layers::{bucket_views, compute_layers, sub_order, the_layers, visual_sub_order};
use crate::ui::widgets::{
    blocked_by_ids, blockers, child_indices, children_upto, dep_labels, dependency_labels, pr_cell,
    spec_pr_cell, Area, PR_CELL_WIDTH,
};

verus! {

/// `<icon> <label>`, as a status is shown next to an epic.
pub open spec fn spec_status_text(s: Status) -> Seq<char> {
    s.spec_icon() + " "@ + s.spec_label()
}

pub fn status_text(s: Status) -> (r: String)
    ensures
        r@ == spec_status_text(s),
{
    let mut r = String::new();
    push_str(&mut r, s.icon());
    push_str(&mut r, " ");
    push_str(&mut r, s.label());
    r
}

/// `<icon> <label> <count>`, one entry of a status tally.
pub open spec fn spec_status_count_text(s: Status, count: nat) -> Seq<char> {
    spec_status_text(s) + " "@ + decimal(count)
}

pub fn status_count_text(s: Status, count: usize) -> (r: String)
    ensures
        r@ == spec_status_count_text(s, count as nat),
{
    let mut r = status_text(s);
    push_str(&mut r, " ");
    push_decimal(&mut r, count as u64);
    r
}

/// ` <id> · <title> `, the title cut to `max` characters.
pub open spec fn spec_epic_title(id: Seq<char>, title: Seq<char>, max: nat) -> Seq<char> {
    " "@ + id + " \u{b7} "@ + truncated(title, max) + " "@
}

pub fn epic_title(id: &str, title: &str, max: usize) -> (r: String)
    ensures
        r@ == spec_epic_title(id@, title@, max as nat),
{
    let mut r = String::new();
    push_str(&mut r, " ");
    push_str(&mut r, id);
    push_str(&mut r, " \u{b7} ");
    let t = truncate(title, max);
    push_str(&mut r, t.as_str());
    push_str(&mut r, " ");
    r
}

/// ` <id> · <title> · <closed>/<total> done `, the focused epic's title.
pub open spec fn spec_dag_title(
    id: Seq<char>,
    title: Seq<char>,
    max: nat,
    closed: nat,
    total: nat,
) -> Seq<char> {
    " "@ + id + " \u{b7} "@ + truncated(title, max) + " \u{b7} "@ + decimal(closed) + "/"@
        + decimal(total) + " done "@
}

pub fn dag_title(id: &str, title: &str, max: usize, closed: usize, total: usize) -> (r: String)
    ensures
        r@ == spec_dag_title(id@, title@, max as nat, closed as nat, total as nat),
{
    let mut r = String::new();
    push_str(&mut r, " ");
    push_str(&mut r, id);
    push_str(&mut r, " \u{b7} ");
    let t = truncate(title, max);
    push_str(&mut r, t.as_str());
    push_str(&mut r, " \u{b7} ");
    push_decimal(&mut r, closed as u64);
    push_str(&mut r, "/");
    push_decimal(&mut r, total as u64);
    push_str(&mut r, " done ");
    r
}

/// Width of the id column in the focused epic's task list.
pub const DAG_ID_WIDTH: usize = 16;

/// The title column's width: what the other columns leave of the panel's
/// inner width, but never under 10.
pub open spec fn spec_dag_title_width(inner_width: nat) -> nat {
    let reserved: nat = 16 + 6 + 10 + 8 + 20;
    let w: nat = if inner_width >= reserved {
        (inner_width - reserved) as nat
    } else {
        0
    };
    if w >= 10 {
        w
    } else {
        10
    }
}

pub fn dag_title_width(inner_width: usize) -> (r: usize)
    ensures
        r == spec_dag_title_width(inner_width as nat),
{
    let w = inner_width.saturating_sub(DAG_ID_WIDTH + 6 + PR_CELL_WIDTH + 8 + 20);
    if w >= 10 {
        w
    } else {
        10
    }
}

/// One row of the focused epic's task list.
#[derive(Debug, Clone, Copy, PartialEq, Eq, Structural)]
pub enum DagRow {
    /// The epic has no sub-beads.
    NoSubTasks,
    /// The divider above layer `k`.
    Layer(usize),
    /// The sub-bead at `issue` (a position in the component's issues),
    /// highlighted when `selected`.
    Task { issue: usize, selected: bool },
}

/// The rows of one layer's sub-beads.
pub open spec fn task_rows(b: Seq<usize>, sel: Option<usize>) -> Seq<DagRow> {
    Seq::new(b.len(), |j: int| DagRow::Task { issue: b[j], selected: sel == Some(b[j]) })
}

/// The rows of the first `k` layers: each non-empty layer as its divider
/// followed by its sub-beads; empty layers show nothing.
pub open spec fn layer_rows(ls: Seq<Seq<usize>>, sel: Option<usize>, k: nat) -> Seq<DagRow>
    decreases k,
{
    if k == 0 || k > ls.len() {
        Seq::empty()
    } else {
        let rest = layer_rows(ls, sel, (k - 1) as nat);
        if ls[k - 1].len() == 0 {
            rest
        } else {
            rest.push(DagRow::Layer((k - 1) as usize)) + task_rows(ls[k - 1], sel)
        }
    }
}

pub open spec fn all_layers_empty(ls: Seq<Seq<usize>>) -> bool {
    forall|k: int| 0 <= k < ls.len() ==> #[trigger] ls[k].len() == 0
}

/// The whole task list: a note when there are no sub-beads, then the layers.
pub open spec fn spec_dag_rows(ls: Seq<Seq<usize>>, sel: Option<usize>) -> Seq<DagRow> {
    (if all_layers_empty(ls) {
        seq![DagRow::NoSubTasks]
    } else {
        Seq::empty()
    }) + layer_rows(ls, sel, ls.len())
}

/// The issue that the sub-bead selection points at, if any.
pub open spec fn selected_issue(c: Component, selected_sub: usize) -> Option<usize> {
    if selected_sub < sub_order(c).len() {
        Some(sub_order(c)[selected_sub as int])
    } else {
        None
    }
}

/// The rows of the focused epic's task list, layer by layer, with the
/// `selected_sub`-th sub-bead in screen order highlighted.
pub fn dag_rows(component: &Component, selected_sub: usize) -> (r: Vec<DagRow>)
    ensures
        r@ == spec_dag_rows(the_layers(*component), selected_issue(*component, selected_sub)),
{
    let layers = compute_layers(component);
    let order = visual_sub_order(component);
    let ghost ls = bucket_views(layers@);
    let sel: Option<usize> = if selected_sub < order.len() {
        Some(order[selected_sub])
    } else {
        None
    };
    let mut all_empty = true;
    let mut l: usize = 0;
    while l < layers.len()
        invariant
            l <= layers.len(),
            ls == bucket_views(layers@),
            all_empty == (forall|k: int| 0 <= k < l ==> #[trigger] ls[k].len() == 0),
        decreases layers.len() - l,
    {
        assert(ls[l as int] == layers@[l as int]@);
        if layers[l].len() > 0 {
            all_empty = false;
        }
        l = l + 1;
    }
    let mut r: Vec<DagRow> = Vec::new();
    if all_empty {
        r.push(DagRow::NoSubTasks);
    }
    let ghost head = r@;
    assert(head =~= (if all_layers_empty(ls) {
        seq![DagRow::NoSubTasks]
    } else {
        Seq::empty()
    }));
    let mut l: usize = 0;
    while l < layers.len()
        invariant
            l <= layers.len(),
            ls == bucket_views(layers@),
            ls.len() == layers.len(),
            r@ == head + layer_rows(ls, sel, l as nat),
        decreases layers.len() - l,
    {
        let b = &layers[l];
        assert(ls[l as int] == b@);
        if b.len() > 0 {
            r.push(DagRow::Layer(l));
            let ghost mid = r@;
            let mut j: usize = 0;
            while j < b.len()
                invariant
                    j <= b.len(),
                    r@ == mid + task_rows(b@.take(j as int), sel),
                decreases b.len() - j,
            {
                let i = b[j];
                let selected = match sel {
                    Some(s) => s == i,
                    None => false,
                };
                r.push(DagRow::Task { issue: i, selected });
                assert(task_rows(b@.take(j + 1), sel) =~= task_rows(b@.take(j as int), sel).push(
                    DagRow::Task { issue: i, selected },
                ));
                j = j + 1;
            }
            assert(b@.take(j as int) =~= b@);
            assert(r@ =~= head + layer_rows(ls, sel, (l + 1) as nat));
        }
        l = l + 1;
    }
    r
}

/// The columns of one sub-bead's row in the focused epic's task list.
pub struct TaskCells {
    /// The id, padded to `DAG_ID_WIDTH`.
    pub id: String,
    /// The PR column.
    pub pr: String,
    /// The issue type, cut to 7 characters and padded to 8.
    pub kind: String,
    /// The title, cut and padded to the title width.
    pub title: String,
    /// What the sub-bead waits on, comma-separated (empty for nothing).
    pub deps: String,
}

/// The columns of `issue`'s row, with a title column `title_width` wide.
pub fn task_cells(component: &Component, issue: &Issue, title_width: usize) -> (r: TaskCells)
    ensures
        r.id@ == padded_right(issue.id@, DAG_ID_WIDTH as nat),
        r.pr@ == spec_pr_cell(opt_string_view(issue.external_ref)),
        r.kind@ == padded_right(truncated(issue.issue_type@, 7), 8),
        r.title@ == padded_right(truncated(issue.title@, title_width as nat), title_width as nat),
        r.deps@ == joined(
            dep_labels(*component, issue.id@, component.dependencies@.len()),
            ", "@,
        ),
{
    let id = pad_right(issue.id.as_str(), DAG_ID_WIDTH);
    let pr = match &issue.external_ref {
        Some(s) => pr_cell(Some(s.as_str())),
        None => pr_cell(None),
    };
    let kind_cut = truncate(issue.issue_type.as_str(), 7);
    let kind = pad_right(kind_cut.as_str(), 8);
    let title_cut = truncate(issue.title.as_str(), title_width);
    let title = pad_right(title_cut.as_str(), title_width);
    let labels = dependency_labels(component, issue.id.as_str());
    let deps = join(&labels, ", ");
    TaskCells { id, pr, kind, title, deps }
}

/// The columns of one line of the activity log, apart from its time.
pub struct ActivityCells {
    /// What happened, as a glyph: the new status's icon, `+` or `−`.
    pub marker: String,
    /// The issue's id, padded.
    pub id: String,
    /// The change in words.
    pub change: String,
    /// The issue's title, cut to 60 characters (empty for a removal).
    pub title: String,
}

/// The columns of an event's line: marker, id, change and title.
pub open spec fn spec_activity_cells(e: EventView) -> (Seq<char>, Seq<char>, Seq<char>, Seq<char>) {
    match e {
        EventView::StatusChange { id, title, from, to, .. } => (
            " "@ + to.spec_icon() + " "@,
            " "@ + padded_right(id, 14),
            from.spec_label() + " \u{2192} "@ + to.spec_label() + "  "@,
            truncated(title, 60),
        ),
        EventView::Added { id, title, status, .. } => (
            " + "@,
            " "@ + padded_right(id, 14),
            "added ("@ + status.spec_label() + ")  "@,
            truncated(title, 60),
        ),
        EventView::Removed { id, .. } => (
            " \u{2212} "@,
            " "@ + padded_right(id, 14),
            "removed"@,
            Seq::empty(),
        ),
    }
}

pub fn activity_cells(e: &ActivityEvent) -> (r: ActivityCells)
    ensures
        (r.marker@, r.id@, r.change@, r.title@) == spec_activity_cells(e@),
{
    let (id, title): (&String, Option<&String>) = match e {
        ActivityEvent::StatusChange { id, title, .. } => (id, Some(title)),
        ActivityEvent::Added { id, title, .. } => (id, Some(title)),
        ActivityEvent::Removed { id, .. } => (id, None),
    };
    let mut id_cell = String::new();
    push_str(&mut id_cell, " ");
    let padded = pad_right(id.as_str(), 14);
    push_str(&mut id_cell, padded.as_str());
    let title_cell = match title {
        Some(t) => truncate(t.as_str(), 60),
        None => String::new(),
    };
    let mut marker = String::new();
    let mut change = String::new();
    match e {
        ActivityEvent::StatusChange { from, to, .. } => {
            push_str(&mut marker, " ");
            push_str(&mut marker, to.icon());
            push_str(&mut marker, " ");
            push_str(&mut change, from.label());
            push_str(&mut change, " \u{2192} ");
            push_str(&mut change, to.label());
            push_str(&mut change, "  ");
        },
        ActivityEvent::Added { status, .. } => {
            push_str(&mut marker, " + ");
            push_str(&mut change, "added (");
            push_str(&mut change, status.label());
            push_str(&mut change, ")  ");
        },
        ActivityEvent::Removed { .. } => {
            push_str(&mut marker, " \u{2212} ");
            push_str(&mut change, "removed");
        },
    }
    ActivityCells { marker, id: id_cell, change, title: title_cell }
}

/// The row of the epic list that shows the selected epic: its position
/// among the epics shown, or the first row when it is not among them.
pub fn selected_row(shown: &Vec<usize>, selected_epic: usize) -> (r: usize)
    ensures
        r == match first_position(shown@, selected_epic) {
            Some(p) => p,
            None => 0,
        },
{
    match position_in(shown, selected_epic) {
        Some(p) => p,
        None => 0,
    }
}

/// Width of the id column in the epic list.
pub const EPIC_ID_WIDTH: usize = 18;

/// Width of the title column in the epic list.
pub const EPIC_TITLE_WIDTH: usize = 48;

/// The text columns of an epic's first row in the epic list.
pub struct EpicCells {
    /// The epic's id, after a blank, padded.
    pub id: String,
    /// The title, cut and padded, then a blank.
    pub title: String,
    /// `  <closed>/<total>`.
    pub tally: String,
}

pub fn epic_cells(component: &Component, closed: usize, total: usize) -> (r: EpicCells)
    ensures
        r.id@ == " "@ + padded_right(component.root.id@, EPIC_ID_WIDTH as nat),
        r.title@ == padded_right(truncated(component.root.title@, EPIC_TITLE_WIDTH as nat), EPIC_TITLE_WIDTH as nat)
            + " "@,
        r.tally@ == "  "@ + decimal(closed as nat) + "/"@ + decimal(total as nat),
{
    let mut id = String::new();
    push_str(&mut id, " ");
    let padded = pad_right(component.root.id.as_str(), EPIC_ID_WIDTH);
    push_str(&mut id, padded.as_str());
    let cut = truncate(component.root.title.as_str(), EPIC_TITLE_WIDTH);
    let mut title = pad_right(cut.as_str(), EPIC_TITLE_WIDTH);
    push_str(&mut title, " ");
    let mut tally = String::new();
    push_str(&mut tally, "  ");
    push_decimal(&mut tally, closed as u64);
    push_str(&mut tally, "/");
    push_decimal(&mut tally, total as u64);
    EpicCells { id, title, tally }
}

/// The header's title: the repository, the poll interval and when the
/// last snapshot was fetched.
pub open spec fn spec_header_title(repo: Seq<char>, interval_secs: nat, refreshed: Seq<char>) -> Seq<
    char,
> {
    " bd-watcher \u{b7} repo: "@ + repo + " \u{b7} every "@ + decimal(interval_secs) + "s \u{b7} "@
        + refreshed + " "@
}

pub fn header_title(repo: &str, interval_secs: u64, refreshed: &str) -> (r: String)
    ensures
        r@ == spec_header_title(repo@, interval_secs as nat, refreshed@),
{
    let mut r = String::new();
    push_str(&mut r, " bd-watcher \u{b7} repo: ");
    push_str(&mut r, repo);
    push_str(&mut r, " \u{b7} every ");
    push_decimal(&mut r, interval_secs);
    push_str(&mut r, "s \u{b7} ");
    push_str(&mut r, refreshed);
    push_str(&mut r, " ");
    r
}

/// The banner shown while refreshes fail: when the last one failed, when
/// the next comes, and why.
pub open spec fn spec_error_banner(failed_at: Seq<char>, interval_secs: nat, msg: Seq<char>) -> Seq<
    char,
> {
    " \u{26a0} last refresh failed at "@ + failed_at + " \u{2014} retrying in "@ + decimal(
        interval_secs,
    ) + "s \u{b7} "@ + msg
}

pub fn error_banner(failed_at: &str, interval_secs: u64, msg: &str) -> (r: String)
    ensures
        r@ == spec_error_banner(failed_at@, interval_secs as nat, msg@),
{
    let mut r = String::new();
    push_str(&mut r, " \u{26a0} last refresh failed at ");
    push_str(&mut r, failed_at);
    push_str(&mut r, " \u{2014} retrying in ");
    push_decimal(&mut r, interval_secs);
    push_str(&mut r, "s \u{b7} ");
    push_str(&mut r, msg);
    r
}

/// The width of a child's title in the children panel: what a panel
/// `panel_width` wide leaves after 20 columns, but never under 10.
pub open spec fn spec_child_title_width(panel_width: nat) -> nat {
    if panel_width >= 30 {
        (panel_width - 20) as nat
    } else {
        10
    }
}

/// One sub-bead in the children panel.
pub struct ChildRow {
    /// Its position in the component's issues.
    pub issue: usize,
    /// Its id, padded to 14.
    pub id: String,
    /// Its title, cut to the title width.
    pub title: String,
    /// The ids blocking it, comma-separated (empty for none).
    pub blocked_by: String,
}

/// What row `r` says of the issue at position `i`.
pub open spec fn child_row_ok(c: Component, panel_width: nat, i: usize, r: ChildRow) -> bool {
    let issue = c.issues@[i as int];
    &&& r.issue == i
    &&& r.id@ == padded_right(issue.id@, 14)
    &&& r.title@ == truncated(issue.title@, spec_child_title_width(panel_width))
    &&& r.blocked_by@ == joined(blockers(c, issue.id@, c.dependencies@.len()), ", "@)
}

/// The rows of the children panel: every sub-bead but the root epic, in
/// the component's order.
pub fn child_rows(component: &Component, panel_width: usize) -> (r: Vec<ChildRow>)
    ensures
        r@.len() == children_upto(*component, component.issues@.len()).len(),
        forall|j: int|
            0 <= j < r@.len() ==> child_row_ok(
                *component,
                panel_width as nat,
                children_upto(*component, component.issues@.len())[j],
                #[trigger] r@[j],
            ),
{
    let children = child_indices(component);
    let w = panel_width.saturating_sub(20);
    let title_width = if w >= 10 {
        w
    } else {
        10
    };
    let mut r: Vec<ChildRow> = Vec::new();
    let mut j: usize = 0;
    while j < children.len()
        invariant
            j <= children.len(),
            children@ == children_upto(*component, component.issues@.len()),
            title_width == spec_child_title_width(panel_width as nat),
            r@.len() == j,
            forall|k: int|
                0 <= k < j ==> child_row_ok(*component, panel_width as nat, children@[k], #[trigger] r@[k]),
        decreases children.len() - j,
    {
        let i = children[j];
        proof {
            lemma_children_in_range(*component, component.issues@.len(), j as int);
        }
        let issue = &component.issues[i];
        let id = pad_right(issue.id.as_str(), 14);
        let title = truncate(issue.title.as_str(), title_width);
        let ids = blocked_by_ids(component, issue.id.as_str());
        let blocked_by = join(&ids, ", ");
        r.push(ChildRow { issue: i, id, title, blocked_by });
        j = j + 1;
    }
    r
}

proof fn lemma_children_in_range(c: Component, k: nat, j: int)
    requires
        k <= c.issues@.len(),
        0 <= j < children_upto(c, k).len(),
    ensures
        (children_upto(c, k)[j] as int) < k,
    decreases k,
{
    if k > 0 {
        let rest = children_upto(c, (k - 1) as nat);
        if j < rest.len() {
            lemma_children_in_range(c, (k - 1) as nat, j);
            if !crate::ui::layers::is_root_issue(c, k - 1) {
                assert(children_upto(c, k)[j] == rest[j]);
            }
        }
    }
}

/// The activity pane's title: how many events the log holds, and a mark
/// when the pane has the keyboard.
pub open spec fn spec_activity_title(count: nat, focused: bool) -> Seq<char> {
    " Activity (last "@ + decimal(count) + (if focused {
        ") \u{b7} focus "@
    } else {
        ") "@
    })
}

pub fn activity_title(count: usize, focused: bool) -> (r: String)
    ensures
        r@ == spec_activity_title(count as nat, focused),
{
    let mut r = String::new();
    push_str(&mut r, " Activity (last ");
    push_decimal(&mut r, count as u64);
    if focused {
        push_str(&mut r, ") \u{b7} focus ");
    } else {
        push_str(&mut r, ") ");
    }
    r
}

/// How far the popup's description is scrolled as shown: the requested
/// scroll, but no further than leaves the last line on screen.
pub open spec fn spec_popup_offset(scroll: u16, total_lines: u16, height: u16) -> u16 {
    let h: int = if height >= 1 {
        height as int
    } else {
        1
    };
    let max_scroll: int = if total_lines >= h {
        total_lines - h
    } else {
        0
    };
    if scroll <= max_scroll {
        scroll
    } else {
        max_scroll as u16
    }
}

pub fn popup_offset(scroll: u16, total_lines: u16, height: u16) -> (r: u16)
    ensures
        r == spec_popup_offset(scroll, total_lines, height),
{
    let h = if height >= 1 {
        height
    } else {
        1
    };
    let max_scroll = total_lines.saturating_sub(h);
    if scroll <= max_scroll {
        scroll
    } else {
        max_scroll
    }
}

/// An optional field as shown: its text, or a dash when it is missing.
pub open spec fn or_dash(o: Option<Seq<char>>) -> Seq<char> {
    match o {
        Some(s) => s,
        None => "\u{2014}"@,
    }
}

/// An integer in decimal, with a minus sign when negative.
pub open spec fn signed_decimal(n: int) -> Seq<char> {
    if n < 0 {
        "-"@ + decimal((-n) as nat)
    } else {
        decimal(n as nat)
    }
}

/// The fields of an issue as its detail views show them.
pub struct IssueMeta {
    /// `<icon> <label>`.
    pub status: String,
    /// The priority in decimal.
    pub priority: String,
    /// The issue type.
    pub kind: String,
    /// The owner, or a dash.
    pub owner: String,
    /// The external reference, or a dash.
    pub external: String,
}

pub fn issue_meta(issue: &Issue) -> (r: IssueMeta)
    ensures
        r.status@ == spec_status_text(issue.status),
        r.priority@ == signed_decimal(issue.priority as int),
        r.kind@ == issue.issue_type@,
        r.owner@ == or_dash(opt_string_view(issue.owner)),
        r.external@ == or_dash(opt_string_view(issue.external_ref)),
{
    let status = status_text(issue.status);
    let mut priority = String::new();
    if issue.priority < 0 {
        push_str(&mut priority, "-");
        let magnitude: u64 = (-(issue.priority as i64)) as u64;
        push_decimal(&mut priority, magnitude);
    } else {
        push_decimal(&mut priority, issue.priority as u64);
    }
    let kind = issue.issue_type.clone();
    let owner = match &issue.owner {
        Some(o) => o.clone(),
        None => "\u{2014}".to_owned(),
    };
    let external = match &issue.external_ref {
        Some(e) => e.clone(),
        None => "\u{2014}".to_owned(),
    };
    IssueMeta { status, priority, kind, owner, external }
}

/// The first position of a line feed in `s` at or after `i`, if any.
pub open spec fn next_newline(s: Seq<char>, i: int) -> Option<int>
    decreases s.len() - i,
{
    if i >= s.len() || i < 0 {
        None
    } else if s[i] == '\n' {
        Some(i)
    } else {
        next_newline(s, i + 1)
    }
}

/// A line without the carriage return that ended it, if any.
pub open spec fn without_cr(line: Seq<char>) -> Seq<char> {
    if line.len() > 0 && line.last() == '\r' {
        line.drop_last()
    } else {
        line
    }
}

/// The lines of `s[i..]`, as `str::lines` gives them: split at each line
/// feed, a carriage return just before it dropped; a final line feed ends
/// the last line rather than starting an empty one.
pub open spec fn lines_from(s: Seq<char>, i: int) -> Seq<Seq<char>>
    decreases s.len() - i,
{
    if i >= s.len() || i < 0 {
        Seq::empty()
    } else {
        match next_newline(s, i) {
            None => seq![s.subrange(i, s.len() as int)],
            Some(j) => {
                if j + 1 <= s.len() && j >= i {
                    seq![without_cr(s.subrange(i, j))] + lines_from(s, j + 1)
                } else {
                    Seq::empty()
                }
            },
        }
    }
}

proof fn lemma_next_newline_bounds(s: Seq<char>, i: int)
    ensures
        next_newline(s, i) matches Some(j) ==> 0 <= i <= j < s.len() && s[j] == '\n' && forall|k: int|
            i <= k < j ==> s[k] != '\n',
        next_newline(s, i) is None && 0 <= i ==> forall|k: int| i <= k < s.len() ==> s[k] != '\n',
    decreases s.len() - i,
{
    if 0 <= i < s.len() && s[i] != '\n' {
        lemma_next_newline_bounds(s, i + 1);
    }
}

/// The lines of a description, as `str::lines` splits it.
pub fn description_lines(text: &str) -> (r: Vec<String>)
    ensures
        string_views(r@) == lines_from(text@, 0),
{
    let v = crate::text::chars_of(text);
    let n = v.len();
    let mut r: Vec<String> = Vec::new();
    let mut start: usize = 0;
    let mut i: usize = 0;
    while i < n
        invariant
            n == v.len(),
            v@ == text@,
            start <= i <= n,
            forall|k: int| start <= k < i ==> v@[k] != '\n',
            lines_from(text@, 0) == string_views(r@) + lines_from(text@, start as int),
        decreases n - i,
    {
        if v[i] == '\n' {
            proof {
                lemma_next_newline_bounds(v@, start as int);
                assert(next_newline(v@, start as int) == Some(i as int)) by {
                    lemma_next_newline_at(v@, start as int, i as int);
                }
            }
            let end = if i > start && v[i - 1] == '\r' {
                i - 1
            } else {
                i
            };
            let line = crate::text::string_of_range(&v, start, end);
            proof {
                assert(without_cr(v@.subrange(start as int, i as int)) == v@.subrange(
                    start as int,
                    end as int,
                ));
            }
            let ghost before = string_views(r@);
            r.push(line);
            assert(string_views(r@) =~= before.push(line@));
            assert(lines_from(text@, start as int) == seq![line@] + lines_from(text@, i + 1));
            assert(before + lines_from(text@, start as int) =~= string_views(r@) + lines_from(
                text@,
                i + 1,
            ));
            start = i + 1;
        }
        i = i + 1;
    }
    if start < n {
        let line = crate::text::string_of_range(&v, start, n);
        proof {
            lemma_next_newline_bounds(v@, start as int);
            lemma_no_newline_after(v@, start as int);
        }
        let ghost before = string_views(r@);
        r.push(line);
        assert(string_views(r@) =~= before.push(line@));
        assert(lines_from(text@, start as int) == seq![line@]);
        assert(before + lines_from(text@, start as int) =~= string_views(r@));
    } else {
        assert(lines_from(text@, start as int) == Seq::<Seq<char>>::empty());
        assert(string_views(r@) + lines_from(text@, start as int) =~= string_views(r@));
    }
    r
}

proof fn lemma_next_newline_at(s: Seq<char>, i: int, j: int)
    requires
        0 <= i <= j < s.len(),
        s[j] == '\n',
        forall|k: int| i <= k < j ==> s[k] != '\n',
    ensures
        next_newline(s, i) == Some(j),
    decreases j - i,
{
    if i < j {
        lemma_next_newline_at(s, i + 1, j);
    }
}

proof fn lemma_no_newline_after(s: Seq<char>, i: int)
    requires
        0 <= i <= s.len(),
        forall|k: int| i <= k < s.len() ==> s[k] != '\n',
    ensures
        next_newline(s, i) is None,
    decreases s.len() - i,
{
    if i < s.len() {
        lemma_no_newline_after(s, i + 1);
    }
}

/// The smallest terminal the dashboard draws itself in.
pub const MIN_WIDTH: u16 = 80;

pub const MIN_HEIGHT: u16 = 24;

/// Whether a terminal of this size is large enough for the dashboard
/// (otherwise a placeholder asks for a larger one).
pub fn fits_dashboard(width: u16, height: u16) -> (r: bool)
    ensures
        r == (width >= MIN_WIDTH && height >= MIN_HEIGHT),
{
    width >= MIN_WIDTH && height >= MIN_HEIGHT
}

/// Whether the detail popup's rectangle is large enough to draw.
pub fn popup_fits(area: Area) -> (r: bool)
    ensures
        r == (area.width >= 40 && area.height >= 10),
{
    area.width >= 40 && area.height >= 10
}

} // verus!
