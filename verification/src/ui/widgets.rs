//! What the dashboard shows, apart from drawing it: per-epic tallies,
//! progress bars, scrolling, PR cells, shortened ids and dependency labels.
use vstd::prelude::*;

use crate::gh::{opt_view, parse_pr_number, pr_number_of};
use crate::model::{
    count_component, derefs, counted, tag_root, Component, DepType, Dependency, Status, StatusCounts,
};
use crate::text::{
    chars_equal, chars_of, decimal, lemma_truncated_len, padded_right, push_all, push_decimal,
    push_repeated, push_str, repeated, string_of, string_views, sub_chars, truncated,
};
use crate::theme::{Color, Theme};
use crate::ui::layers::{is_ordering, is_root_issue};

pub use crate::text::{pad_right, truncate};
pub use crate::ui::layers::{compute_layers, visual_sub_order};

verus! {

/// The colour the theme gives a status.
pub open spec fn spec_status_color(theme: Theme, status: Status) -> Color {
    match status {
        Status::Open => theme.status_open,
        Status::InProgress => theme.status_in_progress,
        Status::Blocked => theme.status_blocked,
        Status::Closed => theme.status_closed,
        Status::Deferred => theme.status_deferred,
    }
}

pub fn status_color(theme: &Theme, status: Status) -> (c: Color)
    ensures
        c == spec_status_color(*theme, status),
{
    match status {
        Status::Open => theme.status_open,
        Status::InProgress => theme.status_in_progress,
        Status::Blocked => theme.status_blocked,
        Status::Closed => theme.status_closed,
        Status::Deferred => theme.status_deferred,
    }
}

/// Counts the component's sub-beads — excludes the root epic itself,
/// which is a container, not real work. A 5/10-done epic means five
/// of its ten sub-beads are closed.
pub fn counts_for(component: &Component) -> (r: StatusCounts)
    ensures
        r.tallies(counted(tag_root(*component))),
{
    let mut counts = StatusCounts::zero();
    let mut seen = Vec::new();
    assert(derefs(seen@) =~= Seq::<crate::model::Issue>::empty());
    count_component(component, &mut seen, &mut counts, Ghost(Seq::empty()));
    assert(Seq::<(Seq<char>, crate::model::Issue)>::empty() + tag_root(*component) =~= tag_root(
        *component,
    ));
    counts
}

/// The filled cell of a progress bar.
pub open spec fn bar_filled() -> char {
    '\u{2593}'
}

/// The empty cell of a progress bar.
pub open spec fn bar_empty() -> char {
    '\u{2591}'
}

/// `filled_width` filled cells, then empty cells up to `total_width`.
pub fn progress_bar(filled_width: usize, total_width: usize) -> (r: String)
    ensures
        r@ == repeated(bar_filled(), filled_width as nat) + repeated(
            bar_empty(),
            (if total_width > filled_width {
                total_width - filled_width
            } else {
                0
            }) as nat,
        ),
{
    let mut r = String::new();
    push_repeated(&mut r, '\u{2593}', filled_width);
    let empty = if total_width > filled_width {
        total_width - filled_width
    } else {
        0
    };
    push_repeated(&mut r, '\u{2591}', empty);
    assert(r@ =~= repeated(bar_filled(), filled_width as nat) + repeated(bar_empty(), empty as nat));
    r
}

/// `width` scaled by the share `part / whole`, rounded to the nearest whole
/// number (a half rounds up); 0 when `whole` is 0.
pub open spec fn rounded_share(part: nat, whole: nat, width: nat) -> nat {
    if whole == 0 {
        0
    } else {
        (2 * width * part + whole) / (2 * whole)
    }
}

proof fn lemma_rounded_share(w: int, c: int, t: int, q: int, rem: int)
    requires
        t > 0,
        0 <= c <= t,
        0 <= w,
        w * c == q * t + rem,
        0 <= rem < t,
    ensures
        (2 * w * c + t) / (2 * t) == q + (if 2 * rem >= t {
            1int
        } else {
            0int
        }),
        q + (if 2 * rem >= t {
            1int
        } else {
            0int
        }) <= w,
        0 <= q,
{
    let b: int = if 2 * rem >= t {
        1
    } else {
        0
    };
    assert(2 * w * c + t == (q + b) * (2 * t) + (2 * rem + t - 2 * t * b)) by (nonlinear_arith)
        requires
            w * c == q * t + rem,
    ;
    vstd::arithmetic::div_mod::lemma_fundamental_div_mod_converse(
        2 * w * c + t,
        2 * t,
        q + b,
        2 * rem + t - 2 * t * b,
    );
    assert(w * c <= w * t) by (nonlinear_arith)
        requires
            0 <= w,
            c <= t,
    ;
    assert(q * t <= w * t);
    assert(q >= 0) by (nonlinear_arith)
        requires
            t > 0,
            q * t + rem >= 0,
            rem < t,
    ;
    assert(q <= w) by (nonlinear_arith)
        requires
            t > 0,
            q * t <= w * t,
    ;
    if q == w {
        assert(w * c == w * t + rem);
        assert(rem == 0);
    }
}

/// How many of `width` cells a bar fills for the closed share of `counts`:
/// `width * closed / total`, rounded to the nearest cell.
pub fn filled_width(counts: &StatusCounts, width: usize) -> (r: usize)
    requires
        counts.spec_total() <= usize::MAX,
    ensures
        r == rounded_share(counts.closed as nat, counts.spec_total(), width as nat),
        r <= width,
{
    let total = counts.total();
    if total == 0 {
        return 0;
    }
    let w = width as u128;
    let c = counts.closed as u128;
    let t = total as u128;
    assert(w * c <= 0xffff_ffff_ffff_ffff * 0xffff_ffff_ffff_ffff) by (nonlinear_arith)
        requires
            w <= 0xffff_ffff_ffff_ffff,
            c <= 0xffff_ffff_ffff_ffff,
    ;
    let wc = w * c;
    let q = wc / t;
    let rem = wc % t;
    let bump: u128 = if 2 * rem >= t {
        1
    } else {
        0
    };
    proof {
        vstd::arithmetic::div_mod::lemma_fundamental_div_mod(wc as int, t as int);
        lemma_rounded_share(w as int, c as int, t as int, q as int, rem as int);
    }
    (q + bump) as usize
}

/// How many epics fit in `inner_lines` lines (at least one).
pub open spec fn visible_epics(lines_per_epic: nat, inner_lines: nat) -> nat {
    if inner_lines / lines_per_epic >= 1 {
        inner_lines / lines_per_epic
    } else {
        1
    }
}

/// How many epics to keep above the selection when `visible` fit: about
/// half the screen, and at least one whenever two or more fit.
pub open spec fn context_above(visible: nat) -> nat {
    if visible >= 2 {
        if (visible - 1) / 2 >= 1 {
            ((visible - 1) / 2) as nat
        } else {
            1
        }
    } else {
        0
    }
}

/// The first epic shown: one epic of context above the selection when
/// possible, never past the last full screen.
pub open spec fn scroll_top(
    selected_pos: nat,
    lines_per_epic: nat,
    inner_lines: nat,
    total_epics: nat,
) -> nat {
    if inner_lines == 0 || total_epics == 0 {
        0
    } else {
        let visible = visible_epics(lines_per_epic, inner_lines);
        if total_epics <= visible {
            0
        } else {
            let max_top = (total_epics - visible) as nat;
            let half = context_above(visible);
            let desired = (if selected_pos >= half {
                selected_pos - half
            } else {
                0
            }) as nat;
            if desired <= max_top {
                desired
            } else {
                max_top
            }
        }
    }
}

/// Compute line-scroll offset so the selected epic stays visible.
/// Keeps the selected epic in view, preferring to show one epic of context
/// above it when possible, and clamps at the bottom.
pub fn scroll_offset(
    selected_pos: usize,
    lines_per_epic: usize,
    inner_lines: usize,
    total_epics: usize,
) -> (r: usize)
    requires
        lines_per_epic > 0 || inner_lines == 0 || total_epics == 0,
        scroll_top(
            selected_pos as nat,
            lines_per_epic as nat,
            inner_lines as nat,
            total_epics as nat,
        ) * lines_per_epic <= usize::MAX,
    ensures
        r == scroll_top(
            selected_pos as nat,
            lines_per_epic as nat,
            inner_lines as nat,
            total_epics as nat,
        ) * lines_per_epic,
{
    if inner_lines == 0 || total_epics == 0 {
        return 0;
    }
    let per = inner_lines / lines_per_epic;
    let visible_epics = if per >= 1 {
        per
    } else {
        1
    };
    if total_epics <= visible_epics {
        return 0;
    }
    let max_top = total_epics - visible_epics;
    let half = if visible_epics >= 2 {
        if (visible_epics - 1) / 2 >= 1 {
            (visible_epics - 1) / 2
        } else {
            1
        }
    } else {
        0
    };
    let desired_top = if selected_pos >= half {
        selected_pos - half
    } else {
        0
    };
    let top = if desired_top <= max_top {
        desired_top
    } else {
        max_top
    };
    top * lines_per_epic
}

/// The selected epic is on screen: the first epic shown is at or before it,
/// and it is among the epics that fit. When two or more epics fit and the
/// selection is not the first epic, at least one epic of context shows
/// above it. The screen starts at the top when everything fits, and
/// otherwise never runs past the last epic.
pub proof fn lemma_selected_epic_visible(
    selected_pos: nat,
    lines_per_epic: nat,
    inner_lines: nat,
    total_epics: nat,
)
    requires
        selected_pos < total_epics,
        lines_per_epic > 0,
        inner_lines > 0,
    ensures
        scroll_top(selected_pos, lines_per_epic, inner_lines, total_epics) <= selected_pos,
        selected_pos < scroll_top(selected_pos, lines_per_epic, inner_lines, total_epics)
            + visible_epics(lines_per_epic, inner_lines),
        visible_epics(lines_per_epic, inner_lines) >= 2 && selected_pos >= 1 ==> scroll_top(
            selected_pos,
            lines_per_epic,
            inner_lines,
            total_epics,
        ) < selected_pos,
        total_epics <= visible_epics(lines_per_epic, inner_lines) ==> scroll_top(
            selected_pos,
            lines_per_epic,
            inner_lines,
            total_epics,
        ) == 0,
        total_epics > visible_epics(lines_per_epic, inner_lines) ==> scroll_top(
            selected_pos,
            lines_per_epic,
            inner_lines,
            total_epics,
        ) + visible_epics(lines_per_epic, inner_lines) <= total_epics,
{
}

/// Width reserved for the PR column: 2 leading spaces + "#" + up to 6
/// digits + 1 trailing gap before the next column.
pub const PR_CELL_WIDTH: usize = 10;

/// Extracts a GitHub PR number from a bead's `external_ref` when it matches
/// the `gh-<N>` convention. Returns `None` for other ref shapes (jira-*,
/// linear-*), empty refs, or unparseable input.
pub fn pr_number(external_ref: Option<&str>) -> (r: Option<u32>)
    ensures
        r == pr_number_of(opt_view(external_ref)),
{
    parse_pr_number(external_ref)
}

/// The PR column cell: `  #<n>` left-aligned in `PR_CELL_WIDTH` characters
/// (cut with an ellipsis when the number is too long to fit), or blank.
pub open spec fn spec_pr_cell(external_ref: Option<Seq<char>>) -> Seq<char> {
    match pr_number_of(external_ref) {
        Some(n) => padded_right(truncated("  #"@ + decimal(n as nat), 10), 10),
        None => repeated(' ', 10),
    }
}

/// Renders the PR column cell. Always `PR_CELL_WIDTH` characters so the
/// following column stays aligned whether or not a PR ref is present.
pub fn pr_cell(external_ref: Option<&str>) -> (r: String)
    ensures
        r@ == spec_pr_cell(opt_view(external_ref)),
        r@.len() == PR_CELL_WIDTH,
{
    proof {
        lemma_pr_cell_width(opt_view(external_ref));
    }
    match pr_number(external_ref) {
        Some(n) => {
            let mut s = String::new();
            push_str(&mut s, "  #");
            push_decimal(&mut s, n as u64);
            let cut = truncate(s.as_str(), PR_CELL_WIDTH);
            let r = pad_right(cut.as_str(), PR_CELL_WIDTH);
            r
        },
        None => {
            let mut r = String::new();
            push_repeated(&mut r, ' ', PR_CELL_WIDTH);
            assert(r@ =~= repeated(' ', 10));
            r
        },
    }
}

/// `10^k`.
pub open spec fn ten_pow(k: nat) -> nat
    decreases k,
{
    if k == 0 {
        1
    } else {
        10 * ten_pow((k - 1) as nat)
    }
}

proof fn lemma_decimal_len(n: nat, k: nat)
    requires
        k >= 1,
        n < ten_pow(k),
    ensures
        decimal(n).len() <= k,
    decreases k,
{
    if n >= 10 {
        if k == 1 {
            assert(ten_pow(1) == 10) by {
                reveal_with_fuel(ten_pow, 2);
            }
        } else {
            assert(n / 10 < ten_pow((k - 1) as nat));
            lemma_decimal_len(n / 10, (k - 1) as nat);
        }
    }
}

/// The PR cell is always `PR_CELL_WIDTH` characters wide.
pub proof fn lemma_pr_cell_width(external_ref: Option<Seq<char>>)
    ensures
        spec_pr_cell(external_ref).len() == PR_CELL_WIDTH,
{
    if let Some(n) = pr_number_of(external_ref) {
        lemma_truncated_len("  #"@ + decimal(n as nat), 10);
    }
}

/// A PR number of up to six digits leaves a blank at the end of the cell.
pub proof fn lemma_pr_cell_trailing_gap(external_ref: Option<Seq<char>>)
    requires
        pr_number_of(external_ref) matches Some(n) ==> n < 1_000_000,
    ensures
        spec_pr_cell(external_ref).last() == ' ',
        spec_pr_cell(external_ref).len() == 10,
{
    reveal_strlit("  #");
    lemma_pr_cell_width(external_ref);
    if let Some(n) = pr_number_of(external_ref) {
        assert(ten_pow(6) == 1_000_000) by {
            reveal_with_fuel(ten_pow, 7);
        }
        lemma_decimal_len(n as nat, 6);
    }
}

/// `id` with a leading `<root_id>.` replaced by `.`.
pub open spec fn spec_short_id(id: Seq<char>, root_id: Seq<char>) -> Seq<char> {
    let prefix = root_id + "."@;
    if id.len() >= prefix.len() && id.take(prefix.len() as int) == prefix {
        "."@ + id.skip(prefix.len() as int)
    } else {
        id
    }
}

/// Shortens a child id by stripping the root epic prefix. E.g.
/// ("sel3-42wn.10", "sel3-42wn") -> ".10". Full id returned unchanged if the
/// prefix doesn't match.
pub fn short_id(id: &str, root_id: &str) -> (r: String)
    ensures
        r@ == spec_short_id(id@, root_id@),
{
    let v = chars_of(id);
    let mut prefix = chars_of(root_id);
    prefix.push('.');
    proof {
        reveal_strlit(".");
        assert(prefix@ =~= root_id@ + "."@);
    }
    if v.len() >= prefix.len() {
        let head = sub_chars(&v, 0, prefix.len());
        assert(head@ =~= v@.take(prefix.len() as int));
        if chars_equal(&head, &prefix) {
            let rest = sub_chars(&v, prefix.len(), v.len());
            assert(rest@ =~= v@.skip(prefix.len() as int));
            let mut r = String::new();
            push_str(&mut r, ".");
            push_all(&mut r, &rest);
            return r;
        }
    }
    string_of(&v)
}

/// The labels shown after a sub-bead for what it waits on, in dependency
/// order: each `Blocks`/`ParentChild` dependency of `id` between non-root
/// ids, by the short id of what it depends on.
pub open spec fn dep_labels(c: Component, id: Seq<char>, k: nat) -> Seq<Seq<char>>
    decreases k,
{
    if k == 0 || k > c.dependencies@.len() {
        Seq::empty()
    } else {
        let rest = dep_labels(c, id, (k - 1) as nat);
        let d = c.dependencies@[k - 1];
        if is_ordering(d) && d.issue_id@ == id && d.issue_id@ != c.root.id@ && d.depends_on_id@
            != c.root.id@ {
            rest.push(spec_short_id(d.depends_on_id@, c.root.id@))
        } else {
            rest
        }
    }
}

/// Dependency `d` makes issue `id` wait, as the focused view annotates it:
/// a `Blocks` or `ParentChild` dependency of `id` on another issue, neither
/// of them the component's root.
pub open spec fn waits_on(c: Component, id: Seq<char>, d: Dependency) -> bool {
    &&& (d.dep_type == DepType::Blocks || d.dep_type == DepType::ParentChild)
    &&& d.issue_id@ == id
    &&& id != c.root.id@
    &&& d.depends_on_id@ != c.root.id@
}

pub open spec fn waits_on_pred(c: Component, id: Seq<char>) -> spec_fn(Dependency) -> bool {
    |d: Dependency| waits_on(c, id, d)
}

/// The label shown for what `d` depends on: its short id under the root.
pub open spec fn label_of(c: Component) -> spec_fn(Dependency) -> Seq<char> {
    |d: Dependency| spec_short_id(d.depends_on_id@, c.root.id@)
}

proof fn lemma_dep_labels_prefix(c: Component, id: Seq<char>, k: int)
    requires
        0 <= k <= c.dependencies@.len(),
    ensures
        dep_labels(c, id, k as nat) == c.dependencies@.take(k).filter(waits_on_pred(c, id)).map_values(
            label_of(c),
        ),
        forall|j: int|
            0 <= j < k && waits_on(c, id, #[trigger] c.dependencies@[j]) ==> dep_labels(
                c,
                id,
                k as nat,
            ).contains(spec_short_id(c.dependencies@[j].depends_on_id@, c.root.id@)),
    decreases k,
{
    let deps = c.dependencies@;
    if k == 0 {
        reveal(Seq::filter);
        assert(deps.take(0).filter(waits_on_pred(c, id)) =~= Seq::<Dependency>::empty());
        assert(deps.take(0).filter(waits_on_pred(c, id)).map_values(label_of(c)) =~= Seq::<
            Seq<char>,
        >::empty());
    } else {
        lemma_dep_labels_prefix(c, id, k - 1);
        let d = deps[k - 1];
        let prev = deps.take(k - 1);
        assert(deps.take(k) =~= prev.push(d));
        prev.lemma_filter_push(d, waits_on_pred(c, id));
        let f = prev.filter(waits_on_pred(c, id));
        let rest = dep_labels(c, id, (k - 1) as nat);
        if waits_on(c, id, d) {
            assert(f.push(d).map_values(label_of(c)) =~= f.map_values(label_of(c)).push(
                spec_short_id(d.depends_on_id@, c.root.id@),
            ));
        }
        assert forall|j: int|
            0 <= j < k && waits_on(c, id, #[trigger] deps[j]) implies dep_labels(
            c,
            id,
            k as nat,
        ).contains(spec_short_id(deps[j].depends_on_id@, c.root.id@)) by {
            let cur = dep_labels(c, id, k as nat);
            if j < k - 1 {
                let i = choose|i: int|
                    0 <= i < rest.len() && rest[i] == spec_short_id(
                        deps[j].depends_on_id@,
                        c.root.id@,
                    );
                assert(cur[i] == rest[i]);
            } else {
                assert(cur[cur.len() - 1] == spec_short_id(d.depends_on_id@, c.root.id@));
            }
        }
    }
}

/// The labels after a sub-bead name everything it waits on: exactly one
/// label per `Blocks`/`ParentChild` dependency of the sub-bead on a non-root
/// issue, in dependency order, each the short id of what it depends on; so
/// there are as many labels as such dependencies, and each such dependency's
/// short id is among them.
pub proof fn lemma_dependency_labels_list_every_dependency(c: Component, id: Seq<char>)
    ensures
        dep_labels(c, id, c.dependencies@.len()) == c.dependencies@.filter(waits_on_pred(c, id)).map_values(
            label_of(c),
        ),
        dep_labels(c, id, c.dependencies@.len()).len() == c.dependencies@.filter(
            waits_on_pred(c, id),
        ).len(),
        forall|j: int|
            0 <= j < c.dependencies@.len() && waits_on(c, id, #[trigger] c.dependencies@[j])
                ==> dep_labels(c, id, c.dependencies@.len()).contains(
                spec_short_id(c.dependencies@[j].depends_on_id@, c.root.id@),
            ),
{
    lemma_dep_labels_prefix(c, id, c.dependencies@.len() as int);
    assert(c.dependencies@.take(c.dependencies@.len() as int) =~= c.dependencies@);
}

/// The dependency labels of issue `id` within `component`.
pub fn dependency_labels(component: &Component, id: &str) -> (r: Vec<String>)
    ensures
        string_views(r@) == dep_labels(*component, id@, component.dependencies@.len()),
{
    let root = component.root.id.as_str();
    let idv = chars_of(id);
    let rootv = chars_of(root);
    let mut r: Vec<String> = Vec::new();
    let mut k: usize = 0;
    while k < component.dependencies.len()
        invariant
            k <= component.dependencies.len(),
            idv@ == id@,
            rootv@ == component.root.id@,
            root@ == component.root.id@,
            string_views(r@) == dep_labels(*component, id@, k as nat),
        decreases component.dependencies.len() - k,
    {
        let d = &component.dependencies[k];
        let ordering = match d.dep_type {
            DepType::Blocks => true,
            DepType::ParentChild => true,
            _ => false,
        };
        let from = chars_of(d.issue_id.as_str());
        let to = chars_of(d.depends_on_id.as_str());
        let ghost before = string_views(r@);
        if ordering && chars_equal(&from, &idv) && !chars_equal(&from, &rootv) && !chars_equal(
            &to,
            &rootv,
        ) {
            let label = short_id(d.depends_on_id.as_str(), root);
            r.push(label);
            assert(string_views(r@) =~= before.push(label@));
        }
        k = k + 1;
    }
    r
}

/// The ids that issue `id` is blocked by (its `Blocks` dependencies), in
/// dependency order.
pub open spec fn blockers(c: Component, id: Seq<char>, k: nat) -> Seq<Seq<char>>
    decreases k,
{
    if k == 0 || k > c.dependencies@.len() {
        Seq::empty()
    } else {
        let rest = blockers(c, id, (k - 1) as nat);
        let d = c.dependencies@[k - 1];
        if d.dep_type == DepType::Blocks && d.issue_id@ == id {
            rest.push(d.depends_on_id@)
        } else {
            rest
        }
    }
}

/// The ids that block issue `id` within `component`.
pub fn blocked_by_ids(component: &Component, id: &str) -> (r: Vec<String>)
    ensures
        string_views(r@) == blockers(*component, id@, component.dependencies@.len()),
{
    let idv = chars_of(id);
    let mut r: Vec<String> = Vec::new();
    let mut k: usize = 0;
    while k < component.dependencies.len()
        invariant
            k <= component.dependencies.len(),
            idv@ == id@,
            string_views(r@) == blockers(*component, id@, k as nat),
        decreases component.dependencies.len() - k,
    {
        let d = &component.dependencies[k];
        let from = chars_of(d.issue_id.as_str());
        let ghost before = string_views(r@);
        let blocks = match d.dep_type {
            DepType::Blocks => true,
            _ => false,
        };
        if blocks && chars_equal(&from, &idv) {
            let s = d.depends_on_id.clone();
            r.push(s);
            assert(string_views(r@) =~= before.push(s@));
        }
        k = k + 1;
    }
    r
}

/// The positions of the non-root issues, in order.
pub open spec fn children_upto(c: Component, k: nat) -> Seq<usize>
    decreases k,
{
    if k == 0 || k > c.issues@.len() {
        Seq::empty()
    } else if is_root_issue(c, k - 1) {
        children_upto(c, (k - 1) as nat)
    } else {
        children_upto(c, (k - 1) as nat).push((k - 1) as usize)
    }
}

/// The positions in `component.issues` of everything but the root epic.
pub fn child_indices(component: &Component) -> (r: Vec<usize>)
    ensures
        r@ == children_upto(*component, component.issues@.len()),
{
    let mut r: Vec<usize> = Vec::new();
    let mut k: usize = 0;
    while k < component.issues.len()
        invariant
            k <= component.issues.len(),
            r@ == children_upto(*component, k as nat),
        decreases component.issues.len() - k,
    {
        if component.issues[k].id != component.root.id {
            r.push(k);
        }
        k = k + 1;
    }
    r
}

/// A rectangle of terminal cells.
#[derive(Debug, Clone, Copy, PartialEq, Eq, Structural)]
pub struct Area {
    pub x: u16,
    pub y: u16,
    pub width: u16,
    pub height: u16,
}

/// `len * pct / 100`, the product saturating at `u16::MAX`.
pub open spec fn scaled(len: u16, pct: u16) -> int {
    (if len * pct > u16::MAX {
        u16::MAX as int
    } else {
        len * pct
    }) / 100
}

/// The rectangle `width_pct`% by `height_pct`% of `area`, centred in it.
pub open spec fn spec_centered(area: Area, width_pct: u16, height_pct: u16) -> Area {
    let w = scaled(area.width, width_pct);
    let h = scaled(area.height, height_pct);
    Area {
        x: (area.x + (if area.width >= w {
            area.width - w
        } else {
            0
        }) / 2) as u16,
        y: (area.y + (if area.height >= h {
            area.height - h
        } else {
            0
        }) / 2) as u16,
        width: w as u16,
        height: h as u16,
    }
}

/// `a * b`, saturating at `u16::MAX` (as `u16::saturating_mul`).
fn saturating_mul_u16(a: u16, b: u16) -> (r: u16)
    ensures
        r == if a * b > u16::MAX {
            u16::MAX as int
        } else {
            a * b
        },
{
    assert((a as u32) * (b as u32) <= 65535 * 65535) by (nonlinear_arith)
        requires
            a <= 65535,
            b <= 65535,
    ;
    let p = (a as u32) * (b as u32);
    if p > 65535 {
        65535
    } else {
        p as u16
    }
}

/// Returns an area centered inside `area`, `width_pct` and `height_pct`
/// as percentages [0..=100].
pub fn centered_rect(area: Area, width_pct: u16, height_pct: u16) -> (r: Area)
    requires
        area.x + (area.width - scaled(area.width, width_pct)) / 2 <= u16::MAX,
        area.y + (area.height - scaled(area.height, height_pct)) / 2 <= u16::MAX,
    ensures
        r == spec_centered(area, width_pct, height_pct),
{
    let w = saturating_mul_u16(area.width, width_pct) / 100;
    let h = saturating_mul_u16(area.height, height_pct) / 100;
    let x = area.x + area.width.saturating_sub(w) / 2;
    let y = area.y + area.height.saturating_sub(h) / 2;
    Area { x, y, width: w, height: h }
}

} // verus!
