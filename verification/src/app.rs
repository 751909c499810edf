//! The dashboard's state and how it changes: snapshots and errors coming in,
//! the activity log, epic and sub-bead selection, the filter, and keys.
use std::collections::VecDeque;
use vstd::prelude::*;
use vstd::view::View as _;

use crate::gh::{opt_string_view, parse_pr_number, pr_number_of, GhRepo};
use crate::model::{utc_now, ActivityEvent, Component, Issue, Snapshot, Timestamp};
use crate::text::{
    chars_of, contains, contains_chars, decimal, first_match_from, occurs_at, push_char, push_decimal,
    push_str, spec_to_lowercase, string_of_range, to_lowercase,
};
use crate::theme::Theme;
use crate::ui::layers::{sub_order, visual_sub_order};

verus! {

/// A moment on the monotonic clock, carried through unchanged.
#[verifier::external_type_specification]
#[verifier::external_body]
pub struct ExInstant(std::time::Instant);

/// `Instant::now()`. Nothing is claimed of the moment returned.
#[verifier::external_body]
fn now_instant() -> std::time::Instant {
    std::time::Instant::now()
}

/// `Instant::elapsed`: the time since `at`. It depends on the clock, so
/// nothing is claimed of it.
#[verifier::external_body]
fn elapsed_since(at: &std::time::Instant) -> std::time::Duration {
    at.elapsed()
}

/// `Duration::as_nanos`: the whole nanoseconds in `d` (a duration is
/// opaque here, so nothing is claimed of the number).
#[verifier::external_body]
fn nanos_of(d: &std::time::Duration) -> u128 {
    d.as_nanos()
}

/// How many activity events are kept.
pub const ACTIVITY_CAP: usize = 100;

/// How long a toast stays up, in nanoseconds.
pub const TOAST_NANOS: u128 = 2_000_000_000;

#[derive(Debug, Clone, Copy, PartialEq, Eq, Structural)]
pub enum View {
    Main,
    Filter,
    /// Centered modal showing full details of the sub-bead at
    /// `selected_sub`. Opened by Enter in focused-epic mode; closed by
    /// Enter or Esc.
    BeadDetail,
}

/// Which pane of the focused-epic view the arrow keys move through.
#[derive(Debug, Clone, Copy, PartialEq, Eq, Structural)]
pub enum FocusedPane {
    /// The layered task list.
    Tasks,
    /// The activity log.
    Activity,
}

pub struct App {
    pub view: View,
    pub theme: Theme,
    pub repo: std::path::PathBuf,
    pub focus: Option<String>,
    pub interval_secs: u64,
    pub snapshot: Option<Snapshot>,
    pub activity: VecDeque<ActivityEvent>,
    pub selected_epic: usize,
    /// Index into the visual order of the focused epic's sub-beads
    /// (see `widgets::visual_sub_order`). Only meaningful when
    /// `focus.is_some()` and a snapshot with children has been loaded.
    pub selected_sub: usize,
    pub filter: String,
    pub last_error: Option<(Timestamp, String)>,
    /// Transient status message shown in the footer (e.g. "copied demo-abc").
    pub toast: Option<(std::time::Instant, String)>,
    /// First half of a vim-style `gg` chord. Cleared by any other key.
    pub pending_g: bool,
    pub should_quit: bool,
    /// The GitHub repository the beads' PRs live in, when known.
    pub gh_repo: Option<GhRepo>,
    /// The pane of the focused-epic view that has the keyboard.
    pub focused_pane: FocusedPane,
    /// How many lines down the detail popup's description is scrolled.
    pub popup_scroll: u16,
    /// How many of the newest activity events are scrolled past.
    pub activity_scroll: usize,
}

/// Appends `e`, first dropping the oldest entry when the log is full.
pub open spec fn capped_push(q: Seq<ActivityEvent>, e: ActivityEvent) -> Seq<ActivityEvent> {
    if q.len() >= ACTIVITY_CAP {
        q.drop_first().push(e)
    } else {
        q.push(e)
    }
}

/// The log after recording, in order, the status changes among `evs`.
pub open spec fn logged(q: Seq<ActivityEvent>, evs: Seq<ActivityEvent>) -> Seq<ActivityEvent>
    decreases evs.len(),
{
    if evs.len() == 0 {
        q
    } else {
        let q2 = logged(q, evs.drop_last());
        if evs.last() is StatusChange {
            capped_push(q2, evs.last())
        } else {
            q2
        }
    }
}

/// The status changes among `evs`, in order.
pub open spec fn status_changes(evs: Seq<ActivityEvent>) -> Seq<ActivityEvent>
    decreases evs.len(),
{
    if evs.len() == 0 {
        Seq::empty()
    } else if evs.last() is StatusChange {
        status_changes(evs.drop_last()).push(evs.last())
    } else {
        status_changes(evs.drop_last())
    }
}

/// The last `n` entries of `s` (all of them when there are fewer).
pub open spec fn keep_last(s: Seq<ActivityEvent>, n: nat) -> Seq<ActivityEvent> {
    if s.len() > n {
        s.skip(s.len() - n)
    } else {
        s
    }
}

/// One push keeps the log bounded: from a log of at most `ACTIVITY_CAP`
/// events, the new event goes to the back and the log is the last
/// `ACTIVITY_CAP` of the old events followed by it (the oldest dropping off
/// only when the log was full).
pub proof fn lemma_push_keeps_latest(q: Seq<ActivityEvent>, e: ActivityEvent)
    requires
        q.len() <= ACTIVITY_CAP,
    ensures
        capped_push(q, e) == keep_last(q.push(e), ACTIVITY_CAP as nat),
        capped_push(q, e).len() <= ACTIVITY_CAP,
        capped_push(q, e).last() == e,
{
    if q.len() >= ACTIVITY_CAP {
        assert(q.drop_first().push(e) =~= q.push(e).skip(1));
    }
}

/// The activity log is a bounded buffer: it holds the last `ACTIVITY_CAP`
/// status changes, oldest first, the oldest dropping off.
pub proof fn lemma_log_keeps_latest(q: Seq<ActivityEvent>, evs: Seq<ActivityEvent>)
    requires
        q.len() <= ACTIVITY_CAP,
    ensures
        logged(q, evs) == keep_last(q + status_changes(evs), ACTIVITY_CAP as nat),
        logged(q, evs).len() <= ACTIVITY_CAP,
    decreases evs.len(),
{
    if evs.len() > 0 {
        lemma_log_keeps_latest(q, evs.drop_last());
        let s = q + status_changes(evs.drop_last());
        if evs.last() is StatusChange {
            let e = evs.last();
            assert(q + status_changes(evs) =~= s.push(e));
            let k = keep_last(s, ACTIVITY_CAP as nat);
            if s.len() >= ACTIVITY_CAP {
                assert(k.drop_first().push(e) =~= keep_last(s.push(e), ACTIVITY_CAP as nat));
            } else {
                assert(k =~= s);
            }
        } else {
            assert(q + status_changes(evs) =~= s);
        }
    } else {
        assert(q + status_changes(evs) =~= q);
    }
}

/// The events behind a list of references.
pub open spec fn event_refs(v: Seq<&ActivityEvent>) -> Seq<ActivityEvent> {
    v.map_values(|e: &ActivityEvent| *e)
}

/// What the activity pane lists in `rows` lines: the log newest first,
/// skipping the `scroll` newest events (at most all but the oldest).
pub open spec fn shown_activity(q: Seq<ActivityEvent>, scroll: usize, rows: nat) -> Seq<ActivityEvent> {
    if q.len() == 0 {
        Seq::empty()
    } else {
        let off: int = if scroll < q.len() {
            scroll as int
        } else {
            q.len() - 1
        };
        let n: int = if rows < q.len() - off {
            rows as int
        } else {
            q.len() - off
        };
        Seq::new(n as nat, |i: int| q[q.len() - 1 - off - i])
    }
}

/// The filter, lowercased, keeps an epic when it is empty or occurs in the
/// lowercased id or title of the epic's root.
pub open spec fn epic_matches(q: Seq<char>, c: Component) -> bool {
    ||| q.len() == 0
    ||| contains_chars(spec_to_lowercase(c.root.id@), q)
    ||| contains_chars(spec_to_lowercase(c.root.title@), q)
}

/// The positions among `comps[..k]` of the epics that the filter keeps.
pub open spec fn matching_epics(q: Seq<char>, comps: Seq<Component>, k: nat) -> Seq<usize>
    decreases k,
{
    if k == 0 || k > comps.len() {
        Seq::empty()
    } else {
        let rest = matching_epics(q, comps, (k - 1) as nat);
        if epic_matches(q, comps[k - 1]) {
            rest.push((k - 1) as usize)
        } else {
            rest
        }
    }
}

proof fn lemma_matching_epics_bounds(q: Seq<char>, comps: Seq<Component>, k: nat)
    requires
        k <= comps.len(),
    ensures
        matching_epics(q, comps, k).len() <= k,
        forall|j: int|
            0 <= j < matching_epics(q, comps, k).len() ==> #[trigger] matching_epics(q, comps, k)[j] < k,
    decreases k,
{
    if k > 0 {
        lemma_matching_epics_bounds(q, comps, (k - 1) as nat);
    }
}

proof fn lemma_matching_epics_members(q: Seq<char>, comps: Seq<Component>, m: nat)
    requires
        m <= comps.len(),
        comps.len() <= usize::MAX,
    ensures
        forall|x: usize|
            #[trigger] matching_epics(q, comps, m).contains(x) <==> ((x as int) < m && epic_matches(
                q,
                comps[x as int],
            )),
        forall|i: int, j: int|
            0 <= i < j < matching_epics(q, comps, m).len() ==> #[trigger] matching_epics(q, comps, m)[i]
                < #[trigger] matching_epics(q, comps, m)[j],
    decreases m,
{
    if m > 0 {
        lemma_matching_epics_members(q, comps, (m - 1) as nat);
        lemma_matching_epics_bounds(q, comps, (m - 1) as nat);
        let rest = matching_epics(q, comps, (m - 1) as nat);
        let cur = matching_epics(q, comps, m);
        assert forall|x: usize| #[trigger] cur.contains(x) <==> ((x as int) < m && epic_matches(
            q,
            comps[x as int],
        )) by {
            if epic_matches(q, comps[m - 1]) {
                assert(cur == rest.push((m - 1) as usize));
                if cur.contains(x) && x != (m - 1) as usize {
                    let i = choose|i: int| 0 <= i < cur.len() && cur[i] == x;
                    assert(rest[i] == x);
                    assert(rest.contains(x));
                }
                if (x as int) < m - 1 && epic_matches(q, comps[x as int]) {
                    assert(rest.contains(x));
                    let i = choose|i: int| 0 <= i < rest.len() && rest[i] == x;
                    assert(cur[i] == x);
                }
                if x == (m - 1) as usize {
                    assert(cur[cur.len() - 1] == x);
                }
            } else {
                assert(cur == rest);
                if cur.contains(x) {
                    let i = choose|i: int| 0 <= i < cur.len() && cur[i] == x;
                    assert(rest[i] < m - 1);
                    assert(rest.contains(x));
                }
                if (x as int) < m && epic_matches(q, comps[x as int]) {
                    assert(x as int != m - 1);
                    assert(rest.contains(x));
                }
            }
        }
        assert forall|i: int, j: int|
            0 <= i < j < cur.len() implies #[trigger] cur[i] < #[trigger] cur[j] by {
            if epic_matches(q, comps[m - 1]) {
                assert(cur == rest.push((m - 1) as usize));
                assert(cur[i] == rest[i]);
                if j < rest.len() {
                    assert(cur[j] == rest[j]);
                }
            } else {
                assert(cur == rest);
            }
        }
    }
}

proof fn lemma_occurs_found(h: Seq<char>, n: Seq<char>, i: int, j: int)
    requires
        0 <= j <= i,
        i + n.len() <= h.len(),
        h.subrange(i, i + n.len()) == n,
    ensures
        first_match_from(h, n, j) is Some,
    decreases i - j,
{
    if j < i && !occurs_at(h, n, j) {
        lemma_occurs_found(h, n, i, j + 1);
    }
}

/// `n` stands somewhere in `h` as a contiguous run.
pub open spec fn has_run(h: Seq<char>, n: Seq<char>) -> bool {
    exists|i: int| 0 <= i && i + n.len() <= h.len() && #[trigger] h.subrange(i, i + n.len()) == n
}

proof fn lemma_contains_chars_is_run(h: Seq<char>, n: Seq<char>)
    ensures
        contains_chars(h, n) <==> has_run(h, n),
{
    crate::text::lemma_first_match_from(h, n, 0);
    if has_run(h, n) {
        let i = choose|i: int| 0 <= i && i + n.len() <= h.len() && #[trigger] h.subrange(i, i + n.len()) == n;
        lemma_occurs_found(h, n, i, 0);
    }
    if contains_chars(h, n) {
        let i = first_match_from(h, n, 0)->0;
        assert(h.subrange(i, i + n.len()) == n);
    }
}

/// The filter keeps an epic exactly when the lowercased filter is empty or
/// stands somewhere, as a contiguous run, in the epic's lowercased root id
/// or title; the epics it keeps come in their order in the snapshot.
pub proof fn lemma_filter_keeps_substring_matches(app: App, snap: Snapshot)
    ensures
        forall|k: int|
            0 <= k < snap.components@.len() ==> (#[trigger] app.spec_filtered(snap).contains(
                k as usize,
            ) <==> ({
                let q = spec_to_lowercase(app.filter@);
                let c = snap.components@[k];
                ||| q.len() == 0
                ||| has_run(spec_to_lowercase(c.root.id@), q)
                ||| has_run(spec_to_lowercase(c.root.title@), q)
            })),
        forall|x: usize| #[trigger]
            app.spec_filtered(snap).contains(x) ==> (x as int) < snap.components@.len(),
        forall|i: int, j: int|
            0 <= i < j < app.spec_filtered(snap).len() ==> #[trigger] app.spec_filtered(snap)[i]
                < #[trigger] app.spec_filtered(snap)[j],
{
    let q = spec_to_lowercase(app.filter@);
    let comps = snap.components@;
    assert(comps.len() == snap.components.len());
    lemma_matching_epics_members(q, comps, comps.len());
    assert forall|k: int| 0 <= k < comps.len() implies (#[trigger] app.spec_filtered(snap).contains(
        k as usize,
    ) <==> ({
        let c = comps[k];
        ||| q.len() == 0
        ||| has_run(spec_to_lowercase(c.root.id@), q)
        ||| has_run(spec_to_lowercase(c.root.title@), q)
    })) by {
        let c = comps[k];
        lemma_contains_chars_is_run(spec_to_lowercase(c.root.id@), q);
        lemma_contains_chars_is_run(spec_to_lowercase(c.root.title@), q);
        assert((k as usize) as int == k);
    }
}

/// A filter that is empty once lowercased shows every epic, in order.
pub proof fn lemma_empty_filter_shows_all(comps: Seq<Component>, k: nat)
    requires
        k <= comps.len(),
    ensures
        matching_epics(Seq::empty(), comps, k) == Seq::new(k, |i: int| i as usize),
    decreases k,
{
    if k > 0 {
        lemma_empty_filter_shows_all(comps, (k - 1) as nat);
        assert(matching_epics(Seq::empty(), comps, k) =~= Seq::new(k, |i: int| i as usize));
    } else {
        assert(matching_epics(Seq::empty(), comps, k) =~= Seq::new(k, |i: int| i as usize));
    }
}

/// The first position of `x` in `s`.
pub open spec fn first_position(s: Seq<usize>, x: usize) -> Option<int>
    decreases s.len(),
{
    if s.len() == 0 {
        None
    } else {
        match first_position(s.drop_last(), x) {
            Some(p) => Some(p),
            None => if s.last() == x {
                Some(s.len() - 1)
            } else {
                None
            },
        }
    }
}

proof fn lemma_first_position_extends(s: Seq<usize>, x: usize, k: int)
    requires
        0 <= k <= s.len(),
        first_position(s.take(k), x) is Some,
    ensures
        first_position(s, x) == first_position(s.take(k), x),
    decreases s.len() - k,
{
    if k < s.len() {
        assert(s.take(k + 1).drop_last() =~= s.take(k));
        lemma_first_position_extends(s, x, k + 1);
    } else {
        assert(s.take(k) =~= s);
    }
}

proof fn lemma_first_position_bounds(s: Seq<usize>, x: usize)
    ensures
        first_position(s, x) matches Some(p) ==> 0 <= p < s.len() && s[p] == x,
        first_position(s, x) is None ==> !s.contains(x),
    decreases s.len(),
{
    if s.len() > 0 {
        lemma_first_position_bounds(s.drop_last(), x);
        if first_position(s, x) is None && s.contains(x) {
            let j = choose|j: int| 0 <= j < s.len() && s[j] == x;
            if j < s.len() - 1 {
                assert(s.drop_last()[j] == x);
            }
        }
    }
}

pub(crate) fn position_in(s: &Vec<usize>, x: usize) -> (r: Option<usize>)
    ensures
        match r {
            Some(p) => first_position(s@, x) == Some(p as int),
            None => first_position(s@, x) is None,
        },
{
    let mut i: usize = 0;
    while i < s.len()
        invariant
            i <= s.len(),
            first_position(s@.take(i as int), x) is None,
        decreases s.len() - i,
    {
        assert(s@.take(i + 1).drop_last() =~= s@.take(i as int));
        if s[i] == x {
            proof {
                lemma_first_position_extends(s@, x, i + 1);
            }
            return Some(i);
        }
        i = i + 1;
    }
    assert(s@.take(i as int) =~= s@);
    None
}

/// `v` limited to `lo..=hi`.
pub open spec fn clamp(v: int, lo: int, hi: int) -> int {
    if v < lo {
        lo
    } else if v > hi {
        hi
    } else {
        v
    }
}

/// Whether the filter keeps an epic, given the lowercased filter, id and
/// title.
pub fn matches_filter(query_lower: &str, id_lower: &str, title_lower: &str) -> (r: bool)
    ensures
        r == (query_lower@.len() == 0 || contains_chars(id_lower@, query_lower@) || contains_chars(
            title_lower@,
            query_lower@,
        )),
{
    let q = chars_of(query_lower);
    if q.len() == 0 {
        return true;
    }
    let id = chars_of(id_lower);
    if contains(&id, &q) {
        return true;
    }
    let title = chars_of(title_lower);
    contains(&title, &q)
}

/// What the selection and mode look like.
pub struct Nav {
    pub view: View,
    pub selected_epic: usize,
    pub selected_sub: usize,
    pub filter: Seq<char>,
    pub pending_g: bool,
    pub should_quit: bool,
    pub focused_pane: FocusedPane,
    pub popup_scroll: u16,
    pub activity_scroll: usize,
}

/// A key, as the dashboard tells them apart.
#[derive(Debug, Clone, Copy, PartialEq, Eq, Structural)]
pub enum Key {
    Char(char),
    Enter,
    Esc,
    Backspace,
    Tab,
    Up,
    Down,
    Home,
    End,
    PageUp,
    PageDown,
    Other,
}

/// What the caller must do after a key.
pub enum KeyAction {
    Nothing,
    /// Ask for a fresh snapshot now.
    Refresh,
    /// Copy this id to the clipboard (then call `copy_finished`).
    Copy(String),
    /// Open this PR in the browser (then call `pr_opened`).
    OpenPr { url: String, pr: u32 },
}

/// A key action with its strings as character sequences.
pub enum ActionView {
    Nothing,
    Refresh,
    Copy(Seq<char>),
    OpenPr(Seq<char>, u32),
}

impl vstd::view::View for KeyAction {
    type V = ActionView;

    open spec fn view(&self) -> ActionView {
        match self {
            KeyAction::Nothing => ActionView::Nothing,
            KeyAction::Refresh => ActionView::Refresh,
            KeyAction::Copy(s) => ActionView::Copy(s@),
            KeyAction::OpenPr { url, pr } => ActionView::OpenPr(url@, *pr),
        }
    }
}


/// A string after `String::pop`.
pub open spec fn popped(s: Seq<char>) -> Seq<char> {
    if s.len() > 0 {
        s.drop_last()
    } else {
        s
    }
}

/// What `v` does: the action to take and the toast to show.
pub open spec fn pr_outcome(app: App) -> (ActionView, Option<Seq<char>>) {
    match app.spec_selected_sub_bead() {
        None => (ActionView::Nothing, None),
        Some(issue) => match pr_number_of(opt_string_view(issue.external_ref)) {
            None => (ActionView::Nothing, Some("no PR for this bead"@)),
            Some(pr) => match app.gh_repo {
                None => (ActionView::Nothing, Some("no github.com origin on this repo"@)),
                Some(g) => (ActionView::OpenPr(g.spec_pr_url(pr), pr), None),
            },
        },
    }
}

/// Selection and mode after `key` in the focused-epic view (`n0` is the
/// state with the `g` chord disarmed).
pub open spec fn focused_key_nav(app: App, key: Key, n0: Nav) -> Nav {
    match key {
        Key::Tab => Nav { focused_pane: other_pane(app.focused_pane), ..n0 },
        Key::Char('q') => Nav { should_quit: true, ..n0 },
        Key::Enter => if app.spec_selected_sub_bead() is Some {
            Nav { view: View::BeadDetail, popup_scroll: 0, ..n0 }
        } else {
            n0
        },
        _ => match app.focused_pane {
            FocusedPane::Tasks => tasks_key_nav(app, key, n0),
            FocusedPane::Activity => activity_key_nav(app, key, n0),
        },
    }
}

/// The other pane.
pub open spec fn other_pane(p: FocusedPane) -> FocusedPane {
    match p {
        FocusedPane::Tasks => FocusedPane::Activity,
        FocusedPane::Activity => FocusedPane::Tasks,
    }
}

/// Selection after `key` when the task list has the keyboard.
pub open spec fn tasks_key_nav(app: App, key: Key, n0: Nav) -> Nav {
    match key {
        Key::Char('g') => if app.pending_g {
            Nav { selected_sub: app.first_sub(), ..n0 }
        } else {
            Nav { pending_g: true, ..n0 }
        },
        Key::Char('G') => Nav { selected_sub: app.last_sub(), ..n0 },
        Key::End => Nav { selected_sub: app.last_sub(), ..n0 },
        Key::Down => Nav { selected_sub: app.moved_sub(1), ..n0 },
        Key::Char('j') => Nav { selected_sub: app.moved_sub(1), ..n0 },
        Key::Up => Nav { selected_sub: app.moved_sub(-1), ..n0 },
        Key::Char('k') => Nav { selected_sub: app.moved_sub(-1), ..n0 },
        Key::Home => Nav { selected_sub: app.first_sub(), ..n0 },
        _ => n0,
    }
}

/// Scrolling after `key` when the activity log has the keyboard: up goes
/// back in time, down towards the newest; `gg`/Home show the newest and
/// `G`/End the oldest.
pub open spec fn activity_key_nav(app: App, key: Key, n0: Nav) -> Nav {
    match key {
        Key::Char('g') => if app.pending_g {
            Nav { activity_scroll: 0, ..n0 }
        } else {
            Nav { pending_g: true, ..n0 }
        },
        Key::Char('G') => Nav { activity_scroll: app.activity_max() as usize, ..n0 },
        Key::End => Nav { activity_scroll: app.activity_max() as usize, ..n0 },
        Key::Down => Nav { activity_scroll: app.scrolled_activity(-1), ..n0 },
        Key::Char('j') => Nav { activity_scroll: app.scrolled_activity(-1), ..n0 },
        Key::Up => Nav { activity_scroll: app.scrolled_activity(1), ..n0 },
        Key::Char('k') => Nav { activity_scroll: app.scrolled_activity(1), ..n0 },
        Key::PageDown => Nav { activity_scroll: app.scrolled_activity(-10), ..n0 },
        Key::PageUp => Nav { activity_scroll: app.scrolled_activity(10), ..n0 },
        Key::Home => Nav { activity_scroll: 0, ..n0 },
        _ => n0,
    }
}

/// Selection and mode after `key` in the all-epics view.
pub open spec fn all_epics_key_nav(app: App, key: Key, n0: Nav) -> Nav {
    match key {
        Key::Char('g') => if app.pending_g {
            Nav { selected_epic: app.top_epic(), ..n0 }
        } else {
            Nav { pending_g: true, ..n0 }
        },
        Key::Char('G') => Nav { selected_epic: app.bottom_epic(), ..n0 },
        Key::End => Nav { selected_epic: app.bottom_epic(), ..n0 },
        Key::Char('q') => Nav { should_quit: true, ..n0 },
        Key::Down => Nav { selected_epic: app.moved_epic(1), ..n0 },
        Key::Char('j') => Nav { selected_epic: app.moved_epic(1), ..n0 },
        Key::Up => Nav { selected_epic: app.moved_epic(-1), ..n0 },
        Key::Char('k') => Nav { selected_epic: app.moved_epic(-1), ..n0 },
        Key::Home => Nav { selected_epic: app.top_epic(), ..n0 },
        Key::Char('/') => Nav { filter: Seq::empty(), view: View::Filter, ..n0 },
        _ => n0,
    }
}

/// Selection and mode after a key press.
pub open spec fn key_nav(app: App, key: Key, ctrl: bool) -> Nav {
    let n = app.nav();
    if ctrl && key == Key::Char('c') {
        Nav { should_quit: true, ..n }
    } else {
        match app.view {
            View::Filter => match key {
                Key::Esc => Nav { view: View::Main, filter: Seq::empty(), ..n },
                Key::Enter => Nav { view: View::Main, ..n },
                Key::Backspace => Nav { filter: popped(n.filter), ..n },
                Key::Char(c) => Nav { filter: n.filter.push(c), ..n },
                _ => n,
            },
            View::BeadDetail => match key {
                Key::Enter => Nav { view: View::Main, ..n },
                Key::Esc => Nav { view: View::Main, ..n },
                Key::Char('q') => Nav { view: View::Main, ..n },
                Key::Down => Nav { popup_scroll: app.scrolled_popup(1), ..n },
                Key::Char('j') => Nav { popup_scroll: app.scrolled_popup(1), ..n },
                Key::Up => Nav { popup_scroll: app.scrolled_popup(-1), ..n },
                Key::Char('k') => Nav { popup_scroll: app.scrolled_popup(-1), ..n },
                Key::PageDown => Nav { popup_scroll: app.scrolled_popup(10), ..n },
                Key::PageUp => Nav { popup_scroll: app.scrolled_popup(-10), ..n },
                Key::Home => Nav { popup_scroll: 0, ..n },
                _ => n,
            },
            View::Main => {
                let n0 = Nav { pending_g: false, ..n };
                if app.focus is Some {
                    focused_key_nav(app, key, n0)
                } else {
                    all_epics_key_nav(app, key, n0)
                }
            },
        }
    }
}

/// What the caller must do after a key press.
pub open spec fn key_action(app: App, key: Key, ctrl: bool) -> ActionView {
    if ctrl && key == Key::Char('c') || app.view != View::Main {
        ActionView::Nothing
    } else if app.focus is Some {
        match key {
            Key::Char('r') => ActionView::Refresh,
            Key::Char('y') => match app.spec_selected_sub_bead() {
                Some(i) => ActionView::Copy(i.id@),
                None => ActionView::Nothing,
            },
            Key::Char('v') => pr_outcome(app).0,
            _ => ActionView::Nothing,
        }
    } else {
        match key {
            Key::Char('r') => ActionView::Refresh,
            Key::Char('y') => match app.spec_selected_epic_id() {
                Some(id) => ActionView::Copy(id),
                None => ActionView::Nothing,
            },
            _ => ActionView::Nothing,
        }
    }
}

/// The toast a key press shows, if any.
pub open spec fn key_toast(app: App, key: Key, ctrl: bool) -> Option<Seq<char>> {
    if !(ctrl && key == Key::Char('c')) && app.view == View::Main && app.focus is Some && key
        == Key::Char('v') {
        pr_outcome(app).1
    } else {
        None
    }
}

/// Moving or jumping through the epics never leaves the ones the filter
/// shows, when it shows any.
pub proof fn lemma_epic_moves_stay_in_filter(app: App, delta: int)
    requires
        app.snapshot matches Some(s) && app.spec_filtered(s).len() > 0,
    ensures
        app.spec_filtered(app.snapshot->0).contains(app.moved_epic(delta)),
        app.spec_filtered(app.snapshot->0).contains(app.top_epic()),
        app.spec_filtered(app.snapshot->0).contains(app.bottom_epic()),
{
    let f = app.spec_filtered(app.snapshot->0);
    let pos = match first_position(f, app.selected_epic) {
        Some(p) => p,
        None => 0,
    };
    lemma_first_position_bounds(f, app.selected_epic);
    let i = clamp(pos + delta, 0, f.len() - 1);
    assert(f[i] == app.moved_epic(delta));
    assert(f[0] == app.top_epic());
    assert(f[f.len() - 1] == app.bottom_epic());
}

/// Moving or jumping through the sub-beads keeps the selection on one of
/// them, when there are any.
pub proof fn lemma_sub_moves_stay_in_range(app: App, delta: int)
    requires
        0 < app.sub_len() <= usize::MAX,
    ensures
        app.moved_sub(delta) < app.sub_len(),
        app.first_sub() == 0,
        app.last_sub() == app.sub_len() - 1,
{
}

/// `gg` jumps to the top: in the main view a first `g` only arms the chord,
/// and a second `g` then selects the first epic shown, or in the focused
/// view the first sub-bead (or, in the activity pane, the newest event).
pub proof fn lemma_gg_jumps_to_top(app: App)
    requires
        app.view == View::Main,
        !app.pending_g,
    ensures
        key_nav(app, Key::Char('g'), false) == (Nav { pending_g: true, ..app.nav() }),
        app.focus is None ==> key_nav(App { pending_g: true, ..app }, Key::Char('g'), false) == (Nav {
            selected_epic: app.top_epic(),
            ..app.nav()
        }),
        app.focus is Some && app.focused_pane == FocusedPane::Tasks ==> key_nav(
            App { pending_g: true, ..app },
            Key::Char('g'),
            false,
        ) == (Nav { selected_sub: app.first_sub(), ..app.nav() }),
        app.focus is Some && app.focused_pane == FocusedPane::Activity ==> key_nav(
            App { pending_g: true, ..app },
            Key::Char('g'),
            false,
        ) == (Nav { activity_scroll: 0, ..app.nav() }),
{
    let armed = App { pending_g: true, ..app };
    assert(armed.top_epic() == app.top_epic());
    assert(armed.first_sub() == app.first_sub());
}

/// Tab twice gives the keyboard back to the pane that had it.
pub proof fn lemma_tab_twice_restores(p: FocusedPane)
    ensures
        other_pane(other_pane(p)) == p,
{
}

/// Scrolling the activity log never leaves the log: the scroll stays at
/// most at the oldest event, and a non-empty log always shows something.
pub proof fn lemma_activity_scroll_stays_in_log(app: App, delta: int, rows: nat)
    ensures
        app.scrolled_activity(delta) <= app.activity_max(),
        app.activity@.len() > 0 && rows > 0 ==> shown_activity(
            app.activity@,
            app.scrolled_activity(delta),
            rows,
        ).len() > 0,
{
}

/// Scrolling the activity log by `delta` moves the scroll by exactly
/// `delta` events while that stays inside the log, and stops at the newest
/// event (scroll 0) or the oldest (one less than the number of events) when
/// it would go past them.
pub proof fn lemma_activity_scroll_moves_by_delta(app: App, delta: int)
    ensures
        0 <= app.activity_scroll + delta < app.activity@.len() ==> app.scrolled_activity(delta)
            == app.activity_scroll + delta,
        app.activity_scroll + delta < 0 ==> app.scrolled_activity(delta) == 0,
        app.activity@.len() > 0 && app.activity_scroll + delta >= app.activity@.len()
            ==> app.scrolled_activity(delta) == app.activity@.len() - 1,
        app.activity@.len() == 0 ==> app.scrolled_activity(delta) == 0,
{
    assert(app.activity@.len() == app.activity.len());
}

/// With the activity log holding the keyboard in the focused view, PageUp
/// scrolls ten events back in time and PageDown ten towards the newest, Up
/// (`k`) one back and Down (`j`) one forward, as long as the scroll stays
/// inside the log; nothing else but the `g` chord changes.
pub proof fn lemma_activity_keys_scroll_by_step(app: App)
    requires
        app.view == View::Main,
        app.focus is Some,
        app.focused_pane == FocusedPane::Activity,
    ensures
        forall|key: Key, d: int|
            #![trigger key_nav(app, key, false), activity_step(key, d)]
            activity_step(key, d) && 0 <= app.activity_scroll + d < app.activity@.len()
                ==> key_nav(app, key, false) == (Nav {
                activity_scroll: (app.activity_scroll + d) as usize,
                pending_g: false,
                ..app.nav()
            }),
{
    assert forall|key: Key, d: int|
        #![trigger key_nav(app, key, false), activity_step(key, d)]
        activity_step(key, d) && 0 <= app.activity_scroll + d < app.activity@.len()
            implies key_nav(app, key, false) == (Nav {
            activity_scroll: (app.activity_scroll + d) as usize,
            pending_g: false,
            ..app.nav()
        }) by {
        lemma_activity_scroll_moves_by_delta(app, d);
    }
}

/// The keys that scroll the activity log, with how many events each moves
/// the scroll back in time.
pub open spec fn activity_step(key: Key, d: int) -> bool {
    ||| key == Key::PageUp && d == 10
    ||| key == Key::PageDown && d == -10
    ||| (key == Key::Up || key == Key::Char('k')) && d == 1
    ||| (key == Key::Down || key == Key::Char('j')) && d == -1
}

/// Outside the filter prompt, the arrow keys act exactly as `j` (Down) and
/// `k` (Up): the same selection, mode and scroll, the same action and the
/// same toast.
pub proof fn lemma_arrows_act_as_jk(app: App, ctrl: bool)
    requires
        app.view != View::Filter,
    ensures
        key_nav(app, Key::Down, ctrl) == key_nav(app, Key::Char('j'), ctrl),
        key_nav(app, Key::Up, ctrl) == key_nav(app, Key::Char('k'), ctrl),
        key_action(app, Key::Down, ctrl) == key_action(app, Key::Char('j'), ctrl),
        key_action(app, Key::Up, ctrl) == key_action(app, Key::Char('k'), ctrl),
        key_toast(app, Key::Down, ctrl) == key_toast(app, Key::Char('j'), ctrl),
        key_toast(app, Key::Up, ctrl) == key_toast(app, Key::Char('k'), ctrl),
{
}

/// A position in a strictly increasing list is the first place its element
/// stands.
proof fn lemma_first_position_of_increasing(s: Seq<usize>, p: int)
    requires
        0 <= p < s.len(),
        forall|i: int, j: int| 0 <= i < j < s.len() ==> #[trigger] s[i] < #[trigger] s[j],
    ensures
        first_position(s, s[p]) == Some(p),
{
    lemma_first_position_bounds(s, s[p]);
    assert(s.contains(s[p]));
    let q = first_position(s, s[p])->0;
    if q < p {
        assert(s[q] < s[p]);
    } else if q > p {
        assert(s[p] < s[q]);
    }
}

/// In the all-epics view, Down (or `j`) selects the next epic that the
/// filter shows and Up (or `k`) the previous one, staying put at the last
/// and the first; nothing else but the `g` chord changes.
pub proof fn lemma_down_selects_next_epic(app: App, p: int)
    requires
        app.view == View::Main,
        app.focus is None,
        app.snapshot is Some,
        0 <= p < app.spec_filtered(app.snapshot->0).len(),
        app.spec_filtered(app.snapshot->0)[p] == app.selected_epic,
    ensures
        ({
            let f = app.spec_filtered(app.snapshot->0);
            let next = if p + 1 < f.len() {
                f[p + 1]
            } else {
                f[p]
            };
            &&& key_nav(app, Key::Down, false) == (Nav {
                selected_epic: next,
                pending_g: false,
                ..app.nav()
            })
            &&& key_nav(app, Key::Char('j'), false) == key_nav(app, Key::Down, false)
        }),
        ({
            let f = app.spec_filtered(app.snapshot->0);
            let prev = if p > 0 {
                f[p - 1]
            } else {
                f[p]
            };
            &&& key_nav(app, Key::Up, false) == (Nav {
                selected_epic: prev,
                pending_g: false,
                ..app.nav()
            })
            &&& key_nav(app, Key::Char('k'), false) == key_nav(app, Key::Up, false)
        }),
{
    let s = app.snapshot->0;
    let f = app.spec_filtered(s);
    assert(s.components@.len() == s.components.len());
    lemma_matching_epics_members(
        spec_to_lowercase(app.filter@),
        s.components@,
        s.components@.len(),
    );
    lemma_first_position_of_increasing(f, p);
    assert(app.epic_pos() == p);
}

/// `s` without its last character.
fn pop_char(s: &String) -> (r: String)
    ensures
        r@ == popped(s@),
{
    let v = chars_of(s.as_str());
    if v.len() == 0 {
        return String::new();
    }
    let r = string_of_range(&v, 0, v.len() - 1);
    assert(v@.subrange(0, v.len() - 1) =~= v@.drop_last());
    r
}

impl App {
    // -----------------------------------------------------------------
    // Views of the state
    // -----------------------------------------------------------------

    pub open spec fn nav(self) -> Nav {
        Nav {
            view: self.view,
            selected_epic: self.selected_epic,
            selected_sub: self.selected_sub,
            filter: self.filter@,
            pending_g: self.pending_g,
            should_quit: self.should_quit,
            focused_pane: self.focused_pane,
            popup_scroll: self.popup_scroll,
            activity_scroll: self.activity_scroll,
        }
    }

    /// `self` and `other` agree outside selection, mode and toast.
    pub open spec fn same_data(self, other: App) -> bool {
        &&& self.theme == other.theme
        &&& self.repo == other.repo
        &&& self.focus == other.focus
        &&& self.interval_secs == other.interval_secs
        &&& self.snapshot == other.snapshot
        &&& self.activity@ == other.activity@
        &&& self.last_error == other.last_error
        &&& self.gh_repo == other.gh_repo
    }

    /// Only the listed fields may differ.
    pub open spec fn same_but_selection(self, other: App) -> bool {
        &&& self.same_data(other)
        &&& self.view == other.view
        &&& self.filter@ == other.filter@
        &&& self.toast == other.toast
        &&& self.pending_g == other.pending_g
        &&& self.should_quit == other.should_quit
        &&& self.focused_pane == other.focused_pane
        &&& self.popup_scroll == other.popup_scroll
        &&& self.activity_scroll == other.activity_scroll
    }

    pub open spec fn spec_focused_component(self) -> Option<Component> {
        match self.snapshot {
            Some(s) => if self.focus is Some && s.components@.len() > 0 {
                Some(s.components@[0])
            } else {
                None
            },
            None => None,
        }
    }

    /// The number of sub-beads in the focused epic (0 without one).
    pub open spec fn sub_len(self) -> nat {
        match self.spec_focused_component() {
            Some(c) => sub_order(c).len(),
            None => 0,
        }
    }

    pub open spec fn spec_selected_sub_bead(self) -> Option<Issue> {
        match self.spec_focused_component() {
            Some(c) => if self.selected_sub < sub_order(c).len() && (sub_order(c)[self.selected_sub as int]
                as int) < c.issues@.len() {
                Some(c.issues@[sub_order(c)[self.selected_sub as int] as int])
            } else {
                None
            },
            None => None,
        }
    }

    /// The epics the filter keeps, by position in `snap`.
    pub open spec fn spec_filtered(self, snap: Snapshot) -> Seq<usize> {
        matching_epics(spec_to_lowercase(self.filter@), snap.components@, snap.components@.len())
    }

    pub open spec fn spec_selected_epic_id(self) -> Option<Seq<char>> {
        match self.snapshot {
            Some(s) => if self.spec_filtered(s).contains(self.selected_epic)
                && self.selected_epic < s.components@.len() {
                Some(s.components@[self.selected_epic as int].root.id@)
            } else {
                None
            },
            None => None,
        }
    }

    /// The selected epic's position among those the filter shows (the
    /// first when it is not among them).
    pub open spec fn epic_pos(self) -> int {
        match self.snapshot {
            Some(s) => match first_position(self.spec_filtered(s), self.selected_epic) {
                Some(p) => p,
                None => 0,
            },
            None => 0,
        }
    }

    /// Where `move_selection(delta)` puts the epic selection.
    pub open spec fn moved_epic(self, delta: int) -> usize {
        match self.snapshot {
            Some(s) => {
                let f = self.spec_filtered(s);
                if f.len() == 0 {
                    self.selected_epic
                } else {
                    f[clamp(self.epic_pos() + delta, 0, f.len() - 1)]
                }
            },
            None => self.selected_epic,
        }
    }

    /// Where `jump_to_top` puts the epic selection.
    pub open spec fn top_epic(self) -> usize {
        match self.snapshot {
            Some(s) => if self.spec_filtered(s).len() > 0 {
                self.spec_filtered(s)[0]
            } else {
                self.selected_epic
            },
            None => self.selected_epic,
        }
    }

    /// Where `jump_to_bottom` puts the epic selection.
    pub open spec fn bottom_epic(self) -> usize {
        match self.snapshot {
            Some(s) => if self.spec_filtered(s).len() > 0 {
                self.spec_filtered(s).last()
            } else {
                self.selected_epic
            },
            None => self.selected_epic,
        }
    }

    /// Where `move_sub_selection(delta)` puts the sub-bead selection.
    pub open spec fn moved_sub(self, delta: int) -> usize {
        if self.sub_len() == 0 {
            self.selected_sub
        } else {
            clamp((self.selected_sub as isize) + delta, 0, self.sub_len() - 1) as usize
        }
    }

    pub open spec fn first_sub(self) -> usize {
        if self.sub_len() > 0 {
            0
        } else {
            self.selected_sub
        }
    }

    pub open spec fn last_sub(self) -> usize {
        if self.sub_len() > 0 {
            (self.sub_len() - 1) as usize
        } else {
            self.selected_sub
        }
    }

    /// The furthest the activity log can be scrolled: to its oldest event.
    pub open spec fn activity_max(self) -> int {
        if self.activity@.len() > 0 {
            self.activity@.len() - 1
        } else {
            0
        }
    }

    /// Where `scroll_activity(delta)` puts the activity scroll.
    pub open spec fn scrolled_activity(self, delta: int) -> usize {
        clamp(self.activity_scroll + delta, 0, self.activity_max()) as usize
    }

    /// Where `scroll_popup(delta)` puts the popup scroll.
    pub open spec fn scrolled_popup(self, delta: int) -> u16 {
        clamp(self.popup_scroll + delta, 0, u16::MAX as int) as u16
    }

    /// Sizes stay within what signed positions can count.
    pub open spec fn sizes_ok(self) -> bool {
        &&& self.snapshot matches Some(s) ==> s.components@.len() < isize::MAX
        &&& self.sub_len() <= isize::MAX
    }

    /// The signed arithmetic of a sub-bead move by `key` does not overflow:
    /// in the focused view, with the task list holding the keyboard and
    /// sub-beads to move through, the selection taken as a signed number can
    /// go one down (`Down`/`j`) or one up (`Up`/`k`).
    pub open spec fn sub_step_fits(self, key: Key, ctrl: bool) -> bool {
        (!(ctrl && key == Key::Char('c')) && self.view == View::Main && self.focus is Some
            && self.focused_pane == FocusedPane::Tasks && self.sub_len() > 0) ==> {
            &&& (key == Key::Down || key == Key::Char('j')) ==> (self.selected_sub as isize)
                < isize::MAX
            &&& (key == Key::Up || key == Key::Char('k')) ==> (self.selected_sub as isize)
                > isize::MIN
        }
    }

    // -----------------------------------------------------------------
    // Construction, toasts, errors, snapshots
    // -----------------------------------------------------------------

    pub fn new(theme: Theme, repo: std::path::PathBuf, focus: Option<String>, interval_secs: u64) -> (r:
        Self)
        ensures
            r.view == View::Main,
            r.theme == theme,
            r.repo == repo,
            r.focus == focus,
            r.interval_secs == interval_secs,
            r.snapshot is None,
            r.activity@.len() == 0,
            r.selected_epic == 0,
            r.selected_sub == 0,
            r.filter@.len() == 0,
            r.last_error is None,
            r.toast is None,
            !r.pending_g,
            !r.should_quit,
            r.gh_repo is None,
            r.focused_pane == FocusedPane::Tasks,
            r.popup_scroll == 0,
            r.activity_scroll == 0,
    {
        App {
            view: View::Main,
            theme,
            repo,
            focus,
            interval_secs,
            snapshot: None,
            activity: VecDeque::with_capacity(ACTIVITY_CAP),
            selected_epic: 0,
            selected_sub: 0,
            filter: String::new(),
            last_error: None,
            toast: None,
            pending_g: false,
            should_quit: false,
            gh_repo: None,
            focused_pane: FocusedPane::Tasks,
            popup_scroll: 0,
            activity_scroll: 0,
        }
    }

    /// Shows `msg` in the footer for a while.
    pub fn set_toast(&mut self, msg: String)
        ensures
            final(self).toast matches Some((_, m)) && m == msg,
            final(self).same_data(*old(self)),
            final(self).nav() == old(self).nav(),
    {
        self.toast = Some((now_instant(), msg));
    }

    /// The toast message when it was set less than `TOAST_NANOS` ago.
    pub fn active_toast(&self) -> (r: Option<&str>)
        ensures
            match self.toast {
                None => r is None,
                Some((_, m)) => r is None || (r matches Some(s) && s@ == m@),
            },
    {
        match &self.toast {
            None => None,
            Some((at, _)) => {
                let age = nanos_of(&elapsed_since(at));
                self.toast_at_age(age)
            },
        }
    }

    /// The toast message when it is `age_nanos` old.
    pub fn toast_at_age(&self, age_nanos: u128) -> (r: Option<&str>)
        ensures
            match self.toast {
                None => r is None,
                Some((_, m)) => if age_nanos < TOAST_NANOS {
                    r matches Some(s) && s@ == m@
                } else {
                    r is None
                },
            },
    {
        match &self.toast {
            None => None,
            Some((_, msg)) => {
                if age_nanos < TOAST_NANOS {
                    Some(msg.as_str())
                } else {
                    None
                }
            },
        }
    }

    /// Returns the id of the currently-selected epic, or None if no snapshot
    /// or selection is out of range for the filtered list.
    pub fn selected_epic_id(&self) -> (r: Option<String>)
        ensures
            match r {
                Some(s) => self.spec_selected_epic_id() == Some(s@),
                None => self.spec_selected_epic_id() is None,
            },
    {
        let snap = match &self.snapshot {
            None => {
                return None;
            },
            Some(s) => s,
        };
        let filtered = self.filtered_epic_indices(snap);
        let found = position_in(&filtered, self.selected_epic);
        proof {
            lemma_first_position_bounds(filtered@, self.selected_epic);
        }
        if found.is_some() && self.selected_epic < snap.components.len() {
            Some(snap.components[self.selected_epic].root.id.clone())
        } else {
            None
        }
    }

    /// Records a refresh failure.
    pub fn apply_error(&mut self, err: String)
        ensures
            final(self).last_error matches Some((_, e)) && e == err,
            final(self).nav() == old(self).nav(),
            final(self).toast == old(self).toast,
            final(self).snapshot == old(self).snapshot,
            final(self).activity@ == old(self).activity@,
            final(self).focus == old(self).focus,
            final(self).gh_repo == old(self).gh_repo,
            final(self).theme == old(self).theme,
            final(self).repo == old(self).repo,
            final(self).interval_secs == old(self).interval_secs,
    {
        self.last_error = Some((utc_now(), err));
    }

    /// Appends `event` to the activity log, first dropping the oldest
    /// event when the log is full.
    pub fn push_activity(&mut self, event: ActivityEvent)
        ensures
            final(self).activity@ == capped_push(old(self).activity@, event),
            final(self).nav() == old(self).nav(),
            final(self).toast == old(self).toast,
            final(self).snapshot == old(self).snapshot,
            final(self).last_error == old(self).last_error,
            final(self).focus == old(self).focus,
            final(self).gh_repo == old(self).gh_repo,
            final(self).theme == old(self).theme,
            final(self).repo == old(self).repo,
            final(self).interval_secs == old(self).interval_secs,
    {
        if self.activity.len() >= ACTIVITY_CAP {
            self.activity.pop_front();
        }
        self.activity.push_back(event);
    }

    /// Takes in a new snapshot and the events that led to it: logs the
    /// status changes, clears the error, and keeps both selections in range.
    pub fn apply_snapshot(&mut self, snapshot: Snapshot, events: Vec<ActivityEvent>)
        ensures
            final(self).snapshot == Some(snapshot),
            final(self).last_error is None,
            final(self).activity@ == logged(old(self).activity@, events@),
            final(self).selected_epic == if snapshot.components@.len() > 0 {
                if old(self).selected_epic < snapshot.components@.len() {
                    old(self).selected_epic
                } else {
                    (snapshot.components@.len() - 1) as usize
                }
            } else {
                0
            },
            final(self).selected_sub == if final(self).sub_len() == 0 {
                0
            } else if old(self).selected_sub >= final(self).sub_len() {
                (final(self).sub_len() - 1) as usize
            } else {
                old(self).selected_sub
            },
            final(self).view == old(self).view,
            final(self).filter@ == old(self).filter@,
            final(self).toast == old(self).toast,
            final(self).pending_g == old(self).pending_g,
            final(self).should_quit == old(self).should_quit,
            final(self).focused_pane == old(self).focused_pane,
            final(self).popup_scroll == old(self).popup_scroll,
            final(self).activity_scroll == old(self).activity_scroll,
            final(self).focus == old(self).focus,
            final(self).gh_repo == old(self).gh_repo,
            final(self).theme == old(self).theme,
            final(self).repo == old(self).repo,
            final(self).interval_secs == old(self).interval_secs,
    {
        let ghost q0 = self.activity@;
        let ghost all = events@;
        let n_events = events.len();
        let mut rest = events;
        let mut taken: usize = 0;
        while rest.len() > 0
            invariant
                taken + rest.len() == all.len(),
                all.len() == n_events,
                rest@ == all.skip(taken as int),
                self.activity@ == logged(q0, all.take(taken as int)),
                self.nav() == old(self).nav(),
                self.toast == old(self).toast,
                self.snapshot == old(self).snapshot,
                self.last_error == old(self).last_error,
                self.focus == old(self).focus,
                self.gh_repo == old(self).gh_repo,
                self.theme == old(self).theme,
                self.repo == old(self).repo,
                self.interval_secs == old(self).interval_secs,
            decreases rest.len(),
        {
            let event = rest.remove(0);
            proof {
                assert(all.take(taken + 1).drop_last() =~= all.take(taken as int));
                assert(all.take(taken + 1).last() == event);
                assert(rest@ =~= all.skip(taken + 1));
            }
            let is_change = match &event {
                ActivityEvent::StatusChange { .. } => true,
                _ => false,
            };
            if is_change {
                self.push_activity(event);
            }
            taken = taken + 1;
        }
        assert(all.take(taken as int) =~= all);
        let epic_count = snapshot.components.len();
        self.snapshot = Some(snapshot);
        self.last_error = None;
        if epic_count > 0 {
            if self.selected_epic > epic_count - 1 {
                self.selected_epic = epic_count - 1;
            }
        } else {
            self.selected_epic = 0;
        }
        // Clamp sub-bead selection to the new focused epic's child count.
        let sub_len = self.focused_sub_order_len();
        if sub_len == 0 {
            self.selected_sub = 0;
        } else if self.selected_sub >= sub_len {
            self.selected_sub = sub_len - 1;
        }
    }

    // -----------------------------------------------------------------
    // Epic selection
    // -----------------------------------------------------------------

    pub fn filtered_epic_indices(&self, snap: &Snapshot) -> (r: Vec<usize>)
        ensures
            r@ == self.spec_filtered(*snap),
            self.filter@.len() == 0 ==> r@ == Seq::new(
                snap.components@.len(),
                |i: int| i as usize,
            ),
            forall|k: int|
                0 <= k < snap.components@.len() ==> (#[trigger] r@.contains(k as usize) <==> ({
                    let q = spec_to_lowercase(self.filter@);
                    let c = snap.components@[k];
                    ||| q.len() == 0
                    ||| has_run(spec_to_lowercase(c.root.id@), q)
                    ||| has_run(spec_to_lowercase(c.root.title@), q)
                })),
    {
        let q = to_lowercase(self.filter.as_str());
        proof {
            if self.filter@.len() == 0 {
                assert(q@ =~= Seq::<char>::empty());
                lemma_empty_filter_shows_all(snap.components@, snap.components@.len());
            }
        }
        let mut r: Vec<usize> = Vec::new();
        let mut k: usize = 0;
        while k < snap.components.len()
            invariant
                k <= snap.components.len(),
                q@ == spec_to_lowercase(self.filter@),
                r@ == matching_epics(q@, snap.components@, k as nat),
            decreases snap.components.len() - k,
        {
            let c = &snap.components[k];
            let id = to_lowercase(c.root.id.as_str());
            let title = to_lowercase(c.root.title.as_str());
            if matches_filter(q.as_str(), id.as_str(), title.as_str()) {
                r.push(k);
            }
            k = k + 1;
        }
        proof {
            lemma_filter_keeps_substring_matches(*self, *snap);
            assert(k == snap.components@.len());
            assert forall|j: int| 0 <= j < snap.components@.len() implies (#[trigger] r@.contains(
                j as usize,
            ) == self.spec_filtered(*snap).contains(j as usize)) by {}
        }
        r
    }

    pub fn move_selection(&mut self, delta: isize)
        requires
            old(self).sizes_ok(),
            old(self).epic_pos() + delta <= isize::MAX,
        ensures
            final(self).selected_epic == old(self).moved_epic(delta as int),
            final(self).same_but_selection(*old(self)),
            final(self).selected_sub == old(self).selected_sub,
    {
        let filtered = match &self.snapshot {
            None => {
                return;
            },
            Some(snap) => self.filtered_epic_indices(snap),
        };
        if filtered.len() == 0 {
            return;
        }
        let ghost s = self.snapshot->0;
        proof {
            lemma_matching_epics_bounds(
                spec_to_lowercase(self.filter@),
                s.components@,
                s.components@.len(),
            );
        }
        let current_pos = match position_in(&filtered, self.selected_epic) {
            Some(p) => p,
            None => 0,
        };
        proof {
            lemma_first_position_bounds(filtered@, self.selected_epic);
        }
        let last = (filtered.len() - 1) as isize;
        let moved = current_pos as isize + delta;
        let new_pos = if moved < 0 {
            0
        } else if moved > last {
            last
        } else {
            moved
        };
        self.selected_epic = filtered[new_pos as usize];
    }

    pub fn jump_to_top(&mut self)
        ensures
            final(self).selected_epic == old(self).top_epic(),
            final(self).same_but_selection(*old(self)),
            final(self).selected_sub == old(self).selected_sub,
    {
        let filtered = match &self.snapshot {
            None => {
                return;
            },
            Some(snap) => self.filtered_epic_indices(snap),
        };
        if filtered.len() > 0 {
            self.selected_epic = filtered[0];
        }
    }

    pub fn jump_to_bottom(&mut self)
        ensures
            final(self).selected_epic == old(self).bottom_epic(),
            final(self).same_but_selection(*old(self)),
            final(self).selected_sub == old(self).selected_sub,
    {
        let filtered = match &self.snapshot {
            None => {
                return;
            },
            Some(snap) => self.filtered_epic_indices(snap),
        };
        if filtered.len() > 0 {
            self.selected_epic = filtered[filtered.len() - 1];
        }
    }

    // -----------------------------------------------------------------
    // Focused epic and sub-bead selection
    // -----------------------------------------------------------------

    /// Returns the focused-epic component (first component, when a
    /// focus id is set and a snapshot has loaded). None otherwise.
    pub fn focused_component(&self) -> (r: Option<&Component>)
        ensures
            match r {
                Some(c) => self.spec_focused_component() == Some(*c),
                None => self.spec_focused_component() is None,
            },
    {
        if self.focus.is_none() {
            return None;
        }
        match &self.snapshot {
            None => None,
            Some(s) => {
                if s.components.len() > 0 {
                    Some(&s.components[0])
                } else {
                    None
                }
            },
        }
    }

    /// Number of sub-beads in the focused epic, in visual order.
    /// Zero when there's no focused component.
    pub fn focused_sub_order_len(&self) -> (r: usize)
        ensures
            r == self.sub_len(),
    {
        match self.focused_component() {
            Some(c) => visual_sub_order(c).len(),
            None => 0,
        }
    }

    /// The currently-selected sub-bead, if focus mode is active and
    /// the selection index points at a real child.
    pub fn selected_sub_bead(&self) -> (r: Option<&Issue>)
        ensures
            match r {
                Some(i) => self.spec_selected_sub_bead() == Some(*i),
                None => self.spec_selected_sub_bead() is None,
            },
    {
        let comp = match self.focused_component() {
            None => {
                return None;
            },
            Some(c) => c,
        };
        let order = visual_sub_order(comp);
        if self.selected_sub >= order.len() {
            return None;
        }
        let idx = order[self.selected_sub];
        if idx < comp.issues.len() {
            Some(&comp.issues[idx])
        } else {
            None
        }
    }

    pub fn move_sub_selection(&mut self, delta: isize)
        requires
            old(self).sizes_ok(),
            old(self).sub_len() > 0 ==> isize::MIN <= (old(self).selected_sub as isize) + delta
                <= isize::MAX,
        ensures
            final(self).selected_sub == old(self).moved_sub(delta as int),
            final(self).same_but_selection(*old(self)),
            final(self).selected_epic == old(self).selected_epic,
    {
        let len = self.focused_sub_order_len();
        if len == 0 {
            return;
        }
        let last = (len - 1) as isize;
        let moved = self.selected_sub as isize + delta;
        let clamped = if moved < 0 {
            0
        } else if moved > last {
            last
        } else {
            moved
        };
        self.selected_sub = clamped as usize;
    }

    pub fn jump_first_sub(&mut self)
        ensures
            final(self).selected_sub == old(self).first_sub(),
            final(self).same_but_selection(*old(self)),
            final(self).selected_epic == old(self).selected_epic,
    {
        if self.focused_sub_order_len() > 0 {
            self.selected_sub = 0;
        }
    }

    pub fn jump_last_sub(&mut self)
        ensures
            final(self).selected_sub == old(self).last_sub(),
            final(self).same_but_selection(*old(self)),
            final(self).selected_epic == old(self).selected_epic,
    {
        let len = self.focused_sub_order_len();
        if len > 0 {
            self.selected_sub = len - 1;
        }
    }
    /// The activity events that fit in `rows` lines, newest first, after
    /// skipping the `activity_scroll` newest (never all of them).
    pub fn visible_activity(&self, rows: usize) -> (r: Vec<&ActivityEvent>)
        ensures
            event_refs(r@) == shown_activity(self.activity@, self.activity_scroll, rows as nat),
    {
        let len = self.activity.len();
        let mut r: Vec<&ActivityEvent> = Vec::new();
        if len == 0 {
            assert(event_refs(r@) =~= shown_activity(self.activity@, self.activity_scroll, rows as nat));
            return r;
        }
        let off = if self.activity_scroll < len {
            self.activity_scroll
        } else {
            len - 1
        };
        let avail = len - off;
        let n = if rows < avail {
            rows
        } else {
            avail
        };
        let mut i: usize = 0;
        while i < n
            invariant
                len == self.activity@.len(),
                off < len,
                n <= len - off,
                i <= n,
                r@.len() == i,
                forall|k: int| 0 <= k < i ==> *(#[trigger] r@[k]) == self.activity@[len - 1 - off - k],
            decreases n - i,
        {
            r.push(&self.activity[len - 1 - off - i]);
            i = i + 1;
        }
        assert(event_refs(r@) =~= shown_activity(self.activity@, self.activity_scroll, rows as nat));
        r
    }

    /// Gives the keyboard to the other pane of the focused-epic view.
    pub fn toggle_focused_pane(&mut self)
        ensures
            final(self).nav() == (Nav { focused_pane: other_pane(old(self).focused_pane), ..old(self).nav() }),
            final(self).same_data(*old(self)),
            final(self).toast == old(self).toast,
    {
        self.focused_pane = match self.focused_pane {
            FocusedPane::Tasks => FocusedPane::Activity,
            FocusedPane::Activity => FocusedPane::Tasks,
        };
    }

    /// Opens the detail popup, its description scrolled to the top.
    pub fn open_bead_detail(&mut self)
        ensures
            final(self).nav() == (Nav { view: View::BeadDetail, popup_scroll: 0, ..old(self).nav() }),
            final(self).same_data(*old(self)),
            final(self).toast == old(self).toast,
    {
        self.view = View::BeadDetail;
        self.popup_scroll = 0;
    }

    /// Scrolls the popup's description by `delta` lines, never above its top.
    pub fn scroll_popup(&mut self, delta: i32)
        ensures
            final(self).nav() == (Nav { popup_scroll: old(self).scrolled_popup(delta as int), ..old(self).nav() }),
            final(self).same_data(*old(self)),
            final(self).toast == old(self).toast,
    {
        let v: i64 = self.popup_scroll as i64 + delta as i64;
        self.popup_scroll = if v < 0 {
            0
        } else if v > 65535 {
            65535
        } else {
            v as u16
        };
    }

    /// Scrolls the activity log `delta` events back in time (towards the
    /// newest when negative), within the log.
    pub fn scroll_activity(&mut self, delta: isize)
        ensures
            final(self).nav() == (Nav {
                activity_scroll: old(self).scrolled_activity(delta as int),
                ..old(self).nav()
            }),
            0 <= old(self).activity_scroll + delta < old(self).activity@.len()
                ==> final(self).activity_scroll == old(self).activity_scroll + delta,
            final(self).same_data(*old(self)),
            final(self).toast == old(self).toast,
    {
        proof {
            lemma_activity_scroll_moves_by_delta(*self, delta as int);
        }
        let len = self.activity.len();
        let max: usize = if len > 0 {
            len - 1
        } else {
            0
        };
        let cur = self.activity_scroll;
        let next: usize = if delta < 0 {
            let d: usize = ((-(delta + 1)) as usize) + 1;
            if cur <= d {
                0
            } else if cur - d > max {
                max
            } else {
                cur - d
            }
        } else {
            let d = delta as usize;
            if cur >= max || d >= max - cur {
                max
            } else {
                cur + d
            }
        };
        self.activity_scroll = next;
    }

    /// Scrolls the activity log back to its oldest event.
    pub fn jump_activity_top(&mut self)
        ensures
            final(self).nav() == (Nav { activity_scroll: old(self).activity_max() as usize, ..old(self).nav() }),
            final(self).same_data(*old(self)),
            final(self).toast == old(self).toast,
    {
        let len = self.activity.len();
        self.activity_scroll = if len > 0 {
            len - 1
        } else {
            0
        };
    }

    /// Scrolls the activity log to its newest event.
    pub fn jump_activity_bottom(&mut self)
        ensures
            final(self).nav() == (Nav { activity_scroll: 0, ..old(self).nav() }),
            final(self).same_data(*old(self)),
            final(self).toast == old(self).toast,
    {
        self.activity_scroll = 0;
    }

    // -----------------------------------------------------------------
    // Keys
    // -----------------------------------------------------------------

    /// What `v` does: open the selected sub-bead's PR, or say why not.
    fn open_selected_pr(&mut self) -> (a: KeyAction)
        ensures
            a@ == pr_outcome(*old(self)).0,
            match pr_outcome(*old(self)).1 {
                Some(m) => final(self).toast matches Some((_, t)) && t@ == m,
                None => final(self).toast == old(self).toast,
            },
            final(self).same_data(*old(self)),
            final(self).nav() == old(self).nav(),
    {
        let pr = match self.selected_sub_bead() {
            None => {
                return KeyAction::Nothing;
            },
            Some(issue) => match &issue.external_ref {
                Some(r) => parse_pr_number(Some(r.as_str())),
                None => parse_pr_number(None),
            },
        };
        let pr = match pr {
            Some(n) => n,
            None => {
                self.set_toast("no PR for this bead".to_owned());
                return KeyAction::Nothing;
            },
        };
        match &self.gh_repo {
            Some(g) => {
                let url = g.pr_url(pr);
                KeyAction::OpenPr { url, pr }
            },
            None => {
                self.set_toast("no github.com origin on this repo".to_owned());
                KeyAction::Nothing
            },
        }
    }

    /// Whether `handle_key(key, ctrl)` can move the sub-bead selection
    /// without overflowing its signed arithmetic.
    pub fn key_step_fits(&self, key: Key, ctrl: bool) -> (r: bool)
        ensures
            r == self.sub_step_fits(key, ctrl),
    {
        if (ctrl && key == Key::Char('c')) || self.view != View::Main || self.focus.is_none()
            || self.focused_pane != FocusedPane::Tasks || self.focused_sub_order_len() == 0 {
            return true;
        }
        let s = self.selected_sub as isize;
        if key == Key::Down || key == Key::Char('j') {
            return s < isize::MAX;
        }
        if key == Key::Up || key == Key::Char('k') {
            return s > isize::MIN;
        }
        true
    }

    /// Applies a key press (`ctrl` when Control was held) and says what
    /// the caller must do next.
    pub fn handle_key(&mut self, key: Key, ctrl: bool) -> (a: KeyAction)
        requires
            old(self).sizes_ok(),
            old(self).sub_step_fits(key, ctrl),
        ensures
            final(self).nav() == key_nav(*old(self), key, ctrl),
            a@ == key_action(*old(self), key, ctrl),
            match key_toast(*old(self), key, ctrl) {
                Some(m) => final(self).toast matches Some((_, t)) && t@ == m,
                None => final(self).toast == old(self).toast,
            },
            final(self).same_data(*old(self)),
    {
        if ctrl && key == Key::Char('c') {
            self.should_quit = true;
            return KeyAction::Nothing;
        }
        match self.view {
            View::Filter => {
                match key {
                    Key::Esc => {
                        self.filter = String::new();
                        self.view = View::Main;
                    },
                    Key::Enter => {
                        self.view = View::Main;
                    },
                    Key::Backspace => {
                        self.filter = pop_char(&self.filter);
                    },
                    Key::Char(c) => {
                        push_char(&mut self.filter, c);
                    },
                    _ => {},
                }
                KeyAction::Nothing
            },
            View::BeadDetail => {
                match key {
                    Key::Enter | Key::Esc | Key::Char('q') => {
                        self.view = View::Main;
                    },
                    Key::Down | Key::Char('j') => self.scroll_popup(1),
                    Key::Up | Key::Char('k') => self.scroll_popup(-1),
                    Key::PageDown => self.scroll_popup(10),
                    Key::PageUp => self.scroll_popup(-10),
                    Key::Home => {
                        self.popup_scroll = 0;
                    },
                    _ => {},
                }
                KeyAction::Nothing
            },
            View::Main => {
                let was_pending_g = self.pending_g;
                self.pending_g = false;
                if self.focus.is_some() {
                    match key {
                        Key::Tab => {
                            self.toggle_focused_pane();
                            KeyAction::Nothing
                        },
                        Key::Char('q') => {
                            self.should_quit = true;
                            KeyAction::Nothing
                        },
                        Key::Char('r') => KeyAction::Refresh,
                        Key::Enter => {
                            if self.selected_sub_bead().is_some() {
                                self.open_bead_detail();
                            }
                            KeyAction::Nothing
                        },
                        Key::Char('y') => match self.selected_sub_bead() {
                            Some(issue) => KeyAction::Copy(issue.id.clone()),
                            None => KeyAction::Nothing,
                        },
                        Key::Char('v') => self.open_selected_pr(),
                        _ => {
                            match self.focused_pane {
                                FocusedPane::Tasks => match key {
                                    Key::Char('g') => {
                                        if was_pending_g {
                                            self.jump_first_sub();
                                        } else {
                                            self.pending_g = true;
                                        }
                                    },
                                    Key::Char('G') | Key::End => self.jump_last_sub(),
                                    Key::Down | Key::Char('j') => self.move_sub_selection(1),
                                    Key::Up | Key::Char('k') => self.move_sub_selection(-1),
                                    Key::Home => self.jump_first_sub(),
                                    _ => {},
                                },
                                FocusedPane::Activity => match key {
                                    Key::Char('g') => {
                                        if was_pending_g {
                                            self.jump_activity_bottom();
                                        } else {
                                            self.pending_g = true;
                                        }
                                    },
                                    Key::Char('G') | Key::End => self.jump_activity_top(),
                                    Key::Down | Key::Char('j') => self.scroll_activity(-1),
                                    Key::Up | Key::Char('k') => self.scroll_activity(1),
                                    Key::PageDown => self.scroll_activity(-10),
                                    Key::PageUp => self.scroll_activity(10),
                                    Key::Home => self.jump_activity_bottom(),
                                    _ => {},
                                },
                            }
                            KeyAction::Nothing
                        },
                    }
                } else {
                    match key {
                        Key::Char('g') => {
                            if was_pending_g {
                                self.jump_to_top();
                            } else {
                                self.pending_g = true;
                            }
                            KeyAction::Nothing
                        },
                        Key::Char('G') | Key::End => {
                            self.jump_to_bottom();
                            KeyAction::Nothing
                        },
                        Key::Char('q') => {
                            self.should_quit = true;
                            KeyAction::Nothing
                        },
                        Key::Char('r') => KeyAction::Refresh,
                        Key::Down | Key::Char('j') => {
                            proof {
                                lemma_epic_pos_bounds(*self);
                            }
                            self.move_selection(1);
                            KeyAction::Nothing
                        },
                        Key::Up | Key::Char('k') => {
                            proof {
                                lemma_epic_pos_bounds(*self);
                            }
                            self.move_selection(-1);
                            KeyAction::Nothing
                        },
                        Key::Home => {
                            self.jump_to_top();
                            KeyAction::Nothing
                        },
                        Key::Char('/') => {
                            self.filter = String::new();
                            self.view = View::Filter;
                            KeyAction::Nothing
                        },
                        Key::Char('y') => match self.selected_epic_id() {
                            Some(id) => KeyAction::Copy(id),
                            None => KeyAction::Nothing,
                        },
                        _ => KeyAction::Nothing,
                    }
                }
            },
        }
    }

    /// On a TV the dashboard is read-only: `q` and Ctrl-C quit, and no key
    /// does anything else.
    pub fn handle_tv_key(&mut self, key: Key, ctrl: bool) -> (a: KeyAction)
        ensures
            final(self).nav() == (Nav {
                should_quit: old(self).should_quit || key == Key::Char('q') || (ctrl && key
                    == Key::Char('c')),
                ..old(self).nav()
            }),
            a@ == ActionView::Nothing,
            final(self).toast == old(self).toast,
            final(self).same_data(*old(self)),
    {
        if key == Key::Char('q') || (ctrl && key == Key::Char('c')) {
            self.should_quit = true;
        }
        KeyAction::Nothing
    }

    /// Reports how copying `id` went.
    pub fn copy_finished(&mut self, id: &str, result: Result<(), String>)
        ensures
            final(self).toast matches Some((_, t)) && t@ == match result {
                Ok(()) => "copied "@ + id@,
                Err(e) => "copy failed: "@ + e@,
            },
            final(self).same_data(*old(self)),
            final(self).nav() == old(self).nav(),
    {
        let mut msg = String::new();
        match &result {
            Ok(()) => {
                push_str(&mut msg, "copied ");
                push_str(&mut msg, id);
            },
            Err(e) => {
                push_str(&mut msg, "copy failed: ");
                push_str(&mut msg, e.as_str());
            },
        }
        self.set_toast(msg);
    }

    /// Reports how opening PR `pr` went.
    pub fn pr_opened(&mut self, pr: u32, result: Result<(), String>)
        ensures
            final(self).toast matches Some((_, t)) && t@ == match result {
                Ok(()) => "opened PR #"@ + decimal(pr as nat),
                Err(e) => "open failed: "@ + e@,
            },
            final(self).same_data(*old(self)),
            final(self).nav() == old(self).nav(),
    {
        let mut msg = String::new();
        match &result {
            Ok(()) => {
                push_str(&mut msg, "opened PR #");
                push_decimal(&mut msg, pr as u64);
            },
            Err(e) => {
                push_str(&mut msg, "open failed: ");
                push_str(&mut msg, e.as_str());
            },
        }
        self.set_toast(msg);
    }
}

proof fn lemma_epic_pos_bounds(app: App)
    ensures
        0 <= app.epic_pos(),
        app.snapshot matches Some(s) ==> app.epic_pos() <= s.components@.len(),
{
    if let Some(s) = app.snapshot {
        let f = app.spec_filtered(s);
        lemma_first_position_bounds(f, app.selected_epic);
        lemma_matching_epics_bounds(spec_to_lowercase(app.filter@), s.components@, s.components@.len());
    }
}

} // verus!
