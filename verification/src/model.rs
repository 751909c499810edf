//! The data that `bd graph --json` describes: issues (beads), their
//! dependencies, components (an epic with its sub-beads), snapshots of the
//! whole graph, per-status tallies and the activity events derived from two
//! snapshots.
use vstd::prelude::*;

verus! {

/// A point in time: seconds and nanoseconds since the Unix epoch (UTC).
#[derive(Debug, Clone, Copy, PartialEq, Eq, Hash, Structural)]
pub struct Timestamp {
    pub secs: i64,
    pub nanos: u32,
}

/// `chrono::Utc::now()`, taken apart into seconds and nanoseconds since the
/// epoch. The result depends on the clock, so nothing is claimed of it.
/// (`Utc::now` panics when the system clock reads a time before 1970.)
#[verifier::external_body]
pub(crate) fn utc_now() -> Timestamp {
    let t = chrono::Utc::now();
    Timestamp { secs: t.timestamp(), nanos: t.timestamp_subsec_nanos() }
}

#[derive(Debug, Clone, Copy, PartialEq, Eq, Hash, Structural)]
pub enum Status {
    Open,
    InProgress,
    Blocked,
    Closed,
    Deferred,
}

impl Status {
    pub open spec fn spec_icon(self) -> Seq<char> {
        match self {
            Status::Open => "\u{25cb}"@,
            Status::InProgress => "\u{25d0}"@,
            Status::Blocked => "\u{25cf}"@,
            Status::Closed => "\u{2713}"@,
            Status::Deferred => "\u{2744}"@,
        }
    }

    pub open spec fn spec_label(self) -> Seq<char> {
        match self {
            Status::Open => "open"@,
            Status::InProgress => "in_progress"@,
            Status::Blocked => "blocked"@,
            Status::Closed => "closed"@,
            Status::Deferred => "deferred"@,
        }
    }

    /// The glyph shown next to an issue with this status.
    pub fn icon(self) -> (r: &'static str)
        ensures
            r@ == self.spec_icon(),
    {
        match self {
            Status::Open => "\u{25cb}",
            Status::InProgress => "\u{25d0}",
            Status::Blocked => "\u{25cf}",
            Status::Closed => "\u{2713}",
            Status::Deferred => "\u{2744}",
        }
    }

    /// The status as `bd` spells it.
    pub fn label(self) -> (r: &'static str)
        ensures
            r@ == self.spec_label(),
    {
        match self {
            Status::Open => "open",
            Status::InProgress => "in_progress",
            Status::Blocked => "blocked",
            Status::Closed => "closed",
            Status::Deferred => "deferred",
        }
    }
}

/// One bead.
#[derive(Debug, Clone)]
pub struct Issue {
    pub id: String,
    pub title: String,
    pub description: String,
    pub status: Status,
    pub priority: i32,
    pub issue_type: String,
    pub owner: Option<String>,
    pub created_at: Timestamp,
    pub updated_at: Timestamp,
    pub external_ref: Option<String>,
}

#[derive(Debug, Clone, Copy, PartialEq, Eq, Structural)]
pub enum DepType {
    ParentChild,
    Blocks,
    Related,
    Discovered,
    Unknown,
}

/// `issue_id` depends on `depends_on_id`.
#[derive(Debug, Clone)]
pub struct Dependency {
    pub issue_id: String,
    pub depends_on_id: String,
    pub dep_type: DepType,
}

/// An epic (`root`) with the issues and dependencies of its graph.
#[derive(Debug, Clone)]
pub struct Component {
    pub root: Issue,
    pub issues: Vec<Issue>,
    pub dependencies: Vec<Dependency>,
}

/// The whole graph as fetched at one moment.
#[derive(Debug, Clone)]
pub struct Snapshot {
    pub components: Vec<Component>,
    pub fetched_at: Timestamp,
}

/// The values behind a sequence of references.
pub open spec fn derefs(v: Seq<&Issue>) -> Seq<Issue> {
    v.map_values(|x: &Issue| *x)
}

/// All issues of all components, component by component.
pub open spec fn flat_issues(comps: Seq<Component>) -> Seq<Issue>
    decreases comps.len(),
{
    if comps.len() == 0 {
        Seq::empty()
    } else {
        flat_issues(comps.drop_last()) + comps.last().issues@
    }
}

/// The last issue of `s` with the given id.
pub open spec fn latest_with_id(s: Seq<Issue>, id: Seq<char>) -> Option<Issue>
    decreases s.len(),
{
    if s.len() == 0 {
        None
    } else if s.last().id@ == id {
        Some(s.last())
    } else {
        latest_with_id(s.drop_last(), id)
    }
}

/// An issue with id `s[i].id` stands in `s`.
pub proof fn lemma_latest_some(s: Seq<Issue>, i: int)
    requires
        0 <= i < s.len(),
    ensures
        latest_with_id(s, s[i].id@) is Some,
        latest_with_id(s, s[i].id@)->0.id@ == s[i].id@,
    decreases s.len(),
{
    if i < s.len() - 1 && s.last().id@ != s[i].id@ {
        lemma_latest_some(s.drop_last(), i);
    }
}

/// The last issue with id `id` among `v[..upto]`, by index.
pub fn find_last(v: &Vec<&Issue>, upto: usize, id: &String) -> (r: Option<usize>)
    requires
        upto <= v.len(),
    ensures
        match r {
            Some(i) => i < upto && latest_with_id(derefs(v@).take(upto as int), id@) == Some(
                *v@[i as int],
            ),
            None => latest_with_id(derefs(v@).take(upto as int), id@) is None,
        },
{
    let mut i = upto;
    while i > 0
        invariant
            i <= upto <= v.len(),
            latest_with_id(derefs(v@).take(upto as int), id@) == latest_with_id(
                derefs(v@).take(i as int),
                id@,
            ),
        decreases i,
    {
        proof {
            assert(derefs(v@).take(i as int).drop_last() =~= derefs(v@).take(i - 1));
        }
        if v[i - 1].id == *id {
            return Some(i - 1);
        }
        i = i - 1;
    }
    None
}

impl Snapshot {
    pub open spec fn spec_all_issues(self) -> Seq<Issue> {
        flat_issues(self.components@)
    }

    /// All issues of all components, component by component.
    pub fn all_issues(&self) -> (r: Vec<&Issue>)
        ensures
            derefs(r@) == self.spec_all_issues(),
    {
        let mut r: Vec<&Issue> = Vec::new();
        let mut ci: usize = 0;
        while ci < self.components.len()
            invariant
                ci <= self.components.len(),
                derefs(r@) == flat_issues(self.components@.take(ci as int)),
            decreases self.components.len() - ci,
        {
            let comp = &self.components[ci];
            let ghost before = derefs(r@);
            let mut j: usize = 0;
            while j < comp.issues.len()
                invariant
                    j <= comp.issues.len(),
                    derefs(r@) == before + comp.issues@.take(j as int),
                decreases comp.issues.len() - j,
            {
                let x = &comp.issues[j];
                let ghost old_r = r@;
                r.push(x);
                assert(r@ == old_r.push(x));
                j = j + 1;
                assert(derefs(r@) =~= before + comp.issues@.take(j as int)) by {
                    assert(derefs(r@) =~= derefs(old_r).push(*x));
                    assert(comp.issues@.take(j as int) =~= comp.issues@.take(j - 1).push(*x));
                }
            }
            proof {
                assert(self.components@.take(ci + 1).drop_last() =~= self.components@.take(
                    ci as int,
                ));
                assert(comp.issues@.take(j as int) =~= comp.issues@);
            }
            ci = ci + 1;
        }
        assert(self.components@.take(ci as int) =~= self.components@);
        r
    }

    /// Aggregates all sub-beads across components, excluding the root
    /// epic of each component so the header totals reflect real work,
    /// not container beads.
    pub fn total_counts(&self) -> (r: StatusCounts)
        ensures
            r.tallies(counted(tagged_issues(self.components@))),
    {
        let mut counts = StatusCounts::zero();
        let mut seen: Vec<&Issue> = Vec::new();
        let mut ci: usize = 0;
        while ci < self.components.len()
            invariant
                ci <= self.components.len(),
                derefs(seen@) == counted(tagged_issues(self.components@.take(ci as int))),
                counts.tallies(derefs(seen@)),
            decreases self.components.len() - ci,
        {
            let ghost prefix = tagged_issues(self.components@.take(ci as int));
            count_component(&self.components[ci], &mut seen, &mut counts, Ghost(prefix));
            proof {
                assert(self.components@.take(ci + 1).drop_last() =~= self.components@.take(
                    ci as int,
                ));
            }
            ci = ci + 1;
        }
        assert(self.components@.take(ci as int) =~= self.components@);
        counts
    }
}

/// The issues of `c`, each paired with the id of the component's root.
pub open spec fn tag_root(c: Component) -> Seq<(Seq<char>, Issue)> {
    c.issues@.map_values(|i: Issue| (c.root.id@, i))
}

/// The issues of all components, each paired with its component's root id.
pub open spec fn tagged_issues(comps: Seq<Component>) -> Seq<(Seq<char>, Issue)>
    decreases comps.len(),
{
    if comps.len() == 0 {
        Seq::empty()
    } else {
        tagged_issues(comps.drop_last()) + tag_root(comps.last())
    }
}

/// The issues that the tallies count: of each id, the first occurrence that
/// is not the root of its own component.
pub open spec fn counted(t: Seq<(Seq<char>, Issue)>) -> Seq<Issue>
    decreases t.len(),
{
    if t.len() == 0 {
        Seq::empty()
    } else {
        let prev = counted(t.drop_last());
        let x = t.last();
        if x.1.id@ == x.0 || latest_with_id(prev, x.1.id@) is Some {
            prev
        } else {
            prev.push(x.1)
        }
    }
}

/// No two issues in `s` share an id.
pub open spec fn distinct_ids(s: Seq<Issue>) -> bool {
    forall|i: int, j: int| 0 <= i < j < s.len() ==> s[i].id@ != s[j].id@
}

proof fn lemma_latest_none(s: Seq<Issue>, id: Seq<char>, i: int)
    requires
        latest_with_id(s, id) is None,
        0 <= i < s.len(),
    ensures
        s[i].id@ != id,
    decreases s.len(),
{
    if i < s.len() - 1 {
        lemma_latest_none(s.drop_last(), id, i);
    }
}

/// The counted issues never repeat an id.
pub proof fn lemma_counted_distinct(t: Seq<(Seq<char>, Issue)>)
    ensures
        distinct_ids(counted(t)),
    decreases t.len(),
{
    if t.len() > 0 {
        lemma_counted_distinct(t.drop_last());
        let prev = counted(t.drop_last());
        let x = t.last();
        if !(x.1.id@ == x.0 || latest_with_id(prev, x.1.id@) is Some) {
            assert forall|i: int, j: int| 0 <= i < j < counted(t).len() implies counted(t)[i].id@
                != counted(t)[j].id@ by {
                if j == prev.len() {
                    lemma_latest_none(prev, x.1.id@, i);
                }
            }
        }
    }
}

/// How many issues in `s` have status `st`.
pub open spec fn status_count(s: Seq<Issue>, st: Status) -> nat
    decreases s.len(),
{
    if s.len() == 0 {
        0
    } else {
        status_count(s.drop_last(), st) + if s.last().status == st {
            1nat
        } else {
            0nat
        }
    }
}

/// Every issue has exactly one status.
pub proof fn lemma_status_counts_sum(s: Seq<Issue>)
    ensures
        status_count(s, Status::Open) + status_count(s, Status::InProgress) + status_count(
            s,
            Status::Blocked,
        ) + status_count(s, Status::Closed) + status_count(s, Status::Deferred) == s.len(),
    decreases s.len(),
{
    if s.len() > 0 {
        lemma_status_counts_sum(s.drop_last());
    }
}

/// Tallies one component's issues into `counts`, skipping the root and any
/// id already in `seen`.
pub(crate) fn count_component<'a>(
    comp: &'a Component,
    seen: &mut Vec<&'a Issue>,
    counts: &mut StatusCounts,
    Ghost(prefix): Ghost<Seq<(Seq<char>, Issue)>>,
)
    requires
        derefs(old(seen)@) == counted(prefix),
        old(counts).tallies(derefs(old(seen)@)),
    ensures
        derefs(final(seen)@) == counted(prefix + tag_root(*comp)),
        final(counts).tallies(derefs(final(seen)@)),
{
    let mut j: usize = 0;
    while j < comp.issues.len()
        invariant
            j <= comp.issues.len(),
            derefs(seen@) == counted(prefix + tag_root(*comp).take(j as int)),
            counts.tallies(derefs(seen@)),
        decreases comp.issues.len() - j,
    {
        let issue = &comp.issues[j];
        let ghost t = prefix + tag_root(*comp).take(j as int);
        let ghost t1 = prefix + tag_root(*comp).take(j + 1);
        assert(t1.drop_last() =~= t);
        assert(t1.last() == (comp.root.id@, *issue));
        if issue.id == comp.root.id {
        } else {
            let n = seen.len();
            if find_last(seen, n, &issue.id).is_none() {
                proof {
                    assert(derefs(seen@).take(n as int) =~= derefs(seen@));
                    lemma_status_counts_sum(derefs(seen@));
                }
                let ghost old_seen = derefs(seen@);
                seen.push(issue);
                let _ = seen.len();
                assert(derefs(seen@) =~= old_seen.push(*issue));
                assert(derefs(seen@).drop_last() =~= old_seen);
                let ghost old_counts = *counts;
                counts.add(issue.status);
                proof {
                    lemma_tallies_push(old_counts, *counts, old_seen, *issue);
                }
            } else {
                assert(derefs(seen@).take(n as int) =~= derefs(seen@));
            }
        }
        j = j + 1;
    }
    assert(tag_root(*comp).take(j as int) =~= tag_root(*comp));
}

proof fn lemma_tallies_push(before: StatusCounts, after: StatusCounts, s: Seq<Issue>, x: Issue)
    requires
        before.tallies(s),
        after.count_of(x.status) == before.count_of(x.status) + 1,
        forall|t: Status| t != x.status ==> after.count_of(t) == before.count_of(t),
    ensures
        after.tallies(s.push(x)),
{
    assert(s.push(x).drop_last() =~= s);
    assert(after.count_of(Status::Open) == before.count_of(Status::Open) + if x.status
        == Status::Open {
        1int
    } else {
        0
    });
    assert(after.count_of(Status::InProgress) == before.count_of(Status::InProgress) + if x.status
        == Status::InProgress {
        1int
    } else {
        0
    });
    assert(after.count_of(Status::Blocked) == before.count_of(Status::Blocked) + if x.status
        == Status::Blocked {
        1int
    } else {
        0
    });
    assert(after.count_of(Status::Closed) == before.count_of(Status::Closed) + if x.status
        == Status::Closed {
        1int
    } else {
        0
    });
    assert(after.count_of(Status::Deferred) == before.count_of(Status::Deferred) + if x.status
        == Status::Deferred {
        1int
    } else {
        0
    });
}

/// Per-status tallies of issues.
#[derive(Debug, Clone, Copy, PartialEq, Eq, Structural)]
pub struct StatusCounts {
    pub open: usize,
    pub in_progress: usize,
    pub blocked: usize,
    pub closed: usize,
    pub deferred: usize,
}

impl Default for StatusCounts {
    fn default() -> (r: Self)
        ensures
            r == StatusCounts::spec_zero(),
    {
        StatusCounts::zero()
    }
}

impl StatusCounts {
    pub open spec fn spec_zero() -> StatusCounts {
        StatusCounts { open: 0, in_progress: 0, blocked: 0, closed: 0, deferred: 0 }
    }

    /// All tallies zero.
    pub fn zero() -> (r: StatusCounts)
        ensures
            r == StatusCounts::spec_zero(),
    {
        StatusCounts { open: 0, in_progress: 0, blocked: 0, closed: 0, deferred: 0 }
    }

    /// The tally for status `s`.
    pub open spec fn count_of(self, s: Status) -> nat {
        match s {
            Status::Open => self.open as nat,
            Status::InProgress => self.in_progress as nat,
            Status::Blocked => self.blocked as nat,
            Status::Closed => self.closed as nat,
            Status::Deferred => self.deferred as nat,
        }
    }

    /// The sum of all tallies.
    pub open spec fn spec_total(self) -> nat {
        (self.open + self.in_progress + self.blocked + self.closed + self.deferred) as nat
    }

    /// The tallies are those of the statuses of `s`.
    pub open spec fn tallies(self, s: Seq<Issue>) -> bool {
        &&& self.open == status_count(s, Status::Open)
        &&& self.in_progress == status_count(s, Status::InProgress)
        &&& self.blocked == status_count(s, Status::Blocked)
        &&& self.closed == status_count(s, Status::Closed)
        &&& self.deferred == status_count(s, Status::Deferred)
    }

    /// The tallies with one more issue of status `s`.
    pub open spec fn with_one_more(self, s: Status) -> StatusCounts {
        match s {
            Status::Open => StatusCounts { open: (self.open + 1) as usize, ..self },
            Status::InProgress => StatusCounts { in_progress: (self.in_progress + 1) as usize, ..self },
            Status::Blocked => StatusCounts { blocked: (self.blocked + 1) as usize, ..self },
            Status::Closed => StatusCounts { closed: (self.closed + 1) as usize, ..self },
            Status::Deferred => StatusCounts { deferred: (self.deferred + 1) as usize, ..self },
        }
    }

    /// Counts one more issue with status `s`.
    pub fn add(&mut self, s: Status)
        requires
            old(self).count_of(s) < usize::MAX,
        ensures
            *final(self) == old(self).with_one_more(s),
            final(self).count_of(s) == old(self).count_of(s) + 1,
            forall|t: Status| t != s ==> final(self).count_of(t) == old(self).count_of(t),
    {
        match s {
            Status::Open => self.open = self.open + 1,
            Status::InProgress => self.in_progress = self.in_progress + 1,
            Status::Blocked => self.blocked = self.blocked + 1,
            Status::Closed => self.closed = self.closed + 1,
            Status::Deferred => self.deferred = self.deferred + 1,
        }
    }

    /// The number of issues tallied.
    pub fn total(&self) -> (r: usize)
        requires
            self.spec_total() <= usize::MAX,
        ensures
            r == self.spec_total(),
    {
        self.open + self.in_progress + self.blocked + self.closed + self.deferred
    }
}

/// Adding a status raises the total by one.
pub proof fn lemma_add_raises_total(before: StatusCounts, after: StatusCounts, s: Status)
    requires
        after.count_of(s) == before.count_of(s) + 1,
        forall|t: Status| t != s ==> after.count_of(t) == before.count_of(t),
    ensures
        after.spec_total() == before.spec_total() + 1,
{
    assert(after.count_of(Status::Open) == before.count_of(Status::Open) + if s == Status::Open {
        1int
    } else {
        0
    });
    assert(after.count_of(Status::InProgress) == before.count_of(Status::InProgress) + if s
        == Status::InProgress {
        1int
    } else {
        0
    });
    assert(after.count_of(Status::Blocked) == before.count_of(Status::Blocked) + if s
        == Status::Blocked {
        1int
    } else {
        0
    });
    assert(after.count_of(Status::Closed) == before.count_of(Status::Closed) + if s
        == Status::Closed {
        1int
    } else {
        0
    });
    assert(after.count_of(Status::Deferred) == before.count_of(Status::Deferred) + if s
        == Status::Deferred {
        1int
    } else {
        0
    });
}

/// The tallies of a sequence of issues add up to its length.
pub proof fn lemma_tallies_total(c: StatusCounts, s: Seq<Issue>)
    requires
        c.tallies(s),
    ensures
        c.spec_total() == s.len(),
{
    lemma_status_counts_sum(s);
}

/// A change seen between two snapshots.
#[derive(Debug, Clone)]
pub enum ActivityEvent {
    StatusChange { id: String, title: String, from: Status, to: Status, at: Timestamp },
    Added { id: String, title: String, status: Status, at: Timestamp },
    Removed { id: String, at: Timestamp },
}

/// An activity event with its strings taken as character sequences.
pub enum EventView {
    StatusChange { id: Seq<char>, title: Seq<char>, from: Status, to: Status, at: Timestamp },
    Added { id: Seq<char>, title: Seq<char>, status: Status, at: Timestamp },
    Removed { id: Seq<char>, at: Timestamp },
}

impl View for ActivityEvent {
    type V = EventView;

    open spec fn view(&self) -> EventView {
        match self {
            ActivityEvent::StatusChange { id, title, from, to, at } => EventView::StatusChange {
                id: id@,
                title: title@,
                from: *from,
                to: *to,
                at: *at,
            },
            ActivityEvent::Added { id, title, status, at } => EventView::Added {
                id: id@,
                title: title@,
                status: *status,
                at: *at,
            },
            ActivityEvent::Removed { id, at } => EventView::Removed { id: id@, at: *at },
        }
    }
}

impl ActivityEvent {
    pub open spec fn spec_at(&self) -> Timestamp {
        match self {
            ActivityEvent::StatusChange { at, .. } => *at,
            ActivityEvent::Added { at, .. } => *at,
            ActivityEvent::Removed { at, .. } => *at,
        }
    }

    /// When the change was seen.
    pub fn at(&self) -> (r: Timestamp)
        ensures
            r == self.spec_at(),
    {
        match self {
            ActivityEvent::StatusChange { at, .. } => *at,
            ActivityEvent::Added { at, .. } => *at,
            ActivityEvent::Removed { at, .. } => *at,
        }
    }
}

} // verus!
