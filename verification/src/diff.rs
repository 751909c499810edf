//! The activity events that separate two snapshots.
use vstd::prelude::*;

use crate::model::{
    derefs, find_last, latest_with_id, lemma_latest_some, ActivityEvent, EventView, Issue,
    Snapshot, Timestamp,
};

verus! {

/// The events for ids of `next` (each id once, at its first position among
/// `next[..k]`, described by the last issue with that id): `Added` when
/// `prev` lacks the id, `StatusChange` when the last issue with that id in
/// `prev` has another status.
pub open spec fn next_events(prev: Seq<Issue>, next: Seq<Issue>, k: nat, at: Timestamp) -> Seq<
    EventView,
>
    decreases k,
{
    if k == 0 || k > next.len() {
        Seq::empty()
    } else {
        let rest = next_events(prev, next, (k - 1) as nat, at);
        let id = next[k - 1].id@;
        if latest_with_id(next.take(k - 1), id) is Some {
            rest
        } else {
            let n = latest_with_id(next, id)->0;
            match latest_with_id(prev, id) {
                None => rest.push(EventView::Added { id: n.id@, title: n.title@, status: n.status, at }),
                Some(p) => if p.status != n.status {
                    rest.push(
                        EventView::StatusChange {
                            id: n.id@,
                            title: n.title@,
                            from: p.status,
                            to: n.status,
                            at,
                        },
                    )
                } else {
                    rest
                },
            }
        }
    }
}

/// `Removed` for each id of `prev[..k]` (once, at its first position) that
/// `next` lacks.
pub open spec fn removed_events(prev: Seq<Issue>, next: Seq<Issue>, k: nat, at: Timestamp) -> Seq<
    EventView,
>
    decreases k,
{
    if k == 0 || k > prev.len() {
        Seq::empty()
    } else {
        let rest = removed_events(prev, next, (k - 1) as nat, at);
        let id = prev[k - 1].id@;
        if latest_with_id(prev.take(k - 1), id) is None && latest_with_id(next, id) is None {
            rest.push(EventView::Removed { id, at })
        } else {
            rest
        }
    }
}

/// The events between two sequences of issues, stamped `at`.
pub open spec fn issue_events(prev: Seq<Issue>, next: Seq<Issue>, at: Timestamp) -> Seq<EventView> {
    next_events(prev, next, next.len(), at) + removed_events(prev, next, prev.len(), at)
}

/// The events between two snapshots: none without a previous snapshot.
pub open spec fn spec_diff(prev: Option<Snapshot>, next: Snapshot) -> Seq<EventView> {
    match prev {
        None => Seq::empty(),
        Some(p) => issue_events(p.spec_all_issues(), next.spec_all_issues(), next.fetched_at),
    }
}

pub open spec fn views(v: Seq<ActivityEvent>) -> Seq<EventView> {
    v.map_values(|e: ActivityEvent| e@)
}

/// The status changes, additions and removals from `prev` to `next`, all
/// stamped with the time `next` was fetched. Without `prev`, nothing.
pub fn diff(prev: Option<&Snapshot>, next: &Snapshot) -> (r: Vec<ActivityEvent>)
    ensures
        views(r@) == spec_diff(
            match prev {
                Some(p) => Some(*p),
                None => None,
            },
            *next,
        ),
{
    let prev = match prev {
        None => {
            let r: Vec<ActivityEvent> = Vec::new();
            assert(views(r@) =~= Seq::<EventView>::empty());
            return r;
        },
        Some(p) => p,
    };
    let pv = prev.all_issues();
    let nv = next.all_issues();
    let ghost ps = derefs(pv@);
    let ghost ns = derefs(nv@);
    let at = next.fetched_at;
    let mut events: Vec<ActivityEvent> = Vec::new();

    let mut k: usize = 0;
    while k < nv.len()
        invariant
            k <= nv.len(),
            ps == derefs(pv@),
            ns == derefs(nv@),
            at == next.fetched_at,
            views(events@) == next_events(ps, ns, k as nat, at),
        decreases nv.len() - k,
    {
        let issue = nv[k];
        let ghost before = views(events@);
        if find_last(&nv, k, &issue.id).is_none() {
            let li = find_last(&nv, nv.len(), &issue.id);
            proof {
                assert(ns.take(nv.len() as int) =~= ns);
                lemma_latest_some(ns, k as int);
            }
            let li = li.unwrap();
            let n = nv[li];
            let lp = find_last(&pv, pv.len(), &issue.id);
            proof {
                assert(ps.take(pv.len() as int) =~= ps);
            }
            match lp {
                None => {
                    let e = ActivityEvent::Added {
                        id: n.id.clone(),
                        title: n.title.clone(),
                        status: n.status,
                        at,
                    };
                    events.push(e);
                    assert(views(events@) =~= before.push(e@));
                },
                Some(pi) => {
                    let p = pv[pi];
                    if p.status != n.status {
                        let e = ActivityEvent::StatusChange {
                            id: n.id.clone(),
                            title: n.title.clone(),
                            from: p.status,
                            to: n.status,
                            at,
                        };
                        events.push(e);
                        assert(views(events@) =~= before.push(e@));
                    }
                },
            }
        }
        k = k + 1;
    }
    let ghost added = views(events@);
    assert(added == next_events(ps, ns, ns.len(), at));

    let mut k: usize = 0;
    while k < pv.len()
        invariant
            k <= pv.len(),
            ps == derefs(pv@),
            ns == derefs(nv@),
            at == next.fetched_at,
            views(events@) == added + removed_events(ps, ns, k as nat, at),
        decreases pv.len() - k,
    {
        let issue = pv[k];
        let ghost before = views(events@);
        if find_last(&pv, k, &issue.id).is_none() && find_last(&nv, nv.len(), &issue.id).is_none() {
            proof {
                assert(ns.take(nv.len() as int) =~= ns);
            }
            let e = ActivityEvent::Removed { id: issue.id.clone(), at };
            events.push(e);
            assert(views(events@) =~= before.push(e@));
        } else {
            proof {
                assert(ns.take(nv.len() as int) =~= ns);
            }
        }
        k = k + 1;
    }
    events
}

proof fn lemma_next_events_self(s: Seq<Issue>, k: nat, at: Timestamp)
    ensures
        next_events(s, s, k, at) == Seq::<EventView>::empty(),
    decreases k,
{
    if k > 0 && k <= s.len() {
        lemma_next_events_self(s, (k - 1) as nat, at);
        lemma_latest_some(s, k - 1);
    }
}

proof fn lemma_removed_events_self(s: Seq<Issue>, k: nat, at: Timestamp)
    ensures
        removed_events(s, s, k, at) == Seq::<EventView>::empty(),
    decreases k,
{
    if k > 0 && k <= s.len() {
        lemma_removed_events_self(s, (k - 1) as nat, at);
        lemma_latest_some(s, k - 1);
    }
}

/// A snapshot compared with itself yields no events.
pub proof fn lemma_diff_of_same_snapshot_is_empty(s: Snapshot)
    ensures
        spec_diff(Some(s), s) == Seq::<EventView>::empty(),
{
    let all = s.spec_all_issues();
    lemma_next_events_self(all, all.len(), s.fetched_at);
    lemma_removed_events_self(all, all.len(), s.fetched_at);
    assert(issue_events(all, all, s.fetched_at) =~= Seq::<EventView>::empty());
}

/// The id an event is about.
pub open spec fn event_id(e: EventView) -> Seq<char> {
    match e {
        EventView::StatusChange { id, .. } => id,
        EventView::Added { id, .. } => id,
        EventView::Removed { id, .. } => id,
    }
}

/// The event that id `id` calls for between `prev` and `next` (each taken
/// by the last issue with that id): `Added` when only `next` has it,
/// `Removed` when only `prev` has it, `StatusChange` when both have it with
/// different statuses, and none otherwise.
pub open spec fn expected_event(prev: Seq<Issue>, next: Seq<Issue>, at: Timestamp, id: Seq<char>) -> Option<
    EventView,
> {
    match latest_with_id(next, id) {
        Some(n) => match latest_with_id(prev, id) {
            None => Some(EventView::Added { id, title: n.title@, status: n.status, at }),
            Some(p) => if p.status != n.status {
                Some(EventView::StatusChange { id, title: n.title@, from: p.status, to: n.status, at })
            } else {
                None
            },
        },
        None => match latest_with_id(prev, id) {
            Some(_) => Some(EventView::Removed { id, at }),
            None => None,
        },
    }
}

proof fn lemma_latest_id(s: Seq<Issue>, id: Seq<char>)
    ensures
        latest_with_id(s, id) matches Some(x) ==> x.id@ == id,
    decreases s.len(),
{
    if s.len() > 0 && s.last().id@ != id {
        lemma_latest_id(s.drop_last(), id);
    }
}

proof fn lemma_latest_witness(s: Seq<Issue>, id: Seq<char>)
    requires
        latest_with_id(s, id) is Some,
    ensures
        exists|i: int| 0 <= i < s.len() && (#[trigger] s[i]).id@ == id,
    decreases s.len(),
{
    if s.last().id@ == id {
        assert(s[s.len() - 1].id@ == id);
    } else {
        lemma_latest_witness(s.drop_last(), id);
        let i = choose|i: int| 0 <= i < s.len() - 1 && (#[trigger] s.drop_last()[i]).id@ == id;
        assert(s[i] == s.drop_last()[i]);
    }
}

proof fn lemma_latest_in_prefix(s: Seq<Issue>, m: int, i: int)
    requires
        0 <= i < m <= s.len(),
    ensures
        latest_with_id(s.take(m), s[i].id@) is Some,
{
    assert(s.take(m)[i] == s[i]);
    lemma_latest_some(s.take(m), i);
}

/// What `next_events` holds: each event is the one its id calls for, is
/// not a removal, and comes from the first issue in `next[..k]` with its id;
/// ids do not repeat; and every id of `next[..k]` that calls for an event
/// has it.
proof fn lemma_next_events_facts(prev: Seq<Issue>, next: Seq<Issue>, k: nat, at: Timestamp)
    requires
        k <= next.len(),
    ensures
        forall|j: int|
            0 <= j < next_events(prev, next, k, at).len() ==> {
                let e = #[trigger] next_events(prev, next, k, at)[j];
                &&& expected_event(prev, next, at, event_id(e)) == Some(e)
                &&& !(e is Removed)
                &&& exists|o: int|
                    0 <= o < k && event_id(e) == (#[trigger] next[o]).id@ && latest_with_id(
                        next.take(o),
                        next[o].id@,
                    ) is None
            },
        forall|j: int, l: int|
            0 <= j < l < next_events(prev, next, k, at).len() ==> event_id(
                #[trigger] next_events(prev, next, k, at)[j],
            ) != event_id(#[trigger] next_events(prev, next, k, at)[l]),
        forall|o: int|
            0 <= o < k ==> (expected_event(prev, next, at, (#[trigger] next[o]).id@) matches Some(e)
                ==> next_events(prev, next, k, at).contains(e)),
    decreases k,
{
    if k > 0 {
        lemma_next_events_facts(prev, next, (k - 1) as nat, at);
        let rest = next_events(prev, next, (k - 1) as nat, at);
        let cur = next_events(prev, next, k, at);
        let id = next[k - 1].id@;
        lemma_latest_some(next, k - 1);
        lemma_latest_id(next, id);
        lemma_latest_id(prev, id);
        if latest_with_id(next.take(k - 1), id) is Some {
            assert(cur == rest);
            lemma_latest_witness(next.take(k - 1), id);
            let o2 = choose|i: int| 0 <= i < next.take(k - 1).len() && (#[trigger] next.take(k - 1)[i]).id@ == id;
            assert(next.take(k - 1)[o2] == next[o2]);
            assert forall|o: int|
                0 <= o < k implies (expected_event(prev, next, at, (#[trigger] next[o]).id@) matches Some(e)
                ==> cur.contains(e)) by {
                if o == k - 1 {
                    assert(next[o2].id@ == next[o].id@);
                }
            }
        } else {
            // Any earlier event has an id from next[..k-1], which is not `id`.
            assert forall|j: int| 0 <= j < rest.len() implies event_id(#[trigger] rest[j]) != id by {
                let o = choose|o: int|
                    0 <= o < k - 1 && event_id(rest[j]) == (#[trigger] next[o]).id@ && latest_with_id(
                        next.take(o),
                        next[o].id@,
                    ) is None;
                if event_id(rest[j]) == id {
                    lemma_latest_in_prefix(next, k - 1, o);
                }
            }
            match expected_event(prev, next, at, id) {
                None => {
                    assert(cur == rest);
                },
                Some(e) => {
                    assert(cur == rest.push(e));
                    assert(cur[cur.len() - 1] == e);
                    assert forall|j: int| 0 <= j < cur.len() implies {
                        let e2 = #[trigger] cur[j];
                        &&& expected_event(prev, next, at, event_id(e2)) == Some(e2)
                        &&& !(e2 is Removed)
                        &&& exists|o: int|
                            0 <= o < k && event_id(e2) == (#[trigger] next[o]).id@ && latest_with_id(
                                next.take(o),
                                next[o].id@,
                            ) is None
                    } by {
                        if j < rest.len() {
                            assert(cur[j] == rest[j]);
                        } else {
                            assert(event_id(cur[j]) == next[k - 1].id@);
                        }
                    }
                    assert forall|j: int, l: int|
                        0 <= j < l < cur.len() implies event_id(#[trigger] cur[j]) != event_id(
                            #[trigger] cur[l],
                        ) by {
                        assert(cur[j] == rest[j]);
                        if l < rest.len() {
                            assert(cur[l] == rest[l]);
                        }
                    }
                    assert forall|o: int|
                        0 <= o < k implies (expected_event(prev, next, at, (#[trigger] next[o]).id@) matches Some(
                        e3) ==> cur.contains(e3)) by {
                        if o < k - 1 {
                            if let Some(e3) = expected_event(prev, next, at, next[o].id@) {
                                let j = choose|j: int| 0 <= j < rest.len() && rest[j] == e3;
                                assert(cur[j] == e3);
                            }
                        }
                    }
                },
            }
        }
    }
}

/// What `removed_events` holds: each event is a removal, the one its id
/// calls for, from the first issue in `prev[..k]` with its id; ids do not
/// repeat; and every id of `prev[..k]` that calls for a removal has it.
proof fn lemma_removed_events_facts(prev: Seq<Issue>, next: Seq<Issue>, k: nat, at: Timestamp)
    requires
        k <= prev.len(),
    ensures
        forall|j: int|
            0 <= j < removed_events(prev, next, k, at).len() ==> {
                let e = #[trigger] removed_events(prev, next, k, at)[j];
                &&& expected_event(prev, next, at, event_id(e)) == Some(e)
                &&& e is Removed
                &&& exists|o: int|
                    0 <= o < k && event_id(e) == (#[trigger] prev[o]).id@ && latest_with_id(
                        prev.take(o),
                        prev[o].id@,
                    ) is None
            },
        forall|j: int, l: int|
            0 <= j < l < removed_events(prev, next, k, at).len() ==> event_id(
                #[trigger] removed_events(prev, next, k, at)[j],
            ) != event_id(#[trigger] removed_events(prev, next, k, at)[l]),
        forall|o: int|
            0 <= o < k ==> (expected_event(prev, next, at, (#[trigger] prev[o]).id@) matches Some(e)
                ==> (e is Removed ==> removed_events(prev, next, k, at).contains(e))),
    decreases k,
{
    if k > 0 {
        lemma_removed_events_facts(prev, next, (k - 1) as nat, at);
        let rest = removed_events(prev, next, (k - 1) as nat, at);
        let cur = removed_events(prev, next, k, at);
        let id = prev[k - 1].id@;
        lemma_latest_some(prev, k - 1);
        if latest_with_id(prev.take(k - 1), id) is Some {
            assert(cur == rest);
            lemma_latest_witness(prev.take(k - 1), id);
            let o2 = choose|i: int| 0 <= i < prev.take(k - 1).len() && (#[trigger] prev.take(k - 1)[i]).id@ == id;
            assert(prev.take(k - 1)[o2] == prev[o2]);
            assert forall|o: int|
                0 <= o < k implies (expected_event(prev, next, at, (#[trigger] prev[o]).id@) matches Some(e)
                ==> (e is Removed ==> cur.contains(e))) by {
                if o == k - 1 {
                    assert(prev[o2].id@ == prev[o].id@);
                }
            }
        } else if latest_with_id(next, id) is Some {
            assert(cur == rest);
            assert(expected_event(prev, next, at, id) matches Some(e) ==> !(e is Removed));
        } else {
            let e = EventView::Removed { id, at };
            assert(cur == rest.push(e));
            assert(cur[cur.len() - 1] == e);
            assert(expected_event(prev, next, at, id) == Some(e));
            assert forall|j: int| 0 <= j < rest.len() implies event_id(#[trigger] rest[j]) != id by {
                let o = choose|o: int|
                    0 <= o < k - 1 && event_id(rest[j]) == (#[trigger] prev[o]).id@ && latest_with_id(
                        prev.take(o),
                        prev[o].id@,
                    ) is None;
                if event_id(rest[j]) == id {
                    lemma_latest_in_prefix(prev, k - 1, o);
                }
            }
            assert forall|j: int| 0 <= j < cur.len() implies {
                let e2 = #[trigger] cur[j];
                &&& expected_event(prev, next, at, event_id(e2)) == Some(e2)
                &&& e2 is Removed
                &&& exists|o: int|
                    0 <= o < k && event_id(e2) == (#[trigger] prev[o]).id@ && latest_with_id(
                        prev.take(o),
                        prev[o].id@,
                    ) is None
            } by {
                if j < rest.len() {
                    assert(cur[j] == rest[j]);
                } else {
                    assert(event_id(cur[j]) == prev[k - 1].id@);
                }
            }
            assert forall|j: int, l: int|
                0 <= j < l < cur.len() implies event_id(#[trigger] cur[j]) != event_id(
                    #[trigger] cur[l],
                ) by {
                assert(cur[j] == rest[j]);
                if l < rest.len() {
                    assert(cur[l] == rest[l]);
                }
            }
            assert forall|o: int|
                0 <= o < k implies (expected_event(prev, next, at, (#[trigger] prev[o]).id@) matches Some(e3)
                ==> (e3 is Removed ==> cur.contains(e3))) by {
                if o < k - 1 {
                    if let Some(e3) = expected_event(prev, next, at, prev[o].id@) {
                        if e3 is Removed {
                            let j = choose|j: int| 0 <= j < rest.len() && rest[j] == e3;
                            assert(cur[j] == e3);
                        }
                    }
                }
            }
        }
    }
}

/// Between two snapshots there is exactly one event for each id that was
/// added, removed or changed status, and no other: every event is the one
/// its id calls for (stamped with the time the newer snapshot was fetched),
/// every id that calls for an event has it, and no id has two events.
pub proof fn lemma_diff_events_exact(prev: Snapshot, next: Snapshot)
    ensures
        ({
            let evs = spec_diff(Some(prev), next);
            let p = prev.spec_all_issues();
            let n = next.spec_all_issues();
            &&& forall|j: int|
                0 <= j < evs.len() ==> expected_event(p, n, next.fetched_at, event_id(#[trigger] evs[j]))
                    == Some(evs[j])
            &&& forall|id: Seq<char>|
                #[trigger] expected_event(p, n, next.fetched_at, id) matches Some(e) ==> evs.contains(e)
            &&& forall|j: int, l: int|
                0 <= j < l < evs.len() ==> event_id(#[trigger] evs[j]) != event_id(#[trigger] evs[l])
        }),
{
    let p = prev.spec_all_issues();
    let n = next.spec_all_issues();
    let at = next.fetched_at;
    let ne = next_events(p, n, n.len(), at);
    let re = removed_events(p, n, p.len(), at);
    let evs = spec_diff(Some(prev), next);
    lemma_next_events_facts(p, n, n.len(), at);
    lemma_removed_events_facts(p, n, p.len(), at);
    assert(evs == ne + re);
    assert forall|j: int|
        0 <= j < evs.len() implies expected_event(p, n, at, event_id(#[trigger] evs[j])) == Some(evs[j]) by {
        if j < ne.len() {
            assert(evs[j] == ne[j]);
        } else {
            assert(evs[j] == re[j - ne.len()]);
        }
    }
    assert forall|id: Seq<char>|
        #[trigger] expected_event(p, n, at, id) is Some implies evs.contains(
            expected_event(p, n, at, id)->0,
        ) by {
        let e = expected_event(p, n, at, id)->0;
        if e is Removed {
            lemma_latest_witness(p, id);
            let o = choose|i: int| 0 <= i < p.len() && (#[trigger] p[i]).id@ == id;
            let j = choose|j: int| 0 <= j < re.len() && re[j] == e;
            assert(evs[ne.len() + j] == e);
        } else {
            lemma_latest_witness(n, id);
            let o = choose|i: int| 0 <= i < n.len() && (#[trigger] n[i]).id@ == id;
            let j = choose|j: int| 0 <= j < ne.len() && ne[j] == e;
            assert(evs[j] == e);
        }
    }
    assert forall|j: int, l: int|
        0 <= j < l < evs.len() implies event_id(#[trigger] evs[j]) != event_id(#[trigger] evs[l]) by {
        if l < ne.len() {
            assert(evs[j] == ne[j] && evs[l] == ne[l]);
        } else if j >= ne.len() {
            assert(evs[j] == re[j - ne.len()] && evs[l] == re[l - ne.len()]);
        } else {
            assert(evs[j] == ne[j] && evs[l] == re[l - ne.len()]);
            let id = event_id(ne[j]);
            assert(expected_event(p, n, at, id) == Some(ne[j]));
            assert(expected_event(p, n, at, event_id(re[l - ne.len()])) == Some(re[l - ne.len()]));
        }
    }
}

} // verus!
