//! Topological layering of a component's sub-beads by dependency depth.
use vstd::prelude::*;

use crate::model::{Component, DepType, Dependency, Issue};
use crate::text::{
    chars_less, chars_lt, chars_of, lemma_chars_lt_irreflexive, lemma_chars_lt_total,
    lemma_chars_lt_transitive,
};

verus! {

/// The last position in `s` of an issue with the given id.
pub open spec fn last_index(s: Seq<Issue>, id: Seq<char>) -> Option<int>
    decreases s.len(),
{
    if s.len() == 0 {
        None
    } else if s.last().id@ == id {
        Some(s.len() - 1)
    } else {
        last_index(s.drop_last(), id)
    }
}

pub proof fn lemma_last_index_bounds(s: Seq<Issue>, id: Seq<char>)
    ensures
        last_index(s, id) matches Some(i) ==> 0 <= i < s.len() && s[i].id@ == id,
    decreases s.len(),
{
    if s.len() > 0 && s.last().id@ != id {
        lemma_last_index_bounds(s.drop_last(), id);
    }
}

/// The issue at position `i` has the component root's id.
pub open spec fn is_root_issue(c: Component, i: int) -> bool {
    c.issues@[i].id@ == c.root.id@
}

/// Only `Blocks` and `ParentChild` dependencies order the layers.
pub open spec fn is_ordering(d: Dependency) -> bool {
    d.dep_type == DepType::Blocks || d.dep_type == DepType::ParentChild
}

/// Dependency `d` makes the issue at `a` wait for the issue at `b`: it is an
/// ordering dependency between two non-root ids, each taken at the last
/// position where it occurs.
pub open spec fn edge_of(c: Component, d: Dependency, a: int, b: int) -> bool {
    &&& is_ordering(d)
    &&& d.issue_id@ != c.root.id@
    &&& d.depends_on_id@ != c.root.id@
    &&& last_index(c.issues@, d.issue_id@) == Some(a)
    &&& last_index(c.issues@, d.depends_on_id@) == Some(b)
}

/// Some dependency among the first `m` makes `a` wait for `b`.
pub open spec fn depends_upto(c: Component, a: int, b: int, m: int) -> bool {
    exists|k: int| 0 <= k < m && #[trigger] edge_of(c, c.dependencies@[k], a, b)
}

/// Some dependency of the component makes `a` wait for `b`.
pub open spec fn depends(c: Component, a: int, b: int) -> bool {
    depends_upto(c, a, b, c.dependencies@.len() as int)
}

/// The layer of issue `i` (when it has one) sits above the layers of all it
/// depends on, and is 0 or exactly one above one of them.
pub open spec fn layer_fits(c: Component, lv: Seq<Option<usize>>, i: int) -> bool {
    &&& forall|b: int| #[trigger]
        depends(c, i, b) ==> lv[b] is Some && (lv[b]->0 as int) < (lv[i]->0 as int)
    &&& (lv[i]->0 == 0 || exists|b: int| #[trigger]
        depends(c, i, b) && lv[b]->0 + 1 == lv[i]->0)
}

/// `lv` gives each issue its layer: an issue has one exactly when it is not
/// the root and everything it depends on has one; then its layer is 0 when
/// it depends on nothing, and one more than the highest layer it depends on
/// otherwise. Issues on or behind a dependency cycle have none.
pub open spec fn valid_layering(c: Component, lv: Seq<Option<usize>>) -> bool {
    &&& lv.len() == c.issues@.len()
    &&& forall|i: int|
        0 <= i < lv.len() ==> (#[trigger] lv[i] is Some <==> (!is_root_issue(c, i) && forall|b: int|
            depends(c, i, b) ==> lv[b] is Some))
    &&& forall|i: int| 0 <= i < lv.len() && #[trigger] lv[i] is Some ==> layer_fits(c, lv, i)
}

/// The order within a layer: by id (as `String` orders), then by position.
pub open spec fn key_lt(c: Component, x: int, y: int) -> bool {
    ||| chars_lt(c.issues@[x].id@, c.issues@[y].id@)
    ||| (c.issues@[x].id@ == c.issues@[y].id@ && x < y)
}

/// Bucket `b` holds, in key order, exactly the issues of layer `l`.
pub open spec fn bucket_ok(c: Component, lv: Seq<Option<usize>>, l: int, b: Seq<usize>) -> bool {
    &&& forall|j: int, k: int|
        0 <= j < k < b.len() ==> key_lt(c, #[trigger] b[j] as int, #[trigger] b[k] as int)
    &&& forall|x: usize| #[trigger]
        b.contains(x) <==> ((x as int) < lv.len() && lv[x as int] is Some && lv[x as int]->0 as int == l)
}

/// `r` lists the layers `lv` assigns: one bucket per layer from 0 to the
/// highest (a single empty bucket when no issue has a layer).
pub open spec fn layers_from(c: Component, lv: Seq<Option<usize>>, r: Seq<Seq<usize>>) -> bool {
    &&& r.len() >= 1
    &&& r.len() > 1 ==> r.last().len() > 0
    &&& forall|i: int| 0 <= i < lv.len() && #[trigger] lv[i] is Some ==> (lv[i]->0 as int) < r.len()
    &&& forall|l: int| 0 <= l < r.len() ==> bucket_ok(c, lv, l, #[trigger] r[l])
}

pub open spec fn bucket_views(r: Seq<Vec<usize>>) -> Seq<Seq<usize>> {
    r.map_values(|v: Vec<usize>| v@)
}

/// The buckets one after another.
pub open spec fn flatten(r: Seq<Seq<usize>>) -> Seq<usize>
    decreases r.len(),
{
    if r.len() == 0 {
        Seq::empty()
    } else {
        flatten(r.drop_last()) + r.last()
    }
}

// ---------------------------------------------------------------------
// Laws
// ---------------------------------------------------------------------

proof fn lemma_layerings_agree_upto(c: Component, a: Seq<Option<usize>>, b: Seq<Option<usize>>, k: nat)
    requires
        valid_layering(c, a),
        valid_layering(c, b),
    ensures
        forall|i: int| 0 <= i < a.len() && #[trigger] a[i] is Some && a[i]->0 <= k ==> b[i] == a[i],
    decreases k,
{
    if k > 0 {
        lemma_layerings_agree_upto(c, a, b, (k - 1) as nat);
    }
    assert forall|i: int| 0 <= i < a.len() && #[trigger] a[i] is Some && a[i]->0 <= k implies b[i]
        == a[i] by {
        assert(layer_fits(c, a, i));
        // Everything i depends on sits lower in `a`, hence agrees.
        assert forall|d: int| #[trigger] depends(c, i, d) implies b[d] is Some && b[d] == a[d] by {
            assert(a[d] is Some && (a[d]->0 as int) < (a[i]->0 as int));
            lemma_depends_bounds(c, i, d);
        }
        assert(b[i] is Some);
        assert(layer_fits(c, b, i));
        if a[i]->0 == 0 {
            if b[i]->0 != 0 {
                let d = choose|d: int| #[trigger] depends(c, i, d) && b[d]->0 + 1 == b[i]->0;
                assert(false);
            }
        } else {
            let d = choose|d: int| #[trigger] depends(c, i, d) && a[d]->0 + 1 == a[i]->0;
            assert((b[d]->0 as int) < (b[i]->0 as int));
            if b[i]->0 == 0 {
                assert(false);
            } else {
                let e = choose|e: int| #[trigger] depends(c, i, e) && b[e]->0 + 1 == b[i]->0;
                assert((a[e]->0 as int) < (a[i]->0 as int));
            }
        }
    }
}

/// At most one layering is valid for a component, so `compute_layers`'s
/// result is determined by the component.
pub proof fn lemma_layering_unique(c: Component, a: Seq<Option<usize>>, b: Seq<Option<usize>>)
    requires
        valid_layering(c, a),
        valid_layering(c, b),
    ensures
        a == b,
{
    assert forall|i: int| 0 <= i < a.len() implies a[i] == b[i] by {
        if a[i] is Some {
            lemma_layerings_agree_upto(c, a, b, a[i]->0 as nat);
        } else if b[i] is Some {
            lemma_layerings_agree_upto(c, b, a, b[i]->0 as nat);
        }
    }
    assert(a =~= b);
}

pub proof fn lemma_depends_bounds(c: Component, a: int, b: int)
    requires
        depends(c, a, b),
    ensures
        0 <= a < c.issues@.len(),
        0 <= b < c.issues@.len(),
        !is_root_issue(c, a),
        !is_root_issue(c, b),
        a <= usize::MAX,
        b <= usize::MAX,
{
    assert(c.issues@.len() == c.issues.len());
    let k = choose|k: int| 0 <= k < c.dependencies@.len() && #[trigger] edge_of(
        c,
        c.dependencies@[k],
        a,
        b,
    );
    let d = c.dependencies@[k];
    lemma_last_index_bounds(c.issues@, d.issue_id@);
    lemma_last_index_bounds(c.issues@, d.depends_on_id@);
}

/// Layer N depends only on issues in layers below N: whatever an issue in
/// bucket `l` depends on is in some bucket below `l`.
pub proof fn lemma_layers_respect_dependencies(
    c: Component,
    lv: Seq<Option<usize>>,
    r: Seq<Seq<usize>>,
    l: int,
    x: usize,
    b: int,
)
    requires
        valid_layering(c, lv),
        layers_from(c, lv, r),
        0 <= l < r.len(),
        r[l].contains(x),
        depends(c, x as int, b),
    ensures
        exists|m: int| 0 <= m < l && #[trigger] r[m].contains(b as usize),
{
    assert(bucket_ok(c, lv, l, r[l]));
    assert(lv[x as int] is Some);
    assert(layer_fits(c, lv, x as int));
    lemma_depends_bounds(c, x as int, b);
    let m = lv[b]->0 as int;
    assert(0 <= m < r.len());
    assert(bucket_ok(c, lv, m, r[m]));
    assert((b as usize) as int == b);
    assert(lv[(b as usize) as int] == Some(m as usize));
    assert(r[m].contains(b as usize));
}

/// The layering of a component (there is exactly one: `compute_layers`
/// builds one, and by `lemma_layering_unique` no other is valid).
pub open spec fn the_layering(c: Component) -> Seq<Option<usize>> {
    choose|lv: Seq<Option<usize>>| valid_layering(c, lv)
}

/// The layers of a component, each in key order.
pub open spec fn the_layers(c: Component) -> Seq<Seq<usize>> {
    choose|ls: Seq<Seq<usize>>| layers_from(c, the_layering(c), ls)
}

/// The sub-beads in screen order: layer by layer, each layer in key order.
pub open spec fn sub_order(c: Component) -> Seq<usize> {
    flatten(the_layers(c))
}

proof fn lemma_key_lt_irreflexive(c: Component, x: int)
    ensures
        !key_lt(c, x, x),
{
    lemma_chars_lt_irreflexive(c.issues@[x].id@);
}

proof fn lemma_key_lt_asymmetric(c: Component, x: int, y: int)
    requires
        key_lt(c, x, y),
    ensures
        !key_lt(c, y, x),
{
    if key_lt(c, y, x) {
        lemma_key_lt_transitive(c, x, y, x);
        lemma_key_lt_irreflexive(c, x);
    }
}

pub open spec fn key_sorted(c: Component, b: Seq<usize>) -> bool {
    forall|j: int, k: int| 0 <= j < k < b.len() ==> key_lt(c, #[trigger] b[j] as int, #[trigger] b[k] as int)
}

/// Two key-sorted sequences with the same elements are the same sequence.
proof fn lemma_sorted_unique(c: Component, a: Seq<usize>, b: Seq<usize>)
    requires
        key_sorted(c, a),
        key_sorted(c, b),
        forall|x: usize| #[trigger] a.contains(x) <==> b.contains(x),
    ensures
        a == b,
    decreases a.len(),
{
    if a.len() == 0 {
        if b.len() > 0 {
            assert(b.contains(b[0]));
            assert(a.contains(b[0]));
        }
        assert(a =~= b);
    } else {
        assert(a.contains(a[0]));
        assert(b.contains(a[0]));
        assert(b.len() > 0);
        assert(b.contains(b[0]));
        assert(a.contains(b[0]));
        if a[0] != b[0] {
            let i = choose|i: int| 0 <= i < a.len() && a[i] == b[0];
            let j = choose|j: int| 0 <= j < b.len() && b[j] == a[0];
            assert(i > 0 && j > 0);
            assert(key_lt(c, a[0] as int, a[i] as int));
            assert(key_lt(c, b[0] as int, b[j] as int));
            lemma_key_lt_asymmetric(c, a[0] as int, b[0] as int);
        }
        let a1 = a.drop_first();
        let b1 = b.drop_first();
        assert forall|x: usize| #[trigger] a1.contains(x) <==> b1.contains(x) by {
            if a1.contains(x) {
                let i = choose|i: int| 0 <= i < a1.len() && a1[i] == x;
                assert(a[i + 1] == x);
                assert(a.contains(x));
                let j = choose|j: int| 0 <= j < b.len() && b[j] == x;
                if j == 0 {
                    assert(key_lt(c, a[0] as int, a[i + 1] as int));
                    lemma_key_lt_irreflexive(c, x as int);
                }
                assert(b1[j - 1] == x);
            }
            if b1.contains(x) {
                let j = choose|j: int| 0 <= j < b1.len() && b1[j] == x;
                assert(b[j + 1] == x);
                assert(b.contains(x));
                assert(a.contains(x));
                let i = choose|i: int| 0 <= i < a.len() && a[i] == x;
                if i == 0 {
                    assert(key_lt(c, b[0] as int, b[j + 1] as int));
                    lemma_key_lt_irreflexive(c, x as int);
                }
                assert(a1[i - 1] == x);
            }
        }
        assert(key_sorted(c, a1));
        assert(key_sorted(c, b1));
        lemma_sorted_unique(c, a1, b1);
        assert(a =~= seq![a[0]] + a1);
        assert(b =~= seq![b[0]] + b1);
    }
}

/// Given the layering, the layers are determined.
pub proof fn lemma_layers_unique(c: Component, lv: Seq<Option<usize>>, r1: Seq<Seq<usize>>, r2: Seq<Seq<usize>>)
    requires
        layers_from(c, lv, r1),
        layers_from(c, lv, r2),
    ensures
        r1 == r2,
{
    if r1.len() > r2.len() {
        let top = r1.len() - 1;
        assert(bucket_ok(c, lv, top, r1[top]));
        let y = r1[top][0];
        assert(r1[top].contains(y));
        assert(lv[y as int] is Some && lv[y as int]->0 as int == top);
        assert(false);
    }
    if r2.len() > r1.len() {
        let top = r2.len() - 1;
        assert(bucket_ok(c, lv, top, r2[top]));
        let y = r2[top][0];
        assert(r2[top].contains(y));
        assert(lv[y as int] is Some && lv[y as int]->0 as int == top);
        assert(false);
    }
    assert(r1.len() == r2.len());
    assert forall|l: int| 0 <= l < r1.len() implies r1[l] == r2[l] by {
        assert(bucket_ok(c, lv, l, r1[l]));
        assert(bucket_ok(c, lv, l, r2[l]));
        lemma_sorted_unique(c, r1[l], r2[l]);
    }
    assert(r1 =~= r2);
}

proof fn lemma_flatten_prefix(c: Component, lv: Seq<Option<usize>>, r: Seq<Seq<usize>>, m: int)
    requires
        layers_from(c, lv, r),
        0 <= m <= r.len(),
    ensures
        forall|x: usize| #[trigger]
            flatten(r.take(m)).contains(x) <==> ((x as int) < lv.len() && lv[x as int] is Some
                && (lv[x as int]->0 as int) < m),
        forall|i: int, j: int|
            0 <= i < j < flatten(r.take(m)).len() ==> #[trigger] flatten(r.take(m))[i]
                != #[trigger] flatten(r.take(m))[j],
    decreases m,
{
    let f = flatten(r.take(m));
    if m == 0 {
        assert(f =~= Seq::<usize>::empty());
    } else {
        lemma_flatten_prefix(c, lv, r, m - 1);
        let t = r.take(m);
        assert(t.drop_last() =~= r.take(m - 1));
        assert(t.last() == r[m - 1]);
        let p = flatten(r.take(m - 1));
        let b = r[m - 1];
        assert(f == p + b);
        assert(bucket_ok(c, lv, m - 1, b));
        assert forall|x: usize| #[trigger] f.contains(x) <==> ((x as int) < lv.len()
            && lv[x as int] is Some && (lv[x as int]->0 as int) < m) by {
            if f.contains(x) {
                let i = choose|i: int| 0 <= i < f.len() && f[i] == x;
                if i < p.len() {
                    assert(p[i] == x);
                    assert(p.contains(x));
                } else {
                    assert(b[i - p.len()] == x);
                    assert(b.contains(x));
                }
            }
            if (x as int) < lv.len() && lv[x as int] is Some && (lv[x as int]->0 as int) < m {
                if (lv[x as int]->0 as int) < m - 1 {
                    assert(p.contains(x));
                    let i = choose|i: int| 0 <= i < p.len() && p[i] == x;
                    assert(f[i] == x);
                } else {
                    assert(b.contains(x));
                    let i = choose|i: int| 0 <= i < b.len() && b[i] == x;
                    assert(f[p.len() + i] == x);
                }
            }
        }
        assert forall|i: int, j: int| 0 <= i < j < f.len() implies #[trigger] f[i] != #[trigger] f[j] by {
            if j < p.len() {
                assert(f[i] == p[i] && f[j] == p[j]);
            } else if i >= p.len() {
                assert(f[i] == b[i - p.len()] && f[j] == b[j - p.len()]);
                assert(key_lt(c, b[i - p.len()] as int, b[j - p.len()] as int));
                if f[i] == f[j] {
                    lemma_key_lt_irreflexive(c, f[i] as int);
                }
            } else {
                assert(f[i] == p[i] && f[j] == b[j - p.len()]);
                assert(p.contains(f[i]));
                assert(b.contains(f[j]));
            }
        }
    }
}

/// The screen order lists every sub-bead that has a layer exactly once,
/// and nothing else.
pub proof fn lemma_order_lists_layered_once(c: Component, lv: Seq<Option<usize>>, r: Seq<Seq<usize>>)
    requires
        valid_layering(c, lv),
        layers_from(c, lv, r),
    ensures
        forall|x: usize| #[trigger]
            flatten(r).contains(x) <==> ((x as int) < lv.len() && lv[x as int] is Some),
        forall|i: int, j: int|
            0 <= i < j < flatten(r).len() ==> #[trigger] flatten(r)[i] != #[trigger] flatten(r)[j],
{
    lemma_flatten_prefix(c, lv, r, r.len() as int);
    assert(r.take(r.len() as int) =~= r);
}

// ---------------------------------------------------------------------
// Implementation
// ---------------------------------------------------------------------

fn last_index_exec(issues: &Vec<Issue>, id: &String) -> (r: Option<usize>)
    ensures
        match r {
            Some(i) => last_index(issues@, id@) == Some(i as int),
            None => last_index(issues@, id@) is None,
        },
{
    let mut i = issues.len();
    assert(issues@.take(i as int) =~= issues@);
    while i > 0
        invariant
            i <= issues.len(),
            last_index(issues@, id@) == last_index(issues@.take(i as int), id@),
        decreases i,
    {
        assert(issues@.take(i as int).drop_last() =~= issues@.take(i - 1));
        if issues[i - 1].id == *id {
            return Some(i - 1);
        }
        i = i - 1;
    }
    None
}

/// The dependency lists: `deps[a]` holds exactly the `b` that `a` waits for.
fn dependency_lists(c: &Component) -> (deps: Vec<Vec<usize>>)
    ensures
        deps.len() == c.issues.len(),
        forall|a: int, j: int|
            0 <= a < deps.len() && 0 <= j < deps@[a].len() ==> #[trigger] deps@[a]@[j] < c.issues.len(),
        forall|a: int| 0 <= a < deps.len() ==> lists_deps(*c, a, #[trigger] deps@[a]@),
{
    let n = c.issues.len();
    let mut deps: Vec<Vec<usize>> = Vec::new();
    let mut i: usize = 0;
    while i < n
        invariant
            i <= n == c.issues.len(),
            deps.len() == i,
            forall|a: int| 0 <= a < i ==> (#[trigger] deps@[a])@.len() == 0,
        decreases n - i,
    {
        deps.push(Vec::new());
        i = i + 1;
    }
    let mut k: usize = 0;
    while k < c.dependencies.len()
        invariant
            k <= c.dependencies.len(),
            deps.len() == n == c.issues.len(),
            forall|a: int, j: int|
                0 <= a < n && 0 <= j < deps@[a].len() ==> #[trigger] deps@[a]@[j] < n,
            forall|a: int, b: usize|
                0 <= a < n ==> (#[trigger] deps@[a]@.contains(b) <==> depends_upto(
                    *c,
                    a,
                    b as int,
                    k as int,
                )),
        decreases c.dependencies.len() - k,
    {
        let d = &c.dependencies[k];
        let ghost old_deps = deps@;
        let ordering = match d.dep_type {
            DepType::Blocks => true,
            DepType::ParentChild => true,
            _ => false,
        };
        let mut added: Option<(usize, usize)> = None;
        if ordering && d.issue_id != c.root.id && d.depends_on_id != c.root.id {
            let ai = last_index_exec(&c.issues, &d.issue_id);
            let bi = last_index_exec(&c.issues, &d.depends_on_id);
            proof {
                lemma_last_index_bounds(c.issues@, d.issue_id@);
                lemma_last_index_bounds(c.issues@, d.depends_on_id@);
            }
            if let (Some(a), Some(b)) = (ai, bi) {
                deps[a].push(b);
                added = Some((a, b));
            }
        }
        proof {
            // Dependency k adds exactly the edge recorded in `added`.
            assert forall|a: int, b: int| #[trigger] edge_of(*c, c.dependencies@[k as int], a, b) <==> (
            added matches Some((a0, b0)) && a == a0 && b == b0) by {}
            assert forall|a: int, b: usize| 0 <= a < n implies (#[trigger] deps@[a]@.contains(b)
                <==> depends_upto(*c, a, b as int, k + 1)) by {
                let was = old_deps[a]@.contains(b);
                assert(was <==> depends_upto(*c, a, b as int, k as int));
                if depends_upto(*c, a, b as int, k + 1) {
                    let w = choose|w: int| 0 <= w < k + 1 && #[trigger] edge_of(
                        *c,
                        c.dependencies@[w],
                        a,
                        b as int,
                    );
                    if w < k {
                        assert(depends_upto(*c, a, b as int, k as int));
                    }
                }
                if depends_upto(*c, a, b as int, k as int) {
                    let w = choose|w: int| 0 <= w < k && #[trigger] edge_of(
                        *c,
                        c.dependencies@[w],
                        a,
                        b as int,
                    );
                    assert(depends_upto(*c, a, b as int, k + 1));
                }
                match added {
                    Some((a0, b0)) => {
                        if a == a0 as int {
                            assert(deps@[a]@ == old_deps[a]@.push(b0));
                            if deps@[a]@.contains(b) && b != b0 {
                                let j = choose|j: int| 0 <= j < deps@[a]@.len() && deps@[a]@[j] == b;
                                assert(old_deps[a]@[j] == b);
                            }
                            if was {
                                let j = choose|j: int| 0 <= j < old_deps[a]@.len() && old_deps[a]@[j] == b;
                                assert(deps@[a]@[j] == b);
                            }
                            if b == b0 {
                                assert(deps@[a]@[deps@[a]@.len() - 1] == b);
                                assert(edge_of(*c, c.dependencies@[k as int], a, b as int));
                            }
                        } else {
                            assert(deps@[a] == old_deps[a]);
                        }
                    },
                    None => {
                        assert(deps@ == old_deps);
                    },
                }
            }
        }
        k = k + 1;
    }
    assert forall|a: int| 0 <= a < deps.len() implies lists_deps(*c, a, #[trigger] deps@[a]@) by {
        assert forall|b: usize| #[trigger] deps@[a]@.contains(b) <==> depends(*c, a, b as int) by {}
    }
    deps
}

/// For the `b` in `ds`: `None` when some `b` has no layer yet; otherwise the
/// layer one above the highest of theirs (0 when `ds` is empty).
fn ready_layer(ds: &Vec<usize>, layer: &Vec<Option<usize>>) -> (r: Option<usize>)
    requires
        forall|j: int| 0 <= j < ds.len() ==> #[trigger] ds@[j] < layer.len(),
        forall|x: int| 0 <= x < layer.len() && #[trigger] layer@[x] is Some ==> layer@[x]->0 < usize::MAX,
    ensures
        r is Some <==> forall|j: int| 0 <= j < ds.len() ==> (#[trigger] layer@[ds@[j] as int]) is Some,
        r matches Some(v) ==> {
            &&& forall|j: int|
                0 <= j < ds.len() ==> (#[trigger] layer@[ds@[j] as int])->0 < v
            &&& (v == 0 || exists|j: int|
                0 <= j < ds.len() && (#[trigger] layer@[ds@[j] as int])->0 + 1 == v)
        },
{
    let mut best: usize = 0;
    let mut j: usize = 0;
    while j < ds.len()
        invariant
            j <= ds.len(),
            forall|i: int| 0 <= i < ds.len() ==> #[trigger] ds@[i] < layer.len(),
            forall|x: int| 0 <= x < layer.len() && #[trigger] layer@[x] is Some ==> layer@[x]->0 < usize::MAX,
            forall|i: int| 0 <= i < j ==> (#[trigger] layer@[ds@[i] as int]) is Some,
            forall|i: int| 0 <= i < j ==> (#[trigger] layer@[ds@[i] as int])->0 < best,
            best == 0 || exists|i: int| 0 <= i < j && (#[trigger] layer@[ds@[i] as int])->0 + 1 == best,
        decreases ds.len() - j,
    {
        match layer[ds[j]] {
            None => {
                return None;
            },
            Some(v) => {
                if v + 1 > best {
                    best = v + 1;
                }
            },
        }
        j = j + 1;
    }
    Some(best)
}

/// How many issues have a layer.
pub open spec fn count_some(s: Seq<Option<usize>>) -> nat
    decreases s.len(),
{
    if s.len() == 0 {
        0
    } else {
        count_some(s.drop_last()) + if s.last() is Some {
            1nat
        } else {
            0nat
        }
    }
}

proof fn lemma_count_some_update(s: Seq<Option<usize>>, i: int, v: usize)
    requires
        0 <= i < s.len(),
        s[i] is None,
    ensures
        count_some(s.update(i, Some(v))) == count_some(s) + 1,
    decreases s.len(),
{
    let t = s.update(i, Some(v));
    if i < s.len() - 1 {
        assert(t.drop_last() =~= s.drop_last().update(i, Some(v)));
        lemma_count_some_update(s.drop_last(), i, v);
    } else {
        assert(t.drop_last() =~= s.drop_last());
    }
}

proof fn lemma_count_some_le(s: Seq<Option<usize>>)
    ensures
        count_some(s) <= s.len(),
    decreases s.len(),
{
    if s.len() > 0 {
        lemma_count_some_le(s.drop_last());
    }
}

/// Every issue with a layer sits where `layer_fits` says.
pub open spec fn sound_so_far(c: Component, lv: Seq<Option<usize>>) -> bool {
    forall|i: int|
        0 <= i < lv.len() && #[trigger] lv[i] is Some ==> !is_root_issue(c, i) && layer_fits(c, lv, i)
}

/// `deps_i` lists exactly what issue `i` depends on.
pub open spec fn lists_deps(c: Component, i: int, deps_i: Seq<usize>) -> bool {
    forall|b: usize| #[trigger] deps_i.contains(b) <==> depends(c, i, b as int)
}

/// What `ready_layer` reports, restated over `depends`.
proof fn lemma_ready_as_depends(
    c: Component,
    i: int,
    deps_i: Seq<usize>,
    lv: Seq<Option<usize>>,
    r: Option<usize>,
)
    requires
        lists_deps(c, i, deps_i),
        forall|j: int| 0 <= j < deps_i.len() ==> #[trigger] deps_i[j] < lv.len(),
        r is Some <==> forall|j: int| 0 <= j < deps_i.len() ==> (#[trigger] lv[deps_i[j] as int]) is Some,
        r matches Some(v) ==> {
            &&& forall|j: int| 0 <= j < deps_i.len() ==> (#[trigger] lv[deps_i[j] as int])->0 < v
            &&& (v == 0 || exists|j: int|
                0 <= j < deps_i.len() && (#[trigger] lv[deps_i[j] as int])->0 + 1 == v)
        },
    ensures
        r is None ==> exists|b: int| #[trigger] depends(c, i, b) && lv[b] is None,
        r matches Some(v) ==> {
            &&& forall|b: int| #[trigger]
                depends(c, i, b) ==> lv[b] is Some && (lv[b]->0 as int) < (v as int)
            &&& (v == 0 || exists|b: int| #[trigger] depends(c, i, b) && lv[b]->0 + 1 == v)
        },
{
    if r is None {
        let j = choose|j: int| 0 <= j < deps_i.len() && !((#[trigger] lv[deps_i[j] as int]) is Some);
        let b = deps_i[j];
        assert(deps_i.contains(b));
        assert(depends(c, i, b as int));
    } else {
        let v = r->0;
        assert forall|b: int| #[trigger] depends(c, i, b) implies lv[b] is Some && (lv[b]->0 as int) < (
        v as int) by {
            lemma_depends_bounds(c, i, b);
            assert(deps_i.contains(b as usize));
            let j = choose|j: int| 0 <= j < deps_i.len() && deps_i[j] == b as usize;
            assert(lv[deps_i[j] as int] is Some);
        }
        if v != 0 {
            let j = choose|j: int|
                0 <= j < deps_i.len() && (#[trigger] lv[deps_i[j] as int])->0 + 1 == v;
            let b = deps_i[j];
            assert(deps_i.contains(b));
            assert(depends(c, i, b as int));
        }
    }
}

/// Giving issue `i` a layer that fits keeps every layer fitting.
proof fn lemma_assign_keeps_sound(c: Component, before: Seq<Option<usize>>, i: int, v: usize)
    requires
        sound_so_far(c, before),
        before.len() == c.issues@.len(),
        0 <= i < before.len(),
        before[i] is None,
        !is_root_issue(c, i),
        forall|b: int| #[trigger] depends(c, i, b) ==> before[b] is Some && (before[b]->0 as int) < (v as int),
        v == 0 || exists|b: int| #[trigger] depends(c, i, b) && before[b]->0 + 1 == v,
    ensures
        sound_so_far(c, before.update(i, Some(v))),
{
    let after = before.update(i, Some(v));
    assert forall|x: int| 0 <= x < after.len() && #[trigger] after[x] is Some implies !is_root_issue(c, x)
        && layer_fits(c, after, x) by {
        if x == i {
            assert forall|b: int| #[trigger] depends(c, i, b) implies after[b] is Some && (after[b]->0 as int)
                < (after[i]->0 as int) by {
                lemma_depends_bounds(c, i, b);
            }
            if v != 0 {
                let b = choose|b: int| #[trigger] depends(c, i, b) && before[b]->0 + 1 == v;
                lemma_depends_bounds(c, i, b);
                assert(after[b] == before[b]);
            }
        } else {
            assert(before[x] is Some);
            assert(layer_fits(c, before, x));
            assert forall|b: int| #[trigger] depends(c, x, b) implies after[b] is Some && (after[b]->0 as int)
                < (after[x]->0 as int) by {
                lemma_depends_bounds(c, x, b);
            }
            if after[x]->0 != 0 {
                let b = choose|b: int| #[trigger] depends(c, x, b) && before[b]->0 + 1 == before[x]->0;
                lemma_depends_bounds(c, x, b);
                assert(after[b] == before[b]);
            }
        }
    }
}

/// A sound assignment in which every unassigned non-root issue waits for an
/// unassigned one is a valid layering.
proof fn lemma_stuck_is_valid(c: Component, lv: Seq<Option<usize>>)
    requires
        lv.len() == c.issues@.len(),
        sound_so_far(c, lv),
        forall|x: int|
            0 <= x < lv.len() ==> is_root_issue(c, x) || (#[trigger] lv[x]) is Some || exists|b: int|
                #[trigger] depends(c, x, b) && lv[b] is None,
    ensures
        valid_layering(c, lv),
{
    assert forall|x: int| 0 <= x < lv.len() implies (#[trigger] lv[x] is Some <==> (!is_root_issue(c, x)
        && forall|b: int| depends(c, x, b) ==> lv[b] is Some)) by {
        if lv[x] is Some {
            assert(layer_fits(c, lv, x));
        }
    }
}

/// Assigns layers until nothing changes.
fn assign_layers(c: &Component, deps: &Vec<Vec<usize>>) -> (layer: Vec<Option<usize>>)
    requires
        deps.len() == c.issues.len(),
        forall|a: int, j: int|
            0 <= a < deps.len() && 0 <= j < deps@[a].len() ==> #[trigger] deps@[a]@[j] < c.issues.len(),
        forall|a: int| 0 <= a < deps.len() ==> lists_deps(*c, a, #[trigger] deps@[a]@),
    ensures
        valid_layering(*c, layer@),
        forall|x: int| 0 <= x < layer@.len() && #[trigger] layer@[x] is Some ==> (layer@[x]->0 as int) < layer@.len(),
{
    let n = c.issues.len();
    let mut layer: Vec<Option<usize>> = Vec::new();
    let mut i: usize = 0;
    while i < n
        invariant
            i <= n,
            layer.len() == i,
            forall|x: int| 0 <= x < i ==> (#[trigger] layer@[x]) is None,
        decreases n - i,
    {
        layer.push(None);
        i = i + 1;
    }
    let ghost mut cnt: nat = 0;
    proof {
        lemma_count_some_zero(layer@, n as int);
        assert(layer@.take(n as int) =~= layer@);
    }
    loop
        invariant
            n == c.issues.len(),
            deps.len() == n,
            forall|a: int, j: int|
                0 <= a < n && 0 <= j < deps@[a].len() ==> #[trigger] deps@[a]@[j] < n,
            forall|a: int| 0 <= a < n ==> lists_deps(*c, a, #[trigger] deps@[a]@),
            layer.len() == n,
            cnt == count_some(layer@),
            forall|x: int| 0 <= x < n && #[trigger] layer@[x] is Some ==> (layer@[x]->0 as int) < cnt,
            sound_so_far(*c, layer@),
        decreases n - cnt,
    {
        proof {
            lemma_count_some_le(layer@);
        }
        let ghost start = layer@;
        let ghost cnt0 = cnt;
        let mut progress = false;
        let mut i: usize = 0;
        while i < n
            invariant
                n == c.issues.len(),
                deps.len() == n,
                forall|a: int, j: int|
                    0 <= a < n && 0 <= j < deps@[a].len() ==> #[trigger] deps@[a]@[j] < n,
                forall|a: int| 0 <= a < n ==> lists_deps(*c, a, #[trigger] deps@[a]@),
                i <= n,
                layer.len() == n,
                cnt == count_some(layer@),
                cnt <= n,
                cnt >= cnt0,
                cnt0 <= n,
                progress ==> cnt > cnt0,
                !progress ==> layer@ == start,
                forall|x: int| 0 <= x < n && #[trigger] layer@[x] is Some ==> (layer@[x]->0 as int) < cnt,
                sound_so_far(*c, layer@),
                !progress ==> forall|x: int|
                    0 <= x < i ==> is_root_issue(*c, x) || (#[trigger] layer@[x]) is Some || exists|b: int|
                        #[trigger] depends(*c, x, b) && layer@[b] is None,
            decreases n - i,
        {
            if c.issues[i].id == c.root.id || layer[i].is_some() {
            } else {
                let ghost before = layer@;
                proof {
                    assert(lists_deps(*c, i as int, deps@[i as int]@));
                }
                let r = ready_layer(&deps[i], &layer);
                proof {
                    lemma_ready_as_depends(*c, i as int, deps@[i as int]@, before, r);
                }
                if let Some(v) = r {
                    proof {
                        lemma_count_some_update(before, i as int, v);
                        lemma_count_some_le(before.update(i as int, Some(v)));
                        lemma_assign_keeps_sound(*c, before, i as int, v);
                    }
                    layer[i] = Some(v);
                    proof {
                        cnt = cnt + 1;
                        assert(layer@ == before.update(i as int, Some(v)));
                        if v > 0 {
                            let b = choose|b: int| #[trigger] depends(*c, i as int, b) && before[b]->0 + 1 == v;
                            lemma_depends_bounds(*c, i as int, b);
                        }
                    }
                    progress = true;
                }
            }
            i = i + 1;
        }
        if !progress {
            proof {
                lemma_count_some_le(layer@);
                lemma_stuck_is_valid(*c, layer@);
            }
            return layer;
        }
    }
}

proof fn lemma_count_some_zero(s: Seq<Option<usize>>, x: int)
    requires
        0 <= x <= s.len(),
        forall|i: int| 0 <= i < s.len() ==> (#[trigger] s[i]) is None,
    ensures
        count_some(s.take(x)) == 0,
    decreases x,
{
    if x > 0 {
        assert(s.take(x).drop_last() =~= s.take(x - 1));
        lemma_count_some_zero(s, x - 1);
    }
}

/// Topologically groups a component's non-root issues into layers by
/// `Blocks`/`ParentChild` dependency depth. Layer 0 = no in-component deps;
/// layer N = depends on issues in layer < N. Returns a Vec of Vecs of
/// indices into `component.issues`. Layer ordering within is stable by id.
pub fn compute_layers(component: &Component) -> (r: Vec<Vec<usize>>)
    ensures
        valid_layering(*component, the_layering(*component)),
        layers_from(*component, the_layering(*component), bucket_views(r@)),
        bucket_views(r@) == the_layers(*component),
{
    let n = component.issues.len();
    let deps = dependency_lists(component);
    let layer = assign_layers(component, &deps);
    let ghost lv = layer@;

    // The highest layer in use.
    let mut max_l: usize = 0;
    let mut i: usize = 0;
    while i < n
        invariant
            i <= n == layer.len(),
            forall|x: int| 0 <= x < i && #[trigger] layer@[x] is Some ==> layer@[x]->0 <= max_l,
            max_l == 0 || exists|x: int| 0 <= x < i && #[trigger] layer@[x] == Some(max_l),
        decreases n - i,
    {
        if let Some(v) = layer[i] {
            if v > max_l {
                max_l = v;
            }
        }
        i = i + 1;
    }
    proof {
        if max_l > 0 {
            let x = choose|x: int| 0 <= x < n && #[trigger] layer@[x] == Some(max_l);
            assert(layer_fits(*component, lv, x));
            // A layer is below the number of issues with layers, hence below n.
        }
    }

    // The ids, for ordering within a layer.
    let mut ids: Vec<Vec<char>> = Vec::new();
    let mut i: usize = 0;
    while i < n
        invariant
            i <= n == component.issues.len(),
            ids.len() == i,
            forall|x: int| 0 <= x < i ==> (#[trigger] ids@[x])@ == component.issues@[x].id@,
        decreases n - i,
    {
        ids.push(chars_of(component.issues[i].id.as_str()));
        i = i + 1;
    }

    let mut layers: Vec<Vec<usize>> = Vec::new();
    let mut l: usize = 0;
    while l <= max_l
        invariant
            l <= max_l + 1,
            max_l == 0 || max_l < n,
            layers.len() == l,
            forall|m: int| 0 <= m < l ==> (#[trigger] layers@[m])@.len() == 0,
        decreases max_l + 1 - l,
    {
        layers.push(Vec::new());
        l = l + 1;
    }

    let mut i: usize = 0;
    while i < n
        invariant
            i <= n == component.issues.len() == layer.len() == ids.len(),
            lv == layer@,
            valid_layering(*component, lv),
            forall|x: int| 0 <= x < n ==> (#[trigger] ids@[x])@ == component.issues@[x].id@,
            layers.len() == max_l + 1,
            forall|x: int| 0 <= x < n && #[trigger] lv[x] is Some ==> lv[x]->0 <= max_l,
            forall|m: int, j: int|
                0 <= m < layers.len() && 0 <= j < layers@[m].len() ==> #[trigger] layers@[m]@[j] < i,
            forall|m: int, j: int, k: int|
                0 <= m < layers.len() && 0 <= j < k < layers@[m].len() ==> key_lt(
                    *component,
                    #[trigger] layers@[m]@[j] as int,
                    #[trigger] layers@[m]@[k] as int,
                ),
            forall|m: int, x: usize|
                0 <= m < layers.len() ==> (#[trigger] layers@[m]@.contains(x) <==> ((x as int) < i
                    && lv[x as int] == Some(m as usize))),
        decreases n - i,
    {
        if let Some(m) = layer[i] {
            let ghost b = layers@[m as int]@;
            let p = insert_position(&layers[m], &ids, &ids[i], i);
            proof {
                assert forall|j: int| 0 <= j < p implies key_lt(*component, b[j] as int, i as int) by {
                    lemma_chars_lt_total(ids@[i as int]@, ids@[b[j] as int]@);
                }
                assert forall|j: int| p <= j < b.len() implies key_lt(*component, i as int, b[j] as int) by {
                    if j > p {
                        lemma_key_lt_transitive(*component, i as int, b[p as int] as int, b[j] as int);
                    }
                }
            }
            layers[m].insert(p, i);
            proof {
                let nb = layers@[m as int]@;
                assert(nb == b.insert(p as int, i));
                assert forall|j: int, k: int| 0 <= j < k < nb.len() implies key_lt(
                    *component,
                    nb[j] as int,
                    nb[k] as int,
                ) by {
                    if k < p {
                    } else if k == p {
                    } else if j < p {
                        lemma_key_lt_transitive(*component, nb[j] as int, i as int, nb[k] as int);
                    } else if j == p {
                    } else {
                    }
                }
                assert forall|x: usize| #[trigger] nb.contains(x) <==> ((x as int) < i + 1 && lv[x as int]
                    == Some(m as usize)) by {
                    if nb.contains(x) {
                        let j = choose|j: int| 0 <= j < nb.len() && nb[j] == x;
                        if j < p {
                            assert(b.contains(x));
                        } else if j > p {
                            assert(b[j - 1] == x);
                            assert(b.contains(x));
                        }
                    }
                    if (x as int) < i && lv[x as int] == Some(m as usize) {
                        assert(b.contains(x));
                        let j = choose|j: int| 0 <= j < b.len() && b[j] == x;
                        if j < p {
                            assert(nb[j] == x);
                        } else {
                            assert(nb[j + 1] == x);
                        }
                    }
                    if x == i {
                        assert(nb[p as int] == x);
                    }
                }
            }
        }
        i = i + 1;
    }
    proof {
        let r = bucket_views(layers@);
        assert forall|l: int| 0 <= l < r.len() implies bucket_ok(*component, lv, l, #[trigger] r[l]) by {
            assert(r[l] == layers@[l]@);
        }
        if r.len() > 1 {
            let x = choose|x: int| 0 <= x < n && #[trigger] layer@[x] == Some(max_l);
            assert(layers@[max_l as int]@.contains(x as usize));
        }
        assert(layers_from(*component, lv, r));
        let tl = the_layering(*component);
        lemma_layering_unique(*component, lv, tl);
        lemma_layers_unique(*component, lv, r, the_layers(*component));
    }
    layers
}

proof fn lemma_key_lt_transitive(c: Component, x: int, y: int, z: int)
    requires
        key_lt(c, x, y),
        key_lt(c, y, z),
    ensures
        key_lt(c, x, z),
{
    let (a, b, d) = (c.issues@[x].id@, c.issues@[y].id@, c.issues@[z].id@);
    if chars_lt(a, b) && chars_lt(b, d) {
        lemma_chars_lt_transitive(a, b, d);
    }
}

/// The first position in `bucket` whose id sorts after `id`.
fn insert_position(bucket: &Vec<usize>, ids: &Vec<Vec<char>>, id: &Vec<char>, new_index: usize) -> (p: usize)
    requires
        forall|j: int| 0 <= j < bucket.len() ==> #[trigger] bucket@[j] < ids.len(),
    ensures
        p <= bucket.len(),
        forall|j: int| 0 <= j < p ==> !chars_lt(id@, (#[trigger] ids@[bucket@[j] as int])@),
        p < bucket.len() ==> chars_lt(id@, ids@[bucket@[p as int] as int]@),
{
    let mut p: usize = 0;
    while p < bucket.len()
        invariant
            p <= bucket.len(),
            forall|j: int| 0 <= j < bucket.len() ==> #[trigger] bucket@[j] < ids.len(),
            forall|j: int| 0 <= j < p ==> !chars_lt(id@, (#[trigger] ids@[bucket@[j] as int])@),
        decreases bucket.len() - p,
    {
        if chars_less(id, &ids[bucket[p]]) {
            return p;
        }
        p = p + 1;
    }
    p
}

/// The sub-beads of the focused view in screen order: layer 0 first, then
/// layer 1, and so on; within a layer by id.
pub fn visual_sub_order(component: &Component) -> (r: Vec<usize>)
    ensures
        r@ == sub_order(*component),
{
    let layers = compute_layers(component);
    let ghost ls = bucket_views(layers@);
    let mut r: Vec<usize> = Vec::new();
    let mut l: usize = 0;
    while l < layers.len()
        invariant
            l <= layers.len(),
            ls == bucket_views(layers@),
            r@ == flatten(ls.take(l as int)),
        decreases layers.len() - l,
    {
        let bucket = &layers[l];
        let ghost before = r@;
        let mut j: usize = 0;
        while j < bucket.len()
            invariant
                j <= bucket.len(),
                r@ == before + bucket@.take(j as int),
            decreases bucket.len() - j,
        {
            r.push(bucket[j]);
            j = j + 1;
            assert(r@ =~= before + bucket@.take(j as int));
        }
        proof {
            assert(ls.take(l + 1).drop_last() =~= ls.take(l as int));
            assert(bucket@.take(j as int) =~= bucket@);
            assert(ls[l as int] == bucket@);
        }
        l = l + 1;
    }
    assert(ls.take(l as int) =~= ls);
    r
}

} // verus!
