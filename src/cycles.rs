use vstd::prelude::*;
use crate::sdk::{Package, Sdk};

verus! {

/// Node `v` after `target` is merged into `consumer`.
pub open spec fn mapped(v: usize, target: usize, consumer: usize) -> usize {
    if v == target { consumer } else { v }
}

/// `e` becomes the edge `(a, b)` once `target` is merged into `consumer`.
pub open spec fn maps_to(e: (usize, usize), target: usize, consumer: usize, a: usize, b: usize) -> bool {
    mapped(e.0, target, consumer) == a && mapped(e.1, target, consumer) == b
}

/// Some edge among the first `n` of `edges` becomes `(a, b)`, and `a != b`.
pub open spec fn rewritten(
    edges: Seq<(usize, usize)>,
    n: int,
    target: usize,
    consumer: usize,
    a: usize,
    b: usize,
) -> bool {
    a != b && exists|k: int| 0 <= k < n && #[trigger] maps_to(edges[k], target, consumer, a, b)
}

fn contains_edge(edges: &Vec<(usize, usize)>, e: (usize, usize)) -> (r: bool)
    ensures
        r == edges@.contains(e),
{
    let mut j: usize = 0;
    while j < edges.len()
        invariant
            0 <= j <= edges@.len(),
            forall|i: int| 0 <= i < j ==> edges@[i] != e,
        decreases edges@.len() - j,
    {
        if edges[j].0 == e.0 && edges[j].1 == e.1 {
            assert(edges@[j as int] == e);
            return true;
        }
        j = j + 1;
    }
    false
}

/// The edges after `target` is merged into `consumer`: each edge's ends are
/// mapped, self-edges dropped and repeats kept once.
fn rewrite_edges(edges: &Vec<(usize, usize)>, target: usize, consumer: usize) -> (r: Vec<(usize, usize)>)
    ensures
        r@.no_duplicates(),
        forall|a: usize, b: usize|
            #[trigger] r@.contains((a, b)) <==> rewritten(edges@, edges@.len() as int, target, consumer, a, b),
{
    let mut out: Vec<(usize, usize)> = Vec::new();
    let mut i: usize = 0;
    while i < edges.len()
        invariant
            0 <= i <= edges@.len(),
            out@.no_duplicates(),
            forall|a: usize, b: usize|
                #[trigger] out@.contains((a, b)) <==> rewritten(edges@, i as int, target, consumer, a, b),
        decreases edges@.len() - i,
    {
        let (x, y) = edges[i];
        let a = if x == target { consumer } else { x };
        let b = if y == target { consumer } else { y };
        let ghost before = out@;
        if a != b && !contains_edge(&out, (a, b)) {
            out.push((a, b));
        }
        proof {
            assert(maps_to(edges@[i as int], target, consumer, a, b));
            assert forall|c: usize, d: usize| #[trigger] out@.contains((c, d)) <==> rewritten(
                edges@,
                i + 1,
                target,
                consumer,
                c,
                d,
            ) by {
                if rewritten(edges@, i + 1, target, consumer, c, d) {
                    let k = choose|k: int|
                        0 <= k < i + 1 && #[trigger] maps_to(edges@[k], target, consumer, c, d);
                    if k < i {
                        assert(rewritten(edges@, i as int, target, consumer, c, d));
                        assert(before.contains((c, d)));
                        let j = choose|j: int| 0 <= j < before.len() && before[j] == (c, d);
                        assert(out@[j] == (c, d));
                    } else {
                        assert(c == a && d == b);
                        if before.contains((a, b)) {
                            let j = choose|j: int| 0 <= j < before.len() && before[j] == (a, b);
                            assert(out@[j] == (a, b));
                        } else {
                            assert(out@[before.len() as int] == (a, b));
                        }
                    }
                }
                if out@.contains((c, d)) {
                    let j = choose|j: int| 0 <= j < out@.len() && out@[j] == (c, d);
                    if j < before.len() {
                        assert(before[j] == (c, d));
                        assert(before.contains((c, d)));
                        let k = choose|k: int|
                            0 <= k < i && #[trigger] maps_to(edges@[k], target, consumer, c, d);
                        assert(maps_to(edges@[k], target, consumer, c, d));
                    } else {
                        assert(c == a && d == b);
                    }
                }
            }
            assert(out@.no_duplicates()) by {
                assert forall|p: int, q: int|
                    0 <= p < out@.len() && 0 <= q < out@.len() && p != q implies out@[p]
                    != out@[q] by {
                    if p < before.len() && q < before.len() {
                        assert(out@[p] == before[p]);
                        assert(out@[q] == before[q]);
                    } else if p < before.len() {
                        assert(out@[p] == before[p]);
                        assert(before.contains(out@[p]));
                    } else {
                        assert(out@[q] == before[q]);
                        assert(before.contains(out@[q]));
                    }
                }
            }
        }
        i = i + 1;
    }
    out
}

/// Merges package `target` into package `consumer`: its objects move to the
/// end of the consumer's list and are owned by the consumer, every edge of
/// `target` is carried over to `consumer` (self-edges dropped, repeats kept
/// once), and `target` is removed.
pub fn merge(sdk: &mut Sdk, consumer: usize, target: usize)
    requires
        old(sdk).wf(),
        consumer < old(sdk).packages@.len(),
        target < old(sdk).packages@.len(),
        consumer != target,
        old(sdk).alive@[consumer as int],
        old(sdk).alive@[target as int],
    ensures
        final(sdk).wf(),
        final(sdk).objects@ == old(sdk).objects@,
        forall|o: int|
            0 <= o < old(sdk).owner@.len() ==> #[trigger] final(sdk).owner@[o] == mapped(
                old(sdk).owner@[o],
                target,
                consumer,
            ),
        final(sdk).alive@ == old(sdk).alive@.update(target as int, false),
        final(sdk).packages@.len() == old(sdk).packages@.len(),
        final(sdk).packages@[consumer as int].objects@ == old(sdk).packages@[consumer as int].objects@
            + old(sdk).packages@[target as int].objects@,
        final(sdk).packages@[target as int].objects@.len() == 0,
        forall|p: int|
            0 <= p < old(sdk).packages@.len() ==> #[trigger] final(sdk).packages@[p].ident
                == old(sdk).packages@[p].ident,
        forall|p: int|
            0 <= p < old(sdk).packages@.len() && p != consumer && p != target
                ==> #[trigger] final(sdk).packages@[p] == old(sdk).packages@[p],
        forall|a: usize, b: usize|
            #[trigger] final(sdk).has_edge(a, b) <==> rewritten(
                old(sdk).edges@,
                old(sdk).edges@.len() as int,
                target,
                consumer,
                a,
                b,
            ),
{
    let ghost s0 = *sdk;
    let _n: usize = sdk.owner.len();
    let mut moved: Vec<usize> = Vec::new();
    std::mem::swap(&mut moved, &mut sdk.packages[target].objects);
    let ghost tl = moved@;
    let ghost cons0 = s0.packages@[consumer as int].objects@;
    proof {
        assert forall|o: int| 0 <= o < s0.objects@.len() implies (tl.contains(o as usize) <==> s0.owner@[o]
            == target) by {
            if s0.owner@[o] == target {
                assert(s0.packages@[s0.owner@[o] as int].objects@.contains(o as usize));
            }
            if tl.contains(o as usize) {
                let k = choose|k: int| 0 <= k < tl.len() && tl[k] == o as usize;
                assert(s0.packages@[target as int].objects@[k] == o as usize);
            }
        }
    }
    let mut i: usize = 0;
    while i < moved.len()
        invariant
            0 <= i <= moved@.len(),
            moved@ == tl,
            s0.owner@.len() <= usize::MAX,
            s0.wf(),
            consumer < s0.packages@.len(),
            target < s0.packages@.len(),
            consumer != target,
            cons0 == s0.packages@[consumer as int].objects@,
            tl == s0.packages@[target as int].objects@,
            sdk.objects@ == s0.objects@,
            sdk.owner@.len() == s0.owner@.len(),
            sdk.packages@.len() == s0.packages@.len(),
            sdk.alive@ == s0.alive@,
            sdk.edges@ == s0.edges@,
            sdk.packages@[consumer as int].objects@ == cons0 + tl.take(i as int),
            sdk.packages@[consumer as int].ident == s0.packages@[consumer as int].ident,
            sdk.packages@[target as int].objects@.len() == 0,
            sdk.packages@[target as int].ident == s0.packages@[target as int].ident,
            forall|p: int|
                0 <= p < s0.packages@.len() && p != consumer && p != target
                    ==> #[trigger] sdk.packages@[p] == s0.packages@[p],
            forall|o: int|
                0 <= o < s0.owner@.len() ==> #[trigger] sdk.owner@[o] == if tl.take(i as int).contains(
                    o as usize,
                ) {
                    consumer
                } else {
                    s0.owner@[o]
                },
        decreases moved@.len() - i,
    {
        let o = moved[i];
        proof {
            assert(s0.packages@[target as int].objects@[i as int] == o);
        }
        let mut list: Vec<usize> = Vec::new();
        std::mem::swap(&mut list, &mut sdk.packages[consumer].objects);
        list.push(o);
        std::mem::swap(&mut list, &mut sdk.packages[consumer].objects);
        sdk.owner.set(o, consumer);
        proof {
            assert(tl.take(i + 1) =~= tl.take(i as int).push(o));
            assert(sdk.packages@[consumer as int].objects@ =~= cons0 + tl.take(i + 1));
            assert forall|x: int| 0 <= x < s0.owner@.len() implies #[trigger] sdk.owner@[x] == if tl.take(
                i + 1,
            ).contains(x as usize) {
                consumer
            } else {
                s0.owner@[x]
            } by {
                if x == o {
                    assert(tl.take(i + 1)[i as int] == o);
                    assert(tl.take(i + 1).contains(o));
                } else {
                    if tl.take(i + 1).contains(x as usize) {
                        let k = choose|k: int| 0 <= k < i + 1 && #[trigger] tl.take(i + 1)[k] == x as usize;
                        assert(tl.take(i + 1)[i as int] == o);
                        assert(k != i);
                        assert(tl.take(i as int)[k] == x as usize);
                    }
                    if tl.take(i as int).contains(x as usize) {
                        let k = choose|k: int| 0 <= k < i && #[trigger] tl.take(i as int)[k] == x as usize;
                        assert(tl.take(i + 1)[k] == x as usize);
                    }
                }
            }
        }
        i = i + 1;
    }
    assert(tl.take(i as int) =~= tl);
    let edges = rewrite_edges(&sdk.edges, target, consumer);
    sdk.edges = edges;
    sdk.alive.set(target, false);
    proof {
        let s = *sdk;
        assert forall|o: int| 0 <= o < s0.owner@.len() implies #[trigger] s.owner@[o] == mapped(
            s0.owner@[o],
            target,
            consumer,
        ) by {}
        // each object is listed by its owner, which is live
        assert forall|o: int| 0 <= o < s.objects@.len() implies {
            let p = #[trigger] s.owner@[o] as int;
            &&& 0 <= p < s.packages@.len()
            &&& s.alive@[p]
            &&& s.packages@[p].objects@.contains(o as usize)
        } by {
            let q = s0.owner@[o] as int;
            assert(s0.packages@[q].objects@.contains(o as usize));
            let k = choose|k: int|
                0 <= k < s0.packages@[q].objects@.len() && s0.packages@[q].objects@[k] == o as usize;
            if q == target {
                assert(s.packages@[consumer as int].objects@[cons0.len() + k] == o as usize);
            } else if q == consumer {
                assert(s.packages@[consumer as int].objects@[k] == o as usize);
            } else {
                assert(s.packages@[q] == s0.packages@[q]);
            }
        }
        assert forall|p: int, k: int|
            0 <= p < s.packages@.len() && 0 <= k < s.packages@[p].objects@.len() implies {
            let x = #[trigger] s.packages@[p].objects@[k] as int;
            &&& 0 <= x < s.objects@.len()
            &&& s.owner@[x] == p
        } by {
            if p == consumer {
                if k < cons0.len() {
                    assert(s.packages@[p].objects@[k] == cons0[k]);
                    assert(s0.packages@[p].objects@[k] == cons0[k]);
                } else {
                    assert(s.packages@[p].objects@[k] == tl[k - cons0.len()]);
                    assert(s0.packages@[target as int].objects@[k - cons0.len()] == tl[k
                        - cons0.len()]);
                }
            } else if p != target {
                assert(s.packages@[p] == s0.packages@[p]);
                assert(s0.packages@[p].objects@[k] == s.packages@[p].objects@[k]);
            }
        }
        assert forall|p: int, q: int|
            0 <= p < s.packages@.len() && 0 <= q < s.packages@.len() && p != q && s.alive@[p]
                && s.alive@[q] implies s.packages@[p].ident@ != s.packages@[q].ident@ by {
            assert(s.packages@[p].ident == s0.packages@[p].ident);
            assert(s.packages@[q].ident == s0.packages@[q].ident);
        }
        assert forall|k: int| 0 <= k < s.edges@.len() implies {
            let e = #[trigger] s.edges@[k];
            &&& e.0 != e.1
            &&& e.0 < s.packages@.len()
            &&& e.1 < s.packages@.len()
            &&& s.alive@[e.0 as int]
            &&& s.alive@[e.1 as int]
        } by {
            let e = s.edges@[k];
            assert(s.edges@.contains((e.0, e.1)));
            let j = choose|j: int|
                0 <= j < s0.edges@.len() && #[trigger] maps_to(s0.edges@[j], target, consumer, e.0, e.1);
            let f = s0.edges@[j];
            assert(s0.alive@[f.0 as int] && s0.alive@[f.1 as int]);
        }
        assert forall|i: int, j: int|
            0 <= i < s.objects@.len() && 0 <= j < s.objects@.len() && i != j implies s.fqn_at(i)
            != s.fqn_at(j) by {
            assert(s.fqn_at(i) == s0.fqn_at(i));
            assert(s.fqn_at(j) == s0.fqn_at(j));
        }
        assert forall|a: usize, b: usize| #[trigger] s.has_edge(a, b) <==> rewritten(
            s0.edges@,
            s0.edges@.len() as int,
            target,
            consumer,
            a,
            b,
        ) by {
            assert(s.edges@.contains((a, b)) == s.has_edge(a, b));
        }
        assert forall|p: int|
            0 <= p < s0.packages@.len() && p != consumer && p != target implies #[trigger] s.packages@[p]
            == s0.packages@[p] by {}
        assert forall|p: int| 0 <= p < s0.packages@.len() implies #[trigger] s.packages@[p].ident
            == s0.packages@[p].ident by {}
    }
}

} // verus!

verus! {

/// Number of `true` entries.
pub open spec fn count_true(s: Seq<bool>) -> nat
    decreases s.len(),
{
    if s.len() == 0 {
        0
    } else {
        count_true(s.drop_last()) + if s.last() { 1nat } else { 0nat }
    }
}

proof fn lemma_count_update(s: Seq<bool>, i: int)
    requires
        0 <= i < s.len(),
        s[i],
    ensures
        count_true(s.update(i, false)) + 1 == count_true(s),
    decreases s.len(),
{
    let t = s.update(i, false);
    if i < s.len() - 1 {
        assert(t.drop_last() =~= s.drop_last().update(i, false));
        lemma_count_update(s.drop_last(), i);
    } else {
        assert(t.drop_last() =~= s.drop_last());
    }
}

proof fn lemma_count_le(s: Seq<bool>)
    ensures
        count_true(s) <= s.len(),
    decreases s.len(),
{
    if s.len() > 0 {
        lemma_count_le(s.drop_last());
    }
}

/// `pos` places every edge's source before its target.
pub open spec fn orders(sdk: &Sdk, pos: Seq<usize>) -> bool {
    &&& pos.len() == sdk.packages@.len()
    &&& forall|k: int|
        0 <= k < sdk.edges@.len() ==> pos[(#[trigger] sdk.edges@[k]).0 as int] < pos[sdk.edges@[k].1 as int]
}

/// The package graph has no cycle: some numbering orders every edge forward.
pub open spec fn is_dag(sdk: &Sdk) -> bool {
    exists|pos: Seq<usize>| orders(sdk, pos)
}

/// `rem` marks a non-empty set of live packages each of which has a
/// dependant inside the set.
pub open spec fn stalled(sdk: &Sdk, rem: Seq<bool>) -> bool {
    &&& rem.len() == sdk.packages@.len()
    &&& rem.len() == sdk.alive@.len()
    &&& rem.len() <= usize::MAX
    &&& exists|v: int| 0 <= v < rem.len() && rem[v]
    &&& forall|v: int|
        0 <= v < rem.len() && #[trigger] marked(rem, v) ==> sdk.alive@[v] && exists|u: usize|
            u < rem.len() && rem[u as int] && sdk.has_edge(u, v as usize)
}

/// Package `v` is in the set `rem`.
pub open spec fn marked(rem: Seq<bool>, v: int) -> bool {
    rem[v]
}

proof fn lemma_edge_forward(sdk: &Sdk, pos: Seq<usize>, u: usize, v: usize)
    requires
        orders(sdk, pos),
        sdk.has_edge(u, v),
    ensures
        pos[u as int] < pos[v as int],
{
    let k = choose|k: int| 0 <= k < sdk.edges@.len() && sdk.edges@[k] == (u, v);
    assert(pos[sdk.edges@[k].0 as int] < pos[sdk.edges@[k].1 as int]);
}

proof fn lemma_stalled_floor(sdk: &Sdk, pos: Seq<usize>, rem: Seq<bool>, m: nat)
    requires
        orders(sdk, pos),
        stalled(sdk, rem),
    ensures
        forall|v: int| 0 <= v < rem.len() && #[trigger] rem[v] ==> pos[v] >= m,
    decreases m,
{
    if m > 0 {
        lemma_stalled_floor(sdk, pos, rem, (m - 1) as nat);
        assert forall|v: int| 0 <= v < rem.len() && #[trigger] rem[v] implies pos[v] >= m by {
            assert(marked(rem, v));
            let u = choose|u: usize| u < rem.len() && rem[u as int] && sdk.has_edge(u, v as usize);
            lemma_edge_forward(sdk, pos, u, v as usize);
            assert(pos[u as int] >= m - 1);
        }
    }
}

/// A graph that some numbering orders has no stalled set.
proof fn lemma_dag_never_stalls(sdk: &Sdk, pos: Seq<usize>, rem: Seq<bool>)
    requires
        orders(sdk, pos),
    ensures
        !stalled(sdk, rem),
{
    if stalled(sdk, rem) {
        let v = choose|v: int| 0 <= v < rem.len() && rem[v];
        lemma_stalled_floor(sdk, pos, rem, (pos[v] + 1) as nat);
    }
}

impl Sdk {
    /// Whether an edge `(u, v)` comes from a package `u` marked in `rem`.
    fn has_marked_pred(&self, rem: &Vec<bool>, v: usize) -> (r: bool)
        requires
            self.wf(),
            rem@.len() == self.packages@.len(),
        ensures
            r == exists|u: usize| u < rem@.len() && rem@[u as int] && self.has_edge(u, v),
    {
        let mut k: usize = 0;
        while k < self.edges.len()
            invariant
                self.wf(),
                rem@.len() == self.packages@.len(),
                0 <= k <= self.edges@.len(),
                forall|j: int|
                    0 <= j < k ==> !(self.edges@[j].1 == v && rem@[self.edges@[j].0 as int]),
            decreases self.edges@.len() - k,
        {
            let (u, w) = self.edges[k];
            if w == v && rem[u] {
                assert(self.edges@[k as int] == (u, v));
                return true;
            }
            k = k + 1;
        }
        proof {
            assert forall|u: usize| u < rem@.len() && rem@[u as int] implies !self.has_edge(u, v) by {
                if self.has_edge(u, v) {
                    let j = choose|j: int| 0 <= j < self.edges@.len() && self.edges@[j] == (u, v);
                }
            }
        }
        false
    }

    /// Numbers the live packages so that every edge goes forward, or returns
    /// a stalled set of packages, which holds a cycle.
    pub fn topo_order(&self) -> (r: Result<Vec<usize>, Vec<bool>>)
        requires
            self.wf(),
        ensures
            r is Ok ==> orders(self, r->Ok_0@),
            r is Err ==> stalled(self, r->Err_0@),
    {
        let n = self.packages.len();
        let mut rem: Vec<bool> = Vec::new();
        let mut pos: Vec<usize> = Vec::new();
        let mut i: usize = 0;
        while i < n
            invariant
                n == self.packages@.len(),
                self.alive@.len() == n,
                0 <= i <= n,
                rem@ =~= self.alive@.take(i as int),
                pos@.len() == i,
            decreases n - i,
        {
            rem.push(self.alive[i]);
            pos.push(0);
            i = i + 1;
            assert(rem@ =~= self.alive@.take(i as int));
        }
        assert(self.alive@.take(n as int) =~= self.alive@);
        let mut k: usize = 0;
        proof {
            lemma_count_le(rem@);
        }
        loop
            invariant
                self.wf(),
                n == self.packages@.len(),
                rem@.len() == n,
                pos@.len() == n,
                k + count_true(rem@) <= n,
                forall|p: int| 0 <= p < n && #[trigger] rem@[p] ==> self.alive@[p],
                forall|p: int| 0 <= p < n && self.alive@[p] && !rem@[p] ==> #[trigger] pos@[p] < k,
                forall|j: int|
                    0 <= j < self.edges@.len() && !rem@[(#[trigger] self.edges@[j]).1 as int] ==> !rem@[self.edges@[j].0 as int]
                        && pos@[self.edges@[j].0 as int] < pos@[self.edges@[j].1 as int],
            decreases count_true(rem@),
        {
            let mut v: usize = 0;
            let mut found: Option<usize> = None;
            let mut any = false;
            while v < n && found.is_none()
                invariant
                    self.wf(),
                    n == self.packages@.len(),
                    rem@.len() == n,
                    0 <= v <= n,
                    found is Some ==> found->0 < n && rem@[found->0 as int] && !(exists|u: usize|
                        u < rem@.len() && rem@[u as int] && self.has_edge(u, found->0)),
                    found is None ==> forall|w: int|
                        0 <= w < v && #[trigger] rem@[w] ==> exists|u: usize|
                            u < rem@.len() && rem@[u as int] && self.has_edge(u, w as usize),
                    found is None ==> (any <==> exists|w: int| 0 <= w < v && rem@[w]),
                decreases n - v + if found is Some { 0int } else { 1int },
            {
                if rem[v] {
                    any = true;
                    if !self.has_marked_pred(&rem, v) {
                        found = Some(v);
                    }
                }
                if found.is_none() {
                    v = v + 1;
                }
            }
            match found {
                Some(w) => {
                    let ghost before = rem@;
                    proof {
                        lemma_count_update(rem@, w as int);
                    }
                    rem.set(w, false);
                    pos.set(w, k);
                    proof {
                        assert forall|j: int|
                            0 <= j < self.edges@.len() && !rem@[(#[trigger] self.edges@[j]).1 as int] implies !rem@[self.edges@[j].0 as int]
                            && pos@[self.edges@[j].0 as int] < pos@[self.edges@[j].1 as int] by {
                            let e = self.edges@[j];
                            if e.1 == w {
                                if before[e.0 as int] {
                                    assert(self.has_edge(e.0, w));
                                }
                                assert(self.alive@[e.0 as int]);
                            } else {
                                assert(e.0 != w);
                            }
                        }
                    }
                    k = k + 1;
                },
                None => {
                    if any {
                        return Err(rem);
                    } else {
                        proof {
                            assert forall|j: int| 0 <= j < self.edges@.len() implies pos@[(#[trigger] self.edges@[j]).0 as int]
                                < pos@[self.edges@[j].1 as int] by {
                                let e = self.edges@[j];
                                assert(!rem@[e.1 as int]);
                            }
                        }
                        return Ok(pos);
                    }
                },
            }
        }
    }
}

} // verus!

verus! {

proof fn lemma_distinct_bound(s: Seq<usize>, n: nat)
    requires
        s.no_duplicates(),
        forall|i: int| 0 <= i < s.len() ==> (#[trigger] s[i]) < n,
    ensures
        s.len() <= n,
    decreases n,
{
    if n == 0 {
        if s.len() > 0 {
            assert(s[0] < 0);
        }
    } else {
        let top = (n - 1) as usize;
        if s.contains(top) {
            let j = choose|j: int| 0 <= j < s.len() && s[j] == top;
            let t = s.remove(j);
            assert forall|i: int| 0 <= i < t.len() implies (#[trigger] t[i]) < (n - 1) as nat by {
                if i < j {
                    assert(t[i] == s[i]);
                } else {
                    assert(t[i] == s[i + 1]);
                }
            }
            assert(t.no_duplicates()) by {
                assert forall|a: int, b: int| 0 <= a < t.len() && 0 <= b < t.len() && a != b implies t[a]
                    != t[b] by {
                    let a2 = if a < j { a } else { a + 1 };
                    let b2 = if b < j { b } else { b + 1 };
                    assert(t[a] == s[a2]);
                    assert(t[b] == s[b2]);
                }
            }
            lemma_distinct_bound(t, (n - 1) as nat);
        } else {
            assert forall|i: int| 0 <= i < s.len() implies (#[trigger] s[i]) < (n - 1) as nat by {
                assert(s[i] != top);
            }
            lemma_distinct_bound(s, (n - 1) as nat);
        }
    }
}

/// `c` is a cycle of live packages: distinct, at least two, each depending
/// on the next in reverse order and the first on the last.
pub open spec fn is_cycle(sdk: &Sdk, c: Seq<usize>) -> bool {
    &&& c.len() >= 2
    &&& c.no_duplicates()
    &&& forall|j: int|
        0 <= j < c.len() ==> (#[trigger] c[j]) < sdk.packages@.len() && sdk.alive@[c[j] as int]
    &&& forall|j: int| 0 <= j < c.len() - 1 ==> sdk.has_edge(#[trigger] c[j + 1], c[j])
    &&& sdk.has_edge(c[0], c[c.len() - 1])
}

/// `after` is what cycle elimination makes of `before`: a well-formed graph
/// without cycles over the same objects, and `before` itself where it had
/// none.
pub open spec fn eliminated(before: &Sdk, after: &Sdk) -> bool {
    &&& after.wf()
    &&& is_dag(after)
    &&& after.objects@ == before.objects@
    &&& is_dag(before) ==> *after == *before
    &&& exists|rep: Seq<usize>| #[trigger] represented(before, after, rep)
}

/// Edge `e` of the original graph becomes `(x, y)` under `rep`.
pub open spec fn rep_maps(e: (usize, usize), rep: Seq<usize>, x: usize, y: usize) -> bool {
    rep[e.0 as int] == x && rep[e.1 as int] == y
}

/// `s` is `s0` with each package `p` merged into package `rep[p]`: each
/// object is owned by the representative of its old package, and each old
/// edge `u -> v` becomes `rep[u] -> rep[v]` unless both ends merged into one.
pub open spec fn represented(s0: &Sdk, s: &Sdk, rep: Seq<usize>) -> bool {
    &&& rep.len() == s0.packages@.len()
    &&& s.packages@.len() == s0.packages@.len()
    &&& forall|p: int| 0 <= p < rep.len() ==> (#[trigger] rep[p]) < rep.len()
    &&& forall|o: int| 0 <= o < s0.owner@.len() ==> #[trigger] s.owner@[o] == rep[s0.owner@[o] as int]
    &&& forall|x: usize, y: usize|
        #[trigger] s.has_edge(x, y) <==> x != y && exists|k: int|
            0 <= k < s0.edges@.len() && #[trigger] rep_maps(s0.edges@[k], rep, x, y)
}

proof fn lemma_rep_start(s0: &Sdk)
    requires
        s0.wf(),
    ensures
        represented(s0, s0, Seq::new(s0.packages@.len(), |i: int| i as usize)),
{
    let rep = Seq::new(s0.packages@.len(), |i: int| i as usize);
    assert forall|x: usize, y: usize|
        #[trigger] s0.has_edge(x, y) <==> x != y && exists|k: int|
            0 <= k < s0.edges@.len() && #[trigger] rep_maps(s0.edges@[k], rep, x, y) by {
        if s0.has_edge(x, y) {
            let k = choose|k: int| 0 <= k < s0.edges@.len() && s0.edges@[k] == (x, y);
            assert(rep_maps(s0.edges@[k], rep, x, y));
        }
        if x != y && exists|k: int| 0 <= k < s0.edges@.len() && #[trigger] rep_maps(s0.edges@[k], rep, x, y) {
            let k = choose|k: int| 0 <= k < s0.edges@.len() && #[trigger] rep_maps(s0.edges@[k], rep, x, y);
            let e = s0.edges@[k];
            assert(e.0 < s0.packages@.len() && e.1 < s0.packages@.len());
            assert(e == (x, y));
        }
    }
}

proof fn lemma_rep_merge(s0: &Sdk, s: &Sdk, s2: &Sdk, rep: Seq<usize>, consumer: usize, target: usize)
    requires
        s0.wf(),
        represented(s0, s, rep),
        s.owner@.len() == s0.owner@.len(),
        consumer < s.packages@.len(),
        s2.packages@.len() == s.packages@.len(),
        forall|o: int|
            0 <= o < s.owner@.len() ==> #[trigger] s2.owner@[o] == mapped(s.owner@[o], target, consumer),
        forall|a: usize, b: usize|
            #[trigger] s2.has_edge(a, b) <==> rewritten(s.edges@, s.edges@.len() as int, target, consumer, a, b),
    ensures
        represented(s0, s2, rep.map_values(|p: usize| mapped(p, target, consumer))),
{
    let rep2 = rep.map_values(|p: usize| mapped(p, target, consumer));
    assert forall|p: int| 0 <= p < rep2.len() implies (#[trigger] rep2[p]) < rep2.len() by {
        assert(rep[p] < rep.len());
    }
    assert forall|o: int| 0 <= o < s0.owner@.len() implies #[trigger] s2.owner@[o] == rep2[s0.owner@[o] as int] by {
        assert(s0.owner@[o] < s0.packages@.len());
        assert(s.owner@[o] == rep[s0.owner@[o] as int]);
    }
    assert forall|a: usize, b: usize|
        #[trigger] s2.has_edge(a, b) <==> a != b && exists|k: int|
            0 <= k < s0.edges@.len() && #[trigger] rep_maps(s0.edges@[k], rep2, a, b) by {
        if s2.has_edge(a, b) {
            let k = choose|k: int|
                0 <= k < s.edges@.len() && #[trigger] maps_to(s.edges@[k], target, consumer, a, b);
            let (x, y) = s.edges@[k];
            assert(s.has_edge(x, y));
            let k0 = choose|k0: int| 0 <= k0 < s0.edges@.len() && #[trigger] rep_maps(s0.edges@[k0], rep, x, y);
            let e = s0.edges@[k0];
            assert(e.0 < s0.packages@.len() && e.1 < s0.packages@.len());
            assert(rep2[e.0 as int] == mapped(rep[e.0 as int], target, consumer));
            assert(rep2[e.1 as int] == mapped(rep[e.1 as int], target, consumer));
            assert(rep_maps(s0.edges@[k0], rep2, a, b));
        }
        if a != b && exists|k: int| 0 <= k < s0.edges@.len() && #[trigger] rep_maps(s0.edges@[k], rep2, a, b) {
            let k0 = choose|k0: int| 0 <= k0 < s0.edges@.len() && #[trigger] rep_maps(s0.edges@[k0], rep2, a, b);
            let e = s0.edges@[k0];
            assert(e.0 < s0.packages@.len() && e.1 < s0.packages@.len());
            let x = rep[e.0 as int];
            let y = rep[e.1 as int];
            assert(rep2[e.0 as int] == mapped(x, target, consumer));
            assert(rep2[e.1 as int] == mapped(y, target, consumer));
            assert(rep_maps(e, rep, x, y));
            assert(x != y);
            assert(s.has_edge(x, y));
            let k = choose|k: int| 0 <= k < s.edges@.len() && s.edges@[k] == (x, y);
            assert(maps_to(s.edges@[k], target, consumer, a, b));
        }
    }
}

/// Eliminating cycles a second time changes nothing.
pub proof fn lemma_elimination_idempotent(a: &Sdk, b: &Sdk, c: &Sdk)
    requires
        eliminated(a, b),
        eliminated(b, c),
    ensures
        *c == *b,
{
}

impl Sdk {
    fn marked_pred(&self, rem: &Vec<bool>, v: usize) -> (r: Option<usize>)
        requires
            self.wf(),
            rem@.len() == self.packages@.len(),
        ensures
            r is Some ==> r->0 < rem@.len() && rem@[r->0 as int] && self.has_edge(r->0, v),
            r is None ==> !exists|u: usize| u < rem@.len() && rem@[u as int] && self.has_edge(u, v),
    {
        let mut k: usize = 0;
        while k < self.edges.len()
            invariant
                self.wf(),
                rem@.len() == self.packages@.len(),
                0 <= k <= self.edges@.len(),
                forall|j: int|
                    0 <= j < k ==> !(self.edges@[j].1 == v && rem@[self.edges@[j].0 as int]),
            decreases self.edges@.len() - k,
        {
            let (u, w) = self.edges[k];
            if w == v && rem[u] {
                assert(self.edges@[k as int] == (u, v));
                return Some(u);
            }
            k = k + 1;
        }
        proof {
            assert forall|u: usize| u < rem@.len() && rem@[u as int] implies !self.has_edge(u, v) by {
                if self.has_edge(u, v) {
                    let j = choose|j: int| 0 <= j < self.edges@.len() && self.edges@[j] == (u, v);
                }
            }
        }
        None
    }

    /// A cycle inside a stalled set, found by walking from a member to one
    /// of its dependants in the set until a package repeats.
    pub fn find_cycle(&self, rem: &Vec<bool>) -> (r: Vec<usize>)
        requires
            self.wf(),
            stalled(self, rem@),
        ensures
            is_cycle(self, r@),
    {
        let n = rem.len();
        let mut s: usize = 0;
        while s < n && !rem[s]
            invariant
                n == rem@.len(),
                0 <= s <= n,
                forall|j: int| 0 <= j < s ==> !rem@[j],
            decreases n - s,
        {
            s = s + 1;
        }
        let mut path: Vec<usize> = vec![s];
        loop
            invariant
                self.wf(),
                stalled(self, rem@),
                n == rem@.len(),
                path@.len() >= 1,
                path@.len() <= n,
                path@.no_duplicates(),
                forall|j: int| 0 <= j < path@.len() ==> (#[trigger] path@[j]) < n && rem@[path@[j] as int],
                forall|j: int| 0 <= j < path@.len() - 1 ==> self.has_edge(#[trigger] path@[j + 1], path@[j]),
            decreases n - path@.len(),
        {
            let last = path[path.len() - 1];
            proof {
                assert(marked(rem@, last as int));
            }
            let u = match self.marked_pred(rem, last) {
                Some(u) => u,
                None => {
                    proof {
                        assert(false);
                    }
                    return path;
                },
            };
            let mut i: usize = 0;
            while i < path.len() && path[i] != u
                invariant
                    0 <= i <= path@.len(),
                    forall|j: int| 0 <= j < i ==> path@[j] != u,
                decreases path@.len() - i,
            {
                i = i + 1;
            }
            if i < path.len() {
                let mut c: Vec<usize> = Vec::new();
                let mut j: usize = i;
                while j < path.len()
                    invariant
                        i <= j <= path@.len(),
                        c@ =~= path@.subrange(i as int, j as int),
                    decreases path@.len() - j,
                {
                    c.push(path[j]);
                    j = j + 1;
                    assert(c@ =~= path@.subrange(i as int, j as int));
                }
                proof {
                    let cs = c@;
                    assert(cs[0] == u);
                    assert(cs[cs.len() - 1] == last);
                    if cs.len() < 2 {
                        assert(u == last);
                        let k = choose|k: int| 0 <= k < self.edges@.len() && self.edges@[k] == (u, last);
                        assert(self.edges@[k].0 != self.edges@[k].1);
                    }
                    assert forall|a: int| 0 <= a < cs.len() implies (#[trigger] cs[a]) < self.packages@.len()
                        && self.alive@[cs[a] as int] by {
                        assert(cs[a] == path@[i + a]);
                        assert(marked(rem@, cs[a] as int));
                    }
                    assert forall|a: int| 0 <= a < cs.len() - 1 implies self.has_edge(#[trigger] cs[a + 1], cs[a]) by {
                        assert(cs[a] == path@[i + a]);
                        assert(cs[a + 1] == path@[i + a + 1]);
                    }
                    assert(cs.no_duplicates()) by {
                        assert forall|a: int, b: int| 0 <= a < cs.len() && 0 <= b < cs.len() && a != b implies cs[a]
                            != cs[b] by {
                            assert(cs[a] == path@[i + a]);
                            assert(cs[b] == path@[i + b]);
                        }
                    }
                }
                return c;
            }
            let ghost before = path@;
            proof {
                let extended = before.push(u);
                assert(extended.no_duplicates()) by {
                    assert forall|a: int, b: int| 0 <= a < extended.len() && 0 <= b < extended.len() && a != b implies extended[a]
                        != extended[b] by {
                        if a < before.len() && b < before.len() {
                            assert(extended[a] == before[a] && extended[b] == before[b]);
                        } else if a < before.len() {
                            assert(extended[a] == before[a]);
                        } else {
                            assert(extended[b] == before[b]);
                        }
                    }
                }
                assert forall|a: int| 0 <= a < extended.len() implies (#[trigger] extended[a]) < n as nat by {
                    if a < before.len() {
                        assert(extended[a] == before[a]);
                    }
                }
                lemma_distinct_bound(extended, n as nat);
            }
            path.push(u);
            proof {
                assert forall|j: int| 0 <= j < path@.len() - 1 implies self.has_edge(#[trigger] path@[j + 1], path@[j]) by {
                    if j < before.len() - 1 {
                        assert(path@[j] == before[j] && path@[j + 1] == before[j + 1]);
                    } else {
                        assert(path@[j] == last);
                    }
                }
                assert forall|j: int| 0 <= j < path@.len() implies (#[trigger] path@[j]) < n && rem@[path@[j] as int] by {
                    if j < before.len() {
                        assert(path@[j] == before[j]);
                    }
                }
            }
        }
    }

    /// Merges the packages of each dependency cycle into one until the
    /// package graph has no cycle. Objects stay as they are; only their
    /// packages change. A graph without cycles is left as it is.
    pub fn eliminate_dependency_cycles(&mut self)
        requires
            old(self).wf(),
        ensures
            eliminated(old(self), final(self)),
    {
        let ghost s0 = *self;
        let ghost mut rep: Seq<usize> = Seq::new(s0.packages@.len(), |i: int| i as usize);
        proof {
            lemma_rep_start(&s0);
        }
        loop
            invariant
                self.wf(),
                s0.wf(),
                s0 == *old(self),
                self.objects@ == s0.objects@,
                is_dag(&s0) ==> *self == s0,
                represented(&s0, self, rep),
            decreases count_true(self.alive@),
        {
            match self.topo_order() {
                Ok(pos) => {
                    assert(orders(self, pos@));
                    return;
                },
                Err(rem) => {
                    proof {
                        if is_dag(&s0) {
                            let pos = choose|pos: Seq<usize>| orders(&s0, pos);
                            lemma_dag_never_stalls(self, pos, rem@);
                        }
                    }
                    let cyc = self.find_cycle(&rem);
                    let consumer = cyc[0];
                    let ghost count0 = count_true(self.alive@);
                    let mut j: usize = 1;
                    while j < cyc.len()
                        invariant
                            self.wf(),
                            !is_dag(&s0),
                            self.objects@ == s0.objects@,
                            1 <= j <= cyc@.len(),
                            cyc@.len() >= 2,
                            cyc@.no_duplicates(),
                            consumer == cyc@[0],
                            forall|t: int| 0 <= t < cyc@.len() ==> (#[trigger] cyc@[t]) < self.packages@.len(),
                            self.alive@[consumer as int],
                            forall|t: int| j <= t < cyc@.len() ==> self.alive@[(#[trigger] cyc@[t]) as int],
                            count_true(self.alive@) + (j - 1) == count0,
                            s0.wf(),
                            represented(&s0, self, rep),
                        decreases cyc@.len() - j,
                    {
                        let target = cyc[j];
                        let ghost a0 = self.alive@;
                        proof {
                            lemma_count_update(a0, target as int);
                        }
                        let ghost before = *self;
                        merge(self, consumer, target);
                        proof {
                            lemma_rep_merge(&s0, &before, self, rep, consumer, target);
                            rep = rep.map_values(|p: usize| mapped(p, target, consumer));
                            assert forall|t: int| j + 1 <= t < cyc@.len() implies self.alive@[(#[trigger] cyc@[t]) as int] by {
                                assert(cyc@[t] != cyc@[j as int]);
                            }
                            assert(cyc@[0] != cyc@[j as int]);
                        }
                        j = j + 1;
                    }
                    proof {
                        lemma_count_le(self.alive@);
                    }
                },
            }
        }
    }
}

} // verus!
