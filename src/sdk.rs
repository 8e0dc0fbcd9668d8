use vstd::prelude::*;
use crate::fqn::Fqn;
use crate::ident::{chars_eq, chars_of};
use crate::model::{Function, IndexError, Object, Struct};

verus! {

/// A package: its identifier and the arena indices of its objects, in
/// discovery order.
#[derive(Debug)]
pub struct Package {
    pub ident: String,
    pub objects: Vec<usize>,
}

/// Where an object lives: its package node and its arena index.
#[derive(Debug, Clone, Copy, PartialEq, Eq, Structural)]
pub struct ObjectInfo {
    pub package: usize,
    pub index: usize,
}

/// Rewrites of package identifiers, applied when objects are placed.
#[derive(Debug)]
pub struct MergeMap {
    pub pairs: Vec<(String, String)>,
}

pub type MergeView = Seq<(Seq<char>, Seq<char>)>;

impl View for MergeMap {
    type V = MergeView;

    open spec fn view(&self) -> MergeView {
        self.pairs@.map_values(|p: (String, String)| (p.0@, p.1@))
    }
}

/// Index of the first rule for `k` at or after `i`, or -1.
pub open spec fn rule_from(m: MergeView, k: Seq<char>, i: int) -> int
    decreases m.len() - i,
{
    if i < 0 || i >= m.len() {
        -1
    } else if m[i].0 == k {
        i
    } else {
        rule_from(m, k, i + 1)
    }
}

/// The identifier a package `k` is placed under: the target of the first rule
/// for `k`, or `k` itself.
pub open spec fn merged(m: MergeView, k: Seq<char>) -> Seq<char> {
    let i = rule_from(m, k, 0);
    if i < 0 { k } else { m[i].1 }
}

proof fn lemma_rule_from_found(m: MergeView, k: Seq<char>, i: int)
    requires
        0 <= i,
    ensures
        rule_from(m, k, i) == -1 || (i <= rule_from(m, k, i) < m.len() && m[rule_from(m, k, i)].0
            == k),
        rule_from(m, k, i) == -1 ==> forall|j: int| i <= j < m.len() ==> m[j].0 != k,
    decreases m.len() - i,
{
    if i < m.len() && m[i].0 != k {
        lemma_rule_from_found(m, k, i + 1);
    }
}

/// Where no rule's target is itself a rule's key, rewriting twice is
/// rewriting once.
pub proof fn lemma_merge_idempotent(m: MergeView, k: Seq<char>)
    requires
        forall|i: int, j: int| 0 <= i < m.len() && 0 <= j < m.len() ==> m[i].1 != m[j].0,
    ensures
        merged(m, merged(m, k)) == merged(m, k),
{
    lemma_rule_from_found(m, k, 0);
    let t = merged(m, k);
    lemma_rule_from_found(m, t, 0);
    if rule_from(m, k, 0) >= 0 {
        let i = rule_from(m, k, 0);
        if rule_from(m, t, 0) >= 0 {
            let j = rule_from(m, t, 0);
            assert(m[i].1 != m[j].0);
        }
    }
}

/// Two objects of a well-formed graph with the same name are the same object.
pub proof fn lemma_unique_names(sdk: &Sdk, i: int, j: int)
    requires
        sdk.wf(),
        0 <= i < sdk.objects@.len(),
        0 <= j < sdk.objects@.len(),
        sdk.fqn_at(i) == sdk.fqn_at(j),
    ensures
        i == j,
{
}

impl MergeMap {
    /// The identifier that a package named `ident` is placed under.
    pub fn rewrite(&self, ident: &str) -> (r: String)
        ensures
            r@ == merged(self@, ident@),
    {
        let k = chars_of(ident);
        let mut i: usize = 0;
        while i < self.pairs.len()
            invariant
                0 <= i <= self@.len(),
                self@.len() == self.pairs@.len(),
                k@ == ident@,
                rule_from(self@, ident@, 0) == rule_from(self@, ident@, i as int),
            decreases self.pairs@.len() - i,
        {
            let key = chars_of(self.pairs[i].0.as_str());
            assert(self@[i as int].0 == key@);
            if chars_eq(&key, &k) {
                return self.pairs[i].1.clone();
            }
            i = i + 1;
        }
        ident.to_owned()
    }
}

/// The type graph: an arena of objects, the packages that hold them, and the
/// dependency edges between packages.
#[derive(Debug)]
pub struct Sdk {
    pub objects: Vec<Object>,
    /// Package node of each object.
    pub owner: Vec<usize>,
    /// Package nodes; a removed node stays in place with `alive` false.
    pub packages: Vec<Package>,
    pub alive: Vec<bool>,
    /// Directed edges `(dependant, dependency)`.
    pub edges: Vec<(usize, usize)>,
}

impl Sdk {
    pub open spec fn fqn_at(&self, i: int) -> (Seq<char>, Seq<char>) {
        self.objects@[i].spec_fqn()@
    }

    pub open spec fn has_edge(&self, a: usize, b: usize) -> bool {
        self.edges@.contains((a, b))
    }

    /// Objects are unique by name, each placed in one live package that
    /// lists it once; package identifiers are unique among live packages;
    /// edges join two distinct live packages and are not repeated.
    pub open spec fn wf(&self) -> bool {
        &&& self.owner@.len() == self.objects@.len()
        &&& self.alive@.len() == self.packages@.len()
        &&& forall|i: int, j: int|
            0 <= i < self.objects@.len() && 0 <= j < self.objects@.len() && i != j
                ==> self.fqn_at(i) != self.fqn_at(j)
        &&& forall|o: int|
            0 <= o < self.objects@.len() ==> {
                let p = #[trigger] self.owner@[o] as int;
                &&& 0 <= p < self.packages@.len()
                &&& self.alive@[p]
                &&& self.packages@[p].objects@.contains(o as usize)
            }
        &&& forall|p: int, k: int|
            0 <= p < self.packages@.len() && 0 <= k < self.packages@[p].objects@.len() ==> {
                let o = #[trigger] self.packages@[p].objects@[k] as int;
                &&& 0 <= o < self.objects@.len()
                &&& self.owner@[o] == p
            }
        &&& forall|p: int, q: int|
            0 <= p < self.packages@.len() && 0 <= q < self.packages@.len() && p != q
                && self.alive@[p] && self.alive@[q] ==> self.packages@[p].ident@
                != self.packages@[q].ident@
        &&& forall|k: int|
            0 <= k < self.edges@.len() ==> {
                let e = #[trigger] self.edges@[k];
                &&& e.0 != e.1
                &&& e.0 < self.packages@.len()
                &&& e.1 < self.packages@.len()
                &&& self.alive@[e.0 as int]
                &&& self.alive@[e.1 as int]
            }
        &&& self.edges@.no_duplicates()
        &&& forall|p: int|
            0 <= p < self.packages@.len() ==> (#[trigger] self.packages@[p]).objects@.no_duplicates()
    }

    pub fn new() -> (r: Sdk)
        ensures
            r.wf(),
            r.objects@.len() == 0,
            r.packages@.len() == 0,
            r.edges@.len() == 0,
    {
        Sdk {
            objects: Vec::new(),
            owner: Vec::new(),
            packages: Vec::new(),
            alive: Vec::new(),
            edges: Vec::new(),
        }
    }

    /// Arena index of the object named `fqn`.
    pub fn find(&self, fqn: &Fqn) -> (r: Option<usize>)
        requires
            self.wf(),
        ensures
            r is Some ==> r->0 < self.objects@.len() && self.fqn_at(r->0 as int) == fqn@,
            r is None ==> forall|i: int| 0 <= i < self.objects@.len() ==> self.fqn_at(i) != fqn@,
    {
        let mut i: usize = 0;
        while i < self.objects.len()
            invariant
                0 <= i <= self.objects@.len(),
                forall|j: int| 0 <= j < i ==> self.fqn_at(j) != fqn@,
            decreases self.objects@.len() - i,
        {
            if *self.objects[i].fqn() == *fqn {
                return Some(i);
            }
            i = i + 1;
        }
        None
    }

    /// The package node and arena index of the object named `fqn`.
    pub fn lookup(&self, fqn: &Fqn) -> (r: Option<ObjectInfo>)
        requires
            self.wf(),
        ensures
            r is Some ==> {
                let info = r->0;
                &&& info.index < self.objects@.len()
                &&& self.fqn_at(info.index as int) == fqn@
                &&& info.package == self.owner@[info.index as int]
            },
            r is None ==> forall|i: int| 0 <= i < self.objects@.len() ==> self.fqn_at(i) != fqn@,
    {
        match self.find(fqn) {
            Some(i) => Some(ObjectInfo { package: self.owner[i], index: i }),
            None => None,
        }
    }

    /// The live package node whose identifier is `ident`.
    pub fn find_package(&self, ident: &str) -> (r: Option<usize>)
        requires
            self.wf(),
        ensures
            r is Some ==> r->0 < self.packages@.len() && self.alive@[r->0 as int]
                && self.packages@[r->0 as int].ident@ == ident@,
            r is None ==> forall|p: int|
                0 <= p < self.packages@.len() && self.alive@[p] ==> self.packages@[p].ident@
                    != ident@,
    {
        let k = chars_of(ident);
        let mut p: usize = 0;
        while p < self.packages.len()
            invariant
                0 <= p <= self.packages@.len(),
                self.alive@.len() == self.packages@.len(),
                k@ == ident@,
                forall|q: int|
                    0 <= q < p && self.alive@[q] ==> self.packages@[q].ident@ != ident@,
            decreases self.packages@.len() - p,
        {
            if self.alive[p] {
                let name = chars_of(self.packages[p].ident.as_str());
                if chars_eq(&name, &k) {
                    return Some(p);
                }
            }
            p = p + 1;
        }
        None
    }

    /// The node of the package that objects of package `package_ident` are
    /// placed in, after the merge map's rewrite; the node is made if missing.
    pub fn retrieve_key(&mut self, package_ident: &str, merge: &MergeMap) -> (r: usize)
        requires
            old(self).wf(),
        ensures
            final(self).wf(),
            r < final(self).packages@.len(),
            final(self).alive@[r as int],
            final(self).packages@[r as int].ident@ == merged(merge@, package_ident@),
            final(self).objects@ == old(self).objects@,
            final(self).owner@ == old(self).owner@,
            final(self).edges@ == old(self).edges@,
            final(self).packages@.len() >= old(self).packages@.len(),
            forall|p: int|
                0 <= p < old(self).packages@.len() ==> final(self).packages@[p] == old(
                    self,
                ).packages@[p] && final(self).alive@[p] == old(self).alive@[p],
            forall|p: int|
                old(self).packages@.len() <= p < final(self).packages@.len() ==> p == r
                    && final(self).packages@[p].objects@.len() == 0,
            final(self).packages@.len() <= old(self).packages@.len() + 1,
            final(self).packages@.len() > old(self).packages@.len() ==> r == old(
                self,
            ).packages@.len(),
    {
        let ident = merge.rewrite(package_ident);
        match self.find_package(ident.as_str()) {
            Some(p) => p,
            None => {
                let p = self.packages.len();
                self.packages.push(Package { ident, objects: Vec::new() });
                self.alive.push(true);
                proof {
                    let s0 = old(self);
                    assert forall|q: int| 0 <= q < s0.packages@.len() implies self.packages@[q]
                        == s0.packages@[q] && self.alive@[q] == s0.alive@[q] by {}
                    assert forall|o: int| 0 <= o < self.objects@.len() implies {
                        let q = #[trigger] self.owner@[o] as int;
                        &&& 0 <= q < self.packages@.len()
                        &&& self.alive@[q]
                        &&& self.packages@[q].objects@.contains(o as usize)
                    } by {
                        let q = s0.owner@[o] as int;
                        assert(self.packages@[q] == s0.packages@[q]);
                    }
                    assert forall|q: int, k: int|
                        0 <= q < self.packages@.len() && 0 <= k
                            < self.packages@[q].objects@.len() implies {
                        let x = #[trigger] self.packages@[q].objects@[k] as int;
                        &&& 0 <= x < self.objects@.len()
                        &&& self.owner@[x] == q
                    } by {
                        assert(q < s0.packages@.len());
                        assert(self.packages@[q] == s0.packages@[q]);
                    }
                    assert forall|a: int, b: int|
                        0 <= a < self.packages@.len() && 0 <= b < self.packages@.len() && a != b
                            && self.alive@[a] && self.alive@[b] implies self.packages@[a].ident@
                        != self.packages@[b].ident@ by {
                        if a < s0.packages@.len() && b < s0.packages@.len() {
                            assert(self.packages@[a] == s0.packages@[a]);
                            assert(self.packages@[b] == s0.packages@[b]);
                        } else if a < s0.packages@.len() {
                            assert(self.packages@[a] == s0.packages@[a]);
                        } else {
                            assert(self.packages@[b] == s0.packages@[b]);
                        }
                    }
                    assert forall|k: int| 0 <= k < self.edges@.len() implies {
                        let e = #[trigger] self.edges@[k];
                        &&& e.0 != e.1
                        &&& e.0 < self.packages@.len()
                        &&& e.1 < self.packages@.len()
                        &&& self.alive@[e.0 as int]
                        &&& self.alive@[e.1 as int]
                    } by {
                        let e = s0.edges@[k];
                        assert(s0.alive@[e.0 as int]);
                    }
                    assert(self.objects@ == s0.objects@);
                    assert forall|i: int, j: int|
                        0 <= i < self.objects@.len() && 0 <= j < self.objects@.len() && i != j
                            implies self.fqn_at(i) != self.fqn_at(j) by {
                        assert(self.fqn_at(i) == s0.fqn_at(i));
                        assert(self.fqn_at(j) == s0.fqn_at(j));
                    }
                }
                p
            },
        }
    }

    /// Places `object` in the package that `package_ident` is placed under.
    /// An object whose name is already held is refused, and nothing changes.
    pub fn add(&mut self, package_ident: &str, merge: &MergeMap, object: Object) -> (r: bool)
        requires
            old(self).wf(),
        ensures
            final(self).wf(),
            r == (forall|i: int|
                0 <= i < old(self).objects@.len() ==> old(self).fqn_at(i)
                    != object.spec_fqn()@),
            r ==> final(self).objects@ == old(self).objects@.push(object),
            r ==> final(self).packages@[final(self).owner@.last() as int].ident@ == merged(
                merge@,
                package_ident@,
            ),
            r ==> final(self).owner@.drop_last() == old(self).owner@,
            !r ==> final(self).objects@ == old(self).objects@,
            !r ==> final(self).owner@ == old(self).owner@,
            final(self).edges@ == old(self).edges@,
            final(self).packages@.len() >= old(self).packages@.len(),
            forall|p: int|
                0 <= p < old(self).packages@.len() ==> final(self).alive@[p] == old(self).alive@[p],
            forall|p: int|
                old(self).packages@.len() <= p < final(self).packages@.len() ==> final(self).alive@[p],
            forall|p: int|
                0 <= p < old(self).packages@.len() ==> #[trigger] final(self).packages@[p].ident
                    == old(self).packages@[p].ident,
    {
        if self.find(object.fqn()).is_some() {
            return false;
        }
        let ghost s0 = *self;
        let p = self.retrieve_key(package_ident, merge);
        let ghost s1 = *self;
        let o = self.objects.len();
        let mut objs = Vec::new();
        std::mem::swap(&mut objs, &mut self.packages[p].objects);
        objs.push(o);
        std::mem::swap(&mut objs, &mut self.packages[p].objects);
        self.objects.push(object);
        self.owner.push(p);
        assert(self.alive@ == s1.alive@);
        assert(self.packages@.len() == s1.packages@.len());
        proof {
            assert forall|q: int, k: int|
                0 <= q < self.packages@.len() && 0 <= k < self.packages@[q].objects@.len() implies {
                let x = #[trigger] self.packages@[q].objects@[k] as int;
                &&& 0 <= x < self.objects@.len()
                &&& self.owner@[x] == q
            } by {
                if q != p || k < s1.packages@[q].objects@.len() {
                    assert(self.packages@[q].objects@[k] == s1.packages@[q].objects@[k]);
                }
            }
            assert forall|x: int| 0 <= x < self.objects@.len() implies {
                let q = #[trigger] self.owner@[x] as int;
                &&& 0 <= q < self.packages@.len()
                &&& self.alive@[q]
                &&& self.packages@[q].objects@.contains(x as usize)
            } by {
                if x < o {
                    let q = s1.owner@[x] as int;
                    assert(s1.packages@[q].objects@.contains(x as usize));
                    if q == p {
                        let k = choose|k: int|
                            0 <= k < s1.packages@[q].objects@.len()
                                && s1.packages@[q].objects@[k] == x as usize;
                        assert(self.packages@[q].objects@[k] == x as usize);
                    }
                } else {
                    assert(self.packages@[p as int].objects@.last() == o);
                }
            }
            assert forall|i: int, j: int|
                0 <= i < self.objects@.len() && 0 <= j < self.objects@.len() && i != j implies
                self.fqn_at(i) != self.fqn_at(j) by {
                assert(self.objects@[o as int] == object);
                if i < o && j < o {
                    assert(s0.fqn_at(i) != s0.fqn_at(j));
                } else if i < o {
                    assert(self.fqn_at(i) == s0.fqn_at(i));
                } else {
                    assert(self.fqn_at(j) == s0.fqn_at(j));
                }
            }
            assert(self.owner@.drop_last() =~= s0.owner@);
        }
        true
    }
}

} // verus!

verus! {

/// The `k`-th name in `foreign` is that of object `i`, held in package `b`.
pub open spec fn names_object(sdk: &Sdk, foreign: Seq<Fqn>, k: int, i: int, b: usize) -> bool {
    0 <= k < foreign.len() && 0 <= i < sdk.objects@.len() && foreign[k]@ == sdk.fqn_at(i)
        && sdk.owner@[i] == b
}

/// Whether some name in `foreign` is that of an object held in package `b`.
pub open spec fn references(sdk: &Sdk, foreign: Seq<Fqn>, b: usize) -> bool {
    exists|k: int, i: int| #[trigger] names_object(sdk, foreign, k, i, b)
}

/// `b` is the struct or class `a` with `f` appended to its functions.
pub open spec fn function_added(a: Object, b: Object, f: Function) -> bool {
    match (a, b) {
        (Object::Struct(x), Object::Struct(y)) | (Object::Class(x), Object::Class(y)) => {
            &&& y.functions@ == x.functions@.push(f)
            &&& y.fqn == x.fqn
            &&& y.index == x.index
            &&& y.is_uobject == x.is_uobject
            &&& y.parent == x.parent
            &&& y.ident == x.ident
            &&& y.shrink == x.shrink
            &&& y.layout == x.layout
            &&& y.fields == x.fields
        },
        _ => false,
    }
}

pub open spec fn struct_of(o: Object) -> Option<Struct> {
    match o {
        Object::Struct(s) | Object::Class(s) => Some(s),
        Object::Enum(_) => None,
    }
}

impl Sdk {
    /// Adds an edge from package `pkg` to every other package that holds an
    /// object named in `foreign`; names held nowhere and names held in `pkg`
    /// itself add none.
    pub fn add_dependencies(&mut self, pkg: usize, foreign: &Vec<Fqn>)
        requires
            old(self).wf(),
            pkg < old(self).packages@.len(),
            old(self).alive@[pkg as int],
        ensures
            final(self).wf(),
            final(self).objects@ == old(self).objects@,
            final(self).owner@ == old(self).owner@,
            final(self).packages@ == old(self).packages@,
            final(self).alive@ == old(self).alive@,
            forall|a: usize, b: usize|
                final(self).has_edge(a, b) <==> (old(self).has_edge(a, b) || (a == pkg && b
                    != pkg && references(old(self), foreign@, b))),
    {
        let ghost s0 = *self;
        let mut k: usize = 0;
        while k < foreign.len()
            invariant
                0 <= k <= foreign@.len(),
                self.wf(),
                s0.wf(),
                pkg < self.packages@.len(),
                self.alive@[pkg as int],
                self.objects@ == s0.objects@,
                self.owner@ == s0.owner@,
                self.packages@ == s0.packages@,
                self.alive@ == s0.alive@,
                forall|a: usize, b: usize|
                    #[trigger] self.has_edge(a, b) <==> (s0.has_edge(a, b) || (a == pkg && b != pkg
                        && references(&s0, foreign@.take(k as int), b))),
            decreases foreign@.len() - k,
        {
            let ghost before = *self;
            match self.find(&foreign[k]) {
                Some(o) => {
                    let q = self.owner[o];
                    proof {
                        assert(s0.fqn_at(o as int) == foreign@[k as int]@);
                        assert(foreign@.take(k + 1)[k as int] == foreign@[k as int]);
                        assert(names_object(&s0, foreign@.take(k + 1), k as int, o as int, q));
                        assert forall|b: usize|
                            references(&s0, foreign@.take(k + 1), b) <==> (references(
                                &s0,
                                foreign@.take(k as int),
                                b,
                            ) || b == q) by {
                            if references(&s0, foreign@.take(k + 1), b) {
                                let (kk, i) = choose|kk: int, i: int|
                                    #[trigger] names_object(&s0, foreign@.take(k + 1), kk, i, b);
                                if kk < k {
                                    assert(foreign@.take(k as int)[kk] == foreign@.take(
                                        k + 1,
                                    )[kk]);
                                    assert(names_object(&s0, foreign@.take(k as int), kk, i, b));
                                } else {
                                    assert(s0.fqn_at(i) == s0.fqn_at(o as int));
                                    assert(i == o);
                                }
                            }
                            if references(&s0, foreign@.take(k as int), b) {
                                let (kk, i) = choose|kk: int, i: int|
                                    #[trigger] names_object(&s0, foreign@.take(k as int), kk, i, b);
                                assert(foreign@.take(k + 1)[kk] == foreign@.take(k as int)[kk]);
                                assert(names_object(&s0, foreign@.take(k + 1), kk, i, b));
                            }
                        }
                    }
                    let added = q != pkg && !self.edge_exists(pkg, q);
                    if added {
                        self.edges.push((pkg, q));
                        proof {
                            assert forall|a: usize, b: usize|
                                self.has_edge(a, b) <==> (before.has_edge(a, b) || (a == pkg
                                    && b == q)) by {
                                if self.has_edge(a, b) {
                                    let j = choose|j: int|
                                        0 <= j < self.edges@.len() && self.edges@[j] == (a, b);
                                    if j < before.edges@.len() {
                                        assert(before.edges@[j] == (a, b));
                                    }
                                }
                                if before.has_edge(a, b) {
                                    let j = choose|j: int|
                                        0 <= j < before.edges@.len() && before.edges@[j] == (a,
                                        b);
                                    assert(self.edges@[j] == (a, b));
                                }
                                if a == pkg && b == q {
                                    assert(self.edges@[before.edges@.len() as int] == (a, b));
                                }
                            }
                            assert forall|j: int| 0 <= j < self.edges@.len() implies {
                                let e = #[trigger] self.edges@[j];
                                &&& e.0 != e.1
                                &&& e.0 < self.packages@.len()
                                &&& e.1 < self.packages@.len()
                                &&& self.alive@[e.0 as int]
                                &&& self.alive@[e.1 as int]
                            } by {
                                if j < before.edges@.len() {
                                    assert(self.edges@[j] == before.edges@[j]);
                                } else {
                                    assert(self.edges@[j] == (pkg, q));
                                    assert(self.alive@[self.owner@[o as int] as int]);
                                }
                            }
                            assert(self.edges@.no_duplicates()) by {
                                assert forall|a: int, b: int|
                                    0 <= a < self.edges@.len() && 0 <= b < self.edges@.len()
                                        && a != b implies self.edges@[a] != self.edges@[b] by {
                                    if a < before.edges@.len() && b < before.edges@.len() {
                                        assert(self.edges@[a] == before.edges@[a]);
                                        assert(self.edges@[b] == before.edges@[b]);
                                    } else if a < before.edges@.len() {
                                        assert(self.edges@[a] == before.edges@[a]);
                                    } else {
                                        assert(self.edges@[b] == before.edges@[b]);
                                    }
                                }
                            }
                            assert(self.objects@ == before.objects@);
                            assert forall|i: int, j: int|
                                0 <= i < self.objects@.len() && 0 <= j < self.objects@.len()
                                    && i != j implies self.fqn_at(i) != self.fqn_at(j) by {
                                assert(self.fqn_at(i) == before.fqn_at(i));
                                assert(self.fqn_at(j) == before.fqn_at(j));
                            }
                        }
                    }
                    proof {
                        assert forall|a: usize, b: usize|
                            #[trigger] self.has_edge(a, b) <==> (s0.has_edge(a, b) || (a == pkg && b != pkg
                                && references(&s0, foreign@.take(k + 1), b))) by {
                            assert(before.has_edge(a, b) <==> (s0.has_edge(a, b) || (a == pkg && b
                                != pkg && references(&s0, foreign@.take(k as int), b))));
                            if !added {
                                assert(self.edges@ == before.edges@);
                                if q != pkg {
                                    assert(before.has_edge(pkg, q));
                                }
                            }
                        }
                    }
                },
                None => {
                    proof {
                        assert forall|a: usize, b: usize|
                            #[trigger] self.has_edge(a, b) <==> (s0.has_edge(a, b) || (a == pkg && b != pkg
                                && references(&s0, foreign@.take(k + 1), b))) by {
                            if references(&s0, foreign@.take(k + 1), b) {
                                let (kk, i) = choose|kk: int, i: int|
                                    #[trigger] names_object(&s0, foreign@.take(k + 1), kk, i, b);
                                if kk < k {
                                    assert(foreign@.take(k as int)[kk] == foreign@.take(
                                        k + 1,
                                    )[kk]);
                                    assert(names_object(&s0, foreign@.take(k as int), kk, i, b));
                                } else {
                                    assert(foreign@.take(k + 1)[k as int] == foreign@[k as int]);
                                    assert(s0.fqn_at(i) == self.fqn_at(i));
                                }
                            }
                            if references(&s0, foreign@.take(k as int), b) {
                                let (kk, i) = choose|kk: int, i: int|
                                    #[trigger] names_object(&s0, foreign@.take(k as int), kk, i, b);
                                assert(foreign@.take(k + 1)[kk] == foreign@.take(k as int)[kk]);
                                assert(names_object(&s0, foreign@.take(k + 1), kk, i, b));
                            }
                        }
                    }
                },
            }
            assert(forall|a: usize, b: usize|
                #[trigger] self.has_edge(a, b) <==> (s0.has_edge(a, b) || (a == pkg && b != pkg
                    && references(&s0, foreign@.take(k + 1), b))));
            k = k + 1;
        }
        assert(foreign@.take(k as int) =~= foreign@);
    }

    /// Whether the edge `(a, b)` is present.
    pub fn edge_exists(&self, a: usize, b: usize) -> (r: bool)
        ensures
            r == self.has_edge(a, b),
    {
        let mut j: usize = 0;
        while j < self.edges.len()
            invariant
                0 <= j <= self.edges@.len(),
                forall|i: int| 0 <= i < j ==> self.edges@[i] != (a, b),
            decreases self.edges@.len() - j,
        {
            if self.edges[j].0 == a && self.edges[j].1 == b {
                assert(self.edges@[j as int] == (a, b));
                return true;
            }
            j = j + 1;
        }
        false
    }

    /// Appends `f` to the functions of the struct or class named `owner`.
    /// Fails, changing nothing, where no struct or class has that name.
    pub fn attach_function(&mut self, owner: &Fqn, f: Function) -> (r: Result<(), IndexError>)
        requires
            old(self).wf(),
        ensures
            final(self).wf(),
            r is Ok <==> exists|i: int|
                0 <= i < old(self).objects@.len() && old(self).fqn_at(i) == owner@
                    && struct_of(old(self).objects@[i]) is Some,
            r is Err ==> *final(self) == *old(self) && r->Err_0 == IndexError::MissingOwner,
            r is Ok ==> forall|i: int|
                0 <= i < old(self).objects@.len() ==> if old(self).fqn_at(i) == owner@ {
                    function_added(old(self).objects@[i], final(self).objects@[i], f)
                } else {
                    final(self).objects@[i] == old(self).objects@[i]
                },
            final(self).objects@.len() == old(self).objects@.len(),
            final(self).owner@ == old(self).owner@,
            final(self).packages@ == old(self).packages@,
            final(self).alive@ == old(self).alive@,
            final(self).edges@ == old(self).edges@,
    {
        let i = match self.find(owner) {
            Some(i) => i,
            None => return Err(IndexError::MissingOwner),
        };
        let is_struct = match &self.objects[i] {
            Object::Enum(_) => false,
            _ => true,
        };
        if !is_struct {
            return Err(IndexError::MissingOwner);
        }
        let ghost s0 = *self;
        let o = self.objects.remove(i);
        let updated = match o {
            Object::Struct(mut s) => {
                s.functions.push(f);
                Object::Struct(s)
            },
            Object::Class(mut s) => {
                s.functions.push(f);
                Object::Class(s)
            },
            Object::Enum(e) => Object::Enum(e),
        };
        self.objects.insert(i, updated);
        proof {
            assert forall|j: int| 0 <= j < self.objects@.len() && j != i implies self.objects@[j]
                == s0.objects@[j] by {}
            assert(self.fqn_at(i as int) == s0.fqn_at(i as int));
            assert forall|a: int, b: int|
                0 <= a < self.objects@.len() && 0 <= b < self.objects@.len() && a != b implies
                self.fqn_at(a) != self.fqn_at(b) by {
                assert(self.fqn_at(a) == s0.fqn_at(a));
                assert(self.fqn_at(b) == s0.fqn_at(b));
            }
        }
        Ok(())
    }
}

} // verus!
