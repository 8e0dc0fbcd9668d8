use vstd::prelude::*;
use crate::model::{Object, Struct};
use crate::sdk::{struct_of, Sdk};

verus! {

/// Offset of a struct's first field.
pub open spec fn first_offset(s: Struct) -> usize {
    s.fields@[0].spec_offset()
}

/// Struct `c` has fields, its parent is struct `p`, and its first field starts
/// inside `p`'s size.
pub open spec fn contributes(objs: Seq<Object>, c: int, p: int) -> bool {
    &&& 0 <= c < objs.len()
    &&& 0 <= p < objs.len()
    &&& struct_of(objs[c]) is Some
    &&& struct_of(objs[p]) is Some
    &&& struct_of(objs[c])->0.fields@.len() > 0
    &&& struct_of(objs[c])->0.parent is Some
    &&& struct_of(objs[c])->0.parent->0@ == struct_of(objs[p])->0.fqn@
    &&& first_offset(struct_of(objs[c])->0) < struct_of(objs[p])->0.layout.size
}

pub open spec fn min_with(a: Option<usize>, b: usize) -> Option<usize> {
    match a {
        Some(x) => Some(if x < b { x } else { b }),
        None => Some(b),
    }
}

/// The least first-field offset among the first `k` objects that contribute
/// to `p`.
pub open spec fn min_offset(objs: Seq<Object>, p: int, k: int) -> Option<usize>
    decreases k,
{
    if k <= 0 {
        None
    } else {
        let m = min_offset(objs, p, k - 1);
        if contributes(objs, k - 1, p) {
            min_with(m, first_offset(struct_of(objs[k - 1])->0))
        } else {
            m
        }
    }
}

pub open spec fn merge_opt(a: Option<usize>, m: Option<usize>) -> Option<usize> {
    match m {
        None => a,
        Some(b) => min_with(a, b),
    }
}

pub open spec fn shrink_of(o: Object) -> Option<usize> {
    match struct_of(o) {
        Some(s) => s.shrink,
        None => None,
    }
}

/// `a` and `b` agree on everything but a struct's shrink.
pub open spec fn same_shape(a: Object, b: Object) -> bool {
    match (a, b) {
        (Object::Enum(x), Object::Enum(y)) => x == y,
        (Object::Struct(x), Object::Struct(y)) | (Object::Class(x), Object::Class(y)) => {
            &&& y.fqn == x.fqn
            &&& y.index == x.index
            &&& y.is_uobject == x.is_uobject
            &&& y.parent == x.parent
            &&& y.ident == x.ident
            &&& y.layout == x.layout
            &&& y.fields == x.fields
            &&& y.functions == x.functions
        },
        _ => false,
    }
}

/// `after` is `before` with each struct's shrink lowered to the least
/// first-field offset of the subclasses that start inside it.
pub open spec fn shrunk(before: Seq<Object>, after: Seq<Object>) -> bool {
    &&& after.len() == before.len()
    &&& forall|p: int|
        0 <= p < before.len() ==> same_shape(before[p], #[trigger] after[p]) && shrink_of(after[p])
            == merge_opt(shrink_of(before[p]), min_offset(before, p, before.len() as int))
}

proof fn lemma_same_shape_min_offset(a: Seq<Object>, b: Seq<Object>, p: int, k: int)
    requires
        a.len() == b.len(),
        forall|i: int| 0 <= i < a.len() ==> same_shape(a[i], #[trigger] b[i]),
        0 <= p < a.len(),
        k <= a.len(),
    ensures
        min_offset(a, p, k) == min_offset(b, p, k),
    decreases k,
{
    if k > 0 {
        lemma_same_shape_min_offset(a, b, p, k - 1);
        assert(same_shape(a[k - 1], b[k - 1]));
        assert(same_shape(a[p], b[p]));
    }
}

proof fn lemma_min_offset_bound(objs: Seq<Object>, c: int, p: int, k: int)
    requires
        contributes(objs, c, p),
        c < k,
    ensures
        min_offset(objs, p, k) is Some,
        min_offset(objs, p, k)->0 <= first_offset(struct_of(objs[c])->0),
    decreases k,
{
    if k - 1 > c {
        lemma_min_offset_bound(objs, c, p, k - 1);
    }
}

/// After the shrink pass, a base whose subclass starts inside it has a
/// shrink no greater than that subclass's first-field offset.
pub proof fn lemma_shrink_covers(before: Seq<Object>, after: Seq<Object>, c: int, p: int)
    requires
        shrunk(before, after),
        contributes(before, c, p),
    ensures
        shrink_of(after[p]) is Some,
        shrink_of(after[p])->0 <= first_offset(struct_of(after[c])->0),
{
    lemma_min_offset_bound(before, c, p, before.len() as int);
    assert(same_shape(before[p], after[p]));
    assert(same_shape(before[c], after[c]));
}

/// Running the shrink pass on its own output changes nothing.
pub proof fn lemma_shrink_idempotent(a: Seq<Object>, b: Seq<Object>, c: Seq<Object>)
    requires
        shrunk(a, b),
        shrunk(b, c),
    ensures
        c == b,
{
    assert forall|p: int| 0 <= p < b.len() implies c[p] == b[p] by {
        assert(same_shape(a[p], b[p]));
        assert(same_shape(b[p], c[p]));
        lemma_same_shape_min_offset(a, b, p, a.len() as int);
    }
    assert(c =~= b);
}

proof fn lemma_min_offset_below_size(objs: Seq<Object>, p: int, k: int)
    requires
        0 <= p < objs.len(),
        struct_of(objs[p]) is Some,
        k <= objs.len(),
    ensures
        min_offset(objs, p, k) is Some ==> min_offset(objs, p, k)->0 < struct_of(
            objs[p],
        )->0.layout.size,
    decreases k,
{
    if k > 0 {
        lemma_min_offset_below_size(objs, p, k - 1);
    }
}

/// The shrink pass never raises a shrink, and a shrink it sets lies below
/// the base's size.
pub proof fn lemma_shrink_never_grows(before: Seq<Object>, after: Seq<Object>, p: int)
    requires
        shrunk(before, after),
        0 <= p < before.len(),
        struct_of(before[p]) is Some,
    ensures
        shrink_of(before[p]) is Some ==> shrink_of(after[p]) is Some && shrink_of(after[p])->0
            <= shrink_of(before[p])->0,
        shrink_of(after[p]) != shrink_of(before[p]) ==> shrink_of(after[p])->0 < struct_of(
            before[p],
        )->0.layout.size,
{
    lemma_min_offset_below_size(before, p, before.len() as int);
}

fn with_shrink(o: Object, v: usize) -> (r: Object)
    requires
        struct_of(o) is Some,
    ensures
        same_shape(o, r),
        shrink_of(r) == Some(v),
{
    match o {
        Object::Struct(mut s) => {
            s.shrink = Some(v);
            Object::Struct(s)
        },
        Object::Class(mut s) => {
            s.shrink = Some(v);
            Object::Class(s)
        },
        Object::Enum(e) => Object::Enum(e),
    }
}

/// What the pass reads of object `c`: its parent's name and its first-field
/// offset, where it is a struct with fields and a parent.
fn shrink_source(o: &Object) -> (r: Option<(&crate::fqn::Fqn, usize)>)
    ensures
        r is Some <==> (struct_of(*o) is Some && struct_of(*o)->0.fields@.len() > 0
            && struct_of(*o)->0.parent is Some),
        r is Some ==> (r->0).0 == struct_of(*o)->0.parent->0 && (r->0).1 == first_offset(
            struct_of(*o)->0,
        ),
{
    match o {
        Object::Struct(s) | Object::Class(s) => {
            if s.fields.len() == 0 {
                return None;
            }
            match &s.parent {
                Some(f) => Some((f, s.fields[0].offset())),
                None => None,
            }
        },
        Object::Enum(_) => None,
    }
}

impl Sdk {
    /// Lowers each base struct's shrink to the least first-field offset of
    /// its subclasses that start inside it.
    pub fn shrink_base_classes(&mut self)
        requires
            old(self).wf(),
        ensures
            final(self).wf(),
            shrunk(old(self).objects@, final(self).objects@),
            final(self).owner@ == old(self).owner@,
            final(self).packages@ == old(self).packages@,
            final(self).alive@ == old(self).alive@,
            final(self).edges@ == old(self).edges@,
    {
        let ghost s0 = *self;
        let ghost objs0 = self.objects@;
        let n = self.objects.len();
        let mut c: usize = 0;
        while c < n
            invariant
                0 <= c <= n,
                n == objs0.len(),
                s0.wf(),
                objs0 == s0.objects@,
                self.wf(),
                self.objects@.len() == n,
                self.owner@ == s0.owner@,
                self.packages@ == s0.packages@,
                self.alive@ == s0.alive@,
                self.edges@ == s0.edges@,
                forall|p: int|
                    0 <= p < n ==> same_shape(objs0[p], #[trigger] self.objects@[p]) && shrink_of(
                        self.objects@[p],
                    ) == merge_opt(shrink_of(objs0[p]), min_offset(objs0, p, c as int)),
            decreases n - c,
        {
            let ghost before = self.objects@;
            assert(same_shape(objs0[c as int], before[c as int]));
            let src = shrink_source(&self.objects[c]);
            let mut target: Option<(usize, usize)> = None;
            match src {
                Some((pf, off)) => {
                    match self.find(pf) {
                        Some(p) => {
                            let size = self.objects[p].layout().size;
                            let cur = match &self.objects[p] {
                                Object::Struct(s) | Object::Class(s) => Some(s.shrink),
                                Object::Enum(_) => None,
                            };
                            match cur {
                                Some(sh) => {
                                    if off < size {
                                        let v = match sh {
                                            Some(x) => if x < off { x } else { off },
                                            None => off,
                                        };
                                        target = Some((p, v));
                                    }
                                },
                                None => {},
                            }
                        },
                        None => {},
                    }
                },
                None => {},
            }
            proof {
                assert forall|p: int| 0 <= p < n implies contributes(objs0, c as int, p) == (
                target is Some && (target->0).0 == p) by {
                    assert(same_shape(objs0[p], before[p]));
                    if contributes(objs0, c as int, p) && !(target is Some && (target->0).0 == p) {
                        assert(self.fqn_at(p) == struct_of(objs0[p])->0.fqn@);
                    }
                }
            }
            match target {
                Some((p, v)) => {
                    let ghost ssnap = *self;
                    let o = self.objects.remove(p);
                    let o2 = with_shrink(o, v);
                    self.objects.insert(p, o2);
                    proof {
                        assert forall|j: int| 0 <= j < n && j != p implies self.objects@[j]
                            == before[j] by {}
                        assert forall|i: int, j: int|
                            0 <= i < self.objects@.len() && 0 <= j < self.objects@.len() && i
                                != j implies self.fqn_at(i) != self.fqn_at(j) by {
                            assert(self.fqn_at(i) == ssnap.fqn_at(i));
                            assert(self.fqn_at(j) == ssnap.fqn_at(j));
                        }
                    }
                },
                None => {},
            }
            c = c + 1;
        }
    }
}

} // verus!
