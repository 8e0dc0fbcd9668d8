use vstd::prelude::*;
use crate::contain::contained;
use crate::cycles::{eliminated, is_dag};
use crate::shrink::shrunk;
use crate::enums::{enum_from, index_enum};
use crate::fqn::Fqn;

use crate::model::{Function, FunctionArg, IndexError, Object};
use crate::sdk::{MergeMap, Sdk};
use crate::structs::{bool_ok, index_struct, struct_from, RawStruct};
use crate::function::{args_where, index_function};
use crate::ident::sanitized;
use crate::sdk::{function_added, merged, names_object, references, struct_of, MergeView};

verus! {

/// What the pipeline is told besides the target's memory.
#[derive(Debug)]
pub struct DumperOptions {
    pub process_id: u32,
    /// Address of the name pool, relative to the image base.
    pub names: usize,
    /// Address of the object table, relative to the image base.
    pub objects: usize,
    /// Package rewrites applied when objects are placed.
    pub merge: MergeMap,
    /// Keep dependency cycles instead of merging their packages.
    pub allow_cycles: bool,
}

/// A reflected object as read from the target, in table order.
#[derive(Debug)]
pub enum RawObject {
    Enum { package: String, fqn: Fqn, variants: Vec<(String, i64)> },
    /// A struct, or a class where `is_class`; `foreign` names the types its
    /// properties and parent refer to.
    Struct { package: String, record: RawStruct, is_class: bool, foreign: Vec<Fqn> },
    /// A function of the struct or class `owner`.
    Function {
        package: String,
        owner: Fqn,
        fqn: Fqn,
        name: String,
        index: u32,
        flags: u32,
        params: Vec<FunctionArg>,
        foreign: Vec<Fqn>,
    },
}

/// Every struct record's boolean properties fit a bitfield.
pub open spec fn records_ok(objs: Seq<RawObject>) -> bool {
    forall|i: int|
        0 <= i < objs.len() ==> match #[trigger] objs[i] {
            RawObject::Struct { record, .. } => forall|j: int|
                0 <= j < record.props@.len() ==> bool_ok(#[trigger] record.props@[j]),
            _ => true,
        }
}

/// The name of the object an enum, struct or class record becomes.
pub open spec fn rec_name(r: RawObject) -> Option<(Seq<char>, Seq<char>)> {
    match r {
        RawObject::Enum { fqn, .. } => Some(fqn@),
        RawObject::Struct { record, .. } => Some(record.fqn@),
        RawObject::Function { .. } => None,
    }
}

pub open spec fn rec_package(r: RawObject) -> Seq<char> {
    match r {
        RawObject::Enum { package, .. } => package@,
        RawObject::Struct { package, .. } => package@,
        RawObject::Function { package, .. } => package@,
    }
}

/// `o` is the object that indexing record `r` makes.
#[verifier::opaque]
pub open spec fn object_from(r: RawObject, o: Object, level_actors: Option<usize>) -> bool {
    match r {
        RawObject::Enum { fqn, variants, .. } => o is Enum && enum_from(fqn, variants@, o->Enum_0),
        RawObject::Struct { record, is_class, .. } => if is_class {
            o is Class && struct_from(record, level_actors, o->Class_0)
        } else {
            o is Struct && struct_from(record, level_actors, o->Struct_0)
        },
        RawObject::Function { .. } => false,
    }
}

/// Record `i` is the first record naming its object.
pub open spec fn first_named(objs: Seq<RawObject>, i: int) -> bool {
    &&& rec_name(objs[i]) is Some
    &&& forall|j: int| 0 <= j < i ==> rec_name(objs[j]) != rec_name(objs[i])
}

/// `s` holds one object for each name among the first `n` records: object
/// `o` is the one that record `src[o]`, the first of that name, makes, in the
/// package its record's package is placed under; and nothing else.
pub open spec fn placed(
    objs: Seq<RawObject>,
    n: int,
    merge: MergeView,
    level_actors: Option<usize>,
    s: &Sdk,
    src: Seq<int>,
) -> bool {
    &&& s.edges@.len() == 0
    &&& src.len() == s.objects@.len()
    &&& forall|p: int| 0 <= p < s.packages@.len() ==> #[trigger] s.alive@[p]
    &&& forall|i: int|
        0 <= i < n && (#[trigger] rec_name(objs[i])) is Some ==> exists|o: int|
            0 <= o < s.objects@.len() && s.fqn_at(o) == rec_name(objs[i])->0
    &&& forall|o: int|
        0 <= o < s.objects@.len() ==> {
            let i = #[trigger] src[o];
            &&& 0 <= i < n
            &&& first_named(objs, i)
            &&& object_from(objs[i], s.objects@[o], level_actors)
            &&& s.fqn_at(o) == rec_name(objs[i])->0
            &&& s.packages@[s.owner@[o] as int].ident@ == merged(merge, rec_package(objs[i]))
        }
}

/// The function records among `objs`, in order.
pub open spec fn fn_records(objs: Seq<RawObject>) -> Seq<RawObject>
    decreases objs.len(),
{
    if objs.len() == 0 {
        Seq::empty()
    } else if objs.last() is Function {
        fn_records(objs.drop_last()).push(objs.last())
    } else {
        fn_records(objs.drop_last())
    }
}

/// The function records of `fr` whose owner is named `name`, in order.
pub open spec fn owned_by(fr: Seq<RawObject>, name: (Seq<char>, Seq<char>)) -> Seq<RawObject>
    decreases fr.len(),
{
    if fr.len() == 0 {
        Seq::empty()
    } else if fr.last() matches RawObject::Function { owner, .. } && owner@ == name {
        owned_by(fr.drop_last(), name).push(fr.last())
    } else {
        owned_by(fr.drop_last(), name)
    }
}

/// `f` is the function that indexing function record `r` makes.
pub open spec fn fn_from(r: RawObject, f: Function) -> bool {
    match r {
        RawObject::Function { fqn, name, index, flags, params, .. } => {
            &&& f.fqn@ == fqn@
            &&& f.ident@ == sanitized(name@)
            &&& f.index == index
            &&& f.flags == flags
            &&& f.args@ == args_where(params@, false)
            &&& f.ret@ == args_where(params@, true)
        },
        _ => false,
    }
}

/// `fs` are the functions made of `recs`, one for one, in order.
pub open spec fn fns_from(recs: Seq<RawObject>, fs: Seq<Function>) -> bool {
    recs.len() == fs.len() && forall|k: int| 0 <= k < fs.len() ==> fn_from(recs[k], #[trigger] fs[k])
}

/// `b` is `a` with each struct's functions made of the records of `fr` that
/// name it as owner, after the ones it had.
pub open spec fn attached(fr: Seq<RawObject>, a: &Sdk, b: &Sdk) -> bool {
    &&& b.objects@.len() == a.objects@.len()
    &&& b.owner@ == a.owner@
    &&& b.packages@ == a.packages@
    &&& b.alive@ == a.alive@
    &&& b.edges@ == a.edges@
    &&& forall|o: int|
        0 <= o < a.objects@.len() ==> match (a.objects@[o], #[trigger] b.objects@[o]) {
            (Object::Struct(x), Object::Struct(y)) | (Object::Class(x), Object::Class(y)) => {
                &&& x.functions@.len() <= y.functions@.len()
                &&& y.functions@.subrange(0, x.functions@.len() as int) == x.functions@
                &&& fns_from(
                    owned_by(fr, x.fqn@),
                    y.functions@.subrange(x.functions@.len() as int, y.functions@.len() as int),
                )
                &&& y.fqn == x.fqn
                &&& y.index == x.index
                &&& y.is_uobject == x.is_uobject
                &&& y.parent == x.parent
                &&& y.ident == x.ident
                &&& y.shrink == x.shrink
                &&& y.layout == x.layout
                &&& y.fields == x.fields
            },
            (Object::Enum(x), Object::Enum(y)) => x == y,
            _ => false,
        }
}

pub open spec fn rec_foreign(r: RawObject) -> Seq<Fqn> {
    match r {
        RawObject::Enum { .. } => Seq::empty(),
        RawObject::Struct { foreign, .. } => foreign@,
        RawObject::Function { foreign, .. } => foreign@,
    }
}

/// Record `r` contributes dependencies: a struct record, or a function
/// record whose owner is a struct or class of `s`.
pub open spec fn counts_refs(r: RawObject, s: &Sdk) -> bool {
    match r {
        RawObject::Struct { .. } => true,
        RawObject::Function { owner, .. } => exists|o: int|
            0 <= o < s.objects@.len() && s.fqn_at(o) == owner@ && crate::sdk::struct_of(
                s.objects@[o],
            ) is Some,
        RawObject::Enum { .. } => false,
    }
}

/// Among the first `n` records, one placed in live package `x` names a type
/// held in package `y`, another package: a struct record, or a function
/// record whose owner is a struct or class of `a`.
pub open spec fn rec_edge(
    objs: Seq<RawObject>,
    merge: MergeView,
    a: &Sdk,
    n: int,
    x: usize,
    y: usize,
) -> bool {
    x != y && exists|i: int|
        0 <= i < n && #[trigger] counts_refs(objs[i], a) && x < a.packages@.len()
            && a.alive@[x as int] && a.packages@[x as int].ident@ == merged(
            merge,
            rec_package(objs[i]),
        ) && references(a, rec_foreign(objs[i]), y)
}

/// `b` is `a` with exactly the edges its records give.
pub open spec fn linked(objs: Seq<RawObject>, merge: MergeView, a: &Sdk, b: &Sdk) -> bool {
    &&& b.objects@ == a.objects@
    &&& b.owner@ == a.owner@
    &&& b.packages@ == a.packages@
    &&& b.alive@ == a.alive@
    &&& forall|x: usize, y: usize|
        #[trigger] b.has_edge(x, y) <==> rec_edge(objs, merge, a, objs.len() as int, x, y)
}

proof fn lemma_fn_records_push(objs: Seq<RawObject>, n: int)
    requires
        0 <= n < objs.len(),
    ensures
        fn_records(objs.take(n + 1)) == if objs[n] is Function {
            fn_records(objs.take(n)).push(objs[n])
        } else {
            fn_records(objs.take(n))
        },
{
    assert(objs.take(n + 1).drop_last() =~= objs.take(n));
}

/// Places every enum, struct and class record in its package; function
/// records are handed back, in order. Fails on the first struct whose
/// boolean properties do not fit a bitfield.
pub fn place_objects(objects: Vec<RawObject>, merge: &MergeMap, level_actors: Option<usize>) -> (r:
    Result<(Sdk, Vec<RawObject>), IndexError>)
    ensures
        r is Ok <==> records_ok(objects@),
        r is Err ==> r->Err_0 is BitfieldMismatch,
        r is Ok ==> r->Ok_0.0.wf(),
        r is Ok ==> exists|src: Seq<int>|
            placed(objects@, objects@.len() as int, merge@, level_actors, &r->Ok_0.0, src),
        r is Ok ==> r->Ok_0.1@ == fn_records(objects@),
        r is Ok ==> forall|i: int|
            0 <= i < objects@.len() && (#[trigger] objects@[i]) is Struct ==> exists|p: int|
                0 <= p < r->Ok_0.0.packages@.len() && r->Ok_0.0.packages@[p].ident@ == merged(
                    merge@,
                    rec_package(objects@[i]),
                ),
{
    let ghost all = objects@;
    let mut sdk = Sdk::new();
    let mut functions: Vec<RawObject> = Vec::new();
    let mut rest = objects;
    let mut i: usize = 0;
    let n: usize = rest.len();
    let ghost mut src: Seq<int> = Seq::empty();
    assert(all.take(0) =~= Seq::<RawObject>::empty());
    while rest.len() > 0
        invariant
            all == objects@,
            all.len() == n,
            0 <= i <= n,
            rest@ == all.subrange(i as int, n as int),
            records_ok(all.take(i as int)),
            sdk.wf(),
            placed(all, i as int, merge@, level_actors, &sdk, src),
            functions@ == fn_records(all.take(i as int)),
            forall|j: int|
                0 <= j < i && (#[trigger] all[j]) is Struct ==> exists|p: int|
                    0 <= p < sdk.packages@.len() && sdk.packages@[p].ident@ == merged(
                        merge@,
                        rec_package(all[j]),
                    ),
        decreases rest@.len(),
    {
        let obj = rest.remove(0);
        assert(obj == all[i as int]);
        let ghost prev = all.take(i as int);
        assert(all.take(i + 1) =~= prev.push(obj));
        proof {
            lemma_fn_records_push(all, i as int);
        }
        let ghost s0 = sdk;
        let ghost obj0 = obj;
        match obj {
            RawObject::Enum { package, fqn, variants } => {
                let ghost vs = variants@;
                let ghost f0 = fqn;
                let e = index_enum(fqn, &variants);
                let ghost object = Object::Enum(e);
                proof {
                    reveal(object_from);
                }
                let added = sdk.add(package.as_str(), merge, Object::Enum(e));
                proof {
                    lemma_place_step(all, i as int, merge@, level_actors, s0, sdk, src, object, added);
                    if added {
                        src = src.push(i as int);
                    }
                    assert forall|j: int|
                        0 <= j < i + 1 && (#[trigger] all[j]) is Struct implies exists|p: int|
                            0 <= p < sdk.packages@.len() && sdk.packages@[p].ident@ == merged(
                                merge@,
                                rec_package(all[j]),
                            ) by {
                        let p = choose|p: int|
                            0 <= p < s0.packages@.len() && s0.packages@[p].ident@ == merged(
                                merge@,
                                rec_package(all[j]),
                            );
                        assert(sdk.packages@[p].ident == s0.packages@[p].ident);
                    }
                }
            },
            RawObject::Struct { package, record, is_class, foreign } => {
                let ghost props = record.props@;
                let ghost rec0 = record;
                match index_struct(record, level_actors) {
                    Ok(st) => {
                        let key = sdk.retrieve_key(package.as_str(), merge);
                        let ghost s1 = sdk;
                        proof {
                            lemma_place_key(all, i as int, merge@, level_actors, s0, s1, src);
                        }
                        let ghost object = if is_class { Object::Class(st) } else { Object::Struct(st) };
                        proof {
                            reveal(object_from);
                        }
                        let added = if is_class {
                            sdk.add(package.as_str(), merge, Object::Class(st))
                        } else {
                            sdk.add(package.as_str(), merge, Object::Struct(st))
                        };
                        proof {
                            lemma_place_step(all, i as int, merge@, level_actors, s1, sdk, src, object, added);
                            if added {
                                src = src.push(i as int);
                            }
                            assert forall|j: int|
                                0 <= j < i + 1 && (#[trigger] all[j]) is Struct implies exists|p: int|
                                    0 <= p < sdk.packages@.len() && sdk.packages@[p].ident@ == merged(
                                        merge@,
                                        rec_package(all[j]),
                                    ) by {
                                if j < i {
                                    let p = choose|p: int|
                                        0 <= p < s0.packages@.len() && s0.packages@[p].ident@ == merged(
                                            merge@,
                                            rec_package(all[j]),
                                        );
                                    assert(s1.packages@[p] == s0.packages@[p]);
                                    assert(sdk.packages@[p].ident == s1.packages@[p].ident);
                                } else {
                                    assert(sdk.packages@[key as int].ident == s1.packages@[key as int].ident);
                                }
                            }
                        }
                    },
                    Err(e) => {
                        proof {
                            let j = choose|j: int| 0 <= j < props.len() && !bool_ok(#[trigger] props[j]);
                            match all[i as int] {
                                RawObject::Struct { record: r2, .. } => {
                                    assert(r2.props@ == props);
                                    assert(!bool_ok(r2.props@[j]));
                                },
                                _ => {},
                            }
                            assert(!records_ok(all));
                        }
                        return Err(e);
                    },
                }
            },
            RawObject::Function { .. } => {
                functions.push(obj);
            },
        }
        proof {
            assert forall|k: int| 0 <= k < i + 1 implies match #[trigger] all.take(i + 1)[k] {
                RawObject::Struct { record, .. } => forall|j: int|
                    0 <= j < record.props@.len() ==> bool_ok(#[trigger] record.props@[j]),
                _ => true,
            } by {
                if k < i {
                    assert(all.take(i + 1)[k] == prev[k]);
                }
            }
        }
        i = i + 1;
        assert(rest@ =~= all.subrange(i as int, n as int));
    }
    assert(all.take(i as int) =~= all);
    Ok((sdk, functions))
}

} // verus!

verus! {

proof fn lemma_place_key(
    all: Seq<RawObject>,
    i: int,
    merge: MergeView,
    level_actors: Option<usize>,
    s0: Sdk,
    s1: Sdk,
    src: Seq<int>,
)
    requires
        forall|o: int| 0 <= o < s0.objects@.len() ==> #[trigger] s0.owner@[o] < s0.packages@.len(),
        placed(all, i, merge, level_actors, &s0, src),
        s1.objects@ == s0.objects@,
        s1.owner@ == s0.owner@,
        s1.edges@ == s0.edges@,
        s1.packages@.len() >= s0.packages@.len(),
        forall|p: int|
            0 <= p < s0.packages@.len() ==> s1.packages@[p] == s0.packages@[p] && s1.alive@[p]
                == s0.alive@[p],
        forall|p: int| s0.packages@.len() <= p < s1.packages@.len() ==> #[trigger] s1.alive@[p],
    ensures
        placed(all, i, merge, level_actors, &s1, src),
{
    assert forall|p: int| 0 <= p < s1.packages@.len() implies #[trigger] s1.alive@[p] by {
        if p < s0.packages@.len() {
            assert(s0.alive@[p]);
        }
    }
    assert forall|j: int| 0 <= j < i && (#[trigger] rec_name(all[j])) is Some implies exists|o: int|
        0 <= o < s1.objects@.len() && s1.fqn_at(o) == rec_name(all[j])->0 by {
        let o = choose|o: int| 0 <= o < s0.objects@.len() && s0.fqn_at(o) == rec_name(all[j])->0;
        assert(s1.fqn_at(o) == s0.fqn_at(o));
    }
    assert forall|o: int| 0 <= o < s1.objects@.len() implies {
        let j = #[trigger] src[o];
        &&& 0 <= j < i
        &&& first_named(all, j)
        &&& object_from(all[j], s1.objects@[o], level_actors)
        &&& s1.fqn_at(o) == rec_name(all[j])->0
        &&& s1.packages@[s1.owner@[o] as int].ident@ == merged(merge, rec_package(all[j]))
    } by {
        assert(s0.owner@[o] < s0.packages@.len());
        assert(s1.fqn_at(o) == s0.fqn_at(o));
    }
}

proof fn lemma_place_step(
    all: Seq<RawObject>,
    i: int,
    merge: MergeView,
    level_actors: Option<usize>,
    s0: Sdk,
    s1: Sdk,
    src: Seq<int>,
    object: Object,
    added: bool,
)
    requires
        forall|o: int| 0 <= o < s0.objects@.len() ==> #[trigger] s0.owner@[o] < s0.packages@.len(),
        0 <= i < all.len(),
        placed(all, i, merge, level_actors, &s0, src),
        object_from(all[i], object, level_actors),
        rec_name(all[i]) == Some(object.spec_fqn()@),
        s1.owner@.len() == s1.objects@.len(),
        added == (forall|o: int| 0 <= o < s0.objects@.len() ==> s0.fqn_at(o) != object.spec_fqn()@),
        added ==> s1.objects@ == s0.objects@.push(object),
        added ==> s1.packages@[s1.owner@.last() as int].ident@ == merged(merge, rec_package(all[i])),
        added ==> s1.owner@.drop_last() == s0.owner@,
        !added ==> s1.objects@ == s0.objects@,
        !added ==> s1.owner@ == s0.owner@,
        s1.edges@ == s0.edges@,
        s1.packages@.len() >= s0.packages@.len(),
        forall|p: int| 0 <= p < s0.packages@.len() ==> s1.alive@[p] == s0.alive@[p],
        forall|p: int| s0.packages@.len() <= p < s1.packages@.len() ==> s1.alive@[p],
        forall|p: int|
            0 <= p < s0.packages@.len() ==> #[trigger] s1.packages@[p].ident
                == s0.packages@[p].ident,
    ensures
        placed(all, i + 1, merge, level_actors, &s1, if added { src.push(i) } else { src }),
{
    let src1 = if added { src.push(i) } else { src };
    let name = object.spec_fqn()@;
    assert forall|p: int| 0 <= p < s1.packages@.len() implies #[trigger] s1.alive@[p] by {
        if p < s0.packages@.len() {
            assert(s0.alive@[p]);
        }
    }
    assert forall|j: int| 0 <= j < i + 1 && (#[trigger] rec_name(all[j])) is Some implies exists|o: int|
        0 <= o < s1.objects@.len() && s1.fqn_at(o) == rec_name(all[j])->0 by {
        if j < i {
            let o = choose|o: int| 0 <= o < s0.objects@.len() && s0.fqn_at(o) == rec_name(all[j])->0;
            assert(s1.objects@[o] == s0.objects@[o]);
            assert(s1.fqn_at(o) == s0.fqn_at(o));
        } else if added {
            assert(s1.objects@[s0.objects@.len() as int] == object);
            assert(s1.fqn_at(s0.objects@.len() as int) == name);
        } else {
            assert(j == i);
            assert(!(forall|o: int| 0 <= o < s0.objects@.len() ==> s0.fqn_at(o) != name));
            let o = choose|o: int| 0 <= o < s0.objects@.len() && s0.fqn_at(o) == name;
            assert(s1.objects@[o] == s0.objects@[o]);
            assert(s1.fqn_at(o) == s0.fqn_at(o));
        }
    }
    assert forall|o: int| 0 <= o < s1.objects@.len() implies {
        let j = #[trigger] src1[o];
        &&& 0 <= j < i + 1
        &&& first_named(all, j)
        &&& object_from(all[j], s1.objects@[o], level_actors)
        &&& s1.fqn_at(o) == rec_name(all[j])->0
        &&& s1.packages@[s1.owner@[o] as int].ident@ == merged(merge, rec_package(all[j]))
    } by {
        if o < s0.objects@.len() {
            let j = src[o];
            assert(src1[o] == j);
            assert(s1.objects@[o] == s0.objects@[o]);
            assert(s1.fqn_at(o) == s0.fqn_at(o));
            if added {
                assert(s1.owner@[o] == s1.owner@.drop_last()[o]);
            }
            assert(s1.owner@[o] == s0.owner@[o]);
            assert(s0.owner@[o] < s0.packages@.len());
            assert(s1.packages@[s0.owner@[o] as int].ident == s0.packages@[s0.owner@[o] as int].ident);
        } else {
            assert(added);
            assert(src1[o] == i);
            assert(s1.objects@[o] == object);
            assert(s1.fqn_at(o) == name);
            assert(s1.owner@[o] == s1.owner@.last());
            assert forall|j: int| 0 <= j < i implies rec_name(all[j]) != rec_name(all[i]) by {
                if rec_name(all[j]) == rec_name(all[i]) {
                    assert(rec_name(all[j]) is Some);
                    let o2 = choose|o2: int|
                        0 <= o2 < s0.objects@.len() && s0.fqn_at(o2) == rec_name(all[j])->0;
                }
            }
        }
    }
}

} // verus!

verus! {

proof fn lemma_owned_by_push(fr: Seq<RawObject>, k: int, name: (Seq<char>, Seq<char>))
    requires
        0 <= k < fr.len(),
    ensures
        owned_by(fr.take(k + 1), name) == if fr[k] matches RawObject::Function { owner, .. }
            && owner@ == name {
            owned_by(fr.take(k), name).push(fr[k])
        } else {
            owned_by(fr.take(k), name)
        },
{
    assert(fr.take(k + 1).drop_last() =~= fr.take(k));
}

/// Indexes each function record and appends the function to the struct or
/// class its record names as owner; a record whose owner is no struct or
/// class is skipped.
pub fn attach_functions(sdk: &mut Sdk, functions: Vec<RawObject>)
    requires
        old(sdk).wf(),
    ensures
        final(sdk).wf(),
        attached(functions@, old(sdk), final(sdk)),
{
    let ghost fr = functions@;
    let ghost s0 = *sdk;
    let mut rest = functions;
    let n: usize = rest.len();
    let mut k: usize = 0;
    proof {
        assert forall|o: int| 0 <= o < s0.objects@.len() implies match (
            s0.objects@[o],
            #[trigger] sdk.objects@[o],
        ) {
            (Object::Struct(x), Object::Struct(y)) | (Object::Class(x), Object::Class(y)) => {
                &&& x.functions@.len() <= y.functions@.len()
                &&& y.functions@.subrange(0, x.functions@.len() as int) == x.functions@
                &&& fns_from(
                    owned_by(fr.take(0), x.fqn@),
                    y.functions@.subrange(x.functions@.len() as int, y.functions@.len() as int),
                )
                &&& y.fqn == x.fqn
                &&& y.index == x.index
                &&& y.is_uobject == x.is_uobject
                &&& y.parent == x.parent
                &&& y.ident == x.ident
                &&& y.shrink == x.shrink
                &&& y.layout == x.layout
                &&& y.fields == x.fields
            },
            (Object::Enum(x), Object::Enum(y)) => x == y,
            _ => false,
        } by {
            assert(fr.take(0) =~= Seq::<RawObject>::empty());
            match s0.objects@[o] {
                Object::Struct(x) | Object::Class(x) => {
                    assert(x.functions@.subrange(0, x.functions@.len() as int) =~= x.functions@);
                    assert(x.functions@.subrange(x.functions@.len() as int, x.functions@.len() as int)
                        =~= Seq::<Function>::empty());
                },
                _ => {},
            }
        }
    }
    while rest.len() > 0
        invariant
            fr.len() == n,
            0 <= k <= n,
            rest@ == fr.subrange(k as int, n as int),
            sdk.wf(),
            attached(fr.take(k as int), &s0, sdk),
        decreases rest@.len(),
    {
        let rec = rest.remove(0);
        assert(rec == fr[k as int]);
        proof {
            assert forall|name: (Seq<char>, Seq<char>)| #[trigger] owned_by(fr.take(k + 1), name)
                == if fr[k as int] matches RawObject::Function { owner, .. } && owner@ == name {
                owned_by(fr.take(k as int), name).push(fr[k as int])
            } else {
                owned_by(fr.take(k as int), name)
            } by {
                lemma_owned_by_push(fr, k as int, name);
            }
        }
        let ghost s1 = *sdk;
        match rec {
            RawObject::Function { owner, fqn, name, index, flags, params, .. } => {
                let ghost ps = params@;
                let f = index_function(fqn, name.as_str(), index, flags, params);
                assert(fn_from(rec, f));
                let res = sdk.attach_function(&owner, f);
                proof {
                    assert forall|o: int| 0 <= o < s0.objects@.len() implies match (
                        s0.objects@[o],
                        #[trigger] sdk.objects@[o],
                    ) {
                        (Object::Struct(x), Object::Struct(y)) | (Object::Class(x), Object::Class(y)) => {
                            &&& x.functions@.len() <= y.functions@.len()
                &&& y.functions@.subrange(0, x.functions@.len() as int) == x.functions@
                            &&& fns_from(
                                owned_by(fr.take(k + 1), x.fqn@),
                                y.functions@.subrange(x.functions@.len() as int, y.functions@.len() as int),
                            )
                            &&& y.fqn == x.fqn
                            &&& y.index == x.index
                            &&& y.is_uobject == x.is_uobject
                            &&& y.parent == x.parent
                            &&& y.ident == x.ident
                            &&& y.shrink == x.shrink
                            &&& y.layout == x.layout
                            &&& y.fields == x.fields
                        },
                        (Object::Enum(x), Object::Enum(y)) => x == y,
                        _ => false,
                    } by {
                        let mid = s1.objects@[o];
                        assert(match (s0.objects@[o], mid) {
                            (Object::Struct(x), Object::Struct(y)) | (Object::Class(x), Object::Class(y)) => {
                                &&& x.functions@.len() <= y.functions@.len()
                &&& y.functions@.subrange(0, x.functions@.len() as int) == x.functions@
                                &&& fns_from(
                                    owned_by(fr.take(k as int), x.fqn@),
                                    y.functions@.subrange(x.functions@.len() as int, y.functions@.len() as int),
                                )
                                &&& y.fqn == x.fqn
                                &&& y.index == x.index
                                &&& y.is_uobject == x.is_uobject
                                &&& y.parent == x.parent
                                &&& y.ident == x.ident
                                &&& y.shrink == x.shrink
                                &&& y.layout == x.layout
                                &&& y.fields == x.fields
                            },
                            (Object::Enum(x), Object::Enum(y)) => x == y,
                            _ => false,
                        });
                        let hit = s1.fqn_at(o) == owner@;
                        if res is Ok && hit {
                            assert(function_added(mid, sdk.objects@[o], f));
                            match (s0.objects@[o], mid, sdk.objects@[o]) {
                                (Object::Struct(x), Object::Struct(y), Object::Struct(z))
                                | (Object::Class(x), Object::Class(y), Object::Class(z)) => {
                                    let a = x.functions@.len() as int;
                                    assert(z.functions@.subrange(0, a) =~= y.functions@.subrange(0, a));
                                    assert(z.functions@.subrange(a, z.functions@.len() as int)
                                        =~= y.functions@.subrange(a, y.functions@.len() as int).push(f));
                                },
                                _ => {},
                            }
                        } else if res is Ok {
                            assert(sdk.objects@[o] == mid);
                        } else {
                            assert(sdk.objects@[o] == mid);
                            if hit {
                                assert(crate::sdk::struct_of(s1.objects@[o]) is None);
                            }
                        }
                    }
                }
            },
            _ => {
                proof {
                    assert forall|o: int| 0 <= o < s0.objects@.len() implies match (
                        s0.objects@[o],
                        #[trigger] sdk.objects@[o],
                    ) {
                        (Object::Struct(x), Object::Struct(y)) | (Object::Class(x), Object::Class(y)) => {
                            &&& x.functions@.len() <= y.functions@.len()
                &&& y.functions@.subrange(0, x.functions@.len() as int) == x.functions@
                            &&& fns_from(
                                owned_by(fr.take(k + 1), x.fqn@),
                                y.functions@.subrange(x.functions@.len() as int, y.functions@.len() as int),
                            )
                            &&& y.fqn == x.fqn
                            &&& y.index == x.index
                            &&& y.is_uobject == x.is_uobject
                            &&& y.parent == x.parent
                            &&& y.ident == x.ident
                            &&& y.shrink == x.shrink
                            &&& y.layout == x.layout
                            &&& y.fields == x.fields
                        },
                        (Object::Enum(x), Object::Enum(y)) => x == y,
                        _ => false,
                    } by {}
                }
            },
        }
        k = k + 1;
        assert(rest@ =~= fr.subrange(k as int, n as int));
    }
    assert(fr.take(k as int) =~= fr);
}

} // verus!


verus! {

proof fn lemma_references_same(s: &Sdk, a: &Sdk, f: Seq<Fqn>, y: usize)
    requires
        s.objects@ == a.objects@,
        s.owner@ == a.owner@,
    ensures
        references(s, f, y) == references(a, f, y),
{
    if references(s, f, y) {
        let (k, i) = choose|k: int, i: int| #[trigger] names_object(s, f, k, i, y);
        assert(s.fqn_at(i) == a.fqn_at(i));
        assert(names_object(a, f, k, i, y));
    }
    if references(a, f, y) {
        let (k, i) = choose|k: int, i: int| #[trigger] names_object(a, f, k, i, y);
        assert(s.fqn_at(i) == a.fqn_at(i));
        assert(names_object(s, f, k, i, y));
    }
}

fn record_counts(sdk: &Sdk, r: &RawObject) -> (b: bool)
    requires
        sdk.wf(),
    ensures
        b == counts_refs(*r, sdk),
{
    match r {
        RawObject::Struct { .. } => true,
        RawObject::Enum { .. } => false,
        RawObject::Function { owner, .. } => match sdk.find(owner) {
            Some(o) => match &sdk.objects[o] {
                Object::Enum(_) => {
                    proof {
                        assert forall|o2: int|
                            0 <= o2 < sdk.objects@.len() && sdk.fqn_at(o2) == owner@ implies struct_of(
                                sdk.objects@[o2],
                            ) is None by {
                            assert(o2 == o);
                        }
                    }
                    false
                },
                _ => true,
            },
            None => false,
        },
    }
}

/// Adds the dependency edges that the records give: from the package each
/// record is placed in to each other package holding a type it names.
pub fn link_packages(sdk: &mut Sdk, objects: &Vec<RawObject>, merge: &MergeMap)
    requires
        old(sdk).wf(),
        old(sdk).edges@.len() == 0,
    ensures
        final(sdk).wf(),
        linked(objects@, merge@, old(sdk), final(sdk)),
{
    let ghost a = *sdk;
    let mut i: usize = 0;
    while i < objects.len()
        invariant
            sdk.wf(),
            a.wf(),
            a.edges@.len() == 0,
            0 <= i <= objects@.len(),
            sdk.objects@ == a.objects@,
            sdk.owner@ == a.owner@,
            sdk.packages@ == a.packages@,
            sdk.alive@ == a.alive@,
            forall|x: usize, y: usize|
                #[trigger] sdk.has_edge(x, y) <==> rec_edge(objects@, merge@, &a, i as int, x, y),
        decreases objects@.len() - i,
    {
        let r = &objects[i];
        let ghost before = *sdk;
        let counts = record_counts(sdk, r);
        proof {
            assert forall|o: int| 0 <= o < a.objects@.len() implies sdk.fqn_at(o) == a.fqn_at(o) by {}
            match objects@[i as int] {
                RawObject::Function { owner, .. } => {
                    if counts_refs(*r, sdk) {
                        let o = choose|o: int|
                            0 <= o < sdk.objects@.len() && sdk.fqn_at(o) == owner@ && struct_of(
                                sdk.objects@[o],
                            ) is Some;
                        assert(a.fqn_at(o) == owner@ && struct_of(a.objects@[o]) is Some);
                    }
                    if counts_refs(*r, &a) {
                        let o = choose|o: int|
                            0 <= o < a.objects@.len() && a.fqn_at(o) == owner@ && struct_of(
                                a.objects@[o],
                            ) is Some;
                        assert(sdk.fqn_at(o) == owner@ && struct_of(sdk.objects@[o]) is Some);
                    }
                },
                _ => {},
            }
            assert(counts_refs(*r, sdk) == counts_refs(*r, &a));
        }
        let mut placed_in: Option<usize> = None;
        if counts {
            let ident = match r {
                RawObject::Enum { package, .. } => merge.rewrite(package.as_str()),
                RawObject::Struct { package, .. } => merge.rewrite(package.as_str()),
                RawObject::Function { package, .. } => merge.rewrite(package.as_str()),
            };
            assert(ident@ == merged(merge@, rec_package(*r)));
            placed_in = sdk.find_package(ident.as_str());
        }
        match placed_in {
            Some(p) => {
                match r {
                    RawObject::Struct { foreign, .. } => {
                        sdk.add_dependencies(p, foreign);
                    },
                    RawObject::Function { foreign, .. } => {
                        sdk.add_dependencies(p, foreign);
                    },
                    RawObject::Enum { .. } => {},
                }
            },
            None => {},
        }
        proof {
            lemma_ident_unique(&a);
            assert forall|x: usize, y: usize|
                #[trigger] sdk.has_edge(x, y) <==> rec_edge(objects@, merge@, &a, i + 1, x, y) by {
                lemma_references_same(&before, &a, rec_foreign(objects@[i as int]), y);
                if rec_edge(objects@, merge@, &a, i + 1, x, y) && !rec_edge(objects@, merge@, &a, i as int, x, y) {
                    let j = choose|j: int|
                        0 <= j < i + 1 && #[trigger] counts_refs(objects@[j], &a) && x < a.packages@.len()
                            && a.alive@[x as int] && a.packages@[x as int].ident@ == merged(
                            merge@,
                            rec_package(objects@[j]),
                        ) && references(&a, rec_foreign(objects@[j]), y);
                    if j < i {
                        assert(rec_edge(objects@, merge@, &a, i as int, x, y));
                    }
                    assert(j == i);
                }
                if rec_edge(objects@, merge@, &a, i as int, x, y) {
                    let j = choose|j: int|
                        0 <= j < i && #[trigger] counts_refs(objects@[j], &a) && x < a.packages@.len()
                            && a.alive@[x as int] && a.packages@[x as int].ident@ == merged(
                            merge@,
                            rec_package(objects@[j]),
                        ) && references(&a, rec_foreign(objects@[j]), y);
                    assert(0 <= j < i + 1);
                }
            }
        }
        i = i + 1;
    }
}

proof fn lemma_ident_unique(a: &Sdk)
    requires
        a.wf(),
    ensures
        forall|p: int, q: int|
            0 <= p < a.packages@.len() && 0 <= q < a.packages@.len() && a.alive@[p] && a.alive@[q]
                && a.packages@[p].ident@ == a.packages@[q].ident@ ==> p == q,
{
}

} // verus!

verus! {

/// `b` agrees with `a` on everything that decides dependency edges.
pub open spec fn same_refs(a: RawObject, b: RawObject) -> bool {
    &&& rec_package(a) == rec_package(b)
    &&& rec_foreign(a).len() == rec_foreign(b).len()
    &&& forall|k: int| 0 <= k < rec_foreign(a).len() ==> (#[trigger] rec_foreign(a)[k])@ == rec_foreign(b)[k]@
    &&& match (a, b) {
        (RawObject::Enum { .. }, RawObject::Enum { .. }) => true,
        (RawObject::Struct { .. }, RawObject::Struct { .. }) => true,
        (RawObject::Function { owner: x, .. }, RawObject::Function { owner: y, .. }) => x@ == y@,
        _ => false,
    }
}

fn copy_names(v: &Vec<Fqn>) -> (r: Vec<Fqn>)
    ensures
        r@.len() == v@.len(),
        forall|k: int| 0 <= k < v@.len() ==> (#[trigger] r@[k])@ == v@[k]@,
{
    let mut out: Vec<Fqn> = Vec::new();
    let mut i: usize = 0;
    while i < v.len()
        invariant
            0 <= i <= v@.len(),
            out@.len() == i,
            forall|k: int| 0 <= k < i ==> (#[trigger] out@[k])@ == v@[k]@,
        decreases v@.len() - i,
    {
        out.push(v[i].copy());
        i = i + 1;
    }
    out
}

/// Copies of the records that keep what decides dependency edges.
fn shadows(objects: &Vec<RawObject>) -> (r: Vec<RawObject>)
    ensures
        r@.len() == objects@.len(),
        forall|i: int| 0 <= i < objects@.len() ==> same_refs(objects@[i], #[trigger] r@[i]),
{
    let mut out: Vec<RawObject> = Vec::new();
    let mut i: usize = 0;
    while i < objects.len()
        invariant
            0 <= i <= objects@.len(),
            out@.len() == i,
            forall|k: int| 0 <= k < i ==> same_refs(objects@[k], #[trigger] out@[k]),
        decreases objects@.len() - i,
    {
        let shadow = match &objects[i] {
            RawObject::Enum { package, fqn, .. } => RawObject::Enum {
                package: package.clone(),
                fqn: fqn.copy(),
                variants: Vec::new(),
            },
            RawObject::Struct { package, record, is_class, foreign } => RawObject::Struct {
                package: package.clone(),
                record: RawStruct {
                    fqn: record.fqn.copy(),
                    index: record.index,
                    is_uobject: record.is_uobject,
                    size: record.size,
                    align: record.align,
                    parent: None,
                    chain: Vec::new(),
                    props: Vec::new(),
                },
                is_class: *is_class,
                foreign: copy_names(foreign),
            },
            RawObject::Function { package, owner, fqn, name, index, flags, foreign, .. } => RawObject::Function {
                package: package.clone(),
                owner: owner.copy(),
                fqn: fqn.copy(),
                name: name.clone(),
                index: *index,
                flags: *flags,
                params: Vec::new(),
                foreign: copy_names(foreign),
            },
        };
        out.push(shadow);
        i = i + 1;
    }
    out
}

proof fn lemma_references_views(a: &Sdk, f: Seq<Fqn>, g: Seq<Fqn>, y: usize)
    requires
        f.len() == g.len(),
        forall|k: int| 0 <= k < f.len() ==> (#[trigger] f[k])@ == g[k]@,
    ensures
        references(a, f, y) == references(a, g, y),
{
    if references(a, f, y) {
        let (k, i) = choose|k: int, i: int| #[trigger] names_object(a, f, k, i, y);
        assert(names_object(a, g, k, i, y));
    }
    if references(a, g, y) {
        let (k, i) = choose|k: int, i: int| #[trigger] names_object(a, g, k, i, y);
        assert(f[k]@ == g[k]@);
        assert(names_object(a, f, k, i, y));
    }
}

proof fn lemma_rec_edge_shadow(
    objs: Seq<RawObject>,
    sh: Seq<RawObject>,
    merge: MergeView,
    a: &Sdk,
    x: usize,
    y: usize,
)
    requires
        objs.len() == sh.len(),
        forall|i: int| 0 <= i < objs.len() ==> same_refs(objs[i], #[trigger] sh[i]),
    ensures
        rec_edge(objs, merge, a, objs.len() as int, x, y) == rec_edge(sh, merge, a, sh.len() as int, x, y),
{
    if rec_edge(objs, merge, a, objs.len() as int, x, y) {
        let i = choose|i: int|
            0 <= i < objs.len() && #[trigger] counts_refs(objs[i], a) && x < a.packages@.len()
                && a.alive@[x as int] && a.packages@[x as int].ident@ == merged(merge, rec_package(objs[i]))
                && references(a, rec_foreign(objs[i]), y);
        assert(same_refs(objs[i], sh[i]));
        lemma_references_views(a, rec_foreign(objs[i]), rec_foreign(sh[i]), y);
        assert(counts_refs(sh[i], a));
    }
    if rec_edge(sh, merge, a, sh.len() as int, x, y) {
        let i = choose|i: int|
            0 <= i < sh.len() && #[trigger] counts_refs(sh[i], a) && x < a.packages@.len()
                && a.alive@[x as int] && a.packages@[x as int].ident@ == merged(merge, rec_package(sh[i]))
                && references(a, rec_foreign(sh[i]), y);
        assert(same_refs(objs[i], sh[i]));
        lemma_references_views(a, rec_foreign(objs[i]), rec_foreign(sh[i]), y);
        assert(counts_refs(objs[i], a));
    }
}

/// `r` is what the pipeline makes of `objects`: the objects placed, the
/// functions attached, the packages linked, the bases shrunk and, unless
/// cycles are allowed, the cycles eliminated.
pub open spec fn built(
    objects: Seq<RawObject>,
    options: &DumperOptions,
    level_actors: Option<usize>,
    r: &Sdk,
) -> bool {
    exists|src: Seq<int>, s1: Sdk, s2: Sdk, s3: Sdk, s4: Sdk|
        #![trigger placed(objects, objects.len() as int, options.merge@, level_actors, &s1, src), attached(fn_records(objects), &s1, &s2), linked(objects, options.merge@, &s2, &s3), shrunk(s3.objects@, s4.objects@)]
        placed(objects, objects.len() as int, options.merge@, level_actors, &s1, src) && attached(
            fn_records(objects),
            &s1,
            &s2,
        ) && linked(objects, options.merge@, &s2, &s3) && shrunk(s3.objects@, s4.objects@)
            && s4.owner@ == s3.owner@ && s4.packages@ == s3.packages@ && s4.alive@ == s3.alive@
            && s4.edges@ == s3.edges@ && if options.allow_cycles {
            *r == s4
        } else {
            eliminated(&s4, r)
        }
}

/// Builds the type graph from the objects read from the target: enums,
/// structs and classes are indexed and placed in their (rewritten) packages,
/// functions are attached to their owners, dependency edges are added, base
/// sizes are shrunk, and, unless cycles are allowed, dependency cycles are
/// merged away. Fails where a struct's boolean property does not fit a
/// bitfield, or where a property or argument refers to a type that was not
/// indexed.
pub fn build_sdk(objects: Vec<RawObject>, options: &DumperOptions, level_actors: Option<usize>) -> (r:
    Result<Sdk, IndexError>)
    ensures
        !records_ok(objects@) ==> r is Err && r->Err_0 is BitfieldMismatch,
        records_ok(objects@) && r is Err ==> r->Err_0 is UnresolvedReference,
        r is Ok ==> r->Ok_0.wf() && contained(&r->Ok_0),
        r is Ok ==> built(objects@, options, level_actors, &r->Ok_0),
        r is Ok && !options.allow_cycles ==> is_dag(&r->Ok_0),
{
    let ghost all = objects@;
    let sh = shadows(&objects);
    let (mut sdk, functions) = match place_objects(objects, &options.merge, level_actors) {
        Ok(v) => v,
        Err(e) => return Err(e),
    };
    let ghost s1 = sdk;
    let ghost src = choose|src: Seq<int>| placed(all, all.len() as int, options.merge@, level_actors, &s1, src);
    attach_functions(&mut sdk, functions);
    let ghost s2 = sdk;
    link_packages(&mut sdk, &sh, &options.merge);
    let ghost s3 = sdk;
    proof {
        assert forall|x: usize, y: usize| #[trigger] s3.has_edge(x, y) <==> rec_edge(all, options.merge@, &s2, all.len() as int, x, y) by {
            lemma_rec_edge_shadow(all, sh@, options.merge@, &s2, x, y);
        }
        assert(linked(all, options.merge@, &s2, &s3));
    }
    sdk.shrink_base_classes();
    let ghost s4 = sdk;
    if !options.allow_cycles {
        sdk.eliminate_dependency_cycles();
    }
    proof {
        assert(built(all, options, level_actors, &sdk));
    }
    match sdk.first_unresolved() {
        Some(f) => Err(IndexError::UnresolvedReference(f)),
        None => Ok(sdk),
    }
}

} // verus!
