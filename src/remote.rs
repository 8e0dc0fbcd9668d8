use vstd::prelude::*;
use crate::config::Config;
use crate::fqn::Fqn;
use crate::ident::{package_tail, sanitize_ident, strip_package_name};
use crate::mem::{model_u32, model_u64, read_u32, read_u64, MemoryReader, ReadError, TArray, UEnumPtr};
use crate::model::{FieldOptions, FunctionArg, IndexError, PropertyKind};
use crate::bitfield::BoolVars;
use crate::names::{parse_block, NamePool, FNAME_BLOCK_OFFSETS};
use crate::contain::contained;
use crate::cycles::is_dag;
use crate::pipeline::{build_sdk, built, DumperOptions, RawObject};
use crate::sdk::Sdk;
use crate::property::{classify_property, declared_kind, property_class, wrap_array, PropertyClass};
use crate::structs::{RawProperty, RawStruct};

verus! {

broadcast use vstd::std_specs::hash::group_hash_axioms;

/// Width of a pointer in the target.
pub const PTR_SIZE: usize = 8;

/// Objects per chunk of the object table.
pub const OBJECTS_PER_CHUNK: usize = 65536;

/// Deepest nesting of container properties that is followed.
pub const MAX_PROPERTY_DEPTH: usize = 16;

/// Longest chain of links (outers, supers, properties) that is followed.
pub const MAX_CHAIN: usize = 0x10_0000;

/// Why reading the target's reflection records failed.
#[derive(Debug, PartialEq, Eq)]
pub enum DumpError {
    Read(ReadError),
    Index(IndexError),
    /// A name id that the name pool does not hold.
    MissingName(u32),
    /// The object at this address has no outer, so it has no package.
    NullOuter(usize),
    /// An address computation left the address space.
    Overflow(usize),
    /// A chain of links or of nested properties was longer than followed.
    TooLong(usize),
    /// The name pool's layout is not one this reader knows.
    BadNamePool,
}

fn at(base: usize, offset: usize) -> (r: Result<usize, DumpError>)
    ensures
        r is Ok ==> r->Ok_0 == base + offset,
        r is Err <==> base + offset > usize::MAX,
{
    match base.checked_add(offset) {
        Some(a) => Ok(a),
        None => Err(DumpError::Overflow(base)),
    }
}

/// The pointer stored at `address`.
pub open spec fn model_ptr<M: MemoryReader>(mem: &M, address: int) -> usize {
    model_u64(mem, address) as usize
}

/// The pool's text for the name id stored at `address`.
pub open spec fn name_model<M: MemoryReader>(mem: &M, names: &NamePool, address: int) -> Seq<char> {
    names.0@[model_u32(mem, address) as u32]@
}

/// The package and name of the object at `object`.
pub open spec fn fqn_model<M: MemoryReader>(mem: &M, config: &Config, names: &NamePool, object: int) -> (
    Seq<char>,
    Seq<char>,
) {
    let outer = model_ptr(mem, object + config.uobject.outer);
    (
        package_tail(name_model(mem, names, outer + config.uobject.name)),
        name_model(mem, names, object + config.uobject.name),
    )
}

fn ptr_at<M: MemoryReader>(mem: &M, address: usize) -> (r: Result<usize, DumpError>)
    ensures
        r is Ok ==> r->Ok_0 == model_ptr(mem, address as int),
{
    match read_u64(mem, address) {
        Ok(v) => Ok(v as usize),
        Err(e) => Err(DumpError::Read(e)),
    }
}

fn u32_at<M: MemoryReader>(mem: &M, address: usize) -> (r: Result<u32, DumpError>)
    ensures
        r is Ok ==> r->Ok_0 == model_u32(mem, address as int),
{
    match read_u32(mem, address) {
        Ok(v) => Ok(v),
        Err(e) => Err(DumpError::Read(e)),
    }
}

/// The name whose id is stored at `address`.
fn name_at<M: MemoryReader>(mem: &M, names: &NamePool, address: usize) -> (r: Result<String, DumpError>)
    ensures
        r is Ok ==> r->Ok_0@ == name_model(mem, names, address as int),
{
    let id = u32_at(mem, address)?;
    match names.get(id) {
        Some(s) => Ok(s.clone()),
        None => Err(DumpError::MissingName(id)),
    }
}

/// The package and name of the object at `object`: the package is the last
/// path segment of its outer's name.
pub fn object_fqn<M: MemoryReader>(mem: &M, config: &Config, names: &NamePool, object: usize) -> (r:
    Result<Fqn, DumpError>)
    ensures
        r is Ok ==> r->Ok_0@ == fqn_model(mem, config, names, object as int),
        r is Ok ==> model_ptr(mem, object + config.uobject.outer) != 0,
{
    let outer = ptr_at(mem, at(object, config.uobject.outer)?)?;
    if outer == 0 {
        return Err(DumpError::NullOuter(object));
    }
    let outer_name = name_at(mem, names, at(outer, config.uobject.name)?)?;
    let package = strip_package_name(outer_name.as_str());
    let name = name_at(mem, names, at(object, config.uobject.name)?)?;
    Ok(Fqn::from_package_name(package.as_str(), name.as_str()))
}

/// The `i`-th struct up the super chain from `s`.
pub open spec fn nth_super<M: MemoryReader>(mem: &M, config: &Config, s: int, i: nat) -> int
    decreases i,
{
    if i == 0 {
        s
    } else {
        model_ptr(mem, nth_super(mem, config, s, (i - 1) as nat) + config.ustruct.super_struct) as int
    }
}

/// `c` names the structs up the super chain from `s`, which ends in null
/// after them.
pub open spec fn chain_of<M: MemoryReader>(
    mem: &M,
    config: &Config,
    names: &NamePool,
    s: int,
    c: Seq<Fqn>,
) -> bool {
    &&& nth_super(mem, config, s, c.len()) == 0
    &&& forall|i: int|
        0 <= i < c.len() ==> (#[trigger] c[i])@ == fqn_model(
            mem,
            config,
            names,
            nth_super(mem, config, s, i as nat),
        )
}

/// The struct at `s` and each of its super structs, up to the root.
pub fn super_chain<M: MemoryReader>(mem: &M, config: &Config, names: &NamePool, s: usize) -> (r:
    Result<Vec<Fqn>, DumpError>)
    ensures
        r is Ok ==> chain_of(mem, config, names, s as int, r->Ok_0@),
{
    let mut out: Vec<Fqn> = Vec::new();
    let mut cur = s;
    let mut steps: usize = 0;
    while cur != 0
        invariant
            cur == nth_super(mem, config, s as int, steps as nat),
            out@.len() == steps,
            forall|i: int|
                0 <= i < out@.len() ==> (#[trigger] out@[i])@ == fqn_model(
                    mem,
                    config,
                    names,
                    nth_super(mem, config, s as int, i as nat),
                ),
        decreases MAX_CHAIN - steps,
    {
        if steps >= MAX_CHAIN {
            return Err(DumpError::TooLong(s));
        }
        let f = object_fqn(mem, config, names, cur)?;
        let ghost before = out@;
        out.push(f);
        let next = ptr_at(mem, at(cur, config.ustruct.super_struct)?)?;
        proof {
            assert(nth_super(mem, config, s as int, (steps + 1) as nat) == next as int);
            assert forall|i: int| 0 <= i < out@.len() implies (#[trigger] out@[i])@ == fqn_model(
                mem,
                config,
                names,
                nth_super(mem, config, s as int, i as nat),
            ) by {
                if i < before.len() {
                    assert(out@[i] == before[i]);
                }
            }
        }
        cur = next;
        steps = steps + 1;
    }
    Ok(out)
}

/// Whether the class of the object at `object`, or one of its super classes,
/// is named `package.name`.
pub fn is_a<M: MemoryReader>(
    mem: &M,
    config: &Config,
    names: &NamePool,
    object: usize,
    package: &str,
    name: &str,
) -> (r: Result<bool, DumpError>)
    ensures
        r is Ok ==> exists|c: Seq<Fqn>|
            #[trigger] chain_of(mem, config, names, model_ptr(mem, object + config.uobject.class) as int, c)
                && r->Ok_0 == exists|i: int| 0 <= i < c.len() && (#[trigger] c[i])@ == (package@, name@),
{
    let class = ptr_at(mem, at(object, config.uobject.class)?)?;
    let chain = super_chain(mem, config, names, class)?;
    let target = Fqn::from_package_name(package, name);
    let mut i: usize = 0;
    while i < chain.len()
        invariant
            0 <= i <= chain@.len(),
            chain_of(mem, config, names, class as int, chain@),
            class == model_ptr(mem, object + config.uobject.class),
            forall|j: int| 0 <= j < i ==> chain@[j]@ != (package@, name@),
        decreases chain@.len() - i,
    {
        if crate::structs::fqn_is(&chain[i], package, name) {
            assert(chain@[i as int]@ == (package@, name@));
            return Ok(true);
        }
        i = i + 1;
    }
    assert(chain_of(mem, config, names, class as int, chain@));
    Ok(false)
}

/// The outermost object that holds the object at `object`, if it has an outer.
pub fn outermost<M: MemoryReader>(mem: &M, config: &Config, object: usize) -> (r: Result<
    Option<usize>,
    DumpError,
>) {
    let mut cur = ptr_at(mem, at(object, config.uobject.outer)?)?;
    if cur == 0 {
        return Ok(None);
    }
    let mut steps: usize = 0;
    loop
        decreases MAX_CHAIN - steps,
    {
        if steps >= MAX_CHAIN {
            return Err(DumpError::TooLong(object));
        }
        let next = ptr_at(mem, at(cur, config.uobject.outer)?)?;
        if next == 0 {
            return Ok(Some(cur));
        }
        cur = next;
        steps = steps + 1;
    }
}

/// Every name that `k` points to or holds in place is among `names`.
pub open spec fn refs_listed(k: PropertyKind, names: Seq<Fqn>) -> bool
    decreases k,
{
    match k {
        PropertyKind::Ptr(f) => exists|i: int| 0 <= i < names.len() && names[i]@ == f@,
        PropertyKind::Inline(f) => exists|i: int| 0 <= i < names.len() && names[i]@ == f@,
        PropertyKind::Array { kind, .. } => refs_listed(*kind, names),
        PropertyKind::Vec(kind) => refs_listed(*kind, names),
        PropertyKind::TSet(kind) => refs_listed(*kind, names),
        PropertyKind::TMap { key, value } => refs_listed(*key, names) && refs_listed(*value, names),
        _ => true,
    }
}

proof fn lemma_refs_listed_grow(k: PropertyKind, a: Seq<Fqn>, b: Seq<Fqn>)
    requires
        refs_listed(k, a),
        a.len() <= b.len(),
        forall|i: int| 0 <= i < a.len() ==> b[i] == a[i],
    ensures
        refs_listed(k, b),
    decreases k,
{
    match k {
        PropertyKind::Ptr(f) | PropertyKind::Inline(f) => {
            let i = choose|i: int| 0 <= i < a.len() && a[i]@ == f@;
            assert(b[i] == a[i]);
        },
        PropertyKind::Array { kind, .. } => lemma_refs_listed_grow(*kind, a, b),
        PropertyKind::Vec(kind) => lemma_refs_listed_grow(*kind, a, b),
        PropertyKind::TSet(kind) => lemma_refs_listed_grow(*kind, a, b),
        PropertyKind::TMap { key, value } => {
            lemma_refs_listed_grow(*key, a, b);
            lemma_refs_listed_grow(*value, a, b);
        },
        _ => {},
    }
}

fn push_ref(foreign: &mut Vec<Fqn>, f: &Fqn)
    ensures
        final(foreign)@.len() == old(foreign)@.len() + 1,
        forall|i: int| 0 <= i < old(foreign)@.len() ==> final(foreign)@[i] == old(foreign)@[i],
        final(foreign)@[old(foreign)@.len() as int]@ == f@,
{
    foreign.push(f.copy());
}

proof fn lemma_simple_is_leaf(n: Seq<char>, names: Seq<Fqn>)
    ensures
        property_class(n) matches Some(PropertyClass::Simple(k)) ==> refs_listed(k, names),
{
}

/// `base` is a kind of class `c` for the property at `field`: the leaf kind
/// itself, or a pointer or in-place type named by the record that follows
/// the property, or a container of the right shape.
pub open spec fn base_fits<M: MemoryReader>(
    mem: &M,
    config: &Config,
    names: &NamePool,
    field: int,
    c: PropertyClass,
    base: PropertyKind,
) -> bool {
    let size = config.fproperty.size;
    match c {
        PropertyClass::Simple(k) => base == k,
        PropertyClass::ObjectPtr => base is Ptr && base->Ptr_0@ == fqn_model(
            mem,
            config,
            names,
            model_ptr(mem, field + size) as int,
        ),
        PropertyClass::InlineStruct => base is Inline && base->Inline_0@ == fqn_model(
            mem,
            config,
            names,
            model_ptr(mem, field + size) as int,
        ),
        PropertyClass::InlineEnum => base is Inline && base->Inline_0@ == fqn_model(
            mem,
            config,
            names,
            model_ptr(mem, field + size + PTR_SIZE) as int,
        ),
        PropertyClass::Array => base is Vec,
        PropertyClass::TSet => base is TSet,
        PropertyClass::TMap => base is TMap,
    }
}

/// The kind of the property at `field`. Each type it points to or holds in
/// place is appended to `foreign`, which keeps what it held.
pub fn property_kind<M: MemoryReader>(
    mem: &M,
    config: &Config,
    names: &NamePool,
    field: usize,
    foreign: &mut Vec<Fqn>,
    depth: usize,
) -> (r: Result<PropertyKind, DumpError>)
    ensures
        final(foreign)@.len() >= old(foreign)@.len(),
        forall|i: int| 0 <= i < old(foreign)@.len() ==> final(foreign)@[i] == old(foreign)@[i],
        r is Ok ==> refs_listed(r->Ok_0, final(foreign)@),
        depth == 0 ==> r == Err::<PropertyKind, DumpError>(DumpError::TooLong(field)),
        r is Ok ==> {
            let c = property_class(name_model(mem, names, model_ptr(mem, field + config.ffield.class) as int));
            &&& c is Some
            &&& exists|base: PropertyKind|
                #[trigger] base_fits(mem, config, names, field as int, c->0, base) && r->Ok_0
                    == declared_kind(base, model_u32(mem, field + config.fproperty.array_dim) as usize)
        },
    decreases depth,
{
    if depth == 0 {
        return Err(DumpError::TooLong(field));
    }
    let size = config.fproperty.size;
    let class = ptr_at(mem, at(field, config.ffield.class)?)?;
    let class_name = name_at(mem, names, class)?;
    let class = match classify_property(class_name.as_str()) {
        Ok(c) => c,
        Err(e) => return Err(DumpError::Index(e)),
    };
    proof {
        lemma_simple_is_leaf(class_name@, foreign@);
    }
    let kind = match class {
        PropertyClass::Simple(k) => k,
        PropertyClass::ObjectPtr => {
            let f = object_fqn(mem, config, names, ptr_at(mem, at(field, size)?)?)?;
            push_ref(foreign, &f);
            assert(foreign@[foreign@.len() - 1]@ == f@);
            PropertyKind::Ptr(f)
        },
        PropertyClass::InlineStruct => {
            let f = object_fqn(mem, config, names, ptr_at(mem, at(field, size)?)?)?;
            push_ref(foreign, &f);
            assert(foreign@[foreign@.len() - 1]@ == f@);
            PropertyKind::Inline(f)
        },
        PropertyClass::InlineEnum => {
            let f = object_fqn(mem, config, names, ptr_at(mem, at(at(field, size)?, PTR_SIZE)?)?)?;
            push_ref(foreign, &f);
            assert(foreign@[foreign@.len() - 1]@ == f@);
            PropertyKind::Inline(f)
        },
        PropertyClass::Array => {
            let inner = ptr_at(mem, at(field, size)?)?;
            PropertyKind::Vec(Box::new(property_kind(mem, config, names, inner, foreign, depth - 1)?))
        },
        PropertyClass::TSet => {
            let inner = ptr_at(mem, at(field, size)?)?;
            PropertyKind::TSet(Box::new(property_kind(mem, config, names, inner, foreign, depth - 1)?))
        },
        PropertyClass::TMap => {
            let key_at = ptr_at(mem, at(field, size)?)?;
            let value_at = ptr_at(mem, at(at(field, size)?, PTR_SIZE)?)?;
            let key = property_kind(mem, config, names, key_at, foreign, depth - 1)?;
            let ghost mid = foreign@;
            let value = property_kind(mem, config, names, value_at, foreign, depth - 1)?;
            proof {
                lemma_refs_listed_grow(key, mid, foreign@);
            }
            PropertyKind::TMap { key: Box::new(key), value: Box::new(value) }
        },
    };
    let array_dim = u32_at(mem, at(field, config.fproperty.array_dim)?)? as usize;
    assert(refs_listed(kind, foreign@));
    let ghost base = kind;
    let r = wrap_array(kind, array_dim);
    assert(refs_listed(r, foreign@));
    assert(base_fits(mem, config, names, field as int, class, base));
    Ok(r)
}

} // verus!

verus! {

/// Every property's kind lists its references in `names`.
pub open spec fn props_listed(ps: Seq<RawProperty>, names: Seq<Fqn>) -> bool {
    forall|j: int| 0 <= j < ps.len() ==> refs_listed((#[trigger] ps[j]).kind, names)
}

proof fn lemma_props_listed_grow(ps: Seq<RawProperty>, a: Seq<Fqn>, b: Seq<Fqn>)
    requires
        props_listed(ps, a),
        a.len() <= b.len(),
        forall|i: int| 0 <= i < a.len() ==> b[i] == a[i],
    ensures
        props_listed(ps, b),
{
    assert forall|j: int| 0 <= j < ps.len() implies refs_listed((#[trigger] ps[j]).kind, b) by {
        lemma_refs_listed_grow(ps[j].kind, a, b);
    }
}

/// The properties of the struct or function at `s`, in list order, each
/// with its property flags.
pub fn read_properties<M: MemoryReader>(
    mem: &M,
    config: &Config,
    names: &NamePool,
    s: usize,
    foreign: &mut Vec<Fqn>,
) -> (r: Result<(Vec<RawProperty>, Vec<u64>), DumpError>)
    ensures
        final(foreign)@.len() >= old(foreign)@.len(),
        forall|i: int| 0 <= i < old(foreign)@.len() ==> final(foreign)@[i] == old(foreign)@[i],
        r is Ok ==> props_listed(r->Ok_0.0@, final(foreign)@) && r->Ok_0.0@.len()
            == r->Ok_0.1@.len(),
{
    let ghost f0 = foreign@;
    let p = config.fproperty;
    let mut props: Vec<RawProperty> = Vec::new();
    let mut flags: Vec<u64> = Vec::new();
    let mut field = ptr_at(mem, at(s, config.ustruct.children_props)?)?;
    let mut steps: usize = 0;
    while field != 0
        invariant
            f0 == old(foreign)@,
            foreign@.len() >= f0.len(),
            forall|i: int| 0 <= i < f0.len() ==> foreign@[i] == f0[i],
            props_listed(props@, foreign@),
            props@.len() == flags@.len(),
        decreases MAX_CHAIN - steps,
    {
        if steps >= MAX_CHAIN {
            return Err(DumpError::TooLong(s));
        }
        let name = name_at(mem, names, at(field, config.ffield.name)?)?;
        let ghost before = foreign@;
        let kind = property_kind(mem, config, names, field, foreign, MAX_PROPERTY_DEPTH)?;
        proof {
            lemma_props_listed_grow(props@, before, foreign@);
        }
        let options = FieldOptions {
            offset: u32_at(mem, at(field, p.offset)?)? as usize,
            elem_size: u32_at(mem, at(field, p.element_size)?)? as usize,
            array_dim: u32_at(mem, at(field, p.array_dim)?)? as usize,
        };
        let flag = match read_u64(mem, at(field, p.flags)?) {
            Ok(v) => v,
            Err(e) => return Err(DumpError::Read(e)),
        };
        let is_bool = matches!(kind, PropertyKind::Bool);
        let bool_vars = if is_bool {
            let b = match mem.read_buf(at(field, p.size)?, 4) {
                Ok(b) => b,
                Err(e) => return Err(DumpError::Read(e)),
            };
            Some(BoolVars { field_size: b[0], byte_offset: b[1], byte_mask: b[2], field_mask: b[3] })
        } else {
            None
        };
        let ghost ps0 = props@;
        props.push(RawProperty { name, kind, options, bool_vars });
        flags.push(flag);
        proof {
            assert forall|j: int| 0 <= j < props@.len() implies refs_listed((#[trigger] props@[j]).kind, foreign@) by {
                if j < ps0.len() {
                    assert(props@[j] == ps0[j]);
                }
            }
        }
        field = ptr_at(mem, at(field, config.ffield.next)?)?;
        steps = steps + 1;
    }
    Ok((props, flags))
}

/// The record of the struct or class at `s`; its parent and every type its
/// properties refer to are appended to `foreign`.
pub fn read_struct<M: MemoryReader>(
    mem: &M,
    config: &Config,
    names: &NamePool,
    s: usize,
    foreign: &mut Vec<Fqn>,
) -> (r: Result<RawStruct, DumpError>)
    ensures
        r is Ok ==> props_listed(r->Ok_0.props@, final(foreign)@),
{
    let fqn = object_fqn(mem, config, names, s)?;
    let index = u32_at(mem, at(s, config.uobject.index)?)?;
    let size_at = at(s, config.ustruct.props_size)?;
    let size = u32_at(mem, size_at)? as usize;
    let align = u32_at(mem, at(size_at, 4)?)? as usize;
    let parent_ptr = ptr_at(mem, at(s, config.ustruct.super_struct)?)?;
    let parent = if parent_ptr == 0 {
        None
    } else {
        let f = object_fqn(mem, config, names, parent_ptr)?;
        push_ref(foreign, &f);
        Some(f)
    };
    let chain = super_chain(mem, config, names, s)?;
    let is_uobject = !is_a(mem, config, names, s, "CoreUObject", "ScriptStruct")?;
    let (props, _) = read_properties(mem, config, names, s, foreign)?;
    Ok(RawStruct { fqn, index, is_uobject, size, align, parent, chain, props })
}

/// The name and `(name, value)` table of the enum at `e`.
pub fn read_enum<M: MemoryReader>(mem: &M, config: &Config, names: &NamePool, e: usize) -> (r:
    Result<(Fqn, Vec<(String, i64)>), DumpError>) {
    let fqn = object_fqn(mem, config, names, e)?;
    let table: TArray = match UEnumPtr(e).names(mem, config) {
        Ok(t) => t,
        Err(err) => return Err(DumpError::Read(err)),
    };
    let mut variants: Vec<(String, i64)> = Vec::new();
    let mut i: usize = 0;
    while i < table.len as usize
        decreases table.len - i,
    {
        let entry = match table.element_address(i, 16) {
            Some(a) => a,
            None => return Err(DumpError::Overflow(table.ptr)),
        };
        let id = match read_u64(mem, entry) {
            Ok(v) => v as u32,
            Err(err) => return Err(DumpError::Read(err)),
        };
        let value = match read_u64(mem, at(entry, 8)?) {
            Ok(v) => v as i64,
            Err(err) => return Err(DumpError::Read(err)),
        };
        let name = match names.get(id) {
            Some(s) => s.clone(),
            None => return Err(DumpError::MissingName(id)),
        };
        variants.push((name, value));
        i = i + 1;
    }
    Ok((fqn, variants))
}

/// Every struct record lists in its `foreign` names the types its
/// properties refer to.
pub open spec fn records_listed(objs: Seq<RawObject>) -> bool {
    forall|i: int|
        0 <= i < objs.len() ==> match #[trigger] objs[i] {
            RawObject::Struct { record, foreign, .. } => props_listed(record.props@, foreign@),
            _ => true,
        }
}

/// Reads each object of the table in order: enums, structs and classes, and
/// functions become records; objects without an outer and objects of other
/// classes are skipped, as is a function whose outer has no name.
pub fn read_objects<M: MemoryReader>(
    mem: &M,
    config: &Config,
    names: &NamePool,
    objects: &Vec<usize>,
) -> (r: Result<Vec<RawObject>, DumpError>)
    ensures
        r is Ok ==> records_listed(r->Ok_0@),
{
    let mut out: Vec<RawObject> = Vec::new();
    let mut i: usize = 0;
    while i < objects.len()
        invariant
            0 <= i <= objects@.len(),
            records_listed(out@),
        decreases objects@.len() - i,
    {
        let object = objects[i];
        i = i + 1;
        let outer = match outermost(mem, config, object)? {
            Some(o) => o,
            None => continue,
        };
        let outer_name = name_at(mem, names, at(outer, config.uobject.name)?)?;
        let package = sanitize_ident(strip_package_name(outer_name.as_str()).as_str());
        let ghost o0 = out@;
        if is_a(mem, config, names, object, "CoreUObject", "Enum")? {
            let (fqn, variants) = read_enum(mem, config, names, object)?;
            out.push(RawObject::Enum { package, fqn, variants });
        } else if is_a(mem, config, names, object, "CoreUObject", "ScriptStruct")? || is_a(
            mem,
            config,
            names,
            object,
            "CoreUObject",
            "Class",
        )? {
            let mut foreign: Vec<Fqn> = Vec::new();
            let record = read_struct(mem, config, names, object, &mut foreign)?;
            let is_class = is_a(mem, config, names, object, "CoreUObject", "Class")?;
            out.push(RawObject::Struct { package, record, is_class, foreign });
        } else if is_a(mem, config, names, object, "CoreUObject", "Function")? {
            let owner_ptr = ptr_at(mem, at(object, config.uobject.outer)?)?;
            let owner = match object_fqn(mem, config, names, owner_ptr) {
                Ok(f) => f,
                Err(_) => continue,
            };
            let fqn = object_fqn(mem, config, names, object)?;
            let name = name_at(mem, names, at(object, config.uobject.name)?)?;
            let index = u32_at(mem, at(object, config.uobject.index)?)?;
            let flags = u32_at(mem, at(object, config.ufunction.flags)?)?;
            let mut foreign: Vec<Fqn> = Vec::new();
            let (props, pflags) = read_properties(mem, config, names, object, &mut foreign)?;
            let mut params: Vec<FunctionArg> = Vec::new();
            let mut rest = props;
            let mut k: usize = 0;
            let nflags: usize = pflags.len();
            while rest.len() > 0
                invariant
                    rest@.len() + k == pflags@.len(),
                    nflags == pflags@.len(),
                decreases rest@.len(),
            {
                let p = rest.remove(0);
                params.push(FunctionArg { name: sanitize_ident(p.name.as_str()), kind: p.kind, flags: pflags[k] });
                k = k + 1;
            }
            out.push(RawObject::Function { package, owner, fqn, name, index, flags, params, foreign });
        }
        proof {
            assert forall|j: int| 0 <= j < out@.len() implies match #[trigger] out@[j] {
                RawObject::Struct { record, foreign, .. } => props_listed(record.props@, foreign@),
                _ => true,
            } by {
                if j < o0.len() {
                    assert(out@[j] == o0[j]);
                }
            }
        }
    }
    Ok(out)
}

/// Reads the name pool at `pool`: the current block index and byte cursor,
/// then every block up to the current one, whose entries are decoded.
pub fn dump_names<M: MemoryReader>(mem: &M, pool: usize, stride: u32) -> (r: Result<NamePool, DumpError>)
    ensures
        !(stride == 1 || stride == 2) ==> r == Err::<NamePool, DumpError>(DumpError::BadNamePool),
        r is Ok ==> stride == 1 || stride == 2,
        pool + PTR_SIZE + 4 > usize::MAX ==> r is Err,
{
    if stride != 1 && stride != 2 {
        return Err(DumpError::BadNamePool);
    }
    let width = stride as usize;
    let current = u32_at(mem, at(pool, PTR_SIZE)?)?;
    let cursor = u32_at(mem, at(pool, PTR_SIZE + 4)?)? as usize;
    if current >= FNAME_BLOCK_OFFSETS {
        return Err(DumpError::BadNamePool);
    }
    let full = width * 65536;
    let mut names = NamePool::new();
    let mut idx: u32 = 0;
    while idx <= current
        invariant
            stride == 1 || stride == 2,
            width == stride as usize,
            full == width * 65536,
            current < 65536,
        decreases current + 1 - idx,
    {
        let size = if idx == current { cursor } else { full };
        if size > full {
            return Err(DumpError::BadNamePool);
        }
        let block = ptr_at(mem, at(pool, PTR_SIZE + 8 + (idx as usize) * PTR_SIZE)?)?;
        let bytes = match mem.read_buf(block, size) {
            Ok(b) => b,
            Err(e) => return Err(DumpError::Read(e)),
        };
        let entries = parse_block(&bytes, size, width, idx);
        let mut rest = entries;
        while rest.len() > 0
            decreases rest@.len(),
        {
            let (id, name) = rest.remove(0);
            names.0.insert(id, name);
        }
        idx = idx + 1;
    }
    Ok(names)
}

/// The pointer in slot `i` of the object table whose chunk array is at
/// `chunks`: chunk `i / 65536`, slot `i % 65536`, items `item_size` bytes.
pub open spec fn slot_model<M: MemoryReader>(mem: &M, chunks: int, item_size: int, i: int) -> usize {
    let chunk = model_ptr(mem, chunks + (i / OBJECTS_PER_CHUNK as int) * PTR_SIZE as int);
    model_ptr(mem, chunk + (i % OBJECTS_PER_CHUNK as int) * item_size)
}

/// The non-null pointers among the first `n` slots, in slot order.
pub open spec fn live_slots<M: MemoryReader>(mem: &M, chunks: int, item_size: int, n: nat) -> Seq<usize>
    decreases n,
{
    if n == 0 {
        Seq::empty()
    } else {
        let prev = live_slots(mem, chunks, item_size, (n - 1) as nat);
        let v = slot_model(mem, chunks, item_size, n - 1);
        if v != 0 { prev.push(v) } else { prev }
    }
}

/// The non-null object pointers of the chunked object table at `table`, in
/// table order: the table holds the chunk array's address and, at byte 20,
/// the element count.
pub fn dump_objects<M: MemoryReader>(mem: &M, table: usize, item_size: usize) -> (r: Result<
    Vec<usize>,
    DumpError,
>)
    ensures
        r is Ok ==> r->Ok_0@ == live_slots(
            mem,
            model_ptr(mem, table as int) as int,
            item_size as int,
            model_u32(mem, table + 2 * PTR_SIZE + 4) as nat,
        ),
{
    let num = u32_at(mem, at(table, 2 * PTR_SIZE + 4)?)? as usize;
    let chunks = ptr_at(mem, table)?;
    let mut out: Vec<usize> = Vec::new();
    let mut i: usize = 0;
    while i < num
        invariant
            0 <= i <= num,
            out@ == live_slots(mem, chunks as int, item_size as int, i as nat),
        decreases num - i,
    {
        let chunk_off = match (i / OBJECTS_PER_CHUNK).checked_mul(PTR_SIZE) {
            Some(v) => v,
            None => return Err(DumpError::Overflow(chunks)),
        };
        let chunk = ptr_at(mem, at(chunks, chunk_off)?)?;
        let slot_off = match (i % OBJECTS_PER_CHUNK).checked_mul(item_size) {
            Some(v) => v,
            None => return Err(DumpError::Overflow(chunk)),
        };
        let object = ptr_at(mem, at(chunk, slot_off)?)?;
        assert(object == slot_model(mem, chunks as int, item_size as int, i as int));
        if object != 0 {
            out.push(object);
        }
        i = i + 1;
    }
    Ok(out)
}

} // verus!

verus! {

pub open spec fn level_actors_of(config: &Config) -> Option<usize> {
    match config.level_actors {
        Some(v) => Some(v as usize),
        None => None,
    }
}

/// Reads the target whose image starts at `image_base` and builds its type
/// graph: the name pool and object table at the offsets `options` gives,
/// then every reflected object, then the graph as `build_sdk` makes it.
pub fn dump_sdk<M: MemoryReader>(mem: &M, config: &Config, options: &DumperOptions, image_base: usize) -> (r:
    Result<Sdk, DumpError>)
    ensures
        image_base + options.names > usize::MAX ==> r is Err,
        image_base + options.objects > usize::MAX ==> r is Err,
        r is Ok ==> r->Ok_0.wf() && contained(&r->Ok_0),
        r is Ok ==> exists|raw: Seq<RawObject>| built(raw, options, level_actors_of(config), &r->Ok_0),
        r is Ok && !options.allow_cycles ==> is_dag(&r->Ok_0),
{
    let names = dump_names(mem, at(image_base, options.names)?, config.stride)?;
    let objects = dump_objects(mem, at(image_base, options.objects)?, config.fuobject_item.size)?;
    let raw = read_objects(mem, config, &names, &objects)?;
    let ghost raw_v = raw@;
    let level_actors = match config.level_actors {
        Some(v) => Some(v as usize),
        None => None,
    };
    assert(level_actors == level_actors_of(config));
    match build_sdk(raw, options, level_actors) {
        Ok(sdk) => {
            assert(built(raw_v, options, level_actors_of(config), &sdk));
            Ok(sdk)
        },
        Err(e) => Err(DumpError::Index(e)),
    }
}

} // verus!
