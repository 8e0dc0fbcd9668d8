use vstd::prelude::*;
use crate::bitfield::{
    accumulate_step, flushed, AccView, AccumulatorResult, BitfieldAccumulator, BitfieldGroup,
    BoolVars, GroupView, ResultView, groups_view,
};
use crate::fqn::Fqn;
use crate::ident::{
    chars_eq, chars_of, decimal_of, sanitize_chars, sanitized, string_of, suffixed,
};
use crate::layout::Layout;
use crate::model::{kind_view, Field, FieldOptions, IndexError, KindView, PropertyKind, Struct};

verus! {

broadcast use vstd::seq_lib::group_to_multiset_ensures;

/// What the field walk reads of one property of a struct.
#[derive(Debug)]
pub struct RawProperty {
    /// The name as read, before sanitizing.
    pub name: String,
    pub kind: PropertyKind,
    pub options: FieldOptions,
    /// Layout variables, read for a boolean property.
    pub bool_vars: Option<BoolVars>,
}

/// A field as the contracts see it: a property's name and placement, or a
/// bitfield group.
pub enum FieldView {
    Property(Seq<char>, KindView, FieldOptions),
    Bitfields(GroupView),
}

pub open spec fn field_view(f: Field) -> FieldView {
    match f {
        Field::Property { name, kind, options } => FieldView::Property(name@, kind_view(kind), options),
        Field::Bitfields(g) => FieldView::Bitfields(g@),
    }
}

pub open spec fn fields_view(fs: Seq<Field>) -> Seq<FieldView> {
    fs.map_values(|f: Field| field_view(f))
}

/// Number of times `n` occurs in `s`.
pub open spec fn count_of(s: Seq<Seq<char>>, n: Seq<char>) -> nat
    decreases s.len(),
{
    if s.len() == 0 {
        0
    } else {
        count_of(s.drop_last(), n) + if s.last() == n { 1nat } else { 0nat }
    }
}

/// The `i`-th name, suffixed with `_<k>` when it is the `k`-th occurrence of
/// that name and `k` is at least 2.
pub open spec fn deduped(names: Seq<Seq<char>>, i: int) -> Seq<char> {
    let k = count_of(names.take(i), names[i]);
    if k == 0 { names[i] } else { suffixed(names[i], k as int + 1) }
}

pub open spec fn dedup_names(names: Seq<Seq<char>>) -> Seq<Seq<char>> {
    Seq::new(names.len(), |i: int| deduped(names, i))
}

fn count_before(names: &Vec<Vec<char>>, i: usize) -> (r: usize)
    requires
        i < names@.len(),
    ensures
        r == count_of(names@.map_values(|v: Vec<char>| v@).take(i as int), names@[i as int]@),
{
    let ghost s = names@.map_values(|v: Vec<char>| v@);
    let mut k: usize = 0;
    let mut j: usize = 0;
    while j < i
        invariant
            0 <= j <= i < names@.len(),
            s == names@.map_values(|v: Vec<char>| v@),
            k == count_of(s.take(j as int), s[i as int]),
            k <= j,
        decreases i - j,
    {
        assert(s.take(j + 1).drop_last() =~= s.take(j as int));
        if chars_eq(&names[j], &names[i]) {
            k = k + 1;
        }
        j = j + 1;
    }
    k
}

/// Sanitized property names, each repeat suffixed with its occurrence count.
pub fn dedup_field_names(props: &Vec<RawProperty>) -> (r: Vec<Vec<char>>)
    ensures
        r@.map_values(|v: Vec<char>| v@) == dedup_names(
            props@.map_values(|p: RawProperty| sanitized(p.name@)),
        ),
{
    let ghost want = props@.map_values(|p: RawProperty| sanitized(p.name@));
    let mut names: Vec<Vec<char>> = Vec::new();
    let mut i: usize = 0;
    while i < props.len()
        invariant
            0 <= i <= props@.len(),
            want == props@.map_values(|p: RawProperty| sanitized(p.name@)),
            names@.map_values(|v: Vec<char>| v@) =~= want.take(i as int),
        decreases props@.len() - i,
    {
        let ghost before = names@.map_values(|v: Vec<char>| v@);
        let cs = sanitize_chars(&chars_of(props[i].name.as_str()));
        assert(cs@ == want[i as int]);
        names.push(cs);
        assert(names@.map_values(|v: Vec<char>| v@) =~= before.push(want[i as int]));
        assert(want.take(i + 1) =~= want.take(i as int).push(want[i as int]));
        i = i + 1;
        assert(names@.map_values(|v: Vec<char>| v@) =~= want.take(i as int));
    }
    assert(want.take(i as int) =~= want);
    let mut out: Vec<Vec<char>> = Vec::new();
    let mut i: usize = 0;
    while i < names.len()
        invariant
            0 <= i <= names@.len(),
            names@.map_values(|v: Vec<char>| v@) == want,
            out@.map_values(|v: Vec<char>| v@) =~= dedup_names(want).take(i as int),
        decreases names@.len() - i,
    {
        let k = count_before(&names, i);
        assert(names@[i as int]@ == want[i as int]);
        assert(names@.map_values(|v: Vec<char>| v@).take(i as int) =~= want.take(i as int));
        let ghost before = out@.map_values(|v: Vec<char>| v@);
        assert(dedup_names(want).take(i + 1) =~= dedup_names(want).take(i as int).push(
            deduped(want, i as int),
        ));
        if k == 0 {
            out.push(copy_chars(&names[i]));
        } else {
            let mut s = string_of(&names[i]);
            proof {
                reveal_strlit("_");
            }
            s.append("_");
            let d = decimal_of(k as i128 + 1);
            s.append(d.as_str());
            assert(s@ =~= suffixed(want[i as int], k as int + 1));
            out.push(chars_of(s.as_str()));
        }
        assert(out@.map_values(|v: Vec<char>| v@) =~= before.push(deduped(want, i as int)));
        i = i + 1;
    }
    assert(dedup_names(want).take(i as int) =~= dedup_names(want));
    out
}

fn copy_chars(v: &Vec<char>) -> (r: Vec<char>)
    ensures
        r@ == v@,
{
    let mut out: Vec<char> = Vec::new();
    let mut i: usize = 0;
    while i < v.len()
        invariant
            0 <= i <= v@.len(),
            out@ =~= v@.take(i as int),
        decreases v@.len() - i,
    {
        out.push(v[i]);
        i = i + 1;
        assert(out@ =~= v@.take(i as int));
    }
    assert(v@.take(i as int) =~= v@);
    out
}

/// A property as the walk sees it: its final name, the layout variables the
/// accumulator gets (a boolean's, none for another kind), and its placement.
pub type WalkItem = (Seq<char>, Option<BoolVars>, FieldOptions, KindView);

pub open spec fn acc_vars(p: RawProperty) -> Option<BoolVars> {
    if p.kind is Bool { p.bool_vars } else { None }
}

pub open spec fn walk_items(props: Seq<RawProperty>) -> Seq<WalkItem> {
    let names = dedup_names(props.map_values(|p: RawProperty| sanitized(p.name@)));
    Seq::new(
        props.len(),
        |i: int| (names[i], acc_vars(props[i]), props[i].options, kind_view(props[i].kind)),
    )
}

pub open spec fn as_fields(gs: Seq<GroupView>) -> Seq<FieldView> {
    gs.map_values(|g: GroupView| FieldView::Bitfields(g))
}

/// The accumulator's state and the fields emitted after walking `items`.
pub open spec fn walk(items: Seq<WalkItem>) -> (AccView, Seq<FieldView>)
    decreases items.len(),
{
    if items.len() == 0 {
        ((None, Seq::empty()), Seq::empty())
    } else {
        let (s, out) = walk(items.drop_last());
        let p = items.last();
        let (s2, r) = accumulate_step(s, p.0, p.1, p.2.offset);
        match r {
            ResultView::Skip => (s2, out),
            ResultView::Append(gs) => (s2, out + as_fields(gs) + seq![FieldView::Property(p.0, p.3, p.2)]),
        }
    }
}

/// The fields of a walk in emission order, with the last open group closed.
pub open spec fn walked_fields(items: Seq<WalkItem>) -> Seq<FieldView> {
    let (s, out) = walk(items);
    out + as_fields(flushed(s))
}

/// A boolean property must be a one-byte field whose bits sit at byte zero.
pub open spec fn bool_ok(p: RawProperty) -> bool {
    p.kind is Bool ==> (p.bool_vars is Some && p.bool_vars->0.byte_offset == 0
        && p.bool_vars->0.field_size == 1)
}

pub open spec fn sorted_by_offset(fs: Seq<Field>) -> bool {
    forall|i: int, j: int| 0 <= i < j < fs.len() ==> fs[i].spec_offset() <= fs[j].spec_offset()
}

fn push_groups(out: &mut Vec<Field>, groups: Vec<BitfieldGroup>)
    ensures
        fields_view(final(out)@) == fields_view(old(out)@) + as_fields(groups_view(groups@)),
{
    let ghost all = groups@;
    let ghost start = fields_view(out@);
    let mut rest = groups;
    let mut i: usize = 0;
    let n: usize = rest.len();
    while rest.len() > 0
        invariant
            0 <= i <= all.len(),
            all.len() == n,
            rest@ == all.subrange(i as int, all.len() as int),
            fields_view(out@) =~= start + as_fields(groups_view(all.take(i as int))),
        decreases rest@.len(),
    {
        let g = rest.remove(0);
        assert(g == all[i as int]);
        let ghost prev = out@;
        out.push(Field::Bitfields(g));
        assert(all.take(i + 1) =~= all.take(i as int).push(g));
        assert(groups_view(all.take(i + 1)) =~= groups_view(all.take(i as int)).push(g@));
        assert(fields_view(out@) =~= fields_view(prev).push(FieldView::Bitfields(g@)));
        i = i + 1;
        assert(rest@ =~= all.subrange(i as int, all.len() as int));
        assert(fields_view(out@) =~= start + as_fields(groups_view(all.take(i as int))));
    }
    assert(all.take(i as int) =~= all);
}

/// Walks a struct's properties in order: boolean bitfields that share a host
/// byte become one group, every other property becomes a field of its own.
/// Fails on the first boolean whose layout variables do not fit a bitfield.
pub fn collect_fields(props: Vec<RawProperty>) -> (r: Result<Vec<Field>, IndexError>)
    ensures
        r is Ok <==> (forall|i: int| 0 <= i < props@.len() ==> bool_ok(#[trigger] props@[i])),
        r is Err ==> r->Err_0 is BitfieldMismatch,
        r is Ok ==> fields_view(r->Ok_0@) == walked_fields(walk_items(props@)),
{
    let ghost all = props@;
    let ghost items = walk_items(all);
    let mut k: usize = 0;
    while k < props.len()
        invariant
            0 <= k <= props@.len(),
            forall|j: int| 0 <= j < k ==> bool_ok(#[trigger] props@[j]),
        decreases props@.len() - k,
    {
        let p = &props[k];
        if matches!(p.kind, PropertyKind::Bool) {
            match p.bool_vars {
                Some(v) => {
                    if v.byte_offset != 0 || v.field_size != 1 {
                        return Err(IndexError::BitfieldMismatch { offset: p.options.offset });
                    }
                },
                None => {
                    return Err(IndexError::BitfieldMismatch { offset: p.options.offset });
                },
            }
        }
        k = k + 1;
    }
    let names = dedup_field_names(&props);
    assert(names@.map_values(|v: Vec<char>| v@).len() == names@.len());
    let mut acc = BitfieldAccumulator::new();
    let mut out: Vec<Field> = Vec::new();
    let mut rest = props;
    let n: usize = rest.len();
    let mut i: usize = 0;
    assert(out@.len() == 0);
    assert(fields_view(out@) =~= walk(items.take(0)).1);
    while rest.len() > 0
        invariant
            0 <= i <= all.len(),
            all.len() == n,
            names@.len() == n,
            items == walk_items(all),
            names@.map_values(|v: Vec<char>| v@) == dedup_names(
                all.map_values(|p: RawProperty| sanitized(p.name@)),
            ),
            rest@ == all.subrange(i as int, all.len() as int),
            acc@ == walk(items.take(i as int)).0,
            fields_view(out@) == walk(items.take(i as int)).1,
        decreases rest@.len(),
    {
        let p = rest.remove(0);
        assert(p == all[i as int]);
        let ghost it = items[i as int];
        assert(items.take(i + 1).drop_last() =~= items.take(i as int));
        assert(items.take(i + 1).last() == it);
        let name = string_of(&names[i]);
        assert(name@ == it.0);
        let vars = if matches!(p.kind, PropertyKind::Bool) { p.bool_vars } else { None };
        let options = p.options;
        let res = acc.accumulate(name.as_str(), vars, options.offset);
        match res {
            AccumulatorResult::Skip => {},
            AccumulatorResult::Append(groups) => {
                push_groups(&mut out, groups);
                let ghost before = fields_view(out@);
                out.push(Field::Property { name, kind: p.kind, options });
                assert(fields_view(out@) =~= before.push(FieldView::Property(it.0, it.3, it.2)));
            },
        }
        i = i + 1;
        assert(rest@ =~= all.subrange(i as int, all.len() as int));
    }
    assert(items.take(i as int) =~= items);
    let rest_groups = acc.flush_all();
    push_groups(&mut out, rest_groups);
    Ok(out)
}

/// Sorts fields by offset, keeping the order of fields at equal offsets.
pub fn sort_fields(fields: Vec<Field>) -> (r: Vec<Field>)
    ensures
        sorted_by_offset(r@),
        r@.to_multiset() == fields@.to_multiset(),
{
    let ghost all = fields@;
    let mut rest = fields;
    let mut out: Vec<Field> = Vec::new();
    let mut i: usize = 0;
    let n: usize = rest.len();
    while rest.len() > 0
        invariant
            0 <= i <= all.len(),
            all.len() == n,
            rest@ == all.subrange(i as int, all.len() as int),
            sorted_by_offset(out@),
            out@.to_multiset() == all.take(i as int).to_multiset(),
        decreases rest@.len(),
    {
        let f = rest.remove(0);
        assert(f == all[i as int]);
        let off = f.offset();
        let mut j: usize = out.len();
        while j > 0 && out[j - 1].offset() > off
            invariant
                0 <= j <= out@.len(),
                forall|k: int| j <= k < out@.len() ==> out@[k].spec_offset() > off,
            decreases j,
        {
            j = j - 1;
        }
        let ghost before = out@;
        out.insert(j, f);
        proof {
            assert(all.take(i + 1) =~= all.take(i as int).push(f));
            vstd::seq_lib::to_multiset_insert(before, j as int, f);
            assert forall|a: int, b: int| 0 <= a < b < out@.len() implies out@[a].spec_offset()
                <= out@[b].spec_offset() by {
                if a < j && b == j {
                    if j > 0 {
                        assert(before[j - 1].spec_offset() <= off);
                        assert(before[a].spec_offset() <= before[j - 1].spec_offset());
                    }
                } else if a == j && b > j {
                    assert(out@[b] == before[b - 1]);
                } else if a < j && b > j {
                    assert(out@[b] == before[b - 1]);
                } else if a > j {
                    assert(out@[a] == before[a - 1]);
                    assert(out@[b] == before[b - 1]);
                }
            }
        }
        i = i + 1;
        assert(rest@ =~= all.subrange(i as int, all.len() as int));
    }
    assert(all.take(i as int) =~= all);
    out
}

} // verus!

verus! {

/// What the indexer reads of a struct or class.
#[derive(Debug)]
pub struct RawStruct {
    pub fqn: Fqn,
    pub index: u32,
    pub is_uobject: bool,
    pub size: usize,
    pub align: usize,
    pub parent: Option<Fqn>,
    /// The struct itself, then each super struct up to the root.
    pub chain: Vec<Fqn>,
    pub props: Vec<RawProperty>,
}

pub open spec fn chain_has(chain: Seq<Fqn>, package: Seq<char>, name: Seq<char>) -> bool {
    exists|i: int| 0 <= i < chain.len() && chain[i]@ == (package, name)
}

pub open spec fn actor_fqn() -> (Seq<char>, Seq<char>) {
    (seq!['E', 'n', 'g', 'i', 'n', 'e'], seq!['A', 'c', 't', 'o', 'r'])
}

pub open spec fn object_fqn() -> (Seq<char>, Seq<char>) {
    (
        seq!['C', 'o', 'r', 'e', 'U', 'O', 'b', 'j', 'e', 'c', 't'],
        seq!['O', 'b', 'j', 'e', 'c', 't'],
    )
}

pub open spec fn level_fqn() -> (Seq<char>, Seq<char>) {
    (seq!['E', 'n', 'g', 'i', 'n', 'e'], seq!['L', 'e', 'v', 'e', 'l'])
}

/// `A` for an actor, `U` for another object, `F` for a plain struct.
pub open spec fn prefix_of(chain: Seq<Fqn>) -> char {
    if chain_has(chain, actor_fqn().0, actor_fqn().1) {
        'A'
    } else if chain_has(chain, object_fqn().0, object_fqn().1) {
        'U'
    } else {
        'F'
    }
}

pub(crate) fn fqn_is(f: &Fqn, package: &str, name: &str) -> (r: bool)
    ensures
        r == (f@ == (package@, name@)),
{
    let a = chars_of(f.package());
    let b = chars_of(package);
    let c = chars_of(f.name());
    let d = chars_of(name);
    chars_eq(&a, &b) && chars_eq(&c, &d)
}

fn chain_contains(chain: &Vec<Fqn>, package: &str, name: &str) -> (r: bool)
    ensures
        r == chain_has(chain@, package@, name@),
{
    let mut i: usize = 0;
    while i < chain.len()
        invariant
            0 <= i <= chain@.len(),
            forall|j: int| 0 <= j < i ==> chain@[j]@ != (package@, name@),
        decreases chain@.len() - i,
    {
        if fqn_is(&chain[i], package, name) {
            return true;
        }
        i = i + 1;
    }
    false
}

/// The letter that starts a struct's identifier, from its inheritance chain.
pub fn select_prefix(chain: &Vec<Fqn>) -> (r: char)
    ensures
        r == prefix_of(chain@),
{
    proof {
        reveal_strlit("Engine");
        reveal_strlit("Actor");
        reveal_strlit("CoreUObject");
        reveal_strlit("Object");
    }
    assert("Engine"@ =~= actor_fqn().0);
    assert("Actor"@ =~= actor_fqn().1);
    assert("CoreUObject"@ =~= object_fqn().0);
    assert("Object"@ =~= object_fqn().1);
    if chain_contains(chain, "Engine", "Actor") {
        'A'
    } else if chain_contains(chain, "CoreUObject", "Object") {
        'U'
    } else {
        'F'
    }
}

/// Byte size of one entry of the synthesized `Actors` array.
pub const ACTORS_ELEM_SIZE: usize = 0x10;

pub open spec fn actors_name() -> Seq<char> {
    seq!['A', 'c', 't', 'o', 'r', 's']
}

/// The fields synthesized before the walk: a level's actor list where its
/// offset is configured.
pub open spec fn synthesized(fqn: Fqn, level_actors: Option<usize>) -> Seq<FieldView> {
    if fqn@ == level_fqn() && level_actors is Some {
        seq![
            FieldView::Property(
                actors_name(),
                KindView::Vector(Box::new(KindView::Ptr(actor_fqn()))),
                FieldOptions {
                    offset: level_actors->0,
                    elem_size: ACTORS_ELEM_SIZE,
                    array_dim: 1,
                },
            ),
        ]
    } else {
        Seq::empty()
    }
}

/// `s` is the struct that indexing `raw` makes: the prefixed identifier, the
/// record's layout and parent, no shrink and no functions yet, and the
/// synthesized and walked fields sorted by offset.
pub open spec fn struct_from(raw: RawStruct, level_actors: Option<usize>, s: Struct) -> bool {
    &&& s.fqn@ == raw.fqn@
    &&& s.index == raw.index
    &&& s.is_uobject == raw.is_uobject
    &&& s.ident@ == seq![prefix_of(raw.chain@)] + sanitized(raw.fqn@.1)
    &&& s.layout == Layout { size: raw.size, align: raw.align }
    &&& s.parent == raw.parent
    &&& s.shrink is None
    &&& s.functions@.len() == 0
    &&& sorted_by_offset(s.fields@)
    &&& exists|w: Seq<Field>|
        #![trigger w.to_multiset()]
        w.to_multiset() == s.fields@.to_multiset() && fields_view(w) == synthesized(
            raw.fqn,
            level_actors,
        ) + walked_fields(walk_items(raw.props@))
}

/// Indexes a struct or class. Its identifier is the inheritance prefix
/// followed by its sanitized name; its fields are those of the walk after
/// any synthesized ones, sorted by offset. Fails exactly where the walk does.
pub fn index_struct(raw: RawStruct, level_actors: Option<usize>) -> (r: Result<Struct, IndexError>)
    ensures
        r is Ok <==> (forall|i: int|
            0 <= i < raw.props@.len() ==> bool_ok(#[trigger] raw.props@[i])),
        r is Err ==> r->Err_0 is BitfieldMismatch,
        r is Ok ==> struct_from(raw, level_actors, r->Ok_0),
{
    let RawStruct { fqn, index, is_uobject, size, align, parent, chain, props } = raw;
    let prefix = select_prefix(&chain);
    let mut ident_chars: Vec<char> = vec![prefix];
    let name_chars = sanitize_chars(&chars_of(fqn.name()));
    let mut j: usize = 0;
    while j < name_chars.len()
        invariant
            0 <= j <= name_chars@.len(),
            ident_chars@ =~= seq![prefix] + name_chars@.take(j as int),
        decreases name_chars@.len() - j,
    {
        ident_chars.push(name_chars[j]);
        j = j + 1;
        assert(ident_chars@ =~= seq![prefix] + name_chars@.take(j as int));
    }
    assert(name_chars@.take(j as int) =~= name_chars@);
    let ident = string_of(&ident_chars);
    let mut fields: Vec<Field> = Vec::new();
    proof {
        reveal_strlit("Engine");
        reveal_strlit("Level");
        reveal_strlit("Actors");
    }
    assert("Engine"@ =~= level_fqn().0);
    assert("Level"@ =~= level_fqn().1);
    assert("Actors"@ =~= actors_name());
    if fqn_is(&fqn, "Engine", "Level") {
        match level_actors {
            Some(offset) => {
                proof {
                    reveal_strlit("Actor");
                }
                assert("Actor"@ =~= actor_fqn().1);
                let actor = Fqn::from_package_name("Engine", "Actor");
                assert(actor@ == actor_fqn());
                assert(kind_view(PropertyKind::Ptr(actor)) == KindView::Ptr(actor_fqn()));
                fields.push(Field::Property {
                    name: "Actors".to_owned(),
                    kind: PropertyKind::Vec(Box::new(PropertyKind::Ptr(actor))),
                    options: FieldOptions { offset, elem_size: ACTORS_ELEM_SIZE, array_dim: 1 },
                });
            },
            None => {},
        }
    }
    assert(fields_view(fields@) =~= synthesized(fqn, level_actors));
    let ghost props_v = props@;
    let walked = collect_fields(props);
    match walked {
        Ok(ws) => {
            let ghost pre = fields@;
            let mut rest = ws;
            let ghost wsv = rest@;
            let n: usize = rest.len();
            let mut k: usize = 0;
            while rest.len() > 0
                invariant
                    0 <= k <= n,
                    wsv.len() == n,
                    rest@ == wsv.subrange(k as int, n as int),
                    fields@ =~= pre + wsv.take(k as int),
                decreases rest@.len(),
            {
                let f = rest.remove(0);
                fields.push(f);
                k = k + 1;
                assert(rest@ =~= wsv.subrange(k as int, n as int));
                assert(fields@ =~= pre + wsv.take(k as int));
            }
            assert(wsv.take(k as int) =~= wsv);
            assert(fields_view(fields@) =~= fields_view(pre) + fields_view(wsv));
            let ghost w = fields@;
            let sorted = sort_fields(fields);
            let s = Struct {
                fqn,
                index,
                is_uobject,
                parent,
                ident,
                shrink: None,
                layout: Layout { size, align },
                fields: sorted,
                functions: Vec::new(),
            };
            assert(w.to_multiset() == s.fields@.to_multiset());
            Ok(s)
        },
        Err(e) => Err(e),
    }
}

} // verus!
