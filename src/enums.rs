use vstd::prelude::*;
use crate::fqn::Fqn;
use crate::ident::{
    after_type_prefix, after_type_prefix_chars, chars_eq, chars_of, decimal_of, ends_with_max,
    ends_with_max_chars, sanitize_chars, sanitized, string_of, suffixed,
};
use crate::layout::Layout;
use crate::model::Enum;

verus! {

/// Whether `v` lies in `[iN::MIN, uN::MAX]` for an integer `size` bytes wide.
pub open spec fn fits(v: int, size: int) -> bool {
    if size == 1 {
        -0x80 <= v <= 0xFF
    } else if size == 2 {
        -0x8000 <= v <= 0xFFFF
    } else if size == 4 {
        -0x8000_0000 <= v <= 0xFFFF_FFFF
    } else {
        size == 8
    }
}

pub open spec fn all_fit(vs: Seq<i64>, size: int) -> bool {
    forall|i: int| 0 <= i < vs.len() ==> fits(vs[i] as int, size)
}

/// The smallest of 1, 2, 4 and 8 bytes whose signed-to-unsigned range holds
/// every value.
pub open spec fn enum_size(vs: Seq<i64>) -> int {
    if all_fit(vs, 1) {
        1
    } else if all_fit(vs, 2) {
        2
    } else if all_fit(vs, 4) {
        4
    } else {
        8
    }
}

pub open spec fn is_width(s: int) -> bool {
    s == 1 || s == 2 || s == 4 || s == 8
}

/// The width chosen for an enum holds every variant value, and no smaller
/// width among 1, 2, 4 and 8 bytes does.
pub proof fn lemma_enum_size_minimal(vs: Seq<i64>)
    ensures
        is_width(enum_size(vs)),
        all_fit(vs, enum_size(vs)),
        forall|s: int| is_width(s) && s < enum_size(vs) ==> !all_fit(vs, s),
{
    assert forall|s: int| is_width(s) && s < enum_size(vs) implies !all_fit(vs, s) by {
        if all_fit(vs, s) {
            if s == 2 {
                assert(!all_fit(vs, 1));
            } else if s == 4 {
                assert(!all_fit(vs, 1));
                let i = choose|i: int| 0 <= i < vs.len() && !fits(vs[i] as int, 2);
                assert(fits(vs[i] as int, 4));
            }
        }
    }
}

proof fn lemma_all_fit_push(vs: Seq<i64>, v: i64, size: int)
    ensures
        all_fit(vs.push(v), size) == (all_fit(vs, size) && fits(v as int, size)),
{
    let w = vs.push(v);
    if all_fit(w, size) {
        assert(fits(w[vs.len() as int] as int, size));
        assert forall|i: int| 0 <= i < vs.len() implies fits(vs[i] as int, size) by {
            assert(w[i] == vs[i]);
        }
    }
    if all_fit(vs, size) && fits(v as int, size) {
        assert forall|i: int| 0 <= i < w.len() implies fits(w[i] as int, size) by {
            if i < vs.len() {
                assert(w[i] == vs[i]);
            }
        }
    }
}

/// Width in bytes of the integer that stores an enum with these values.
pub fn pick_enum_size(values: &Vec<i64>) -> (r: usize)
    ensures
        r == enum_size(values@),
{
    let mut fit1 = true;
    let mut fit2 = true;
    let mut fit4 = true;
    let mut i: usize = 0;
    while i < values.len()
        invariant
            0 <= i <= values@.len(),
            fit1 == all_fit(values@.take(i as int), 1),
            fit2 == all_fit(values@.take(i as int), 2),
            fit4 == all_fit(values@.take(i as int), 4),
        decreases values@.len() - i,
    {
        let v = values[i];
        let ghost before = values@.take(i as int);
        assert(values@.take(i + 1) =~= before.push(v));
        proof {
            lemma_all_fit_push(before, v, 1);
            lemma_all_fit_push(before, v, 2);
            lemma_all_fit_push(before, v, 4);
        }
        fit1 = fit1 && -0x80 <= v && v <= 0xFF;
        fit2 = fit2 && -0x8000 <= v && v <= 0xFFFF;
        fit4 = fit4 && -0x8000_0000 <= v && v <= 0xFFFF_FFFF;
        i = i + 1;
    }
    assert(values@.take(i as int) =~= values@);
    if fit1 {
        1
    } else if fit2 {
        2
    } else if fit4 {
        4
    } else {
        8
    }
}

/// Identifier of a variant: its name without the enum's type prefix, sanitized.
pub open spec fn variant_ident(name: Seq<char>) -> Seq<char> {
    sanitized(after_type_prefix(name))
}

pub open spec fn variant_names(vs: Seq<(Seq<char>, i64)>) -> Seq<Seq<char>> {
    vs.map_values(|p: (Seq<char>, i64)| p.0)
}

/// The variants an enum keeps from its `(name, value)` table, in order: the
/// `_MAX` sentinel is dropped, and a repeated identifier gets `_<value>`.
pub open spec fn enum_variants(raw: Seq<(Seq<char>, i64)>) -> Seq<(Seq<char>, i64)>
    decreases raw.len(),
{
    if raw.len() == 0 {
        Seq::empty()
    } else {
        let prev = enum_variants(raw.drop_last());
        let (n, v) = raw.last();
        let id = variant_ident(n);
        if ends_with_max(id) {
            prev
        } else if variant_names(prev).contains(id) {
            prev.push((suffixed(id, v as int), v))
        } else {
            prev.push((id, v))
        }
    }
}

pub open spec fn pairs_view(vs: Seq<(String, i64)>) -> Seq<(Seq<char>, i64)> {
    vs.map_values(|p: (String, i64)| (p.0@, p.1))
}

fn name_taken(out: &Vec<(String, i64)>, id: &Vec<char>) -> (r: bool)
    ensures
        r == variant_names(pairs_view(out@)).contains(id@),
{
    let ghost names = variant_names(pairs_view(out@));
    let mut i: usize = 0;
    while i < out.len()
        invariant
            0 <= i <= out@.len(),
            names == variant_names(pairs_view(out@)),
            names.len() == out@.len(),
            forall|j: int| 0 <= j < i ==> names[j] != id@,
        decreases out@.len() - i,
    {
        let cs = chars_of(out[i].0.as_str());
        assert(names[i as int] == out@[i as int].0@);
        if chars_eq(&cs, id) {
            return true;
        }
        i = i + 1;
    }
    false
}

/// Builds the variant list of an enum from its resolved `(name, value)` table.
pub fn enum_variants_of(raw: &Vec<(String, i64)>) -> (r: Vec<(String, i64)>)
    ensures
        pairs_view(r@) == enum_variants(pairs_view(raw@)),
{
    let mut out: Vec<(String, i64)> = Vec::new();
    let mut i: usize = 0;
    while i < raw.len()
        invariant
            0 <= i <= raw@.len(),
            pairs_view(out@) == enum_variants(pairs_view(raw@).take(i as int)),
        decreases raw@.len() - i,
    {
        let ghost prefix = pairs_view(raw@).take(i + 1);
        assert(prefix.drop_last() =~= pairs_view(raw@).take(i as int));
        let name = chars_of(raw[i].0.as_str());
        let value = raw[i].1;
        let stripped = after_type_prefix_chars(&name);
        let id = sanitize_chars(&stripped);
        let ghost before = out@;
        if !ends_with_max_chars(&id) {
            if name_taken(&out, &id) {
                let text = string_of(&id);
                let mut s = text;
                proof {
                    reveal_strlit("_");
                }
                s.append("_");
                let d = decimal_of(value as i128);
                s.append(d.as_str());
                assert(s@ =~= suffixed(id@, value as int));
                out.push((s, value));
            } else {
                out.push((string_of(&id), value));
            }
            assert(pairs_view(out@) =~= enum_variants(prefix));
        }
        i = i + 1;
    }
    assert(pairs_view(raw@).take(i as int) =~= pairs_view(raw@));
    out
}

/// `e` is the enum that indexing `fqn` with the table `raw` makes.
pub open spec fn enum_from(fqn: Fqn, raw: Seq<(String, i64)>, e: Enum) -> bool {
    &&& e.fqn@ == fqn@
    &&& e.ident@ == sanitized(fqn@.1)
    &&& pairs_view(e.variants@) == enum_variants(pairs_view(raw))
    &&& e.layout.size == enum_size(e.variants@.map_values(|p: (String, i64)| p.1))
    &&& e.layout.align == e.layout.size
}

/// An enum record: its identifier is its sanitized name, its variants as
/// `enum_variants_of` gives them, and its size the narrowest that holds them.
pub fn index_enum(fqn: Fqn, raw: &Vec<(String, i64)>) -> (r: Enum)
    ensures
        enum_from(fqn, raw@, r),
{
    let variants = enum_variants_of(raw);
    let mut values: Vec<i64> = Vec::new();
    let mut i: usize = 0;
    while i < variants.len()
        invariant
            0 <= i <= variants@.len(),
            values@ =~= variants@.take(i as int).map_values(|p: (String, i64)| p.1),
        decreases variants@.len() - i,
    {
        values.push(variants[i].1);
        i = i + 1;
        assert(values@ =~= variants@.take(i as int).map_values(|p: (String, i64)| p.1));
    }
    assert(variants@.take(i as int) =~= variants@);
    let size = pick_enum_size(&values);
    let name = chars_of(fqn.name());
    let ident = string_of(&sanitize_chars(&name));
    Enum { fqn, ident, layout: Layout::same(size), variants }
}

} // verus!
