use vstd::prelude::*;
use vstd::std_specs::iter::IteratorSpec;

verus! {

/// The characters of `s` in order.
pub(crate) fn chars_of(s: &str) -> (r: Vec<char>)
    ensures
        r@ == s@,
{
    broadcast use vstd::string::axiom_spec_iter, vstd::string::next_postcondition;
    let mut it = s.chars();
    let mut out: Vec<char> = Vec::new();
    loop
        invariant
            it.obeys_prophetic_iter_laws() ==> out@ + it.remaining() == s@,
            it.obeys_prophetic_iter_laws(),
            it.decrease() is Some,
        ensures
            out@ == s@,
        decreases it.decrease()->0,
    {
        match it.next() {
            Some(c) => {
                out.push(c);
            },
            None => {
                assert(out@ + it.remaining() == s@);
                assert(it.remaining().len() == 0);
                assert(out@ =~= s@);
                break;
            },
        }
    }
    out
}

/// Relies on `String::from_iter` over `&char`: the string made of `v`'s
/// characters in order.
#[verifier::external_body]
pub(crate) fn string_of(v: &Vec<char>) -> (r: String)
    ensures
        r@ == v@,
{
    String::from_iter(v.iter())
}

/// Relies on `i128::to_string`: the decimal text of `v`, with a leading `-` when negative.
#[verifier::external_body]
pub(crate) fn decimal_of(v: i128) -> (r: String)
    ensures
        r@ == int_text(v as int),
{
    v.to_string()
}

pub open spec fn digit(d: int) -> char {
    if d == 0 { '0' }
    else if d == 1 { '1' }
    else if d == 2 { '2' }
    else if d == 3 { '3' }
    else if d == 4 { '4' }
    else if d == 5 { '5' }
    else if d == 6 { '6' }
    else if d == 7 { '7' }
    else if d == 8 { '8' }
    else { '9' }
}

/// Decimal digits of a natural number, most significant first.
pub open spec fn nat_text(n: nat) -> Seq<char>
    decreases n,
{
    if n < 10 {
        seq![digit(n as int)]
    } else {
        nat_text(n / 10).push(digit((n % 10) as int))
    }
}

/// Decimal text of an integer, with `-` before a negative one.
pub open spec fn int_text(v: int) -> Seq<char> {
    if v < 0 {
        seq!['-'] + nat_text((-v) as nat)
    } else {
        nat_text(v as nat)
    }
}

/// `name`, an underscore, and the decimal text of `v`.
pub open spec fn suffixed(name: Seq<char>, v: int) -> Seq<char> {
    name + seq!['_'] + int_text(v)
}

pub open spec fn is_ident_char(c: char) -> bool {
    ('a' <= c && c <= 'z') || ('A' <= c && c <= 'Z') || ('0' <= c && c <= '9') || c == '_'
}

pub open spec fn ident_char(c: char) -> char {
    if is_ident_char(c) { c } else { '_' }
}

/// The reserved word `Self` becomes `This`; otherwise every character outside
/// `[A-Za-z0-9_]` becomes `_`.
pub open spec fn sanitized(s: Seq<char>) -> Seq<char> {
    if s == seq!['S', 'e', 'l', 'f'] {
        seq!['T', 'h', 'i', 's']
    } else {
        s.map_values(|c: char| ident_char(c))
    }
}

/// Index of the last `/` in `s`, or -1.
pub open spec fn last_slash(s: Seq<char>) -> int
    decreases s.len(),
{
    if s.len() == 0 {
        -1
    } else if s.last() == '/' {
        s.len() - 1
    } else {
        last_slash(s.drop_last())
    }
}

/// What follows the last `/` of a package path, or the whole path.
pub open spec fn package_tail(s: Seq<char>) -> Seq<char> {
    s.subrange(last_slash(s) + 1, s.len() as int)
}

pub open spec fn is_sep_at(s: Seq<char>, i: int) -> bool {
    0 <= i && i + 1 < s.len() && s[i] == ':' && s[i + 1] == ':'
}

/// Index of the first `::` in `s` at or after `i`, or -1.
pub open spec fn first_sep_from(s: Seq<char>, i: int) -> int
    decreases s.len() - i,
{
    if i < 0 || i + 1 >= s.len() {
        -1
    } else if is_sep_at(s, i) {
        i
    } else {
        first_sep_from(s, i + 1)
    }
}

/// What follows the first `::` of `s` (an enum's type-name prefix), or the whole of `s`.
pub open spec fn after_type_prefix(s: Seq<char>) -> Seq<char> {
    let k = first_sep_from(s, 0);
    if k < 0 { s } else { s.subrange(k + 2, s.len() as int) }
}

pub open spec fn ends_with_max(s: Seq<char>) -> bool {
    s.len() >= 4 && s.subrange(s.len() - 4, s.len() as int) == seq!['_', 'M', 'A', 'X']
}

pub(crate) fn chars_eq(a: &Vec<char>, b: &Vec<char>) -> (r: bool)
    ensures
        r == (a@ == b@),
{
    if a.len() != b.len() {
        return false;
    }
    let mut i: usize = 0;
    while i < a.len()
        invariant
            a@.len() == b@.len(),
            0 <= i <= a@.len(),
            forall|j: int| 0 <= j < i ==> a@[j] == b@[j],
        decreases a@.len() - i,
    {
        if a[i] != b[i] {
            return false;
        }
        i = i + 1;
    }
    assert(a@ =~= b@);
    true
}

fn is_ident_char_exec(c: char) -> (r: bool)
    ensures
        r == is_ident_char(c),
{
    ('a' <= c && c <= 'z') || ('A' <= c && c <= 'Z') || ('0' <= c && c <= '9') || c == '_'
}

pub(crate) fn sanitize_chars(s: &Vec<char>) -> (r: Vec<char>)
    ensures
        r@ == sanitized(s@),
{
    let reserved: Vec<char> = vec!['S', 'e', 'l', 'f'];
    if chars_eq(s, &reserved) {
        assert(s@ =~= seq!['S', 'e', 'l', 'f']);
        let r: Vec<char> = vec!['T', 'h', 'i', 's'];
        assert(r@ =~= seq!['T', 'h', 'i', 's']);
        return r;
    }
    assert(s@ != seq!['S', 'e', 'l', 'f']) by {
        assert(reserved@ =~= seq!['S', 'e', 'l', 'f']);
    }
    let mut out: Vec<char> = Vec::new();
    let mut i: usize = 0;
    while i < s.len()
        invariant
            0 <= i <= s@.len(),
            out@ =~= s@.subrange(0, i as int).map_values(|c: char| ident_char(c)),
        decreases s@.len() - i,
    {
        let c = s[i];
        if is_ident_char_exec(c) {
            out.push(c);
        } else {
            out.push('_');
        }
        i = i + 1;
        assert(out@ =~= s@.subrange(0, i as int).map_values(|c: char| ident_char(c)));
    }
    assert(s@.subrange(0, s@.len() as int) =~= s@);
    out
}

/// Turns a reflected name into an identifier: `Self` becomes `This`, and every
/// character outside `[A-Za-z0-9_]` becomes `_`.
pub fn sanitize_ident(ident: &str) -> (r: String)
    ensures
        r@ == sanitized(ident@),
{
    let cs = chars_of(ident);
    let out = sanitize_chars(&cs);
    string_of(&out)
}

proof fn lemma_last_slash_prefix(s: Seq<char>, i: int)
    requires
        0 <= i <= s.len(),
        forall|j: int| i <= j < s.len() ==> s[j] != '/',
    ensures
        last_slash(s) == last_slash(s.subrange(0, i)),
    decreases s.len() - i,
{
    if i < s.len() {
        assert(s.drop_last() =~= s.subrange(0, s.len() - 1));
        lemma_last_slash_prefix(s.drop_last(), i);
        assert(s.drop_last().subrange(0, i) =~= s.subrange(0, i));
    } else {
        assert(s.subrange(0, i) =~= s);
    }
}

proof fn lemma_last_slash_bounds(s: Seq<char>)
    ensures
        -1 <= last_slash(s) < s.len(),
    decreases s.len(),
{
    if s.len() > 0 && s.last() != '/' {
        lemma_last_slash_bounds(s.drop_last());
    }
}

pub(crate) fn copy_range(s: &Vec<char>, lo: usize, hi: usize) -> (r: Vec<char>)
    requires
        lo <= hi <= s@.len(),
    ensures
        r@ == s@.subrange(lo as int, hi as int),
{
    let mut out: Vec<char> = Vec::new();
    let mut i: usize = lo;
    while i < hi
        invariant
            lo <= i <= hi <= s@.len(),
            out@ =~= s@.subrange(lo as int, i as int),
        decreases hi - i,
    {
        out.push(s[i]);
        i = i + 1;
        assert(out@ =~= s@.subrange(lo as int, i as int));
    }
    out
}

pub(crate) fn package_tail_chars(s: &Vec<char>) -> (r: Vec<char>)
    ensures
        r@ == package_tail(s@),
{
    let mut i: usize = s.len();
    while i > 0 && s[i - 1] != '/'
        invariant
            0 <= i <= s@.len(),
            forall|j: int| i <= j < s@.len() ==> s@[j] != '/',
        decreases i,
    {
        i = i - 1;
    }
    proof {
        lemma_last_slash_prefix(s@, i as int);
        let p = s@.subrange(0, i as int);
        if i > 0 {
            assert(p.last() == '/');
        }
    }
    copy_range(s, i, s.len())
}

/// The last segment of a package path (`/Script/Engine` gives `Engine`).
pub fn strip_package_name(pkg: &str) -> (r: String)
    ensures
        r@ == package_tail(pkg@),
{
    let cs = chars_of(pkg);
    let out = package_tail_chars(&cs);
    string_of(&out)
}

proof fn lemma_first_sep_skip(s: Seq<char>, a: int, b: int)
    requires
        0 <= a <= b,
        forall|j: int| a <= j < b ==> !is_sep_at(s, j),
    ensures
        first_sep_from(s, a) == first_sep_from(s, b),
    decreases b - a,
{
    if a < b {
        lemma_first_sep_skip(s, a + 1, b);
    }
}

proof fn lemma_first_sep_none(s: Seq<char>, a: int)
    requires
        0 <= a,
        a + 1 >= s.len(),
    ensures
        first_sep_from(s, a) == -1,
{
}

proof fn lemma_first_sep_range(s: Seq<char>, a: int)
    requires
        0 <= a,
    ensures
        first_sep_from(s, a) == -1 || (a <= first_sep_from(s, a) && first_sep_from(s, a) + 1
            < s.len()),
    decreases s.len() - a,
{
    if a + 1 < s.len() && !is_sep_at(s, a) {
        lemma_first_sep_range(s, a + 1);
    }
}

pub(crate) fn after_type_prefix_chars(s: &Vec<char>) -> (r: Vec<char>)
    ensures
        r@ == after_type_prefix(s@),
{
    let mut i: usize = 0;
    while i < s.len() && i + 1 < s.len() && !(s[i] == ':' && s[i + 1] == ':')
        invariant
            0 <= i <= s@.len(),
            forall|j: int| 0 <= j < i ==> !is_sep_at(s@, j),
        decreases s@.len() - i,
    {
        i = i + 1;
    }
    proof {
        lemma_first_sep_skip(s@, 0, i as int);
    }
    if i < s.len() && i + 1 < s.len() {
        copy_range(s, i + 2, s.len())
    } else {
        proof {
            lemma_first_sep_none(s@, i as int);
        }
        copy_range(s, 0, s.len())
    }
}

pub(crate) fn ends_with_max_chars(s: &Vec<char>) -> (r: bool)
    ensures
        r == ends_with_max(s@),
{
    let n = s.len();
    if n < 4 {
        return false;
    }
    let r = s[n - 4] == '_' && s[n - 3] == 'M' && s[n - 2] == 'A' && s[n - 1] == 'X';
    let ghost tail = s@.subrange(n - 4, n as int);
    assert(r == (tail =~= seq!['_', 'M', 'A', 'X'])) by {
        assert(tail[0] == s@[n - 4]);
        assert(tail[1] == s@[n - 3]);
        assert(tail[2] == s@[n - 2]);
        assert(tail[3] == s@[n - 1]);
    }
    r
}

} // verus!
