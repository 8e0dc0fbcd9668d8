use vstd::prelude::*;
use crate::ident::{chars_of, string_of, copy_range};

verus! {

/// Fully-qualified name of a reflected type: its package and its own name.
#[derive(Debug, Clone, Eq, Hash)]
pub struct Fqn {
    pub package: String,
    pub name: String,
}

impl View for Fqn {
    type V = (Seq<char>, Seq<char>);

    open spec fn view(&self) -> (Seq<char>, Seq<char>) {
        (self.package@, self.name@)
    }
}

impl PartialEq for Fqn {
    fn eq(&self, o: &Fqn) -> (r: bool)
        ensures
            r == (self@ == o@),
    {
        self.package == o.package && self.name == o.name
    }
}

impl vstd::std_specs::cmp::PartialEqSpecImpl for Fqn {
    open spec fn obeys_eq_spec() -> bool {
        true
    }

    open spec fn eq_spec(&self, o: &Fqn) -> bool {
        self@ == o@
    }
}

/// Index of the first `.` in `s` at or after `i`, or -1.
pub open spec fn first_dot_from(s: Seq<char>, i: int) -> int
    decreases s.len() - i,
{
    if i < 0 || i >= s.len() {
        -1
    } else if s[i] == '.' {
        i
    } else {
        first_dot_from(s, i + 1)
    }
}

/// `package.name` split at its first dot.
pub open spec fn split_fqn(s: Seq<char>) -> (Seq<char>, Seq<char>) {
    let k = first_dot_from(s, 0);
    (s.subrange(0, k), s.subrange(k + 1, s.len() as int))
}

/// The dotted text `package.name` of a name pair.
pub open spec fn dotted(v: (Seq<char>, Seq<char>)) -> Seq<char> {
    v.0 + seq!['.'] + v.1
}

proof fn lemma_first_dot_skip(s: Seq<char>, a: int, b: int)
    requires
        0 <= a <= b,
        forall|j: int| a <= j < b ==> s[j] != '.',
    ensures
        first_dot_from(s, a) == first_dot_from(s, b),
    decreases b - a,
{
    if a < b {
        lemma_first_dot_skip(s, a + 1, b);
    }
}

proof fn lemma_first_dot_found(s: Seq<char>, a: int)
    requires
        0 <= a,
        s.contains('.'),
        forall|j: int| 0 <= j < a ==> s[j] != '.',
    ensures
        0 <= first_dot_from(s, a) < s.len(),
        s[first_dot_from(s, a)] == '.',
    decreases s.len() - a,
{
    if a >= s.len() {
        let j = choose|j: int| 0 <= j < s.len() && s[j] == '.';
        assert(false);
    } else if s[a] != '.' {
        lemma_first_dot_found(s, a + 1);
    }
}

impl Fqn {
    /// Splits `package.name` at its first dot.
    pub fn new(ident: &str) -> (r: Fqn)
        requires
            ident@.contains('.'),
        ensures
            r@ == split_fqn(ident@),
    {
        let cs = chars_of(ident);
        let mut i: usize = 0;
        while i < cs.len() && cs[i] != '.'
            invariant
                0 <= i <= cs@.len(),
                cs@ == ident@,
                forall|j: int| 0 <= j < i ==> cs@[j] != '.',
            decreases cs@.len() - i,
        {
            i = i + 1;
        }
        proof {
            lemma_first_dot_skip(cs@, 0, i as int);
            lemma_first_dot_found(cs@, i as int);
        }
        let package = copy_range(&cs, 0, i);
        let name = copy_range(&cs, i + 1, cs.len());
        Fqn { package: string_of(&package), name: string_of(&name) }
    }

    /// Whether `s` is this name written as `package.name`.
    pub fn eq_str(&self, s: &str) -> (r: bool)
        ensures
            r == (s@ == dotted(self@)),
    {
        let cs = chars_of(s);
        let p = chars_of(self.package.as_str());
        let n = chars_of(self.name.as_str());
        let ghost d = dotted(self@);
        if cs.len() == 0 || cs.len() - 1 < p.len() || cs.len() - 1 - p.len() != n.len() {
            assert(s@.len() != d.len());
            return false;
        }
        let mut i: usize = 0;
        while i < cs.len()
            invariant
                cs@ == s@,
                d == dotted(self@),
                d == p@ + seq!['.'] + n@,
                cs@.len() == d.len(),
                0 <= i <= cs@.len(),
                forall|j: int| 0 <= j < i ==> cs@[j] == d[j],
            decreases cs@.len() - i,
        {
            let expected = if i < p.len() {
                p[i]
            } else if i == p.len() {
                '.'
            } else {
                n[i - p.len() - 1]
            };
            assert(expected == d[i as int]);
            if cs[i] != expected {
                assert(cs@[i as int] != d[i as int]);
                assert(s@ != dotted(self@));
                return false;
            }
            i = i + 1;
        }
        assert(cs@ =~= d);
        true
    }

    /// A name made of its two parts.
    pub fn from_package_name(package: &str, name: &str) -> (r: Fqn)
        ensures
            r@ == (package@, name@),
    {
        Fqn { package: package.to_owned(), name: name.to_owned() }
    }

    pub fn package(&self) -> (r: &str)
        ensures
            r@ == self@.0,
    {
        self.package.as_str()
    }

    pub fn name(&self) -> (r: &str)
        ensures
            r@ == self@.1,
    {
        self.name.as_str()
    }

    /// A copy of this name.
    pub fn copy(&self) -> (r: Fqn)
        ensures
            r@ == self@,
    {
        Fqn { package: self.package.clone(), name: self.name.clone() }
    }
}

} // verus!
