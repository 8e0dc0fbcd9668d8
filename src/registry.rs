use vstd::prelude::*;
use crate::ident::{chars_eq, chars_of};
use crate::layout::Layout;

verus! {

/// A fully-qualified name as one dotted string.
#[derive(Debug, Clone, PartialEq, Eq, Hash)]
pub struct IdName(pub String);

/// What the registry keeps beyond the owner: a struct's layout, or an enum's
/// least and greatest values.
#[derive(Debug, Clone, Copy)]
pub enum RegistrationExtra {
    ClassLayout(Layout),
    EnumMinMax(Option<(i64, i64)>),
}

impl RegistrationExtra {
    /// The value range of an enum entry.
    pub fn unwrap_enum(&self) -> (r: Option<(i64, i64)>)
        requires
            self is EnumMinMax,
        ensures
            r == self->EnumMinMax_0,
    {
        match self {
            RegistrationExtra::EnumMinMax(e) => *e,
            RegistrationExtra::ClassLayout(_) => None,
        }
    }
}

/// Owner package, identifier and extra data of a registered type.
#[derive(Debug)]
pub struct RegistrationData {
    pub package: String,
    pub code_name: String,
    pub extra: RegistrationExtra,
}

/// Registered types by name; the first registration of a name wins.
#[derive(Debug)]
pub struct PackageRegistry {
    pub packages: Vec<(IdName, RegistrationData)>,
}

pub open spec fn reg_keys(v: Seq<(IdName, RegistrationData)>) -> Seq<Seq<char>> {
    v.map_values(|e: (IdName, RegistrationData)| e.0.0@)
}

/// Index of the entry for `k`, or -1.
pub open spec fn key_index(keys: Seq<Seq<char>>, k: Seq<char>) -> int
    decreases keys.len(),
{
    if keys.len() == 0 {
        -1
    } else if keys.last() == k {
        keys.len() - 1
    } else {
        key_index(keys.drop_last(), k)
    }
}

proof fn lemma_key_index(keys: Seq<Seq<char>>, k: Seq<char>)
    ensures
        -1 <= key_index(keys, k) < keys.len(),
        key_index(keys, k) >= 0 ==> keys[key_index(keys, k)] == k,
        key_index(keys, k) == -1 <==> !keys.contains(k),
    decreases keys.len(),
{
    if keys.len() > 0 {
        lemma_key_index(keys.drop_last(), k);
        if keys.last() != k {
            if keys.contains(k) {
                let j = choose|j: int| 0 <= j < keys.len() && keys[j] == k;
                assert(keys.drop_last()[j] == k);
            }
            if keys.drop_last().contains(k) {
                let j = choose|j: int| 0 <= j < keys.len() - 1 && keys.drop_last()[j] == k;
                assert(keys[j] == k);
            }
        }
    }
}

proof fn lemma_key_index_push(keys: Seq<Seq<char>>, k: Seq<char>, n: Seq<char>)
    requires
        !keys.contains(n),
    ensures
        key_index(keys.push(n), k) == if k == n { keys.len() as int } else { key_index(keys, k) },
{
    assert(keys.push(n).drop_last() =~= keys);
}

fn find_key(entries: &Vec<(IdName, RegistrationData)>, k: &Vec<char>) -> (r: Option<usize>)
    ensures
        r is Some ==> r->0 < entries@.len() && reg_keys(entries@)[r->0 as int] == k@,
        r is None ==> !reg_keys(entries@).contains(k@),
{
    let ghost keys = reg_keys(entries@);
    let mut i: usize = 0;
    while i < entries.len()
        invariant
            0 <= i <= entries@.len(),
            keys == reg_keys(entries@),
            forall|j: int| 0 <= j < i ==> keys[j] != k@,
        decreases entries@.len() - i,
    {
        let name = chars_of(entries[i].0.0.as_str());
        if chars_eq(&name, k) {
            return Some(i);
        }
        i = i + 1;
    }
    None
}

impl PackageRegistry {
    pub open spec fn wf(&self) -> bool {
        reg_keys(self.packages@).no_duplicates()
    }

    pub fn new() -> (r: PackageRegistry)
        ensures
            r.wf(),
            r.packages@.len() == 0,
    {
        PackageRegistry { packages: Vec::new() }
    }

    fn register(&mut self, identifier: IdName, data: RegistrationData) -> (r: bool)
        requires
            old(self).wf(),
        ensures
            final(self).wf(),
            r == !reg_keys(old(self).packages@).contains(identifier.0@),
            r ==> final(self).packages@ == old(self).packages@.push((identifier, data)),
            !r ==> final(self).packages@ == old(self).packages@,
    {
        let k = chars_of(identifier.0.as_str());
        match find_key(&self.packages, &k) {
            Some(_) => false,
            None => {
                let ghost keys = reg_keys(self.packages@);
                self.packages.push((identifier, data));
                assert(reg_keys(self.packages@) =~= keys.push(k@));
                true
            },
        }
    }

    /// Registers a struct or class under `identifier`, unless the name is
    /// already registered.
    pub fn set_class_owner(
        &mut self,
        identifier: IdName,
        package: String,
        class_code_name: String,
        layout: Layout,
    ) -> (r: bool)
        requires
            old(self).wf(),
        ensures
            final(self).wf(),
            r == !reg_keys(old(self).packages@).contains(identifier.0@),
            r ==> final(self).packages@ == old(self).packages@.push(
                (
                    identifier,
                    RegistrationData {
                        package,
                        code_name: class_code_name,
                        extra: RegistrationExtra::ClassLayout(layout),
                    },
                ),
            ),
            !r ==> final(self).packages@ == old(self).packages@,
    {
        self.register(
            identifier,
            RegistrationData {
                package,
                code_name: class_code_name,
                extra: RegistrationExtra::ClassLayout(layout),
            },
        )
    }

    /// Registers an enum under `identifier`, unless the name is already
    /// registered.
    pub fn set_enum_owner(
        &mut self,
        identifier: IdName,
        package: String,
        enum_code_name: String,
        min_max: Option<(i64, i64)>,
    ) -> (r: bool)
        requires
            old(self).wf(),
        ensures
            final(self).wf(),
            r == !reg_keys(old(self).packages@).contains(identifier.0@),
            r ==> final(self).packages@ == old(self).packages@.push(
                (
                    identifier,
                    RegistrationData {
                        package,
                        code_name: enum_code_name,
                        extra: RegistrationExtra::EnumMinMax(min_max),
                    },
                ),
            ),
            !r ==> final(self).packages@ == old(self).packages@,
    {
        self.register(
            identifier,
            RegistrationData {
                package,
                code_name: enum_code_name,
                extra: RegistrationExtra::EnumMinMax(min_max),
            },
        )
    }

    /// The registration of `identifier`.
    pub fn lookup(&self, identifier: &IdName) -> (r: Option<&RegistrationData>)
        ensures
            r is Some <==> reg_keys(self.packages@).contains(identifier.0@),
            r is Some ==> exists|i: int|
                0 <= i < self.packages@.len() && reg_keys(self.packages@)[i] == identifier.0@
                    && self.packages@[i].1 == *r->0,
    {
        let k = chars_of(identifier.0.as_str());
        match find_key(&self.packages, &k) {
            Some(i) => Some(&self.packages[i].1),
            None => None,
        }
    }

    /// Moves the registration of `identifier` to `package`; `false` where the
    /// name is not registered.
    pub fn set_package(&mut self, identifier: &IdName, package: String) -> (r: bool)
        requires
            old(self).wf(),
        ensures
            final(self).wf(),
            r == reg_keys(old(self).packages@).contains(identifier.0@),
            reg_keys(final(self).packages@) == reg_keys(old(self).packages@),
            forall|i: int|
                0 <= i < old(self).packages@.len() ==> if reg_keys(old(self).packages@)[i]
                    == identifier.0@ {
                    final(self).packages@[i].1.package@ == package@
                        && final(self).packages@[i].1.code_name == old(self).packages@[i].1.code_name
                        && final(self).packages@[i].1.extra == old(self).packages@[i].1.extra
                } else {
                    final(self).packages@[i] == old(self).packages@[i]
                },
    {
        let k = chars_of(identifier.0.as_str());
        match find_key(&self.packages, &k) {
            Some(i) => {
                let ghost keys = reg_keys(self.packages@);
                let (id, data) = self.packages.remove(i);
                let RegistrationData { code_name, extra, .. } = data;
                self.packages.insert(i, (id, RegistrationData { package, code_name, extra }));
                proof {
                    assert(reg_keys(self.packages@) =~= keys);
                    assert forall|j: int| 0 <= j < keys.len() && j != i implies keys[j]
                        != identifier.0@ by {
                        assert(keys.no_duplicates());
                    }
                }
                true
            },
            None => false,
        }
    }

    /// Number of registered names.
    pub fn len(&self) -> (r: usize)
        ensures
            r == self.packages@.len(),
    {
        self.packages.len()
    }
}

/// Owner package, identifier and, for a struct, layout of a registered type.
#[derive(Debug)]
pub struct ClassData {
    pub package: String,
    pub code_name: String,
    pub layout: Option<Layout>,
}

/// Registered structs and enums by name; the first registration wins.
#[derive(Debug)]
pub struct ClassRegistry {
    pub packages: Vec<(IdName, ClassData)>,
}

pub open spec fn class_keys(v: Seq<(IdName, ClassData)>) -> Seq<Seq<char>> {
    v.map_values(|e: (IdName, ClassData)| e.0.0@)
}

fn find_class(entries: &Vec<(IdName, ClassData)>, k: &Vec<char>) -> (r: Option<usize>)
    ensures
        r is Some ==> r->0 < entries@.len() && class_keys(entries@)[r->0 as int] == k@,
        r is None ==> !class_keys(entries@).contains(k@),
{
    let ghost keys = class_keys(entries@);
    let mut i: usize = 0;
    while i < entries.len()
        invariant
            0 <= i <= entries@.len(),
            keys == class_keys(entries@),
            forall|j: int| 0 <= j < i ==> keys[j] != k@,
        decreases entries@.len() - i,
    {
        let name = chars_of(entries[i].0.0.as_str());
        if chars_eq(&name, k) {
            return Some(i);
        }
        i = i + 1;
    }
    None
}

impl ClassRegistry {
    pub fn new() -> (r: ClassRegistry)
        ensures
            r.packages@.len() == 0,
    {
        ClassRegistry { packages: Vec::new() }
    }

    /// Registers `identifier`, unless it is already registered.
    pub fn set_owner(
        &mut self,
        identifier: IdName,
        package: String,
        code_name: String,
        layout: Option<Layout>,
    ) -> (r: bool)
        ensures
            r == !class_keys(old(self).packages@).contains(identifier.0@),
            r ==> final(self).packages@ == old(self).packages@.push(
                (identifier, ClassData { package, code_name, layout }),
            ),
            !r ==> final(self).packages@ == old(self).packages@,
    {
        let k = chars_of(identifier.0.as_str());
        match find_class(&self.packages, &k) {
            Some(_) => false,
            None => {
                self.packages.push((identifier, ClassData { package, code_name, layout }));
                true
            },
        }
    }

    /// The registration of `identifier`.
    pub fn lookup(&self, identifier: &IdName) -> (r: Option<&ClassData>)
        ensures
            r is Some <==> class_keys(self.packages@).contains(identifier.0@),
            r is Some ==> exists|i: int|
                0 <= i < self.packages@.len() && class_keys(self.packages@)[i] == identifier.0@
                    && self.packages@[i].1 == *r->0,
    {
        let k = chars_of(identifier.0.as_str());
        match find_class(&self.packages, &k) {
            Some(i) => Some(&self.packages[i].1),
            None => None,
        }
    }

    /// Number of registered names.
    pub fn len(&self) -> (r: usize)
        ensures
            r == self.packages@.len(),
    {
        self.packages.len()
    }
}

} // verus!
