use vstd::prelude::*;
use crate::fqn::Fqn;
use crate::model::{Field, FunctionArg, Object, PropertyKind};
use crate::sdk::{struct_of, Sdk};

verus! {

/// Some object of `sdk` is named `f`.
pub open spec fn resolves(sdk: &Sdk, f: Fqn) -> bool {
    exists|i: int| 0 <= i < sdk.objects@.len() && sdk.fqn_at(i) == f@
}

/// Every type that `k` points to or holds in place is an object of `sdk`.
pub open spec fn kind_ok(sdk: &Sdk, k: PropertyKind) -> bool
    decreases k,
{
    match k {
        PropertyKind::Ptr(f) => resolves(sdk, f),
        PropertyKind::Inline(f) => resolves(sdk, f),
        PropertyKind::Array { kind, .. } => kind_ok(sdk, *kind),
        PropertyKind::Vec(kind) => kind_ok(sdk, *kind),
        PropertyKind::TSet(kind) => kind_ok(sdk, *kind),
        PropertyKind::TMap { key, value } => kind_ok(sdk, *key) && kind_ok(sdk, *value),
        _ => true,
    }
}

pub open spec fn field_ok(sdk: &Sdk, f: Field) -> bool {
    match f {
        Field::Property { kind, .. } => kind_ok(sdk, kind),
        Field::Bitfields(_) => true,
    }
}

pub open spec fn args_ok(sdk: &Sdk, args: Seq<FunctionArg>) -> bool {
    forall|j: int| 0 <= j < args.len() ==> kind_ok(sdk, (#[trigger] args[j]).kind)
}

/// Every reference in every field and function argument of every struct
/// resolves to an object of the graph.
pub open spec fn contained(sdk: &Sdk) -> bool {
    forall|o: int|
        0 <= o < sdk.objects@.len() && (#[trigger] struct_of(sdk.objects@[o])) is Some ==> {
            let s = struct_of(sdk.objects@[o])->0;
            &&& forall|j: int| 0 <= j < s.fields@.len() ==> field_ok(sdk, #[trigger] s.fields@[j])
            &&& forall|j: int|
                0 <= j < s.functions@.len() ==> args_ok(sdk, (#[trigger] s.functions@[j]).args@)
                    && args_ok(sdk, s.functions@[j].ret@)
        }
}

impl Sdk {
    /// A name in `k` that no object of the graph has.
    pub fn unresolved_in(&self, k: &PropertyKind) -> (r: Option<Fqn>)
        requires
            self.wf(),
        ensures
            r is None <==> kind_ok(self, *k),
        decreases k,
    {
        match k {
            PropertyKind::Ptr(f) | PropertyKind::Inline(f) => {
                match self.find(f) {
                    Some(_) => None,
                    None => Some(f.copy()),
                }
            },
            PropertyKind::Array { kind, .. } => self.unresolved_in(kind),
            PropertyKind::Vec(kind) => self.unresolved_in(kind),
            PropertyKind::TSet(kind) => self.unresolved_in(kind),
            PropertyKind::TMap { key, value } => {
                match self.unresolved_in(key) {
                    Some(f) => Some(f),
                    None => self.unresolved_in(value),
                }
            },
            _ => None,
        }
    }

    fn unresolved_in_args(&self, args: &Vec<FunctionArg>) -> (r: Option<Fqn>)
        requires
            self.wf(),
        ensures
            r is None <==> args_ok(self, args@),
    {
        let mut j: usize = 0;
        while j < args.len()
            invariant
                self.wf(),
                0 <= j <= args@.len(),
                forall|t: int| 0 <= t < j ==> kind_ok(self, (#[trigger] args@[t]).kind),
            decreases args@.len() - j,
        {
            match self.unresolved_in(&args[j].kind) {
                Some(f) => return Some(f),
                None => {},
            }
            j = j + 1;
        }
        None
    }

    /// A name referred to by a field or a function argument of some struct
    /// that no object of the graph has.
    pub fn first_unresolved(&self) -> (r: Option<Fqn>)
        requires
            self.wf(),
        ensures
            r is None <==> contained(self),
    {
        let mut o: usize = 0;
        while o < self.objects.len()
            invariant
                self.wf(),
                0 <= o <= self.objects@.len(),
                forall|p: int|
                    0 <= p < o && (#[trigger] struct_of(self.objects@[p])) is Some ==> {
                        let s = struct_of(self.objects@[p])->0;
                        &&& forall|j: int|
                            0 <= j < s.fields@.len() ==> field_ok(self, #[trigger] s.fields@[j])
                        &&& forall|j: int|
                            0 <= j < s.functions@.len() ==> args_ok(
                                self,
                                (#[trigger] s.functions@[j]).args@,
                            ) && args_ok(self, s.functions@[j].ret@)
                    },
            decreases self.objects@.len() - o,
        {
            match &self.objects[o] {
                Object::Struct(s) | Object::Class(s) => {
                    let mut j: usize = 0;
                    while j < s.fields.len()
                        invariant
                            self.wf(),
                            o < self.objects@.len(),
                            struct_of(self.objects@[o as int]) == Some(*s),
                            0 <= j <= s.fields@.len(),
                            forall|t: int| 0 <= t < j ==> field_ok(self, #[trigger] s.fields@[t]),
                        decreases s.fields@.len() - j,
                    {
                        match &s.fields[j] {
                            Field::Property { kind, .. } => {
                                match self.unresolved_in(kind) {
                                    Some(f) => {
                                        assert(!field_ok(self, s.fields@[j as int]));
                                        assert(!contained(self)) by {
                                            let t = struct_of(self.objects@[o as int])->0;
                                            assert(t.fields@[j as int] == s.fields@[j as int]);
                                        }
                                        return Some(f);
                                    },
                                    None => {},
                                }
                            },
                            Field::Bitfields(_) => {},
                        }
                        j = j + 1;
                    }
                    let mut j: usize = 0;
                    while j < s.functions.len()
                        invariant
                            self.wf(),
                            o < self.objects@.len(),
                            struct_of(self.objects@[o as int]) == Some(*s),
                            0 <= j <= s.functions@.len(),
                            forall|t: int|
                                0 <= t < j ==> args_ok(self, (#[trigger] s.functions@[t]).args@)
                                    && args_ok(self, s.functions@[t].ret@),
                        decreases s.functions@.len() - j,
                    {
                        match self.unresolved_in_args(&s.functions[j].args) {
                            Some(f) => {
                                assert(!args_ok(self, s.functions@[j as int].args@));
                                assert(!contained(self)) by {
                                    let t = struct_of(self.objects@[o as int])->0;
                                    assert(t.functions@[j as int] == s.functions@[j as int]);
                                }
                                return Some(f);
                            },
                            None => {},
                        }
                        match self.unresolved_in_args(&s.functions[j].ret) {
                            Some(f) => {
                                assert(!args_ok(self, s.functions@[j as int].ret@));
                                assert(!contained(self)) by {
                                    let t = struct_of(self.objects@[o as int])->0;
                                    assert(t.functions@[j as int] == s.functions@[j as int]);
                                }
                                return Some(f);
                            },
                            None => {},
                        }
                        j = j + 1;
                    }
                },
                Object::Enum(_) => {},
            }
            o = o + 1;
        }
        None
    }
}

} // verus!
