use vstd::prelude::*;
use crate::bitfield::BitfieldGroup;
use crate::fqn::Fqn;
use crate::layout::Layout;

verus! {

/// The type of a reflected property.
#[derive(Debug, PartialEq, Eq)]
pub enum PropertyKind {
    Bool,
    Int8,
    Int16,
    Int32,
    Int64,
    UInt8,
    UInt16,
    UInt32,
    UInt64,
    Float32,
    Float64,
    /// An interned name.
    Name,
    /// An owned string.
    String,
    /// Localised text.
    Text,
    /// Pointer to an object.
    Ptr(Fqn),
    /// An enum or a struct stored in place.
    Inline(Fqn),
    /// A fixed-size array.
    Array { kind: Box<PropertyKind>, size: usize },
    /// A dynamic array.
    Vec(Box<PropertyKind>),
    TSet(Box<PropertyKind>),
    TMap { key: Box<PropertyKind>, value: Box<PropertyKind> },
    Unknown,
}

/// Where a property sits and how large it is.
#[derive(Debug, Clone, Copy, PartialEq, Eq, Structural)]
pub struct FieldOptions {
    pub offset: usize,
    pub elem_size: usize,
    pub array_dim: usize,
}

impl FieldOptions {
    /// Total size in bytes: the element size times the array dimension.
    pub fn total_size(&self) -> (r: usize)
        requires
            self.array_dim * self.elem_size <= usize::MAX,
        ensures
            r == self.array_dim * self.elem_size,
    {
        self.array_dim * self.elem_size
    }
}

/// A member of a struct: a property, or a group of bitfields sharing one byte.
#[derive(Debug)]
pub enum Field {
    Property { name: String, kind: PropertyKind, options: FieldOptions },
    Bitfields(BitfieldGroup),
}

impl Field {
    pub open spec fn spec_offset(&self) -> usize {
        match self {
            Field::Property { options, .. } => options.offset,
            Field::Bitfields(group) => group.offset,
        }
    }

    /// Byte offset of the field inside its struct.
    pub fn offset(&self) -> (r: usize)
        ensures
            r == self.spec_offset(),
    {
        match self {
            Field::Property { options, .. } => options.offset,
            Field::Bitfields(group) => group.offset,
        }
    }
}

/// Argument of a reflected function.
#[derive(Debug)]
pub struct FunctionArg {
    pub name: String,
    pub kind: PropertyKind,
    /// Property flags.
    pub flags: u64,
}

/// Property flag of an argument through which a function returns a value.
pub const OUT_PARM: u64 = 0x100;

/// A reflected function.
#[derive(Debug)]
pub struct Function {
    pub fqn: Fqn,
    pub ident: String,
    pub index: u32,
    /// Function flags.
    pub flags: u32,
    /// The arguments that are not out-parameters, in order.
    pub args: Vec<FunctionArg>,
    /// The out-parameters, in order.
    pub ret: Vec<FunctionArg>,
}

/// A reflected enum.
#[derive(Debug)]
pub struct Enum {
    pub fqn: Fqn,
    pub ident: String,
    pub layout: Layout,
    pub variants: Vec<(String, i64)>,
}

/// A reflected struct or class.
#[derive(Debug)]
pub struct Struct {
    pub fqn: Fqn,
    pub index: u32,
    pub is_uobject: bool,
    pub parent: Option<Fqn>,
    pub ident: String,
    /// Size of this struct as a base, reduced where a subclass starts earlier
    /// than its end.
    pub shrink: Option<usize>,
    pub layout: Layout,
    /// Sorted by offset.
    pub fields: Vec<Field>,
    pub functions: Vec<Function>,
}

/// A reflected type.
#[derive(Debug)]
pub enum Object {
    Enum(Enum),
    Struct(Struct),
    Class(Struct),
}

impl Object {
    pub open spec fn spec_fqn(&self) -> Fqn {
        match self {
            Object::Enum(v) => v.fqn,
            Object::Class(v) | Object::Struct(v) => v.fqn,
        }
    }

    pub open spec fn spec_layout(&self) -> Layout {
        match self {
            Object::Enum(v) => v.layout,
            Object::Class(v) | Object::Struct(v) => v.layout,
        }
    }

    pub open spec fn spec_ident(&self) -> Seq<char> {
        match self {
            Object::Enum(v) => v.ident@,
            Object::Class(v) | Object::Struct(v) => v.ident@,
        }
    }

    pub fn ident(&self) -> (r: &str)
        ensures
            r@ == self.spec_ident(),
    {
        match self {
            Object::Enum(v) => v.ident.as_str(),
            Object::Class(v) | Object::Struct(v) => v.ident.as_str(),
        }
    }

    pub fn fqn(&self) -> (r: &Fqn)
        ensures
            r == self.spec_fqn(),
    {
        match self {
            Object::Enum(v) => &v.fqn,
            Object::Class(v) | Object::Struct(v) => &v.fqn,
        }
    }

    pub fn layout(&self) -> (r: Layout)
        ensures
            r == self.spec_layout(),
    {
        match self {
            Object::Enum(v) => v.layout,
            Object::Class(v) | Object::Struct(v) => v.layout,
        }
    }
}

} // verus!

verus! {

/// Why indexing a reflected record failed.
#[derive(Debug, PartialEq, Eq)]
pub enum IndexError {
    /// A property's class name is not one the indexer knows.
    UnknownPropertyClass(String),
    /// A boolean property's layout variables are not those of a one-byte field
    /// at byte zero of its property.
    BitfieldMismatch { offset: usize },
    /// A function's owner is not an indexed struct or class.
    MissingOwner,
    /// A property refers to a type that was not indexed.
    UnresolvedReference(Fqn),
}

} // verus!

verus! {

/// A property kind as the contracts see it: names by their views.
pub enum KindView {
    Bool,
    Int8,
    Int16,
    Int32,
    Int64,
    UInt8,
    UInt16,
    UInt32,
    UInt64,
    Float32,
    Float64,
    Name,
    Text,
    Str,
    Ptr((Seq<char>, Seq<char>)),
    Inline((Seq<char>, Seq<char>)),
    Array(Box<KindView>, usize),
    Vector(Box<KindView>),
    TSet(Box<KindView>),
    TMap(Box<KindView>, Box<KindView>),
    Unknown,
}

pub open spec fn kind_view(k: PropertyKind) -> KindView
    decreases k,
{
    match k {
        PropertyKind::Bool => KindView::Bool,
        PropertyKind::Int8 => KindView::Int8,
        PropertyKind::Int16 => KindView::Int16,
        PropertyKind::Int32 => KindView::Int32,
        PropertyKind::Int64 => KindView::Int64,
        PropertyKind::UInt8 => KindView::UInt8,
        PropertyKind::UInt16 => KindView::UInt16,
        PropertyKind::UInt32 => KindView::UInt32,
        PropertyKind::UInt64 => KindView::UInt64,
        PropertyKind::Float32 => KindView::Float32,
        PropertyKind::Float64 => KindView::Float64,
        PropertyKind::Name => KindView::Name,
        PropertyKind::String => KindView::Str,
        PropertyKind::Text => KindView::Text,
        PropertyKind::Ptr(f) => KindView::Ptr(f@),
        PropertyKind::Inline(f) => KindView::Inline(f@),
        PropertyKind::Array { kind, size } => KindView::Array(Box::new(kind_view(*kind)), size),
        PropertyKind::Vec(kind) => KindView::Vector(Box::new(kind_view(*kind))),
        PropertyKind::TSet(kind) => KindView::TSet(Box::new(kind_view(*kind))),
        PropertyKind::TMap { key, value } => KindView::TMap(
            Box::new(kind_view(*key)),
            Box::new(kind_view(*value)),
        ),
        PropertyKind::Unknown => KindView::Unknown,
    }
}

} // verus!
