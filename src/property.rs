use vstd::prelude::*;
use crate::ident::{chars_eq, chars_of};
use crate::model::{IndexError, PropertyKind};

verus! {

/// What a property's class name says of its kind, and what the walk reads next.
#[derive(Debug, PartialEq, Eq)]
pub enum PropertyClass {
    /// A kind that needs nothing more.
    Simple(PropertyKind),
    /// A pointer; the pointee's class follows the property record.
    ObjectPtr,
    /// A struct stored in place; the struct follows the property record.
    InlineStruct,
    /// An enum stored in place; the enum follows the property record and its
    /// underlying property.
    InlineEnum,
    /// A dynamic array; its element property follows the property record.
    Array,
    /// A set; its element property follows the property record.
    TSet,
    /// A map; its key and value properties follow the property record.
    TMap,
}

/// The class of a property with class name `n`, if the name is known.
pub open spec fn property_class(n: Seq<char>) -> Option<PropertyClass> {
    if n == "BoolProperty"@ {
        Some(PropertyClass::Simple(PropertyKind::Bool))
    } else if n == "NameProperty"@ {
        Some(PropertyClass::Simple(PropertyKind::Name))
    } else if n == "StrProperty"@ {
        Some(PropertyClass::Simple(PropertyKind::String))
    } else if n == "TextProperty"@ {
        Some(PropertyClass::Simple(PropertyKind::Text))
    } else if n == "FloatProperty"@ {
        Some(PropertyClass::Simple(PropertyKind::Float32))
    } else if n == "DoubleProperty"@ {
        Some(PropertyClass::Simple(PropertyKind::Float64))
    } else if n == "Int8Property"@ {
        Some(PropertyClass::Simple(PropertyKind::Int8))
    } else if n == "Int16Property"@ {
        Some(PropertyClass::Simple(PropertyKind::Int16))
    } else if n == "IntProperty"@ {
        Some(PropertyClass::Simple(PropertyKind::Int32))
    } else if n == "Int64Property"@ {
        Some(PropertyClass::Simple(PropertyKind::Int64))
    } else if n == "ByteProperty"@ {
        Some(PropertyClass::Simple(PropertyKind::UInt8))
    } else if n == "UInt16Property"@ {
        Some(PropertyClass::Simple(PropertyKind::UInt16))
    } else if n == "UInt32Property"@ {
        Some(PropertyClass::Simple(PropertyKind::UInt32))
    } else if n == "UInt64Property"@ {
        Some(PropertyClass::Simple(PropertyKind::UInt64))
    } else if n == "ClassProperty"@ {
        Some(PropertyClass::ObjectPtr)
    } else if n == "ObjectProperty"@ {
        Some(PropertyClass::ObjectPtr)
    } else if n == "StructProperty"@ {
        Some(PropertyClass::InlineStruct)
    } else if n == "EnumProperty"@ {
        Some(PropertyClass::InlineEnum)
    } else if n == "ArrayProperty"@ {
        Some(PropertyClass::Array)
    } else if n == "SetProperty"@ {
        Some(PropertyClass::TSet)
    } else if n == "MapProperty"@ {
        Some(PropertyClass::TMap)
    } else if n == "ClassPtrProperty"@ {
        Some(PropertyClass::Simple(PropertyKind::Unknown))
    } else if n == "DelegateProperty"@ {
        Some(PropertyClass::Simple(PropertyKind::Unknown))
    } else if n == "FieldPathProperty"@ {
        Some(PropertyClass::Simple(PropertyKind::Unknown))
    } else if n == "InterfaceProperty"@ {
        Some(PropertyClass::Simple(PropertyKind::Unknown))
    } else if n == "LazyObjectProperty"@ {
        Some(PropertyClass::Simple(PropertyKind::Unknown))
    } else if n == "SoftClassProperty"@ {
        Some(PropertyClass::Simple(PropertyKind::Unknown))
    } else if n == "SoftObjectProperty"@ {
        Some(PropertyClass::Simple(PropertyKind::Unknown))
    } else if n == "WeakObjectProperty"@ {
        Some(PropertyClass::Simple(PropertyKind::Unknown))
    } else if n == "MulticastInlineDelegateProperty"@ {
        Some(PropertyClass::Simple(PropertyKind::Unknown))
    } else if n == "MulticastSparseDelegateProperty"@ {
        Some(PropertyClass::Simple(PropertyKind::Unknown))
    } else {
        None
    }
}

/// Classifies a property by its class name; an unknown name is an error.
pub fn classify_property(class_name: &str) -> (r: Result<PropertyClass, IndexError>)
    ensures
        property_class(class_name@) is Some ==> r == Ok::<PropertyClass, IndexError>(
            property_class(class_name@)->0,
        ),
        property_class(class_name@) is None ==> r is Err && r->Err_0 is UnknownPropertyClass
            && r->Err_0->UnknownPropertyClass_0@ == class_name@,
{
    let cs = chars_of(class_name);
    if chars_eq(&cs, &chars_of("BoolProperty")) {
        Ok(PropertyClass::Simple(PropertyKind::Bool))
    } else if chars_eq(&cs, &chars_of("NameProperty")) {
        Ok(PropertyClass::Simple(PropertyKind::Name))
    } else if chars_eq(&cs, &chars_of("StrProperty")) {
        Ok(PropertyClass::Simple(PropertyKind::String))
    } else if chars_eq(&cs, &chars_of("TextProperty")) {
        Ok(PropertyClass::Simple(PropertyKind::Text))
    } else if chars_eq(&cs, &chars_of("FloatProperty")) {
        Ok(PropertyClass::Simple(PropertyKind::Float32))
    } else if chars_eq(&cs, &chars_of("DoubleProperty")) {
        Ok(PropertyClass::Simple(PropertyKind::Float64))
    } else if chars_eq(&cs, &chars_of("Int8Property")) {
        Ok(PropertyClass::Simple(PropertyKind::Int8))
    } else if chars_eq(&cs, &chars_of("Int16Property")) {
        Ok(PropertyClass::Simple(PropertyKind::Int16))
    } else if chars_eq(&cs, &chars_of("IntProperty")) {
        Ok(PropertyClass::Simple(PropertyKind::Int32))
    } else if chars_eq(&cs, &chars_of("Int64Property")) {
        Ok(PropertyClass::Simple(PropertyKind::Int64))
    } else if chars_eq(&cs, &chars_of("ByteProperty")) {
        Ok(PropertyClass::Simple(PropertyKind::UInt8))
    } else if chars_eq(&cs, &chars_of("UInt16Property")) {
        Ok(PropertyClass::Simple(PropertyKind::UInt16))
    } else if chars_eq(&cs, &chars_of("UInt32Property")) {
        Ok(PropertyClass::Simple(PropertyKind::UInt32))
    } else if chars_eq(&cs, &chars_of("UInt64Property")) {
        Ok(PropertyClass::Simple(PropertyKind::UInt64))
    } else if chars_eq(&cs, &chars_of("ClassProperty")) {
        Ok(PropertyClass::ObjectPtr)
    } else if chars_eq(&cs, &chars_of("ObjectProperty")) {
        Ok(PropertyClass::ObjectPtr)
    } else if chars_eq(&cs, &chars_of("StructProperty")) {
        Ok(PropertyClass::InlineStruct)
    } else if chars_eq(&cs, &chars_of("EnumProperty")) {
        Ok(PropertyClass::InlineEnum)
    } else if chars_eq(&cs, &chars_of("ArrayProperty")) {
        Ok(PropertyClass::Array)
    } else if chars_eq(&cs, &chars_of("SetProperty")) {
        Ok(PropertyClass::TSet)
    } else if chars_eq(&cs, &chars_of("MapProperty")) {
        Ok(PropertyClass::TMap)
    } else if chars_eq(&cs, &chars_of("ClassPtrProperty")) {
        Ok(PropertyClass::Simple(PropertyKind::Unknown))
    } else if chars_eq(&cs, &chars_of("DelegateProperty")) {
        Ok(PropertyClass::Simple(PropertyKind::Unknown))
    } else if chars_eq(&cs, &chars_of("FieldPathProperty")) {
        Ok(PropertyClass::Simple(PropertyKind::Unknown))
    } else if chars_eq(&cs, &chars_of("InterfaceProperty")) {
        Ok(PropertyClass::Simple(PropertyKind::Unknown))
    } else if chars_eq(&cs, &chars_of("LazyObjectProperty")) {
        Ok(PropertyClass::Simple(PropertyKind::Unknown))
    } else if chars_eq(&cs, &chars_of("SoftClassProperty")) {
        Ok(PropertyClass::Simple(PropertyKind::Unknown))
    } else if chars_eq(&cs, &chars_of("SoftObjectProperty")) {
        Ok(PropertyClass::Simple(PropertyKind::Unknown))
    } else if chars_eq(&cs, &chars_of("WeakObjectProperty")) {
        Ok(PropertyClass::Simple(PropertyKind::Unknown))
    } else if chars_eq(&cs, &chars_of("MulticastInlineDelegateProperty")) {
        Ok(PropertyClass::Simple(PropertyKind::Unknown))
    } else if chars_eq(&cs, &chars_of("MulticastSparseDelegateProperty")) {
        Ok(PropertyClass::Simple(PropertyKind::Unknown))
    } else {
        Err(IndexError::UnknownPropertyClass(class_name.to_owned()))
    }
}

/// A property's kind as declared: a fixed array of `kind` where the array
/// dimension exceeds one, `kind` itself otherwise.
pub open spec fn declared_kind(kind: PropertyKind, array_dim: usize) -> PropertyKind {
    if array_dim > 1 {
        PropertyKind::Array { kind: Box::new(kind), size: array_dim }
    } else {
        kind
    }
}

/// Wraps `kind` into a fixed array when the property has more than one element.
pub fn wrap_array(kind: PropertyKind, array_dim: usize) -> (r: PropertyKind)
    ensures
        r == declared_kind(kind, array_dim),
{
    if array_dim > 1 {
        PropertyKind::Array { kind: Box::new(kind), size: array_dim }
    } else {
        kind
    }
}

} // verus!
