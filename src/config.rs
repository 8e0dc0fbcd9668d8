use vstd::prelude::*;

verus! {

/// Size of an object-table item.
#[derive(Debug, Clone, Copy, PartialEq, Eq, Structural)]
pub struct OfFUObjectItem {
    pub size: usize,
}

/// Offsets inside a function record.
#[derive(Debug, Clone, Copy, PartialEq, Eq, Structural)]
pub struct OfUFunction {
    pub flags: usize,
    pub func: usize,
}

/// Offsets inside an object record.
#[derive(Debug, Clone, Copy, PartialEq, Eq, Structural)]
pub struct OfUObject {
    pub index: usize,
    pub class: usize,
    pub name: usize,
    pub outer: usize,
}

/// Offsets inside a field record.
#[derive(Debug, Clone, Copy, PartialEq, Eq, Structural)]
pub struct OfUField {
    pub next: usize,
}

/// Offsets inside a struct record.
#[derive(Debug, Clone, Copy, PartialEq, Eq, Structural)]
pub struct OfUStruct {
    pub super_struct: usize,
    pub children_props: usize,
    /// The minimum alignment is stored one 32-bit word after the size.
    pub props_size: usize,
}

/// Offsets inside an enum record.
#[derive(Debug, Clone, Copy, PartialEq, Eq, Structural)]
pub struct OfUEnum {
    pub names: usize,
}

/// Offsets inside a property-metadata record.
#[derive(Debug, Clone, Copy, PartialEq, Eq, Structural)]
pub struct OfFField {
    pub class: usize,
    pub next: usize,
    pub name: usize,
}

/// Offsets inside a property record; the record itself is `size` bytes.
#[derive(Debug, Clone, Copy, PartialEq, Eq, Structural)]
pub struct OfFProperty {
    pub array_dim: usize,
    pub element_size: usize,
    pub flags: usize,
    pub offset: usize,
    pub size: usize,
}

/// Layout of a name handle.
#[derive(Debug, Clone, Copy, PartialEq, Eq, Structural)]
pub struct OfFName {
    pub size: usize,
    pub index: usize,
}

/// Layout of a name-pool entry.
#[derive(Debug, Clone, Copy, PartialEq, Eq, Structural)]
pub struct OfFNameEntry {
    pub header: usize,
    pub name: usize,
    pub wide_bit: usize,
    pub len_bit: usize,
}

/// Addresses of the global tables, relative to the image base, where known.
#[derive(Debug, Clone, Copy, PartialEq, Eq, Structural)]
pub struct Offsets {
    pub names: Option<usize>,
    pub objects: Option<usize>,
    pub world: Option<usize>,
    pub engine: Option<usize>,
}

/// Layout constants of the target runtime's reflection records.
#[derive(Debug, Clone, Copy, PartialEq, Eq, Structural)]
pub struct Config {
    /// Alignment of name-pool entries: 1 or 2.
    pub stride: u32,
    pub process_event: u32,
    pub level_actors: Option<u32>,
    pub offsets: Option<Offsets>,
    pub fuobject_item: OfFUObjectItem,
    pub uobject: OfUObject,
    pub ufield: OfUField,
    pub ustruct: OfUStruct,
    pub uenum: OfUEnum,
    pub ffield: OfFField,
    pub fproperty: OfFProperty,
    pub ufunction: OfUFunction,
}

pub open spec fn default_config() -> Config {
    Config {
        stride: 2,
        process_event: 0x4D,
        level_actors: None,
        offsets: None,
        fuobject_item: OfFUObjectItem { size: 0x18 },
        uobject: OfUObject { index: 0xC, class: 0x10, name: 0x18, outer: 0x20 },
        ufield: OfUField { next: 0x28 },
        ustruct: OfUStruct { super_struct: 0x40, children_props: 0x50, props_size: 0x58 },
        uenum: OfUEnum { names: 0x40 },
        ffield: OfFField { class: 0x8, next: 0x20, name: 0x28 },
        fproperty: OfFProperty {
            array_dim: 0x38,
            element_size: 0x3C,
            flags: 0x40,
            offset: 0x4C,
            size: 0x78,
        },
        ufunction: OfUFunction { flags: 0xB0, func: 0xD8 },
    }
}

impl Default for Config {
    fn default() -> (r: Config)
        ensures
            r == default_config(),
    {
        Config {
            stride: 2,
            process_event: 0x4D,
            level_actors: None,
            offsets: None,
            fuobject_item: OfFUObjectItem { size: 0x18 },
            uobject: OfUObject { index: 0xC, class: 0x10, name: 0x18, outer: 0x20 },
            ufield: OfUField { next: 0x28 },
            ustruct: OfUStruct { super_struct: 0x40, children_props: 0x50, props_size: 0x58 },
            uenum: OfUEnum { names: 0x40 },
            ffield: OfFField { class: 0x8, next: 0x20, name: 0x28 },
            fproperty: OfFProperty {
                array_dim: 0x38,
                element_size: 0x3C,
                flags: 0x40,
                offset: 0x4C,
                size: 0x78,
            },
            ufunction: OfUFunction { flags: 0xB0, func: 0xD8 },
        }
    }
}

} // verus!
