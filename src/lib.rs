//! Reconstruction of a game runtime's reflected type graph: interned names,
//! struct layouts, bitfield groups, enums, functions and the package
//! dependency graph.

mod bitfield;
mod config;
mod contain;
mod cycles;
mod enums;
mod fqn;
mod function;
mod ident;
mod layout;
mod mem;
mod model;
mod names;
mod pipeline;
mod property;
mod registry;
mod remote;
mod sdk;
mod shrink;
mod structs;

pub use bitfield::{
    AccumulatorResult, BitMask, Bitfield, BitfieldAccumulator, BitfieldGroup, BoolVars,
};
pub use config::{
    Config, OfFField, OfFName, OfFNameEntry, OfFProperty, OfFUObjectItem, OfUEnum, OfUField,
    OfUFunction, OfUObject, OfUStruct, Offsets,
};
pub use cycles::{lemma_elimination_idempotent, merge};
pub use enums::{enum_variants_of, index_enum, lemma_enum_size_minimal, pick_enum_size};
pub use fqn::Fqn;
pub use function::{index_function, partition_args};
pub use ident::{sanitize_ident, strip_package_name};
pub use layout::Layout;
pub use mem::{
    read_u32, read_u64, FNamePtr, FunctionVars, MemoryReader, Ptr, ReadError, Snapshot, TArray, UEnumPtr,
};
pub use model::{
    Enum, Field, FieldOptions, Function, FunctionArg, IndexError, Object, PropertyKind, Struct,
    OUT_PARM,
};
pub use names::{
    parse_block, FNameEntry, FNameEntryHandle, FNameEntryHeader, NamePool, FNAME_BLOCK_OFFSETS,
    FNAME_BLOCK_OFFSET_BITS,
};
pub use pipeline::{build_sdk, DumperOptions, RawObject};
pub use property::{classify_property, wrap_array, PropertyClass};
pub use registry::{
    ClassData, ClassRegistry, IdName, PackageRegistry, RegistrationData, RegistrationExtra,
};
pub use remote::{
    dump_names, dump_objects, dump_sdk, is_a, object_fqn, outermost, property_kind, read_enum,
    read_objects, read_properties, read_struct, super_chain, DumpError, MAX_CHAIN,
    MAX_PROPERTY_DEPTH, OBJECTS_PER_CHUNK, PTR_SIZE,
};
pub use sdk::{lemma_merge_idempotent, lemma_unique_names, MergeMap, ObjectInfo, Package, Sdk};
pub use shrink::{lemma_shrink_covers, lemma_shrink_idempotent, lemma_shrink_never_grows};
pub use structs::{
    collect_fields, dedup_field_names, index_struct, select_prefix, sort_fields, RawProperty,
    RawStruct, ACTORS_ELEM_SIZE,
};
