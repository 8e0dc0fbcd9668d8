use uedumper::{
    classify_property, collect_fields, index_enum, index_function, index_struct, parse_block,
    pick_enum_size, sanitize_ident, strip_package_name, AccumulatorResult, BitfieldAccumulator,
    BoolVars, Enum, Field, FieldOptions, Fqn, FunctionArg, IndexError, Layout, MergeMap, NamePool,
    Object, PropertyClass, PropertyKind, RawProperty, RawStruct, Sdk, Struct, OUT_PARM,
};

fn prop(name: &str, kind: PropertyKind, offset: usize, elem_size: usize) -> RawProperty {
    RawProperty {
        name: name.to_string(),
        kind,
        options: FieldOptions { offset, elem_size, array_dim: 1 },
        bool_vars: None,
    }
}

fn bit(name: &str, offset: usize, mask: u8) -> RawProperty {
    RawProperty {
        name: name.to_string(),
        kind: PropertyKind::Bool,
        options: FieldOptions { offset, elem_size: 1, array_dim: 1 },
        bool_vars: Some(BoolVars { field_size: 1, byte_offset: 0, byte_mask: mask, field_mask: mask }),
    }
}

fn raw_struct(fqn: &str, parent: Option<&str>, size: usize, align: usize, props: Vec<RawProperty>) -> RawStruct {
    RawStruct {
        fqn: Fqn::new(fqn),
        index: 0,
        is_uobject: false,
        size,
        align,
        parent: parent.map(Fqn::new),
        chain: vec![Fqn::new(fqn)],
        props,
    }
}

fn plain_struct(fqn: &str, parent: Option<&str>, size: usize, first: usize) -> Struct {
    index_struct(raw_struct(fqn, parent, size, 8, vec![prop("A", PropertyKind::Int32, first, 4)]), None)
        .unwrap()
}

fn offsets(fields: &[Field]) -> Vec<usize> {
    fields.iter().map(|f| f.offset()).collect()
}

#[test]
fn single_enum() {
    let mut pool = NamePool::new();
    pool.insert(1, 4, "EMyEnum::Alpha".to_string());
    pool.insert(1, 5, "EMyEnum::Beta".to_string());
    pool.insert(1, 6, "EMyEnum::Gamma_MAX".to_string());
    let table: Vec<(u64, i64)> = vec![(0x00010004, 0), (0x00010005, 1), (0x00010006, 2)];
    let raw: Vec<(String, i64)> = table
        .iter()
        .map(|(id, v)| (pool.get(*id as u32).unwrap().clone(), *v))
        .collect();
    let e = index_enum(Fqn::new("Game.EMyEnum"), &raw);
    assert_eq!(e.ident, "EMyEnum");
    assert_eq!(e.variants, vec![("Alpha".to_string(), 0), ("Beta".to_string(), 1)]);
    assert_eq!(e.layout.size, 1);
}

#[test]
fn enum_repeated_variant_gets_value_suffix() {
    let raw = vec![("E::A".to_string(), 1), ("E::A".to_string(), -3), ("E::B c".to_string(), 4)];
    let e = index_enum(Fqn::new("Game.E"), &raw);
    assert_eq!(
        e.variants,
        vec![("A".to_string(), 1), ("A_-3".to_string(), -3), ("B_c".to_string(), 4)]
    );
}

#[test]
fn enum_sizes_at_the_edges() {
    assert_eq!(pick_enum_size(&vec![-1]), 1);
    assert_eq!(pick_enum_size(&vec![128]), 1);
    assert_eq!(pick_enum_size(&vec![-129]), 2);
    assert_eq!(pick_enum_size(&vec![70000]), 4);
    assert_eq!(pick_enum_size(&vec![-1, 255]), 1);
    assert_eq!(pick_enum_size(&vec![65536]), 4);
    assert_eq!(pick_enum_size(&vec![0x1_0000_0000]), 8);
    assert_eq!(pick_enum_size(&vec![]), 1);
}

#[test]
fn struct_with_padding() {
    let foo = index_struct(
        raw_struct(
            "Game.Foo",
            None,
            16,
            8,
            vec![prop("A", PropertyKind::Int32, 0, 4), prop("B", PropertyKind::Float32, 8, 4)],
        ),
        None,
    )
    .unwrap();
    assert_eq!(offsets(&foo.fields), vec![0, 8]);
    assert_eq!(foo.ident, "FFoo");
    let bar = plain_struct("Game.Bar", Some("Game.Foo"), 24, 12);
    let merge = MergeMap { pairs: vec![] };
    let mut sdk = Sdk::new();
    assert!(sdk.add("Game", &merge, Object::Struct(foo)));
    assert!(sdk.add("Game", &merge, Object::Struct(bar)));
    sdk.shrink_base_classes();
    let info = sdk.lookup(&Fqn::new("Game.Foo")).unwrap();
    match &sdk.objects[info.index] {
        Object::Struct(s) => assert_eq!(s.shrink, Some(12)),
        _ => panic!("not a struct"),
    }
}

#[test]
fn shrink_pass_twice_is_once() {
    let merge = MergeMap { pairs: vec![] };
    let mut sdk = Sdk::new();
    sdk.add("Game", &merge, Object::Struct(plain_struct("Game.Base", None, 16, 0)));
    sdk.add("Game", &merge, Object::Struct(plain_struct("Game.C1", Some("Game.Base"), 24, 12)));
    sdk.add("Game", &merge, Object::Struct(plain_struct("Game.C2", Some("Game.Base"), 24, 10)));
    sdk.add("Game", &merge, Object::Struct(plain_struct("Game.C3", Some("Game.Base"), 24, 16)));
    sdk.shrink_base_classes();
    let first: Vec<Option<usize>> = sdk
        .objects
        .iter()
        .map(|o| match o {
            Object::Struct(s) | Object::Class(s) => s.shrink,
            Object::Enum(_) => None,
        })
        .collect();
    assert_eq!(first, vec![Some(10), None, None, None]);
    sdk.shrink_base_classes();
    let second: Vec<Option<usize>> = sdk
        .objects
        .iter()
        .map(|o| match o {
            Object::Struct(s) | Object::Class(s) => s.shrink,
            Object::Enum(_) => None,
        })
        .collect();
    assert_eq!(first, second);
}

#[test]
fn bitfield_grouping() {
    let props = vec![
        prop("a", PropertyKind::Int32, 0, 4),
        bit("x", 4, 0b001),
        bit("y", 4, 0b010),
        bit("z", 4, 0b100),
        prop("b", PropertyKind::Int16, 8, 2),
    ];
    let fields = collect_fields(props).unwrap();
    assert_eq!(fields.len(), 3);
    assert_eq!(offsets(&fields), vec![0, 4, 8]);
    match &fields[1] {
        Field::Bitfields(g) => {
            let items: Vec<(String, u32, u32)> =
                g.items.iter().map(|b| (b.name.clone(), b.offset, b.len)).collect();
            assert_eq!(
                items,
                vec![("x".to_string(), 0, 1), ("y".to_string(), 1, 1), ("z".to_string(), 2, 1)]
            );
        }
        _ => panic!("expected a bitfield group"),
    }
    assert!(matches!(&fields[2], Field::Property { kind: PropertyKind::Int16, .. }));
}

#[test]
fn eight_bits_make_one_group() {
    let props: Vec<RawProperty> =
        (0..8).map(|i| bit(&format!("b{i}"), 2, 1u8 << i)).collect();
    let fields = collect_fields(props).unwrap();
    assert_eq!(fields.len(), 1);
    match &fields[0] {
        Field::Bitfields(g) => {
            assert_eq!(g.items.len(), 8);
            assert_eq!(g.items.iter().map(|b| b.len).sum::<u32>(), 8);
            assert_eq!(g.offset, 2);
        }
        _ => panic!("expected a bitfield group"),
    }
}

#[test]
fn empty_struct_has_no_fields() {
    let s = index_struct(raw_struct("Game.Empty", None, 0, 1, vec![]), None).unwrap();
    assert!(s.fields.is_empty());
}

#[test]
fn full_byte_bool_is_a_property() {
    let mut b = bit("flag", 3, 0xFF);
    b.bool_vars = Some(BoolVars { field_size: 1, byte_offset: 0, byte_mask: 0xFF, field_mask: 0xFF });
    let fields = collect_fields(vec![bit("x", 2, 1), b]).unwrap();
    assert_eq!(offsets(&fields), vec![2, 3]);
    assert!(matches!(&fields[1], Field::Property { kind: PropertyKind::Bool, .. }));
}

#[test]
fn bad_bool_vars_are_refused() {
    let mut b = bit("x", 2, 1);
    b.bool_vars = Some(BoolVars { field_size: 2, byte_offset: 0, byte_mask: 1, field_mask: 1 });
    assert_eq!(collect_fields(vec![b]).unwrap_err(), IndexError::BitfieldMismatch { offset: 2 });
}

#[test]
fn fields_are_sorted_and_names_deduplicated() {
    let props = vec![
        prop("v", PropertyKind::Int32, 8, 4),
        prop("v", PropertyKind::Int32, 0, 4),
        prop("v", PropertyKind::Int32, 4, 4),
        prop("Self", PropertyKind::Int8, 12, 1),
    ];
    let s = index_struct(raw_struct("Game.S", None, 16, 4, props), None).unwrap();
    assert_eq!(offsets(&s.fields), vec![0, 4, 8, 12]);
    let names: Vec<String> = s
        .fields
        .iter()
        .map(|f| match f {
            Field::Property { name, .. } => name.clone(),
            Field::Bitfields(_) => String::new(),
        })
        .collect();
    assert_eq!(names, vec!["v_2", "v_3", "v", "This"]);
}

#[test]
fn level_gets_actor_list() {
    let s = index_struct(raw_struct("Engine.Level", None, 0x100, 8, vec![]), Some(0x98)).unwrap();
    assert_eq!(s.fields.len(), 1);
    match &s.fields[0] {
        Field::Property { name, options, .. } => {
            assert_eq!(name, "Actors");
            assert_eq!(*options, FieldOptions { offset: 0x98, elem_size: 0x10, array_dim: 1 });
        }
        _ => panic!("expected a property"),
    }
}

#[test]
fn prefix_follows_inheritance() {
    let mut raw = raw_struct("Game.Pawn", None, 8, 8, vec![]);
    raw.chain = vec![Fqn::new("Game.Pawn"), Fqn::new("Engine.Actor"), Fqn::new("CoreUObject.Object")];
    assert_eq!(index_struct(raw, None).unwrap().ident, "APawn");
    let mut raw = raw_struct("Game.Thing", None, 8, 8, vec![]);
    raw.chain = vec![Fqn::new("Game.Thing"), Fqn::new("CoreUObject.Object")];
    assert_eq!(index_struct(raw, None).unwrap().ident, "UThing");
}

fn arg(name: &str, kind: PropertyKind, flags: u64) -> FunctionArg {
    FunctionArg { name: name.to_string(), kind, flags }
}

#[test]
fn function_with_multiple_returns() {
    let params = vec![
        arg("in0", PropertyKind::Int32, 0x80),
        arg("out0", PropertyKind::Bool, 0x80 | OUT_PARM),
        arg("out1", PropertyKind::Float32, 0x80 | OUT_PARM),
    ];
    let f = index_function(Fqn::new("Game.Foo"), "Fire", 7, 0x400, params);
    let args: Vec<&str> = f.args.iter().map(|a| a.name.as_str()).collect();
    let ret: Vec<&str> = f.ret.iter().map(|a| a.name.as_str()).collect();
    assert_eq!(args, vec!["in0"]);
    assert_eq!(ret, vec!["out0", "out1"]);

    let foo = plain_struct("Game.Foo", None, 16, 0);
    let merge = MergeMap { pairs: vec![] };
    let mut sdk = Sdk::new();
    sdk.add("Game", &merge, Object::Struct(foo));
    assert!(sdk.attach_function(&Fqn::new("Game.Foo"), f).is_ok());
    match &sdk.objects[0] {
        Object::Struct(s) => assert_eq!(s.functions.len(), 1),
        _ => panic!("not a struct"),
    }
    let g = index_function(Fqn::new("Game.Gone"), "G", 1, 0, vec![]);
    assert_eq!(sdk.attach_function(&Fqn::new("Game.Gone"), g), Err(IndexError::MissingOwner));
}

#[test]
fn returns_count_out_parms() {
    let f = index_function(Fqn::new("Game.F"), "a b", 0, 0, vec![arg("x", PropertyKind::Int8, 0)]);
    assert!(f.ret.is_empty());
    assert_eq!(f.ident, "a_b");
    let f = index_function(Fqn::new("Game.F"), "g", 0, 0, vec![arg("r", PropertyKind::Int8, OUT_PARM)]);
    assert_eq!(f.ret.len(), 1);
    assert!(f.args.is_empty());
}

#[test]
fn merge_map_rewrite() {
    let merge = MergeMap { pairs: vec![("Plugin".to_string(), "Game".to_string())] };
    assert_eq!(merge.rewrite("Plugin"), "Game");
    assert_eq!(merge.rewrite(&merge.rewrite("Plugin")), "Game");
    assert_eq!(merge.rewrite("Engine"), "Engine");
    let mut sdk = Sdk::new();
    sdk.add("Game", &merge, Object::Struct(plain_struct("Game.A", None, 8, 0)));
    sdk.add("Plugin", &merge, Object::Struct(plain_struct("Plugin.B", None, 8, 0)));
    let game = sdk.find_package("Game").unwrap();
    assert!(sdk.find_package("Plugin").is_none());
    assert_eq!(sdk.lookup(&Fqn::new("Plugin.B")).unwrap().package, game);
    let plugin_key = sdk.retrieve_key("Plugin", &merge);
    assert_eq!(plugin_key, game);
    sdk.add_dependencies(plugin_key, &vec![Fqn::new("Game.A")]);
    assert!(sdk.edges.is_empty());
}

#[test]
fn dependencies_make_single_edges() {
    let merge = MergeMap { pairs: vec![] };
    let mut sdk = Sdk::new();
    sdk.add("A", &merge, Object::Struct(plain_struct("A.X", None, 8, 0)));
    sdk.add("B", &merge, Object::Struct(plain_struct("B.Y", None, 8, 0)));
    let a = sdk.find_package("A").unwrap();
    let b = sdk.find_package("B").unwrap();
    sdk.add_dependencies(a, &vec![Fqn::new("B.Y"), Fqn::new("B.Y"), Fqn::new("A.X"), Fqn::new("C.Z")]);
    assert_eq!(sdk.edges, vec![(a, b)]);
}

#[test]
fn duplicate_names_are_refused() {
    let merge = MergeMap { pairs: vec![] };
    let mut sdk = Sdk::new();
    assert!(sdk.add("G", &merge, Object::Struct(plain_struct("G.X", None, 8, 0))));
    let e = Enum { fqn: Fqn::new("G.X"), ident: "X".to_string(), layout: Layout::same(1), variants: vec![] };
    assert!(!sdk.add("G", &merge, Object::Enum(e)));
    assert_eq!(sdk.objects.len(), 1);
}

#[test]
fn identifiers_and_names() {
    assert_eq!(sanitize_ident("Self"), "This");
    assert_eq!(sanitize_ident("a-b c"), "a_b_c");
    assert_eq!(sanitize_ident("Ok_9"), "Ok_9");
    assert_eq!(strip_package_name("/Script/Engine"), "Engine");
    assert_eq!(strip_package_name("Engine"), "Engine");
    let f = Fqn::new("CoreUObject.Object");
    assert_eq!(f.package(), "CoreUObject");
    assert_eq!(f.name(), "Object");
    assert!(f.eq_str("CoreUObject.Object"));
    assert!(!f.eq_str("CoreUObject.Objects"));
    assert_eq!(Fqn::from_package_name("A", "B"), Fqn::new("A.B"));
}

#[test]
fn property_classes() {
    assert_eq!(classify_property("IntProperty"), Ok(PropertyClass::Simple(PropertyKind::Int32)));
    assert_eq!(classify_property("ByteProperty"), Ok(PropertyClass::Simple(PropertyKind::UInt8)));
    assert_eq!(classify_property("ObjectProperty"), Ok(PropertyClass::ObjectPtr));
    assert_eq!(classify_property("EnumProperty"), Ok(PropertyClass::InlineEnum));
    assert_eq!(classify_property("MapProperty"), Ok(PropertyClass::TMap));
    assert_eq!(
        classify_property("WeakObjectProperty"),
        Ok(PropertyClass::Simple(PropertyKind::Unknown))
    );
    assert_eq!(
        classify_property("NopeProperty"),
        Err(IndexError::UnknownPropertyClass("NopeProperty".to_string()))
    );
    assert_eq!(
        uedumper::wrap_array(PropertyKind::Int8, 3),
        PropertyKind::Array { kind: Box::new(PropertyKind::Int8), size: 3 }
    );
    assert_eq!(uedumper::wrap_array(PropertyKind::Int8, 1), PropertyKind::Int8);
}

#[test]
fn name_block_parsing() {
    // "None" (ansi, 4 chars), then "Ab" wide (2 chars), stride 2.
    let mut bytes: Vec<u8> = vec![];
    let h1: u16 = 4 << 6;
    bytes.extend_from_slice(&h1.to_le_bytes());
    bytes.extend_from_slice(b"None");
    let h2: u16 = (2 << 6) | 1;
    bytes.extend_from_slice(&h2.to_le_bytes());
    bytes.extend_from_slice(&[b'A', 0, b'b', 0]);
    let end = bytes.len();
    let entries = parse_block(&bytes, end, 2, 1);
    assert_eq!(entries, vec![(0x0001_0000, "None".to_string()), (0x0001_0003, "Ab".to_string())]);
    // An odd ansi length is padded to the stride.
    let mut odd: Vec<u8> = vec![];
    odd.extend_from_slice(&((3u16 << 6).to_le_bytes()));
    odd.extend_from_slice(b"abc\0");
    odd.extend_from_slice(&((1u16 << 6).to_le_bytes()));
    odd.extend_from_slice(b"z\0");
    let entries = parse_block(&odd, odd.len(), 2, 0);
    assert_eq!(entries, vec![(0, "abc".to_string()), (3, "z".to_string())]);
}

#[test]
fn accumulator_flushes_on_plain_fields() {
    let mut acc = BitfieldAccumulator::new();
    let v = BoolVars { field_size: 1, byte_offset: 0, byte_mask: 0b100, field_mask: 0b100 };
    assert!(matches!(acc.accumulate("a", Some(v), 1), AccumulatorResult::Skip));
    assert!(matches!(acc.accumulate("b", Some(v), 2), AccumulatorResult::Skip));
    match acc.accumulate("c", None, 4) {
        AccumulatorResult::Append(groups) => {
            assert_eq!(groups.len(), 2);
            assert_eq!(groups[0].offset, 1);
            assert_eq!(groups[1].offset, 2);
            assert_eq!(groups[0].items[0].offset, 2);
        }
        AccumulatorResult::Skip => panic!("expected groups"),
    }
}

#[test]
fn field_total_size() {
    assert_eq!(FieldOptions { offset: 0, elem_size: 4, array_dim: 3 }.total_size(), 12);
    assert_eq!(Layout::same(4), Layout { size: 4, align: 4 });
}
