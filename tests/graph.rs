use uedumper::{
    build_sdk, index_struct, merge, DumperOptions, FNamePtr, FieldOptions, Fqn, MemoryReader,
    MergeMap, Object, PropertyKind, Ptr, RawObject, RawProperty, RawStruct, ReadError, Sdk,
    Snapshot, Struct, TArray, UEnumPtr, Config, IdName, PackageRegistry, ClassRegistry, Layout,
    RegistrationExtra,
};

fn st(fqn: &str) -> Struct {
    let raw = RawStruct {
        fqn: Fqn::new(fqn),
        index: 0,
        is_uobject: false,
        size: 8,
        align: 8,
        parent: None,
        chain: vec![Fqn::new(fqn)],
        props: vec![],
    };
    index_struct(raw, None).unwrap()
}

fn three_cycle() -> (Sdk, usize, usize, usize) {
    let m = MergeMap { pairs: vec![] };
    let mut sdk = Sdk::new();
    sdk.add("A", &m, Object::Struct(st("A.X")));
    sdk.add("B", &m, Object::Struct(st("B.Y")));
    sdk.add("C", &m, Object::Struct(st("C.Z")));
    let a = sdk.find_package("A").unwrap();
    let b = sdk.find_package("B").unwrap();
    let c = sdk.find_package("C").unwrap();
    sdk.add_dependencies(a, &vec![Fqn::new("B.Y")]);
    sdk.add_dependencies(b, &vec![Fqn::new("C.Z")]);
    sdk.add_dependencies(c, &vec![Fqn::new("A.X")]);
    (sdk, a, b, c)
}

fn live(sdk: &Sdk) -> Vec<usize> {
    (0..sdk.packages.len()).filter(|p| sdk.alive[*p]).collect()
}

#[test]
fn dependency_cycle_collapses() {
    let (mut sdk, ..) = three_cycle();
    assert!(sdk.topo_order().is_err());
    sdk.eliminate_dependency_cycles();
    let alive = live(&sdk);
    assert_eq!(alive.len(), 1);
    let keep = alive[0];
    assert!(sdk.edges.is_empty());
    for name in ["A.X", "B.Y", "C.Z"] {
        let info = sdk.lookup(&Fqn::new(name)).unwrap();
        assert_eq!(info.package, keep);
        assert!(sdk.packages[keep].objects.contains(&info.index));
    }
    assert_eq!(sdk.packages[keep].objects.len(), 3);
    assert!(sdk.topo_order().is_ok());
}

#[test]
fn elimination_twice_is_a_no_op() {
    let (mut sdk, ..) = three_cycle();
    sdk.eliminate_dependency_cycles();
    let alive = live(&sdk);
    let owners = sdk.owner.clone();
    let edges = sdk.edges.clone();
    sdk.eliminate_dependency_cycles();
    assert_eq!(live(&sdk), alive);
    assert_eq!(sdk.owner, owners);
    assert_eq!(sdk.edges, edges);
}

#[test]
fn acyclic_graph_is_kept() {
    let m = MergeMap { pairs: vec![] };
    let mut sdk = Sdk::new();
    sdk.add("A", &m, Object::Struct(st("A.X")));
    sdk.add("B", &m, Object::Struct(st("B.Y")));
    sdk.add_dependencies(0, &vec![Fqn::new("B.Y")]);
    sdk.eliminate_dependency_cycles();
    assert_eq!(live(&sdk), vec![0, 1]);
    assert_eq!(sdk.edges, vec![(0, 1)]);
    let pos = sdk.topo_order().unwrap();
    assert!(pos[0] < pos[1]);
}

#[test]
fn merge_moves_objects_and_edges() {
    let (mut sdk, a, b, c) = three_cycle();
    merge(&mut sdk, a, b);
    assert!(!sdk.alive[b]);
    assert_eq!(sdk.lookup(&Fqn::new("B.Y")).unwrap().package, a);
    assert_eq!(sdk.packages[a].objects.len(), 2);
    assert!(sdk.packages[b].objects.is_empty());
    let mut edges = sdk.edges.clone();
    edges.sort();
    let mut want = vec![(a, c), (c, a)];
    want.sort();
    assert_eq!(edges, want);
}

#[test]
fn pipeline_merges_and_breaks_cycles() {
    let options = DumperOptions {
        process_id: 0,
        names: 0,
        objects: 0,
        merge: MergeMap { pairs: vec![("Plugin".to_string(), "Game".to_string())] },
        allow_cycles: false,
    };
    let record = |fqn: &str, refs: Vec<&str>| RawObject::Struct {
        package: Fqn::new(fqn).package().to_string(),
        record: RawStruct {
            fqn: Fqn::new(fqn),
            index: 0,
            is_uobject: false,
            size: 8,
            align: 8,
            parent: None,
            chain: vec![Fqn::new(fqn)],
            props: vec![RawProperty {
                name: "p".to_string(),
                kind: PropertyKind::Int32,
                options: FieldOptions { offset: 0, elem_size: 4, array_dim: 1 },
                bool_vars: None,
            }],
        },
        is_class: false,
        foreign: refs.into_iter().map(Fqn::new).collect(),
    };
    let objects = vec![
        record("Game.G", vec!["Engine.E"]),
        record("Plugin.P", vec!["Game.G"]),
        record("Engine.E", vec!["Game.G"]),
    ];
    let sdk = build_sdk(objects, &options, None).unwrap();
    assert!(sdk.find_package("Plugin").is_none());
    assert!(sdk.topo_order().is_ok());
    let g = sdk.lookup(&Fqn::new("Game.G")).unwrap().package;
    assert_eq!(sdk.lookup(&Fqn::new("Plugin.P")).unwrap().package, g);
    assert_eq!(sdk.lookup(&Fqn::new("Engine.E")).unwrap().package, g);
    assert!(sdk.edges.is_empty());
}

#[test]
fn pipeline_allowing_cycles_keeps_them() {
    let options = DumperOptions {
        process_id: 0,
        names: 0,
        objects: 0,
        merge: MergeMap { pairs: vec![] },
        allow_cycles: true,
    };
    let record = |fqn: &str, refs: Vec<&str>| RawObject::Struct {
        package: Fqn::new(fqn).package().to_string(),
        record: RawStruct {
            fqn: Fqn::new(fqn),
            index: 0,
            is_uobject: true,
            size: 8,
            align: 8,
            parent: None,
            chain: vec![Fqn::new(fqn)],
            props: vec![],
        },
        is_class: true,
        foreign: refs.into_iter().map(Fqn::new).collect(),
    };
    let sdk = build_sdk(vec![record("A.X", vec!["B.Y"]), record("B.Y", vec!["A.X"])], &options, None)
        .unwrap();
    assert_eq!(sdk.edges.len(), 2);
    assert!(sdk.topo_order().is_err());
}

#[test]
fn snapshot_reads() {
    let mem = Snapshot { regions: vec![(0x1000, vec![0x78, 0x56, 0x34, 0x12, 0, 0, 0, 0, 0x10, 0x20, 0, 0, 3, 0, 0, 0])] };
    assert_eq!(mem.read_buf(0x1000, 2).unwrap(), vec![0x78, 0x56]);
    assert_eq!(mem.read_buf(0x100F, 2), Err(ReadError::InvalidAddress(0x100F)));
    assert_eq!(FNamePtr(0x1000).read(&mem).unwrap(), 0x1234_5678);
    let mut config = Config::default();
    config.uenum.names = 4;
    let t = UEnumPtr(0x1000).names(&mem, &config).unwrap();
    assert_eq!(t, TArray { ptr: 0x2010_0000_0000, len: 3 });
    assert_eq!(t.element_address(2, 16), Some(0x2010_0000_0020));
    assert_eq!(t.element_address(3, 16), None);
    assert!(Ptr(0).is_zero());
    assert_eq!(Ptr(0).to_option(), None);
    assert_eq!(Ptr(5).to_option(), Some(Ptr(5)));
    assert_eq!(Config::default().stride, 2);
    assert_eq!(Config::default().fproperty.size, 0x78);
}

#[test]
fn registries_keep_first_owner() {
    let mut reg = PackageRegistry::new();
    assert!(reg.set_class_owner(IdName("G.A".to_string()), "G".to_string(), "FA".to_string(), Layout { size: 4, align: 4 }));
    assert!(!reg.set_enum_owner(IdName("G.A".to_string()), "H".to_string(), "EA".to_string(), None));
    assert!(reg.set_enum_owner(IdName("G.E".to_string()), "G".to_string(), "EE".to_string(), Some((-1, 3))));
    assert_eq!(reg.len(), 2);
    assert_eq!(reg.lookup(&IdName("G.A".to_string())).unwrap().package, "G");
    assert_eq!(reg.lookup(&IdName("G.E".to_string())).unwrap().extra.unwrap_enum(), Some((-1, 3)));
    assert!(reg.set_package(&IdName("G.A".to_string()), "Core".to_string()));
    assert_eq!(reg.lookup(&IdName("G.A".to_string())).unwrap().package, "Core");
    assert!(reg.lookup(&IdName("X.Y".to_string())).is_none());
    assert!(matches!(reg.lookup(&IdName("G.A".to_string())).unwrap().extra, RegistrationExtra::ClassLayout(_)));

    let mut classes = ClassRegistry::new();
    assert!(classes.set_owner(IdName("G.A".to_string()), "G".to_string(), "FA".to_string(), None));
    assert!(!classes.set_owner(IdName("G.A".to_string()), "H".to_string(), "FA".to_string(), None));
    assert_eq!(classes.len(), 1);
    assert_eq!(classes.lookup(&IdName("G.A".to_string())).unwrap().package, "G");
}

fn options(allow_cycles: bool) -> DumperOptions {
    DumperOptions { process_id: 0, names: 0, objects: 0, merge: MergeMap { pairs: vec![] }, allow_cycles }
}

fn pointer_struct(fqn: &str, target: &str) -> RawObject {
    RawObject::Struct {
        package: Fqn::new(fqn).package().to_string(),
        record: RawStruct {
            fqn: Fqn::new(fqn),
            index: 0,
            is_uobject: true,
            size: 8,
            align: 8,
            parent: None,
            chain: vec![Fqn::new(fqn)],
            props: vec![RawProperty {
                name: "Target".to_string(),
                kind: PropertyKind::Vec(Box::new(PropertyKind::Ptr(Fqn::new(target)))),
                options: FieldOptions { offset: 0, elem_size: 16, array_dim: 1 },
                bool_vars: None,
            }],
        },
        is_class: true,
        foreign: vec![Fqn::new(target)],
    }
}

#[test]
fn references_must_resolve() {
    let err = build_sdk(vec![pointer_struct("Game.A", "Game.Missing")], &options(false), None)
        .unwrap_err();
    assert_eq!(err, uedumper::IndexError::UnresolvedReference(Fqn::new("Game.Missing")));
    let sdk = build_sdk(
        vec![pointer_struct("Game.A", "Core.B"), pointer_struct("Core.B", "Game.A")],
        &options(true),
        None,
    )
    .unwrap();
    assert_eq!(sdk.first_unresolved(), None);
    assert_eq!(sdk.edges.len(), 2);
}

#[test]
fn functions_attach_in_the_pipeline() {
    let f = RawObject::Function {
        package: "Game".to_string(),
        owner: Fqn::new("Game.A"),
        fqn: Fqn::new("A.Fire"),
        name: "Fire".to_string(),
        index: 3,
        flags: 0,
        params: vec![uedumper::FunctionArg { name: "ok".to_string(), kind: PropertyKind::Bool, flags: uedumper::OUT_PARM }],
        foreign: vec![],
    };
    let orphan = RawObject::Function {
        package: "Game".to_string(),
        owner: Fqn::new("Game.Gone"),
        fqn: Fqn::new("Gone.F"),
        name: "F".to_string(),
        index: 4,
        flags: 0,
        params: vec![],
        foreign: vec![],
    };
    let sdk = build_sdk(vec![f, pointer_struct("Game.A", "Game.A"), orphan], &options(false), None).unwrap();
    match &sdk.objects[0] {
        Object::Class(s) => {
            assert_eq!(s.functions.len(), 1);
            assert_eq!(s.functions[0].ret.len(), 1);
            assert!(s.functions[0].args.is_empty());
        }
        _ => panic!("expected a class"),
    }
}
