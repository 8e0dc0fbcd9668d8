use std::collections::HashMap;
use uedumper::{
    dump_names, dump_objects, dump_sdk, Config, DumperOptions, Field, Fqn, MergeMap, Object,
    PropertyKind, Snapshot,
};

const BASE: usize = 0x10000;

struct Image {
    bytes: Vec<u8>,
    names: Vec<u8>,
    ids: HashMap<String, u32>,
    next: usize,
}

impl Image {
    fn new() -> Self {
        Image { bytes: vec![0; 0x10000], names: vec![], ids: HashMap::new(), next: 0x1000 }
    }
    fn w32(&mut self, addr: usize, v: u32) {
        self.bytes[addr - BASE..addr - BASE + 4].copy_from_slice(&v.to_le_bytes());
    }
    fn w64(&mut self, addr: usize, v: u64) {
        self.bytes[addr - BASE..addr - BASE + 8].copy_from_slice(&v.to_le_bytes());
    }
    fn reserve(&mut self, size: usize) -> usize {
        let a = BASE + self.next;
        self.next += size;
        a
    }
    fn name(&mut self, s: &str) -> u32 {
        if let Some(id) = self.ids.get(s) {
            return *id;
        }
        let id = (self.names.len() / 2) as u32;
        self.names.extend_from_slice(&((s.len() as u16) << 6).to_le_bytes());
        self.names.extend_from_slice(s.as_bytes());
        if s.len() % 2 == 1 {
            self.names.push(0);
        }
        self.ids.insert(s.to_string(), id);
        id
    }
    fn object(&mut self, name: &str, class: usize, outer: usize) -> usize {
        let a = self.reserve(0x100);
        let id = self.name(name);
        self.w32(a + 0x18, id);
        self.w64(a + 0x10, class as u64);
        self.w64(a + 0x20, outer as u64);
        a
    }
    fn property(&mut self, name: &str, class: usize, offset: u32, size: u32, next: usize) -> usize {
        let a = self.reserve(0x100);
        let id = self.name(name);
        self.w64(a + 0x8, class as u64);
        self.w64(a + 0x20, next as u64);
        self.w32(a + 0x28, id);
        self.w32(a + 0x38, 1);
        self.w32(a + 0x3C, size);
        self.w32(a + 0x4C, offset);
        a
    }
    fn field_class(&mut self, name: &str) -> usize {
        let a = self.reserve(0x10);
        let id = self.name(name);
        self.w32(a, id);
        a
    }
}

fn game_image() -> (Snapshot, usize, usize) {
    let mut m = Image::new();
    let core = m.object("/Script/CoreUObject", 0, 0);
    let class = m.object("Class", 0, core);
    m.w64(class + 0x10, class as u64);
    let script_struct = m.object("ScriptStruct", class, core);
    let enum_class = m.object("Enum", class, core);
    let game = m.object("/Script/Game", 0, 0);
    let int_p = m.field_class("IntProperty");
    let float_p = m.field_class("FloatProperty");

    let b = m.property("B", float_p, 8, 4, 0);
    let a = m.property("A", int_p, 0, 4, b);
    let foo = m.object("Foo", script_struct, game);
    m.w64(foo + 0x50, a as u64);
    m.w32(foo + 0x58, 16);
    m.w32(foo + 0x5C, 8);

    let c = m.property("C", int_p, 12, 4, 0);
    let bar = m.object("Bar", script_struct, game);
    m.w64(bar + 0x40, foo as u64);
    m.w64(bar + 0x50, c as u64);
    m.w32(bar + 0x58, 24);
    m.w32(bar + 0x5C, 8);

    let e = m.object("EMyEnum", enum_class, game);
    let table = m.reserve(48);
    for (i, (n, v)) in [("EMyEnum::Alpha", 0u64), ("EMyEnum::Beta", 1), ("EMyEnum::Gamma_MAX", 2)]
        .iter()
        .enumerate()
    {
        let id = m.name(n);
        m.w64(table + 16 * i, id as u64);
        m.w64(table + 16 * i + 8, *v);
    }
    m.w64(e + 0x40, table as u64);
    m.w32(e + 0x48, 3);

    let objects = [core, class, script_struct, enum_class, game, foo, bar, e];
    let chunk = m.reserve(0x18 * objects.len());
    for (i, o) in objects.iter().enumerate() {
        m.w64(chunk + 0x18 * i, *o as u64);
    }
    let chunks = m.reserve(8);
    m.w64(chunks, chunk as u64);
    let object_table = m.reserve(0x20);
    m.w64(object_table, chunks as u64);
    m.w32(object_table + 20, objects.len() as u32);

    let block = m.reserve(m.names.len());
    let names = m.names.clone();
    m.bytes[block - BASE..block - BASE + names.len()].copy_from_slice(&names);
    let pool = m.reserve(0x20);
    m.w32(pool + 8, 0);
    m.w32(pool + 12, names.len() as u32);
    m.w64(pool + 16, block as u64);

    (Snapshot { regions: vec![(BASE, m.bytes)] }, pool, object_table)
}

#[test]
fn tables_are_read() {
    let (mem, pool, table) = game_image();
    let names = dump_names(&mem, pool, 2).unwrap();
    assert!(names.0.values().any(|n| n == "EMyEnum::Alpha"));
    assert_eq!(dump_objects(&mem, table, 0x18).unwrap().len(), 8);
    assert!(dump_names(&mem, pool, 3).is_err());
}

#[test]
fn image_to_sdk() {
    let (mem, pool, table) = game_image();
    let options = DumperOptions {
        process_id: 0,
        names: pool,
        objects: table,
        merge: MergeMap { pairs: vec![] },
        allow_cycles: false,
    };
    let sdk = dump_sdk(&mem, &Config::default(), &options, 0).unwrap();
    let game = sdk.find_package("Game").unwrap();
    assert!(sdk.find_package("CoreUObject").is_some());

    let foo = sdk.lookup(&Fqn::new("Game.Foo")).unwrap();
    assert_eq!(foo.package, game);
    match &sdk.objects[foo.index] {
        Object::Struct(s) => {
            assert_eq!(s.ident, "FFoo");
            assert_eq!(s.shrink, Some(12));
            let fields: Vec<(String, usize)> = s
                .fields
                .iter()
                .map(|f| match f {
                    Field::Property { name, options, .. } => (name.clone(), options.offset),
                    Field::Bitfields(g) => (String::new(), g.offset),
                })
                .collect();
            assert_eq!(fields, vec![("A".to_string(), 0), ("B".to_string(), 8)]);
            assert!(matches!(&s.fields[1], Field::Property { kind: PropertyKind::Float32, .. }));
        }
        _ => panic!("expected a struct"),
    }
    let bar = sdk.lookup(&Fqn::new("Game.Bar")).unwrap();
    match &sdk.objects[bar.index] {
        Object::Struct(s) => assert_eq!(s.parent, Some(Fqn::new("Game.Foo"))),
        _ => panic!("expected a struct"),
    }
    let e = sdk.lookup(&Fqn::new("Game.EMyEnum")).unwrap();
    match &sdk.objects[e.index] {
        Object::Enum(e) => {
            assert_eq!(e.ident, "EMyEnum");
            assert_eq!(e.variants, vec![("Alpha".to_string(), 0), ("Beta".to_string(), 1)]);
            assert_eq!(e.layout.size, 1);
        }
        _ => panic!("expected an enum"),
    }
    assert!(sdk.edges.is_empty());
}
