use rage_formats::coerce::{
    bytes_of, enum_value, flags_bits, hash_of, hash_of_str, int_of, vec_of, FloatText, FloatTexts,
};
use rage_formats::json::{to_json, value_of, JsonNode};
use rage_formats::json_text::{from_json, zeros_are_short};
use rage_formats::math::{Vec2, Vec3, Vec4};
use rage_formats::meta_schema::{dump_meta, parse_meta, MetaType};
use rage_formats::meta_write::{array, build_meta, MetaBuildError};
use rage_formats::names::{parse_unknown, NameTable};
use rage_formats::pso::{
    dump_pso, is_pso, parse_pso, PsoType, SECTION_PMAP, SECTION_PSCH, SECTION_PSIN,
};
use rage_formats::pso_write::{build_pso, PsoBuildError};
use rage_formats::rage_joaat;
use rage_formats::rbf::{RbfStructure, RbfValue};
use rage_formats::resource::{build_rsc7, SYSTEM_BASE};
use rage_formats::schema::{Schema, ARRAYINFO};
use rage_formats::value::{MetaArray, MetaStruct, MetaValue};
use rage_formats::xml::{document, float, from_xml, to_xml, FloatPrint, FloatPrints};
use rage_formats::ymap::parse_ymap_entities;
use rage_formats::ymf::{dump_ymf, parse_ymf, Manifest, ManifestFormat};

fn j(name: &str) -> u32 {
    rage_joaat(name)
}

fn v3(x: f32, y: f32, z: f32) -> Vec3 {
    Vec3::new(x.to_bits(), y.to_bits(), z.to_bits())
}

fn f(v: f32) -> MetaValue {
    MetaValue::F32(v.to_bits())
}

/// What some texts are as floats.
fn floats<'a>(texts: impl IntoIterator<Item = &'a str>) -> FloatTexts {
    let mut out = FloatTexts::new();
    for t in texts {
        out.entries.push(FloatText {
            text: t.to_string(),
            single: t.parse::<f32>().ok().map(f32::to_bits),
            whole: t.parse::<f64>().ok().map(|v| v as i64),
        });
    }
    out
}

/// What the texts in a tree are as floats.
fn tree_floats(v: &MetaValue) -> FloatTexts {
    fn walk(v: &MetaValue, out: &mut Vec<String>) {
        match v {
            MetaValue::Str(s) => {
                out.push(s.trim().to_string());
                out.extend(s.split(|c: char| c == ',' || c.is_whitespace()).map(str::to_string));
            }
            MetaValue::Array(a) => a.items.iter().for_each(|i| walk(i, out)),
            MetaValue::Pairs(p) => p.iter().for_each(|(k, v)| {
                walk(k, out);
                walk(v, out);
            }),
            MetaValue::Struct(s) => s.fields.iter().for_each(|(_, v)| walk(v, out)),
            _ => {}
        }
    }
    let mut texts = Vec::new();
    walk(v, &mut texts);
    floats(texts.iter().map(String::as_str))
}

/// What the texts in a document are as floats.
fn document_floats(text: &str) -> FloatTexts {
    let nodes = document(text).unwrap();
    let mut texts: Vec<String> = Vec::new();
    for n in &nodes {
        texts.extend(n.attributes.iter().map(|a| a.value.trim().to_string()));
        if let Some(t) = &n.text {
            texts.extend(t.split_whitespace().map(str::to_string));
        }
    }
    floats(texts.iter().map(String::as_str))
}

/// How the floats in a tree are printed.
fn tree_prints(v: &MetaValue) -> FloatPrints {
    fn add(bits: u32, out: &mut FloatPrints) {
        out.entries.push(FloatPrint { bits, text: format!("{}", f32::from_bits(bits)) });
    }
    fn walk(v: &MetaValue, out: &mut FloatPrints) {
        match v {
            MetaValue::F32(b) => add(*b, out),
            MetaValue::Vec2(p) => [p.x, p.y].into_iter().for_each(|b| add(b, out)),
            MetaValue::Vec3(p) => [p.x, p.y, p.z].into_iter().for_each(|b| add(b, out)),
            MetaValue::Vec4(p) => [p.x, p.y, p.z, p.w].into_iter().for_each(|b| add(b, out)),
            MetaValue::Array(a) => a.items.iter().for_each(|i| walk(i, out)),
            MetaValue::Pairs(p) => p.iter().for_each(|(k, v)| {
                walk(k, out);
                walk(v, out);
            }),
            MetaValue::Struct(s) => s.fields.iter().for_each(|(_, v)| walk(v, out)),
            _ => {}
        }
    }
    let mut out = FloatPrints::new();
    walk(v, &mut out);
    out
}

fn xml_of(v: &MetaValue, names: &NameTable) -> String {
    to_xml(v, names, &tree_prints(v))
}

fn xml_tree(text: &str) -> MetaValue {
    from_xml(text, &document_floats(text)).unwrap()
}

fn st(ty: &str, fields: Vec<(&str, MetaValue)>) -> MetaValue {
    MetaValue::Struct(MetaStruct {
        type_hash: j(ty),
        fields: fields.into_iter().map(|(n, v)| (j(n), v)).collect(),
    })
}

// ─── hashes and values ───────────────────────────────────────────────────────

#[test]
fn matches_known_hashes() {
    assert_eq!(rage_joaat("CMloArchetypeDef"), 273_704_021);
    assert_eq!(rage_joaat(""), 0);
}

#[test]
fn struct_fields_are_found_by_name_or_hash() {
    let s = MetaStruct {
        type_hash: 1,
        fields: vec![(j("name"), MetaValue::Hash(7)), (j("flags"), MetaValue::U32(3))],
    };
    assert_eq!(s.field("name"), Some(&MetaValue::Hash(7)));
    assert_eq!(s.get(j("flags")).and_then(MetaValue::as_u32), Some(3));
    assert_eq!(s.field("missing"), None);
}

#[test]
fn strings_hash_like_names() {
    assert_eq!(MetaValue::Str("map1".into()).as_hash(), Some(j("map1")));
    assert_eq!(MetaValue::Flags { enum_hash: 0, bits: 5, names: vec![] }.as_u32(), Some(5));
    assert_eq!(MetaValue::U64(u64::MAX).as_i64(), None);
}

#[test]
fn values_are_read_as_what_they_are() {
    assert_eq!(f(1.5).as_f32(), Some(1.5f32.to_bits()));
    assert_eq!(MetaValue::I64(16_777_217).as_f32(), Some((16_777_217i64 as f32).to_bits()));
    assert_eq!(MetaValue::Vec4(Vec4::new(1, 2, 3, 4)).as_vec3(), Some(Vec3::new(1, 2, 3)));
    assert_eq!(MetaValue::I8(-1).as_u32(), None);
    assert_eq!(MetaValue::Str("a".into()).as_str(), Some("a"));
    let list = array(vec![MetaValue::Hash(5), MetaValue::Null, MetaValue::Str("x".into())]);
    assert_eq!(list.hashes(), vec![5, j("x")]);
    assert!(MetaValue::Null.items().is_empty());
    assert_eq!(MetaValue::default(), MetaValue::Null);
}

#[test]
fn hashes_come_from_names_hex_or_numbers() {
    assert_eq!(hash_of_str(""), 0);
    assert_eq!(hash_of_str("hash_0000ABCD"), 0xABCD);
    assert_eq!(hash_of_str("0x10"), 0x10);
    assert_eq!(hash_of_str("prop_barrier"), j("prop_barrier"));
    assert_eq!(hash_of(&MetaValue::Str("map1".into())), Some(j("map1")));
    assert_eq!(hash_of(&MetaValue::U32(7)), Some(7));
}

#[test]
fn enums_and_flags_resolve_names() {
    let none = FloatTexts::new();
    let members = [(j("A"), 0), (j("B"), 3)];
    assert_eq!(enum_value(&MetaValue::Str("B".into()), &members, &none), Some(3));
    assert_eq!(enum_value(&MetaValue::Str("5".into()), &members, &none), Some(5));
    assert_eq!(flags_bits(&MetaValue::Str("A, B".into()), &members, &none), Some(0b1001));
    assert_eq!(flags_bits(&MetaValue::Str("".into()), &members, &none), Some(0));
    assert_eq!(flags_bits(&MetaValue::I32(6), &members, &none), Some(6));
    assert_eq!(flags_bits(&MetaValue::Str("Z".into()), &members, &none), None);
}

#[test]
fn vectors_and_bytes_take_several_shapes() {
    let texts = floats(["1", "2", "3"]);
    let none = FloatTexts::new();
    assert_eq!(vec_of(&MetaValue::Str("1, 2, 3".into()), 3, &texts).map(|v| v.z), Some(3.0f32.to_bits()));
    let list = MetaValue::Array(MetaArray {
        item_type: None,
        typed_items: false,
        items: vec![f(1.0), MetaValue::I32(2)],
    });
    assert_eq!(vec_of(&list, 2, &none).map(|v| v.y), Some(2.0f32.to_bits()));
    assert_eq!(vec_of(&list, 3, &none), None);
    assert_eq!(bytes_of(&MetaValue::Str("0A ff".into()), &none), Some(vec![10, 255]));
    assert_eq!(int_of(&MetaValue::Str("0x10".into()), &none), Some(16));
    assert_eq!(int_of(&MetaValue::Str("true".into()), &none), Some(1));
}

// ─── names ───────────────────────────────────────────────────────────────────

#[test]
fn unknown_hashes_print_as_placeholders_that_parse_back() {
    let t = NameTable::empty();
    assert_eq!(t.resolve(0xDEADBEEF), "hash_DEADBEEF");
    assert_eq!(t.resolve(0), "0");
    assert_eq!(parse_unknown("hash_DEADBEEF"), Some(0xDEADBEEF));
    assert_eq!(parse_unknown("CMapData"), None);
}

#[test]
fn extra_lists_add_without_replacing() {
    let mut t = NameTable::with_core("# the map formats\nCMapData\nCEntityDef\n", "CMapTypes\n");
    assert_eq!(t.add_list("# comment\n\nCMapData\nMyOwnStruct\n"), 1);
    assert_eq!(t.get(j("MyOwnStruct")), Some("MyOwnStruct"));
    assert_eq!(t.get(j("CMapTypes")), Some("CMapTypes"));
    assert_eq!(t.len(), 4);
    assert!(!t.is_empty() && NameTable::default().is_empty());
    assert!(!t.add("CMapData"));
    assert_eq!(parse_unknown("hash_DEADBEEFF"), None);
    assert_eq!(parse_unknown("hash_XEADBEEF"), None);
    assert_eq!(parse_unknown("0"), Some(0));
    for s in ["hash_deadbeef", "hash_+EADBEEF", "hash_00000000", "hash_", "", "00"] {
        assert_eq!(parse_unknown(s), None, "{s}");
    }
    // A zero hash never names anything.
    let mut none = NameTable::empty();
    none.add("");
    assert_eq!(none.resolve(0), "0");
}

// ─── Meta files ──────────────────────────────────────────────────────────────

fn put_u16(s: &mut [u8], off: usize, v: u16) {
    s[off..off + 2].copy_from_slice(&v.to_le_bytes());
}

fn put_u32(s: &mut [u8], off: usize, v: u32) {
    s[off..off + 4].copy_from_slice(&v.to_le_bytes());
}

fn put_u64(s: &mut [u8], off: usize, v: u64) {
    s[off..off + 8].copy_from_slice(&v.to_le_bytes());
}

fn put_f32(s: &mut [u8], off: usize, v: f32) {
    s[off..off + 4].copy_from_slice(&v.to_le_bytes());
}

fn packed(block_index: usize, offset: usize) -> u64 {
    (block_index as u64 + 1) | ((offset as u64) << 12)
}

const ROOT: &str = "TestMap";
const ENTITY: &str = "TestEntity";
const FLAGS_ENUM: &str = "TestMapFlags";

/// The Meta system section: header, info tables, then data blocks.
fn sample_meta_system() -> Vec<u8> {
    let mut sys = vec![0u8; 0x600];
    // Layout: structure infos at 0x70 (2 × 32), entries at 0xB0
    // (root 7 × 16 = 0x70, entity 3 × 16 = 0x30), enum info at 0x150
    // (24), enum entries at 0x170 (2 × 8), block headers at 0x180
    // (4 × 16), data at 0x200.
    let (root_entries, entity_entries, enum_info, enum_entries, block_headers) =
        (0xB0usize, 0x120usize, 0x150usize, 0x170usize, 0x180usize);
    let (root_data, string_data, ptr_data, entity_data) = (0x200usize, 0x260usize, 0x270usize, 0x280usize);
    let root_size = 0x50u32;
    let entity_size = 0x20u32;

    put_u32(&mut sys, 0x1C, 1); // root block index
    put_u64(&mut sys, 0x20, SYSTEM_BASE + 0x70);
    put_u64(&mut sys, 0x28, SYSTEM_BASE + enum_info as u64);
    put_u64(&mut sys, 0x30, SYSTEM_BASE + block_headers as u64);
    put_u16(&mut sys, 0x48, 2);
    put_u16(&mut sys, 0x4A, 1);
    put_u16(&mut sys, 0x4C, 4);

    let mut struct_info = |at: usize, name: &str, entries_at: usize, size: u32, count: u16| {
        put_u32(&mut sys, at, j(name));
        put_u64(&mut sys, at + 0x10, SYSTEM_BASE + entries_at as u64);
        put_u32(&mut sys, at + 0x18, size);
        put_u16(&mut sys, at + 0x1E, count);
    };
    struct_info(0x70, ROOT, root_entries, root_size, 7);
    struct_info(0x90, ENTITY, entity_entries, entity_size, 3);

    let mut entry = |at: usize, name: u32, offset: u32, ty: MetaType, unknown: u8, ref_index: i16, ref_key: u32| {
        put_u32(&mut sys, at, name);
        put_u32(&mut sys, at + 4, offset);
        sys[at + 8] = ty.to_byte();
        sys[at + 9] = unknown;
        put_u16(&mut sys, at + 10, ref_index as u16);
        put_u32(&mut sys, at + 12, ref_key);
    };
    // root: name Hash @8, flags IntFlags1 @12, origin Vec3 @16,
    // label CharPointer @32, ARRAYINFO, entities Array(ptr) @48, count UInt @64.
    entry(root_entries, j("name"), 8, MetaType::Hash, 0, 0, 0);
    entry(root_entries + 16, j("flags"), 12, MetaType::IntFlags1, 0, 0, j(FLAGS_ENUM));
    entry(root_entries + 32, j("origin"), 16, MetaType::Vec3, 0, 0, 0);
    entry(root_entries + 48, j("label"), 32, MetaType::CharPointer, 0, 0, 0);
    entry(root_entries + 64, ARRAYINFO, 0, MetaType::Structure, 0, 0, j(ENTITY));
    entry(root_entries + 80, j("entities"), 48, MetaType::Array, 4, 4, 0);
    entry(root_entries + 96, j("count"), 64, MetaType::UnsignedInt, 0, 0, 0);
    // entity: archetype Hash @0, position Vec3 @16, kind ByteEnum @4.
    entry(entity_entries, j("archetype"), 0, MetaType::Hash, 0, 0, 0);
    entry(entity_entries + 16, j("kind"), 4, MetaType::ByteEnum, 0, 0, j(FLAGS_ENUM));
    entry(entity_entries + 32, j("position"), 16, MetaType::Vec3, 0, 0, 0);

    put_u32(&mut sys, enum_info, j(FLAGS_ENUM));
    put_u64(&mut sys, enum_info + 8, SYSTEM_BASE + enum_entries as u64);
    put_u32(&mut sys, enum_info + 0x10, 2);
    put_u32(&mut sys, enum_entries, j("FLAG_LOW"));
    put_u32(&mut sys, enum_entries + 4, 0);
    put_u32(&mut sys, enum_entries + 8, j("FLAG_HIGH"));
    put_u32(&mut sys, enum_entries + 12, 3);

    let blocks: [(u32, usize, usize); 4] = [
        (j(ROOT), root_data, root_size as usize),
        (0x10, string_data, 16),
        (0x07, ptr_data, 16),
        (j(ENTITY), entity_data, 2 * entity_size as usize),
    ];
    for (i, (hash, off, len)) in blocks.iter().enumerate() {
        let h = block_headers + i * 16;
        put_u32(&mut sys, h, *hash);
        put_u32(&mut sys, h + 4, *len as u32);
        put_u64(&mut sys, h + 8, SYSTEM_BASE + *off as u64);
    }

    put_u32(&mut sys, root_data + 8, j("map1"));
    put_u32(&mut sys, root_data + 12, 0b1001);
    put_f32(&mut sys, root_data + 16, 1.0);
    put_f32(&mut sys, root_data + 20, 2.0);
    put_f32(&mut sys, root_data + 24, 3.0);
    put_u64(&mut sys, root_data + 32, packed(1, 0));
    put_u16(&mut sys, root_data + 40, 5);
    put_u64(&mut sys, root_data + 48, packed(2, 0));
    put_u16(&mut sys, root_data + 56, 2);
    put_u32(&mut sys, root_data + 64, 42);
    sys[string_data..string_data + 6].copy_from_slice(b"hello\0");
    put_u64(&mut sys, ptr_data, packed(3, 0));
    put_u64(&mut sys, ptr_data + 8, packed(3, entity_size as usize));
    for (n, (name, x)) in [("prop_a", 10.0f32), ("prop_b", 20.0)].iter().enumerate() {
        let e = entity_data + n * entity_size as usize;
        put_u32(&mut sys, e, j(name));
        sys[e + 4] = 3;
        put_f32(&mut sys, e + 16, *x);
    }
    sys
}

fn sample_meta() -> Vec<u8> {
    build_rsc7(2, &sample_meta_system(), &[])
}

#[test]
fn schema_tables_parse() {
    let file = parse_meta(&sample_meta()).unwrap();
    assert_eq!(file.root_type(), Some(j(ROOT)));
    assert_eq!(file.structs[&j(ROOT)].entries.len(), 7);
    assert_eq!(file.structs[&j(ENTITY)].size, 0x20);
    assert_eq!(file.enums[&j(FLAGS_ENUM)].entries, vec![(j("FLAG_LOW"), 0), (j("FLAG_HIGH"), 3)]);
}

#[test]
fn meta_schema_the_tree_matches_the_bytes() {
    let dump = dump_meta(&sample_meta()).unwrap();
    assert!(dump.warnings.is_empty(), "{:?}", dump.warnings);
    let root = dump.root.as_struct().unwrap();
    assert_eq!(root.field("name"), Some(&MetaValue::Hash(j("map1"))));
    assert_eq!(
        root.field("flags"),
        Some(&MetaValue::Flags {
            enum_hash: j(FLAGS_ENUM),
            bits: 9,
            names: vec![j("FLAG_LOW"), j("FLAG_HIGH")]
        })
    );
    assert_eq!(root.field("origin"), Some(&MetaValue::Vec3(v3(1.0, 2.0, 3.0))));
    assert_eq!(root.field("label"), Some(&MetaValue::Str("hello".into())));
    assert_eq!(root.field("count"), Some(&MetaValue::U32(42)));
    let entities = root.field("entities").unwrap().as_array().unwrap();
    assert!(entities.typed_items);
    assert_eq!(entities.item_type, Some(j(ENTITY)));
    let b = entities.items[1].as_struct().unwrap();
    assert_eq!(b.type_hash, j(ENTITY));
    assert_eq!(b.field("archetype"), Some(&MetaValue::Hash(j("prop_b"))));
    assert_eq!(b.field("position"), Some(&MetaValue::Vec3(v3(20.0, 0.0, 0.0))));
    assert_eq!(
        b.field("kind"),
        Some(&MetaValue::Enum { enum_hash: j(FLAGS_ENUM), value: 3, name: Some(j("FLAG_HIGH")) })
    );
}

#[test]
fn a_file_without_schema_reports_it_instead_of_panicking() {
    let mut sys = sample_meta_system();
    put_u16(&mut sys, 0x48, 0); // no structure infos
    let dump = dump_meta(&build_rsc7(2, &sys, &[])).unwrap();
    assert_eq!(dump.root, MetaValue::Null);
    assert!(dump.warnings[0].message().contains("no schema"), "{:?}", dump.warnings);
}

/// The structures that the samples below are made of, as table lines.
fn map_schema() -> Schema {
    let m = |name: &str, size: u32, entries: &[(u32, u32, u8, i16, u32)]| {
        let mut line = format!("M {:x} {:x} 1024 {size}", j(name), j(name) ^ 0x55);
        for (n, off, ty, ri, rk) in entries {
            line.push_str(&format!(" {n:x},{off},{ty:x},0,{ri},{rk:x}"));
        }
        line.push('\n');
        line
    };
    let p = |name: &str, size: u32, entries: &[(u32, u8, u16, u8, u32)]| {
        let mut line = format!("P {:x} 0 0 {size}", j(name));
        for (n, ty, off, sub, rk) in entries {
            line.push_str(&format!(" {n:x},{ty:x},{off},{sub},{rk:x}"));
        }
        line.push('\n');
        line
    };
    let mut meta = String::from("# structures of a map file\n\n");
    meta += &m("CMapData", 512, &[
        (j("name"), 8, 0x4A, 0, 0),
        (j("parent"), 12, 0x4A, 0, 0),
        (j("flags"), 16, 0x15, 0, 0),
        (j("contentFlags"), 20, 0x15, 0, 0),
        (j("streamingExtentsMin"), 32, 0x33, 0, 0),
        (j("streamingExtentsMax"), 48, 0x33, 0, 0),
        (j("entitiesExtentsMin"), 64, 0x33, 0, 0),
        (j("entitiesExtentsMax"), 80, 0x33, 0, 0),
        (ARRAYINFO, 0, 0x07, 0, 0),
        (j("entities"), 96, 0x52, 8, 0),
        (ARRAYINFO, 0, 0x4A, 0, 0),
        (j("physicsDictionaries"), 160, 0x52, 10, 0),
        (j("block"), 432, 0x05, 0, j("CBlockDesc")),
    ]);
    meta += &m("CEntityDef", 128, &[
        (j("archetypeName"), 8, 0x4A, 0, 0),
        (j("flags"), 12, 0x15, 0, 0),
        (j("guid"), 16, 0x15, 0, 0),
        (j("position"), 32, 0x33, 0, 0),
        (j("rotation"), 48, 0x34, 0, 0),
        (j("scaleXY"), 64, 0x21, 0, 0),
        (j("scaleZ"), 68, 0x21, 0, 0),
        (j("parentIndex"), 72, 0x14, 0, 0),
        (j("lodDist"), 76, 0x21, 0, 0),
        (j("lodLevel"), 84, 0x62, 0, j("rage__eLodType")),
        (j("priorityLevel"), 92, 0x62, 0, j("rage__ePriorityLevel")),
    ]);
    meta += &m("CBlockDesc", 72, &[
        (j("version"), 0, 0x15, 0, 0),
        (j("flags"), 4, 0x15, 0, 0),
        (j("name"), 8, 0x44, 0, 0),
        (j("exportedBy"), 24, 0x44, 0, 0),
    ]);
    meta += &format!(
        "ME {:x} 1 {:x},0 {:x},5\nME {:x} 2 {:x},0\n",
        j("rage__eLodType"),
        j("LODTYPES_DEPTH_HD"),
        j("LODTYPES_DEPTH_ORPHANHD"),
        j("rage__ePriorityLevel"),
        j("PRI_REQUIRED")
    );
    let mut pso = p("CPackFileMetaData", 104, &[
        (ARRAYINFO, 0x0C, 0, 0, j("CMapDataGroup")),
        (j("MapDataGroups"), 0x0D, 8, 0, 0),
        (ARRAYINFO, 0x0C, 0, 0, j("CImapDependencies")),
        (j("imapDependencies_2"), 0x0D, 24, 0, 2),
        (ARRAYINFO, 0x0C, 0, 0, j("CInteriorBoundsFiles")),
        (j("Interiors"), 0x0D, 40, 0, 4),
        (j("HDTxdBindingArray"), 0x0D, 56, 0, 0),
        (j("imapDependencies"), 0x0D, 72, 0, 0),
        (j("itypDependencies_2"), 0x0D, 88, 0, 2),
    ]);
    pso += &p("CMapDataGroup", 56, &[
        (j("Name"), 0x0B, 0, 7, 0),
        (ARRAYINFO, 0x0B, 0, 7, 0),
        (j("Bounds"), 0x0D, 8, 0, 1),
        (j("Flags"), 0x04, 24, 0, 0),
    ]);
    pso += &p("CImapDependencies", 40, &[
        (j("imapName"), 0x0B, 8, 7, 0),
        (ARRAYINFO, 0x0E, 0, 0, j("manifestFlags__Enum")),
        (j("manifestFlags"), 0x0F, 12, 0, 1),
        (ARRAYINFO, 0x0B, 0, 7, 0),
        (j("itypDepArray"), 0x0D, 16, 0, 3),
    ]);
    pso += &p("CInteriorBoundsFiles", 40, &[
        (j("Name"), 0x0B, 8, 7, 0),
        (ARRAYINFO, 0x0B, 0, 7, 0),
        (j("Bounds"), 0x0D, 16, 0, 1),
    ]);
    pso += &format!("PE {:x} 1 {:x},0\n", j("manifestFlags__Enum"), j("INTERIOR_DATA"));
    Schema::builtin(&meta, &pso).unwrap_or_else(|e| panic!("{}", e.message()))
}

fn map_names() -> NameTable {
    let mut t = NameTable::empty();
    t.add_list(
        "CMapData\nCEntityDef\nCBlockDesc\nname\nparent\nflags\ncontentFlags\nstreamingExtentsMin\n\
         streamingExtentsMax\nentitiesExtentsMin\nentitiesExtentsMax\nentities\nphysicsDictionaries\nblock\n\
         archetypeName\nguid\nposition\nrotation\nscaleXY\nscaleZ\nparentIndex\nlodDist\nlodLevel\n\
         priorityLevel\nversion\nexportedBy\nLODTYPES_DEPTH_ORPHANHD\nPRI_REQUIRED\nprop_bench_01a\n\
         CPackFileMetaData\nMapDataGroups\nimapDependencies_2\nInteriors\nCImapDependencies\nimapName\n\
         manifestFlags\nitypDepArray\nINTERIOR_DATA\nCMapDataGroup\nName\nBounds\nFlags\n\
         HDTxdBindingArray\nimapDependencies\nitypDependencies_2\nCInteriorBoundsFiles\n",
    );
    t
}

fn sample_ymap() -> MetaValue {
    let entity = |arch: &str, x: f32| {
        st("CEntityDef", vec![
            ("archetypeName", MetaValue::Str(arch.into())),
            ("flags", MetaValue::U32(1572864)),
            ("guid", MetaValue::U32(12345)),
            ("position", MetaValue::Vec3(v3(x, 2.0, 3.0))),
            ("rotation", MetaValue::Vec4(Vec4::new(0, 0, 0, 1.0f32.to_bits()))),
            ("scaleXY", f(1.0)),
            ("scaleZ", f(1.0)),
            ("parentIndex", MetaValue::I32(-1)),
            ("lodDist", f(120.0)),
            ("lodLevel", MetaValue::Str("LODTYPES_DEPTH_ORPHANHD".into())),
            ("priorityLevel", MetaValue::Str("PRI_REQUIRED".into())),
        ])
    };
    st("CMapData", vec![
        ("name", MetaValue::Str("casas_praia_extras".into())),
        ("parent", MetaValue::Str("".into())),
        ("flags", MetaValue::U32(0)),
        ("contentFlags", MetaValue::U32(1)),
        ("streamingExtentsMin", MetaValue::Vec3(v3(-10.0, -10.0, -10.0))),
        ("streamingExtentsMax", MetaValue::Vec3(v3(10.0, 10.0, 10.0))),
        ("entitiesExtentsMin", MetaValue::Vec3(v3(-1.0, -1.0, -1.0))),
        ("entitiesExtentsMax", MetaValue::Vec3(v3(1.0, 1.0, 1.0))),
        ("entities", MetaValue::Array(MetaArray {
            item_type: Some(j("CEntityDef")),
            typed_items: true,
            items: vec![entity("prop_barier_conc_05b", 1.0), entity("prop_bench_01a", 5.5)],
        })),
        ("physicsDictionaries", array(vec![MetaValue::Str("cs1_02_phys".into())])),
        ("block", st("CBlockDesc", vec![
            ("version", MetaValue::U32(0)),
            ("flags", MetaValue::U32(0)),
            ("name", MetaValue::Str("built by rage".into())),
            ("exportedBy", MetaValue::Str("rage-formats".into())),
        ])),
    ])
}

#[test]
fn a_ymap_round_trips_through_the_reader() {
    let root = sample_ymap();
    let schema = map_schema();
    let written = build_meta(&root, &schema, &tree_floats(&root)).unwrap_or_else(|e| panic!("{}", e.message()));
    assert!(written.warnings.is_empty(), "{:?}", written.warnings);
    let file = parse_meta(&written.bytes).unwrap();
    assert_eq!(file.root_type(), Some(j("CMapData")));
    let dump = dump_meta(&written.bytes).unwrap();
    assert!(dump.warnings.is_empty(), "{:?}", dump.warnings);
    let map = dump.root.as_struct().unwrap();
    assert_eq!(map.field("name"), Some(&MetaValue::Hash(j("casas_praia_extras"))));
    assert_eq!(map.field("contentFlags"), Some(&MetaValue::U32(1)));
    let ents = map.field("entities").unwrap().items();
    assert_eq!(ents.len(), 2);
    let e1 = ents[1].as_struct().unwrap();
    assert_eq!(e1.type_hash, j("CEntityDef"));
    assert_eq!(e1.field("archetypeName"), Some(&MetaValue::Hash(j("prop_bench_01a"))));
    assert_eq!(e1.field("position"), Some(&MetaValue::Vec3(v3(5.5, 2.0, 3.0))));
    assert_eq!(e1.field("parentIndex"), Some(&MetaValue::I32(-1)));
    assert!(
        matches!(e1.field("lodLevel"), Some(MetaValue::Enum { name: Some(n), .. }) if *n == j("LODTYPES_DEPTH_ORPHANHD")),
        "{:?}",
        e1.field("lodLevel")
    );
    assert_eq!(map.field("physicsDictionaries").unwrap().items(), &[MetaValue::Hash(j("cs1_02_phys"))]);
    let block = map.field("block").unwrap().as_struct().unwrap();
    assert_eq!(block.field("exportedBy"), Some(&MetaValue::Str("rage-formats".into())));

    // The placement reader sees the same entities.
    let entities = parse_ymap_entities(&written.bytes).unwrap();
    assert_eq!(entities.len(), 2);
    assert_eq!(entities[1].archetype_hash, j("prop_bench_01a"));
}

#[test]
fn meta_write_dumped_xml_builds_back_to_the_same_dump() {
    let schema = map_schema();
    let root = sample_ymap();
    let written = build_meta(&root, &schema, &tree_floats(&root)).unwrap();
    let dump1 = dump_meta(&written.bytes).unwrap();
    for names in [NameTable::default(), map_names()] {
        let xml = xml_of(&dump1.root, &names);
        let value = xml_tree(&xml);
        let again = build_meta(&value, &schema, &tree_floats(&value)).unwrap();
        assert!(again.warnings.is_empty(), "{:?}", again.warnings);
        let dump2 = dump_meta(&again.bytes).unwrap();
        assert_eq!(xml_of(&dump2.root, &names), xml);
    }
}

#[test]
fn meta_write_the_files_own_schema_is_enough_to_rebuild_it() {
    let schema = map_schema();
    let root = sample_ymap();
    let written = build_meta(&root, &schema, &tree_floats(&root)).unwrap();
    let own = Schema::from_file(&written.bytes).unwrap();
    assert!(own.meta_structs.contains_key(&j("CMapData")) && own.meta_structs.contains_key(&j("CEntityDef")));
    assert_eq!(own.meta_structs[&j("CMapData")], schema.meta_structs[&j("CMapData")]);
    let dump = dump_meta(&written.bytes).unwrap();
    let again = build_meta(&dump.root, &own, &tree_floats(&dump.root)).unwrap();
    assert_eq!(dump_meta(&again.bytes).unwrap().root, dump.root);
    assert!(again.warnings.is_empty());
    // What the file carries is part of the schema it was built by, and enough
    // for the very same bytes.
    assert!(own.meta_structs.iter().all(|(k, d)| schema.meta_structs[k] == *d));
    assert!(own.meta_enums.iter().all(|(k, d)| schema.meta_enums[k] == *d));
    assert!(own.pso_structs.is_empty() && own.pso_enums.is_empty());
    let whole = build_meta(&dump.root, &schema, &tree_floats(&dump.root)).unwrap();
    assert_eq!(again.bytes, whole.bytes);
}

#[test]
fn only_a_structure_that_is_written_can_hold_itself() {
    let table = format!(
        "M {:x} 1 1024 16 {:x},0,5,0,0,{:x}\nM {:x} 1 1024 16 {:x},0,15,0,0,0\n",
        j("Loop"),
        j("inner"),
        j("Loop"),
        j("Fine"),
        j("n"),
    );
    let schema = Schema::parse_table(&table).unwrap();
    let none = FloatTexts::new();
    let fine = build_meta(&st("Fine", vec![("n", MetaValue::U32(7))]), &schema, &none).unwrap();
    assert!(fine.warnings.is_empty(), "{:?}", fine.warnings);
    assert_eq!(
        dump_meta(&fine.bytes).unwrap().root,
        st("Fine", vec![("n", MetaValue::U32(7))])
    );
    let err = build_meta(&st("Loop", vec![]), &schema, &none).unwrap_err();
    assert_eq!(err, MetaBuildError::Endless);
    assert_eq!(err.message(), "a structure of the schema holds itself");
}

#[test]
fn raw_bytes_come_back_from_a_block_of_their_own() {
    let table = format!(
        "M {:x} 1 1024 32 {:x},0,59,0,0,0 {:x},8,59,0,0,0 {:x},16,59,0,0,0\n",
        j("Raw"),
        j("few"),
        j("many"),
        j("none")
    );
    let schema = Schema::builtin(&table, "").unwrap_or_else(|e| panic!("{}", e.message()));
    let root = st("Raw", vec![
        ("few", MetaValue::Bytes(vec![1, 2, 3])),
        ("many", MetaValue::Bytes((0..20_000u32).map(|i| i as u8).collect())),
        ("none", MetaValue::Bytes(vec![])),
    ]);
    let written = build_meta(&root, &schema, &FloatTexts::new()).unwrap_or_else(|e| panic!("{}", e.message()));
    assert!(written.warnings.is_empty(), "{:?}", written.warnings);
    let dump = dump_meta(&written.bytes).unwrap();
    assert!(dump.warnings.is_empty(), "{:?}", dump.warnings);
    assert_eq!(dump.root, root);
}

#[test]
fn unknown_root_and_bad_values_are_reported() {
    let schema = map_schema();
    let none = FloatTexts::new();
    let err = build_meta(&st("NotAThing", vec![]), &schema, &none).unwrap_err();
    assert!(err.message().contains("no schema for the root"), "{}", err.message());
    let root = st("CMapData", vec![
        ("flags", MetaValue::Str("lots".into())),
        ("entities", MetaValue::Str("no".into())),
    ]);
    let w = build_meta(&root, &schema, &none).unwrap();
    assert_eq!(w.warnings.len(), 2, "{:?}", w.warnings);
    let first = w.warnings[0].message("Str(\"lots\")");
    assert!(first.contains("is not a integer") || first.contains("not a"), "{first}");
    let member = format!("{:#010x}.{:#010x}", j("CMapData"), j("flags"));
    assert_eq!(first, format!("{member}: value Str(\"lots\") is not a integer"));
}

#[test]
fn warnings_on_values_that_are_no_number_are_one() {
    let schema = map_schema();
    let none = FloatTexts::new();
    let (nan, other, negative) = (0x7FC0_0000, 0x7F80_0001, 0xFFFF_FFFF);
    let list = |bits: &[u32]| {
        let items = bits.iter().map(|b| MetaValue::F32(*b)).collect();
        MetaValue::Array(MetaArray { item_type: None, typed_items: false, items })
    };
    // One warning for the three that print alike, one for either zero.
    let groups = list(&[nan, other, 0, negative, 0x8000_0000, 0]);
    let w = build_pso(&st("CPackFileMetaData", vec![("MapDataGroups", groups)]), &schema, &none).unwrap();
    assert_eq!(w.warnings.len(), 3, "{:?}", w.warnings);
    let member = format!("{:#010x}.{:#010x}", j("CPackFileMetaData"), j("MapDataGroups"));
    assert_eq!(w.warnings[0].message("F32(NaN)"), format!("{member}: element F32(NaN) is not a structure"));
    assert_eq!(w.warnings[2].message("F32(-0.0)"), format!("{member}: element F32(-0.0) is not a structure"));
    // The same inside a value.
    for inner in [other, 0x3F80_0000] {
        let entity = |bits: &[u32]| st("CEntityDef", vec![("position", list(bits))]);
        let items = vec![entity(&[nan, 0]), entity(&[inner, 0])];
        let entities = MetaValue::Array(MetaArray { item_type: None, typed_items: true, items });
        let w = build_meta(&st("CMapData", vec![("entities", entities)]), &schema, &none).unwrap();
        assert_eq!(w.warnings.len(), if inner == other { 1 } else { 2 }, "{:?}", w.warnings);
    }
}

#[test]
fn members_that_lie_outside_are_named_by_the_reader_only() {
    let mut s = vec![0u8; 0x200];
    put_u32(&mut s, 0x10, 0x5052_4430);
    put_u64(&mut s, 0x20, SYSTEM_BASE + 0x80);
    put_u16(&mut s, 0x48, 1);
    put_u32(&mut s, 0x80, 0x1234);
    put_u64(&mut s, 0x90, SYSTEM_BASE + 0x10_0000);
    put_u16(&mut s, 0x9E, 1);
    let file = build_rsc7(2, &s, &[]);
    assert_eq!(Schema::from_file(&file).err().map(|e| e.message()).as_deref(), Some("meta: members out of bounds"));
    assert_eq!(
        parse_meta(&file).err().map(|e| e.message()).as_deref(),
        Some("meta: members of structure 0x00001234 out of bounds")
    );
    put_u16(&mut s, 0x48, 0);
    put_u64(&mut s, 0x28, SYSTEM_BASE + 0x100);
    put_u16(&mut s, 0x4A, 1);
    put_u32(&mut s, 0x100, 0x5678);
    put_u64(&mut s, 0x108, SYSTEM_BASE + 0x10_0000);
    put_u32(&mut s, 0x110, 2);
    let file = build_rsc7(2, &s, &[]);
    assert_eq!(Schema::from_file(&file).err().map(|e| e.message()).as_deref(), Some("meta: enum members out of bounds"));
    assert_eq!(
        parse_meta(&file).err().map(|e| e.message()).as_deref(),
        Some("meta: members of enum 0x00005678 out of bounds")
    );
    put_u16(&mut s, 0x4A, 0);
    assert_eq!(
        parse_meta(&build_rsc7(2, &s, &[])).err().map(|e| e.message()).as_deref(),
        Some("ytyp: no data blocks")
    );
}

// ─── schema tables ───────────────────────────────────────────────────────────

#[test]
fn merge_prefers_the_newcomer() {
    let mut a = Schema::parse_table("M 1 2 1024 16 3,0,15,0,0,0\n").unwrap();
    let b = Schema::parse_table("M 1 2 1024 32 3,0,15,0,0,0\nME 9 0 a,1 b,2\n").unwrap();
    a.merge(b);
    assert_eq!(a.meta_structs[&1].size, 32);
    assert_eq!(a.meta_enums[&9].entries, vec![(0xa, 1), (0xb, 2)]);
}

#[test]
fn a_files_own_schema_round_trips_through_the_meta_writer() {
    // The writer's side is checked above; here only the reader's.
    assert!(Schema::from_file(b"nope").is_err());
}

#[test]
fn bad_table_lines_are_refused() {
    for text in ["M 1\n", "M zz 2 1024 16\n", "M 1 2 1024 16 3,0\n", "ME 1 0 a\n", "Q 1\n"] {
        let e = Schema::parse_table(text).unwrap_err();
        assert!(!e.message().is_empty(), "{text}");
    }
    assert!(Schema::parse_table("# only a comment\n").unwrap().is_empty());
}

// ─── PSO files ───────────────────────────────────────────────────────────────

fn be_u32(v: &mut [u8], at: usize, x: u32) {
    v[at..at + 4].copy_from_slice(&x.to_be_bytes());
}

fn be_u16(v: &mut [u8], at: usize, x: u16) {
    v[at..at + 2].copy_from_slice(&x.to_be_bytes());
}

fn be_u64(v: &mut [u8], at: usize, x: u64) {
    v[at..at + 8].copy_from_slice(&x.to_be_bytes());
}

/// A packed pointer in its 8-byte slot: the u32 first, padding after.
fn pointer(block: u32, offset: u32) -> u64 {
    u64::from(block | (offset << 12)) << 32
}

const PSO_ROOT: &str = "TestRoot";
const CHILD: &str = "TestChild";
const PSO_FLAGS: &str = "TestFlags";

/// Builds the fixture. `new_pmap` picks the later PMAP header layout.
fn sample_pso(new_pmap: bool) -> Vec<u8> {
    // Data section: header 8, root struct at 8 (size 32), child structs
    // at 40 and 64 (size 24 each), pointer array at 88 (16 bytes).
    let mut data = vec![0u8; 104];
    be_u32(&mut data, 0, SECTION_PSIN);
    be_u32(&mut data, 4, 104);
    // root: name hash @0, flags u16 @4, children Array_Structure @8.
    be_u32(&mut data, 8, j("map1"));
    be_u16(&mut data, 12, 0b101);
    be_u64(&mut data, 16, pointer(4, 0));
    be_u16(&mut data, 24, 2);
    be_u16(&mut data, 26, 2);
    // children: label char[8] @0, weight f32 @8, kind enum u8 @12.
    data[40..46].copy_from_slice(b"first\0");
    be_u32(&mut data, 48, 1.5f32.to_bits());
    data[52] = 2;
    data[64..71].copy_from_slice(b"second\0");
    be_u32(&mut data, 72, 2.5f32.to_bits());
    data[76] = 1;
    // pointer array: two packed pointers to blocks 2 and 3.
    be_u64(&mut data, 88, pointer(2, 0));
    be_u64(&mut data, 96, pointer(3, 0));

    // PMAP: root id 1, four blocks.
    let blocks: [(u32, u32, u32); 4] = [(j(PSO_ROOT), 8, 32), (j(CHILD), 40, 24), (j(CHILD), 64, 24), (7, 88, 16)];
    let head = if new_pmap { 24 } else { 16 };
    let mut pmap = vec![0u8; head + 16 * blocks.len()];
    be_u32(&mut pmap, 0, SECTION_PMAP);
    let pmap_len = pmap.len() as u32;
    be_u32(&mut pmap, 4, pmap_len);
    be_u32(&mut pmap, 8, 1);
    if new_pmap {
        be_u16(&mut pmap, 12, 0);
        be_u16(&mut pmap, 16, blocks.len() as u16);
    } else {
        be_u16(&mut pmap, 12, blocks.len() as u16);
        be_u16(&mut pmap, 14, 0x7070);
    }
    for (i, (name, off, len)) in blocks.iter().enumerate() {
        let at = head + i * 16;
        be_u32(&mut pmap, at, *name);
        be_u32(&mut pmap, at + 4, *off);
        be_u32(&mut pmap, at + 12, *len);
    }

    // PSCH: root struct, child struct, flags enum, kind enum.
    let mut body = Vec::new();
    let mut index = Vec::new();
    let mut add_struct = |name: &str, size: u32, entries: &[(u32, u8, u8, u16, u32)]| {
        index.push((j(name), body.len()));
        body.extend_from_slice(&((entries.len() as u32) & 0xFFFF).to_be_bytes());
        body.extend_from_slice(&size.to_be_bytes());
        body.extend_from_slice(&0u32.to_be_bytes());
        for (n, t, s, o, r) in entries {
            body.extend_from_slice(&n.to_be_bytes());
            body.push(*t);
            body.push(*s);
            body.extend_from_slice(&o.to_be_bytes());
            body.extend_from_slice(&r.to_be_bytes());
        }
    };
    add_struct(PSO_ROOT, 32, &[
        (j("name"), PsoType::String.to_byte(), 7, 0, 0),
        (ARRAYINFO, PsoType::Enum.to_byte(), 0, 0, j(PSO_FLAGS)),
        (j("flags"), PsoType::Flags.to_byte(), 1, 4, 1),
        (ARRAYINFO, PsoType::Structure.to_byte(), 3, 0, j(CHILD)),
        (j("children"), PsoType::Array.to_byte(), 0, 8, 3),
    ]);
    add_struct(CHILD, 24, &[
        (j("label"), PsoType::String.to_byte(), 0, 0, 8 << 16),
        (j("weight"), PsoType::Float.to_byte(), 0, 8, 0),
        (j("kind"), PsoType::Enum.to_byte(), 2, 12, j("TestKind")),
    ]);
    let mut add_enum = |name: &str, entries: &[(&str, i32)]| {
        index.push((j(name), body.len()));
        body.extend_from_slice(&((1u32 << 24) | entries.len() as u32).to_be_bytes());
        for (n, v) in entries {
            body.extend_from_slice(&j(n).to_be_bytes());
            body.extend_from_slice(&v.to_be_bytes());
        }
    };
    add_enum(PSO_FLAGS, &[("FLAG_A", 0), ("FLAG_B", 1), ("FLAG_C", 2)]);
    add_enum("TestKind", &[("KIND_ONE", 1), ("KIND_TWO", 2)]);
    let index_len = 12 + 8 * index.len();
    let mut psch = Vec::with_capacity(index_len + body.len());
    psch.extend_from_slice(&SECTION_PSCH.to_be_bytes());
    psch.extend_from_slice(&((index_len + body.len()) as u32).to_be_bytes());
    psch.extend_from_slice(&(index.len() as u32).to_be_bytes());
    for (name, off) in &index {
        psch.extend_from_slice(&name.to_be_bytes());
        psch.extend_from_slice(&((index_len + off) as u32).to_be_bytes());
    }
    psch.extend_from_slice(&body);

    let mut file = data;
    file.extend_from_slice(&pmap);
    file.extend_from_slice(&psch);
    file
}

#[test]
fn both_pmap_layouts_parse() {
    for new_pmap in [false, true] {
        let file = parse_pso(&sample_pso(new_pmap)).unwrap();
        assert_eq!(file.root_id, 1);
        assert_eq!(file.blocks.len(), 4);
        assert_eq!(file.root_type(), Some(j(PSO_ROOT)));
        assert_eq!(file.structs.len(), 2);
        assert_eq!(file.enums.len(), 2);
    }
}

#[test]
fn pso_the_tree_matches_the_bytes() {
    let dump = dump_pso(&sample_pso(false)).unwrap();
    assert!(dump.warnings.is_empty(), "{:?}", dump.warnings);
    let root = dump.root.as_struct().unwrap();
    assert_eq!(root.type_hash, j(PSO_ROOT));
    assert_eq!(root.field("name"), Some(&MetaValue::Hash(j("map1"))));
    assert_eq!(
        root.field("flags"),
        Some(&MetaValue::Flags { enum_hash: j(PSO_FLAGS), bits: 5, names: vec![j("FLAG_A"), j("FLAG_C")] })
    );
    let children = root.field("children").unwrap().as_array().unwrap();
    assert!(children.typed_items);
    assert_eq!(children.item_type, Some(j(CHILD)));
    assert_eq!(children.items.len(), 2);
    let second = children.items[1].as_struct().unwrap();
    assert_eq!(second.field("label"), Some(&MetaValue::Str("second".into())));
    assert_eq!(second.field("weight"), Some(&f(2.5)));
    assert_eq!(
        second.field("kind"),
        Some(&MetaValue::Enum { enum_hash: j("TestKind"), value: 1, name: Some(j("KIND_ONE")) })
    );
}

#[test]
fn not_pso_is_refused() {
    let err = parse_pso(b"RSC7\0\0\0\0").unwrap_err().message();
    assert!(err.contains("not a PSO file"), "{err}");
    assert!(!is_pso(b"RSC7"));
    assert!(is_pso(b"PSIN"));
}

#[test]
fn a_truncated_file_errors_instead_of_panicking() {
    let full = sample_pso(false);
    for cut in [4, 12, 40, 120, full.len() - 3] {
        let _ = parse_pso(&full[..cut]);
    }
}

fn sample_manifest() -> MetaValue {
    st("CPackFileMetaData", vec![
        ("MapDataGroups", array(vec![st("CMapDataGroup", vec![
            ("Name", MetaValue::Str("casas_praia_extras".into())),
            ("Bounds", array(vec![MetaValue::Str("casas_praia_extras".into())])),
            ("Flags", MetaValue::U32(0)),
        ])])),
        ("HDTxdBindingArray", array(vec![])),
        ("imapDependencies", array(vec![])),
        ("imapDependencies_2", array(vec![st("CImapDependencies", vec![
            ("imapName", MetaValue::Str("casas_praia_extras".into())),
            ("manifestFlags", MetaValue::Str("INTERIOR_DATA".into())),
            ("itypDepArray", array(vec![MetaValue::Str("casas_praia_types".into()), MetaValue::Str("v_int_1".into())])),
        ])])),
        ("itypDependencies_2", array(vec![])),
        ("Interiors", array(vec![st("CInteriorBoundsFiles", vec![
            ("Name", MetaValue::Str("casas_praia_extras".into())),
            ("Bounds", array(vec![MetaValue::Str("casas_praia_extras".into())])),
        ])])),
    ])
}

#[test]
fn a_manifest_round_trips_through_the_reader() {
    let none = FloatTexts::new();
    let w = build_pso(&sample_manifest(), &map_schema(), &none).unwrap();
    assert!(w.warnings.is_empty(), "{:?}", w.warnings);
    let file = parse_pso(&w.bytes).unwrap();
    assert_eq!(file.root_type(), Some(j("CPackFileMetaData")));
    let dump = dump_pso(&w.bytes).unwrap();
    assert!(dump.warnings.is_empty(), "{:?}", dump.warnings);
    let root = dump.root.as_struct().unwrap();
    let deps = root.field("imapDependencies_2").unwrap().items();
    assert_eq!(deps.len(), 1);
    let dep = deps[0].as_struct().unwrap();
    assert_eq!(dep.field("imapName"), Some(&MetaValue::Hash(j("casas_praia_extras"))));
    assert_eq!(dep.field("itypDepArray").unwrap().items().len(), 2);
    assert!(
        matches!(dep.field("manifestFlags"), Some(MetaValue::Flags { bits, .. }) if *bits != 0),
        "{:?}",
        dep.field("manifestFlags")
    );

    // The manifest reader agrees.
    let (_, manifest) = parse_ymf(&w.bytes, None, &none).unwrap();
    assert_eq!(manifest.imap_dependencies_2.len(), 1);
    assert_eq!(manifest.imap_dependencies_2[0].name.hash, j("casas_praia_extras"));
    assert!(!manifest.is_empty());
}

#[test]
fn pso_write_dumped_xml_builds_back_to_the_same_dump() {
    let schema = map_schema();
    let w = build_pso(&sample_manifest(), &schema, &FloatTexts::new()).unwrap();
    let dump1 = dump_pso(&w.bytes).unwrap();
    for names in [NameTable::default(), map_names()] {
        let xml = xml_of(&dump1.root, &names);
        let value = xml_tree(&xml);
        let again = build_pso(&value, &schema, &tree_floats(&value)).unwrap();
        assert!(again.warnings.is_empty(), "{:?}", again.warnings);
        let dump2 = dump_pso(&again.bytes).unwrap();
        assert_eq!(xml_of(&dump2.root, &names), xml);
    }
}

#[test]
fn pso_write_the_files_own_schema_is_enough_to_rebuild_it() {
    let schema = map_schema();
    let none = FloatTexts::new();
    let w = build_pso(&sample_manifest(), &schema, &none).unwrap();
    let own = Schema::from_file(&w.bytes).unwrap();
    assert!(own.pso_structs.contains_key(&j("CPackFileMetaData")));
    assert_eq!(own.pso_structs[&j("CImapDependencies")], schema.pso_structs[&j("CImapDependencies")]);
    let dump = dump_pso(&w.bytes).unwrap();
    let again = build_pso(&dump.root, &own, &none).unwrap();
    assert_eq!(dump_pso(&again.bytes).unwrap().root, dump.root);
    assert!(own.pso_structs.iter().all(|(k, d)| schema.pso_structs[k] == *d));
    assert!(own.pso_enums.iter().all(|(k, d)| schema.pso_enums[k] == *d));
    assert!(own.meta_structs.is_empty() && own.meta_enums.is_empty());
    let whole = build_pso(&dump.root, &schema, &none).unwrap();
    assert_eq!(again.bytes, whole.bytes);
}

#[test]
fn only_a_pso_structure_that_is_written_can_hold_itself() {
    let table = format!(
        "P {:x} 0 0 16 {:x},c,0,0,{:x}\nP {:x} 0 0 8 {:x},6,0,0,0\n",
        j("Loop"),
        j("inner"),
        j("Loop"),
        j("Fine"),
        j("n"),
    );
    let schema = Schema::builtin("", &table).unwrap_or_else(|e| panic!("{}", e.message()));
    let none = FloatTexts::new();
    let root = st("Fine", vec![("n", MetaValue::U32(7))]);
    let fine = build_pso(&root, &schema, &none).unwrap();
    assert_eq!(dump_pso(&fine.bytes).unwrap().root, root);
    let err = build_pso(&st("Loop", vec![]), &schema, &none).unwrap_err();
    assert_eq!(err, PsoBuildError::Endless);
    assert_eq!(err.message(), "a structure of the schema holds itself");
}

/// A schema with a member of every kind.
fn kinds_schema() -> Schema {
    let root = [
        (j("b"), 0x00, 0, 0, 0),
        (j("i8"), 0x01, 1, 0, 0),
        (j("u16"), 0x04, 2, 0, 0),
        (j("half"), 0x1E, 4, 0, 0),
        (j("long"), 0x20, 8, 0, 0),
        (j("v2"), 0x08, 16, 0, 0),
        (j("v3"), 0x09, 24, 0, 0),
        (j("v4a"), 0x15, 48, 0, 0),
        (j("buffer"), 0x0B, 64, 0, 8 << 16),
        (j("pointed"), 0x0B, 72, 2, 0),
        (j("counted"), 0x0B, 80, 3, 0),
        (j("small"), 0x0E, 96, 2, j("Colour")),
        (ARRAYINFO, 0x0E, 0, 0, j("Colour")),
        (j("bits"), 0x0F, 98, 1, 12),
        (j("inner"), 0x0C, 100, 0, j("Leaf")),
        (j("far"), 0x0C, 112, 3, 0),
        (j("none"), 0x0C, 120, 3, 0),
        (ARRAYINFO, 0x05, 0, 0, 0),
        (j("fixed"), 0x0D, 128, 1, 3 << 16 | 17),
        (ARRAYINFO, 0x0C, 0, 3, 0),
        (j("many"), 0x0D, 144, 0, 19),
        (ARRAYINFO, 0x0B, 0, 2, 0),
        (j("texts"), 0x0D, 160, 0, 21),
        (ARRAYINFO, 0x0E, 0, 0, j("Colour")),
        (j("colours"), 0x0D, 176, 0, 23),
        (ARRAYINFO, 0x0C, 0, 0, j("Pair")),
        (j("pairs"), 0x10, 192, 1, 25),
        (ARRAYINFO, 0x0C, 0, 0, j("Leaf")),
        (j("leaves"), 0x0D, 216, 0, 27),
    ];
    let line = |name: &str, size: u32, entries: &[(u32, u8, u16, u8, u32)]| {
        let members: Vec<String> =
            entries.iter().map(|(n, ty, off, sub, rk)| format!(" {n:x},{ty:x},{off},{sub},{rk:x}")).collect();
        format!("P {:x} 0 0 {size}{}\n", j(name), members.concat())
    };
    let table = line("Root", 240, &root)
        + &line("Leaf", 8, &[(j("x"), 0x06, 0, 0, 0), (j("y"), 0x07, 4, 0, 0)])
        + &line("Pair", 16, &[(j("Key"), 0x0B, 0, 7, 0), (j("Item"), 0x06, 8, 0, 0)])
        + &format!("PE {:x} 1 {:x},1 {:x},2\n", j("Colour"), j("RED"), j("GREEN"));
    Schema::builtin("", &table).unwrap_or_else(|e| panic!("{}", e.message()))
}

#[test]
fn a_pso_tree_of_every_kind_comes_back_whole() {
    let leaf = |x: u32| st("Leaf", vec![("x", MetaValue::U32(x)), ("y", f(0.5))]);
    let list = |item_type: Option<u32>, typed_items: bool, items: Vec<MetaValue>| {
        MetaValue::Array(MetaArray { item_type, typed_items, items })
    };
    let text = |t: &str| MetaValue::Str(t.into());
    let colour = |value: i32, name: &str| MetaValue::Enum { enum_hash: j("Colour"), value, name: Some(j(name)) };
    let root = st("Root", vec![
        ("b", MetaValue::Bool(true)),
        ("i8", MetaValue::I8(-3)),
        ("u16", MetaValue::U16(40_000)),
        ("half", MetaValue::I16(-2)),
        ("long", MetaValue::U64(u64::MAX - 1)),
        ("v2", MetaValue::Vec2(Vec2::new(1, 2))),
        ("v3", MetaValue::Vec3(v3(1.5, -2.0, 4.0))),
        ("v4a", MetaValue::Vec3(v3(7.0, 8.0, 9.0))),
        ("buffer", text("seven77")),
        ("pointed", text("far away")),
        ("counted", text("counted")),
        ("small", colour(2, "GREEN")),
        ("bits", MetaValue::Flags { enum_hash: j("Colour"), bits: 0x102, names: vec![j("RED")] }),
        ("inner", leaf(1)),
        ("far", leaf(2)),
        ("none", MetaValue::Null),
        ("fixed", list(None, false, vec![MetaValue::I32(-1), MetaValue::I32(0), MetaValue::I32(9)])),
        ("many", list(None, true, vec![leaf(3), MetaValue::Null, leaf(4)])),
        ("texts", list(None, false, vec![text("a"), text(""), text("b")])),
        ("colours", list(None, false, vec![colour(1, "RED"), colour(2, "GREEN")])),
        ("pairs", MetaValue::Pairs(vec![(MetaValue::Hash(5), MetaValue::U32(6)), (MetaValue::Hash(7), MetaValue::U32(8))])),
        ("leaves", list(Some(j("Leaf")), false, vec![leaf(5), leaf(6)])),
    ]);
    let schema = kinds_schema();
    let w = build_pso(&root, &schema, &FloatTexts::new()).unwrap();
    assert!(w.warnings.is_empty(), "{:?}", w.warnings);
    let dump = dump_pso(&w.bytes).unwrap();
    assert!(dump.warnings.is_empty(), "{:?}", dump.warnings);
    assert_eq!(dump.root, root);
    // The file carries the part of the schema that it uses.
    let own = Schema::from_file(&w.bytes).unwrap();
    assert_eq!(own.pso_structs, schema.pso_structs);
    assert_eq!(own.pso_enums, schema.pso_enums);
}

// ─── XML ─────────────────────────────────────────────────────────────────────

#[test]
fn a_small_tree_prints_in_codewalker_layout() {
    let mut names = NameTable::empty();
    for n in [
        "CMapData", "name", "flags", "streamingExtentsMin", "entities", "CEntityDef", "archetypeName", "lodDist",
        "prop_a", "map1", "physicsDictionaries", "lodLevel", "LODTYPES_DEPTH_HD",
    ] {
        names.add(n);
    }
    let entity = MetaStruct {
        type_hash: j("CEntityDef"),
        fields: vec![
            (j("archetypeName"), MetaValue::Hash(j("prop_a"))),
            (j("lodDist"), f(120.5)),
            (j("lodLevel"), MetaValue::Enum { enum_hash: 1, value: 0, name: Some(j("LODTYPES_DEPTH_HD")) }),
        ],
    };
    let root = MetaValue::Struct(MetaStruct {
        type_hash: j("CMapData"),
        fields: vec![
            (j("name"), MetaValue::Hash(j("map1"))),
            (j("flags"), MetaValue::U32(32)),
            (j("streamingExtentsMin"), MetaValue::Vec3(v3(-1.5, 2.0, 3.25))),
            (j("entities"), MetaValue::Array(MetaArray {
                item_type: Some(j("CEntityDef")),
                typed_items: true,
                items: vec![MetaValue::Struct(entity)],
            })),
            (j("physicsDictionaries"), MetaValue::Array(MetaArray {
                item_type: None,
                typed_items: false,
                items: vec![MetaValue::Hash(0xABCD)],
            })),
        ],
    });
    let xml = xml_of(&root, &names);
    let expected = "<?xml version=\"1.0\" encoding=\"UTF-8\"?>
<CMapData>
  <name>map1</name>
  <flags value=\"32\"/>
  <streamingExtentsMin x=\"-1.5\" y=\"2\" z=\"3.25\"/>
  <entities itemType=\"CEntityDef\">
    <Item type=\"CEntityDef\">
      <archetypeName>prop_a</archetypeName>
      <lodDist value=\"120.5\"/>
      <lodLevel>LODTYPES_DEPTH_HD</lodLevel>
    </Item>
  </entities>
  <physicsDictionaries itemType=\"Hash\">
    <Item>hash_0000ABCD</Item>
  </physicsDictionaries>
</CMapData>
";
    assert_eq!(xml, expected);
}

#[test]
fn text_is_escaped_and_empties_self_close() {
    let names = NameTable::empty();
    let root = MetaValue::Struct(MetaStruct {
        type_hash: 5,
        fields: vec![
            (1, MetaValue::Str("a<b&\"c\"".into())),
            (2, MetaValue::Str(String::new())),
            (3, MetaValue::Array(MetaArray::default())),
            (4, MetaValue::Hash(0)),
        ],
    });
    let xml = xml_of(&root, &names);
    assert!(xml.contains("<hash_00000001>a&lt;b&amp;&quot;c&quot;</hash_00000001>"), "{xml}");
    assert!(xml.contains("<hash_00000002/>"), "{xml}");
    assert!(xml.contains("<hash_00000003/>"), "{xml}");
    assert!(xml.contains("<hash_00000004/>"), "{xml}");
}

#[test]
fn xml_reads_back_into_an_equivalent_tree() {
    let text = "<CMapData>
  <name>map1</name>
  <flags value=\"32\"/>
  <streamingExtentsMin x=\"-1.5\" y=\"2\" z=\"3.25\"/>
  <entities itemType=\"CEntityDef\">
    <Item type=\"CEntityDef\">
      <archetypeName>prop_a</archetypeName>
      <lodDist value=\"120.5\"/>
      <extensions/>
    </Item>
  </entities>
  <physicsDictionaries/>
  <block>
    <version value=\"0\"/>
  </block>
</CMapData>";
    let v = xml_tree(text);
    let root = v.as_struct().unwrap();
    assert_eq!(root.type_hash, j("CMapData"));
    assert_eq!(root.field("name").and_then(MetaValue::as_hash), Some(j("map1")));
    assert_eq!(root.field("flags"), Some(&MetaValue::I32(32)));
    assert_eq!(root.field("streamingExtentsMin"), Some(&MetaValue::Vec3(v3(-1.5, 2.0, 3.25))));
    let entities = root.field("entities").unwrap().as_array().unwrap();
    assert!(entities.typed_items);
    let e = entities.items[0].as_struct().unwrap();
    assert_eq!(e.type_hash, j("CEntityDef"));
    assert_eq!(e.field("lodDist"), Some(&f(120.5)));
    assert_eq!(e.field("extensions"), Some(&MetaValue::Array(MetaArray::default())));
    assert_eq!(root.field("physicsDictionaries").map(MetaValue::items).map(<[MetaValue]>::len), Some(0));
    assert_eq!(root.field("block").unwrap().as_struct().unwrap().field("version"), Some(&MetaValue::I32(0)));
}

#[test]
fn floats_print_shortest() {
    let prints = tree_prints(&array(vec![f(1.0), f(-0.5), f(120.25), f(0.1)]));
    assert_eq!(float(1.0f32.to_bits(), &prints), "1");
    assert_eq!(float((-0.5f32).to_bits(), &prints), "-0.5");
    assert_eq!(float(120.25f32.to_bits(), &prints), "120.25");
    assert_eq!(float(0.1f32.to_bits(), &prints), "0.1");
    let none = FloatPrints::new();
    assert_eq!(float((-0.0f32).to_bits(), &none), "0");
    assert_eq!(float((-8_388_607.0f32).to_bits(), &none), "-8388607");
    assert_eq!(float(0.5f32.to_bits(), &none), "");
}

#[test]
fn tables_of_numbers_and_bytes_come_back() {
    let numbers: Vec<MetaValue> = (0..23).map(MetaValue::I32).collect();
    let root = st("a", vec![
        ("numbers", array(numbers)),
        ("bytes", MetaValue::Bytes((0..40).collect())),
        ("pairs", MetaValue::Pairs(vec![(MetaValue::Str("k".into()), MetaValue::Bool(true))])),
        ("big", MetaValue::I64(1 << 40)),
    ]);
    let xml = xml_of(&root, &NameTable::empty());
    let back = xml_tree(&xml);
    let back = back.as_struct().unwrap();
    let root = root.as_struct().unwrap();
    assert_eq!(back.type_hash, root.type_hash);
    assert_eq!(back.field("numbers"), root.field("numbers"));
    assert_eq!(back.field("bytes"), root.field("bytes"));
    assert_eq!(back.field("big"), root.field("big"));
    assert!(xml.contains("\n      0 1 2 3 4 5 6 7 8 9\n") || xml.contains("\n    0 1 2 3 4 5 6 7 8 9\n"), "{xml}");
}

#[test]
fn malformed_xml_is_refused() {
    let none = FloatTexts::new();
    assert_eq!(from_xml("<a><b></a>", &none).unwrap_err().message(), "malformed XML");
    assert!(from_xml("", &none).is_err());
    // An attribute in a namespace is not the one that is meant.
    let v = from_xml("<a xmlns:n='u' n:value='3'>x</a>", &none).unwrap();
    assert_eq!(v, MetaValue::Str("x".into()));
    assert_eq!(from_xml("<a value='0xFF'/>", &none).unwrap(), MetaValue::U32(255));
    assert_eq!(from_xml("<a value=' true '/>", &none).unwrap(), MetaValue::Bool(true));
}

// ─── JSON ────────────────────────────────────────────────────────────────────

fn member<'a>(v: &'a JsonNode, key: &str) -> &'a JsonNode {
    match v {
        JsonNode::Object(m) => &m.iter().find(|(k, _)| k == key).unwrap_or_else(|| panic!("no {key}")).1,
        other => panic!("not an object: {other:?}"),
    }
}

fn item(v: &JsonNode, i: usize) -> &JsonNode {
    match v {
        JsonNode::Array(items) => &items[i],
        other => panic!("not an array: {other:?}"),
    }
}

#[test]
fn a_small_tree_becomes_an_object() {
    let mut names = NameTable::empty();
    for n in ["CMapData", "name", "origin", "flags", "FLAG_A", "list"] {
        names.add(n);
    }
    let root = MetaValue::Struct(MetaStruct {
        type_hash: j("CMapData"),
        fields: vec![
            (j("name"), MetaValue::Hash(j("unknown_name"))),
            (j("origin"), MetaValue::Vec3(v3(1.0, 2.0, 3.0))),
            (j("flags"), MetaValue::Flags { enum_hash: 0, bits: 1, names: vec![j("FLAG_A")] }),
            (j("list"), MetaValue::Array(MetaArray {
                item_type: None,
                typed_items: false,
                items: vec![MetaValue::U16(7), MetaValue::Null],
            })),
        ],
    });
    let v = to_json(&root, &names);
    assert_eq!(member(&v, "$type"), &JsonNode::Str("CMapData".into()));
    assert_eq!(member(&v, "name"), &JsonNode::Str(format!("hash_{:08X}", j("unknown_name"))));
    assert_eq!(item(member(&v, "origin"), 2), &JsonNode::Float(3.0f32.to_bits()));
    assert_eq!(item(member(member(&v, "flags"), "flags"), 0), &JsonNode::Str("FLAG_A".into()));
    assert_eq!(item(member(&v, "list"), 0), &JsonNode::Int(7));
    assert_eq!(item(member(&v, "list"), 1), &JsonNode::Null);
}

#[test]
fn json_reads_back_without_a_schema() {
    let mut names = NameTable::empty();
    names.add_list("T\na\nb\n");
    let root = st("T", vec![
        ("a", MetaValue::I32(-4)),
        ("b", MetaValue::Pairs(vec![(MetaValue::Str("k".into()), MetaValue::U64(u64::MAX))])),
    ]);
    assert_eq!(value_of(&to_json(&root, &names)), root);
    let flags = MetaValue::Flags { enum_hash: 9, bits: 6, names: vec![] };
    assert_eq!(
        value_of(&to_json(&flags, &names)),
        MetaValue::Flags { enum_hash: 0, bits: 6, names: vec![] }
    );
    // A name that occurs twice keeps its place and takes the later value.
    let twice = st("T", vec![("a", MetaValue::I32(1)), ("b", MetaValue::Null), ("a", MetaValue::I32(2))]);
    let v = to_json(&twice, &names);
    assert_eq!(member(&v, "a"), &JsonNode::Int(2));
    assert_eq!(to_json(&MetaValue::Bytes(vec![0, 255]), &names), JsonNode::Str("00FF".into()));
    let typed = JsonNode::Array(vec![JsonNode::Object(vec![("$type".into(), JsonNode::Str("T".into()))])]);
    assert!(value_of(&typed).as_array().unwrap().typed_items);
}

#[test]
fn json_text_is_read_into_a_tree() {
    let mut singles = FloatTexts::new();
    for (text, v) in [("25e-1", 2.5f32), ("-1e-2", -0.01), ("3e5", 3e5)] {
        singles.entries.push(FloatText { text: text.into(), single: Some(v.to_bits()), whole: None });
    }
    let text = r#"{"$type": "T", "a": [1, -7, 5000000000, 2.5, -0.01, 3e5], "b": {"value": 6, "flags": []},
        "c": [{"key": "k", "value": null}], "d": true, "e": "a name that is longer than thirty bytes", "a": "x"}"#;
    let tree = from_json(text, &singles).unwrap();
    assert_eq!(
        tree,
        st("T", vec![
            ("a", MetaValue::Str("x".into())),
            ("b", MetaValue::Flags { enum_hash: 0, bits: 6, names: vec![] }),
            ("c", MetaValue::Pairs(vec![(MetaValue::Str("k".into()), MetaValue::Null)])),
            ("d", MetaValue::Bool(true)),
            ("e", MetaValue::Str("a name that is longer than thirty bytes".into())),
        ])
    );
    let numbers = from_json("[1, -7, 5000000000, 2.5, -0.01, 3e5, 0.5]", &singles).unwrap();
    assert_eq!(
        numbers.items(),
        &[
            MetaValue::I32(1),
            MetaValue::I32(-7),
            MetaValue::I64(5_000_000_000),
            f(2.5),
            f(-0.01),
            f(3e5),
            f(0.0),
        ]
    );
    // A number past the signed range wraps.
    let integers = [
        ("18446744073709551615", MetaValue::U64(u64::MAX)),
        ("9223372036854775808", MetaValue::U64(1 << 63)),
        ("9223372036854775807", MetaValue::I64(i64::MAX)),
        ("-9223372036854775808", MetaValue::I64(i64::MIN)),
        ("-2147483648", MetaValue::I32(i32::MIN)),
    ];
    for (text, value) in integers {
        assert_eq!(from_json(text, &singles).unwrap(), value, "{text}");
    }
    // Zeros in a string are no number.
    let zeros = "0".repeat(40_000);
    let quoted = format!("\"\\\"0.{zeros}\"");
    assert!(zeros_are_short(&quoted));
    assert_eq!(from_json(&quoted, &singles).unwrap(), MetaValue::Str(format!("\"0.{zeros}")));
    assert!(zeros_are_short(&format!("[1.{zeros}, 10.{zeros}]")));
    assert!(!zeros_are_short(&format!("[1, -0.{zeros}]")));
    assert!(zeros_are_short(&format!("0.{}1", "0".repeat(32_748))));
    let err = from_json("[1, ", &singles).unwrap_err();
    assert_eq!(err.message(), "malformed JSON: Unexpected end of JSON");
    let err = from_json("{x}", &singles).unwrap_err();
    assert_eq!(err.message(), "malformed JSON: Unexpected character: x at (1:2)");
}

// ─── manifests ───────────────────────────────────────────────────────────────

const XML: &str = r#"<?xml version="1.0" encoding="UTF-8" standalone="no"?>
<CPackFileMetaData>
  <MapDataGroups/>
  <HDTxdBindingArray>
    <Item>
      <assetType>AT_TXD</assetType>
      <targetAsset>prop_a</targetAsset>
      <HDTxd>prop_a+hi</HDTxd>
    </Item>
  </HDTxdBindingArray>
  <imapDependencies/>
  <imapDependencies_2>
    <Item>
      <imapName>bombapaleto</imapName>
      <manifestFlags/>
      <itypDepArray>
        <Item>v_construction</Item>
        <Item>v_bush</Item>
      </itypDepArray>
    </Item>
  </imapDependencies_2>
  <itypDependencies_2/>
  <Interiors>
    <Item>
      <Name>cafe_milo</Name>
      <Bounds>
        <Item>cafe_milo</Item>
      </Bounds>
    </Item>
  </Interiors>
</CPackFileMetaData>
"#;

#[test]
fn an_xml_manifest_parses_to_the_same_lists() {
    let (format, m) = parse_ymf(XML.as_bytes(), None, &FloatTexts::new()).unwrap();
    assert_eq!(format, ManifestFormat::Xml);
    assert_eq!(m.imap_dependencies_2.len(), 1);
    let d = &m.imap_dependencies_2[0];
    assert_eq!(d.name.name(), "bombapaleto");
    assert_eq!(d.name.hash, j("bombapaleto"));
    assert_eq!(d.ityp_deps.iter().map(|n| n.name()).collect::<Vec<_>>(), ["v_construction", "v_bush"]);
    assert_eq!(m.hd_txd_bindings[0].hd_txd, "prop_a+hi");
    assert_eq!(m.hd_txd_bindings[0].asset_type.name.as_deref(), Some("AT_TXD"));
    assert_eq!(m.interiors[0].bounds[0].name(), "cafe_milo");
    assert!(m.map_data_groups.is_empty());
}

#[test]
fn an_asset_type_is_the_number_that_is_stored() {
    let binding = |v: MetaValue| st("CHDTxdAssetBinding", vec![("assetType", v)]);
    let root = st("CPackFileMetaData", vec![(
        "HDTxdBindingArray",
        array(vec![
            binding(MetaValue::Enum { enum_hash: 7, value: 2, name: Some(9) }),
            binding(MetaValue::I32(3)),
            binding(MetaValue::Str("AT_DRB".into())),
            binding(MetaValue::Null),
        ]),
    )]);
    let m = Manifest::from_value(&root).unwrap();
    let types: Vec<_> = m.hd_txd_bindings.iter().map(|b| b.asset_type.hash).collect();
    assert_eq!(types, [2, 3, j("AT_DRB"), 0]);
}

#[test]
fn a_pso_manifest_parses_with_hashes_only() {
    // The PSO fixture is not a manifest; the typed reader must say so
    // rather than return an empty manifest.
    let err = parse_ymf(&sample_pso(false), None, &FloatTexts::new()).unwrap_err().message();
    assert!(err.contains("CPackFileMetaData"), "{err}");
}

#[test]
fn the_container_is_recognised_from_the_first_bytes() {
    assert_eq!(ManifestFormat::detect(b"PSIN\0\0\0\x10"), Some(ManifestFormat::Pso));
    assert_eq!(ManifestFormat::detect(b"RBF0"), Some(ManifestFormat::Rbf));
    assert_eq!(ManifestFormat::detect(b"RSC7\x02\0\0\0"), Some(ManifestFormat::Meta));
    assert_eq!(ManifestFormat::detect(b"\xEF\xBB\xBF  <?xml"), Some(ManifestFormat::Xml));
    assert_eq!(ManifestFormat::detect(b"FXAP"), None);
}

#[test]
fn manifest_errors_say_what_is_wrong() {
    let none = FloatTexts::new();
    let message = |data: &[u8]| dump_ymf(data, None, &none).unwrap_err().message();
    assert_eq!(message(b"FXAPxxxx"), "manifest is an escrowed (FXAP) file and cannot be read");
    assert_eq!(message(b"????"), "not a manifest: neither PSO, RBF, RSC7 Meta nor XML");
    assert_eq!(message(b"<a>\xFF</a>"), "manifest XML is not UTF-8");
    assert_eq!(message(b"<a>"), "malformed XML");
    assert_eq!(message(b"RBF0"), "the RBF records could not be read");
    assert!(message(b"RSC7").len() > 4);
    let err = parse_ymf(b"<a>x</a>", None, &none).unwrap_err();
    assert_eq!(err.message(), "manifest root is not a structure");
}

#[test]
fn rbf_lists_are_arrays() {
    let text = |s: &str| RbfValue::Str(s.to_string());
    let binding = RbfStructure {
        name: "Item".into(),
        attributes: vec![("kind".into(), RbfValue::Uint(3))],
        children: vec![("targetAsset".into(), text("a")), ("HDTxd".into(), text("a+hi"))],
    };
    let list = RbfStructure {
        name: "HDTxdBindingArray".into(),
        attributes: vec![],
        children: vec![("Item".into(), RbfValue::Structure(binding))],
    };
    let root = RbfStructure {
        name: "CPackFileMetaData".into(),
        attributes: vec![],
        children: vec![("HDTxdBindingArray".into(), RbfValue::Structure(list))],
    };
    let (format, m) = parse_ymf(b"RBF0....", Some(&root), &FloatTexts::new()).unwrap();
    assert_eq!(format, ManifestFormat::Rbf);
    assert_eq!(m.hd_txd_bindings.len(), 1);
    assert_eq!(m.hd_txd_bindings[0].hd_txd, "a+hi");
    assert_eq!(m.hd_txd_bindings[0].asset_type.name(), "0");
}
