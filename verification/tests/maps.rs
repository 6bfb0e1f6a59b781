use rage_formats::cache_dat::{parse_cache_dat, BoundsStoreItem, CacheFileDate, HEADER_LEN};
use rage_formats::hash::rage_joaat;
use rage_formats::math::Vec3;
use rage_formats::meta_block::{decode_meta_pointer, read_meta_blocks};
use rage_formats::resource::{build_rsc7, prepare_rsc7, ResReader, SYSTEM_BASE};
use rage_formats::ybn::{parse_ybn, BoundKind, BoundTransform, QuantisedVertex};
use rage_formats::ymap::{parse_ymap_entities, HASH_CENTITYDEF};
use rage_formats::ytyp::{
    parse_archetype_txds_from_reader, parse_ytyp, MloPortal, HASH_CBASE_ARCHETYPE_DEF,
    HASH_CMAPTYPES, HASH_CMLO_ARCHETYPE_DEF, HASH_CMLO_ENTITY_SET,
    HASH_CMLO_PORTAL_DEF, HASH_CMLO_ROOM_DEF, HASH_CTIME_ARCHETYPE_DEF, HASH_STRING,
};

fn v3(x: f32, y: f32, z: f32) -> Vec3 {
    Vec3::new(x.to_bits(), y.to_bits(), z.to_bits())
}

fn put_u16(s: &mut [u8], off: usize, v: u16) {
    s[off..off + 2].copy_from_slice(&v.to_le_bytes());
}

fn put_u32(s: &mut [u8], off: usize, v: u32) {
    s[off..off + 4].copy_from_slice(&v.to_le_bytes());
}

fn put_u64(s: &mut [u8], off: usize, v: u64) {
    s[off..off + 8].copy_from_slice(&v.to_le_bytes());
}

fn put_f32(s: &mut [u8], off: usize, v: f32) {
    s[off..off + 4].copy_from_slice(&v.to_le_bytes());
}

fn put_vec3(s: &mut [u8], off: usize, v: Vec3) {
    put_u32(s, off, v.x);
    put_u32(s, off + 4, v.y);
    put_u32(s, off + 8, v.z);
}

// ─── the world cache ─────────────────────────────────────────────────────────

fn block(out: &mut Vec<u8>, name: &str, records: &[Vec<u8>]) {
    out.extend_from_slice(name.as_bytes());
    out.push(b'\n');
    let len: usize = records.iter().map(Vec::len).sum();
    out.extend_from_slice(&(len as u32).to_le_bytes());
    for r in records {
        out.extend_from_slice(r);
    }
    out.push(b'\n');
}

fn words(ws: &[u32]) -> Vec<u8> {
    ws.iter().flat_map(|w| w.to_le_bytes()).collect()
}

fn cache_sample() -> Vec<u8> {
    let mut data = b"[VERSION]\n46\n".to_vec();
    data.resize(HEADER_LEN, 0);
    data.extend_from_slice(b"<fileDates>\n2740459947 134265985168302590\n1373509686 134280261081509208 7\n</fileDates>\n");
    data.extend_from_slice(b"<module>\n");

    let mut node = words(&[0xAAAA_0001, 0xAAAA_0002, 0x40]);
    for f in [1.0f32, 2.0, 3.0, 4.0, 5.0, 6.0, 7.0, 8.0, 9.0, 10.0, 11.0, 12.0] {
        node.extend_from_slice(&f.to_le_bytes());
    }
    node.extend_from_slice(&[1, 2, 3, 4]);
    // A newline byte inside the block must not end a line.
    let mut node2 = node.clone();
    node2[0] = b'\n';
    block(&mut data, "fwMapDataStore", &[node, node2]);

    let mut proxy = words(&[7, 0, 3, 0xBEEF, 0xAAAA_0001]);
    for f in [-583.8f32, -1059.2, 23.2, 0.0, 0.0, 0.7071, 0.7071, -10.0, -10.0, -5.0, 10.0, 10.0, 5.0] {
        proxy.extend_from_slice(&f.to_le_bytes());
    }
    for w in [1u64, 2, 3, 4] {
        proxy.extend_from_slice(&w.to_le_bytes());
    }
    block(&mut data, "CInteriorProxy", &[proxy]);

    let mut bound = words(&[0xC0DE]);
    for f in [0.0f32, 1.0, 2.0, 3.0, 4.0, 5.0] {
        bound.extend_from_slice(&f.to_le_bytes());
    }
    bound.extend_from_slice(&9u32.to_le_bytes());
    block(&mut data, "BoundsStore", &[bound]);

    data.extend_from_slice(b"</module>\n\0");
    data
}

#[test]
fn reads_every_block_and_the_dates() {
    let cache = parse_cache_dat(&cache_sample()).unwrap();
    assert_eq!(cache.version, "46");
    assert_eq!(cache.file_dates.len(), 2);
    assert_eq!(
        cache.file_dates[1],
        CacheFileDate { file_name: 1373509686, timestamp: 134280261081509208, file_id: 7 }
    );

    assert_eq!(cache.map_nodes.len(), 2);
    let n = cache.map_nodes[0];
    assert_eq!((n.name, n.parent, n.content_flags), (0xAAAA_0001, 0xAAAA_0002, 0x40));
    assert_eq!(n.streaming_min, v3(1.0, 2.0, 3.0));
    assert_eq!(n.entities_max, v3(10.0, 11.0, 12.0));
    assert_eq!(n.flags, [1, 2, 3, 4]);

    assert_eq!(cache.interior_proxies.len(), 1);
    let p = cache.interior_proxies[0];
    assert_eq!((p.name, p.parent), (0xBEEF, 0xAAAA_0001));
    assert_eq!(p.unknown, [7, 0, 3]);
    assert_eq!(p.position, v3(-583.8, -1059.2, 23.2));
    assert_eq!(p.bb_max, v3(10.0, 10.0, 5.0));
    assert_eq!(p.trailing, [1, 2, 3, 4]);

    assert_eq!(
        cache.bounds,
        vec![BoundsStoreItem { name: 0xC0DE, min: v3(0.0, 1.0, 2.0), max: v3(3.0, 4.0, 5.0), layer: 9 }]
    );
}

#[test]
fn a_block_running_past_the_end_is_an_error() {
    let mut data = cache_sample();
    let at = data.windows(15).position(|w| w == b"CInteriorProxy\n").unwrap() + 15;
    data[at..at + 4].copy_from_slice(&100_000u32.to_le_bytes());
    assert!(parse_cache_dat(&data).is_err());
}

#[test]
fn a_file_without_the_header_is_an_error() {
    assert!(parse_cache_dat(b"not a cache file").is_err());
}

#[test]
fn cache_errors_name_the_block() {
    let mut data = b"[VERSION]\r\n7\r\n".to_vec();
    data.resize(HEADER_LEN, 0);
    assert_eq!(parse_cache_dat(&data).unwrap().version, "7");
    let mut cut = data.clone();
    cut.extend_from_slice(b"BoundsStore\r\n\x01\x00");
    assert_eq!(parse_cache_dat(&cut).unwrap_err().message(), "cache_y.dat: truncated block length");
    let mut long = data.clone();
    long.extend_from_slice(b"BoundsStore\n\x20\x00\x00\x00");
    assert_eq!(
        parse_cache_dat(&long).unwrap_err().message(),
        "cache_y.dat: BoundsStore block runs past the end of the file"
    );
    // A line that is no date, and one that is not even text, are skipped.
    data.extend_from_slice(b"<fileDates>\nnothing 1 2\n\xFF 1\n12 -3\n</fileDates>\n");
    let cache = parse_cache_dat(&data).unwrap();
    assert_eq!(cache.file_dates, vec![CacheFileDate { file_name: 12, timestamp: -3, file_id: 0 }]);
}

// ─── archetypes ──────────────────────────────────────────────────────────────

#[test]
fn structure_hashes_match_codewalkers_metaname_enum() {
    // MetaName hashes are the RAGE Jenkins hash of the exact-case
    // structure name (not lowercased).
    assert_eq!(rage_joaat("CMapTypes"), HASH_CMAPTYPES);
    assert_eq!(rage_joaat("CBaseArchetypeDef"), HASH_CBASE_ARCHETYPE_DEF);
    assert_eq!(rage_joaat("CTimeArchetypeDef"), HASH_CTIME_ARCHETYPE_DEF);
    assert_eq!(rage_joaat("CMloArchetypeDef"), HASH_CMLO_ARCHETYPE_DEF);
    assert_eq!(rage_joaat("CMloRoomDef"), HASH_CMLO_ROOM_DEF);
    assert_eq!(rage_joaat("CMloPortalDef"), HASH_CMLO_PORTAL_DEF);
    assert_eq!(rage_joaat("CMloEntitySet"), HASH_CMLO_ENTITY_SET);
    assert_eq!(rage_joaat("STRING"), HASH_STRING);
}

#[test]
fn decode_meta_pointer_rejects_zero_block_id() {
    assert_eq!(decode_meta_pointer(0), None);
    // block_id occupies the low 12 bits; 0 there means null regardless
    // of a nonzero offset in the upper bits.
    assert_eq!(decode_meta_pointer(0x1000), None);
}

#[test]
fn decode_meta_pointer_splits_block_id_and_offset() {
    // block_id = 1 (-> index 0), offset = 0x10
    let raw = 1u64 | (0x10u64 << 12);
    assert_eq!(decode_meta_pointer(raw), Some((0, 0x10)));

    // block_id = 3 (-> index 2), offset = 0
    assert_eq!(decode_meta_pointer(3), Some((2, 0)));
}

/// A minimal .ytyp-shaped `Meta` system section: a `CMapTypes` block, a
/// block holding the archetypes-pointer array, and one `CBaseArchetypeDef`
/// block.
fn build_ytyp_system(name_hash: u32, texture_dict_hash: u32, asset_name_hash: u32) -> Vec<u8> {
    //   0x000..0x070  Meta header
    //   0x070..0x0A0  DataBlocks array: 3 x MetaDataBlock (16 bytes each)
    //   0x0A0..0x0F0  block 0: CMapTypes data (80 bytes)
    //   0x0F0..0x0F8  block 1: archetypes pointer array (1 x u64)
    //   0x0F8..0x188  block 2: CBaseArchetypeDef data (144 bytes)
    let mut sys = vec![0u8; 0x188];
    put_u64(&mut sys, 0x30, SYSTEM_BASE + 0x070);
    put_u16(&mut sys, 0x4C, 3);
    for (h, hash, len, off) in [
        (0x70, HASH_CMAPTYPES, 80, 0x0A0),
        (0x80, 0, 8, 0x0F0),
        (0x90, HASH_CBASE_ARCHETYPE_DEF, 144, 0x0F8),
    ] {
        put_u32(&mut sys, h, hash);
        put_u32(&mut sys, h + 4, len);
        put_u64(&mut sys, h + 8, SYSTEM_BASE + off);
    }
    // CMapTypes.archetypes -> block index 1, one entry.
    put_u64(&mut sys, 0x0A0 + 24, 2);
    put_u16(&mut sys, 0x0A0 + 32, 1);
    // The pointer array's entry -> block index 2.
    put_u64(&mut sys, 0x0F0, 3);
    put_u32(&mut sys, 0x0F8 + 88, name_hash);
    put_u32(&mut sys, 0x0F8 + 92, texture_dict_hash);
    put_u32(&mut sys, 0x0F8 + 112, asset_name_hash);
    sys
}

#[test]
fn parses_one_archetypes_texture_dictionary() {
    let system = build_ytyp_system(rage_joaat("prop_table_02"), rage_joaat("prop_tableset_02"), 0);
    let reader = ResReader { system: &system, graphics: &[] };
    let archetypes = parse_archetype_txds_from_reader(&reader).expect("should parse");
    assert_eq!(archetypes.len(), 1);
    assert_eq!(archetypes[0].name_hash, rage_joaat("prop_table_02"));
    assert_eq!(archetypes[0].texture_dict_hash, rage_joaat("prop_tableset_02"));
}

#[test]
fn falls_back_to_asset_name_when_name_is_zero() {
    let system = build_ytyp_system(0, rage_joaat("prop_tableset_02"), rage_joaat("prop_table_02"));
    let reader = ResReader { system: &system, graphics: &[] };
    let archetypes = parse_archetype_txds_from_reader(&reader).expect("should parse");
    assert_eq!(archetypes.len(), 1);
    assert_eq!(archetypes[0].name_hash, rage_joaat("prop_table_02"));
}

/// A packed Meta pointer to `block_offset` bytes into block `block_index`.
fn meta_ptr(block_index: usize, block_offset: usize) -> u64 {
    (block_index as u64 + 1) | ((block_offset as u64) << 12)
}

fn put_array(s: &mut [u8], off: usize, block_index: usize, block_offset: usize, count: u16) {
    put_u64(s, off, meta_ptr(block_index, block_offset));
    put_u16(s, off + 8, count);
}

/// `(structure-name hash, offset, length)` of each data block of the MLO
/// fixture, in the order Meta pointers name them.
const MLO_BLOCKS: [(u32, usize, usize); 12] = [
    (HASH_CMAPTYPES, 0x130, 80),           //  0: CMapTypes
    (0, 0x180, 8),                         //  1: archetypes pointer array
    (HASH_CMLO_ARCHETYPE_DEF, 0x190, 240), //  2: the MLO archetype
    (HASH_STRING, 0x280, 13),              //  3: "kitchen\0hall\0"
    (HASH_CMLO_ROOM_DEF, 0x290, 224),      //  4: 2 x CMloRoomDef
    (HASH_CMLO_PORTAL_DEF, 0x370, 64),     //  5: 1 x CMloPortalDef
    (0, 0x3B0, 64),                        //  6: 4 x Vector4 (portal corners)
    (0, 0x3F0, 8),                         //  7: u32 array [0, 1]
    (HASH_CMLO_ENTITY_SET, 0x400, 48),     //  8: 1 x CMloEntitySet
    (0, 0x430, 8),                         //  9: the entity set's entity pointers
    (HASH_CENTITYDEF, 0x440, 128),         // 10: the one CEntityDef
    (0, 0x4C0, 8),                         // 11: the MLO's own entity pointers
];

fn mlo_portal_corners() -> Vec<Vec3> {
    vec![v3(4.0, 0.0, 0.0), v3(4.0, 3.0, 0.0), v3(4.0, 3.0, 2.5), v3(4.0, 0.0, 2.5)]
}

const MINIMAL_MLO_NAME: &str = "v_test_mlo";

fn build_mlo_system() -> Vec<u8> {
    let mut sys = vec![0u8; 0x500];

    // Meta header: DataBlocksPointer at 0x30, DataBlocksCount at 0x4C.
    put_u64(&mut sys, 0x30, SYSTEM_BASE + 0x70);
    put_u16(&mut sys, 0x4C, MLO_BLOCKS.len() as u16);
    for (i, &(hash, off, len)) in MLO_BLOCKS.iter().enumerate() {
        let h = 0x70 + i * 16;
        put_u32(&mut sys, h, hash);
        put_u32(&mut sys, h + 4, len as u32);
        put_u64(&mut sys, h + 8, SYSTEM_BASE + off as u64);
    }

    // CMapTypes.archetypes -> block 1, one entry, which points at the
    // CMloArchetypeDef in block 2.
    put_array(&mut sys, MLO_BLOCKS[0].1 + 24, 1, 0, 1);
    put_u64(&mut sys, MLO_BLOCKS[1].1, meta_ptr(2, 0));

    // CMloArchetypeDef.
    let a = MLO_BLOCKS[2].1;
    put_f32(&mut sys, a + 8, 100.0); // lodDist
    put_vec3(&mut sys, a + 32, v3(0.0, 0.0, 0.0)); // bbMin
    put_vec3(&mut sys, a + 48, v3(9.0, 3.0, 2.5)); // bbMax
    put_u32(&mut sys, a + 88, rage_joaat(MINIMAL_MLO_NAME)); // name
    put_array(&mut sys, a + 152, 11, 0, 1); // entities
    put_array(&mut sys, a + 168, 4, 0, 2); // rooms
    put_array(&mut sys, a + 184, 5, 0, 1); // portals
    put_array(&mut sys, a + 200, 8, 0, 1); // entitySets

    // The STRING block the rooms' name pointers aim into.
    let s = MLO_BLOCKS[3].1;
    sys[s..s + 13].copy_from_slice(b"kitchen\0hall\0");

    // CMloRoomDef[0] "kitchen", and [1] "hall" with one attached object.
    let r = MLO_BLOCKS[4].1;
    put_array(&mut sys, r + 8, 3, 0, 8); // name -> "kitchen\0"
    put_vec3(&mut sys, r + 32, v3(0.0, 0.0, 0.0));
    put_vec3(&mut sys, r + 48, v3(4.0, 3.0, 2.5));
    put_f32(&mut sys, r + 64, 1.0); // blend
    put_u32(&mut sys, r + 76, 1); // flags
    put_u32(&mut sys, r + 80, 1); // portalCount
    put_u32(&mut sys, r + 84, 0); // floorId

    let r1 = r + 112;
    put_array(&mut sys, r1 + 8, 3, 8, 5); // name -> "hall\0"
    put_vec3(&mut sys, r1 + 32, v3(4.0, 0.0, 0.0));
    put_vec3(&mut sys, r1 + 48, v3(9.0, 3.0, 2.5));
    put_u32(&mut sys, r1 + 76, 2); // flags
    put_u32(&mut sys, r1 + 80, 1); // portalCount
    put_u32(&mut sys, r1 + 84, 1); // floorId
    put_array(&mut sys, r1 + 96, 7, 0, 1); // attachedObjects -> [0]

    // The one CMloPortalDef, joining room 1 to room 2.
    let p = MLO_BLOCKS[5].1;
    put_u32(&mut sys, p + 8, 1); // roomFrom
    put_u32(&mut sys, p + 12, 2); // roomTo
    put_u32(&mut sys, p + 16, 4); // flags
    put_u32(&mut sys, p + 20, 3); // mirrorPriority
    put_u32(&mut sys, p + 24, 128); // opacity
    put_u32(&mut sys, p + 28, 7); // audioOcclusion
    put_array(&mut sys, p + 32, 6, 0, 4); // corners

    // Its four corners, stored as Vector4 (the w is padding).
    let c = MLO_BLOCKS[6].1;
    for (i, corner) in mlo_portal_corners().iter().enumerate() {
        put_vec3(&mut sys, c + i * 16, *corner);
    }

    // The shared u32 array: [0] is room 1's attached object, [1] is the
    // entity set's one location.
    let u = MLO_BLOCKS[7].1;
    put_u32(&mut sys, u, 0);
    put_u32(&mut sys, u + 4, 1);

    // The one CMloEntitySet, and the pointer array of its entities.
    let e = MLO_BLOCKS[8].1;
    put_u32(&mut sys, e + 8, 0xABCD); // name
    put_array(&mut sys, e + 16, 7, 4, 1); // locations -> [1]
    put_array(&mut sys, e + 32, 9, 0, 1); // entities
    put_u64(&mut sys, MLO_BLOCKS[9].1, meta_ptr(10, 0));

    // The CEntityDef both the MLO and its entity set point at.
    let n = MLO_BLOCKS[10].1;
    put_u32(&mut sys, n + 8, rage_joaat("prop_table_02")); // archetypeName
    put_vec3(&mut sys, n + 32, v3(1.0, 2.0, 3.0)); // position
    put_f32(&mut sys, n + 60, 1.0); // rotation w
    put_f32(&mut sys, n + 64, 1.0); // scaleXY
    put_f32(&mut sys, n + 68, 1.0); // scaleZ
    put_u32(&mut sys, n + 72, -1i32 as u32); // parentIndex
    put_f32(&mut sys, n + 76, 60.0); // lodDist
    put_u64(&mut sys, MLO_BLOCKS[11].1, meta_ptr(10, 0));

    sys
}

/// One `CMloArchetypeDef`: two named rooms ("kitchen" and "hall"), the
/// portal between them, one entity set and one placed entity.
fn minimal_mlo_ytyp() -> Vec<u8> {
    build_rsc7(2, &build_mlo_system(), &[])
}

#[test]
fn parses_mlo_rooms_with_names() {
    let ytyp = parse_ytyp(&minimal_mlo_ytyp()).expect("fixture should parse");
    assert_eq!(ytyp.archetypes.len(), 1);
    assert!(ytyp.archetypes[0].is_mlo);
    assert_eq!(ytyp.mlos.len(), 1);
    let mlo = &ytyp.mlos[0];
    assert_eq!(mlo.name_hash, rage_joaat(MINIMAL_MLO_NAME));

    let names: Vec<&str> = mlo.rooms.iter().map(|r| r.name.as_str()).collect();
    assert_eq!(names, ["kitchen", "hall"]);
    assert_eq!(mlo.rooms[0].bb_min, v3(0.0, 0.0, 0.0));
    assert_eq!(mlo.rooms[0].bb_max, v3(4.0, 3.0, 2.5));
    assert_eq!(mlo.rooms[0].flags, 1);
    assert_eq!(mlo.rooms[0].floor_id, 0);
    assert!(mlo.rooms[0].attached_objects.is_empty());
    assert_eq!(mlo.rooms[1].bb_min, v3(4.0, 0.0, 0.0));
    assert_eq!(mlo.rooms[1].bb_max, v3(9.0, 3.0, 2.5));
    assert_eq!(mlo.rooms[1].flags, 2);
    assert_eq!(mlo.rooms[1].floor_id, 1);
    assert_eq!(mlo.rooms[1].attached_objects, vec![0]);
}

#[test]
fn parses_mlo_portals_with_corners() {
    let ytyp = parse_ytyp(&minimal_mlo_ytyp()).expect("fixture should parse");
    let portals = &ytyp.mlos[0].portals;
    assert_eq!(portals.len(), 1);
    let p = &portals[0];
    assert_eq!(p.room_from, 1);
    assert_eq!(p.room_to, 2);
    assert_eq!(p.flags, 4);
    assert_eq!(p.mirror_priority, 3);
    assert_eq!(p.opacity, 128);
    assert_eq!(p.audio_occlusion, 7);
    assert_eq!(p.corners, mlo_portal_corners());
    assert!(p.attached_objects.is_empty());
    // Neither side is room 0 (limbo, i.e. the world outside the MLO).
    assert!(!p.is_exterior());
}

#[test]
fn portal_touching_room_zero_is_exterior() {
    let inside = || MloPortal {
        room_from: 1,
        room_to: 2,
        flags: 0,
        mirror_priority: 0,
        opacity: 255,
        audio_occlusion: 0,
        corners: Vec::new(),
        attached_objects: Vec::new(),
    };
    assert!(!inside().is_exterior());
    assert!(MloPortal { room_from: 0, ..inside() }.is_exterior());
    assert!(MloPortal { room_to: 0, ..inside() }.is_exterior());
}

#[test]
fn parses_mlo_entity_sets_and_entities() {
    let ytyp = parse_ytyp(&minimal_mlo_ytyp()).expect("fixture should parse");
    let mlo = &ytyp.mlos[0];

    assert_eq!(mlo.entities.len(), 1);
    assert_eq!(mlo.entities[0].archetype_hash, rage_joaat("prop_table_02"));
    assert_eq!(mlo.entities[0].position, v3(1.0, 2.0, 3.0));

    assert_eq!(mlo.entity_sets.len(), 1);
    let set = &mlo.entity_sets[0];
    assert_eq!(set.name_hash, 0xABCD);
    assert_eq!(set.locations, vec![1]);
    assert_eq!(set.entities.len(), 1);
    assert_eq!(set.entities[0].position, v3(1.0, 2.0, 3.0));
}

#[test]
fn minimal_mlo_ytyp_round_trips_through_rsc7() {
    let file = minimal_mlo_ytyp();
    let (system, graphics) = prepare_rsc7(&file).expect("fixture should be a valid RSC7");
    let blocks = read_meta_blocks(&ResReader { system: &system, graphics: &graphics })
        .expect("fixture should carry data blocks");
    assert_eq!(blocks.len(), MLO_BLOCKS.len());
    assert_eq!(blocks[4].name_hash, HASH_CMLO_ROOM_DEF);
    assert_eq!(blocks[4].data.len(), 224);
}

#[test]
fn archetype_only_ytyp_still_parses_with_no_mlos() {
    let file = build_rsc7(2, &build_ytyp_system(rage_joaat("prop_table_02"), 0, 0), &[]);
    let ytyp = parse_ytyp(&file).expect("should parse");
    assert_eq!(ytyp.archetypes.len(), 1);
    assert!(!ytyp.archetypes[0].is_mlo);
    assert!(ytyp.mlos.is_empty());
}

#[test]
fn mlo_with_null_arrays_yields_empty_vecs() {
    let mut sys = build_mlo_system();
    let a = MLO_BLOCKS[2].1;
    for field in [152usize, 168, 184, 200] {
        put_u64(&mut sys, a + field, 0);
        put_u16(&mut sys, a + field + 8, 0);
    }
    let ytyp = parse_ytyp(&build_rsc7(2, &sys, &[])).expect("should parse");
    let mlo = &ytyp.mlos[0];
    assert!(mlo.entities.is_empty());
    assert!(mlo.rooms.is_empty());
    assert!(mlo.portals.is_empty());
    assert!(mlo.entity_sets.is_empty());
}

#[test]
fn truncated_room_block_stops_short_instead_of_panicking() {
    let mut sys = build_mlo_system();
    // Shorten the rooms block so only the first of its two rooms fits.
    put_u32(&mut sys, 0x70 + 4 * 16 + 4, 112 + 8);
    let ytyp = parse_ytyp(&build_rsc7(2, &sys, &[])).expect("should parse");
    let rooms = &ytyp.mlos[0].rooms;
    assert_eq!(rooms.len(), 1);
    assert_eq!(rooms[0].name, "kitchen");
}

#[test]
fn room_name_pointing_at_a_missing_block_reads_as_empty() {
    let mut sys = build_mlo_system();
    // Aim room 0's name at a block index past the end of the table.
    put_u64(&mut sys, MLO_BLOCKS[4].1 + 8, meta_ptr(64, 0));
    let ytyp = parse_ytyp(&build_rsc7(2, &sys, &[])).expect("should parse");
    assert_eq!(ytyp.mlos[0].rooms[0].name, "");
    assert_eq!(ytyp.mlos[0].rooms[1].name, "hall");
}

// ─── placements ──────────────────────────────────────────────────────────────

#[test]
fn placements_are_read_through_their_pointers() {
    // Block 0: CMapData with its entities list at 96; block 1: the pointers;
    // block 2: one CEntityDef.
    let mut sys = vec![0u8; 0x400];
    put_u64(&mut sys, 0x30, SYSTEM_BASE + 0x70);
    put_u16(&mut sys, 0x4C, 3);
    for (h, hash, len, off) in [
        (0x70, rage_joaat("CMapData"), 512, 0x100),
        (0x80, 7, 8, 0x300),
        (0x90, rage_joaat("CEntityDef"), 128, 0x310),
    ] {
        put_u32(&mut sys, h, hash);
        put_u32(&mut sys, h + 4, len);
        put_u64(&mut sys, h + 8, SYSTEM_BASE + off);
    }
    put_array(&mut sys, 0x100 + 96, 1, 0, 1);
    put_u64(&mut sys, 0x300, meta_ptr(2, 0));
    let e = 0x310;
    put_u32(&mut sys, e + 8, rage_joaat("prop_a"));
    put_vec3(&mut sys, e + 32, v3(1.0, -2.0, 3.5));
    put_u32(&mut sys, e + 72, -1i32 as u32);
    let entities = parse_ymap_entities(&build_rsc7(2, &sys, &[])).unwrap();
    assert_eq!(entities.len(), 1);
    assert_eq!(entities[0].archetype_hash, rage_joaat("prop_a"));
    assert_eq!(entities[0].position, v3(1.0, -2.0, 3.5));
    assert_eq!(entities[0].parent_index, -1);
    assert!(!entities[0].is_mlo_instance);
}

#[test]
fn block_tables_that_cannot_be_read_are_named() {
    let blocks = |system: &[u8]| {
        read_meta_blocks(&ResReader { system, graphics: &[] }).err().map_or(String::new(), |e| e.message())
    };
    assert_eq!(blocks(&[0u8; 0x6F]), "ytyp: Meta header out of bounds");
    let mut s = vec![0u8; 0x100];
    assert_eq!(blocks(&s), "ytyp: no data blocks");
    put_u64(&mut s, 0x30, SYSTEM_BASE + 0xF8);
    assert_eq!(blocks(&s), "ytyp: no data blocks");
    put_u16(&mut s, 0x4C, 1);
    assert_eq!(blocks(&s), "ytyp: data block array out of bounds");
    put_u64(&mut s, 0x30, SYSTEM_BASE + 0xF0);
    assert_eq!(read_meta_blocks(&ResReader { system: &s, graphics: &[] }).unwrap().len(), 1);
}

// ─── collision ───────────────────────────────────────────────────────────────

#[test]
fn kinds_round_trip_known_bytes() {
    assert_eq!(BoundKind::from_byte(10), BoundKind::Composite);
    assert_eq!(BoundKind::from_byte(8), BoundKind::GeometryBvh);
    assert_eq!(BoundKind::from_byte(99), BoundKind::Unknown(99));
}

#[test]
fn the_identity_may_have_minus_zeros() {
    let mut t = BoundTransform::identity();
    assert!(t.is_identity());
    t.columns[1].x = (-0.0f32).to_bits();
    assert!(t.is_identity());
    t.columns[3].z = 1.0f32.to_bits();
    assert!(!t.is_identity());
}

/// A composite of one mesh: three vertices, one good triangle, one with a
/// vertex that is not there, and one capsule.
fn bounds_system() -> Vec<u8> {
    let mut s = vec![0u8; 0x600];
    s[0x10] = 10;
    put_vec3(&mut s, 0x20, v3(9.0, 9.0, 9.0));
    put_vec3(&mut s, 0x30, v3(-9.0, -9.0, -9.0));
    put_u64(&mut s, 0x70, SYSTEM_BASE + 0x100);
    put_u64(&mut s, 0x78, SYSTEM_BASE + 0x120);
    put_u16(&mut s, 0xA0, 2);
    // A null child, then the mesh.
    put_u64(&mut s, 0x108, SYSTEM_BASE + 0x200);
    for (k, c) in [v3(1.0, 0.0, 0.0), v3(0.0, 1.0, 0.0), v3(0.0, 0.0, 1.0), v3(5.0, 6.0, 7.0)].iter().enumerate() {
        put_vec3(&mut s, 0x120 + 64 + 16 * k, *c);
    }
    let g = 0x200;
    s[g + 0x10] = 4;
    put_u64(&mut s, g + 0x88, SYSTEM_BASE + 0x400);
    put_vec3(&mut s, g + 0x90, v3(0.5, 0.5, 0.5));
    put_vec3(&mut s, g + 0xA0, v3(1.0, 2.0, 3.0));
    put_u64(&mut s, g + 0xB0, SYSTEM_BASE + 0x440);
    put_u32(&mut s, g + 0xD0, 3);
    put_u32(&mut s, g + 0xD4, 3);
    put_u64(&mut s, g + 0xF0, SYSTEM_BASE + 0x460);
    put_u64(&mut s, g + 0x118, SYSTEM_BASE + 0x480);
    s[g + 0x120] = 1;
    // Polygons: a triangle, a triangle out of range, a capsule.
    for (k, v) in [0u16, 0x8001, 2].iter().enumerate() {
        put_u16(&mut s, 0x400 + 4 + 2 * k, *v);
        put_u16(&mut s, 0x410 + 4 + 2 * k, *v + 1);
    }
    s[0x420] = 2;
    for (k, v) in [1i16, 2, 3, -4, 5, 6, 7, 8, -9].iter().enumerate() {
        put_u16(&mut s, 0x440 + 2 * k, *v as u16);
    }
    put_u32(&mut s, 0x460 + 8, 0xAB42);
    s[0x480] = 1;
    s[0x481] = 1;
    s
}

#[test]
fn collision_is_flattened_with_what_places_it() {
    let ybn = parse_ybn(&build_rsc7(43, &bounds_system(), &[])).unwrap();
    assert_eq!(ybn.root.kind, BoundKind::Composite);
    assert_eq!(ybn.root.box_max, v3(9.0, 9.0, 9.0));
    assert_eq!(ybn.root.children.len(), 1);
    let geometries = ybn.geometries();
    assert_eq!(geometries.len(), 1);
    assert_eq!(geometries[0].triangles.len(), 2);
    assert_eq!(geometries[0].triangles[0].indices, [0, 1, 2]);
    assert_eq!(geometries[0].primitive_count, 1);
    assert_eq!(geometries[0].materials.len(), 4);
    let groups = ybn.triangles();
    assert_eq!(groups.len(), 1);
    assert_eq!(groups[0].transforms.len(), 1);
    assert_eq!(groups[0].transforms[0].columns[3], v3(5.0, 6.0, 7.0));
    assert_eq!(groups[0].center, v3(1.0, 2.0, 3.0));
    // The second triangle names a vertex that is not there.
    assert_eq!(groups[0].triangles.len(), 1);
    assert_eq!(groups[0].triangles[0].material, 0x42);
    assert_eq!(groups[0].triangles[0].vertices[2], QuantisedVertex { x: 7, y: 8, z: -9 });
}

#[test]
fn nested_transforms_come_innermost_first() {
    let mut s = bounds_system();
    s.resize(0x800, 0);
    // A composite between the root and the mesh.
    put_u64(&mut s, 0x108, SYSTEM_BASE + 0x600);
    s[0x610] = 10;
    put_u64(&mut s, 0x670, SYSTEM_BASE + 0x6C0);
    put_u64(&mut s, 0x678, SYSTEM_BASE + 0x700);
    put_u16(&mut s, 0x6A0, 1);
    put_u64(&mut s, 0x6C0, SYSTEM_BASE + 0x200);
    let turned = [v3(0.0, 1.0, 0.0), v3(-1.0, 0.0, 0.0), v3(0.0, 0.0, 1.0), v3(10.0, 20.0, 30.0)];
    for (k, c) in turned.iter().enumerate() {
        put_vec3(&mut s, 0x700 + 16 * k, *c);
    }
    let ybn = parse_ybn(&build_rsc7(43, &s, &[])).unwrap();
    assert_eq!(ybn.root.children.len(), 1);
    assert_eq!(ybn.geometries().len(), 1);
    let groups = ybn.triangles();
    assert_eq!(groups.len(), 1);
    assert_eq!(groups[0].transforms.len(), 2);
    assert_eq!(groups[0].transforms[0].columns, turned);
    assert_eq!(groups[0].transforms[1].columns[0], v3(1.0, 0.0, 0.0));
    assert_eq!(groups[0].transforms[1].columns[3], v3(5.0, 6.0, 7.0));
    assert_eq!(groups[0].triangles.len(), 1);
}

#[test]
fn a_bound_tree_that_never_ends_is_refused() {
    let mut s = bounds_system();
    // The mesh becomes the root again.
    put_u64(&mut s, 0x108, SYSTEM_BASE);
    let err = parse_ybn(&build_rsc7(43, &s, &[])).unwrap_err();
    assert_eq!(err.message(), "root bound");
    let mut cut = bounds_system();
    put_u64(&mut cut, 0x200 + 0xB0, SYSTEM_BASE + 0x10_0000);
    assert!(parse_ybn(&build_rsc7(43, &cut, &[])).is_err());
}
