use rage_formats::paging::pack_pages;
use rage_formats::resource::{
    build_rsc7, build_rsc7_paged, build_rsc7_with_flags, is_fxap, prepare_rsc7,
    resource_size_from_flags, resource_version_from_flags, rsc7_flags_for_pages,
    rsc7_flags_for_size, rsc7_page_count, u32_le, ResReader, ResourceError, RSC7_MAGIC,
    SYSTEM_BASE,
};

fn build_system_buffer() -> Vec<u8> {
    let mut sys = vec![0u8; 0x200];

    // Pointer-list header at offset 0.
    let array_va = SYSTEM_BASE + 0x100;
    sys[0..8].copy_from_slice(&array_va.to_le_bytes());
    sys[8..10].copy_from_slice(&3u16.to_le_bytes());
    sys[10..12].copy_from_slice(&4u16.to_le_bytes());

    // Three u32s at 0x100.
    sys[0x100..0x104].copy_from_slice(&11u32.to_le_bytes());
    sys[0x104..0x108].copy_from_slice(&22u32.to_le_bytes());
    sys[0x108..0x10C].copy_from_slice(&33u32.to_le_bytes());

    sys
}

#[test]
fn resolve_optional_null_out_of_bounds_and_valid() {
    let sys = build_system_buffer();
    let reader = ResReader { system: &sys, graphics: &[] };

    // va == 0 -> Some(None)
    assert_eq!(reader.resolve_optional(0, 4), Some(None));

    // Out of bounds -> None
    let far_va = SYSTEM_BASE + sys.len() as u64 + 0x1000;
    assert_eq!(reader.resolve_optional(far_va, 4), None);

    // Valid -> Some(Some(bytes))
    let array_va = SYSTEM_BASE + 0x100;
    let resolved = reader.resolve_optional(array_va, 4).expect("should resolve");
    let bytes = resolved.expect("should be Some(bytes)");
    assert_eq!(u32_le(bytes, 0), 11);
}

#[test]
fn read_u32_list_reads_values() {
    let sys = build_system_buffer();
    let reader = ResReader { system: &sys, graphics: &[] };

    let array_va = SYSTEM_BASE + 0x100;
    let values = reader.read_u32_list(array_va, 3).expect("should read list");
    assert_eq!(values, vec![11, 22, 33]);

    // count == 0 -> empty vec, even for a null va.
    assert_eq!(reader.read_u32_list(0, 0), Some(Vec::new()));
}

#[test]
fn read_lists_reject_counts_that_would_overflow_the_byte_length() {
    let sys = build_system_buffer();
    let reader = ResReader { system: &sys, graphics: &[] };
    let array_va = SYSTEM_BASE + 0x100;

    // On a 32-bit `usize`, `count * N` wraps around instead of
    // overflowing, so pick a count that overflows even a 64-bit `usize`
    // multiplication to make the assertion hold on every target.
    let huge_count = usize::MAX / 4 + 1;

    assert_eq!(reader.read_u16_list(array_va, huge_count), None);
    assert_eq!(reader.read_u32_list(array_va, huge_count), None);
    assert_eq!(reader.read_u64_list(array_va, huge_count), None);
}

#[test]
fn resolve_rejects_offset_length_overflow_instead_of_panicking() {
    let reader = ResReader { system: &[], graphics: &[] };

    // A `va` with bit 29 (system) or bit 30 (graphics) set near `u64::MAX`
    // plus a huge `len`.
    assert_eq!(reader.resolve(u64::MAX, usize::MAX), None);
}

#[test]
fn string_at_gives_up_past_the_scan_cap_instead_of_returning_untruncated() {
    // No NUL anywhere in a buffer larger than the scan cap -> None, not a
    // huge (or truncated) string.
    let sys = vec![b'A'; 512];
    let reader = ResReader { system: &sys, graphics: &[] };
    assert_eq!(reader.string_at(SYSTEM_BASE), None);

    // A NUL just past the cap still isn't found.
    let mut sys = vec![b'A'; 300];
    sys[300 - 1] = 0; // NUL at index 299, past the 256-byte scan window
    let reader = ResReader { system: &sys, graphics: &[] };
    assert_eq!(reader.string_at(SYSTEM_BASE), None);

    // A NUL within the cap still works normally.
    let mut sys = vec![b'A'; 10];
    sys[5] = 0;
    let reader = ResReader { system: &sys, graphics: &[] };
    assert_eq!(reader.string_at(SYSTEM_BASE), Some("AAAAA".to_string()));
}

#[test]
fn string_at_replaces_what_is_not_utf8() {
    let sys = [b'a', 0xFF, b'b', 0];
    let reader = ResReader { system: &sys, graphics: &[] };
    assert_eq!(reader.string_at(SYSTEM_BASE), Some("a\u{FFFD}b".to_string()));
}

#[test]
fn read_pointer_list_header_reads_fields() {
    let sys = build_system_buffer();
    let reader = ResReader { system: &sys, graphics: &[] };

    let header = reader.read_pointer_list_header(SYSTEM_BASE).expect("should read header");
    assert_eq!(header.pointer, SYSTEM_BASE + 0x100);
    assert_eq!(header.count, 3);
    assert_eq!(header.capacity, 4);
}

#[test]
fn flags_round_trip_through_size() {
    for size in [1usize, 512, 8192, 24576 + 180224 + 32768, 237568, 1 << 20, 3_000_001] {
        let flags = rsc7_flags_for_size(size).unwrap();
        let virt = resource_size_from_flags(flags);
        assert!(virt >= size, "{size}: {virt}");
        assert!(virt < size + (0x200usize << (flags & 0xF)) * 256, "{size}: wasteful {virt}");
    }
    // The retail navmesh[108][96].ynv layout.
    assert_eq!(resource_size_from_flags(0x0006_5880), 237568);
}

#[test]
fn page_flags_describe_equal_pages() {
    let flags = rsc7_flags_for_pages(16384, 8).unwrap();
    assert_eq!(resource_size_from_flags(flags), 8 * 16384);
    let file = build_rsc7_paged(2, &[7u8; 40000], 16384).unwrap();
    let sys_flags = u32::from_le_bytes(file[8..12].try_into().unwrap());
    assert_eq!(resource_size_from_flags(sys_flags), 3 * 16384);
    assert!(rsc7_flags_for_pages(16384, 10_000).is_err());
}

#[test]
fn a_size_gets_the_smallest_section() {
    for flags in [0x0006_5880u32, 0x0800_0010, 0x0001_0001, 0x0F00_0023, 0x0002_0004] {
        let size = resource_size_from_flags(flags);
        for near in [size, size - 1, size / 2 + 1] {
            let own = resource_size_from_flags(rsc7_flags_for_size(near).unwrap());
            assert!(near <= own && own <= size, "{flags:x}: {near} -> {own}");
        }
    }
    assert_eq!(resource_size_from_flags(rsc7_flags_for_size(513).unwrap()), 1024);
}

#[test]
fn a_flag_word_counts_so_many_pages() {
    let most = |e: usize| match e {
        0..=3 | 23 => 1,
        4..=19 => 127,
        20 => 63,
        21 => 15,
        _ => 3,
    };
    for e in 0..=23 {
        assert!(rsc7_flags_for_pages(0x200 << e, most(e)).is_ok(), "{e}");
        assert!(rsc7_flags_for_pages(0x200 << e, most(e) + 1).is_err(), "{e}");
    }
    for size in [0usize, 0x100, 0x300, 0x200 << 24] {
        assert!(rsc7_flags_for_pages(size, 1).is_err(), "{size:x}");
    }
}

#[test]
fn build_rsc7_round_trips() {
    let system: Vec<u8> = (0..5000u32).map(|i| (i * 7 % 251) as u8).collect();
    let file = build_rsc7(2, &system, &[]);
    assert_eq!(u32::from_le_bytes(file[0..4].try_into().unwrap()), RSC7_MAGIC);
    let sys_flags = u32::from_le_bytes(file[8..12].try_into().unwrap());
    let gfx_flags = u32::from_le_bytes(file[12..16].try_into().unwrap());
    assert_eq!(resource_version_from_flags(sys_flags, gfx_flags), 2);
    let (sys, gfx) = prepare_rsc7(&file).unwrap();
    assert_eq!(&sys[..system.len()], &system[..]);
    assert!(gfx.is_empty());
}

#[test]
fn both_sections_come_back() {
    let system: Vec<u8> = (0..700u32).map(|i| (i % 253) as u8).collect();
    let graphics: Vec<u8> = (0..1300u32).map(|i| (i % 247) as u8).collect();
    let file = build_rsc7(13, &system, &graphics);
    let (sys, gfx) = prepare_rsc7(&file).unwrap();
    assert_eq!(&sys[..700], &system[..]);
    assert_eq!(&gfx[..1300], &graphics[..]);
    // The body is packed: it is not the sections themselves.
    assert!(file.len() < sys.len() + gfx.len());
}

#[test]
fn a_stored_body_is_taken_as_it_is() {
    let flags = rsc7_flags_for_size(512).unwrap();
    let mut file = Vec::new();
    file.extend_from_slice(&RSC7_MAGIC.to_le_bytes());
    file.extend_from_slice(&2u32.to_le_bytes());
    file.extend_from_slice(&flags.to_le_bytes());
    file.extend_from_slice(&0u32.to_le_bytes());
    // 0x07 opens a block of a type that no deflated stream has.
    file.extend_from_slice(&[7u8; 512]);
    let (sys, gfx) = prepare_rsc7(&file).unwrap();
    assert_eq!(sys, vec![7u8; 512]);
    assert!(gfx.is_empty());
}

#[test]
fn a_file_that_is_no_resource_is_refused() {
    assert!(prepare_rsc7(b"RSC7").is_err());
    assert!(prepare_rsc7(&[0u8; 64]).is_err());
    assert!(is_fxap(b"FXAP...."));
    assert!(!is_fxap(b"RSC7"));
}

#[test]
fn pages_never_split_a_block() {
    let sizes: Vec<usize> = vec![0x170, 5000, 16384, 16, 16384, 9000, 8000, 1];
    let layout = pack_pages(&sizes, 128).unwrap();
    assert_eq!(layout.offsets.len(), sizes.len());
    assert_eq!(resource_size_from_flags(layout.flags), layout.size);
    for (i, (off, size)) in layout.offsets.iter().zip(&sizes).enumerate() {
        assert_eq!(off % 16, 0, "block {i}");
        assert!(off + size <= layout.size, "block {i}");
        for (j, (o2, s2)) in layout.offsets.iter().zip(&sizes).enumerate() {
            assert!(i == j || off + size <= *o2 || o2 + s2 <= *off, "{i} overlaps {j}");
        }
    }
    assert!(rsc7_page_count(layout.flags) <= 128);
}

#[test]
fn flags_given_by_hand_are_kept() {
    let flags = rsc7_flags_for_pages(8192, 2).unwrap();
    let system = vec![3u8; 16384];
    let file = build_rsc7_with_flags(13, flags, &system, 0, &[]);
    let (sys, gfx) = prepare_rsc7(&file).unwrap();
    assert_eq!(sys, system);
    assert!(gfx.is_empty());
    assert_eq!(u32_le(&file, 8) % 0x1000_0000, flags);
}

#[test]
fn errors_read_like_sentences() {
    let e = prepare_rsc7(b"no").unwrap_err();
    assert!(!e.message().is_empty());
    assert_ne!(e, ResourceError::NoPageLayout(3));
}
