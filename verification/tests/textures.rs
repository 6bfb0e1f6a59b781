use rage_formats::dds::parse_dds;
use rage_formats::rage_joaat;
use rage_formats::resource::u32_le;
use rage_formats::texture_encode::{
    auto_format, encode_texture, finish_texture, is_normal_map_name, EncodeFormat, Encoded,
};
use rage_formats::ytd::{
    calc_pixel_data_size, full_mip_count, mip_chain_size, parse_ytd, stride_for, to_dds_layout,
    to_ytd_layout, ytd_chain_size, TextureFormat, YtdTexture,
};
use rage_formats::ytd_write::{serialize_ytd, YTD_VERSION};

fn tex(name: &str, format: TextureFormat, width: u16, height: u16) -> YtdTexture {
    let levels = full_mip_count(format, width, height);
    let size = mip_chain_size(format, width, height, levels);
    YtdTexture {
        name: name.into(),
        name_hash: 0,
        width,
        height,
        depth: 1,
        format,
        levels,
        stride: stride_for(format, width, height),
        pixel_data: (0..size).map(|i| (i.wrapping_mul(31) % 253) as u8).collect(),
    }
}

#[test]
fn mip_arithmetic_matches_the_games() {
    assert_eq!(stride_for(TextureFormat::DXT5, 512, 512), 512);
    assert_eq!(stride_for(TextureFormat::DXT1, 512, 256), 256);
    assert_eq!(stride_for(TextureFormat::A8R8G8B8, 64, 64), 256);
    assert_eq!(full_mip_count(TextureFormat::DXT5, 512, 256), 7);
    assert_eq!(full_mip_count(TextureFormat::DXT1, 4, 4), 1);
    assert_eq!(full_mip_count(TextureFormat::A8R8G8B8, 8, 2), 2);
    // The reader's size formula (stride*height, quartered per level) and
    // the true chain size agree for every level the count allows.
    let t = tex("a", TextureFormat::DXT5, 512, 256);
    assert_eq!(calc_pixel_data_size(t.stride, t.height, t.levels) as usize, t.pixel_data.len());
}

#[test]
fn serialize_round_trips_through_parse_ytd() {
    let input = vec![
        tex("Zed_diffuse", TextureFormat::DXT1, 256, 128),
        tex("alpha_n", TextureFormat::ATI2, 64, 64),
        tex("big", TextureFormat::BC7, 1024, 1024),
        tex("flat", TextureFormat::A8R8G8B8, 16, 16),
    ];
    let bytes = serialize_ytd(&input).unwrap();
    let back = parse_ytd(&bytes).unwrap();
    assert_eq!(back.len(), input.len());
    // Sorted by hash on the way out.
    let mut hashes: Vec<u32> = back.iter().map(|t| t.name_hash).collect();
    hashes.sort();
    assert_eq!(hashes, back.iter().map(|t| t.name_hash).collect::<Vec<_>>());
    for want in &input {
        let got = back.iter().find(|t| t.name == want.name).unwrap_or_else(|| panic!("{} missing", want.name));
        assert_eq!(got.name_hash, rage_joaat(&want.name.to_lowercase()));
        assert_eq!(
            (got.width, got.height, got.depth, got.format, got.levels, got.stride),
            (want.width, want.height, 1, want.format, want.levels, want.stride),
            "{}",
            want.name
        );
        assert_eq!(got.pixel_data, want.pixel_data, "{}", want.name);
    }
    assert_eq!(u32_le(&bytes, 4), YTD_VERSION);
}

#[test]
fn tail_mips_below_one_block_keep_the_games_sizes_and_pad_out_to_dds() {
    // 256x256 DXT5 down to 1x1: the game stores 9 levels in 87381 bytes
    // (…16, 4, 1), a DDS in 87408 (…16, 16, 16).
    let levels = 9;
    let game = ytd_chain_size(TextureFormat::DXT5, 256, 256, levels);
    let dds = mip_chain_size(TextureFormat::DXT5, 256, 256, levels);
    assert_eq!((game, dds), (87381, 87408));
    let mut tex = tex("t", TextureFormat::DXT5, 256, 256);
    tex.levels = levels;
    tex.pixel_data = (0..game).map(|i| (i % 251) as u8).collect();

    let bytes = serialize_ytd(&[tex.clone()]).unwrap();
    let back = &parse_ytd(&bytes).unwrap()[0];
    assert_eq!(back.pixel_data, tex.pixel_data);

    let dds_bytes = back.to_dds();
    assert_eq!(dds_bytes.len(), 128 + dds);
    let from_dds = parse_dds(&dds_bytes).unwrap();
    assert_eq!(from_dds.levels, levels);
    assert_eq!(from_dds.pixel_data, tex.pixel_data);

    // A DDS written short (the game's sizes, as older exports did) is taken as it is.
    let mut short = dds_bytes[..128].to_vec();
    short.extend_from_slice(&tex.pixel_data);
    assert_eq!(parse_dds(&short).unwrap().pixel_data, tex.pixel_data);
    // Extra bytes beyond the game's size are dropped on write.
    let mut long = tex.clone();
    long.pixel_data.extend_from_slice(&[9; 27]);
    let bytes = serialize_ytd(&[long]).unwrap();
    assert_eq!(parse_ytd(&bytes).unwrap()[0].pixel_data, tex.pixel_data);
}

#[test]
fn layouts_undo_each_other() {
    let game: Vec<u8> = (0..87381u32).map(|i| (i % 241) as u8).collect();
    let dds = to_dds_layout(TextureFormat::DXT5, 256, 256, stride_for(TextureFormat::DXT5, 256, 256), 9, &game);
    assert_eq!(dds.len(), 87408);
    let back = to_ytd_layout(TextureFormat::DXT5, 256, 256, stride_for(TextureFormat::DXT5, 256, 256), 9, &dds);
    assert_eq!(back, game);
}

#[test]
fn serialize_handles_an_empty_dictionary() {
    let bytes = serialize_ytd(&[]).unwrap();
    assert!(parse_ytd(&bytes).unwrap().is_empty());
}

#[test]
fn serialize_rejects_duplicate_names_and_short_data() {
    let err = serialize_ytd(&[tex("a", TextureFormat::DXT1, 8, 8), tex("A", TextureFormat::DXT1, 8, 8)]).unwrap_err();
    assert!(err.message().contains("share the name hash"), "{}", err.message());
    let mut short = tex("s", TextureFormat::DXT5, 16, 16);
    short.pixel_data.truncate(3);
    let err = serialize_ytd(&[short]).unwrap_err();
    assert!(err.message().contains("needs"), "{}", err.message());
}

fn sample(format: TextureFormat, width: u16, height: u16, levels: u8) -> YtdTexture {
    let size = mip_chain_size(format, width, height, levels);
    YtdTexture {
        name: "x".into(),
        name_hash: 1,
        width,
        height,
        depth: 1,
        format,
        levels,
        stride: stride_for(format, width, height),
        pixel_data: (0..size).map(|i| (i * 7 % 251) as u8).collect(),
    }
}

#[test]
fn round_trips_every_format_through_to_dds() {
    for format in [
        TextureFormat::DXT1, TextureFormat::DXT3, TextureFormat::DXT5, TextureFormat::ATI1, TextureFormat::ATI2,
        TextureFormat::BC7, TextureFormat::A8R8G8B8, TextureFormat::X8R8G8B8, TextureFormat::A8B8G8R8,
        TextureFormat::A1R5G5B5, TextureFormat::A8, TextureFormat::L8,
    ] {
        let tex = sample(format, 16, 8, 2);
        let name = format.name();
        let back = parse_dds(&tex.to_dds()).unwrap_or_else(|e| panic!("{name}: {}", e.message()));
        assert_eq!(back.format, format, "{name}");
        assert_eq!((back.width, back.height, back.levels, back.stride), (16, 8, 2, tex.stride), "{name}");
        assert_eq!(back.pixel_data, tex.pixel_data, "{name}");
    }
}

#[test]
fn rejects_non_dds_and_short_data() {
    assert!(parse_dds(b"PNG\r\n").is_err());
    let mut dds = sample(TextureFormat::DXT5, 8, 8, 1).to_dds();
    dds.truncate(128 + 10);
    let err = parse_dds(&dds).unwrap_err().message();
    assert!(err.contains("pixel data is 10 bytes"), "{err}");
    assert!(err.contains("needs 64"), "{err}");
}

#[test]
fn rejects_block_sizes_that_are_not_multiples_of_four() {
    let mut dds = sample(TextureFormat::DXT1, 8, 8, 1).to_dds();
    dds[16..20].copy_from_slice(&6u32.to_le_bytes());
    let err = parse_dds(&dds).unwrap_err().message();
    assert!(err.contains("multiples of 4"), "{err}");
}

#[test]
fn format_codes_come_back() {
    for code in [21u32, 22, 25, 28, 32, 50, 0x31545844, 0x33545844, 0x35545844, 0x31495441, 0x32495441, 0x20374342] {
        assert_eq!(TextureFormat::from_u32(code).to_u32(), code);
    }
}

fn gradient(w: u32, h: u32, alpha: u8) -> Vec<u8> {
    let mut px = Vec::with_capacity((w * h * 4) as usize);
    for y in 0..h {
        for x in 0..w {
            px.extend_from_slice(&[(x * 255 / w.max(1)) as u8, (y * 255 / h.max(1)) as u8, 128, alpha]);
        }
    }
    px
}

#[test]
fn auto_format_picks_by_name_then_alpha() {
    assert_eq!(auto_format("wall_n", &gradient(4, 4, 255)), EncodeFormat::Bc5);
    assert_eq!(auto_format("Wall_N2", &gradient(4, 4, 255)), EncodeFormat::Bc5);
    assert_eq!(auto_format("wall_normal", &gradient(4, 4, 255)), EncodeFormat::Bc5);
    assert_eq!(auto_format("wall_d", &gradient(4, 4, 255)), EncodeFormat::Bc1);
    assert_eq!(auto_format("wall_d", &gradient(4, 4, 200)), EncodeFormat::Bc3);
    assert_eq!(auto_format("nation", &gradient(4, 4, 255)), EncodeFormat::Bc1);
}

#[test]
fn format_names_are_read_whatever_their_case() {
    assert_eq!(EncodeFormat::parse("DXT5"), Some(EncodeFormat::Bc3));
    assert_eq!(EncodeFormat::parse("a8r8g8b8"), Some(EncodeFormat::Rgba8));
    assert_eq!(EncodeFormat::parse("bc6"), None);
    assert_eq!(EncodeFormat::Bc7.message(), "bc7");
    for name in ["rock_n", "rock_NRM", "rock_normal7", "rock_nm0"] {
        assert!(is_normal_map_name(name), "{name}");
    }
    for name in ["rock_n12", "rock_bump", "rock_bump1", "rock_na", "7", ""] {
        assert!(!is_normal_map_name(name), "{name}");
    }
}

#[test]
fn full_chain_sizes_match_the_games_arithmetic() {
    let tex = encode_texture("lights", &gradient(512, 256, 255), 512, 256, EncodeFormat::Bc3, None).unwrap();
    assert_eq!(tex.levels, 7);
    assert_eq!(tex.format, TextureFormat::DXT5);
    assert_eq!(tex.stride, 512);
    assert_eq!(tex.pixel_data.len(), 131072 + 32768 + 8192 + 2048 + 512 + 128 + 32);
    assert_eq!(tex.name_hash, rage_joaat("lights"));

    let tex = encode_texture("x", &gradient(8, 8, 255), 8, 8, EncodeFormat::Rgba8, None).unwrap();
    assert_eq!(tex.levels, 4);
    assert_eq!(tex.pixel_data.len(), 256 + 64 + 16 + 4);
}

#[test]
fn requested_levels_are_clamped_to_what_fits() {
    let tex = encode_texture("x", &gradient(16, 16, 255), 16, 16, EncodeFormat::Bc1, Some(9)).unwrap();
    assert_eq!(tex.levels, 3);
    let tex = encode_texture("x", &gradient(16, 16, 255), 16, 16, EncodeFormat::Bc7, Some(1)).unwrap();
    assert_eq!(tex.levels, 1);
    assert_eq!(tex.pixel_data.len(), 16 * 16);
}

#[test]
fn uncompressed_pixels_are_stored_blue_first() {
    let src = gradient(32, 32, 255);
    let tex = encode_texture("g", &src, 32, 32, EncodeFormat::Rgba8, Some(1)).unwrap();
    let swapped: Vec<u8> = src.chunks_exact(4).flat_map(|p| [p[2], p[1], p[0], p[3]]).collect();
    assert_eq!(tex.pixel_data, swapped);
}

#[test]
fn block_formats_reject_sizes_that_are_not_multiples_of_four() {
    let err = encode_texture("x", &gradient(6, 4, 255), 6, 4, EncodeFormat::Bc1, None).unwrap_err();
    assert!(err.message().contains("multiples of 4"), "{}", err.message());
    assert!(encode_texture("x", &gradient(6, 4, 255), 6, 4, EncodeFormat::Rgba8, None).is_ok());
}

#[test]
fn encoding_errors_say_what_is_wrong() {
    let err = encode_texture("x", &[], 0, 4, EncodeFormat::Bc1, None).unwrap_err();
    assert_eq!(err.message(), "0x4 is not a usable texture size");
    let err = encode_texture("x", &[0; 12], 2, 2, EncodeFormat::Rgba8, None).unwrap_err();
    assert_eq!(err.message(), "12 bytes of RGBA for 2x2; expected 16");
    let err = finish_texture("x", EncodeFormat::Bc1, 8, 8, 1, Encoded::Data(vec![0; 31])).unwrap_err();
    assert_eq!(err.message(), "encoder produced 31 bytes, expected 32");
    let err = finish_texture("x", EncodeFormat::Bc1, 8, 8, 1, Encoded::Refused("no".into())).unwrap_err();
    assert_eq!(err.message(), "bc1 encoding failed: no");
    let err = finish_texture("x", EncodeFormat::Bc1, 8, 8, 1, Encoded::Unread("gone".into())).unwrap_err();
    assert_eq!(err.message(), "gone");
    let ok = finish_texture("Name", EncodeFormat::Bc1, 8, 8, 1, Encoded::Data((0..40).collect())).unwrap();
    assert_eq!(ok.pixel_data, (0..32).collect::<Vec<u8>>());
    assert_eq!(ok.name_hash, rage_joaat("name"));
}

#[test]
fn encoded_pixels_decode_back_close_to_the_source() {
    let src = gradient(32, 32, 255);
    for format in [EncodeFormat::Bc1, EncodeFormat::Bc3, EncodeFormat::Bc7, EncodeFormat::Rgba8] {
        let tex = encode_texture("g", &src, 32, 32, format, Some(1)).unwrap();
        let mut dds = rusty_dds::Dds::new_dxgi(rusty_dds::NewDxgiParams {
            height: 32,
            width: 32,
            depth: None,
            format: match format {
                EncodeFormat::Bc1 => rusty_dds::DxgiFormat::BC1_UNorm,
                EncodeFormat::Bc3 => rusty_dds::DxgiFormat::BC3_UNorm,
                EncodeFormat::Bc7 => rusty_dds::DxgiFormat::BC7_UNorm,
                _ => rusty_dds::DxgiFormat::B8G8R8A8_UNorm,
            },
            mipmap_levels: Some(1),
            array_layers: None,
            caps2: None,
            is_cubemap: false,
            resource_dimension: rusty_dds::D3D10ResourceDimension::Texture2D,
            alpha_mode: rusty_dds::AlphaMode::Straight,
        })
        .unwrap();
        dds.data = tex.pixel_data.clone();
        let back = dds.decode_rgba8(rusty_dds::SubresourceId::mip_layer(0, 0)).unwrap().pixels;
        let max_err = src
            .chunks_exact(4)
            .zip(back.chunks_exact(4))
            .flat_map(|(a, b)| a[..3].iter().zip(&b[..3]).map(|(x, y)| (*x as i32 - *y as i32).abs()))
            .max()
            .unwrap();
        let tolerance = if format == EncodeFormat::Rgba8 { 0 } else { 24 };
        assert!(max_err <= tolerance, "{}: max channel error {max_err}", format.message());
    }
}

#[test]
fn every_slice_of_a_deep_texture_is_kept() {
    let one = YtdTexture {
        name: String::new(),
        name_hash: 0,
        width: 1,
        height: 1,
        depth: 2,
        format: TextureFormat::L8,
        levels: 1,
        stride: 1,
        pixel_data: vec![7],
    };
    let mut file = one.to_dds();
    file[10] |= 0x80;
    file.push(9);
    let t = parse_dds(&file).unwrap();
    assert_eq!(t.depth, 2);
    assert_eq!(t.pixel_data, vec![7, 9]);
    assert!(serialize_ytd(&[t]).is_ok());

    // Two slices of an 8x8 DXT1 with two levels.
    let deep = YtdTexture { width: 8, height: 8, format: TextureFormat::DXT1, levels: 2, stride: 4, ..one };
    let mut file = YtdTexture { pixel_data: (0..40).collect(), ..deep }.to_dds();
    file[10] |= 0x80;
    file.extend(100..140u8);
    let t = parse_dds(&file).unwrap();
    assert_eq!(t.pixel_data, (0..40).chain(100..140u8).collect::<Vec<u8>>());
}

#[test]
fn the_games_sizes_are_exact_for_a_full_chain() {
    for f in [TextureFormat::DXT1, TextureFormat::BC7, TextureFormat::A8R8G8B8, TextureFormat::L8] {
        for (w, h) in [(4u16, 4u16), (64, 16), (8, 256), (256, 256)] {
            let full = full_mip_count(f, w, h);
            for n in 1..=12u8 {
                let same = ytd_chain_size(f, w, h, n) == mip_chain_size(f, w, h, n);
                assert_eq!(same, n <= full, "{f:?} {w}x{h} {n}");
            }
        }
    }
    // Sides that are no powers of two part ways sooner.
    assert_eq!(ytd_chain_size(TextureFormat::DXT1, 12, 12, 2), 90);
    assert_eq!(mip_chain_size(TextureFormat::DXT1, 12, 12, 2), 104);
}
