use spr_set::format::{ScreenMode, TextureFormat};
use spr_set::image::{decode_texture, flip_vertical, Image};
use spr_set::model::{TextureKind, Vec4};
use spr_set::order::{less, sorted_order};
use spr_set::reader::{parse_container, parse_texture};
use spr_set::set::{get_spr_db_set, resolve_name, DbEntry, DbSet, SprDb, SprSet, Sprite, SpriteError};

fn put_u32(b: &mut Vec<u8>, v: u32) {
    b.extend_from_slice(&v.to_le_bytes());
}

fn put_at(b: &mut Vec<u8>, pos: usize, v: u32) {
    b[pos..pos + 4].copy_from_slice(&v.to_le_bytes());
}

fn region(x: f32, y: f32, z: f32, w: f32) -> [u32; 4] {
    [x.to_bits(), y.to_bits(), z.to_bits(), w.to_bits()]
}

/// A container with one plane texture of one mip level and one sprite on it.
fn one_texture_container(
    format: u32,
    width: i32,
    height: i32,
    payload: &[u8],
    tex_name: &str,
    spr_name: &str,
    pixel: [u32; 4],
    mode: u32,
) -> Vec<u8> {
    let mut b = Vec::new();
    put_u32(&mut b, 0x1234);
    put_u32(&mut b, 32);
    put_u32(&mut b, 1);
    put_u32(&mut b, 1);
    for _ in 0..4 {
        put_u32(&mut b, 0);
    }
    // texture set at 32
    b.extend_from_slice(b"TXP\x03");
    put_u32(&mut b, 1);
    put_u32(&mut b, 0);
    put_u32(&mut b, 16);
    // texture entry at 48
    b.extend_from_slice(b"TXP\x04");
    put_u32(&mut b, 1);
    b.extend_from_slice(&[1, 1, 0, 0]);
    put_u32(&mut b, 16);
    // mip level at 64
    b.extend_from_slice(b"TXP\x02");
    put_u32(&mut b, width as u32);
    put_u32(&mut b, height as u32);
    put_u32(&mut b, format);
    b.extend_from_slice(&[0, 0, 0, 0]);
    put_u32(&mut b, payload.len() as u32);
    b.extend_from_slice(payload);
    let spr = b.len();
    put_at(&mut b, 16, spr as u32);
    put_u32(&mut b, 0);
    put_u32(&mut b, 0);
    for v in region(0.0, 0.0, 1.0, 1.0) {
        put_u32(&mut b, v);
    }
    for v in pixel {
        put_u32(&mut b, v);
    }
    let tn = b.len();
    put_at(&mut b, 20, tn as u32);
    put_u32(&mut b, (tn + 4) as u32);
    b.extend_from_slice(tex_name.as_bytes());
    b.push(0);
    let sn = b.len();
    put_at(&mut b, 24, sn as u32);
    put_u32(&mut b, (sn + 4) as u32);
    b.extend_from_slice(spr_name.as_bytes());
    b.push(0);
    let ex = b.len();
    put_at(&mut b, 28, ex as u32);
    put_u32(&mut b, 0);
    put_u32(&mut b, mode);
    b
}

fn dxt5_container() -> Vec<u8> {
    let payload = vec![0u8; 16 * 16 * 16];
    one_texture_container(9, 64, 64, &payload, "TEX", "SPR", region(0.0, 0.0, 64.0, 64.0), 14)
}

fn image(w: u32, h: u32, fill: u8) -> Image {
    Image { width: w, height: h, data: vec![fill; (4 * w * h) as usize] }
}

fn sprite_on(texture: &str, z: f32) -> Sprite {
    let r = region(1.0, 2.0, z, 4.0);
    Sprite {
        screen_mode: ScreenMode::HDTV720,
        texel_region: Vec4 { x: 0, y: 0, z: 0, w: 0 },
        pixel_region: Vec4 { x: r[0], y: r[1], z: r[2], w: r[3] },
        texture_name: texture.to_string(),
        rotate: 0,
    }
}

fn names(v: &[String]) -> Vec<&str> {
    v.iter().map(|s| s.as_str()).collect()
}

#[test]
fn dxt5_plane_decodes_to_rgba() {
    let data = dxt5_container();
    let set = SprSet::from_reader(&data, None).unwrap();
    assert_eq!(set.flags, 0x1234);
    assert_eq!(set.textures.len(), 1);
    let (name, img) = &set.textures[0];
    assert_eq!(name, "TEX");
    assert_eq!((img.width, img.height), (64, 64));
    assert_eq!(img.data.len(), 64 * 64 * 4);
    let (sname, sprite) = &set.sprites[0];
    assert_eq!(sname, "SPR");
    assert_eq!(f32::from_bits(sprite.pixel_region.z), 64.0);
    assert_eq!(sprite.texture_name, "TEX");
    assert_eq!(sprite.screen_mode, ScreenMode::HDTV1080);
}

#[test]
fn decoded_length_is_four_bytes_per_pixel() {
    let payload = vec![0xffu8; 8 * 3 * 2];
    let data = one_texture_container(6, 10, 5, &payload, "T", "S", region(0.0, 0.0, 1.0, 1.0), 0);
    let set = SprSet::from_reader(&data, None).unwrap();
    let img = &set.textures[0].1;
    assert_eq!(img.data.len(), (img.width * img.height * 4) as usize);
    assert_eq!((img.width, img.height), (10, 5));
}

#[test]
fn uncompressed_format_is_missing_data() {
    let payload = vec![7u8; 4 * 4 * 4];
    let data = one_texture_container(2, 4, 4, &payload, "T", "S", region(0.0, 0.0, 4.0, 4.0), 0);
    assert_eq!(SprSet::from_reader(&data, None).unwrap_err(), SpriteError::MissingData);
    let raw = parse_container(&data).unwrap();
    assert_eq!(raw.textures[0].faces[0][0].format, TextureFormat::RGBA8);
    assert!(decode_texture(&raw.textures[0]).is_none());
}

#[test]
fn short_input_is_malformed() {
    assert_eq!(SprSet::from_reader(&[], None).unwrap_err(), SpriteError::Malformed);
    let mut data = dxt5_container();
    data[32] = b'X';
    assert_eq!(SprSet::from_reader(&data, None).unwrap_err(), SpriteError::Malformed);
}

#[test]
fn unknown_screen_mode_is_malformed() {
    let payload = vec![0u8; 16];
    let data = one_texture_container(9, 4, 4, &payload, "T", "S", region(0.0, 0.0, 4.0, 4.0), 19);
    assert_eq!(SprSet::from_reader(&data, None).unwrap_err(), SpriteError::Malformed);
}

#[test]
fn cube_map_levels_truncate() {
    let mut b = Vec::new();
    b.extend_from_slice(b"TXP\x05");
    put_u32(&mut b, 7);
    b.extend_from_slice(&[7, 6, 0, 0]);
    for _ in 0..6 {
        put_u32(&mut b, 36);
    }
    assert_eq!(b.len(), 36);
    b.extend_from_slice(b"TXP\x02");
    put_u32(&mut b, 4);
    put_u32(&mut b, 4);
    put_u32(&mut b, 6);
    b.extend_from_slice(&[0, 0, 0, 0]);
    put_u32(&mut b, 8);
    b.extend_from_slice(&[0u8; 8]);
    let t = parse_texture(&b, 0).unwrap();
    assert_eq!(t.kind, TextureKind::CubeMap);
    assert_eq!(t.mip_count_total, 7);
    assert_eq!(t.levels_per_face, 1);
    assert_eq!(t.faces.len(), 6);
    assert!(t.faces.iter().all(|f| f.len() == 1));
    let img = decode_texture(&t).unwrap();
    assert_eq!(img.data.len(), 64);
}

#[test]
fn cube_map_without_faces_is_refused() {
    let mut b = Vec::new();
    b.extend_from_slice(b"TXP\x05");
    put_u32(&mut b, 6);
    b.extend_from_slice(&[6, 0, 0, 0]);
    assert!(parse_texture(&b, 0).is_none());
}

fn database() -> DbSet {
    DbSet {
        filename: "spr_foo.bin".to_string(),
        name: "SPR_FOO".to_string(),
        textures: vec![DbEntry { index: 0, name: "SPRTEX_FOO_BAR".to_string() }],
        sprites: vec![DbEntry { index: 0, name: "SPR_FOO_ICON".to_string() }],
    }
}

#[test]
fn empty_names_come_from_the_database() {
    let payload = vec![0u8; 16];
    let data = one_texture_container(9, 4, 4, &payload, "", "", region(0.0, 0.0, 4.0, 4.0), 18);
    let db = database();
    let set = SprSet::from_reader(&data, Some(&db)).unwrap();
    assert_eq!(set.name, "SPR_FOO");
    assert_eq!(set.textures[0].0, "BAR");
    assert_eq!(set.sprites[0].0, "ICON");
    assert_eq!(set.sprites[0].1.texture_name, "BAR");
    assert_eq!(set.sprites[0].1.screen_mode, ScreenMode::Custom);
}

#[test]
fn empty_names_without_database_are_missing() {
    let payload = vec![0u8; 16];
    let data = one_texture_container(9, 4, 4, &payload, "", "S", region(0.0, 0.0, 4.0, 4.0), 0);
    assert_eq!(SprSet::from_reader(&data, None).unwrap_err(), SpriteError::MissingData);
    let db = DbSet { filename: String::new(), name: "SPR_FOO".to_string(), textures: vec![], sprites: vec![] };
    assert_eq!(SprSet::from_reader(&data, Some(&db)).unwrap_err(), SpriteError::MissingData);
}

#[test]
fn resolve_name_strips_prefix() {
    let prefix = "SPR_FOO_".to_string();
    let r = resolve_name(&String::new(), Some("SPR_FOO_ICON".to_string()), &prefix).unwrap();
    assert_eq!(r, "ICON");
    let r = resolve_name(&"KEEP".to_string(), Some("SPR_FOO_ICON".to_string()), &prefix).unwrap();
    assert_eq!(r, "KEEP");
    assert_eq!(resolve_name(&String::new(), None, &prefix).unwrap_err(), SpriteError::MissingData);
}

fn two_texture_set() -> SprSet {
    SprSet {
        name: String::new(),
        flags: 7,
        textures: vec![("B".to_string(), image(2, 1, 1)), ("A".to_string(), image(1, 1, 2))],
        sprites: vec![("s2".to_string(), sprite_on("A", 3.0)), ("s1".to_string(), sprite_on("B", 5.0))],
    }
}

#[test]
fn writer_orders_textures_by_name() {
    let set = two_texture_set();
    let mut out = Vec::new();
    set.to_writer(&mut out).unwrap();
    assert_eq!(&out[0..4], &7u32.to_le_bytes());
    let raw = parse_container(&out).unwrap();
    assert_eq!(names(&raw.texture_names), vec!["A", "B"]);
    assert_eq!(raw.textures[0].faces[0][0].width, 1);
    assert_eq!(raw.textures[1].faces[0][0].width, 2);
    assert_eq!(names(&raw.sprite_names), vec!["s1", "s2"]);
    assert_eq!(raw.sprites[0].texture_index, 1);
    assert_eq!(raw.sprites[1].texture_index, 0);
}

#[test]
fn written_texture_is_raw_rgba_bottom_up() {
    let mut img = image(1, 2, 0);
    img.data = vec![1, 2, 3, 4, 5, 6, 7, 8];
    let set = SprSet { name: String::new(), flags: 0, textures: vec![("T".to_string(), img)], sprites: vec![] };
    let mut out = Vec::new();
    set.to_writer(&mut out).unwrap();
    let raw = parse_container(&out).unwrap();
    let mip = &raw.textures[0].faces[0][0];
    assert_eq!(mip.format, TextureFormat::RGBA8);
    assert_eq!(mip.data, vec![5, 6, 7, 8, 1, 2, 3, 4]);
    assert_eq!(raw.textures[0].kind, TextureKind::Plane);
}

#[test]
fn round_trip_keeps_structure() {
    let set = SprSet::from_reader(&dxt5_container(), None).unwrap();
    let mut out = Vec::new();
    set.to_writer(&mut out).unwrap();
    let raw = parse_container(&out).unwrap();
    assert_eq!(raw.flags, set.flags);
    assert_eq!(names(&raw.texture_names), vec!["TEX"]);
    assert_eq!(names(&raw.sprite_names), vec!["SPR"]);
    let mip = &raw.textures[0].faces[0][0];
    assert_eq!((mip.width, mip.height), (64, 64));
    let sp = &set.sprites[0].1;
    assert_eq!(raw.sprites[0].pixel_region, sp.pixel_region);
    assert_eq!(raw.sprites[0].texel_region, sp.texel_region);
    assert_eq!(raw.sprites[0].rotate, sp.rotate);
    assert_eq!(raw.screen_modes, vec![ScreenMode::HDTV1080]);
}

#[test]
fn writer_rejects_unknown_texture() {
    let mut set = two_texture_set();
    set.sprites.push(("s3".to_string(), sprite_on("C", 1.0)));
    let mut out = vec![9u8];
    assert_eq!(set.to_writer(&mut out).unwrap_err(), SpriteError::MissingData);
    assert_eq!(out, vec![9u8]);
}

#[test]
fn writer_rejects_nul_in_name() {
    let mut set = two_texture_set();
    set.sprites.push(("a\0b".to_string(), sprite_on("A", 1.0)));
    let mut out = Vec::new();
    assert_eq!(set.to_writer(&mut out).unwrap_err(), SpriteError::NulInName);
    assert!(out.is_empty());
}

#[test]
fn writer_rejects_inconsistent_image() {
    let mut set = two_texture_set();
    set.textures[0].1.data.pop();
    let mut out = Vec::new();
    assert_eq!(set.to_writer(&mut out).unwrap_err(), SpriteError::MissingData);
}

#[test]
fn flip_reverses_rows() {
    let d = vec![1u8, 1, 1, 1, 2, 2, 2, 2, 3, 3, 3, 3];
    assert_eq!(flip_vertical(&d, 1, 3), vec![3u8, 3, 3, 3, 2, 2, 2, 2, 1, 1, 1, 1]);
}

#[test]
fn names_sort_bytewise() {
    assert!(less(b"A", b"B"));
    assert!(less(b"A", b"AB"));
    assert!(!less(b"b", b"B"));
    let keys = vec![b"b".to_vec(), b"B".to_vec(), b"a".to_vec()];
    assert_eq!(sorted_order(&keys), vec![1, 2, 0]);
}

#[test]
fn codes_round_trip() {
    assert_eq!(TextureFormat::from_code(9), Some(TextureFormat::DXT5));
    assert_eq!(TextureFormat::from_code(14), None);
    assert_eq!(TextureFormat::BC6H.code(), 127);
    assert_eq!(TextureFormat::Unknown.code(), u32::MAX);
    assert_eq!(ScreenMode::from_code(18), Some(ScreenMode::Custom));
    assert_eq!(ScreenMode::from_code(19), None);
    assert_eq!(ScreenMode::QHD.code(), 17);
}

#[test]
fn database_set_found_by_file_name() {
    let mut other = database();
    other.filename = "other.bin".to_string();
    other.name = "SPR_OTHER".to_string();
    let db = SprDb { sets: vec![other, database()] };
    assert_eq!(get_spr_db_set("spr_foo.bin", &db).unwrap().name, "SPR_FOO");
    assert!(get_spr_db_set("missing.bin", &db).is_none());
}

#[test]
fn prefix_is_stripped_only_at_the_start() {
    let prefix = "SPR_FOO_".to_string();
    let r = resolve_name(&String::new(), Some("X_SPR_FOO_Y".to_string()), &prefix).unwrap();
    assert_eq!(r, "X_SPR_FOO_Y");
    let r = resolve_name(&String::new(), Some("SPR_FOO_SPR_FOO_Z".to_string()), &prefix).unwrap();
    assert_eq!(r, "SPR_FOO_Z");
}

#[test]
fn empty_set_writes_header_and_texture_set() {
    let set = SprSet { name: String::new(), flags: 3, textures: vec![], sprites: vec![] };
    let mut out = Vec::new();
    set.to_writer(&mut out).unwrap();
    let mut want = Vec::new();
    for v in [3u32, 32, 0, 0, 44, 44, 44, 44] {
        want.extend_from_slice(&v.to_le_bytes());
    }
    want.extend_from_slice(b"TXP\x03");
    want.extend_from_slice(&0u32.to_le_bytes());
    want.extend_from_slice(&0u32.to_le_bytes());
    assert_eq!(out, want);
}

fn le(out: &[u8], p: usize) -> usize {
    u32::from_le_bytes([out[p], out[p + 1], out[p + 2], out[p + 3]]) as usize
}

#[test]
fn written_pointers_lead_to_sorted_records() {
    let set = SprSet {
        name: String::new(),
        flags: 0,
        textures: vec![("B".to_string(), image(2, 2, 1)), ("A".to_string(), image(1, 1, 2))],
        sprites: vec![],
    };
    let mut out = Vec::new();
    set.to_writer(&mut out).unwrap();
    let t = le(&out, 4);
    assert_eq!(&out[t..t + 4], b"TXP\x03");
    assert_eq!(le(&out, t + 4), 2);
    let e0 = t + le(&out, t + 12);
    let e1 = t + le(&out, t + 16);
    assert!(e0 < e1);
    assert_eq!(&out[e0..e0 + 4], b"TXP\x04");
    let m0 = e0 + le(&out, e0 + 12);
    let m1 = e1 + le(&out, e1 + 12);
    assert_eq!((le(&out, m0 + 4), le(&out, m0 + 8)), (1, 1));
    assert_eq!((le(&out, m1 + 4), le(&out, m1 + 8)), (2, 2));
    assert_eq!(le(&out, m0 + 12), 2);
    let n = le(&out, 20);
    let a = le(&out, n);
    let b = le(&out, n + 4);
    assert!(a < b);
    assert_eq!(&out[a..a + 2], b"A\0");
    assert_eq!(&out[b..b + 2], b"B\0");
}

#[test]
fn sprite_and_extra_records_follow_sprite_names() {
    let set = two_texture_set();
    let mut out = Vec::new();
    set.to_writer(&mut out).unwrap();
    let sp = le(&out, 16);
    let x = le(&out, 28);
    // "s1" sits on "B" (position 1), "s2" on "A" (position 0)
    assert_eq!(le(&out, sp), 1);
    assert_eq!(le(&out, sp + 40), 0);
    assert_eq!(f32::from_bits(le(&out, sp + 32) as u32), 5.0);
    assert_eq!(f32::from_bits(le(&out, sp + 40 + 32) as u32), 3.0);
    assert_eq!(le(&out, x), 0);
    assert_eq!(le(&out, x + 4), 13);
    assert_eq!(le(&out, x + 12), 13);
}

#[test]
fn rereading_written_textures_is_missing_data() {
    let set = SprSet::from_reader(&dxt5_container(), None).unwrap();
    let mut out = Vec::new();
    set.to_writer(&mut out).unwrap();
    assert_eq!(SprSet::from_reader(&out, None).unwrap_err(), SpriteError::MissingData);
}

#[test]
fn entry_order_does_not_change_output() {
    let a = two_texture_set();
    let mut b = two_texture_set();
    b.textures.reverse();
    b.sprites.reverse();
    let (mut out_a, mut out_b) = (Vec::new(), Vec::new());
    a.to_writer(&mut out_a).unwrap();
    b.to_writer(&mut out_b).unwrap();
    assert_eq!(out_a, out_b);
}
