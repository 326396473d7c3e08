//! Parsing a container: every file-relative pointer is resolved against its
//! base and the record it points at is parsed, while sibling fields keep being
//! read from the pointer table itself.
use vstd::prelude::*;
use crate::bytes::{fits, i32_at, read_i32, read_u32, read_u8, u32_at};
use crate::format::{format_of_code, mode_of_code, tag, ScreenMode, TextureFormat};
use crate::model::{
    face_view, MipLevel, MipView, RawSet, RawSetView, SpriteRecord, Texture, TextureKind,
    TextureView, Vec4,
};

verus! {

/// `n` records, the `i`-th given by `f(i)`; `None` as soon as one is missing.
pub open spec fn spec_list<T>(n: nat, f: spec_fn(int) -> Option<T>) -> Option<Seq<T>>
    decreases n,
{
    if n == 0 {
        Some(Seq::empty())
    } else {
        match spec_list((n - 1) as nat, f) {
            Some(v) => match f(n - 1) {
                Some(x) => Some(v.push(x)),
                None => None,
            },
            None => None,
        }
    }
}

pub proof fn lemma_list_none<T>(i: nat, n: nat, f: spec_fn(int) -> Option<T>)
    requires
        i <= n,
        spec_list(i, f) is None,
    ensures
        spec_list(n, f) is None,
    decreases n,
{
    if i < n {
        lemma_list_none(i, (n - 1) as nat, f);
    }
}

pub proof fn lemma_list_len<T>(n: nat, f: spec_fn(int) -> Option<T>)
    requires
        spec_list(n, f) is Some,
    ensures
        spec_list(n, f).unwrap().len() == n,
        forall|i: int| 0 <= i < n ==> f(i) == Some(#[trigger] spec_list(n, f).unwrap()[i]),
    decreases n,
{
    if n > 0 {
        lemma_list_len((n - 1) as nat, f);
    }
}

/// The absolute position a pointer field at `field` designates, taken
/// relative to `base`, when the field and its target lie inside `s`.
pub open spec fn deref(s: Seq<u8>, base: int, field: int) -> Option<int> {
    if fits(s, field, 4) && 0 <= base && base + u32_at(s, field) <= s.len() {
        Some(base + u32_at(s, field))
    } else {
        None
    }
}

/// Whether the four bytes at `p` are `t`.
pub open spec fn tag_at(s: Seq<u8>, p: int, t: Seq<u8>) -> bool {
    fits(s, p, 4) && s.subrange(p, p + 4) == t
}

/// The mip-level record at `p`.
pub open spec fn spec_mip(s: Seq<u8>, p: int) -> Option<MipView> {
    if tag_at(s, p, tag(2)) && fits(s, p, 24) && format_of_code(u32_at(s, p + 12)) is Some
        && fits(s, p + 24, u32_at(s, p + 20) as int) {
        Some(
            MipView {
                width: i32_at(s, p + 4),
                height: i32_at(s, p + 8),
                format: format_of_code(u32_at(s, p + 12)).unwrap(),
                index: s[p + 16],
                array_index: s[p + 17],
                data: s.subrange(p + 24, p + 24 + u32_at(s, p + 20)),
            },
        )
    } else {
        None
    }
}

/// Mip levels read for each slice or face: the raw field for a plane, its
/// integer quotient by the face count for a cube map.
pub open spec fn spec_levels_per_face(kind: TextureKind, mip_levels: u8, array_size: u8) -> u8 {
    match kind {
        TextureKind::Plane => mip_levels,
        TextureKind::CubeMap => (mip_levels / array_size) as u8,
    }
}

/// The pointer fields of a texture entry at `p` follow its 12-byte header,
/// `l` for each face in turn, each relative to `p`.
pub open spec fn mip_slot(s: Seq<u8>, p: int, l: int, f: int, j: int) -> Option<MipView> {
    match deref(s, p, p + 12 + 4 * (f * l + j)) {
        Some(t) => spec_mip(s, t),
        None => None,
    }
}

pub open spec fn face_fn(s: Seq<u8>, p: int, l: int, f: int) -> spec_fn(int) -> Option<MipView> {
    |j: int| mip_slot(s, p, l, f, j)
}

/// The mip chain of face `f` of the texture entry at `p`.
pub open spec fn spec_face(s: Seq<u8>, p: int, l: int, f: int) -> Option<Seq<MipView>> {
    spec_list(l as nat, face_fn(s, p, l, f))
}

pub open spec fn faces_fn(s: Seq<u8>, p: int, l: int) -> spec_fn(int) -> Option<Seq<MipView>> {
    |f: int| spec_face(s, p, l, f)
}

/// The kind a texture entry's tag announces.
pub open spec fn spec_kind(s: Seq<u8>, p: int) -> Option<TextureKind> {
    if tag_at(s, p, tag(4)) {
        Some(TextureKind::Plane)
    } else if tag_at(s, p, tag(5)) {
        Some(TextureKind::CubeMap)
    } else {
        None
    }
}

/// The texture entry at `p`, with every mip level of every face.
pub open spec fn spec_texture(s: Seq<u8>, p: int) -> Option<TextureView> {
    if !fits(s, p, 12) {
        None
    } else {
        match spec_kind(s, p) {
            None => None,
            Some(kind) => {
                let a = s[p + 9];
                if kind == TextureKind::CubeMap && a == 0 {
                    None
                } else {
                    let l = spec_levels_per_face(kind, s[p + 8], a);
                    match spec_list(a as nat, faces_fn(s, p, l as int)) {
                        Some(faces) => Some(
                            TextureView {
                                kind,
                                mip_count_total: u32_at(s, p + 4),
                                mip_levels: s[p + 8],
                                array_size: a,
                                depth: s[p + 10],
                                dimensions: s[p + 11],
                                levels_per_face: l,
                                faces,
                            },
                        ),
                        None => None,
                    }
                }
            },
        }
    }
}

pub open spec fn texture_slot(s: Seq<u8>, q: int, i: int) -> Option<TextureView> {
    match deref(s, q, q + 12 + 4 * i) {
        Some(t) => spec_texture(s, t),
        None => None,
    }
}

pub open spec fn textures_fn(s: Seq<u8>, q: int) -> spec_fn(int) -> Option<TextureView> {
    |i: int| texture_slot(s, q, i)
}

/// The texture-set block at `q`: its tag, a count, padding, then that many
/// pointer fields relative to `q`.
pub open spec fn spec_texture_set(s: Seq<u8>, q: int) -> Option<Seq<TextureView>> {
    if tag_at(s, q, tag(3)) && fits(s, q, 12) {
        spec_list(u32_at(s, q + 4) as nat, textures_fn(s, q))
    } else {
        None
    }
}

/// The position of the first zero byte at or after `p`.
pub open spec fn nul_from(s: Seq<u8>, p: int) -> Option<int>
    decreases s.len() - p,
{
    if p < 0 || p >= s.len() {
        None
    } else if s[p] == 0 {
        Some(p)
    } else {
        nul_from(s, p + 1)
    }
}

/// The zero-terminated UTF-8 text at `p`.
pub open spec fn spec_cstr(s: Seq<u8>, p: int) -> Option<Seq<char>> {
    match nul_from(s, p) {
        Some(k) => if vstd::utf8::valid_utf8(s.subrange(p, k)) {
            Some(vstd::utf8::decode_utf8(s.subrange(p, k)))
        } else {
            None
        },
        None => None,
    }
}

pub open spec fn name_slot(s: Seq<u8>, q: int, i: int) -> Option<Seq<char>> {
    match deref(s, 0, q + 4 * i) {
        Some(t) => spec_cstr(s, t),
        None => None,
    }
}

pub open spec fn names_fn(s: Seq<u8>, q: int) -> spec_fn(int) -> Option<Seq<char>> {
    |i: int| name_slot(s, q, i)
}

pub open spec fn vec4_at(s: Seq<u8>, p: int) -> Vec4 {
    Vec4 { x: u32_at(s, p), y: u32_at(s, p + 4), z: u32_at(s, p + 8), w: u32_at(s, p + 12) }
}

/// The 40-byte sprite record at `p`.
pub open spec fn spec_sprite(s: Seq<u8>, p: int) -> Option<SpriteRecord> {
    if fits(s, p, 40) {
        Some(
            SpriteRecord {
                texture_index: i32_at(s, p),
                rotate: i32_at(s, p + 4),
                texel_region: vec4_at(s, p + 8),
                pixel_region: vec4_at(s, p + 24),
            },
        )
    } else {
        None
    }
}

pub open spec fn sprites_fn(s: Seq<u8>, q: int) -> spec_fn(int) -> Option<SpriteRecord> {
    |i: int| spec_sprite(s, q + 40 * i)
}

/// The screen mode of the 8-byte sprite-extra record at `p`.
pub open spec fn spec_extra(s: Seq<u8>, p: int) -> Option<ScreenMode> {
    if fits(s, p, 8) {
        mode_of_code(u32_at(s, p + 4))
    } else {
        None
    }
}

pub open spec fn extras_fn(s: Seq<u8>, q: int) -> spec_fn(int) -> Option<ScreenMode> {
    |i: int| spec_extra(s, q + 8 * i)
}

/// The whole container: the 32-byte header at position 0 and everything its
/// five pointer fields lead to.
pub open spec fn spec_container(s: Seq<u8>) -> Option<RawSetView> {
    if !fits(s, 0, 32) {
        None
    } else {
        let tex_count = u32_at(s, 8) as nat;
        let spr_count = u32_at(s, 12) as nat;
        match (deref(s, 0, 4), deref(s, 0, 16), deref(s, 0, 20), deref(s, 0, 24), deref(s, 0, 28)) {
            (Some(a), Some(b), Some(c), Some(d), Some(e)) => match (
                spec_texture_set(s, a),
                spec_list(spr_count, sprites_fn(s, b)),
                spec_list(tex_count, names_fn(s, c)),
                spec_list(spr_count, names_fn(s, d)),
                spec_list(spr_count, extras_fn(s, e)),
            ) {
                (Some(t), Some(sp), Some(tn), Some(sn), Some(ex)) => Some(
                    RawSetView {
                        flags: u32_at(s, 0),
                        textures: t,
                        sprites: sp,
                        texture_names: tn,
                        sprite_names: sn,
                        screen_modes: ex,
                    },
                ),
                _ => None,
            },
            _ => None,
        }
    }
}

/// `p + k`, when it does not pass the end of `data`.
fn offset(data: &[u8], p: usize, k: usize) -> (r: Option<usize>)
    ensures
        r matches Some(q) ==> q == p + k && q <= data@.len(),
        r is None ==> p + k > data@.len(),
{
    if p > data.len() || k > data.len() - p {
        None
    } else {
        Some(p + k)
    }
}

/// Resolves the pointer field at `field` against `base`.
fn read_ptr(data: &[u8], base: usize, field: usize) -> (r: Option<usize>)
    ensures
        r matches Some(t) ==> deref(data@, base as int, field as int) == Some(t as int),
        r is None ==> deref(data@, base as int, field as int) is None,
{
    let off = read_u32(data, field)?;
    if base > data.len() || off as usize > data.len() - base {
        None
    } else {
        Some(base + off as usize)
    }
}

/// Whether the record tag `k` stands at `p`.
fn check_tag(data: &[u8], p: usize, k: u8) -> (r: bool)
    ensures
        r == tag_at(data@, p as int, tag(k)),
{
    if p > data.len() || data.len() - p < 4 {
        return false;
    }
    let ok = data[p] == 0x54 && data[p + 1] == 0x58 && data[p + 2] == 0x50 && data[p + 3] == k;
    let ghost w = data@.subrange(p as int, p + 4);
    assert(ok ==> w =~= tag(k));
    assert(w == tag(k) ==> w[0] == tag(k)[0] && w[1] == tag(k)[1] && w[2] == tag(k)[2] && w[3] == tag(k)[3]);
    ok
}

/// Copies `data[p .. p + n]`.
fn copy_bytes(data: &[u8], p: usize, n: usize) -> (r: Vec<u8>)
    requires
        fits(data@, p as int, n as int),
    ensures
        r@ == data@.subrange(p as int, p + n),
{
    let mut r: Vec<u8> = Vec::new();
    let mut i: usize = 0;
    while i < n
        invariant
            i <= n,
            p + n <= data.len(),
            fits(data@, p as int, n as int),
            r@ == data@.subrange(p as int, p + i),
        decreases n - i,
    {
        r.push(data[p + i]);
        i = i + 1;
        assert(r@ =~= data@.subrange(p as int, p + i));
    }
    r
}

/// Parses the mip-level record at `p`.
pub fn parse_mip(data: &[u8], p: usize) -> (r: Option<MipLevel>)
    ensures
        r matches Some(m) ==> spec_mip(data@, p as int) == Some(m@),
        r is None ==> spec_mip(data@, p as int) is None,
{
    if !check_tag(data, p, 2) {
        return None;
    }
    if data.len() - p < 24 {
        return None;
    }
    let width = read_i32(data, p + 4)?;
    let height = read_i32(data, p + 8)?;
    let code = read_u32(data, p + 12)?;
    let format = TextureFormat::from_code(code)?;
    let index = read_u8(data, p + 16)?;
    let array_index = read_u8(data, p + 17)?;
    let size = read_u32(data, p + 20)?;
    if size as usize > data.len() - (p + 24) {
        return None;
    }
    let bytes = copy_bytes(data, p + 24, size as usize);
    Some(MipLevel { width, height, format, index, array_index, data: bytes })
}

/// Parses the `l` mip levels of face `f` of the texture entry at `p`.
fn parse_face(data: &[u8], p: usize, l: u8, f: u8) -> (r: Option<Vec<MipLevel>>)
    requires
        p <= data@.len(),
    ensures
        r matches Some(v) ==> spec_face(data@, p as int, l as int, f as int) == Some(face_view(v)),
        r is None ==> spec_face(data@, p as int, l as int, f as int) is None,
{
    let ghost s = data@;
    let ghost ff = face_fn(s, p as int, l as int, f as int);
    let mut v: Vec<MipLevel> = Vec::new();
    let mut j: u8 = 0;
    while j < l
        invariant
            j <= l,
            p <= data@.len(),
            s == data@,
            ff == face_fn(s, p as int, l as int, f as int),
            spec_list(j as nat, ff) == Some(face_view(v)),
        decreases l - j,
    {
        assert((f as int) * (l as int) <= 65025) by (nonlinear_arith)
            requires
                0 <= f <= 255,
                0 <= l <= 255,
        ;
        let k: usize = 12 + 4 * (f as usize * l as usize + j as usize);
        let slot = match offset(data, p, k) {
            Some(q) => read_ptr(data, p, q),
            None => None,
        };
        let m = match slot {
            Some(t) => parse_mip(data, t),
            None => None,
        };
        assert(ff(j as int) == mip_slot(s, p as int, l as int, f as int, j as int));
        match m {
            Some(m) => {
                let ghost old_v = v;
                v.push(m);
                assert(face_view(v) =~= face_view(old_v).push(m@));
            },
            None => {
                proof {
                    lemma_list_none((j + 1) as nat, l as nat, ff);
                }
                return None;
            },
        }
        j = j + 1;
    }
    Some(v)
}

/// Parses the texture entry at `p`, every face and mip level included.
pub fn parse_texture(data: &[u8], p: usize) -> (r: Option<Texture>)
    ensures
        r matches Some(t) ==> spec_texture(data@, p as int) == Some(t@),
        r is None ==> spec_texture(data@, p as int) is None,
{
    let ghost s = data@;
    if p > data.len() || data.len() - p < 12 {
        return None;
    }
    assert(spec_kind(s, p as int) == (if tag_at(s, p as int, tag(4)) {
        Some(TextureKind::Plane)
    } else if tag_at(s, p as int, tag(5)) {
        Some(TextureKind::CubeMap)
    } else {
        None
    }));
    let kind = if check_tag(data, p, 4) {
        TextureKind::Plane
    } else if check_tag(data, p, 5) {
        TextureKind::CubeMap
    } else {
        return None;
    };
    let mip_count_total = read_u32(data, p + 4)?;
    let mip_levels = data[p + 8];
    let array_size = data[p + 9];
    let depth = data[p + 10];
    let dimensions = data[p + 11];
    let levels_per_face = match kind {
        TextureKind::Plane => mip_levels,
        TextureKind::CubeMap => {
            if array_size == 0 {
                return None;
            }
            mip_levels / array_size
        },
    };
    assert(levels_per_face == spec_levels_per_face(kind, s[p + 8], s[p + 9]));
    let ghost ff = faces_fn(s, p as int, levels_per_face as int);
    let mut faces: Vec<Vec<MipLevel>> = Vec::new();
    let mut f: u8 = 0;
    while f < array_size
        invariant
            f <= array_size,
            p <= data@.len(),
            s == data@,
            ff == faces_fn(s, p as int, levels_per_face as int),
            fits(s, p as int, 12),
            spec_kind(s, p as int) == Some(kind),
            array_size == s[p + 9],
            kind == TextureKind::CubeMap ==> array_size != 0,
            levels_per_face == spec_levels_per_face(kind, s[p + 8], s[p + 9]),
            spec_list(f as nat, ff) == Some(faces@.map_values(|v: Vec<MipLevel>| face_view(v))),
        decreases array_size - f,
    {
        assert(ff(f as int) == spec_face(s, p as int, levels_per_face as int, f as int));
        match parse_face(data, p, levels_per_face, f) {
            Some(face) => {
                let ghost old_faces = faces;
                faces.push(face);
                assert(faces@.map_values(|v: Vec<MipLevel>| face_view(v)) =~= old_faces@.map_values(
                    |v: Vec<MipLevel>| face_view(v),
                ).push(face_view(face)));
            },
            None => {
                proof {
                    lemma_list_none((f + 1) as nat, array_size as nat, ff);
                }
                return None;
            },
        }
        f = f + 1;
    }
    Some(
        Texture {
            kind,
            mip_count_total,
            mip_levels,
            array_size,
            depth,
            dimensions,
            levels_per_face,
            faces,
        },
    )
}

/// Parses the texture-set block at `q` and every texture it points to.
pub fn parse_texture_set(data: &[u8], q: usize) -> (r: Option<Vec<Texture>>)
    ensures
        r matches Some(v) ==> spec_texture_set(data@, q as int) == Some(v@.map_values(|t: Texture| t@)),
        r is None ==> spec_texture_set(data@, q as int) is None,
{
    let ghost s = data@;
    if !check_tag(data, q, 3) || data.len() - q < 12 {
        return None;
    }
    let count = read_u32(data, q + 4)?;
    let ghost ff = textures_fn(s, q as int);
    let mut v: Vec<Texture> = Vec::new();
    let mut i: u32 = 0;
    let mut field: usize = q + 12;
    while i < count
        invariant
            i <= count,
            q + 12 <= data@.len(),
            field == q + 12 + 4 * i,
            s == data@,
            ff == textures_fn(s, q as int),
            tag_at(s, q as int, tag(3)),
            fits(s, q as int, 12),
            count == u32_at(s, q + 4),
            spec_list(i as nat, ff) == Some(v@.map_values(|t: Texture| t@)),
        decreases count - i,
    {
        assert(ff(i as int) == texture_slot(s, q as int, i as int));
        if data.len() - q < 16 || field > data.len() - 4 {
            proof {
                lemma_list_none((i + 1) as nat, count as nat, ff);
            }
            return None;
        }
        let t = match read_ptr(data, q, field) {
            Some(t) => parse_texture(data, t),
            None => None,
        };
        match t {
            Some(t) => {
                let ghost old_v = v;
                v.push(t);
                assert(v@.map_values(|t: Texture| t@) =~= old_v@.map_values(|t: Texture| t@).push(t@));
            },
            None => {
                proof {
                    lemma_list_none((i + 1) as nat, count as nat, ff);
                }
                return None;
            },
        }
        i = i + 1;
        field = field + 4;
    }
    Some(v)
}

/// Relies on `String::from_utf8`: it succeeds exactly on valid UTF-8 and
/// then holds the text the bytes encode.
#[verifier::external_body]
fn utf8_text(b: Vec<u8>) -> (r: Option<String>)
    ensures
        r is Some <==> vstd::utf8::valid_utf8(b@),
        r matches Some(t) ==> t@ == vstd::utf8::decode_utf8(b@),
{
    String::from_utf8(b).ok()
}

/// Parses the zero-terminated UTF-8 text at `p`.
pub fn parse_cstr(data: &[u8], p: usize) -> (r: Option<String>)
    requires
        p <= data@.len(),
    ensures
        r matches Some(t) ==> spec_cstr(data@, p as int) == Some(t@),
        r is None ==> spec_cstr(data@, p as int) is None,
{
    let mut k: usize = p;
    while k < data.len() && data[k] != 0
        invariant
            p <= k <= data@.len(),
            nul_from(data@, p as int) == nul_from(data@, k as int),
        decreases data@.len() - k,
    {
        k = k + 1;
    }
    if k == data.len() {
        return None;
    }
    let bytes = copy_bytes(data, p, k - p);
    utf8_text(bytes)
}

/// Parses `count` pointers to names, the first pointer field at `q`.
fn parse_names(data: &[u8], q: usize, count: u32) -> (r: Option<Vec<String>>)
    ensures
        r matches Some(v) ==> spec_list(count as nat, names_fn(data@, q as int)) == Some(
            v@.map_values(|n: String| n@),
        ),
        r is None ==> spec_list(count as nat, names_fn(data@, q as int)) is None,
{
    let ghost s = data@;
    let ghost ff = names_fn(s, q as int);
    let mut v: Vec<String> = Vec::new();
    let mut i: u32 = 0;
    let mut field: usize = q;
    while i < count
        invariant
            i <= count,
            field == q + 4 * i,
            s == data@,
            ff == names_fn(s, q as int),
            spec_list(i as nat, ff) == Some(v@.map_values(|n: String| n@)),
        decreases count - i,
    {
        assert(ff(i as int) == name_slot(s, q as int, i as int));
        if data.len() < 4 || field > data.len() - 4 {
            proof {
                lemma_list_none((i + 1) as nat, count as nat, ff);
            }
            return None;
        }
        let t = match read_ptr(data, 0, field) {
            Some(t) => parse_cstr(data, t),
            None => None,
        };
        match t {
            Some(t) => {
                let ghost old_v = v;
                v.push(t);
                assert(v@.map_values(|n: String| n@) =~= old_v@.map_values(|n: String| n@).push(t@));
            },
            None => {
                proof {
                    lemma_list_none((i + 1) as nat, count as nat, ff);
                }
                return None;
            },
        }
        i = i + 1;
        field = field + 4;
    }
    Some(v)
}

fn parse_vec4(data: &[u8], p: usize) -> (r: Vec4)
    requires
        fits(data@, p as int, 16),
        p + 16 <= data.len(),
    ensures
        r == vec4_at(data@, p as int),
{
    Vec4 {
        x: read_u32(data, p).unwrap(),
        y: read_u32(data, p + 4).unwrap(),
        z: read_u32(data, p + 8).unwrap(),
        w: read_u32(data, p + 12).unwrap(),
    }
}

/// Parses `count` consecutive sprite records starting at `q`.
fn parse_sprites(data: &[u8], q: usize, count: u32) -> (r: Option<Vec<SpriteRecord>>)
    ensures
        r matches Some(v) ==> spec_list(count as nat, sprites_fn(data@, q as int)) == Some(v@),
        r is None ==> spec_list(count as nat, sprites_fn(data@, q as int)) is None,
{
    let ghost s = data@;
    let ghost ff = sprites_fn(s, q as int);
    let mut v: Vec<SpriteRecord> = Vec::new();
    let mut i: u32 = 0;
    let mut pos: usize = q;
    while i < count
        invariant
            i <= count,
            pos == q + 40 * i,
            s == data@,
            ff == sprites_fn(s, q as int),
            spec_list(i as nat, ff) == Some(v@),
        decreases count - i,
    {
        assert(ff(i as int) == spec_sprite(s, pos as int));
        if pos > data.len() || data.len() - pos < 40 {
            proof {
                lemma_list_none((i + 1) as nat, count as nat, ff);
            }
            return None;
        }
        let rec = SpriteRecord {
            texture_index: read_i32(data, pos).unwrap(),
            rotate: read_i32(data, pos + 4).unwrap(),
            texel_region: parse_vec4(data, pos + 8),
            pixel_region: parse_vec4(data, pos + 24),
        };
        v.push(rec);
        i = i + 1;
        pos = pos + 40;
    }
    Some(v)
}

/// Parses the screen modes of `count` consecutive sprite-extra records
/// starting at `q`.
fn parse_extras(data: &[u8], q: usize, count: u32) -> (r: Option<Vec<ScreenMode>>)
    ensures
        r matches Some(v) ==> spec_list(count as nat, extras_fn(data@, q as int)) == Some(v@),
        r is None ==> spec_list(count as nat, extras_fn(data@, q as int)) is None,
{
    let ghost s = data@;
    let ghost ff = extras_fn(s, q as int);
    let mut v: Vec<ScreenMode> = Vec::new();
    let mut i: u32 = 0;
    let mut pos: usize = q;
    while i < count
        invariant
            i <= count,
            pos == q + 8 * i,
            s == data@,
            ff == extras_fn(s, q as int),
            spec_list(i as nat, ff) == Some(v@),
        decreases count - i,
    {
        assert(ff(i as int) == spec_extra(s, pos as int));
        let mode = if pos > data.len() || data.len() - pos < 8 {
            None
        } else {
            ScreenMode::from_code(read_u32(data, pos + 4).unwrap())
        };
        match mode {
            Some(m) => v.push(m),
            None => {
                proof {
                    lemma_list_none((i + 1) as nat, count as nat, ff);
                }
                return None;
            },
        }
        i = i + 1;
        pos = pos + 8;
    }
    Some(v)
}

/// Parses a whole container, resolving every pointer. `None` exactly when
/// `data` is not a container: a tag that does not match, a pointer or a
/// record that leaves the data, an unknown format or screen-mode code, a
/// name without its terminator or not in UTF-8, or a cube map without faces.
pub fn parse_container(data: &[u8]) -> (r: Option<RawSet>)
    ensures
        r matches Some(raw) ==> spec_container(data@) == Some(raw@),
        r is None ==> spec_container(data@) is None,
{
    if data.len() < 32 {
        return None;
    }
    let flags = read_u32(data, 0)?;
    let tex_count = read_u32(data, 8)?;
    let spr_count = read_u32(data, 12)?;
    let a = read_ptr(data, 0, 4)?;
    let b = read_ptr(data, 0, 16)?;
    let c = read_ptr(data, 0, 20)?;
    let d = read_ptr(data, 0, 24)?;
    let e = read_ptr(data, 0, 28)?;
    let textures = parse_texture_set(data, a)?;
    let sprites = parse_sprites(data, b, spr_count)?;
    let texture_names = parse_names(data, c, tex_count)?;
    let sprite_names = parse_names(data, d, spr_count)?;
    let screen_modes = parse_extras(data, e, spr_count)?;
    Some(RawSet { flags, textures, sprites, texture_names, sprite_names, screen_modes })
}

/// A cube-map entry parses whatever its mip-level field holds: each face
/// then has the integer quotient of that field by the face count, any
/// remainder dropped.
pub proof fn lemma_cube_levels_truncate(s: Seq<u8>, p: int)
    requires
        spec_texture(s, p) matches Some(t) && t.kind == TextureKind::CubeMap,
    ensures
        ({
            let t = spec_texture(s, p).unwrap();
            &&& t.array_size > 0
            &&& t.levels_per_face == t.mip_levels / t.array_size
            &&& t.faces.len() == t.array_size
            &&& forall|f: int| 0 <= f < t.faces.len() ==> (#[trigger] t.faces[f]).len() == t.levels_per_face
        }),
{
    let t = spec_texture(s, p).unwrap();
    let l = t.levels_per_face as int;
    lemma_list_len(t.array_size as nat, faces_fn(s, p, l));
    assert forall|f: int| 0 <= f < t.faces.len() implies (#[trigger] t.faces[f]).len() == t.levels_per_face by {
        assert(faces_fn(s, p, l)(f) == Some(t.faces[f]));
        lemma_list_len(l as nat, face_fn(s, p, l, f));
    }
}

/// The header fields of a texture entry that parses.
pub proof fn lemma_texture_fields(s: Seq<u8>, p: int)
    requires
        spec_texture(s, p) is Some,
    ensures
        spec_texture(s, p).unwrap().mip_count_total == u32_at(s, p + 4),
        spec_texture(s, p).unwrap().mip_levels == s[p + 8],
        spec_texture(s, p).unwrap().array_size == s[p + 9],
        spec_texture(s, p).unwrap().depth == s[p + 10],
        spec_texture(s, p).unwrap().dimensions == s[p + 11],
{
}

} // verus!
