//! Serializing a sprite set: entries in ascending name order, every pointer
//! field first written as a zero placeholder and patched once the record it
//! designates has been appended.
use vstd::prelude::*;
use crate::bytes::{i32_at, lemma_le_bytes_u32_at, le_bytes, patch_u32, push_bytes, push_u32, u32_at};
use crate::entries::{entries_view, keys_unique};
use crate::format::{format_of_code, mode_code, mode_of_code, tag, ScreenMode, TextureFormat};
use crate::image::{flip_vertical, Image, ImageView};
use crate::model::{MipView, SpriteRecord, Vec4};
use crate::reader::{nul_from, spec_cstr, spec_extra, spec_mip, spec_sprite, vec4_at};
use crate::order::{distinct, is_permutation, sorted_order};
use crate::set::{SprSet, Sprite, SpriteError, SpriteView};

verus! {

/// An image whose buffer holds exactly its RGBA pixels, few enough for the
/// 32-bit length field of a mip level.
pub open spec fn image_ok(img: ImageView) -> bool {
    img.data.len() == 4 * img.width * img.height && 4 * img.width <= usize::MAX && img.data.len() <= u32::MAX
}

/// The UTF-8 bytes of a name.
pub open spec fn name_bytes(n: Seq<char>) -> Seq<u8> {
    vstd::utf8::encode_utf8(n)
}

/// The set holds a texture called `name`.
pub open spec fn has_texture(t: Seq<(Seq<char>, ImageView)>, name: Seq<char>) -> bool {
    exists|i: int| 0 <= i < t.len() && t[i].0 == name
}

/// Some image is inconsistent, or some sprite names a texture the set
/// does not hold.
pub open spec fn lacks_data(t: Seq<(Seq<char>, ImageView)>, s: Seq<(Seq<char>, SpriteView)>) -> bool {
    (exists|i: int| 0 <= i < t.len() && !image_ok(#[trigger] t[i].1)) || (exists|j: int|
        0 <= j < s.len() && !has_texture(t, (#[trigger] s[j]).1.texture_name))
}

/// Some texture or sprite name holds a zero byte.
pub open spec fn has_nul(t: Seq<(Seq<char>, ImageView)>, s: Seq<(Seq<char>, SpriteView)>) -> bool {
    (exists|i: int| 0 <= i < t.len() && name_bytes(#[trigger] t[i].0).contains(0u8)) || (exists|j: int|
        0 <= j < s.len() && name_bytes(#[trigger] s[j].0).contains(0u8))
}

/// How writing `set` ends.
pub open spec fn spec_write_result(set: SprSet) -> Result<(), SpriteError> {
    let t = entries_view(set.textures@);
    let s = entries_view(set.sprites@);
    if lacks_data(t, s) {
        Err(SpriteError::MissingData)
    } else if has_nul(t, s) {
        Err(SpriteError::NulInName)
    } else {
        Ok(())
    }
}

/// The 40-byte sprite record: texture position, rotation flag, texel and
/// pixel rectangles.
pub open spec fn sprite_bytes(index: i32, sp: SpriteView) -> Seq<u8> {
    le_bytes(index as u32) + le_bytes(sp.rotate as u32) + vec4_bytes(sp.texel_region) + vec4_bytes(sp.pixel_region)
}

pub open spec fn vec4_bytes(v: Vec4) -> Seq<u8> {
    le_bytes(v.x) + le_bytes(v.y) + le_bytes(v.z) + le_bytes(v.w)
}

/// Writes a zero placeholder for a pointer field and returns its position.
fn placeholder(out: &mut Vec<u8>) -> (pos: usize)
    ensures
        pos == old(out)@.len(),
        final(out)@ == old(out)@ + le_bytes(0),
{
    let pos = out.len();
    push_u32(out, 0);
    pos
}

/// Patches the placeholder at `pos` with `v`, changing nothing else.
fn patch(out: &mut Vec<u8>, pos: usize, v: u32)
    requires
        pos + 4 <= old(out)@.len(),
    ensures
        final(out)@.len() == old(out)@.len(),
        forall|i: int| 0 <= i < old(out)@.len() && (i < pos || i >= pos + 4) ==> #[trigger] final(out)@[i] == old(out)@[i],
        u32_at(final(out)@, pos as int) == v,
{
    patch_u32(out, pos, v);
    proof {
        let s = final(out)@;
        assert(s.subrange(pos as int, pos + 4) =~= le_bytes(v));
        crate::bytes::lemma_le_bytes_u32_at(v, s, pos as int);
    }
}

/// Writes the record tag `TXP` followed by `k`.
fn push_tag(out: &mut Vec<u8>, k: u8)
    ensures
        final(out)@ == old(out)@ + crate::format::tag(k),
{
    out.push(0x54);
    out.push(0x58);
    out.push(0x50);
    out.push(k);
    assert(final(out)@ =~= old(out)@ + crate::format::tag(k));
}

fn push_vec4(out: &mut Vec<u8>, v: Vec4)
    ensures
        final(out)@ == old(out)@ + vec4_bytes(v),
{
    push_u32(out, v.x);
    push_u32(out, v.y);
    push_u32(out, v.z);
    push_u32(out, v.w);
    assert(final(out)@ =~= old(out)@ + vec4_bytes(v));
}

/// Appends one sprite record.
pub fn push_sprite(out: &mut Vec<u8>, index: i32, sp: &Sprite)
    ensures
        final(out)@ == old(out)@ + sprite_bytes(index, sp@),
{
    push_u32(out, index as u32);
    push_u32(out, sp.rotate as u32);
    push_vec4(out, sp.texel_region);
    push_vec4(out, sp.pixel_region);
    assert(final(out)@ =~= old(out)@ + sprite_bytes(index, sp@));
}

/// The bytes of the texture entry written for an image: a plane of one
/// slice and one level, depth 8, whose pointer field leads to the mip level
/// right after it, holding the rows bottom-up.
pub open spec fn texture_bytes(img: ImageView) -> Seq<u8> {
    tag(4) + le_bytes(1) + seq![1u8, 1u8, 8u8, 0u8] + le_bytes(16) + mip_bytes(
        img.width,
        img.height,
        crate::image::flipv(img.data, img.width as nat, img.height as nat),
    )
}

/// Writes one texture entry at the end of `out`: a single-level plane whose
/// only mip level holds the image's rows bottom-up as raw RGBA.
fn push_texture(out: &mut Vec<u8>, img: &Image)
    requires
        image_ok(img@),
        img@.data.len() <= u32::MAX,
    ensures
        final(out)@ == old(out)@ + texture_bytes(img@),
{
    let ghost start = out@;
    let pos = out.len();
    push_tag(out, 4);
    push_u32(out, 1);
    out.push(1u8);
    out.push(1u8);
    out.push(8u8);
    out.push(0u8);
    let slot = placeholder(out);
    let data_pos = out.len();
    patch(out, slot, (data_pos - pos) as u32);
    push_tag(out, 2);
    push_u32(out, img.width);
    push_u32(out, img.height);
    push_u32(out, TextureFormat::RGBA8.code());
    out.push(0u8);
    out.push(0u8);
    out.push(0u8);
    out.push(0u8);
    let pixels = flip_vertical(&img.data, img.width as usize, img.height as usize);
    push_u32(out, pixels.len() as u32);
    push_bytes(out, pixels.as_slice());
    proof {
        let f = out@;
        let q = start.len() as int;
        assert(u32_at(f, q + 12) == (data_pos - pos) as u32);
        assert(data_pos - pos == 16);
        let mid = f.subrange(q + 12, q + 16);
        assert(mid[0] == f[q + 12] && mid[1] == f[q + 13] && mid[2] == f[q + 14] && mid[3] == f[q + 15]);
        assert(mid =~= le_bytes(16)) by {
            assert(f[q + 12] as int + 256 * f[q + 13] as int + 65536 * f[q + 14] as int + 16777216 * f[q + 15] as int == 16);
        }
        assert(f =~= start + texture_bytes(img@));
    }
}

/// Whether every image holds exactly its pixels.
fn images_ok(v: &Vec<(String, Image)>) -> (r: bool)
    ensures
        r == forall|i: int| 0 <= i < v@.len() ==> image_ok(#[trigger] entries_view(v@)[i].1),
{
    let mut i: usize = 0;
    while i < v.len()
        invariant
            i <= v@.len(),
            forall|k: int| 0 <= k < i ==> image_ok(#[trigger] entries_view(v@)[k].1),
        decreases v@.len() - i,
    {
        let img = &v[i].1;
        assert(entries_view(v@)[i as int].1 == img@);
        let w = img.width as u64;
        let h = img.height as u64;
        assert(w * h <= 0xffff_ffff * 0xffff_ffff) by (nonlinear_arith)
            requires
                w <= 0xffff_ffff,
                h <= 0xffff_ffff,
        ;
        let wh: u64 = w * h;
        let len = img.data.len();
        assert(4 * w * h == 4 * (w * h)) by (nonlinear_arith);
        let ok = 4 * w <= usize::MAX as u64 && wh <= (usize::MAX / 4) as u64 && len as u64 == 4 * wh
            && len as u64 <= u32::MAX as u64;
        if !ok {
            assert(!image_ok(entries_view(v@)[i as int].1));
            return false;
        }
        i = i + 1;
    }
    true
}

/// Whether every sprite names a texture of the set.
fn sprites_resolve(t: &Vec<(String, Image)>, s: &Vec<(String, Sprite)>) -> (r: bool)
    ensures
        r == forall|j: int| 0 <= j < s@.len() ==> has_texture(entries_view(t@), (#[trigger] entries_view(s@)[j]).1.texture_name),
{
    let ghost tv = entries_view(t@);
    let ghost sv = entries_view(s@);
    let mut j: usize = 0;
    while j < s.len()
        invariant
            j <= s@.len(),
            tv == entries_view(t@),
            sv == entries_view(s@),
            forall|q: int| 0 <= q < j ==> has_texture(tv, (#[trigger] sv[q]).1.texture_name),
        decreases s@.len() - j,
    {
        let mut i: usize = 0;
        let mut found = false;
        assert(sv[j as int].1.texture_name == s@[j as int].1.texture_name@);
        while i < t.len() && !found
            invariant
                i <= t@.len(),
                j < s@.len(),
                tv == entries_view(t@),
                sv == entries_view(s@),
                found ==> i < t@.len() && tv[i as int].0 == sv[j as int].1.texture_name,
                !found ==> forall|k: int| 0 <= k < i ==> tv[k].0 != sv[j as int].1.texture_name,
            decreases t@.len() - i + (if found { 0int } else { 1int }),
        {
            assert(tv[i as int].0 == t@[i as int].0@);
            if t[i].0.eq(&s[j].1.texture_name) {
                found = true;
            } else {
                i = i + 1;
            }
        }
        if !found {
            assert(!has_texture(tv, sv[j as int].1.texture_name));
            return false;
        }
        assert(tv[i as int].0 == sv[j as int].1.texture_name);
        j = j + 1;
    }
    true
}

/// Whether no name of `v` holds a zero byte.
fn names_nul_free<V: View>(v: &Vec<(String, V)>) -> (r: bool)
    ensures
        r == !(exists|i: int| 0 <= i < v@.len() && name_bytes(#[trigger] entries_view(v@)[i].0).contains(0u8)),
{
    let mut i: usize = 0;
    while i < v.len()
        invariant
            i <= v@.len(),
            forall|k: int| 0 <= k < i ==> !name_bytes(#[trigger] entries_view(v@)[k].0).contains(0u8),
        decreases v@.len() - i,
    {
        let b = v[i].0.as_str().as_bytes();
        assert(b@ == name_bytes(entries_view(v@)[i as int].0));
        let mut k: usize = 0;
        while k < b.len()
            invariant
                k <= b@.len(),
                i < v@.len(),
                b@ == name_bytes(entries_view(v@)[i as int].0),
                forall|q: int| 0 <= q < i ==> !name_bytes(#[trigger] entries_view(v@)[q].0).contains(0u8),
                forall|q: int| 0 <= q < k ==> b@[q] != 0u8,
            decreases b@.len() - k,
        {
            if b[k] == 0 {
                assert(b@[k as int] == 0u8);
                assert(name_bytes(entries_view(v@)[i as int].0).contains(0u8));
                return false;
            }
            k = k + 1;
        }
        assert(!name_bytes(entries_view(v@)[i as int].0).contains(0u8));
        i = i + 1;
    }
    true
}

/// The UTF-8 bytes of every name of `v`, in order.
fn name_keys<V: View>(v: &Vec<(String, V)>) -> (r: Vec<Vec<u8>>)
    requires
        keys_unique(entries_view(v@)),
    ensures
        r@.len() == v@.len(),
        forall|i: int| 0 <= i < v@.len() ==> #[trigger] r@[i]@ == name_bytes(entries_view(v@)[i].0),
        distinct(r@.map_values(|k: Vec<u8>| k@)),
{
    let mut r: Vec<Vec<u8>> = Vec::new();
    let mut i: usize = 0;
    while i < v.len()
        invariant
            i <= v@.len(),
            r@.len() == i,
            forall|k: int| 0 <= k < i ==> #[trigger] r@[k]@ == name_bytes(entries_view(v@)[k].0),
        decreases v@.len() - i,
    {
        let mut b: Vec<u8> = Vec::new();
        push_bytes(&mut b, v[i].0.as_str().as_bytes());
        assert(b@ =~= name_bytes(entries_view(v@)[i as int].0));
        r.push(b);
        i = i + 1;
    }
    proof {
        broadcast use vstd::utf8::encode_utf8_decode_utf8;
        let kv = r@.map_values(|k: Vec<u8>| k@);
        let ev = entries_view(v@);
        assert forall|a: int, b: int| 0 <= a < kv.len() && 0 <= b < kv.len() && a != b implies #[trigger] kv[a]
            != #[trigger] kv[b] by {
            if kv[a] == kv[b] {
                assert(vstd::utf8::decode_utf8(name_bytes(ev[a].0)) == ev[a].0);
                assert(vstd::utf8::decode_utf8(name_bytes(ev[b].0)) == ev[b].0);
                assert(ev[a].0 == ev[b].0);
            }
        }
    }
    r
}

/// The position, in the order `ord`, of the texture called `name`: the
/// texture index a sprite on that texture is written with.
pub fn texture_position(t: &Vec<(String, Image)>, ord: &Vec<usize>, name: &String) -> (r: Option<usize>)
    requires
        is_permutation(ord@, t@.len()),
    ensures
        r matches Some(k) ==> k < ord@.len() && entries_view(t@)[ord@[k as int] as int].0 == name@,
        r is None ==> forall|k: int| 0 <= k < ord@.len() ==> entries_view(t@)[#[trigger] ord@[k] as int].0 != name@,
{
    let mut k: usize = 0;
    while k < ord.len()
        invariant
            k <= ord@.len(),
            is_permutation(ord@, t@.len()),
            forall|q: int| 0 <= q < k ==> entries_view(t@)[#[trigger] ord@[q] as int].0 != name@,
        decreases ord@.len() - k,
    {
        let p = ord[k];
        assert(p < t@.len());
        assert(entries_view(t@)[p as int].0 == t@[p as int].0@);
        if t[p].0.eq(name) {
            return Some(k);
        }
        k = k + 1;
    }
    None
}

/// A table of 32-bit little-endian words.
pub open spec fn table(vals: Seq<u32>) -> Seq<u8> {
    Seq::new(4 * vals.len(), |i: int| le_bytes(vals[i / 4])[i % 4])
}

proof fn lemma_table_push(vals: Seq<u32>, x: u32)
    ensures
        table(vals.push(x)) == table(vals) + le_bytes(x),
{
    let a = table(vals.push(x));
    let b = table(vals) + le_bytes(x);
    assert forall|i: int| 0 <= i < a.len() implies a[i] == b[i] by {
        if i < 4 * vals.len() {
            assert(i / 4 < vals.len());
        } else {
            assert(i / 4 == vals.len());
        }
    }
    assert(a =~= b);
}

/// Patching word `k` of a table in place gives the table with that word
/// replaced.
proof fn lemma_table_patch(pre: Seq<u8>, vals: Seq<u32>, k: int, v: u32, post: Seq<u8>)
    requires
        0 <= k < vals.len(),
    ensures
        ({
            let s = pre + table(vals) + post;
            let p = pre.len() + 4 * k;
            s.subrange(0, p) + le_bytes(v) + s.subrange(p + 4, s.len() as int) == pre + table(vals.update(k, v))
                + post
        }),
{
    let s = pre + table(vals) + post;
    let p = pre.len() + 4 * k;
    let a = s.subrange(0, p) + le_bytes(v) + s.subrange(p + 4, s.len() as int);
    let b = pre + table(vals.update(k, v)) + post;
    let m = pre.len() as int;
    assert forall|i: int| 0 <= i < a.len() implies a[i] == b[i] by {
        if m <= i < m + 4 * vals.len() {
            let j = i - m;
            assert(0 <= j / 4 < vals.len());
            if p <= i < p + 4 {
                assert(j / 4 == k);
            } else {
                assert(j / 4 != k);
            }
        }
    }
    assert(a =~= b);
}

/// Writes `n` zero placeholders and returns where the first stands.
fn placeholders(out: &mut Vec<u8>, n: usize) -> (first: usize)
    ensures
        first == old(out)@.len(),
        final(out)@ == old(out)@ + table(Seq::new(n as nat, |k: int| 0u32)),
{
    let first = out.len();
    let ghost start = out@;
    let mut k: usize = 0;
    assert(table(Seq::new(0, |k: int| 0u32)) =~= Seq::<u8>::empty());
    assert(out@ =~= start + table(Seq::new(0, |k: int| 0u32)));
    while k < n
        invariant
            k <= n,
            out@ == start + table(Seq::new(k as nat, |k: int| 0u32)),
        decreases n - k,
    {
        push_u32(out, 0);
        proof {
            lemma_table_push(Seq::new(k as nat, |k: int| 0u32), 0);
            assert(Seq::new(k as nat, |k: int| 0u32).push(0) =~= Seq::new((k + 1) as nat, |k: int| 0u32));
        }
        assert(out@ =~= start + table(Seq::new((k + 1) as nat, |k: int| 0u32)));
        k = k + 1;
    }
    first
}

/// The images of `t` in the order `ord`.
pub open spec fn sorted_images(t: Seq<(Seq<char>, ImageView)>, ord: Seq<usize>) -> Seq<ImageView> {
    Seq::new(ord.len(), |k: int| t[ord[k] as int].1)
}

/// The first `k` texture entries, one after another.
pub open spec fn tex_entries(imgs: Seq<ImageView>, k: nat) -> Seq<u8>
    decreases k,
{
    if k == 0 {
        Seq::empty()
    } else {
        tex_entries(imgs, (k - 1) as nat) + texture_bytes(imgs[k - 1])
    }
}

/// Where entry `k` starts, counted from the texture-set block.
pub open spec fn tex_offset(imgs: Seq<ImageView>, k: int) -> u32 {
    (12 + 4 * imgs.len() + tex_entries(imgs, k as nat).len()) as u32
}

/// The texture-set block: its tag, the count, padding, a table of offsets
/// from the block's start, then the entries.
pub open spec fn texture_set_section(imgs: Seq<ImageView>) -> Seq<u8> {
    tag(3) + le_bytes(imgs.len() as u32) + le_bytes(0) + table(Seq::new(imgs.len(), |k: int| tex_offset(imgs, k)))
        + tex_entries(imgs, imgs.len())
}

/// Writes the texture-set block at the end of `out` and, after it, every
/// texture in the order `ord`, each pointer relative to the block's start.
fn write_texture_set(out: &mut Vec<u8>, t: &Vec<(String, Image)>, ord: &Vec<usize>)
    requires
        is_permutation(ord@, t@.len()),
        forall|i: int| 0 <= i < t@.len() ==> image_ok(#[trigger] entries_view(t@)[i].1),
    ensures
        final(out)@ == old(out)@ + texture_set_section(sorted_images(entries_view(t@), ord@)),
{
    let ghost start = out@;
    let ghost imgs = sorted_images(entries_view(t@), ord@);
    let tex_pos = out.len();
    let n = ord.len();
    push_tag(out, 3);
    push_u32(out, n as u32);
    push_u32(out, 0);
    let ghost pre = out@;
    let first = placeholders(out, n);
    let mut k: usize = 0;
    assert(tex_entries(imgs, 0) =~= Seq::<u8>::empty());
    assert(Seq::new(n as nat, |j: int| if j < 0 { tex_offset(imgs, j) } else { 0u32 }) =~= Seq::new(
        n as nat,
        |k: int| 0u32,
    ));
    while k < n
        invariant
            k <= n,
            n == ord@.len(),
            tex_pos == start.len(),
            pre.len() == tex_pos + 12,
            first == tex_pos + 12,
            pre == start + tag(3) + le_bytes(n as u32) + le_bytes(0),
            imgs == sorted_images(entries_view(t@), ord@),
            is_permutation(ord@, t@.len()),
            forall|i: int| 0 <= i < t@.len() ==> image_ok(#[trigger] entries_view(t@)[i].1),
            out@ == pre + table(Seq::new(n as nat, |j: int| if j < k { tex_offset(imgs, j) } else { 0u32 }))
                + tex_entries(imgs, k as nat),
        decreases n - k,
    {
        let ghost vals = Seq::new(n as nat, |j: int| if j < k { tex_offset(imgs, j) } else { 0u32 });
        let ghost rest = tex_entries(imgs, k as nat);
        let pos = out.len();
        assert(pos - tex_pos == 12 + 4 * n + rest.len());
        proof {
            lemma_table_patch(pre, vals, k as int, (pos - tex_pos) as u32, rest);
        }
        patch_u32(out, first + 4 * k, (pos - tex_pos) as u32);
        assert(vals.update(k as int, (pos - tex_pos) as u32) =~= Seq::new(
            n as nat,
            |j: int| if j < k + 1 { tex_offset(imgs, j) } else { 0u32 },
        ));
        let i = ord[k];
        assert(entries_view(t@)[i as int].1 == t@[i as int].1@);
        assert(imgs[k as int] == t@[i as int].1@);
        push_texture(out, &t[i].1);
        k = k + 1;
        assert(out@ =~= pre + table(Seq::new(n as nat, |j: int| if j < k { tex_offset(imgs, j) } else { 0u32 }))
            + tex_entries(imgs, k as nat));
    }
    assert(Seq::new(n as nat, |j: int| if j < n { tex_offset(imgs, j) } else { 0u32 }) =~= Seq::new(
        imgs.len(),
        |k: int| tex_offset(imgs, k),
    ));
    assert(out@ =~= start + texture_set_section(imgs));
}

/// The names of `v` in the order `ord`.
pub open spec fn sorted_names<V>(v: Seq<(Seq<char>, V)>, ord: Seq<usize>) -> Seq<Seq<char>> {
    Seq::new(ord.len(), |k: int| v[ord[k] as int].0)
}

/// The first `k` names, each as UTF-8 followed by a zero byte.
pub open spec fn strings(names: Seq<Seq<char>>, k: nat) -> Seq<u8>
    decreases k,
{
    if k == 0 {
        Seq::empty()
    } else {
        strings(names, (k - 1) as nat) + name_bytes(names[k - 1]) + seq![0u8]
    }
}

/// Where name `k` starts in a name array written at `q`.
pub open spec fn name_ptr(q: int, names: Seq<Seq<char>>, k: int) -> u32 {
    (q + 4 * names.len() + strings(names, k as nat).len()) as u32
}

/// A name array written at `q`: a table of absolute pointers, then the
/// names they lead to.
pub open spec fn name_section(q: int, names: Seq<Seq<char>>) -> Seq<u8> {
    table(Seq::new(names.len(), |k: int| name_ptr(q, names, k))) + strings(names, names.len())
}

/// Writes a table of pointers to the names of `v` in the order `ord`, then
/// the names themselves, each followed by a zero byte.
fn write_names<V: View>(out: &mut Vec<u8>, v: &Vec<(String, V)>, ord: &Vec<usize>)
    requires
        is_permutation(ord@, v@.len()),
    ensures
        final(out)@ == old(out)@ + name_section(old(out)@.len() as int, sorted_names(entries_view(v@), ord@)),
{
    let ghost start = out@;
    let ghost q = start.len() as int;
    let ghost names = sorted_names(entries_view(v@), ord@);
    let n = ord.len();
    let first = placeholders(out, n);
    let mut k: usize = 0;
    assert(strings(names, 0) =~= Seq::<u8>::empty());
    assert(Seq::new(n as nat, |j: int| if j < 0 { name_ptr(q, names, j) } else { 0u32 }) =~= Seq::new(
        n as nat,
        |k: int| 0u32,
    ));
    while k < n
        invariant
            k <= n,
            n == ord@.len(),
            first == q,
            q == start.len(),
            names == sorted_names(entries_view(v@), ord@),
            is_permutation(ord@, v@.len()),
            out@ == start + table(Seq::new(n as nat, |j: int| if j < k { name_ptr(q, names, j) } else { 0u32 }))
                + strings(names, k as nat),
        decreases n - k,
    {
        let ghost vals = Seq::new(n as nat, |j: int| if j < k { name_ptr(q, names, j) } else { 0u32 });
        let ghost rest = strings(names, k as nat);
        let pos = out.len();
        assert(pos == q + 4 * n + rest.len());
        proof {
            lemma_table_patch(start, vals, k as int, pos as u32, rest);
        }
        patch_u32(out, first + 4 * k, pos as u32);
        assert(vals.update(k as int, pos as u32) =~= Seq::new(
            n as nat,
            |j: int| if j < k + 1 { name_ptr(q, names, j) } else { 0u32 },
        ));
        let i = ord[k];
        assert(names[k as int] == v@[i as int].0@);
        push_bytes(out, v[i].0.as_str().as_bytes());
        out.push(0u8);
        k = k + 1;
        assert(out@ =~= start + table(Seq::new(n as nat, |j: int| if j < k { name_ptr(q, names, j) } else { 0u32 }))
            + strings(names, k as nat));
    }
    assert(Seq::new(n as nat, |j: int| if j < n { name_ptr(q, names, j) } else { 0u32 }) =~= Seq::new(
        names.len(),
        |k: int| name_ptr(q, names, k),
    ));
}

/// The position, in the order `tord`, of the texture called `name`.
pub open spec fn sorted_position(tv: Seq<(Seq<char>, ImageView)>, tord: Seq<usize>, name: Seq<char>) -> int {
    choose|k: int| 0 <= k < tord.len() && tv[tord[k] as int].0 == name
}

/// The `k`-th sprite record written: the `k`-th sprite in the order `sord`,
/// with the sorted position of its texture.
pub open spec fn written_record(
    tv: Seq<(Seq<char>, ImageView)>,
    tord: Seq<usize>,
    sv: Seq<(Seq<char>, SpriteView)>,
    sord: Seq<usize>,
    k: int,
) -> SpriteRecord {
    let sp = sv[sord[k] as int].1;
    SpriteRecord {
        texture_index: sorted_position(tv, tord, sp.texture_name) as i32,
        rotate: sp.rotate,
        texel_region: sp.texel_region,
        pixel_region: sp.pixel_region,
    }
}

/// The bytes of the first `n` sprite records written.
pub open spec fn sprite_section(
    tv: Seq<(Seq<char>, ImageView)>,
    tord: Seq<usize>,
    sv: Seq<(Seq<char>, SpriteView)>,
    sord: Seq<usize>,
    n: nat,
) -> Seq<u8>
    decreases n,
{
    if n == 0 {
        Seq::empty()
    } else {
        let sp = sv[sord[n - 1] as int].1;
        sprite_section(tv, tord, sv, sord, (n - 1) as nat) + sprite_bytes(
            sorted_position(tv, tord, sp.texture_name) as i32,
            sp,
        )
    }
}

proof fn lemma_sprite_section_len(
    tv: Seq<(Seq<char>, ImageView)>,
    tord: Seq<usize>,
    sv: Seq<(Seq<char>, SpriteView)>,
    sord: Seq<usize>,
    n: nat,
)
    ensures
        sprite_section(tv, tord, sv, sord, n).len() == 40 * n,
    decreases n,
{
    if n > 0 {
        lemma_sprite_section_len(tv, tord, sv, sord, (n - 1) as nat);
    }
}

/// The sprite records as written read back, in order, each with the sorted
/// position of its texture, the sprite's rotation flag and its rectangles.
#[verifier::rlimit(100)]
#[verifier::spinoff_prover]
pub proof fn lemma_sprite_section_round_trip(
    pre: Seq<u8>,
    tv: Seq<(Seq<char>, ImageView)>,
    tord: Seq<usize>,
    sv: Seq<(Seq<char>, SpriteView)>,
    sord: Seq<usize>,
    n: nat,
    post: Seq<u8>,
)
    ensures
        crate::reader::spec_list(
            n,
            crate::reader::sprites_fn(pre + sprite_section(tv, tord, sv, sord, n) + post, pre.len() as int),
        ) == Some(Seq::new(n, |k: int| written_record(tv, tord, sv, sord, k))),
    decreases n,
{
    let s = pre + sprite_section(tv, tord, sv, sord, n) + post;
    let want = Seq::new(n, |k: int| written_record(tv, tord, sv, sord, k));
    if n == 0 {
        assert(want =~= Seq::<SpriteRecord>::empty());
    } else {
        let m = (n - 1) as nat;
        let sp = sv[sord[m as int] as int].1;
        let idx = sorted_position(tv, tord, sp.texture_name) as i32;
        let prev = sprite_section(tv, tord, sv, sord, m);
        assert(s =~= pre + prev + (sprite_bytes(idx, sp) + post));
        lemma_sprite_section_round_trip(pre, tv, tord, sv, sord, m, sprite_bytes(idx, sp) + post);
        assert(s =~= (pre + prev) + sprite_bytes(idx, sp) + post);
        lemma_sprite_round_trip(pre + prev, idx, sp, post);
        lemma_sprite_section_len(tv, tord, sv, sord, m);
        let f = crate::reader::sprites_fn(s, pre.len() as int);
        assert(f(m as int) == spec_sprite(s, pre.len() as int + 40 * m));
        assert(Seq::new(m, |k: int| written_record(tv, tord, sv, sord, k)).push(written_record(tv, tord, sv, sord, m as int))
            =~= want);
    }
}

proof fn lemma_sorted_position_unique(tv: Seq<(Seq<char>, ImageView)>, tord: Seq<usize>, p: int)
    requires
        keys_unique(tv),
        is_permutation(tord, tv.len()),
        0 <= p < tord.len(),
    ensures
        sorted_position(tv, tord, tv[tord[p] as int].0) == p,
{
    let c = sorted_position(tv, tord, tv[tord[p] as int].0);
    assert(0 <= c < tord.len() && tv[tord[c] as int].0 == tv[tord[p] as int].0);
    assert(tord[c] < tv.len() && tord[p] < tv.len());
    assert(tord[c] == tord[p]);
}

proof fn lemma_listed_texture_found(tv: Seq<(Seq<char>, ImageView)>, tord: Seq<usize>, name: Seq<char>)
    requires
        is_permutation(tord, tv.len()),
        has_texture(tv, name),
        tv.len() <= usize::MAX,
    ensures
        exists|k: int| 0 <= k < tord.len() && tv[#[trigger] tord[k] as int].0 == name,
{
    let i = choose|i: int| 0 <= i < tv.len() && tv[i].0 == name;
    assert(tord.contains(i as usize));
    let q = choose|q: int| 0 <= q < tord.len() && tord[q] == i as usize;
    assert(tv[tord[q] as int].0 == name);
}

/// Appends the record of the `k`-th sprite in the order `sord`.
fn write_one_sprite(
    out: &mut Vec<u8>,
    t: &Vec<(String, Image)>,
    tord: &Vec<usize>,
    s: &Vec<(String, Sprite)>,
    sord: &Vec<usize>,
    k: usize,
)
    requires
        k < sord@.len(),
        is_permutation(tord@, t@.len()),
        is_permutation(sord@, s@.len()),
        forall|j: int| 0 <= j < s@.len() ==> has_texture(entries_view(t@), (#[trigger] entries_view(s@)[j]).1.texture_name),
        keys_unique(entries_view(t@)),
    ensures
        final(out)@ == old(out)@ + sprite_bytes(
            sorted_position(
                entries_view(t@),
                tord@,
                entries_view(s@)[sord@[k as int] as int].1.texture_name,
            ) as i32,
            entries_view(s@)[sord@[k as int] as int].1,
        ),
{
    let j = sord[k];
    let sp = &s[j].1;
    let tl = t.len();
    let ghost tv = entries_view(t@);
    let ghost sv = entries_view(s@);
    assert(sv[j as int].1 == sp@);
    match texture_position(t, tord, &sp.texture_name) {
        Some(p) => {
            proof {
                lemma_sorted_position_unique(tv, tord@, p as int);
            }
            push_sprite(out, p as i32, sp);
        },
        None => {
            proof {
                assert(has_texture(tv, sv[j as int].1.texture_name));
                lemma_listed_texture_found(tv, tord@, sp.texture_name@);
            }
        },
    }
}

/// Appends the sprite records of `s` in the order `sord`, each with the
/// position of its texture in the order `tord`.
fn write_sprites(
    out: &mut Vec<u8>,
    t: &Vec<(String, Image)>,
    tord: &Vec<usize>,
    s: &Vec<(String, Sprite)>,
    sord: &Vec<usize>,
)
    requires
        is_permutation(tord@, t@.len()),
        is_permutation(sord@, s@.len()),
        forall|j: int| 0 <= j < s@.len() ==> has_texture(entries_view(t@), (#[trigger] entries_view(s@)[j]).1.texture_name),
        keys_unique(entries_view(t@)),
    ensures
        final(out)@ == old(out)@ + sprite_section(entries_view(t@), tord@, entries_view(s@), sord@, sord@.len()),
{
    let ghost start = out@;
    let mut k: usize = 0;
    while k < sord.len()
        invariant
            k <= sord@.len(),
            is_permutation(tord@, t@.len()),
            is_permutation(sord@, s@.len()),
            forall|j: int| 0 <= j < s@.len() ==> has_texture(entries_view(t@), (#[trigger] entries_view(s@)[j]).1.texture_name),
            keys_unique(entries_view(t@)),
            out@ == start + sprite_section(entries_view(t@), tord@, entries_view(s@), sord@, k as nat),
        decreases sord@.len() - k,
    {
        let ghost before = out@;
        write_one_sprite(out, t, tord, s, sord, k);
        assert(out@ =~= start + sprite_section(entries_view(t@), tord@, entries_view(s@), sord@, (k + 1) as nat));
        k = k + 1;
    }
    assert(out@ =~= start + sprite_section(entries_view(t@), tord@, entries_view(s@), sord@, sord@.len()));
}

/// The screen modes of `s` in the order `ord`.
pub open spec fn sorted_modes(s: Seq<(Seq<char>, SpriteView)>, ord: Seq<usize>) -> Seq<ScreenMode> {
    Seq::new(ord.len(), |k: int| s[ord[k] as int].1.screen_mode)
}

/// The first `k` sprite-extra records: a zero word, then the mode's code.
pub open spec fn extras_section(modes: Seq<ScreenMode>, k: nat) -> Seq<u8>
    decreases k,
{
    if k == 0 {
        Seq::empty()
    } else {
        extras_section(modes, (k - 1) as nat) + le_bytes(0) + le_bytes(mode_code(modes[k - 1]))
    }
}

/// Appends the sprite-extra records of `s` in the order `sord`.
fn write_extras(out: &mut Vec<u8>, s: &Vec<(String, Sprite)>, sord: &Vec<usize>)
    requires
        is_permutation(sord@, s@.len()),
    ensures
        final(out)@ == old(out)@ + extras_section(sorted_modes(entries_view(s@), sord@), sord@.len()),
{
    let ghost start = out@;
    let ghost modes = sorted_modes(entries_view(s@), sord@);
    let mut k: usize = 0;
    assert(out@ =~= start + extras_section(modes, 0));
    while k < sord.len()
        invariant
            k <= sord@.len(),
            is_permutation(sord@, s@.len()),
            modes == sorted_modes(entries_view(s@), sord@),
            out@ == start + extras_section(modes, k as nat),
        decreases sord@.len() - k,
    {
        let j = sord[k];
        assert(modes[k as int] == s@[j as int].1.screen_mode);
        push_u32(out, 0);
        push_u32(out, s[j].1.screen_mode.code());
        k = k + 1;
        assert(out@ =~= start + extras_section(modes, k as nat));
    }
}

/// The UTF-8 bytes of each name of `v`, in order.
pub open spec fn name_keys_of<V>(v: Seq<(Seq<char>, V)>) -> Seq<Seq<u8>> {
    v.map_values(|e: (Seq<char>, V)| name_bytes(e.0))
}

/// `ord` lists the positions of `v` by ascending name.
pub open spec fn by_name<V>(v: Seq<(Seq<char>, V)>, ord: Seq<usize>) -> bool {
    is_permutation(ord, v.len()) && crate::order::sorted_by(name_keys_of(v), ord)
}

/// A whole container written at `base`: the header (flags, texture-set
/// pointer, the two counts, then pointers to the sprite records, the two
/// name arrays and the sprite extras), followed by those sections in that
/// order. Every pointer is absolute except those inside the texture set.
pub open spec fn container_bytes(
    base: int,
    flags: u32,
    imgs: Seq<ImageView>,
    tnames: Seq<Seq<char>>,
    sprites: Seq<u8>,
    snames: Seq<Seq<char>>,
    modes: Seq<ScreenMode>,
) -> Seq<u8> {
    let ts = texture_set_section(imgs);
    let t = base + 32;
    let sp = t + ts.len();
    let tn = sp + sprites.len();
    let tns = name_section(tn, tnames);
    let sn = tn + tns.len();
    let sns = name_section(sn, snames);
    let x = sn + sns.len();
    le_bytes(flags) + table(
        seq![t as u32, tnames.len() as u32, snames.len() as u32, sp as u32, tn as u32, sn as u32, x as u32],
    ) + ts + sprites + tns + sns + extras_section(modes, modes.len())
}

/// What `set` is written as at `base`, textures in the order `tord` and
/// sprites in the order `sord`.
#[verifier::opaque]
pub open spec fn written(base: int, set: SprSet, tord: Seq<usize>, sord: Seq<usize>) -> Seq<u8> {
    let tv = entries_view(set.textures@);
    let sv = entries_view(set.sprites@);
    container_bytes(
        base,
        set.flags,
        sorted_images(tv, tord),
        sorted_names(tv, tord),
        sprite_section(tv, tord, sv, sord, sord.len()),
        sorted_names(sv, sord),
        sorted_modes(sv, sord),
    )
}

/// Overwrites word `j` of the table that starts at `first`.
fn set_word(out: &mut Vec<u8>, first: usize, j: usize, v: u32, pre: Ghost<Seq<u8>>, vals: Ghost<Seq<u32>>, rest: Ghost<Seq<u8>>)
    requires
        old(out)@ == pre@ + table(vals@) + rest@,
        first == pre@.len(),
        j < vals@.len(),
    ensures
        final(out)@ == pre@ + table(vals@.update(j as int, v)) + rest@,
{
    proof {
        lemma_table_patch(pre@, vals@, j as int, v, rest@);
    }
    let len = out.len();
    assert(len == pre@.len() + 4 * vals@.len() + rest@.len());
    patch_u32(out, first + 4 * j, v);
}

impl SprSet {
    /// Appends the container for this set to `out`, pointers counting from
    /// the start of `out`. Textures and sprites go in ascending byte order of
    /// their names, every texture as a plane of one raw RGBA level with its
    /// rows bottom-up, and each sprite with the position of its texture in
    /// that order: the output is exactly [`written`]. Nothing is written on
    /// failure: `MissingData` when an image does not hold exactly its pixels
    /// (or more than a 32-bit length can count) or a sprite names a texture
    /// the set lacks, else `NulInName` when a name holds a zero byte.
    pub fn to_writer(&self, out: &mut Vec<u8>) -> (r: Result<(), SpriteError>)
        requires
            self.wf(),
        ensures
            r == spec_write_result(*self),
            r is Err ==> final(out)@ == old(out)@,
            r is Ok ==> exists|tord: Seq<usize>, sord: Seq<usize>|
                #![trigger written(old(out)@.len() as int, *self, tord, sord)]
                by_name(entries_view(self.textures@), tord) && by_name(entries_view(self.sprites@), sord)
                    && final(out)@ == old(out)@ + written(old(out)@.len() as int, *self, tord, sord)
                    && (old(out)@.len() == 0 && final(out)@.len() <= u32::MAX ==> crate::reader::spec_container(
                    final(out)@,
                ) == Some(written_view(*self, tord, sord))),
    {
        let ghost tv = entries_view(self.textures@);
        let ghost sv = entries_view(self.sprites@);
        let images = images_ok(&self.textures);
        let resolved = sprites_resolve(&self.textures, &self.sprites);
        if !images || !resolved {
            proof {
                if !images {
                    let i = choose|i: int| 0 <= i < self.textures@.len() && !image_ok(#[trigger] tv[i].1);
                    assert(!image_ok(tv[i].1));
                } else {
                    let j = choose|j: int| 0 <= j < self.sprites@.len() && !has_texture(tv, (#[trigger] sv[j]).1.texture_name);
                    assert(!has_texture(tv, sv[j].1.texture_name));
                }
            }
            return Err(SpriteError::MissingData);
        }
        if !names_nul_free(&self.textures) || !names_nul_free(&self.sprites) {
            return Err(SpriteError::NulInName);
        }
        let tkeys = name_keys(&self.textures);
        let skeys = name_keys(&self.sprites);
        let tord = sorted_order(&tkeys);
        let sord = sorted_order(&skeys);
        assert(tkeys@.map_values(|k: Vec<u8>| k@) =~= name_keys_of(tv));
        assert(skeys@.map_values(|k: Vec<u8>| k@) =~= name_keys_of(sv));
        let ghost start = out@;
        self.write_container(out, &tord, &sord);
        assert(final_bytes_witness(start, out@, *self, tord@, sord@));
        proof {
            if start.len() == 0 && out@.len() <= u32::MAX {
                assert(out@ =~= written(0, *self, tord@, sord@));
                lemma_written_parses(*self, tord@, sord@);
            }
        }
        Ok(())
    }

    /// Writes the container once every check has passed.
    #[verifier::rlimit(100)]
    #[verifier::spinoff_prover]
    fn write_container(&self, out: &mut Vec<u8>, tord: &Vec<usize>, sord: &Vec<usize>)
        requires
            self.wf(),
            by_name(entries_view(self.textures@), tord@),
            by_name(entries_view(self.sprites@), sord@),
            forall|i: int| 0 <= i < self.textures@.len() ==> image_ok(#[trigger] entries_view(self.textures@)[i].1),
            forall|j: int| 0 <= j < self.sprites@.len() ==> has_texture(
                entries_view(self.textures@),
                (#[trigger] entries_view(self.sprites@)[j]).1.texture_name,
            ),
        ensures
            final(out)@ == old(out)@ + written(old(out)@.len() as int, *self, tord@, sord@),
    {
        let ghost tv = entries_view(self.textures@);
        let ghost sv = entries_view(self.sprites@);
        let ghost start = out@;
        let ghost base = start.len() as int;
        push_u32(out, self.flags);
        let ghost pre = out@;
        let first = placeholders(out, 7);
        let ghost mut vals = Seq::new(7, |k: int| 0u32);
        let ghost mut rest = Seq::<u8>::empty();
        assert(out@ =~= pre + table(vals) + rest);
        set_word(out, first, 1, tord.len() as u32, Ghost(pre), Ghost(vals), Ghost(rest));
        proof { vals = vals.update(1, tord.len() as u32); }
        set_word(out, first, 2, sord.len() as u32, Ghost(pre), Ghost(vals), Ghost(rest));
        proof { vals = vals.update(2, sord.len() as u32); }

        let pos = out.len();
        set_word(out, first, 0, pos as u32, Ghost(pre), Ghost(vals), Ghost(rest));
        proof { vals = vals.update(0, pos as u32); }
        write_texture_set(out, &self.textures, tord);
        proof { rest = rest + texture_set_section(sorted_images(tv, tord@)); }
        assert(out@ =~= pre + table(vals) + rest);

        let pos = out.len();
        set_word(out, first, 3, pos as u32, Ghost(pre), Ghost(vals), Ghost(rest));
        proof { vals = vals.update(3, pos as u32); }
        write_sprites(out, &self.textures, tord, &self.sprites, sord);
        proof { rest = rest + sprite_section(tv, tord@, sv, sord@, sord@.len()); }
        assert(out@ =~= pre + table(vals) + rest);

        let pos = out.len();
        set_word(out, first, 4, pos as u32, Ghost(pre), Ghost(vals), Ghost(rest));
        proof { vals = vals.update(4, pos as u32); }
        write_names(out, &self.textures, tord);
        proof { rest = rest + name_section(pos as int, sorted_names(tv, tord@)); }
        assert(out@ =~= pre + table(vals) + rest);

        let pos = out.len();
        set_word(out, first, 5, pos as u32, Ghost(pre), Ghost(vals), Ghost(rest));
        proof { vals = vals.update(5, pos as u32); }
        write_names(out, &self.sprites, sord);
        proof { rest = rest + name_section(pos as int, sorted_names(sv, sord@)); }
        assert(out@ =~= pre + table(vals) + rest);

        let pos = out.len();
        set_word(out, first, 6, pos as u32, Ghost(pre), Ghost(vals), Ghost(rest));
        proof { vals = vals.update(6, pos as u32); }
        write_extras(out, &self.sprites, sord);
        proof { rest = rest + extras_section(sorted_modes(sv, sord@), sord@.len()); }
        assert(out@ =~= pre + table(vals) + rest);
        proof {
            let imgs = sorted_images(tv, tord@);
            let ts = texture_set_section(imgs);
            let t = base + 32;
            let sp = t + ts.len();
            let ss = sprite_section(tv, tord@, sv, sord@, sord@.len());
            let tn = sp + ss.len();
            let tns = name_section(tn, sorted_names(tv, tord@));
            let sn = tn + tns.len();
            let sns = name_section(sn, sorted_names(sv, sord@));
            let x = sn + sns.len();
            assert(sorted_names(tv, tord@).len() == tord@.len());
            assert(sorted_names(sv, sord@).len() == sord@.len());
            assert(sorted_modes(sv, sord@).len() == sord@.len());
            assert(vals =~= seq![t as u32, tord@.len() as u32, sord@.len() as u32, sp as u32, tn as u32, sn as u32, x as u32]);
            reveal(written);
            assert(out@ =~= start + written(base, *self, tord@, sord@));
        }
    }
}

/// The bytes `f` are what `set` is written as after `start`, in some
/// name orders.
pub open spec fn final_bytes_witness(start: Seq<u8>, f: Seq<u8>, set: SprSet, tord: Seq<usize>, sord: Seq<usize>) -> bool {
    by_name(entries_view(set.textures@), tord) && by_name(entries_view(set.sprites@), sord) && f == start + written(
        start.len() as int,
        set,
        tord,
        sord,
    )
}

proof fn lemma_u32_in(pre: Seq<u8>, mid: Seq<u8>, v: u32, post: Seq<u8>)
    requires
        mid == le_bytes(v),
    ensures
        u32_at(pre + mid + post, pre.len() as int) == v,
{
    let s = pre + mid + post;
    let p = pre.len() as int;
    assert(s.subrange(p, p + 4) =~= le_bytes(v));
    lemma_le_bytes_u32_at(v, s, p);
}

proof fn lemma_vec4_in(pre: Seq<u8>, v: Vec4, post: Seq<u8>)
    ensures
        vec4_at(pre + vec4_bytes(v) + post, pre.len() as int) == v,
{
    let p = pre.len() as int;
    let s = pre + vec4_bytes(v) + post;
    assert(s =~= pre + le_bytes(v.x) + (le_bytes(v.y) + le_bytes(v.z) + le_bytes(v.w) + post));
    lemma_u32_in(pre, le_bytes(v.x), v.x, le_bytes(v.y) + le_bytes(v.z) + le_bytes(v.w) + post);
    assert(s =~= (pre + le_bytes(v.x)) + le_bytes(v.y) + (le_bytes(v.z) + le_bytes(v.w) + post));
    lemma_u32_in(pre + le_bytes(v.x), le_bytes(v.y), v.y, le_bytes(v.z) + le_bytes(v.w) + post);
    assert(s =~= (pre + le_bytes(v.x) + le_bytes(v.y)) + le_bytes(v.z) + (le_bytes(v.w) + post));
    lemma_u32_in(pre + le_bytes(v.x) + le_bytes(v.y), le_bytes(v.z), v.z, le_bytes(v.w) + post);
    assert(s =~= (pre + le_bytes(v.x) + le_bytes(v.y) + le_bytes(v.z)) + le_bytes(v.w) + post);
    lemma_u32_in(pre + le_bytes(v.x) + le_bytes(v.y) + le_bytes(v.z), le_bytes(v.w), v.w, post);
}

/// A sprite record as written reads back with the same texture position,
/// rotation flag and rectangles, wherever it stands in the file.
#[verifier::rlimit(100)]
#[verifier::spinoff_prover]
pub proof fn lemma_sprite_round_trip(pre: Seq<u8>, index: i32, sp: SpriteView, post: Seq<u8>)
    ensures
        spec_sprite(pre + sprite_bytes(index, sp) + post, pre.len() as int) == Some(
            SpriteRecord {
                texture_index: index,
                rotate: sp.rotate,
                texel_region: sp.texel_region,
                pixel_region: sp.pixel_region,
            },
        ),
{
    let p = pre.len() as int;
    let a = le_bytes(index as u32);
    let b = le_bytes(sp.rotate as u32);
    let c = vec4_bytes(sp.texel_region);
    let d = vec4_bytes(sp.pixel_region);
    let s = pre + sprite_bytes(index, sp) + post;
    assert(s =~= pre + a + (b + c + d + post));
    lemma_u32_in(pre, a, index as u32, b + c + d + post);
    assert(s =~= (pre + a) + b + (c + d + post));
    lemma_u32_in(pre + a, b, sp.rotate as u32, c + d + post);
    assert(s =~= (pre + a + b) + c + (d + post));
    lemma_vec4_in(pre + a + b, sp.texel_region, d + post);
    assert(s =~= (pre + a + b + c) + d + post);
    lemma_vec4_in(pre + a + b + c, sp.pixel_region, post);
    let r = sp.rotate;
    assert((index as u32) as i32 == index) by (bit_vector);
    assert((r as u32) as i32 == r) by (bit_vector);
    assert(i32_at(s, p) == index);
    assert(i32_at(s, p + 4) == sp.rotate);
}

/// A sprite-extra record as written reads back with the same screen mode.
pub proof fn lemma_extra_round_trip(pre: Seq<u8>, m: ScreenMode, post: Seq<u8>)
    ensures
        spec_extra(pre + le_bytes(0) + le_bytes(mode_code(m)) + post, pre.len() as int) == Some(m),
{
    let s = pre + le_bytes(0) + le_bytes(mode_code(m)) + post;
    lemma_u32_in(pre + le_bytes(0), le_bytes(mode_code(m)), mode_code(m), post);
    assert(mode_of_code(mode_code(m)) == Some(m));
}

proof fn lemma_nul_scan(s: Seq<u8>, p: int, k: int, n: int)
    requires
        0 <= p <= k <= p + n < s.len(),
        s[p + n] == 0,
        forall|i: int| p <= i < p + n ==> s[i] != 0,
    ensures
        nul_from(s, k) == Some(p + n),
    decreases p + n - k,
{
    if k < p + n {
        lemma_nul_scan(s, p, k + 1, n);
    }
}

/// A name as written, its UTF-8 bytes and a zero byte, reads back as the
/// same name when it holds no zero byte.
pub proof fn lemma_name_round_trip(pre: Seq<u8>, n: Seq<char>, post: Seq<u8>)
    requires
        !name_bytes(n).contains(0u8),
    ensures
        spec_cstr(pre + name_bytes(n) + seq![0u8] + post, pre.len() as int) == Some(n),
{
    broadcast use vstd::utf8::encode_utf8_decode_utf8, vstd::utf8::encode_utf8_valid_utf8;

    let b = name_bytes(n);
    let s = pre + b + seq![0u8] + post;
    let p = pre.len() as int;
    assert forall|i: int| p <= i < p + b.len() implies s[i] != 0 by {
        assert(s[i] == b[i - p]);
    }
    lemma_nul_scan(s, p, p, b.len() as int);
    assert(s.subrange(p, p + b.len()) =~= b);
}

/// The bytes of the single mip level written for an image: its tag, sides,
/// the raw RGBA format code, level and slice zero, then its pixels.
pub open spec fn mip_bytes(width: u32, height: u32, data: Seq<u8>) -> Seq<u8> {
    tag(2) + le_bytes(width) + le_bytes(height) + le_bytes(2) + seq![0u8, 0u8, 0u8, 0u8] + le_bytes(
        data.len() as u32,
    ) + data
}

/// A mip level as written reads back with the same sides, the raw RGBA
/// format, and the same pixels.
#[verifier::rlimit(100)]
#[verifier::spinoff_prover]
pub proof fn lemma_mip_round_trip(pre: Seq<u8>, width: u32, height: u32, data: Seq<u8>, post: Seq<u8>)
    requires
        data.len() <= u32::MAX,
    ensures
        spec_mip(pre + mip_bytes(width, height, data) + post, pre.len() as int) == Some(
            MipView {
                width: width as i32,
                height: height as i32,
                format: TextureFormat::RGBA8,
                index: 0,
                array_index: 0,
                data,
            },
        ),
{
    let p = pre.len() as int;
    let s = pre + mip_bytes(width, height, data) + post;
    let z = seq![0u8, 0u8, 0u8, 0u8];
    let t = tag(2);
    let lw = le_bytes(width);
    let lh = le_bytes(height);
    let lf = le_bytes(2);
    let ln = le_bytes(data.len() as u32);
    assert(s =~= pre + t + lw + lh + lf + z + ln + data + post);
    assert(s =~= (pre + t) + lw + (lh + lf + z + ln + data + post));
    lemma_u32_in(pre + t, lw, width, lh + lf + z + ln + data + post);
    assert(s =~= (pre + t + lw) + lh + (lf + z + ln + data + post));
    lemma_u32_in(pre + t + lw, lh, height, lf + z + ln + data + post);
    assert(s =~= (pre + t + lw + lh) + lf + (z + ln + data + post));
    lemma_u32_in(pre + t + lw + lh, lf, 2, z + ln + data + post);
    assert(s =~= (pre + t + lw + lh + lf + z) + ln + (data + post));
    lemma_u32_in(pre + t + lw + lh + lf + z, ln, data.len() as u32, data + post);
    assert(s.subrange(p, p + 4) =~= t);
    assert(s[p + 16] == 0u8 && s[p + 17] == 0u8);
    assert(s.subrange(p + 24, p + 24 + data.len()) =~= data);
    assert(format_of_code(2) == Some(TextureFormat::RGBA8));
}

/// The entry a written image reads back as: a plane of one slice and one
/// level, depth 8, whose level has the image's sides, the raw RGBA format
/// and its rows bottom-up.
pub open spec fn written_texture(img: ImageView) -> crate::model::TextureView {
    crate::model::TextureView {
        kind: crate::model::TextureKind::Plane,
        mip_count_total: 1,
        mip_levels: 1,
        array_size: 1,
        depth: 8,
        dimensions: 0,
        levels_per_face: 1,
        faces: seq![
            seq![
                MipView {
                    width: img.width as i32,
                    height: img.height as i32,
                    format: TextureFormat::RGBA8,
                    index: 0,
                    array_index: 0,
                    data: crate::image::flipv(img.data, img.width as nat, img.height as nat),
                },
            ],
        ],
    }
}

/// The faces of a texture entry as written: one slice of one level. with one slice of one
/// level: that level has the image's sides, the raw RGBA format, and its
/// rows bottom-up.
#[verifier::rlimit(100)]
#[verifier::spinoff_prover]
proof fn lemma_texture_faces(pre: Seq<u8>, img: ImageView, post: Seq<u8>)
    requires
        image_ok(img),
    ensures
        ({
            let t = crate::reader::spec_texture(pre + texture_bytes(img) + post, pre.len() as int);
            let pixels = crate::image::flipv(img.data, img.width as nat, img.height as nat);
            &&& t is Some
            &&& t.unwrap().kind == crate::model::TextureKind::Plane
            &&& t.unwrap().array_size == 1 && t.unwrap().levels_per_face == 1
            &&& t.unwrap().faces.len() == 1 && t.unwrap().faces[0].len() == 1
            &&& t.unwrap().faces[0][0] == MipView {
                width: img.width as i32,
                height: img.height as i32,
                format: TextureFormat::RGBA8,
                index: 0,
                array_index: 0,
                data: pixels,
            }
        }),
{
    let pixels = crate::image::flipv(img.data, img.width as nat, img.height as nat);
    crate::image::lemma_flipv_len(img.data, img.width as nat, img.height as nat);
    let p = pre.len() as int;
    let head = tag(4) + le_bytes(1) + seq![1u8, 1u8, 8u8, 0u8];
    let mb = mip_bytes(img.width, img.height, pixels);
    let s = pre + texture_bytes(img) + post;
    assert(s =~= (pre + head) + le_bytes(16) + (mb + post));
    lemma_u32_in(pre + head, le_bytes(16), 16, mb + post);
    assert(s =~= (pre + head + le_bytes(16)) + mb + post);
    lemma_mip_round_trip(pre + head + le_bytes(16), img.width, img.height, pixels, post);
    assert(s.subrange(p, p + 4) =~= tag(4));
    assert(s[p + 8] == 1u8 && s[p + 9] == 1u8);
    let l = 1int;
    let m = spec_mip(s, p + 16).unwrap();
    assert(crate::reader::mip_slot(s, p, l, 0, 0) == Some(m));
    let ff = crate::reader::face_fn(s, p, l, 0);
    assert(ff(0) == Some(m));
    assert(crate::reader::spec_list(1, ff) == Some(seq![m])) by {
        assert(crate::reader::spec_list(0, ff) == Some(Seq::<MipView>::empty()));
        assert(Seq::<MipView>::empty().push(m) =~= seq![m]);
    }
    let gf = crate::reader::faces_fn(s, p, l);
    assert(gf(0) == Some(seq![m]));
    assert(crate::reader::spec_list(1, gf) == Some(seq![seq![m]])) by {
        assert(crate::reader::spec_list(0, gf) == Some(Seq::<Seq<MipView>>::empty()));
        assert(Seq::<Seq<MipView>>::empty().push(seq![m]) =~= seq![seq![m]]);
    }
}

/// A texture entry as written reads back as [`written_texture`].
pub proof fn lemma_texture_round_trip(pre: Seq<u8>, img: ImageView, post: Seq<u8>)
    requires
        image_ok(img),
    ensures
        crate::reader::spec_texture(pre + texture_bytes(img) + post, pre.len() as int) == Some(written_texture(img)),
{
    lemma_texture_faces(pre, img, post);
    lemma_texture_header(pre, img, post);
    crate::reader::lemma_texture_fields(pre + texture_bytes(img) + post, pre.len() as int);
    let t = crate::reader::spec_texture(pre + texture_bytes(img) + post, pre.len() as int).unwrap();
    let w = written_texture(img);
    assert(t.faces[0] =~= w.faces[0]);
    assert(t.faces =~= w.faces);
    assert(t == w);
}

proof fn lemma_texture_header(pre: Seq<u8>, img: ImageView, post: Seq<u8>)
    ensures
        ({
            let s = pre + texture_bytes(img) + post;
            let p = pre.len() as int;
            u32_at(s, p + 4) == 1 && s[p + 10] == 8u8 && s[p + 11] == 0u8
        }),
{
    let s = pre + texture_bytes(img) + post;
    let p = pre.len() as int;
    let x = texture_bytes(img);
    assert(s.subrange(p + 4, p + 8) =~= le_bytes(1)) by {
        assert(s[p + 4] == x[4] && s[p + 5] == x[5] && s[p + 6] == x[6] && s[p + 7] == x[7]);
    }
    lemma_le_bytes_u32_at(1, s, p + 4);
    assert(s[p + 10] == x[10] && s[p + 11] == x[11]);
}


proof fn lemma_split(s: Seq<u8>, p: int, w: Seq<u8>)
    requires
        0 <= p,
        p + w.len() <= s.len(),
        s.subrange(p, p + w.len()) == w,
    ensures
        s == s.subrange(0, p) + w + s.subrange(p + w.len(), s.len() as int),
{
    let t = s.subrange(0, p) + w + s.subrange(p + w.len(), s.len() as int);
    assert forall|i: int| 0 <= i < s.len() implies s[i] == t[i] by {
        if p <= i < p + w.len() {
            assert(s.subrange(p, p + w.len())[i - p] == s[i]);
        }
    }
    assert(s =~= t);
}

/// Word `k` of a table reads back as the value written there.
pub proof fn lemma_table_word(pre: Seq<u8>, vals: Seq<u32>, k: int, post: Seq<u8>)
    requires
        0 <= k < vals.len(),
    ensures
        u32_at(pre + table(vals) + post, pre.len() + 4 * k) == vals[k],
{
    let s = pre + table(vals) + post;
    let p = pre.len() + 4 * k;
    assert forall|r: int| 0 <= r < 4 implies s[p + r] == le_bytes(vals[k])[r] by {
        assert((4 * k + r) / 4 == k);
        assert((4 * k + r) % 4 == r);
    }
    assert(s.subrange(p, p + 4) =~= le_bytes(vals[k]));
    lemma_le_bytes_u32_at(vals[k], s, p);
}

proof fn lemma_strings_len(names: Seq<Seq<char>>, k: nat, n: nat)
    requires
        k <= n,
    ensures
        strings(names, k).len() <= strings(names, n).len(),
        strings(names, n).subrange(0, strings(names, k).len() as int) == strings(names, k),
    decreases n,
{
    if k < n {
        lemma_strings_len(names, k, (n - 1) as nat);
        let a = strings(names, (n - 1) as nat);
        assert(strings(names, n).subrange(0, a.len() as int) =~= a);
        assert(strings(names, n).subrange(0, strings(names, k).len() as int) =~= a.subrange(
            0,
            strings(names, k).len() as int,
        ));
    } else {
        assert(strings(names, n).subrange(0, strings(names, n).len() as int) =~= strings(names, n));
    }
}

/// A name array as written reads back as the same names, in order, when
/// every pointer fits in 32 bits and no name holds a zero byte.
pub proof fn lemma_name_section_round_trip(pre: Seq<u8>, names: Seq<Seq<char>>, post: Seq<u8>)
    requires
        forall|k: int| 0 <= k < names.len() ==> !name_bytes(#[trigger] names[k]).contains(0u8),
        pre.len() + name_section(pre.len() as int, names).len() <= u32::MAX,
    ensures
        crate::reader::spec_list(
            names.len(),
            crate::reader::names_fn(pre + name_section(pre.len() as int, names) + post, pre.len() as int),
        ) == Some(names),
{
    lemma_names_prefix(pre, names, post, names.len());
    assert(names.subrange(0, names.len() as int) =~= names);
}

#[verifier::rlimit(100)]
#[verifier::spinoff_prover]
proof fn lemma_name_at(pre: Seq<u8>, names: Seq<Seq<char>>, post: Seq<u8>, k: int)
    requires
        0 <= k < names.len(),
        forall|j: int| 0 <= j < names.len() ==> !name_bytes(#[trigger] names[j]).contains(0u8),
        pre.len() + name_section(pre.len() as int, names).len() <= u32::MAX,
    ensures
        crate::reader::names_fn(pre + name_section(pre.len() as int, names) + post, pre.len() as int)(k) == Some(
            names[k],
        ),
{
    let q = pre.len() as int;
    let n = names.len();
    let s = pre + name_section(q, names) + post;
    let vals = Seq::new(n, |j: int| name_ptr(q, names, j));
    let all = strings(names, n);
    assert(s =~= pre + table(vals) + (all + post));
    lemma_table_word(pre, vals, k, all + post);
    lemma_strings_len(names, (k + 1) as nat, n);
    lemma_strings_len(names, k as nat, (k + 1) as nat);
    let before = strings(names, k as nat);
    let word = name_bytes(names[k]) + seq![0u8];
    let p = q + 4 * n + before.len();
    assert(strings(names, (k + 1) as nat) == before + name_bytes(names[k]) + seq![0u8]);
    assert(name_ptr(q, names, k) as int == p);
    assert(s.subrange(p, p + word.len()) =~= word) by {
        assert forall|r: int| 0 <= r < word.len() implies s[p + r] == word[r] by {
            assert(s[p + r] == all[before.len() + r]);
            assert(all[before.len() + r] == strings(names, (k + 1) as nat)[before.len() + r]);
        }
    }
    let head = s.subrange(0, p);
    let tail = s.subrange(p + word.len(), s.len() as int);
    lemma_split(s, p, word);
    assert(head + word + tail =~= head + name_bytes(names[k]) + seq![0u8] + tail);
    lemma_name_round_trip(head, names[k], tail);
}

proof fn lemma_names_prefix(pre: Seq<u8>, names: Seq<Seq<char>>, post: Seq<u8>, i: nat)
    requires
        i <= names.len(),
        forall|k: int| 0 <= k < names.len() ==> !name_bytes(#[trigger] names[k]).contains(0u8),
        pre.len() + name_section(pre.len() as int, names).len() <= u32::MAX,
    ensures
        crate::reader::spec_list(
            i,
            crate::reader::names_fn(pre + name_section(pre.len() as int, names) + post, pre.len() as int),
        ) == Some(names.subrange(0, i as int)),
    decreases i,
{
    if i == 0 {
        assert(names.subrange(0, 0) =~= Seq::<Seq<char>>::empty());
    } else {
        let k = (i - 1) as int;
        lemma_names_prefix(pre, names, post, (i - 1) as nat);
        lemma_name_at(pre, names, post, k);
        assert(names.subrange(0, k).push(names[k]) =~= names.subrange(0, i as int));
    }
}

proof fn lemma_extras_len(modes: Seq<ScreenMode>, n: nat)
    ensures
        extras_section(modes, n).len() == 8 * n,
    decreases n,
{
    if n > 0 {
        lemma_extras_len(modes, (n - 1) as nat);
    }
}

/// The sprite-extra records as written read back as the same screen modes.
#[verifier::rlimit(100)]
#[verifier::spinoff_prover]
pub proof fn lemma_extras_round_trip(pre: Seq<u8>, modes: Seq<ScreenMode>, n: nat, post: Seq<u8>)
    requires
        n <= modes.len(),
    ensures
        crate::reader::spec_list(
            n,
            crate::reader::extras_fn(pre + extras_section(modes, n) + post, pre.len() as int),
        ) == Some(modes.subrange(0, n as int)),
    decreases n,
{
    let s = pre + extras_section(modes, n) + post;
    if n == 0 {
        assert(modes.subrange(0, 0) =~= Seq::<ScreenMode>::empty());
    } else {
        let m = (n - 1) as nat;
        let rec = le_bytes(0) + le_bytes(mode_code(modes[m as int]));
        let prev = extras_section(modes, m);
        assert(s =~= pre + prev + (rec + post));
        lemma_extras_round_trip(pre, modes, m, rec + post);
        assert(s =~= (pre + prev) + le_bytes(0) + le_bytes(mode_code(modes[m as int])) + post);
        lemma_extra_round_trip(pre + prev, modes[m as int], post);
        lemma_extras_len(modes, m);
        let f = crate::reader::extras_fn(s, pre.len() as int);
        assert(f(m as int) == spec_extra(s, pre.len() as int + 8 * m));
        assert(modes.subrange(0, m as int).push(modes[m as int]) =~= modes.subrange(0, n as int));
    }
}

proof fn lemma_entries_len(imgs: Seq<ImageView>, k: nat, n: nat)
    requires
        k <= n,
    ensures
        tex_entries(imgs, k).len() <= tex_entries(imgs, n).len(),
        tex_entries(imgs, n).subrange(0, tex_entries(imgs, k).len() as int) == tex_entries(imgs, k),
    decreases n,
{
    if k < n {
        lemma_entries_len(imgs, k, (n - 1) as nat);
        let a = tex_entries(imgs, (n - 1) as nat);
        assert(tex_entries(imgs, n).subrange(0, a.len() as int) =~= a);
        assert(tex_entries(imgs, n).subrange(0, tex_entries(imgs, k).len() as int) =~= a.subrange(
            0,
            tex_entries(imgs, k).len() as int,
        ));
    } else {
        assert(tex_entries(imgs, n).subrange(0, tex_entries(imgs, n).len() as int) =~= tex_entries(imgs, n));
    }
}

/// The written texture of every image, in order.
pub open spec fn written_textures(imgs: Seq<ImageView>) -> Seq<crate::model::TextureView> {
    Seq::new(imgs.len(), |k: int| written_texture(imgs[k]))
}

#[verifier::rlimit(100)]
#[verifier::spinoff_prover]
proof fn lemma_entry_at(pre: Seq<u8>, imgs: Seq<ImageView>, post: Seq<u8>, k: int)
    requires
        0 <= k < imgs.len(),
        forall|j: int| 0 <= j < imgs.len() ==> image_ok(#[trigger] imgs[j]),
        texture_set_section(imgs).len() <= u32::MAX,
    ensures
        crate::reader::textures_fn(pre + texture_set_section(imgs) + post, pre.len() as int)(k) == Some(
            written_texture(imgs[k]),
        ),
{
    let q = pre.len() as int;
    let n = imgs.len();
    let s = pre + texture_set_section(imgs) + post;
    let vals = Seq::new(n, |j: int| tex_offset(imgs, j));
    let all = tex_entries(imgs, n);
    let head12 = tag(3) + le_bytes(n as u32) + le_bytes(0);
    assert(s =~= (pre + head12) + table(vals) + (all + post));
    lemma_table_word(pre + head12, vals, k, all + post);
    lemma_entries_len(imgs, (k + 1) as nat, n);
    lemma_entries_len(imgs, k as nat, (k + 1) as nat);
    let before = tex_entries(imgs, k as nat);
    let word = texture_bytes(imgs[k]);
    let p = q + 12 + 4 * n + before.len();
    assert(tex_entries(imgs, (k + 1) as nat) == before + word);
    assert(tex_offset(imgs, k) as int == p - q);
    assert(s.subrange(p, p + word.len()) =~= word) by {
        assert forall|r: int| 0 <= r < word.len() implies s[p + r] == word[r] by {
            assert(s[p + r] == all[before.len() + r]);
            assert(all[before.len() + r] == tex_entries(imgs, (k + 1) as nat)[before.len() + r]);
        }
    }
    lemma_split(s, p, word);
    lemma_texture_round_trip(s.subrange(0, p), imgs[k], s.subrange(p + word.len(), s.len() as int));
}

proof fn lemma_entries_prefix(pre: Seq<u8>, imgs: Seq<ImageView>, post: Seq<u8>, i: nat)
    requires
        i <= imgs.len(),
        forall|k: int| 0 <= k < imgs.len() ==> image_ok(#[trigger] imgs[k]),
        texture_set_section(imgs).len() <= u32::MAX,
    ensures
        crate::reader::spec_list(
            i,
            crate::reader::textures_fn(pre + texture_set_section(imgs) + post, pre.len() as int),
        ) == Some(written_textures(imgs).subrange(0, i as int)),
    decreases i,
{
    if i == 0 {
        assert(written_textures(imgs).subrange(0, 0) =~= Seq::<crate::model::TextureView>::empty());
    } else {
        let k = (i - 1) as int;
        lemma_entries_prefix(pre, imgs, post, (i - 1) as nat);
        lemma_entry_at(pre, imgs, post, k);
        assert(written_textures(imgs).subrange(0, k).push(written_texture(imgs[k])) =~= written_textures(
            imgs,
        ).subrange(0, i as int));
    }
}

/// A texture-set block as written reads back as the written texture of
/// every image, in order.
#[verifier::rlimit(100)]
#[verifier::spinoff_prover]
pub proof fn lemma_texture_set_round_trip(pre: Seq<u8>, imgs: Seq<ImageView>, post: Seq<u8>)
    requires
        forall|k: int| 0 <= k < imgs.len() ==> image_ok(#[trigger] imgs[k]),
        texture_set_section(imgs).len() <= u32::MAX,
    ensures
        crate::reader::spec_texture_set(pre + texture_set_section(imgs) + post, pre.len() as int) == Some(
            written_textures(imgs),
        ),
{
    let q = pre.len() as int;
    let n = imgs.len();
    let s = pre + texture_set_section(imgs) + post;
    let rest = le_bytes(0) + table(Seq::new(n, |j: int| tex_offset(imgs, j))) + tex_entries(imgs, n) + post;
    assert(s =~= (pre + tag(3)) + le_bytes(n as u32) + rest);
    lemma_u32_in(pre + tag(3), le_bytes(n as u32), n as u32, rest);
    assert(s.subrange(q, q + 4) =~= tag(3));
    lemma_entries_prefix(pre, imgs, post, n);
    assert(written_textures(imgs).subrange(0, n as int) =~= written_textures(imgs));
}

/// The raw view a written set reads back as: its flags, the written texture
/// of every image and the written sprite records, names and screen modes,
/// all in ascending name order.
pub open spec fn written_view(set: SprSet, tord: Seq<usize>, sord: Seq<usize>) -> crate::model::RawSetView {
    let tv = entries_view(set.textures@);
    let sv = entries_view(set.sprites@);
    crate::model::RawSetView {
        flags: set.flags,
        textures: written_textures(sorted_images(tv, tord)),
        sprites: Seq::new(sord.len(), |k: int| written_record(tv, tord, sv, sord, k)),
        texture_names: sorted_names(tv, tord),
        sprite_names: sorted_names(sv, sord),
        screen_modes: sorted_modes(sv, sord),
    }
}

/// Where the sprite records of a set written at 0 start.
pub open spec fn w_sp(set: SprSet, tord: Seq<usize>, sord: Seq<usize>) -> int {
    32 + texture_set_section(sorted_images(entries_view(set.textures@), tord)).len() as int
}

/// Where the texture-name array of a set written at 0 starts.
pub open spec fn w_tn(set: SprSet, tord: Seq<usize>, sord: Seq<usize>) -> int {
    let tv = entries_view(set.textures@);
    let sv = entries_view(set.sprites@);
    w_sp(set, tord, sord) + sprite_section(tv, tord, sv, sord, sord.len()).len()
}

/// Where the sprite-name array of a set written at 0 starts.
pub open spec fn w_sn(set: SprSet, tord: Seq<usize>, sord: Seq<usize>) -> int {
    w_tn(set, tord, sord) + name_section(w_tn(set, tord, sord), sorted_names(entries_view(set.textures@), tord)).len()
}

/// Where the sprite extras of a set written at 0 start.
pub open spec fn w_x(set: SprSet, tord: Seq<usize>, sord: Seq<usize>) -> int {
    w_sn(set, tord, sord) + name_section(w_sn(set, tord, sord), sorted_names(entries_view(set.sprites@), sord)).len()
}

proof fn lemma_w_header(set: SprSet, tord: Seq<usize>, sord: Seq<usize>)
    requires
        set.wf(),
        by_name(entries_view(set.textures@), tord),
        by_name(entries_view(set.sprites@), sord),
        spec_write_result(set) is Ok,
        written(0, set, tord, sord).len() <= u32::MAX,
    ensures
        ({
            let s = written(0, set, tord, sord);
            &&& s.len() == w_x(set, tord, sord) + 8 * sord.len()
            &&& w_sp(set, tord, sord) <= w_tn(set, tord, sord) <= w_sn(set, tord, sord) <= w_x(set, tord, sord)
            &&& 32 <= w_sp(set, tord, sord)
            &&& w_sn(set, tord, sord) - w_tn(set, tord, sord) >= 4 * tord.len()
            &&& u32_at(s, 0) == set.flags
            &&& u32_at(s, 4) == 32
            &&& u32_at(s, 8) == tord.len() as u32
            &&& u32_at(s, 12) == sord.len() as u32
            &&& u32_at(s, 16) == w_sp(set, tord, sord) as u32
            &&& u32_at(s, 20) == w_tn(set, tord, sord) as u32
            &&& u32_at(s, 24) == w_sn(set, tord, sord) as u32
            &&& u32_at(s, 28) == w_x(set, tord, sord) as u32
        }),
{
    let tv = entries_view(set.textures@);
    let sv = entries_view(set.sprites@);
    let imgs = sorted_images(tv, tord);
    let tnames = sorted_names(tv, tord);
    let snames = sorted_names(sv, sord);
    let modes = sorted_modes(sv, sord);
    let ss = sprite_section(tv, tord, sv, sord, sord.len());
    let ts = texture_set_section(imgs);
    let tns = name_section(w_tn(set, tord, sord), tnames);
    let sns = name_section(w_sn(set, tord, sord), snames);
    let es = extras_section(modes, modes.len());
    let hv = seq![32u32, tnames.len() as u32, snames.len() as u32, w_sp(set, tord, sord) as u32,
        w_tn(set, tord, sord) as u32, w_sn(set, tord, sord) as u32, w_x(set, tord, sord) as u32];
    let head = le_bytes(set.flags) + table(hv);
    let s = written(0, set, tord, sord);
    reveal(written);
    assert(s == head + ts + ss + tns + sns + es);
    lemma_sprite_section_len(tv, tord, sv, sord, sord.len());
    lemma_extras_len(modes, modes.len());
    let rest = ts + ss + tns + sns + es;
    assert(s =~= Seq::<u8>::empty() + le_bytes(set.flags) + (table(hv) + rest));
    lemma_u32_in(Seq::<u8>::empty(), le_bytes(set.flags), set.flags, table(hv) + rest);
    assert(s =~= le_bytes(set.flags) + table(hv) + rest);
    lemma_table_word(le_bytes(set.flags), hv, 0, rest);
    lemma_table_word(le_bytes(set.flags), hv, 1, rest);
    lemma_table_word(le_bytes(set.flags), hv, 2, rest);
    lemma_table_word(le_bytes(set.flags), hv, 3, rest);
    lemma_table_word(le_bytes(set.flags), hv, 4, rest);
    lemma_table_word(le_bytes(set.flags), hv, 5, rest);
    lemma_table_word(le_bytes(set.flags), hv, 6, rest);
    assert(tnames.len() == tord.len() && snames.len() == sord.len() && modes.len() == sord.len());
}

#[verifier::rlimit(100)]
#[verifier::spinoff_prover]
proof fn lemma_w_textures(set: SprSet, tord: Seq<usize>, sord: Seq<usize>)
    requires
        set.wf(),
        by_name(entries_view(set.textures@), tord),
        by_name(entries_view(set.sprites@), sord),
        spec_write_result(set) is Ok,
        written(0, set, tord, sord).len() <= u32::MAX,
    ensures
        crate::reader::spec_texture_set(written(0, set, tord, sord), 32) == Some(
            written_textures(sorted_images(entries_view(set.textures@), tord)),
        ),
{
    let tv = entries_view(set.textures@);
    let sv = entries_view(set.sprites@);
    let imgs = sorted_images(tv, tord);
    let tnames = sorted_names(tv, tord);
    let snames = sorted_names(sv, sord);
    let modes = sorted_modes(sv, sord);
    let ss = sprite_section(tv, tord, sv, sord, sord.len());
    let ts = texture_set_section(imgs);
    let tns = name_section(w_tn(set, tord, sord), tnames);
    let sns = name_section(w_sn(set, tord, sord), snames);
    let es = extras_section(modes, modes.len());
    let hv = seq![32u32, tnames.len() as u32, snames.len() as u32, w_sp(set, tord, sord) as u32,
        w_tn(set, tord, sord) as u32, w_sn(set, tord, sord) as u32, w_x(set, tord, sord) as u32];
    let head = le_bytes(set.flags) + table(hv);
    let s = written(0, set, tord, sord);
    reveal(written);
    assert(s == head + ts + ss + tns + sns + es);
    lemma_sprite_section_len(tv, tord, sv, sord, sord.len());
    lemma_extras_len(modes, modes.len());
    assert forall|k: int| 0 <= k < imgs.len() implies image_ok(#[trigger] imgs[k]) by {
        assert(tord[k] < tv.len());
        assert(imgs[k] == tv[tord[k] as int].1);
    }
    assert(s =~= head + ts + (ss + tns + sns + es));
    lemma_texture_set_round_trip(head, imgs, ss + tns + sns + es);
}

#[verifier::rlimit(100)]
#[verifier::spinoff_prover]
proof fn lemma_w_sprites(set: SprSet, tord: Seq<usize>, sord: Seq<usize>)
    requires
        set.wf(),
        by_name(entries_view(set.textures@), tord),
        by_name(entries_view(set.sprites@), sord),
        spec_write_result(set) is Ok,
        written(0, set, tord, sord).len() <= u32::MAX,
    ensures
        crate::reader::spec_list(sord.len(), crate::reader::sprites_fn(written(0, set, tord, sord), w_sp(set, tord, sord)))
            == Some(written_view(set, tord, sord).sprites),
{
    let tv = entries_view(set.textures@);
    let sv = entries_view(set.sprites@);
    let imgs = sorted_images(tv, tord);
    let tnames = sorted_names(tv, tord);
    let snames = sorted_names(sv, sord);
    let modes = sorted_modes(sv, sord);
    let ss = sprite_section(tv, tord, sv, sord, sord.len());
    let ts = texture_set_section(imgs);
    let tns = name_section(w_tn(set, tord, sord), tnames);
    let sns = name_section(w_sn(set, tord, sord), snames);
    let es = extras_section(modes, modes.len());
    let hv = seq![32u32, tnames.len() as u32, snames.len() as u32, w_sp(set, tord, sord) as u32,
        w_tn(set, tord, sord) as u32, w_sn(set, tord, sord) as u32, w_x(set, tord, sord) as u32];
    let head = le_bytes(set.flags) + table(hv);
    let s = written(0, set, tord, sord);
    reveal(written);
    assert(s == head + ts + ss + tns + sns + es);
    lemma_sprite_section_len(tv, tord, sv, sord, sord.len());
    lemma_extras_len(modes, modes.len());
    assert(s =~= (head + ts) + ss + (tns + sns + es));
    lemma_sprite_section_round_trip(head + ts, tv, tord, sv, sord, sord.len(), tns + sns + es);
}

#[verifier::rlimit(100)]
#[verifier::spinoff_prover]
proof fn lemma_w_names(set: SprSet, tord: Seq<usize>, sord: Seq<usize>)
    requires
        set.wf(),
        by_name(entries_view(set.textures@), tord),
        by_name(entries_view(set.sprites@), sord),
        spec_write_result(set) is Ok,
        written(0, set, tord, sord).len() <= u32::MAX,
    ensures
        crate::reader::spec_list(tord.len(), crate::reader::names_fn(written(0, set, tord, sord), w_tn(set, tord, sord)))
            == Some(sorted_names(entries_view(set.textures@), tord)),
        crate::reader::spec_list(sord.len(), crate::reader::names_fn(written(0, set, tord, sord), w_sn(set, tord, sord)))
            == Some(sorted_names(entries_view(set.sprites@), sord)),
{
    let tv = entries_view(set.textures@);
    let sv = entries_view(set.sprites@);
    let imgs = sorted_images(tv, tord);
    let tnames = sorted_names(tv, tord);
    let snames = sorted_names(sv, sord);
    let modes = sorted_modes(sv, sord);
    let ss = sprite_section(tv, tord, sv, sord, sord.len());
    let ts = texture_set_section(imgs);
    let tns = name_section(w_tn(set, tord, sord), tnames);
    let sns = name_section(w_sn(set, tord, sord), snames);
    let es = extras_section(modes, modes.len());
    let hv = seq![32u32, tnames.len() as u32, snames.len() as u32, w_sp(set, tord, sord) as u32,
        w_tn(set, tord, sord) as u32, w_sn(set, tord, sord) as u32, w_x(set, tord, sord) as u32];
    let head = le_bytes(set.flags) + table(hv);
    let s = written(0, set, tord, sord);
    reveal(written);
    assert(s == head + ts + ss + tns + sns + es);
    lemma_sprite_section_len(tv, tord, sv, sord, sord.len());
    lemma_extras_len(modes, modes.len());
    assert forall|k: int| 0 <= k < tnames.len() implies !name_bytes(#[trigger] tnames[k]).contains(0u8) by {
        assert(tord[k] < tv.len());
        assert(tnames[k] == tv[tord[k] as int].0);
    }
    assert forall|k: int| 0 <= k < snames.len() implies !name_bytes(#[trigger] snames[k]).contains(0u8) by {
        assert(sord[k] < sv.len());
        assert(snames[k] == sv[sord[k] as int].0);
    }
    assert(s =~= (head + ts + ss) + tns + (sns + es));
    lemma_name_section_round_trip(head + ts + ss, tnames, sns + es);
    assert(s =~= (head + ts + ss + tns) + sns + es);
    lemma_name_section_round_trip(head + ts + ss + tns, snames, es);
}

#[verifier::rlimit(100)]
#[verifier::spinoff_prover]
proof fn lemma_w_extras(set: SprSet, tord: Seq<usize>, sord: Seq<usize>)
    requires
        set.wf(),
        by_name(entries_view(set.textures@), tord),
        by_name(entries_view(set.sprites@), sord),
        spec_write_result(set) is Ok,
        written(0, set, tord, sord).len() <= u32::MAX,
    ensures
        crate::reader::spec_list(sord.len(), crate::reader::extras_fn(written(0, set, tord, sord), w_x(set, tord, sord)))
            == Some(sorted_modes(entries_view(set.sprites@), sord)),
{
    let tv = entries_view(set.textures@);
    let sv = entries_view(set.sprites@);
    let imgs = sorted_images(tv, tord);
    let tnames = sorted_names(tv, tord);
    let snames = sorted_names(sv, sord);
    let modes = sorted_modes(sv, sord);
    let ss = sprite_section(tv, tord, sv, sord, sord.len());
    let ts = texture_set_section(imgs);
    let tns = name_section(w_tn(set, tord, sord), tnames);
    let sns = name_section(w_sn(set, tord, sord), snames);
    let es = extras_section(modes, modes.len());
    let hv = seq![32u32, tnames.len() as u32, snames.len() as u32, w_sp(set, tord, sord) as u32,
        w_tn(set, tord, sord) as u32, w_sn(set, tord, sord) as u32, w_x(set, tord, sord) as u32];
    let head = le_bytes(set.flags) + table(hv);
    let s = written(0, set, tord, sord);
    reveal(written);
    assert(s == head + ts + ss + tns + sns + es);
    lemma_sprite_section_len(tv, tord, sv, sord, sord.len());
    lemma_extras_len(modes, modes.len());
    assert(s =~= (head + ts + ss + tns + sns) + es + Seq::<u8>::empty());
    lemma_extras_round_trip(head + ts + ss + tns + sns, modes, modes.len(), Seq::<u8>::empty());
    assert(modes.subrange(0, modes.len() as int) =~= modes);
}

/// A set written from the start of a buffer parses back, pointer by
/// pointer, as [`written_view`]: the same flags, names, sprite records and
/// screen modes, and each texture as one raw RGBA level holding the image's
/// rows bottom-up. It needs every pointer to fit in 32 bits.
pub proof fn lemma_written_parses(set: SprSet, tord: Seq<usize>, sord: Seq<usize>)
    requires
        set.wf(),
        by_name(entries_view(set.textures@), tord),
        by_name(entries_view(set.sprites@), sord),
        spec_write_result(set) is Ok,
        written(0, set, tord, sord).len() <= u32::MAX,
    ensures
        crate::reader::spec_container(written(0, set, tord, sord)) == Some(written_view(set, tord, sord)),
{
    lemma_w_header(set, tord, sord);
    lemma_w_textures(set, tord, sord);
    lemma_w_sprites(set, tord, sord);
    lemma_w_names(set, tord, sord);
    lemma_w_extras(set, tord, sord);
}

/// Reading a written set that holds a texture fails with missing data: the
/// writer stores raw RGBA, which the decoder does not cover.
pub proof fn lemma_written_textures_do_not_decode(set: SprSet, tord: Seq<usize>, sord: Seq<usize>, db: Option<crate::set::DbSetView>)
    requires
        set.wf(),
        by_name(entries_view(set.textures@), tord),
        by_name(entries_view(set.sprites@), sord),
        spec_write_result(set) is Ok,
        written(0, set, tord, sord).len() <= u32::MAX,
        set.textures@.len() > 0,
    ensures
        crate::set::spec_read(written(0, set, tord, sord), db) == Err::<crate::set::SprSetView, SpriteError>(
            SpriteError::MissingData,
        ),
{
    lemma_written_parses(set, tord, sord);
    let s = written(0, set, tord, sord);
    let raw = written_view(set, tord, sord);
    assert(raw.textures[0].faces[0][0].format == TextureFormat::RGBA8);
    assert(crate::image::spec_decode(raw.textures[0]) is None);
    crate::set::lemma_undecodable_texture_fails(s, db, 0);
}

/// The bytes written for a set do not depend on which name orders are
/// used: there is only one.
pub proof fn lemma_written_unique(base: int, set: SprSet, t1: Seq<usize>, s1: Seq<usize>, t2: Seq<usize>, s2: Seq<usize>)
    requires
        by_name(entries_view(set.textures@), t1),
        by_name(entries_view(set.sprites@), s1),
        by_name(entries_view(set.textures@), t2),
        by_name(entries_view(set.sprites@), s2),
        set.textures@.len() <= usize::MAX,
        set.sprites@.len() <= usize::MAX,
    ensures
        written(base, set, t1, s1) == written(base, set, t2, s2),
{
    crate::order::lemma_sorted_order_unique(name_keys_of(entries_view(set.textures@)), t1, t2);
    crate::order::lemma_sorted_order_unique(name_keys_of(entries_view(set.sprites@)), s1, s2);
}

} // verus!
