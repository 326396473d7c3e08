//! Decoded RGBA images, and expansion of a texture's first mip level into one.
use vstd::prelude::*;
use crate::format::{spec_block_format, spec_block_size, BlockFormat};
use crate::model::{Texture, TextureView};

verus! {

/// An 8-bit RGBA image, rows from top to bottom.
#[derive(Clone, Debug)]
pub struct Image {
    pub width: u32,
    pub height: u32,
    pub data: Vec<u8>,
}

pub ghost struct ImageView {
    pub width: u32,
    pub height: u32,
    pub data: Seq<u8>,
}

impl View for Image {
    type V = ImageView;

    open spec fn view(&self) -> ImageView {
        ImageView { width: self.width, height: self.height, data: self.data@ }
    }
}

/// The RGBA pixels that the block decoder produces from `data` for an image
/// of `width` by `height`, rows in stored order.
pub uninterp spec fn bc_decoded(format: BlockFormat, data: Seq<u8>, width: nat, height: nat) -> Seq<u8>;

/// Bytes of block-compressed data for an image of `width` by `height`:
/// one block for each started 4x4 tile.
pub open spec fn compressed_size(format: BlockFormat, width: nat, height: nat) -> nat {
    ((width + 3) / 4) * ((height + 3) / 4) * spec_block_size(format)
}

/// Relies on `texpresso::Format::decompress`: it writes the RGBA pixels of
/// every tile into `out`, reading one block per tile from `data`. It panics
/// on a zero width or on data shorter than the blocks it reads.
#[verifier::external_body]
fn bc_decompress(format: BlockFormat, data: &[u8], width: usize, height: usize, out: &mut Vec<u8>)
    requires
        width > 0,
        data@.len() >= compressed_size(format, width as nat, height as nat),
        old(out)@.len() == 4 * width * height,
    ensures
        final(out)@ == bc_decoded(format, data@, width as nat, height as nat),
        final(out)@.len() == 4 * width * height,
{
    let f = match format {
        BlockFormat::Bc1 => texpresso::Format::Bc1,
        BlockFormat::Bc2 => texpresso::Format::Bc2,
        BlockFormat::Bc3 => texpresso::Format::Bc3,
        BlockFormat::Bc4 => texpresso::Format::Bc4,
        BlockFormat::Bc5 => texpresso::Format::Bc5,
    };
    f.decompress(data, width, height, out.as_mut_slice());
}

/// `d` cut or padded with zero bytes to exactly `n` bytes.
pub open spec fn padded(d: Seq<u8>, n: nat) -> Seq<u8> {
    Seq::new(n, |i: int| if i < d.len() { d[i] } else { 0u8 })
}

/// Row `r` of `d`, rows being `stride` bytes long.
pub open spec fn row(d: Seq<u8>, stride: nat, r: int) -> Seq<u8> {
    d.subrange(r * stride, (r + 1) * stride)
}

/// The first `n` rows of `d` upside down, `d` having `h` rows.
pub open spec fn flipped_rows(d: Seq<u8>, stride: nat, h: nat, n: nat) -> Seq<u8>
    decreases n,
{
    if n == 0 {
        Seq::empty()
    } else {
        flipped_rows(d, stride, h, (n - 1) as nat) + row(d, stride, h - n)
    }
}

/// `d` with its `h` rows of `4 * w` bytes in reverse order.
pub open spec fn flipv(d: Seq<u8>, w: nat, h: nat) -> Seq<u8> {
    flipped_rows(d, 4 * w, h, h)
}

pub proof fn lemma_flipped_len(d: Seq<u8>, stride: nat, h: nat, n: nat)
    requires
        n <= h,
        d.len() == stride * h,
    ensures
        flipped_rows(d, stride, h, n).len() == n * stride,
    decreases n,
{
    if n > 0 {
        lemma_flipped_len(d, stride, h, (n - 1) as nat);
        assert((h - n) * stride + stride <= h * stride) by (nonlinear_arith)
            requires
                n <= h,
                n > 0,
        ;
        assert(0 <= (h - n) * stride) by (nonlinear_arith)
            requires
                n <= h,
        ;
        assert((n - 1) * stride + stride == n * stride) by (nonlinear_arith);
        assert(((h - n) + 1) * stride == (h - n) * stride + stride) by (nonlinear_arith);
        assert(h * stride == stride * h) by (nonlinear_arith);
        assert(row(d, stride, h - n).len() == stride);
        assert(flipped_rows(d, stride, h, n) == flipped_rows(d, stride, h, (n - 1) as nat) + row(
            d,
            stride,
            h - n,
        ));
    } else {
        assert(0 * stride == 0) by (nonlinear_arith);
    }
}

/// Flipping keeps the length of a buffer of `h` rows of `4 * w` bytes.
pub proof fn lemma_flipv_len(d: Seq<u8>, w: nat, h: nat)
    requires
        d.len() == 4 * w * h,
    ensures
        flipv(d, w, h).len() == d.len(),
{
    assert(d.len() == (4 * w) * h) by (nonlinear_arith)
        requires
            d.len() == 4 * w * h,
    ;
    lemma_flipped_len(d, 4 * w, h, h);
    assert(h * (4 * w) == (4 * w) * h) by (nonlinear_arith);
}

/// Reverses the order of the `h` rows of `4 * w` bytes in `d`.
pub fn flip_vertical(d: &Vec<u8>, w: usize, h: usize) -> (r: Vec<u8>)
    requires
        d@.len() == 4 * w * h,
        4 * w <= usize::MAX,
    ensures
        r@ == flipv(d@, w as nat, h as nat),
        r@.len() == d@.len(),
{
    let stride: usize = 4 * w;
    assert(4 * w * h == stride * h) by (nonlinear_arith)
        requires
            stride == 4 * w,
    ;
    let len = d.len();
    let mut r: Vec<u8> = Vec::new();
    let mut n: usize = 0;
    while n < h
        invariant
            n <= h,
            stride == 4 * w,
            d@.len() == stride * h,
            d@.len() == len,
            r@ == flipped_rows(d@, stride as nat, h as nat, n as nat),
        decreases h - n,
    {
        let src: usize = h - 1 - n;
        assert(src * stride + stride <= stride * h) by (nonlinear_arith)
            requires
                src < h,
        ;
        let start: usize = src * stride;
        let mut k: usize = 0;
        let ghost before = r@;
        while k < stride
            invariant
                k <= stride,
                start + stride <= d@.len(),
                d@.len() == len,
                d@.len() == stride * h,
                r@ == before + d@.subrange(start as int, start + k),
            decreases stride - k,
        {
            r.push(d[start + k]);
            k = k + 1;
            assert(r@ =~= before + d@.subrange(start as int, start + k));
        }
        assert(start + stride == (src + 1) * stride) by (nonlinear_arith)
            requires
                start == src * stride,
        ;
        assert(h - (n + 1) == src);
        n = n + 1;
    }
    proof {
        lemma_flipped_len(d@, stride as nat, h as nat, h as nat);
        assert(h * stride == d@.len()) by (nonlinear_arith)
            requires
                d@.len() == stride * h,
        ;
    }
    r
}

/// The image a texture entry decodes to: mip level 0 of its first slice or
/// face, expanded by its block format and turned upright. `None` when that
/// level is missing, its format has no block decoder, a side is not
/// positive, or the buffers would not be addressable.
pub open spec fn spec_decode(t: TextureView) -> Option<ImageView> {
    if t.faces.len() == 0 || t.faces[0].len() == 0 {
        None
    } else {
        let m = t.faces[0][0];
        match spec_block_format(m.format) {
            None => None,
            Some(b) => {
                let w = m.width as nat;
                let h = m.height as nat;
                if m.width <= 0 || m.height <= 0 || 4 * w * h > usize::MAX || compressed_size(b, w, h)
                    > usize::MAX {
                    None
                } else {
                    Some(
                        ImageView {
                            width: m.width as u32,
                            height: m.height as u32,
                            data: flipv(bc_decoded(b, padded(m.data, compressed_size(b, w, h)), w, h), w, h),
                        },
                    )
                }
            },
        }
    }
}

/// `d` cut or padded with zero bytes to exactly `n` bytes.
fn pad_to(d: &Vec<u8>, n: usize) -> (r: Vec<u8>)
    ensures
        r@ == padded(d@, n as nat),
{
    let mut r: Vec<u8> = Vec::new();
    let mut i: usize = 0;
    while i < n
        invariant
            i <= n,
            r@ =~= padded(d@, n as nat).subrange(0, i as int),
        decreases n - i,
    {
        if i < d.len() {
            r.push(d[i]);
        } else {
            r.push(0u8);
        }
        i = i + 1;
    }
    r
}

/// Decodes a texture entry to an upright RGBA image; `None` exactly when
/// [`spec_decode`] has none, among others for every pixel format outside the
/// block-compressed families the decoder covers.
pub fn decode_texture(t: &Texture) -> (r: Option<Image>)
    ensures
        r matches Some(img) ==> spec_decode(t@) == Some(img@),
        r is None ==> spec_decode(t@) is None,
        r matches Some(img) ==> img.data@.len() == 4 * img.width * img.height,
{
    if t.faces.len() == 0 || t.faces[0].len() == 0 {
        return None;
    }
    let m = &t.faces[0][0];
    assert(m@ == t@.faces[0][0]);
    let b = match m.format.block_format() {
        Some(b) => b,
        None => return None,
    };
    if m.width <= 0 || m.height <= 0 {
        return None;
    }
    let w = m.width as u64;
    let h = m.height as u64;
    assert(4 * w * h <= 4 * 0x7fff_ffff * 0x7fff_ffff) by (nonlinear_arith)
        requires
            w <= 0x7fff_ffff,
            h <= 0x7fff_ffff,
    ;
    let n: u64 = 4 * w * h;
    let cw: u64 = (w + 3) / 4;
    let ch: u64 = (h + 3) / 4;
    assert(cw * ch * 16 <= 0x2000_0000 * 0x2000_0000 * 16) by (nonlinear_arith)
        requires
            cw <= 0x2000_0000,
            ch <= 0x2000_0000,
    ;
    let bs = b.block_size() as u64;
    assert(cw * ch * bs <= cw * ch * 16) by (nonlinear_arith)
        requires
            bs <= 16,
    ;
    let csize: u64 = cw * ch * bs;
    assert(csize == compressed_size(b, w as nat, h as nat));
    if n > usize::MAX as u64 || csize > usize::MAX as u64 {
        return None;
    }
    assert(4 * w <= n) by (nonlinear_arith)
        requires
            h >= 1,
            n == 4 * w * h,
    ;
    let payload = pad_to(&m.data, csize as usize);
    let mut pixels: Vec<u8> = Vec::new();
    let mut i: usize = 0;
    while i < n as usize
        invariant
            i <= n,
            pixels@.len() == i,
        decreases n - i,
    {
        pixels.push(0u8);
        i = i + 1;
    }
    bc_decompress(b, payload.as_slice(), w as usize, h as usize, &mut pixels);
    let data = flip_vertical(&pixels, w as usize, h as usize);
    Some(Image { width: w as u32, height: h as u32, data })
}

} // verus!
