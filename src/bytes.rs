//! Little-endian fields in a flat byte buffer, read at and written to
//! absolute positions.
use vstd::prelude::*;

verus! {

/// The unsigned 32-bit little-endian value stored in `s` at `p .. p + 4`.
pub open spec fn u32_at(s: Seq<u8>, p: int) -> u32 {
    (s[p] as int + 256 * s[p + 1] as int + 65536 * s[p + 2] as int + 16777216 * s[p + 3] as int) as u32
}

/// The signed 32-bit little-endian value stored in `s` at `p .. p + 4`.
pub open spec fn i32_at(s: Seq<u8>, p: int) -> i32 {
    u32_at(s, p) as i32
}

/// Whether `n` bytes starting at `p` lie inside `s`.
pub open spec fn fits(s: Seq<u8>, p: int, n: int) -> bool {
    0 <= p && 0 <= n && p + n <= s.len()
}

/// The four bytes of `v`, least significant first.
pub open spec fn le_bytes(v: u32) -> Seq<u8> {
    seq![(v % 256) as u8, ((v / 256) % 256) as u8, ((v / 65536) % 256) as u8, (v / 16777216) as u8]
}

pub proof fn lemma_le_bytes_u32_at(v: u32, s: Seq<u8>, p: int)
    requires
        fits(s, p, 4),
        s.subrange(p, p + 4) == le_bytes(v),
    ensures
        u32_at(s, p) == v,
{
    assert(s[p] == le_bytes(v)[0]);
    assert(s[p + 1] == le_bytes(v)[1]);
    assert(s[p + 2] == le_bytes(v)[2]);
    assert(s[p + 3] == le_bytes(v)[3]);
    let a = v as int;
    assert(a == a % 256 + 256 * ((a / 256) % 256) + 65536 * ((a / 65536) % 256) + 16777216 * (a / 16777216));
}

/// Reads the little-endian `u32` at `pos`, if four bytes are there.
pub fn read_u32(data: &[u8], pos: usize) -> (r: Option<u32>)
    ensures
        r == (if fits(data@, pos as int, 4) { Some(u32_at(data@, pos as int)) } else { None::<u32> }),
{
    if pos > data.len() || data.len() - pos < 4 {
        return None;
    }
    let b0 = data[pos] as u32;
    let b1 = data[pos + 1] as u32;
    let b2 = data[pos + 2] as u32;
    let b3 = data[pos + 3] as u32;
    Some(b0 + 256 * b1 + 65536 * b2 + 16777216 * b3)
}

/// Reads the little-endian `i32` at `pos`, if four bytes are there.
pub fn read_i32(data: &[u8], pos: usize) -> (r: Option<i32>)
    ensures
        r == (if fits(data@, pos as int, 4) { Some(i32_at(data@, pos as int)) } else { None::<i32> }),
{
    match read_u32(data, pos) {
        Some(v) => Some(v as i32),
        None => None,
    }
}

/// Reads the byte at `pos`, if it is there.
pub fn read_u8(data: &[u8], pos: usize) -> (r: Option<u8>)
    ensures
        r == (if fits(data@, pos as int, 1) { Some(data@[pos as int]) } else { None::<u8> }),
{
    if pos < data.len() {
        Some(data[pos])
    } else {
        None
    }
}

/// Appends `v` in little-endian order.
pub fn push_u32(out: &mut Vec<u8>, v: u32)
    ensures
        final(out)@ == old(out)@ + le_bytes(v),
{
    out.push((v % 256) as u8);
    out.push(((v / 256) % 256) as u8);
    out.push(((v / 65536) % 256) as u8);
    out.push((v / 16777216) as u8);
    assert(final(out)@ =~= old(out)@ + le_bytes(v));
}

/// Overwrites the four bytes at `pos` with `v` in little-endian order.
pub fn patch_u32(out: &mut Vec<u8>, pos: usize, v: u32)
    requires
        fits(old(out)@, pos as int, 4),
    ensures
        final(out)@ == old(out)@.subrange(0, pos as int) + le_bytes(v) + old(out)@.subrange(
            pos as int + 4,
            old(out)@.len() as int,
        ),
{
    let ghost n = out.len();
    assert(pos + 4 <= n);
    out.set(pos, (v % 256) as u8);
    out.set(pos + 1, ((v / 256) % 256) as u8);
    out.set(pos + 2, ((v / 65536) % 256) as u8);
    out.set(pos + 3, (v / 16777216) as u8);
    assert(final(out)@ =~= old(out)@.subrange(0, pos as int) + le_bytes(v) + old(out)@.subrange(
        pos as int + 4,
        old(out)@.len() as int,
    ));
}

/// Appends every byte of `b`.
pub fn push_bytes(out: &mut Vec<u8>, b: &[u8])
    ensures
        final(out)@ == old(out)@ + b@,
{
    let ghost start = out@;
    let mut i: usize = 0;
    while i < b.len()
        invariant
            i <= b@.len(),
            out@ == start + b@.subrange(0, i as int),
        decreases b@.len() - i,
    {
        out.push(b[i]);
        i = i + 1;
        assert(out@ =~= start + b@.subrange(0, i as int));
    }
    assert(b@.subrange(0, b@.len() as int) =~= b@);
}

} // verus!
