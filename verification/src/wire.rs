//! Little-endian integers and byte ranges, as the format lays them out.
use vstd::prelude::*;
use vstd::slice::slice_subrange;
use vstd::slice::slice_to_vec;

verus! {

/// The 16-bit value stored low byte first at `pos`.
pub open spec fn le_u16(s: Seq<u8>, pos: int) -> u16 {
    (s[pos] as int + 256 * (s[pos + 1] as int)) as u16
}

/// The 32-bit value stored low byte first at `pos`.
pub open spec fn le_u32(s: Seq<u8>, pos: int) -> u32 {
    (s[pos] as int + 256 * (s[pos + 1] as int) + 65536 * (s[pos + 2] as int) + 16777216 * (s[pos
        + 3] as int)) as u32
}

/// The two bytes that store `x`, low byte first.
pub open spec fn u16_le_bytes(x: u16) -> Seq<u8> {
    seq![(x % 256) as u8, (x / 256) as u8]
}

/// The four bytes that store `x`, low byte first.
pub open spec fn u32_le_bytes(x: u32) -> Seq<u8> {
    seq![
        (x % 256) as u8,
        ((x / 256) % 256) as u8,
        ((x / 65536) % 256) as u8,
        (x / 16777216) as u8,
    ]
}

/// The first position in `pos..limit` that holds a zero byte, or `limit`
/// where there is none.
pub open spec fn nul_position(s: Seq<u8>, pos: int, limit: int) -> int
    decreases limit - pos,
{
    if pos >= limit || pos < 0 || pos >= s.len() {
        limit
    } else if s[pos] == 0 {
        pos
    } else {
        nul_position(s, pos + 1, limit)
    }
}

/// Where `nul_position` finds a zero byte it lies in range, and no byte before
/// it is zero.
pub proof fn lemma_nul_position_bounds(s: Seq<u8>, pos: int, limit: int)
    requires
        0 <= pos <= limit <= s.len(),
    ensures
        pos <= nul_position(s, pos, limit) <= limit,
        nul_position(s, pos, limit) < limit ==> s[nul_position(s, pos, limit)] == 0,
        forall|i: int| pos <= i < nul_position(s, pos, limit) ==> s[i] != 0,
    decreases limit - pos,
{
    if pos < limit && s[pos] != 0 {
        lemma_nul_position_bounds(s, pos + 1, limit);
    }
}

/// A search that found its zero byte depends only on the bytes up to it: it
/// gives the same answer on any sequence that agrees that far, under any
/// limit beyond the byte.
pub proof fn lemma_nul_position_stable(s: Seq<u8>, t: Seq<u8>, pos: int, limit: int, other: int)
    requires
        0 <= pos <= limit <= s.len(),
        other <= t.len(),
        nul_position(s, pos, limit) < limit,
        nul_position(s, pos, limit) < other,
        forall|i: int| pos <= i <= nul_position(s, pos, limit) ==> s[i] == t[i],
    ensures
        nul_position(t, pos, other) == nul_position(s, pos, limit),
    decreases limit - pos,
{
    lemma_nul_position_bounds(s, pos, limit);
    if s[pos] != 0 {
        lemma_nul_position_stable(s, t, pos + 1, limit, other);
    }
}

/// A search in the part of `s` from `from` on finds the same byte as the
/// search in `s`, at a position that is smaller by `from`.
pub proof fn lemma_nul_position_shift(s: Seq<u8>, from: int, pos: int, limit: int)
    requires
        0 <= from <= pos <= limit <= s.len(),
    ensures
        nul_position(s.subrange(from, s.len() as int), pos - from, limit - from) + from
            == nul_position(s, pos, limit),
    decreases limit - pos,
{
    if pos < limit && s[pos] != 0 {
        lemma_nul_position_shift(s, from, pos + 1, limit);
    }
}

/// Reads the 16-bit value at `pos`.
pub fn get_u16(data: &[u8], pos: usize) -> (r: u16)
    requires
        pos + 2 <= data@.len(),
    ensures
        r == le_u16(data@, pos as int),
{
    let b0: u16 = data[pos] as u16;
    let b1: u16 = data[pos + 1] as u16;
    b0 + 256 * b1
}

/// Reads the 32-bit value at `pos`.
pub fn get_u32(data: &[u8], pos: usize) -> (r: u32)
    requires
        pos + 4 <= data@.len(),
    ensures
        r == le_u32(data@, pos as int),
{
    let b0: u32 = data[pos] as u32;
    let b1: u32 = data[pos + 1] as u32;
    let b2: u32 = data[pos + 2] as u32;
    let b3: u32 = data[pos + 3] as u32;
    b0 + 256 * b1 + 65536 * b2 + 16777216 * b3
}

/// Appends the two bytes of `x`.
pub fn put_u16(out: &mut Vec<u8>, x: u16)
    ensures
        final(out)@ == old(out)@ + u16_le_bytes(x),
{
    out.push((x % 256) as u8);
    out.push((x / 256) as u8);
    assert(out@ =~= old(out)@ + u16_le_bytes(x));
}

/// Appends the four bytes of `x`.
pub fn put_u32(out: &mut Vec<u8>, x: u32)
    ensures
        final(out)@ == old(out)@ + u32_le_bytes(x),
{
    out.push((x % 256) as u8);
    out.push(((x / 256) % 256) as u8);
    out.push(((x / 65536) % 256) as u8);
    out.push((x / 16777216) as u8);
    assert(out@ =~= old(out)@ + u32_le_bytes(x));
}

/// Copies the bytes `from..to` out of `data`.
pub fn copy_range(data: &[u8], from: usize, to: usize) -> (r: Vec<u8>)
    requires
        from <= to <= data@.len(),
    ensures
        r@ == data@.subrange(from as int, to as int),
{
    slice_to_vec(slice_subrange(data, from, to))
}

/// Finds the first zero byte in `pos..limit`.
pub fn find_nul(data: &[u8], pos: usize, limit: usize) -> (r: usize)
    requires
        pos <= limit <= data@.len(),
    ensures
        r == nul_position(data@, pos as int, limit as int),
        pos <= r <= limit,
{
    let mut i: usize = pos;
    while i < limit && data[i] != 0
        invariant
            pos <= i <= limit <= data@.len(),
            nul_position(data@, pos as int, limit as int) == nul_position(
                data@,
                i as int,
                limit as int,
            ),
        decreases limit - i,
    {
        i += 1;
    }
    i
}

/// Where the four bytes at `pos` are those that store `x`, reading there
/// gives `x`.
pub proof fn lemma_u32_read_of_bytes(s: Seq<u8>, pos: int, x: u32)
    requires
        0 <= pos,
        pos + 4 <= s.len(),
        s.subrange(pos, pos + 4) == u32_le_bytes(x),
    ensures
        le_u32(s, pos) == x,
{
    let b = s.subrange(pos, pos + 4);
    assert(s[pos] == b[0] && s[pos + 1] == b[1] && s[pos + 2] == b[2] && s[pos + 3] == b[3]);
}

/// Where the two bytes at `pos` are those that store `x`, reading there
/// gives `x`.
pub proof fn lemma_u16_read_of_bytes(s: Seq<u8>, pos: int, x: u16)
    requires
        0 <= pos,
        pos + 2 <= s.len(),
        s.subrange(pos, pos + 2) == u16_le_bytes(x),
    ensures
        le_u16(s, pos) == x,
{
    let b = s.subrange(pos, pos + 2);
    assert(s[pos] == b[0] && s[pos + 1] == b[1]);
}

/// Storing a 32-bit value that was read gives the four bytes it was read from.
pub proof fn lemma_u32_le_bytes_of_read(s: Seq<u8>, pos: int)
    requires
        0 <= pos,
        pos + 4 <= s.len(),
    ensures
        u32_le_bytes(le_u32(s, pos)) == s.subrange(pos, pos + 4),
{
    assert(u32_le_bytes(le_u32(s, pos)) =~= s.subrange(pos, pos + 4));
}

/// Storing a 16-bit value that was read gives the two bytes it was read from.
pub proof fn lemma_u16_le_bytes_of_read(s: Seq<u8>, pos: int)
    requires
        0 <= pos,
        pos + 2 <= s.len(),
    ensures
        u16_le_bytes(le_u16(s, pos)) == s.subrange(pos, pos + 2),
{
    assert(u16_le_bytes(le_u16(s, pos)) =~= s.subrange(pos, pos + 2));
}

} // verus!
