//! Little-endian byte layouts used by the IPC wire format.

use vstd::prelude::*;

verus! {

/// The two little-endian bytes of a `u16`.
pub open spec fn le16(x: u16) -> Seq<u8> {
    seq![(x % 256) as u8, (x / 256) as u8]
}

/// The four little-endian bytes of a `u32`.
pub open spec fn le32(x: u32) -> Seq<u8> {
    seq![(x % 256) as u8, ((x / 256) % 256) as u8, ((x / 65536) % 256) as u8, (x / 16777216) as u8]
}

/// The `u16` stored little-endian at byte `i` of `b`.
pub open spec fn read_le16(b: Seq<u8>, i: int) -> u16 {
    (b[i] + 256 * b[i + 1]) as u16
}

/// The `u32` stored little-endian at byte `i` of `b`.
pub open spec fn read_le32(b: Seq<u8>, i: int) -> u32 {
    (b[i] + 256 * b[i + 1] + 65536 * b[i + 2] + 16777216 * b[i + 3]) as u32
}

/// A sequence of `u32` values laid out little-endian, one after the other.
pub open spec fn u32s_le(s: Seq<u32>) -> Seq<u8>
    decreases s.len(),
{
    if s.len() == 0 {
        Seq::empty()
    } else {
        u32s_le(s.drop_last()) + le32(s.last())
    }
}

/// A sequence of `u16` values laid out little-endian, one after the other.
pub open spec fn u16s_le(s: Seq<u16>) -> Seq<u8>
    decreases s.len(),
{
    if s.len() == 0 {
        Seq::empty()
    } else {
        u16s_le(s.drop_last()) + le16(s.last())
    }
}

/// The `u32` values whose little-endian bytes make up `b` (a trailing partial group is ignored).
pub open spec fn decode_u32s(b: Seq<u8>) -> Seq<u32> {
    Seq::new((b.len() / 4) as nat, |i: int| read_le32(b, 4 * i))
}

/// The `u16` values whose little-endian bytes make up `b` (a trailing odd byte is ignored).
pub open spec fn decode_u16s(b: Seq<u8>) -> Seq<u16> {
    Seq::new((b.len() / 2) as nat, |i: int| read_le16(b, 2 * i))
}

/// The four bytes of a `u32` read back as that `u32`.
pub proof fn lemma_le32_read(x: u32)
    ensures
        le32(x).len() == 4,
        read_le32(le32(x), 0) == x,
{
    let b = le32(x);
    assert(b[0] == x % 256);
    assert(b[1] == (x / 256) % 256);
    assert(b[2] == (x / 65536) % 256);
    assert(b[3] == x / 16777216);
    assert(x % 256 + 256 * ((x / 256) % 256) + 65536 * ((x / 65536) % 256) + 16777216 * (x
        / 16777216) == x) by (nonlinear_arith);
}

/// The two bytes of a `u16` read back as that `u16`.
pub proof fn lemma_le16_read(x: u16)
    ensures
        le16(x).len() == 2,
        read_le16(le16(x), 0) == x,
{
    let b = le16(x);
    assert(b[0] == x % 256);
    assert(b[1] == x / 256);
    assert(x % 256 + 256 * (x / 256) == x) by (nonlinear_arith);
}

/// Laying out `u32` values takes four bytes each.
pub proof fn lemma_u32s_le_len(s: Seq<u32>)
    ensures
        u32s_le(s).len() == 4 * s.len(),
    decreases s.len(),
{
    if s.len() > 0 {
        lemma_u32s_le_len(s.drop_last());
    }
}

/// Laying out `u16` values takes two bytes each.
pub proof fn lemma_u16s_le_len(s: Seq<u16>)
    ensures
        u16s_le(s).len() == 2 * s.len(),
    decreases s.len(),
{
    if s.len() > 0 {
        lemma_u16s_le_len(s.drop_last());
    }
}

/// The value at position `i` of a laid-out sequence is read back from bytes `4 * i ..`.
pub proof fn lemma_u32s_le_index(s: Seq<u32>, i: int)
    requires
        0 <= i < s.len(),
    ensures
        read_le32(u32s_le(s), 4 * i) == s[i],
    decreases s.len(),
{
    lemma_u32s_le_len(s.drop_last());
    let p = u32s_le(s.drop_last());
    let b = u32s_le(s);
    assert(b == p + le32(s.last()));
    if i == s.len() - 1 {
        lemma_le32_read(s.last());
        assert(b[4 * i] == le32(s.last())[0]);
        assert(b[4 * i + 1] == le32(s.last())[1]);
        assert(b[4 * i + 2] == le32(s.last())[2]);
        assert(b[4 * i + 3] == le32(s.last())[3]);
    } else {
        lemma_u32s_le_index(s.drop_last(), i);
        assert(b[4 * i] == p[4 * i]);
        assert(b[4 * i + 1] == p[4 * i + 1]);
        assert(b[4 * i + 2] == p[4 * i + 2]);
        assert(b[4 * i + 3] == p[4 * i + 3]);
    }
}

/// The value at position `i` of a laid-out sequence is read back from bytes `2 * i ..`.
pub proof fn lemma_u16s_le_index(s: Seq<u16>, i: int)
    requires
        0 <= i < s.len(),
    ensures
        read_le16(u16s_le(s), 2 * i) == s[i],
    decreases s.len(),
{
    lemma_u16s_le_len(s.drop_last());
    let p = u16s_le(s.drop_last());
    let b = u16s_le(s);
    assert(b == p + le16(s.last()));
    if i == s.len() - 1 {
        lemma_le16_read(s.last());
        assert(b[2 * i] == le16(s.last())[0]);
        assert(b[2 * i + 1] == le16(s.last())[1]);
    } else {
        lemma_u16s_le_index(s.drop_last(), i);
        assert(b[2 * i] == p[2 * i]);
        assert(b[2 * i + 1] == p[2 * i + 1]);
    }
}

/// Laying out a sequence of `u32` values and reading it back gives the same values.
pub proof fn lemma_u32s_roundtrip(s: Seq<u32>)
    ensures
        decode_u32s(u32s_le(s)) == s,
{
    lemma_u32s_le_len(s);
    assert forall|i: int| 0 <= i < s.len() implies #[trigger] decode_u32s(u32s_le(s))[i] == s[i] by {
        lemma_u32s_le_index(s, i);
    }
    assert(decode_u32s(u32s_le(s)) =~= s);
}

/// Laying out a sequence of `u16` values and reading it back gives the same values.
pub proof fn lemma_u16s_roundtrip(s: Seq<u16>)
    ensures
        decode_u16s(u16s_le(s)) == s,
{
    lemma_u16s_le_len(s);
    assert forall|i: int| 0 <= i < s.len() implies #[trigger] decode_u16s(u16s_le(s))[i] == s[i] by {
        lemma_u16s_le_index(s, i);
    }
    assert(decode_u16s(u16s_le(s)) =~= s);
}

/// Dropping the first four bytes drops the first decoded `u32`.
pub proof fn lemma_decode_u32s_advance(b: Seq<u8>, lo: int, hi: int)
    requires
        0 <= lo,
        lo + 4 <= hi <= b.len(),
    ensures
        decode_u32s(b.subrange(lo + 4, hi)) == decode_u32s(b.subrange(lo, hi)).drop_first(),
{
    let x = decode_u32s(b.subrange(lo + 4, hi));
    let y = decode_u32s(b.subrange(lo, hi)).drop_first();
    assert(x.len() == y.len());
    assert forall|i: int| 0 <= i < x.len() implies x[i] == y[i] by {
        assert(b.subrange(lo + 4, hi)[4 * i] == b.subrange(lo, hi)[4 * (i + 1)]);
        assert(b.subrange(lo + 4, hi)[4 * i + 1] == b.subrange(lo, hi)[4 * (i + 1) + 1]);
        assert(b.subrange(lo + 4, hi)[4 * i + 2] == b.subrange(lo, hi)[4 * (i + 1) + 2]);
        assert(b.subrange(lo + 4, hi)[4 * i + 3] == b.subrange(lo, hi)[4 * (i + 1) + 3]);
    }
    assert(x =~= y);
}

/// Dropping the first two bytes drops the first decoded `u16`.
pub proof fn lemma_decode_u16s_advance(b: Seq<u8>, lo: int, hi: int)
    requires
        0 <= lo,
        lo + 2 <= hi <= b.len(),
    ensures
        decode_u16s(b.subrange(lo + 2, hi)) == decode_u16s(b.subrange(lo, hi)).drop_first(),
{
    let x = decode_u16s(b.subrange(lo + 2, hi));
    let y = decode_u16s(b.subrange(lo, hi)).drop_first();
    assert(x.len() == y.len());
    assert forall|i: int| 0 <= i < x.len() implies x[i] == y[i] by {
        assert(b.subrange(lo + 2, hi)[2 * i] == b.subrange(lo, hi)[2 * (i + 1)]);
        assert(b.subrange(lo + 2, hi)[2 * i + 1] == b.subrange(lo, hi)[2 * (i + 1) + 1]);
    }
    assert(x =~= y);
}

/// Reads the little-endian `u32` at byte `i` of `bytes`.
pub fn load_u32(bytes: &[u8], i: usize) -> (r: u32)
    requires
        i + 4 <= bytes@.len(),
    ensures
        r == read_le32(bytes@, i as int),
{
    let b0 = bytes[i] as u32;
    let b1 = bytes[i + 1] as u32;
    let b2 = bytes[i + 2] as u32;
    let b3 = bytes[i + 3] as u32;
    b0 + 256 * b1 + 65536 * b2 + 16777216 * b3
}

/// Reads the little-endian `u16` at byte `i` of `bytes`.
pub fn load_u16(bytes: &[u8], i: usize) -> (r: u16)
    requires
        i + 2 <= bytes@.len(),
    ensures
        r == read_le16(bytes@, i as int),
{
    let b0 = bytes[i] as u16;
    let b1 = bytes[i + 1] as u16;
    b0 + 256 * b1
}

/// Appends the little-endian bytes of `x`.
pub fn store_u32(out: &mut Vec<u8>, x: u32)
    ensures
        final(out)@ == old(out)@ + le32(x),
{
    out.push((x % 256) as u8);
    out.push(((x / 256) % 256) as u8);
    out.push(((x / 65536) % 256) as u8);
    out.push((x / 16777216) as u8);
    assert(final(out)@ =~= old(out)@ + le32(x));
}

/// Appends the little-endian bytes of `x`.
pub fn store_u16(out: &mut Vec<u8>, x: u16)
    ensures
        final(out)@ == old(out)@ + le16(x),
{
    out.push((x % 256) as u8);
    out.push((x / 256) as u8);
    assert(final(out)@ =~= old(out)@ + le16(x));
}

} // verus!
