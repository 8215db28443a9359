//! Integers as byte strings, in little-endian and in big-endian order.

use vstd::prelude::*;

verus! {

/// The two bytes of `x`, least significant first.
pub open spec fn le16(x: u16) -> Seq<u8> {
    seq![(x % 0x100) as u8, (x / 0x100) as u8]
}

/// The number whose little-endian bytes are the first two of `s`.
pub open spec fn from_le16(s: Seq<u8>) -> u16 {
    (s[0] + 0x100 * s[1]) as u16
}

/// The four bytes of `x`, least significant first.
pub open spec fn le32(x: u32) -> Seq<u8> {
    seq![
        (x % 0x100) as u8,
        (x / 0x100 % 0x100) as u8,
        (x / 0x1_0000 % 0x100) as u8,
        (x / 0x100_0000) as u8,
    ]
}

/// The number whose little-endian bytes are the first four of `s`.
pub open spec fn from_le32(s: Seq<u8>) -> u32 {
    (s[0] + 0x100 * s[1] + 0x1_0000 * s[2] + 0x100_0000 * s[3]) as u32
}

/// The eight bytes of `x`, least significant first.
pub open spec fn le64(x: u64) -> Seq<u8> {
    le32((x % 0x1_0000_0000) as u32) + le32((x / 0x1_0000_0000) as u32)
}

/// The number whose little-endian bytes are the first eight of `s`.
pub open spec fn from_le64(s: Seq<u8>) -> u64 {
    (from_le32(s) + 0x1_0000_0000 * from_le32(s.skip(4))) as u64
}

/// The four bytes of `x`, most significant first.
pub open spec fn be32(x: u32) -> Seq<u8> {
    seq![
        (x / 0x100_0000) as u8,
        (x / 0x1_0000 % 0x100) as u8,
        (x / 0x100 % 0x100) as u8,
        (x % 0x100) as u8,
    ]
}

/// The number whose big-endian bytes are the first four of `s`.
pub open spec fn from_be32(s: Seq<u8>) -> u32 {
    (0x100_0000 * s[0] + 0x1_0000 * s[1] + 0x100 * s[2] + s[3]) as u32
}

/// The number whose big-endian bytes are the first two of `s`.
pub open spec fn from_be16(s: Seq<u8>) -> u16 {
    (0x100 * s[0] + s[1]) as u16
}

/// Reading a two-byte number back gives what was written, whatever follows it.
pub proof fn lemma_le16_roundtrip(x: u16, rest: Seq<u8>)
    ensures
        le16(x).len() == 2,
        from_le16(le16(x)) == x,
        from_le16(le16(x) + rest) == x,
{
}

/// Reading a four-byte number back gives what was written, whatever follows it.
pub proof fn lemma_le32_roundtrip(x: u32, rest: Seq<u8>)
    ensures
        le32(x).len() == 4,
        from_le32(le32(x)) == x,
        from_le32(le32(x) + rest) == x,
{
}

/// Reading an eight-byte number back gives what was written, whatever follows it.
pub proof fn lemma_le64_roundtrip(x: u64, rest: Seq<u8>)
    ensures
        le64(x).len() == 8,
        from_le64(le64(x)) == x,
        from_le64(le64(x) + rest) == x,
{
    let low = (x % 0x1_0000_0000) as u32;
    let high = (x / 0x1_0000_0000) as u32;
    lemma_le32_roundtrip(low, le32(high));
    lemma_le32_roundtrip(low, le32(high) + rest);
    lemma_le32_roundtrip(high, Seq::empty());
    lemma_le32_roundtrip(high, rest);
    assert(le64(x).skip(4) =~= le32(high));
    assert((le64(x) + rest).skip(4) =~= le32(high) + rest);
    assert(le64(x) + rest =~= le32(low) + (le32(high) + rest));
}

/// Reading a big-endian four-byte number back gives what was written.
pub proof fn lemma_be32_roundtrip(x: u32)
    ensures
        be32(x).len() == 4,
        from_be32(be32(x)) == x,
{
}

/// Four bytes are the big-endian bytes of the number that they spell.
proof fn lemma_from_be32_roundtrip(s: Seq<u8>)
    requires
        s.len() == 4,
    ensures
        be32(from_be32(s)) == s,
{
    let x = from_be32(s);
    let top: int = s[1] + 0x100 * s[0];
    let upper: int = s[2] + 0x100 * top;
    assert(x == s[3] + 0x100 * upper);
    assert(x % 0x100 == s[3] && x / 0x100 == upper);
    assert(upper % 0x100 == s[2] && upper / 0x100 == top);
    assert(x / 0x1_0000 == top);
    assert(x / 0x100_0000 == s[0]);
    assert(be32(x) =~= s);
}

/// Four bytes are told by the number that they spell.
pub proof fn lemma_from_be32_injective(a: Seq<u8>, b: Seq<u8>)
    requires
        a.len() == 4,
        b.len() == 4,
        from_be32(a) == from_be32(b),
    ensures
        a == b,
{
    lemma_from_be32_roundtrip(a);
    lemma_from_be32_roundtrip(b);
}

/// The number that four bytes spell in little-endian order.
pub fn u32_from_le(b: &[u8; 4]) -> (x: u32)
    ensures
        x == from_le32(b@),
{
    (b[0] as u32) + 0x100 * (b[1] as u32) + 0x1_0000 * (b[2] as u32) + 0x100_0000 * (b[3] as u32)
}

/// The little-endian bytes of a number.
pub fn u32_to_le(x: u32) -> (b: [u8; 4])
    ensures
        b@ == le32(x),
{
    let b: [u8; 4] = [
        (x % 0x100) as u8,
        (x / 0x100 % 0x100) as u8,
        (x / 0x1_0000 % 0x100) as u8,
        (x / 0x100_0000) as u8,
    ];
    assert(b@ =~= le32(x));
    b
}

/// The number that four bytes spell in big-endian order.
pub fn u32_from_be(b: &[u8; 4]) -> (x: u32)
    ensures
        x == from_be32(b@),
{
    0x100_0000 * (b[0] as u32) + 0x1_0000 * (b[1] as u32) + 0x100 * (b[2] as u32) + (b[3] as u32)
}

/// The big-endian bytes of a number.
pub fn u32_to_be(x: u32) -> (b: [u8; 4])
    ensures
        b@ == be32(x),
{
    let b: [u8; 4] = [
        (x / 0x100_0000) as u8,
        (x / 0x1_0000 % 0x100) as u8,
        (x / 0x100 % 0x100) as u8,
        (x % 0x100) as u8,
    ];
    assert(b@ =~= be32(x));
    b
}

/// The bytes of a number, each multiplied by what its place is worth, add up to it:
/// the first byte is worth least in little-endian and most in big-endian order.
pub proof fn lemma_byte_order(x: u16, y: u32, z: u64)
    ensures
        le16(x)[0] + 0x100 * le16(x)[1] == x,
        le32(y)[0] + 0x100 * le32(y)[1] + 0x1_0000 * le32(y)[2] + 0x100_0000 * le32(y)[3] == y,
        0x100_0000 * be32(y)[0] + 0x1_0000 * be32(y)[1] + 0x100 * be32(y)[2] + be32(y)[3] == y,
        le64(z)[0] + 0x100 * le64(z)[1] + 0x1_0000 * le64(z)[2] + 0x100_0000 * le64(z)[3]
            + 0x1_0000_0000 * le64(z)[4] + 0x100_0000_0000 * le64(z)[5] + 0x1_0000_0000_0000
            * le64(z)[6] + 0x100_0000_0000_0000 * le64(z)[7] == z,
{
    let low = (z % 0x1_0000_0000) as u32;
    let high = (z / 0x1_0000_0000) as u32;
    lemma_le32_sum(low);
    lemma_le32_sum(high);
    lemma_le32_sum(y);
    assert(forall|i: int| 0 <= i < 4 ==> le64(z)[i] == le32(low)[i]);
    assert(forall|i: int| 0 <= i < 4 ==> le64(z)[i + 4] == #[trigger] le32(high)[i]);
    assert(le64(z)[4] == le32(high)[0]);
    assert(le64(z)[5] == le32(high)[1]);
    assert(le64(z)[6] == le32(high)[2]);
    assert(le64(z)[7] == le32(high)[3]);
}

proof fn lemma_le32_sum(y: u32)
    ensures
        le32(y)[0] + 0x100 * le32(y)[1] + 0x1_0000 * le32(y)[2] + 0x100_0000 * le32(y)[3] == y,
{
}

/// Big-endian bytes are those of the number that they spell.
pub proof fn lemma_from_be_roundtrip(s: Seq<u8>)
    requires
        s.len() >= 4,
    ensures
        be32(from_be32(s)) == s.take(4),
{
    lemma_from_be32_roundtrip(s.take(4));
    assert(from_be32(s.take(4)) == from_be32(s));
}

/// Little-endian bytes are those of the number that they spell.
pub proof fn lemma_from_le_roundtrip(s: Seq<u8>)
    ensures
        s.len() >= 2 ==> le16(from_le16(s)) == s.take(2),
        s.len() >= 4 ==> le32(from_le32(s)) == s.take(4),
        s.len() >= 8 ==> le64(from_le64(s)) == s.take(8),
{
    if s.len() >= 2 {
        assert(le16(from_le16(s)) =~= s.take(2));
    }
    if s.len() >= 4 {
        lemma_from_le32(s);
    }
    if s.len() >= 8 {
        lemma_from_le32(s);
        lemma_from_le32(s.skip(4));
        let (low, high) = (from_le32(s), from_le32(s.skip(4)));
        let x = from_le64(s);
        assert(x == low + 0x1_0000_0000 * high);
        assert(x % 0x1_0000_0000 == low && x / 0x1_0000_0000 == high);
        assert(le64(x) =~= s.take(8)) by {
            assert(le32(low) == s.take(4));
            assert(le32(high) == s.skip(4).take(4));
            assert(s.take(8) =~= s.take(4) + s.skip(4).take(4));
        }
    }
}

proof fn lemma_from_le32(s: Seq<u8>)
    requires
        s.len() >= 4,
    ensures
        le32(from_le32(s)) == s.take(4),
{
    let x = from_le32(s);
    let top: int = s[2] + 0x100 * s[3];
    let upper: int = s[1] + 0x100 * top;
    assert(x == s[0] + 0x100 * upper);
    assert(x % 0x100 == s[0] && x / 0x100 == upper);
    assert(upper % 0x100 == s[1] && upper / 0x100 == top);
    assert(x / 0x1_0000 == top);
    assert(top % 0x100 == s[2]);
    assert(x / 0x100_0000 == s[3]);
    assert(le32(x) =~= s.take(4));
}

} // verus!
