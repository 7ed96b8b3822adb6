//! Byte-level primitives shared by the codec: the fixed-capacity message
//! buffer and big-endian field encodings.

use vstd::prelude::*;

verus! {

/// Largest message carried in one datagram (the baseline wire limit).
pub const MAX_MESSAGE_LEN: usize = 512;

/// A fixed-capacity byte container used as encode/decode scratch space.
/// An encoded message never exceeds `MAX_MESSAGE_LEN` bytes; a buffer made
/// for receiving holds exactly that many.
#[derive(Clone, Debug, PartialEq, Eq)]
pub struct Buffer {
    pub buf: Vec<u8>,
}

impl Buffer {
    /// A zeroed buffer sized for the largest message, ready to receive into.
    pub fn new() -> (r: Buffer)
        ensures
            r.buf@.len() == MAX_MESSAGE_LEN,
            forall|i: int| 0 <= i < r.buf@.len() ==> r.buf@[i] == 0u8,
    {
        let mut v: Vec<u8> = Vec::new();
        let mut i: usize = 0;
        while i < MAX_MESSAGE_LEN
            invariant
                i <= MAX_MESSAGE_LEN,
                v@.len() == i,
                forall|j: int| 0 <= j < i ==> v@[j] == 0u8,
            decreases MAX_MESSAGE_LEN - i,
        {
            v.push(0u8);
            i = i + 1;
        }
        Buffer { buf: v }
    }
}

/// The two big-endian bytes of a 16-bit field.
pub open spec fn be16_bytes(x: u16) -> Seq<u8> {
    seq![(x >> 8) as u8, (x & 0xff) as u8]
}

/// The 16-bit value read from two big-endian bytes.
pub open spec fn be16_value(hi: u8, lo: u8) -> u16 {
    ((hi as u16) << 8) | (lo as u16)
}

/// Writing a 16-bit field and reading it back yields the same value.
pub proof fn lemma_be16_round_trip(x: u16)
    ensures
        be16_value((x >> 8) as u8, (x & 0xff) as u8) == x,
{
    assert(((((x >> 8) as u8) as u16) << 8) | (((x & 0xff) as u8) as u16) == x) by (bit_vector);
}

/// The four big-endian bytes of a 32-bit field.
pub open spec fn be32_bytes(x: u32) -> Seq<u8> {
    seq![
        (x >> 24) as u8,
        ((x >> 16) & 0xff) as u8,
        ((x >> 8) & 0xff) as u8,
        (x & 0xff) as u8,
    ]
}

/// The 32-bit value read from four big-endian bytes.
pub open spec fn be32_value(b0: u8, b1: u8, b2: u8, b3: u8) -> u32 {
    ((b0 as u32) << 24) | ((b1 as u32) << 16) | ((b2 as u32) << 8) | (b3 as u32)
}

/// Writing a 32-bit field and reading it back yields the same value.
pub proof fn lemma_be32_round_trip(x: u32)
    ensures
        be32_value(
            (x >> 24) as u8,
            ((x >> 16) & 0xff) as u8,
            ((x >> 8) & 0xff) as u8,
            (x & 0xff) as u8,
        ) == x,
{
    assert((((x >> 24) as u8 as u32) << 24) | ((((x >> 16) & 0xff) as u8 as u32) << 16)
        | ((((x >> 8) & 0xff) as u8 as u32) << 8) | ((x & 0xff) as u8 as u32) == x)
        by (bit_vector);
}

/// Appends a 16-bit field in big-endian order.
pub fn append_u16(out: &mut Vec<u8>, x: u16)
    ensures
        final(out)@ == old(out)@ + be16_bytes(x),
{
    out.push((x >> 8) as u8);
    out.push((x & 0xff) as u8);
    assert(out@ =~= old(out)@ + be16_bytes(x));
}

/// Appends a 32-bit field in big-endian order.
pub fn append_u32(out: &mut Vec<u8>, x: u32)
    ensures
        final(out)@ == old(out)@ + be32_bytes(x),
{
    out.push((x >> 24) as u8);
    out.push(((x >> 16) & 0xff) as u8);
    out.push(((x >> 8) & 0xff) as u8);
    out.push((x & 0xff) as u8);
    assert(out@ =~= old(out)@ + be32_bytes(x));
}

/// Appends every byte of `b`.
pub fn append_bytes(out: &mut Vec<u8>, b: &Vec<u8>)
    ensures
        final(out)@ == old(out)@ + b@,
{
    let mut j: usize = 0;
    assert(out@ =~= old(out)@ + b@.subrange(0, 0));
    while j < b.len()
        invariant
            j <= b@.len(),
            out@ == old(out)@ + b@.subrange(0, j as int),
        decreases b@.len() - j,
    {
        out.push(b[j]);
        assert(out@ =~= old(out)@ + b@.subrange(0, (j + 1) as int));
        j = j + 1;
    }
    assert(out@ =~= old(out)@ + b@);
}

/// Reads a big-endian 16-bit field at `pos`.
pub fn read_u16(buf: &Vec<u8>, pos: usize) -> (x: u16)
    requires
        pos + 2 <= buf.len(),
    ensures
        x == be16_value(buf@[pos as int], buf@[pos + 1]),
{
    ((buf[pos] as u16) << 8) | (buf[pos + 1] as u16)
}

/// Reads a big-endian 32-bit field at `pos`.
pub fn read_u32(buf: &Vec<u8>, pos: usize) -> (x: u32)
    requires
        pos + 4 <= buf.len(),
    ensures
        x == be32_value(buf@[pos as int], buf@[pos + 1], buf@[pos + 2], buf@[pos + 3]),
{
    ((buf[pos] as u32) << 24) | ((buf[pos + 1] as u32) << 16) | ((buf[pos + 2] as u32) << 8)
        | (buf[pos + 3] as u32)
}

/// Copies the bytes of `buf` in `from..to` into a fresh vector.
pub fn take_range(buf: &Vec<u8>, from: usize, to: usize) -> (r: Vec<u8>)
    requires
        from <= to <= buf@.len(),
    ensures
        r@ == buf@.subrange(from as int, to as int),
{
    let mut r: Vec<u8> = Vec::new();
    let mut j: usize = from;
    assert(r@ =~= buf@.subrange(from as int, from as int));
    while j < to
        invariant
            from <= j <= to <= buf@.len(),
            r@ == buf@.subrange(from as int, j as int),
        decreases to - j,
    {
        r.push(buf[j]);
        assert(r@ =~= buf@.subrange(from as int, (j + 1) as int));
        j = j + 1;
    }
    r
}

} // verus!
