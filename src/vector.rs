use vstd::prelude::*;

verus! {

/// A point in space, as carried on the wire.
///
/// Each coordinate is the bit pattern of an IEEE-754 single-precision number,
/// so that a position can be encoded and read back without any floating-point
/// arithmetic: the wire form is a direct bit-width round trip.
#[derive(Clone, Copy, Debug, PartialEq, Eq, Structural)]
pub struct Vector3 {
    pub x: u32,
    pub y: u32,
    pub z: u32,
}

/// Length in bytes of an encoded position.
pub const VECTOR_WIRE_LEN: usize = 12;

/// The four bytes of `w`, most significant first.
pub open spec fn u32_be_bytes(w: u32) -> Seq<u8> {
    seq![
        (w / 0x100_0000) as u8,
        (w / 0x1_0000 % 0x100) as u8,
        (w / 0x100 % 0x100) as u8,
        (w % 0x100) as u8,
    ]
}

/// The word whose big-endian bytes are `b[0]`, `b[1]`, `b[2]`, `b[3]`.
pub open spec fn u32_from_be(b: Seq<u8>) -> u32
    recommends
        b.len() >= 4,
{
    (b[0] * 0x100_0000 + b[1] * 0x1_0000 + b[2] * 0x100 + b[3]) as u32
}

/// Wire form of a position: x, y, z, each as four big-endian bytes.
pub open spec fn vector_bytes(v: Vector3) -> Seq<u8> {
    u32_be_bytes(v.x) + u32_be_bytes(v.y) + u32_be_bytes(v.z)
}

/// The position read from the first twelve bytes of `b`, if there are twelve.
pub open spec fn vector_from_bytes(b: Seq<u8>) -> Option<Vector3> {
    if b.len() < 12 {
        None
    } else {
        Some(
            Vector3 {
                x: u32_from_be(b.subrange(0, 4)),
                y: u32_from_be(b.subrange(4, 8)),
                z: u32_from_be(b.subrange(8, 12)),
            },
        )
    }
}

/// Reading back the four bytes of a word gives the word.
pub proof fn lemma_u32_be_round_trip(w: u32)
    ensures
        u32_from_be(u32_be_bytes(w)) == w,
{
    let b = u32_be_bytes(w);
    assert(b[0] * 0x100_0000 + b[1] * 0x1_0000 + b[2] * 0x100 + b[3] == w) by (nonlinear_arith)
        requires
            b[0] == w / 0x100_0000,
            b[1] == w / 0x1_0000 % 0x100,
            b[2] == w / 0x100 % 0x100,
            b[3] == w % 0x100,
    ;
}

/// Decoding the wire form of any position gives back that exact position.
pub proof fn lemma_vector_round_trip(v: Vector3)
    ensures
        vector_from_bytes(vector_bytes(v)) == Some(v),
{
    let b = vector_bytes(v);
    lemma_u32_be_round_trip(v.x);
    lemma_u32_be_round_trip(v.y);
    lemma_u32_be_round_trip(v.z);
    assert(b.subrange(0, 4) =~= u32_be_bytes(v.x));
    assert(b.subrange(4, 8) =~= u32_be_bytes(v.y));
    assert(b.subrange(8, 12) =~= u32_be_bytes(v.z));
}

/// Appends the big-endian bytes of `w` to `out`.
fn push_u32_be(out: &mut Vec<u8>, w: u32)
    ensures
        final(out)@ == old(out)@ + u32_be_bytes(w),
{
    out.push((w / 0x100_0000) as u8);
    out.push((w / 0x1_0000 % 0x100) as u8);
    out.push((w / 0x100 % 0x100) as u8);
    out.push((w % 0x100) as u8);
    assert(final(out)@ =~= old(out)@ + u32_be_bytes(w));
}

/// Reads the big-endian word at `bytes[start..start + 4]`.
fn read_u32_be(bytes: &[u8], start: usize) -> (r: u32)
    requires
        start + 4 <= bytes@.len(),
    ensures
        r == u32_from_be(bytes@.subrange(start as int, start + 4)),
{
    let b0 = bytes[start] as u32;
    let b1 = bytes[start + 1] as u32;
    let b2 = bytes[start + 2] as u32;
    let b3 = bytes[start + 3] as u32;
    b0 * 0x100_0000 + b1 * 0x1_0000 + b2 * 0x100 + b3
}

impl Vector3 {
    /// The wire form of this position: twelve bytes, x then y then z, each
    /// coordinate big-endian.
    pub fn to_bytes(&self) -> (r: Vec<u8>)
        ensures
            r@ == vector_bytes(*self),
            r@.len() == VECTOR_WIRE_LEN,
    {
        let mut bytes: Vec<u8> = Vec::new();
        push_u32_be(&mut bytes, self.x);
        push_u32_be(&mut bytes, self.y);
        push_u32_be(&mut bytes, self.z);
        assert(bytes@ =~= vector_bytes(*self));
        bytes
    }

    /// Reads a position from the first twelve bytes; `None` when fewer are
    /// supplied.
    pub fn from_bytes(bytes: &[u8]) -> (r: Option<Vector3>)
        ensures
            r == vector_from_bytes(bytes@),
            r is None <==> bytes@.len() < VECTOR_WIRE_LEN,
    {
        if bytes.len() < VECTOR_WIRE_LEN {
            return None;
        }
        let x = read_u32_be(bytes, 0);
        let y = read_u32_be(bytes, 4);
        let z = read_u32_be(bytes, 8);
        Some(Vector3 { x, y, z })
    }
}

} // verus!
