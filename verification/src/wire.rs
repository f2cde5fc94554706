//! Big-endian integer encodings used on the wire.

use vstd::prelude::*;

verus! {

/// The four big-endian bytes of `v`.
pub open spec fn be_u32_bytes(v: u32) -> Seq<u8> {
    seq![
        (v / 0x100_0000) as u8,
        ((v / 0x1_0000) % 0x100) as u8,
        ((v / 0x100) % 0x100) as u8,
        (v % 0x100) as u8,
    ]
}

/// The value of the first four bytes of `b`, read big-endian.
pub open spec fn u32_from_be(b: Seq<u8>) -> u32
    recommends
        b.len() >= 4,
{
    (b[0] as int * 0x100_0000 + b[1] as int * 0x1_0000 + b[2] as int * 0x100 + b[3] as int) as u32
}

/// The two's-complement bit pattern of `v`.
pub open spec fn u32_of_i32(v: i32) -> u32 {
    if v >= 0 {
        v as u32
    } else {
        (v + 0x1_0000_0000) as u32
    }
}

/// The signed value whose two's-complement bit pattern is `u`.
pub open spec fn i32_of_u32(u: u32) -> i32 {
    if u < 0x8000_0000 {
        u as i32
    } else {
        (u - 0x1_0000_0000) as i32
    }
}

/// The four big-endian bytes of the two's-complement form of `v`.
pub open spec fn be_i32_bytes(v: i32) -> Seq<u8> {
    be_u32_bytes(u32_of_i32(v))
}

/// Reading back the bytes of a value gives the value.
pub proof fn lemma_be_u32_roundtrip(v: u32)
    ensures
        be_u32_bytes(v).len() == 4,
        u32_from_be(be_u32_bytes(v)) == v,
{
    let b = be_u32_bytes(v);
    assert(b[0] == v / 0x100_0000);
    assert(b[1] == (v / 0x1_0000) % 0x100);
    assert(b[2] == (v / 0x100) % 0x100);
    assert(b[3] == v % 0x100);
    assert((v / 0x100_0000) * 0x100_0000 + ((v / 0x1_0000) % 0x100) * 0x1_0000 + ((v / 0x100)
        % 0x100) * 0x100 + v % 0x100 == v) by (nonlinear_arith);
}

/// Writing back the value of four bytes gives the bytes.
pub proof fn lemma_be_u32_bytes_of(b: Seq<u8>)
    requires
        b.len() == 4,
    ensures
        be_u32_bytes(u32_from_be(b)) == b,
{
    let b0 = b[0] as int;
    let b1 = b[1] as int;
    let b2 = b[2] as int;
    let b3 = b[3] as int;
    let v = b0 * 0x100_0000 + b1 * 0x1_0000 + b2 * 0x100 + b3;
    assert(0 <= v < 0x1_0000_0000 && v / 0x100_0000 == b0 && (v / 0x1_0000) % 0x100 == b1 && (v
        / 0x100) % 0x100 == b2 && v % 0x100 == b3) by (nonlinear_arith)
        requires
            0 <= b0 < 256,
            0 <= b1 < 256,
            0 <= b2 < 256,
            0 <= b3 < 256,
            v == b0 * 0x100_0000 + b1 * 0x1_0000 + b2 * 0x100 + b3,
    ;
    assert(u32_from_be(b) == v);
    assert(be_u32_bytes(u32_from_be(b)) =~= b);
}

/// The two's-complement conversions undo each other, both ways.
pub proof fn lemma_u32_i32_roundtrip(u: u32)
    ensures
        u32_of_i32(i32_of_u32(u)) == u,
{
}

/// The two's-complement conversions undo each other.
pub proof fn lemma_i32_u32_roundtrip(v: i32)
    ensures
        i32_of_u32(u32_of_i32(v)) == v,
{
}

/// Appends the big-endian bytes of `v` to `out`.
pub fn push_u32_be(out: &mut Vec<u8>, v: u32)
    ensures
        final(out)@ == old(out)@ + be_u32_bytes(v),
{
    out.push((v / 0x100_0000) as u8);
    out.push(((v / 0x1_0000) % 0x100) as u8);
    out.push(((v / 0x100) % 0x100) as u8);
    out.push((v % 0x100) as u8);
    assert(out@ =~= old(out)@ + be_u32_bytes(v));
}

/// Appends the big-endian bytes of the two's-complement form of `v` to `out`.
pub fn push_i32_be(out: &mut Vec<u8>, v: i32)
    ensures
        final(out)@ == old(out)@ + be_i32_bytes(v),
{
    let u: u32 = if v >= 0 {
        v as u32
    } else {
        ((v + i32::MAX + 1) as u32) + 0x8000_0000
    };
    push_u32_be(out, u);
}

/// The value of `b[at..at + 4]`, read big-endian.
pub fn u32_at(b: &[u8], at: usize) -> (v: u32)
    requires
        at + 4 <= b@.len(),
    ensures
        v == u32_from_be(b@.subrange(at as int, at + 4)),
{
    (b[at] as u32) * 0x100_0000 + (b[at + 1] as u32) * 0x1_0000 + (b[at + 2] as u32) * 0x100 + (
    b[at + 3] as u32)
}

/// The signed value whose two's-complement bit pattern is `u`.
pub fn i32_from_bits(u: u32) -> (v: i32)
    ensures
        v == i32_of_u32(u),
{
    if u < 0x8000_0000 {
        u as i32
    } else {
        ((u - 0x8000_0000) as i32) - i32::MAX - 1
    }
}

/// The two's-complement bit pattern of `v`.
pub open spec fn u16_of_i16(v: i16) -> u16 {
    if v >= 0 {
        v as u16
    } else {
        (v + 0x1_0000) as u16
    }
}

/// The signed value whose two's-complement bit pattern is `u`.
pub open spec fn i16_of_u16(u: u16) -> i16 {
    if u < 0x8000 {
        u as i16
    } else {
        (u - 0x1_0000) as i16
    }
}

/// The two little-endian bytes of the two's-complement form of `v`.
pub open spec fn le_i16_bytes(v: i16) -> Seq<u8> {
    seq![(u16_of_i16(v) % 0x100) as u8, (u16_of_i16(v) / 0x100) as u8]
}

/// The signed 16-bit value of two little-endian bytes.
pub open spec fn i16_from_le(lo: u8, hi: u8) -> i16 {
    i16_of_u16((lo + hi * 0x100) as u16)
}

/// The 32-bit value of four little-endian bytes.
pub open spec fn u32_from_le(b0: u8, b1: u8, b2: u8, b3: u8) -> u32 {
    (b0 + b1 * 0x100 + b2 * 0x1_0000 + b3 * 0x100_0000) as u32
}

/// Reading back the little-endian bytes of a sample gives the sample.
pub proof fn lemma_le_i16_roundtrip(v: i16)
    ensures
        le_i16_bytes(v).len() == 2,
        i16_from_le(le_i16_bytes(v)[0], le_i16_bytes(v)[1]) == v,
{
    let u = u16_of_i16(v);
    assert((u % 0x100) + (u / 0x100) * 0x100 == u) by (nonlinear_arith);
}

/// The little-endian bytes of the two's-complement form of `v`.
pub fn i16_le_bytes(v: i16) -> (b: (u8, u8))
    ensures
        seq![b.0, b.1] == le_i16_bytes(v),
{
    let u: u16 = if v >= 0 {
        v as u16
    } else {
        ((v + i16::MAX + 1) as u16) + 0x8000
    };
    ((u % 0x100) as u8, (u / 0x100) as u8)
}

/// The signed 16-bit value of two little-endian bytes.
pub fn i16_from_le_bytes(lo: u8, hi: u8) -> (v: i16)
    ensures
        v == i16_from_le(lo, hi),
{
    let u: u16 = (lo as u16) + (hi as u16) * 0x100;
    if u < 0x8000 {
        u as i16
    } else {
        ((u - 0x8000) as i16) - i16::MAX - 1
    }
}

/// The 32-bit value of four little-endian bytes.
pub fn u32_from_le_bytes(b0: u8, b1: u8, b2: u8, b3: u8) -> (v: u32)
    ensures
        v == u32_from_le(b0, b1, b2, b3),
{
    (b0 as u32) + (b1 as u32) * 0x100 + (b2 as u32) * 0x1_0000 + (b3 as u32) * 0x100_0000
}

/// The four bytes of `v` are its base-256 digits, most significant first.
pub proof fn lemma_be_u32_bytes_digits(v: u32)
    ensures
        be_u32_bytes(v).len() == 4,
        be_u32_bytes(v)[0] as int * 0x100_0000 + be_u32_bytes(v)[1] as int * 0x1_0000
            + be_u32_bytes(v)[2] as int * 0x100 + be_u32_bytes(v)[3] as int == v as int,
        be_u32_bytes(v)[3] as int == v as int % 0x100,
        be_u32_bytes(v)[0] as int == v as int / 0x100_0000,
{
    lemma_be_u32_roundtrip(v);
    let b = be_u32_bytes(v);
    assert((b[0] as int) * 0x100_0000 + (b[1] as int) * 0x1_0000 + (b[2] as int) * 0x100 + (
    b[3] as int) < 0x1_0000_0000) by (nonlinear_arith)
        requires
            b[0] < 256,
            b[1] < 256,
            b[2] < 256,
            b[3] < 256,
    ;
}

/// The bit pattern of a signed value is its two's-complement form: the
/// unsigned value that differs from it by a multiple of 2^32, so that a
/// non-negative value keeps its bits and a negative one wraps around; and
/// reading a bit pattern back as a signed value undoes it.
pub proof fn lemma_twos_complement(v: i32, u: u32)
    ensures
        (u32_of_i32(v) as int - v as int) % 0x1_0000_0000 == 0,
        v >= 0 ==> u32_of_i32(v) as int == v as int,
        v < 0 ==> u32_of_i32(v) as int == v as int + 0x1_0000_0000,
        (i32_of_u32(u) as int - u as int) % 0x1_0000_0000 == 0,
        u < 0x8000_0000 ==> i32_of_u32(u) as int == u as int,
        u >= 0x8000_0000 ==> i32_of_u32(u) as int == u as int - 0x1_0000_0000,
        be_i32_bytes(v) == be_u32_bytes(u32_of_i32(v)),
{
}
/// The little-endian bytes of a sample are its two's-complement form, low
/// byte first: the low byte plus 256 times the high byte differs from the
/// sample by a multiple of 2^16 (and equals it for a non-negative sample);
/// reading two bytes gives the signed value they form that way.
pub proof fn lemma_le_i16_digits(v: i16, lo: u8, hi: u8)
    ensures
        le_i16_bytes(v).len() == 2,
        ((le_i16_bytes(v)[0] as int + le_i16_bytes(v)[1] as int * 0x100) - v as int) % 0x1_0000 == 0,
        v >= 0 ==> le_i16_bytes(v)[0] as int + le_i16_bytes(v)[1] as int * 0x100 == v as int,
        ((i16_from_le(lo, hi) as int) - (lo as int + hi as int * 0x100)) % 0x1_0000 == 0,
        lo as int + hi as int * 0x100 < 0x8000 ==> i16_from_le(lo, hi) as int == lo as int + hi as int
            * 0x100,
{
    let u = u16_of_i16(v);
    assert((u % 0x100) + (u / 0x100) * 0x100 == u) by (nonlinear_arith);
    assert(lo as int + hi as int * 0x100 < 0x1_0000) by (nonlinear_arith)
        requires
            lo < 256,
            hi < 256,
    ;
}

} // verus!
