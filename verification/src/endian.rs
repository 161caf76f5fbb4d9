//! Big-endian fixed-width integers: what they are as byte sequences, and
//! the `byteorder` calls that read and write them.

use byteorder::BigEndian;
use byteorder::ByteOrder;
use byteorder::WriteBytesExt;
use vstd::arithmetic::div_mod::lemma_hoist_over_denominator;
use vstd::arithmetic::div_mod::lemma_mod_multiples_vanish;
use vstd::prelude::*;

verus! {

/// The two bytes that hold the low 16 bits of `n`, most significant first.
///
/// For a negative `n` these are the bytes of its two's complement form.
pub open spec fn be16_bytes(n: int) -> Seq<u8> {
    seq![((n / 0x100) % 0x100) as u8, (n % 0x100) as u8]
}

/// The four bytes that hold the low 32 bits of `n`, most significant first.
pub open spec fn be32_bytes(n: int) -> Seq<u8> {
    seq![
        ((n / 0x100_0000) % 0x100) as u8,
        ((n / 0x1_0000) % 0x100) as u8,
        ((n / 0x100) % 0x100) as u8,
        (n % 0x100) as u8,
    ]
}

/// The eight bytes that hold the low 64 bits of `n`, most significant first.
pub open spec fn be64_bytes(n: int) -> Seq<u8> {
    be32_bytes(n / 0x1_0000_0000) + be32_bytes(n)
}

/// The unsigned number whose big-endian form is the first four bytes of `b`.
pub open spec fn be32_unsigned(b: Seq<u8>) -> int
    recommends
        b.len() >= 4,
{
    b[0] * 0x100_0000 + b[1] * 0x1_0000 + b[2] * 0x100 + b[3]
}

/// The signed number whose two's complement big-endian form is the first
/// four bytes of `b`.
pub open spec fn be32_signed(b: Seq<u8>) -> int
    recommends
        b.len() >= 4,
{
    if be32_unsigned(b) < 0x8000_0000 {
        be32_unsigned(b)
    } else {
        be32_unsigned(b) - 0x1_0000_0000
    }
}

/// The unsigned number whose big-endian form is the first eight bytes of `b`.
pub open spec fn be64_unsigned(b: Seq<u8>) -> int
    recommends
        b.len() >= 8,
{
    be32_unsigned(b) * 0x1_0000_0000 + be32_unsigned(b.subrange(4, 8))
}

/// The signed number whose two's complement big-endian form is the first
/// eight bytes of `b`.
pub open spec fn be64_signed(b: Seq<u8>) -> int
    recommends
        b.len() >= 8,
{
    if be64_unsigned(b) < 0x8000_0000_0000_0000 {
        be64_unsigned(b)
    } else {
        be64_unsigned(b) - 0x1_0000_0000_0000_0000
    }
}

/// Numbers that differ by a multiple of `256 * d` have the same byte at
/// the place of weight `d`.
pub proof fn lemma_byte_congruent(x: int, y: int, k: int, d: int)
    requires
        d > 0,
        x == y + k * (256 * d),
    ensures
        (x / d) % 256 == (y / d) % 256,
{
    assert(k * (256 * d) == (256 * k) * d) by (nonlinear_arith);
    lemma_hoist_over_denominator(y, 256 * k, d as nat);
    lemma_mod_multiples_vanish(k, y / d, 256);
}

/// Numbers that differ by a multiple of 2^16 have the same two-byte form.
pub proof fn lemma_be16_congruent(x: int, y: int, k: int)
    requires
        x == y + k * 0x1_0000,
    ensures
        be16_bytes(x) == be16_bytes(y),
{
    lemma_byte_congruent(x, y, k, 0x100);
    lemma_byte_congruent(x, y, k * 0x100, 1);
    assert(be16_bytes(x) =~= be16_bytes(y));
}

/// Numbers that differ by a multiple of 2^32 have the same four-byte
/// form.
pub proof fn lemma_be32_congruent(x: int, y: int, k: int)
    requires
        x == y + k * 0x1_0000_0000,
    ensures
        be32_bytes(x) == be32_bytes(y),
{
    lemma_byte_congruent(x, y, k, 0x100_0000);
    lemma_byte_congruent(x, y, k * 0x100, 0x1_0000);
    lemma_byte_congruent(x, y, k * 0x1_0000, 0x100);
    lemma_byte_congruent(x, y, k * 0x100_0000, 1);
    assert(be32_bytes(x) =~= be32_bytes(y));
}

/// Reading the four-byte form of a number below 2^32 gives the number
/// back.
pub proof fn lemma_be32_unsigned_of_bytes(n: int)
    requires
        0 <= n < 0x1_0000_0000,
    ensures
        be32_unsigned(be32_bytes(n)) == n,
{
    let q1 = n / 0x100;
    let q2 = n / 0x1_0000;
    let q3 = n / 0x100_0000;
    assert(n == 0x100 * q1 + n % 0x100);
    assert(q1 == 0x100 * q2 + q1 % 0x100);
    assert(q2 == 0x100 * q3 + q2 % 0x100);
    assert(q3 % 0x100 == q3);
}

/// Reading the four-byte form of a 32-bit signed number gives the number
/// back.
pub proof fn lemma_be32_signed_of_bytes(n: int)
    requires
        -0x8000_0000 <= n < 0x8000_0000,
    ensures
        be32_signed(be32_bytes(n)) == n,
{
    if n >= 0 {
        lemma_be32_unsigned_of_bytes(n);
    } else {
        lemma_be32_congruent(n + 0x1_0000_0000, n, 1);
        lemma_be32_unsigned_of_bytes(n + 0x1_0000_0000);
    }
}

/// Reading the eight-byte form of a number below 2^64 gives the number
/// back.
pub proof fn lemma_be64_unsigned_of_bytes(n: int)
    requires
        0 <= n < 0x1_0000_0000_0000_0000,
    ensures
        be64_unsigned(be64_bytes(n)) == n,
{
    let high = n / 0x1_0000_0000;
    let low = n % 0x1_0000_0000;
    let b = be64_bytes(n);
    assert(n == 0x1_0000_0000 * high + low);
    lemma_be32_congruent(n, low, high);
    lemma_be32_unsigned_of_bytes(high);
    lemma_be32_unsigned_of_bytes(low);
    assert(b.subrange(4, 8) =~= be32_bytes(n));
    assert(be32_unsigned(b) == be32_unsigned(be32_bytes(high)));
}

/// Reading the eight-byte form of a 64-bit signed number gives the number
/// back.
pub proof fn lemma_be64_signed_of_bytes(n: int)
    requires
        -0x8000_0000_0000_0000 <= n < 0x8000_0000_0000_0000,
    ensures
        be64_signed(be64_bytes(n)) == n,
{
    if n >= 0 {
        lemma_be64_unsigned_of_bytes(n);
    } else {
        let m = n + 0x1_0000_0000_0000_0000;
        assert(m / 0x1_0000_0000 == n / 0x1_0000_0000 + 0x1_0000_0000);
        lemma_be32_congruent(m / 0x1_0000_0000, n / 0x1_0000_0000, 1);
        lemma_be32_congruent(m, n, 0x1_0000_0000);
        lemma_be64_unsigned_of_bytes(m);
    }
}

/// `byteorder::BigEndian::read_u32`: the first four bytes of the slice,
/// read as an unsigned big-endian number. The call panics on a shorter
/// slice, so four bytes are required.
#[verifier::external_body]
pub(crate) fn read_be_u32(bytes: &[u8]) -> (n: u32)
    requires
        bytes@.len() >= 4,
    ensures
        n == be32_unsigned(bytes@),
{
    BigEndian::read_u32(bytes)
}

/// `byteorder::BigEndian::read_i32`: the first four bytes of the slice,
/// read as a two's complement big-endian number. The call panics on a
/// shorter slice, so four bytes are required.
#[verifier::external_body]
pub(crate) fn read_be_i32(bytes: &[u8]) -> (n: i32)
    requires
        bytes@.len() >= 4,
    ensures
        n == be32_signed(bytes@),
{
    BigEndian::read_i32(bytes)
}

/// `byteorder::BigEndian::read_u64`: the first eight bytes of the slice,
/// read as an unsigned big-endian number. The call panics on a shorter
/// slice, so eight bytes are required.
#[verifier::external_body]
pub(crate) fn read_be_u64(bytes: &[u8]) -> (n: u64)
    requires
        bytes@.len() >= 8,
    ensures
        n == be64_unsigned(bytes@),
{
    BigEndian::read_u64(bytes)
}

/// `byteorder::BigEndian::read_i64`: the first eight bytes of the slice,
/// read as a two's complement big-endian number. The call panics on a
/// shorter slice, so eight bytes are required.
#[verifier::external_body]
pub(crate) fn read_be_i64(bytes: &[u8]) -> (n: i64)
    requires
        bytes@.len() >= 8,
    ensures
        n == be64_signed(bytes@),
{
    BigEndian::read_i64(bytes)
}

/// `byteorder::WriteBytesExt::write_u8` on a byte vector: the byte is
/// appended. Writing to a vector does not fail.
#[verifier::external_body]
pub(crate) fn put_u8(buf: &mut Vec<u8>, n: u8)
    ensures
        final(buf)@ == old(buf)@.push(n),
{
    let _ = WriteBytesExt::write_u8(buf, n);
}

/// `byteorder::WriteBytesExt::write_u16` in big-endian order on a byte
/// vector: the two bytes of `n` are appended, most significant first.
#[verifier::external_body]
pub(crate) fn put_u16(buf: &mut Vec<u8>, n: u16)
    ensures
        final(buf)@ == old(buf)@ + be16_bytes(n as int),
{
    let _ = WriteBytesExt::write_u16::<BigEndian>(buf, n);
}

/// `byteorder::WriteBytesExt::write_i16` in big-endian order on a byte
/// vector: the two bytes of the two's complement form of `n` are
/// appended, most significant first.
#[verifier::external_body]
pub(crate) fn put_i16(buf: &mut Vec<u8>, n: i16)
    ensures
        final(buf)@ == old(buf)@ + be16_bytes(n as int),
{
    let _ = WriteBytesExt::write_i16::<BigEndian>(buf, n);
}

/// `byteorder::WriteBytesExt::write_u32` in big-endian order on a byte
/// vector: the four bytes of `n` are appended, most significant first.
#[verifier::external_body]
pub(crate) fn put_u32(buf: &mut Vec<u8>, n: u32)
    ensures
        final(buf)@ == old(buf)@ + be32_bytes(n as int),
{
    let _ = WriteBytesExt::write_u32::<BigEndian>(buf, n);
}

/// `byteorder::WriteBytesExt::write_i32` in big-endian order on a byte
/// vector: the four bytes of the two's complement form of `n` are
/// appended, most significant first.
#[verifier::external_body]
pub(crate) fn put_i32(buf: &mut Vec<u8>, n: i32)
    ensures
        final(buf)@ == old(buf)@ + be32_bytes(n as int),
{
    let _ = WriteBytesExt::write_i32::<BigEndian>(buf, n);
}

/// `byteorder::WriteBytesExt::write_u64` in big-endian order on a byte
/// vector: the eight bytes of `n` are appended, most significant first.
#[verifier::external_body]
pub(crate) fn put_u64(buf: &mut Vec<u8>, n: u64)
    ensures
        final(buf)@ == old(buf)@ + be64_bytes(n as int),
{
    let _ = WriteBytesExt::write_u64::<BigEndian>(buf, n);
}

/// `byteorder::WriteBytesExt::write_i64` in big-endian order on a byte
/// vector: the eight bytes of the two's complement form of `n` are
/// appended, most significant first.
#[verifier::external_body]
pub(crate) fn put_i64(buf: &mut Vec<u8>, n: i64)
    ensures
        final(buf)@ == old(buf)@ + be64_bytes(n as int),
{
    let _ = WriteBytesExt::write_i64::<BigEndian>(buf, n);
}

} // verus!
