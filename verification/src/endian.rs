//! Integers in network byte order.
use vstd::prelude::*;
use zerocopy::byteorder::network_endian::{U16, U32};

verus! {

/// The number that two bytes stand for, most significant byte first.
pub open spec fn be16(b: Seq<u8>) -> int {
    b[0] * 0x100 + b[1]
}

/// The number that three bytes stand for, most significant byte first.
pub open spec fn be24(b: Seq<u8>) -> int {
    b[0] * 0x1_0000 + b[1] * 0x100 + b[2]
}

/// The number that four bytes stand for, most significant byte first.
pub open spec fn be32(b: Seq<u8>) -> int {
    b[0] * 0x100_0000 + b[1] * 0x1_0000 + b[2] * 0x100 + b[3]
}

/// The two bytes of `v`, most significant byte first.
pub open spec fn u16_bytes(v: u16) -> Seq<u8> {
    seq![(v / 0x100) as u8, (v % 0x100) as u8]
}

/// The four bytes of `v`, most significant byte first.
pub open spec fn u32_bytes(v: u32) -> Seq<u8> {
    seq![
        (v / 0x100_0000) as u8,
        (v / 0x1_0000 % 0x100) as u8,
        (v / 0x100 % 0x100) as u8,
        (v % 0x100) as u8,
    ]
}

/// `zerocopy`'s `U16<NetworkEndian>::get`, on a value made from its bytes: the
/// number that the bytes stand for in big-endian order.
#[verifier::external_body]
pub(crate) fn read_u16(bytes: [u8; 2]) -> (v: u16)
    ensures
        v == be16(bytes@),
{
    U16::from_bytes(bytes).get()
}

/// `zerocopy`'s `U32<NetworkEndian>::get`, on a value made from its bytes: the
/// number that the bytes stand for in big-endian order.
#[verifier::external_body]
pub(crate) fn read_u32(bytes: [u8; 4]) -> (v: u32)
    ensures
        v == be32(bytes@),
{
    U32::from_bytes(bytes).get()
}

/// `zerocopy`'s `U16<NetworkEndian>::new`, its result taken as bytes: the
/// big-endian bytes of the number.
#[verifier::external_body]
pub(crate) fn write_u16(v: u16) -> (bytes: [u8; 2])
    ensures
        bytes@ == u16_bytes(v),
{
    U16::new(v).into()
}

/// `zerocopy`'s `U32<NetworkEndian>::new`, its result taken as bytes: the
/// big-endian bytes of the number.
#[verifier::external_body]
pub(crate) fn write_u32(v: u32) -> (bytes: [u8; 4])
    ensures
        bytes@ == u32_bytes(v),
{
    U32::new(v).into()
}

/// The number that two bytes stand for, most significant byte first.
pub fn join_u16(hi: u8, lo: u8) -> (v: u16)
    ensures
        v == be16(seq![hi, lo]),
{
    hi as u16 * 0x100 + lo as u16
}

/// The number that four bytes stand for, most significant byte first.
pub fn join_u32(b0: u8, b1: u8, b2: u8, b3: u8) -> (v: u32)
    ensures
        v == be32(seq![b0, b1, b2, b3]),
{
    b0 as u32 * 0x100_0000 + b1 as u32 * 0x1_0000 + b2 as u32 * 0x100 + b3 as u32
}

/// Reading back the bytes that were written gives the number, and writing the
/// number that was read gives the bytes.
pub proof fn u16_round_trip(v: u16, b: Seq<u8>)
    ensures
        be16(u16_bytes(v)) == v,
        b.len() == 2 ==> 0 <= be16(b) <= u16::MAX && u16_bytes(be16(b) as u16) == b,
{
    if b.len() == 2 {
        assert(u16_bytes(be16(b) as u16) =~= b);
    }
}

/// Reading back the bytes that were written gives the number, and writing the
/// number that was read gives the bytes.
pub proof fn u32_round_trip(v: u32, b: Seq<u8>)
    ensures
        be32(u32_bytes(v)) == v,
        b.len() == 4 ==> 0 <= be32(b) <= u32::MAX && u32_bytes(be32(b) as u32) == b,
{
    assert(v / 0x100_0000 <= 0xff && v / 0x100_0000 * 0x100_0000 + v / 0x1_0000 % 0x100 * 0x1_0000
        + v / 0x100 % 0x100 * 0x100 + v % 0x100 == v) by (bit_vector);
    if b.len() == 4 {
        u32_digits(b[0], b[1], b[2], b[3]);
        assert(u32_bytes(be32(b) as u32) =~= b);
    }
}

/// The base-256 digits of a number made of four bytes are those bytes.
proof fn u32_digits(b0: u8, b1: u8, b2: u8, b3: u8)
    ensures
        ({
            let n = b0 * 0x100_0000 + b1 * 0x1_0000 + b2 * 0x100 + b3;
            &&& 0 <= n <= u32::MAX
            &&& n / 0x100_0000 == b0
            &&& n / 0x1_0000 % 0x100 == b1
            &&& n / 0x100 % 0x100 == b2
            &&& n % 0x100 == b3
        }),
{
    let n = b0 * 0x100_0000 + b1 * 0x1_0000 + b2 * 0x100 + b3;
    assert(n / 0x100_0000 == b0);
    let upper = b0 * 0x100 + b1;
    assert(n == upper * 0x1_0000 + (b2 * 0x100 + b3));
    assert(n / 0x1_0000 == upper);
    let most = b0 * 0x1_0000 + b1 * 0x100 + b2;
    assert(n == most * 0x100 + b3);
    assert(n / 0x100 == most);
}

} // verus!
