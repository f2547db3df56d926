//! Integers in network byte order.
//!
//! The octets are laid out by the `byteorder` crate; the functions here give
//! its calls a contract over plain sequences of octets.

use byteorder::{ByteOrder, NetworkEndian, WriteBytesExt};
use vstd::prelude::*;

verus! {

/// The 16-bit number that two octets spell, most significant first.
pub open spec fn spec_u16(hi: u8, lo: u8) -> u16 {
    (hi as int * 256 + lo as int) as u16
}

/// The 16-bit number at `pos` in `buf`.
pub open spec fn spec_u16_at(buf: Seq<u8>, pos: int) -> u16 {
    spec_u16(buf[pos], buf[pos + 1])
}

/// The 32-bit number that four octets spell, most significant first.
pub open spec fn spec_u32(b0: u8, b1: u8, b2: u8, b3: u8) -> u32 {
    (b0 as int * 16777216 + b1 as int * 65536 + b2 as int * 256 + b3 as int) as u32
}

/// The 32-bit number at `pos` in `buf`.
pub open spec fn spec_u32_at(buf: Seq<u8>, pos: int) -> u32 {
    spec_u32(buf[pos], buf[pos + 1], buf[pos + 2], buf[pos + 3])
}

/// The 128-bit number at `pos` in `buf`, most significant octet first.
pub open spec fn spec_u128_at(buf: Seq<u8>, pos: int) -> u128 {
    (spec_u32_at(buf, pos) as int * 0x1_0000_0000_0000_0000_0000_0000 + spec_u32_at(buf, pos + 4)
        as int * 0x1_0000_0000_0000_0000 + spec_u32_at(buf, pos + 8) as int * 0x1_0000_0000
        + spec_u32_at(buf, pos + 12) as int) as u128
}

/// The more significant octet of a 16-bit number.
pub open spec fn high_octet(n: u16) -> u8 {
    (n / 256) as u8
}

/// The less significant octet of a 16-bit number.
pub open spec fn low_octet(n: u16) -> u8 {
    (n % 256) as u8
}

/// The two octets of a 16-bit number, most significant first.
pub open spec fn u16_octets(n: u16) -> Seq<u8> {
    seq![high_octet(n), low_octet(n)]
}

/// The octets of a sequence of 16-bit numbers, each most significant first.
pub open spec fn u16s_octets(ns: Seq<u16>) -> Seq<u8> {
    Seq::new(
        2 * ns.len(),
        |i: int|
            if i % 2 == 0 {
                high_octet(ns[i / 2])
            } else {
                low_octet(ns[i / 2])
            },
    )
}

/// The two octets of a 16-bit number spell that number.
pub proof fn lemma_u16_round_trip(n: u16)
    ensures
        spec_u16(high_octet(n), low_octet(n)) == n,
{
}

/// Calls `byteorder::ByteOrder::read_u16` of `NetworkEndian`. Not proved:
/// that it returns the number spelled by the first two octets of `buf`. It
/// panics on a shorter slice, which `requires` leaves out.
#[verifier::external_body]
pub(crate) fn read_u16(buf: &[u8]) -> (n: u16)
    requires
        buf@.len() >= 2,
    ensures
        n == spec_u16_at(buf@, 0),
{
    NetworkEndian::read_u16(buf)
}

/// Calls `byteorder::ByteOrder::read_u32` of `NetworkEndian`. Not proved:
/// that it returns the number spelled by the first four octets of `buf`. It
/// panics on a shorter slice, which `requires` leaves out.
#[verifier::external_body]
pub(crate) fn read_u32(buf: &[u8]) -> (n: u32)
    requires
        buf@.len() >= 4,
    ensures
        n == spec_u32_at(buf@, 0),
{
    NetworkEndian::read_u32(buf)
}

/// Calls `byteorder::ByteOrder::read_u128` of `NetworkEndian`. Not proved:
/// that it returns the number spelled by the first sixteen octets of `buf`.
/// It panics on a shorter slice, which `requires` leaves out.
#[verifier::external_body]
pub(crate) fn read_u128(buf: &[u8]) -> (n: u128)
    requires
        buf@.len() >= 16,
    ensures
        n == spec_u128_at(buf@, 0),
{
    NetworkEndian::read_u128(buf)
}

/// Calls `byteorder::ByteOrder::read_u16_into` of `NetworkEndian`. Not
/// proved: that it fills `dst` with the numbers spelled by the successive
/// pairs of octets of `src`. It panics unless `src` is twice as long as
/// `dst`, which `requires` leaves out.
#[verifier::external_body]
pub(crate) fn read_u16_into(src: &[u8], dst: &mut Vec<u16>)
    requires
        src@.len() == 2 * old(dst)@.len(),
    ensures
        final(dst)@.len() == old(dst)@.len(),
        forall|i: int|
            0 <= i < final(dst)@.len() ==> #[trigger] final(dst)@[i] == spec_u16_at(src@, 2 * i),
{
    NetworkEndian::read_u16_into(src, dst.as_mut_slice())
}

/// Calls `byteorder::ByteOrder::write_u16_into` of `NetworkEndian`. Not
/// proved: that it overwrites `dst` with the octets of the numbers in `src`,
/// each most significant first. It panics unless `dst` is twice as long as
/// `src`, which `requires` leaves out.
#[verifier::external_body]
pub(crate) fn write_u16_into(src: &[u16], dst: &mut Vec<u8>)
    requires
        old(dst)@.len() == 2 * src@.len(),
    ensures
        final(dst)@ == u16s_octets(src@),
{
    NetworkEndian::write_u16_into(src, dst.as_mut_slice())
}

/// Calls `byteorder::WriteBytesExt::write_u16` with `NetworkEndian` on a
/// vector. Not proved: that it appends the two octets of `n`, most
/// significant first, and leaves the rest of `buf` as it was. Writing to a
/// vector does not fail.
#[verifier::external_body]
pub(crate) fn write_u16(buf: &mut Vec<u8>, n: u16)
    ensures
        final(buf)@ == old(buf)@ + u16_octets(n),
{
    let _ = buf.write_u16::<NetworkEndian>(n);
}

} // verus!
