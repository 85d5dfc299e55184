//! Fixed-width and variable-width integers as they appear in archive files.

use byteorder::{BigEndian, ByteOrder};
use integer_encoding::VarInt;
use vstd::prelude::*;

verus! {

/// The value of four bytes read as a big-endian unsigned integer.
pub open spec fn be_u32(b0: u8, b1: u8, b2: u8, b3: u8) -> int {
    b0 as int * 0x100_0000 + b1 as int * 0x1_0000 + b2 as int * 0x100 + b3 as int
}

/// The power of 128 with the exponent given.
pub open spec fn pow128(exponent: nat) -> nat
    decreases exponent,
{
    if exponent == 0 {
        1
    } else {
        128 * pow128((exponent - 1) as nat)
    }
}

/// The number that the low seven bits of the first `count` bytes spell, the
/// first byte holding the lowest bits.
pub open spec fn varint_sum(bytes: Seq<u8>, count: nat) -> nat
    decreases count,
{
    if count == 0 {
        0
    } else {
        varint_sum(bytes, (count - 1) as nat) + (bytes[count - 1] as nat % 128) * pow128(
            (count - 1) as nat,
        )
    }
}

/// Whether a variable-width integer stands at the head of `bytes` and takes
/// `count` of them: at most ten bytes, the last of them below 128 and the
/// ones before it not.
pub open spec fn varint_ends_at(bytes: Seq<u8>, count: int) -> bool {
    &&& 1 <= count <= 10
    &&& count <= bytes.len()
    &&& bytes[count - 1] < 128
    &&& forall|k: int| 0 <= k < count - 1 ==> #[trigger] bytes[k] >= 128
}

/// The variable-width integer at the head of `bytes`, cut to 64 bits, and
/// the number of bytes that it takes; `None` where none stands there.
pub open spec fn varint_head(bytes: Seq<u8>) -> Option<(u64, nat)> {
    if exists|count: int| varint_ends_at(bytes, count) {
        let count = choose|count: int| varint_ends_at(bytes, count);
        Some(
            ((varint_sum(bytes, count as nat) % 0x1_0000_0000_0000_0000) as u64, count as nat),
        )
    } else {
        None
    }
}

/// A variable-width integer at the head of a sequence has one length only.
pub proof fn lemma_varint_length_unique(bytes: Seq<u8>, first: int, second: int)
    requires
        varint_ends_at(bytes, first),
        varint_ends_at(bytes, second),
    ensures
        first == second,
{
    if first < second {
        assert(bytes[first - 1] >= 128);
    } else if second < first {
        assert(bytes[second - 1] >= 128);
    }
}

/// Calls `byteorder::BigEndian::read_u32`, which reads the first four bytes
/// of the slice as a big-endian integer and panics on a shorter slice.
#[verifier::external_body]
pub(crate) fn read_u32_be(buf: &[u8]) -> (value: u32)
    requires
        buf@.len() >= 4,
    ensures
        value as int == be_u32(buf@[0], buf@[1], buf@[2], buf@[3]),
{
    BigEndian::read_u32(buf)
}

/// Calls `integer_encoding::VarInt::decode_var` for `u64`, which reads bytes
/// up to the first one below 128, ten at most, and joins their low seven
/// bits, lowest first, dropping what does not fit in 64 bits. It hands back
/// the number and how many bytes it took, or nothing where the bytes end or
/// the tenth byte passes without one below 128.
#[verifier::external_body]
pub(crate) fn decode_varint(buf: &[u8]) -> (decoded: Option<(u64, usize)>)
    ensures
        decoded matches Some((value, count)) ==> varint_ends_at(buf@, count as int) && value
            == varint_sum(buf@, count as nat) % 0x1_0000_0000_0000_0000,
        decoded is None ==> forall|count: int| !varint_ends_at(buf@, count),
{
    u64::decode_var(buf)
}

/// Reads the variable-width integer at the head of `buf`.
pub fn read_varint(buf: &[u8]) -> (decoded: Option<(u64, usize)>)
    ensures
        match decoded {
            Some((value, count)) => varint_head(buf@) == Some((value, count as nat)),
            None => varint_head(buf@) is None,
        },
{
    let decoded = decode_varint(buf);
    proof {
        if let Some((value, count)) = decoded {
            let chosen = choose|count: int| varint_ends_at(buf@, count);
            lemma_varint_length_unique(buf@, chosen, count as int);
        }
    }
    decoded
}

} // verus!
