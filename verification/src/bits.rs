//! Bits and little-endian bytes, as the contracts of this crate speak of them.

use vstd::prelude::*;

verus! {

/// Bit `k` of `byte`, counting from the least significant bit.
pub open spec fn bit_of(byte: u8, k: int) -> bool {
    (byte >> (k as u8)) & 1 == 1
}

/// Bit `k` of `word`, counting from the least significant bit.
pub open spec fn bit_of_word(word: u32, k: int) -> bool {
    (word >> (k as u32)) & 1 == 1
}

/// Number of set bits among the lowest `n` bits of `word`.
pub open spec fn ones(word: u32, n: nat) -> nat
    decreases n,
{
    if n == 0 {
        0
    } else {
        ones(word, (n - 1) as nat) + if bit_of_word(word, n - 1) {
            1nat
        } else {
            0nat
        }
    }
}

/// Parity of a 32-bit word: 1 when an odd number of its bits are set.
pub open spec fn parity_of(word: u32) -> nat {
    ones(word, 32) % 2
}

/// The 16-bit value whose little-endian bytes are `b0`, `b1`.
pub open spec fn le16(b0: u8, b1: u8) -> int {
    b0 + 256 * b1
}

/// The 32-bit value whose little-endian bytes are `b0` .. `b3`.
pub open spec fn le32(b0: u8, b1: u8, b2: u8, b3: u8) -> int {
    b0 + 256 * b1 + 65536 * b2 + 16777216 * b3
}

/// Little-endian bytes of a 16-bit value.
pub open spec fn le16_bytes(value: u16) -> Seq<u8> {
    seq![(value % 256) as u8, (value / 256) as u8]
}

/// Little-endian bytes of a 32-bit value.
pub open spec fn le32_bytes(value: u32) -> Seq<u8> {
    seq![
        (value % 256) as u8,
        ((value / 256) % 256) as u8,
        ((value / 65536) % 256) as u8,
        (value / 16777216) as u8,
    ]
}

/// `u32::count_ones` of std: the number of bits set in `word`. The contract
/// states std's documented result as a count over the 32 bit positions.
#[verifier::external_body]
pub(crate) fn count_ones(word: u32) -> (n: u32)
    ensures
        n == ones(word, 32),
        n <= 32,
{
    word.count_ones()
}

/// Reads bit `k` of a byte.
pub fn test_bit(byte: u8, k: u8) -> (b: bool)
    requires
        k < 8,
    ensures
        b == bit_of(byte, k as int),
{
    (byte >> k) & 1 == 1
}

/// Under 8 bits no bit is set in zero.
pub proof fn lemma_zero_has_no_bits(k: u8)
    by (bit_vector)
    requires
        k < 8,
    ensures
        (0u8 >> k) & 1 == 0,
{
}

/// Setting bit `i` changes bit `i` and no other.
pub proof fn lemma_set_bit(r: u8, i: u8, k: u8)
    by (bit_vector)
    requires
        i < 8,
        k < 8,
    ensures
        (((r | (1u8 << i)) >> k) & 1 == 1) == (k == i || ((r >> k) & 1 == 1)),
{
}

} // verus!
