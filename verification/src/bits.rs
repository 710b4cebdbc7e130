//! Textual dumps of bytes: for each bit from the lowest up, the value that bit
//! contributes to the byte, in decimal.

use vstd::prelude::*;
use crate::text::{decimal, decimal_string};

verus! {

/// The value that bit `i` contributes to `byte`: `2^i` where it is set, else `0`.
pub open spec fn masked_bit(byte: u8, i: u8) -> u8 {
    (1u8 << i) & byte
}

/// The decimal values of the lowest `n` bits of `byte`, written one after another.
pub open spec fn bits_prefix(byte: u8, n: nat) -> Seq<char>
    decreases n,
{
    if n == 0 || n > 8 {
        Seq::empty()
    } else {
        bits_prefix(byte, (n - 1) as nat) + decimal(masked_bit(byte, (n - 1) as u8) as nat)
    }
}

/// The dump of one byte: the decimal values of its eight bits, lowest first.
pub open spec fn bits_spec(byte: u8) -> Seq<char> {
    bits_prefix(byte, 8)
}

/// The dumps of the bytes of `bytes`, one after another.
pub open spec fn bits_vec_spec(bytes: Seq<u8>) -> Seq<char>
    decreases bytes.len(),
{
    if bytes.len() == 0 {
        Seq::empty()
    } else {
        bits_vec_spec(bytes.drop_last()) + bits_spec(bytes.last())
    }
}

/// The dump of one byte: for each bit from the lowest up, `0` where it is clear
/// and the bit's value (`1`, `2`, `4`, ... `128`) where it is set.
pub fn get_bits(byte: u8) -> (bits: String)
    ensures
        bits@ == bits_spec(byte),
{
    let mut bits = String::new();
    let mut i: u8 = 0;
    while i < 8
        invariant
            i <= 8,
            bits@ == bits_prefix(byte, i as nat),
        decreases 8 - i,
    {
        let mask: u8 = 1u8 << i;
        let bit = mask & byte;
        let digits = decimal_string(bit as u64);
        bits.append(digits.as_str());
        i = i + 1;
    }
    bits
}

/// The dumps of all bytes of `bytes`, one after another.
pub fn get_bits_vec(bytes: &Vec<u8>) -> (bits: String)
    ensures
        bits@ == bits_vec_spec(bytes@),
{
    let mut bits = String::new();
    let mut k: usize = 0;
    while k < bytes.len()
        invariant
            k <= bytes.len(),
            bits@ == bits_vec_spec(bytes@.subrange(0, k as int)),
        decreases bytes.len() - k,
    {
        let one = get_bits(bytes[k]);
        bits.append(one.as_str());
        k = k + 1;
        assert(bytes@.subrange(0, k as int).drop_last() =~= bytes@.subrange(0, k - 1));
    }
    assert(bytes@.subrange(0, bytes.len() as int) =~= bytes@);
    bits
}

} // verus!
