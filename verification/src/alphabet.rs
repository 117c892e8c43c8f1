//! The symbol table shared by the encoder and the decoder.

use vstd::prelude::*;
use vstd::string::*;

verus! {

/// The 32 symbols, in the order of the 5-bit values they stand for.
pub const ALPHABET: &'static str = "abcdefghijklmnopqrstuvwxyz234567";

/// The symbol that the encoder writes for the 5-bit value `v`.
pub open spec fn symbol(v: int) -> char {
    ALPHABET@[v]
}

/// The 5-bit value that the text byte `c` stands for: letters of either case
/// count from `a`, the digits `2` to `7` follow them. Any other byte stands
/// for nothing.
pub open spec fn symbol_value(c: u8) -> Option<u8> {
    if 'A' as u8 <= c <= 'Z' as u8 {
        Some((c - 'A' as u8) as u8)
    } else if 'a' as u8 <= c <= 'z' as u8 {
        Some((c - 'a' as u8) as u8)
    } else if '2' as u8 <= c <= '7' as u8 {
        Some((26 + (c - '2' as u8)) as u8)
    } else {
        None
    }
}

/// Whether the text byte `c` is a symbol of the alphabet, in either case.
pub open spec fn is_symbol(c: u8) -> bool {
    symbol_value(c) is Some
}

/// The ASCII uppercase form of a byte.
pub open spec fn ascii_upper(c: u8) -> u8 {
    if 'a' as u8 <= c <= 'z' as u8 {
        (c - 32) as u8
    } else {
        c
    }
}

/// The ASCII lowercase form of a byte.
pub open spec fn ascii_lower(c: u8) -> u8 {
    if 'A' as u8 <= c <= 'Z' as u8 {
        (c + 32) as u8
    } else {
        c
    }
}

/// The alphabet holds 32 ASCII symbols: the lowercase letters, then the
/// digits `2` to `7`.
pub proof fn lemma_alphabet_contents()
    ensures
        ALPHABET@.len() == 32,
        is_ascii(ALPHABET),
        forall|v: int| 0 <= v < 26 ==> #[trigger] symbol(v) as int == 'a' as int + v,
        forall|v: int| 26 <= v < 32 ==> #[trigger] symbol(v) as int == '2' as int + (v - 26),
{
    reveal_strlit("abcdefghijklmnopqrstuvwxyz234567");
}

/// Every symbol that the encoder writes is a single byte, and the decoder
/// reads it, and its uppercase form, as the value that it was written for.
pub proof fn lemma_symbol_value(v: int)
    requires
        0 <= v < 32,
    ensures
        symbol_value(symbol(v) as u8) == Some(v as u8),
        symbol_value(ascii_upper(symbol(v) as u8)) == Some(v as u8),
        symbol(v) as u8 as char == symbol(v),
{
    lemma_alphabet_contents();
}

/// Every byte that the decoder reads as a value is, in lowercase, the symbol
/// that the encoder writes for that value. With `lemma_symbol_value`: values
/// and symbols correspond one to one.
pub proof fn lemma_value_symbol(c: u8)
    requires
        is_symbol(c),
    ensures
        symbol_value(c).unwrap() < 32,
        symbol(symbol_value(c).unwrap() as int) as u8 == ascii_lower(c),
{
    lemma_alphabet_contents();
}

/// The decoder does not tell the two cases of a letter apart.
pub proof fn lemma_symbol_value_ignores_case(c: u8)
    ensures
        symbol_value(ascii_upper(c)) == symbol_value(c),
        symbol_value(ascii_lower(c)) == symbol_value(c),
{
}

/// Appends to `out` the symbol that stands for `v`.
pub(crate) fn push_symbol(out: &mut String, v: usize)
    requires
        v < 32,
    ensures
        final(out)@ == old(out)@.push(symbol(v as int)),
{
    proof {
        lemma_alphabet_contents();
    }
    out.append(ALPHABET.substring_ascii(v, v + 1));
}

/// Reads one text byte as a 5-bit value.
pub(crate) fn value_of(c: u8) -> (r: Option<u8>)
    ensures
        r == symbol_value(c),
{
    if c >= 'A' as u8 && c <= 'Z' as u8 {
        Some(c - 'A' as u8)
    } else if c >= 'a' as u8 && c <= 'z' as u8 {
        Some(c - 'a' as u8)
    } else if c >= '2' as u8 && c <= '7' as u8 {
        Some(26 + (c - '2' as u8))
    } else {
        None
    }
}

} // verus!
