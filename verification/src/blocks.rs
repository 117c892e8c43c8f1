//! The bit layout of the encoding: five bytes and eight symbols share one
//! 40-bit block word.
//!
//! Within a block the first byte, and the first symbol, hold the most
//! significant bits. A final block that is not full is filled up with zero
//! bits on the right.

use vstd::prelude::*;
use vstd::utf8::is_ascii_chars;
use crate::alphabet::{is_symbol, lemma_alphabet_contents, symbol, symbol_value};

verus! {

/// How many symbols a block of `count` bytes is written as.
pub open spec fn symbols_for(count: int) -> int {
    if count <= 0 {
        0
    } else if count == 1 {
        2
    } else if count == 2 {
        4
    } else if count == 3 {
        5
    } else if count == 4 {
        7
    } else {
        8
    }
}

/// How many bytes a block of `count` symbols is read as.
pub open spec fn bytes_for(count: int) -> int {
    if count <= 1 {
        0
    } else if count == 2 {
        1
    } else if count == 3 {
        2
    } else if count == 4 {
        2
    } else if count == 5 {
        3
    } else if count == 6 {
        4
    } else if count == 7 {
        4
    } else {
        5
    }
}

/// The number of symbols that `n` bytes are written as: eight for each full
/// block, and those of the final block.
pub open spec fn encoded_len(n: nat) -> nat {
    (8 * (n / 5) + symbols_for((n % 5) as int)) as nat
}

/// The number of bytes that `n` symbols are read as: five for each full
/// block, and those of the final block.
pub open spec fn decoded_len(n: nat) -> nat {
    (5 * (n / 8) + bytes_for((n % 8) as int)) as nat
}

/// The byte at index `i`, or zero where `bytes` has none.
pub open spec fn byte_at(bytes: Seq<u8>, i: int) -> u64 {
    if 0 <= i < bytes.len() {
        bytes[i] as u64
    } else {
        0
    }
}

/// The value of the text byte at index `i`, or zero where `text` has no
/// symbol there.
pub open spec fn value_at(text: Seq<u8>, i: int) -> u64 {
    if 0 <= i < text.len() {
        match symbol_value(text[i]) {
            Some(v) => v as u64,
            None => 0,
        }
    } else {
        0
    }
}

/// The block word made of five bytes, the first one in bits 32 to 39.
pub open spec fn pack_bytes(b0: u64, b1: u64, b2: u64, b3: u64, b4: u64) -> u64 {
    b0 << 32 | b1 << 24 | b2 << 16 | b3 << 8 | b4
}

/// The block word made of eight 5-bit values, the first one in bits 35 to 39.
pub open spec fn pack_values(
    v0: u64,
    v1: u64,
    v2: u64,
    v3: u64,
    v4: u64,
    v5: u64,
    v6: u64,
    v7: u64,
) -> u64 {
    v0 << 35 | v1 << 30 | v2 << 25 | v3 << 20 | v4 << 15 | v5 << 10 | v6 << 5 | v7
}

/// The 5-bit value at position `g` (0 to 7) of a block word.
pub open spec fn quintet_of(word: u64, g: int) -> u64 {
    (word >> ((35 - 5 * g) as u64)) & 31
}

/// The byte at position `t` (0 to 4) of a block word.
pub open spec fn octet_of(word: u64, t: int) -> u64 {
    (word >> ((32 - 8 * t) as u64)) & 255
}

/// The word of block `blk` of a byte sequence.
pub open spec fn byte_block(bytes: Seq<u8>, blk: int) -> u64 {
    pack_bytes(
        byte_at(bytes, 5 * blk),
        byte_at(bytes, 5 * blk + 1),
        byte_at(bytes, 5 * blk + 2),
        byte_at(bytes, 5 * blk + 3),
        byte_at(bytes, 5 * blk + 4),
    )
}

/// The word of block `blk` of a text.
pub open spec fn text_block(text: Seq<u8>, blk: int) -> u64 {
    pack_values(
        value_at(text, 8 * blk),
        value_at(text, 8 * blk + 1),
        value_at(text, 8 * blk + 2),
        value_at(text, 8 * blk + 3),
        value_at(text, 8 * blk + 4),
        value_at(text, 8 * blk + 5),
        value_at(text, 8 * blk + 6),
        value_at(text, 8 * blk + 7),
    )
}

/// The 5-bit value that symbol `i` of the encoding of `bytes` stands for.
pub open spec fn quintet(bytes: Seq<u8>, i: int) -> u64 {
    quintet_of(byte_block(bytes, i / 8), i % 8)
}

/// Byte `k` of the decoding of `text`.
pub open spec fn octet(text: Seq<u8>, k: int) -> u8 {
    octet_of(text_block(text, k / 5), k % 5) as u8
}

/// The encoding of a byte sequence.
pub open spec fn encoded(bytes: Seq<u8>) -> Seq<char> {
    Seq::new(encoded_len(bytes.len()), |i: int| symbol(quintet(bytes, i) as int))
}

/// Whether every byte of `text` is a symbol of the alphabet.
pub open spec fn valid_text(text: Seq<u8>) -> bool {
    forall|i: int| 0 <= i < text.len() ==> is_symbol(#[trigger] text[i])
}

/// The decoding of a text, meaningful where the text is valid.
pub open spec fn decoded(text: Seq<u8>) -> Seq<u8> {
    Seq::new(decoded_len(text.len()), |k: int| octet(text, k))
}

/// `n` bytes are written as the least number of symbols that holds their
/// bits, eight bits to a byte and five to a symbol: `8 * n / 5`, rounded up.
pub proof fn lemma_encoded_len(n: nat)
    ensures
        encoded_len(n) == (8 * n + 4) / 5,
        8 * n <= 5 * encoded_len(n) < 8 * n + 5,
{
}

/// `n` symbols are read as the greatest number of bytes that their bits
/// fill, `5 * n / 8` rounded down, unless the final block holds 3 or 6
/// symbols: then as one byte more.
pub proof fn lemma_decoded_len(n: nat)
    ensures
        n % 8 != 3 && n % 8 != 6 ==> decoded_len(n) == 5 * n / 8,
        n % 8 == 3 || n % 8 == 6 ==> decoded_len(n) == 5 * n / 8 + 1,
{
}

/// An encoding holds symbols of the alphabet only, which are ASCII.
pub proof fn lemma_encoded_symbols(bytes: Seq<u8>)
    ensures
        forall|i: int| 0 <= i < encoded(bytes).len() ==> #[trigger] quintet(bytes, i) < 32,
        is_ascii_chars(encoded(bytes)),
{
    lemma_alphabet_contents();
    assert forall|i: int| 0 <= i < encoded(bytes).len() implies #[trigger] quintet(bytes, i)
        < 32 by {
        lemma_word_bounds(byte_block(bytes, i / 8));
    }
}

/// Whatever a position of a block word holds is less than the position's
/// width allows: 32 for a 5-bit value, 256 for a byte.
pub(crate) proof fn lemma_word_bounds(word: u64)
    by (bit_vector)
    ensures
        forall|s: u64| #![auto] (word >> s) & 31 < 32,
        forall|s: u64| #![auto] (word >> s) & 255 < 256,
{
}

/// Setting a position of a block word whose positions from there on are
/// empty gives the word with that byte in place.
pub(crate) proof fn lemma_pack_bytes_step(a: u64, b: u64, c: u64, d: u64, y: u64)
    by (bit_vector)
    ensures
        pack_bytes(0, 0, 0, 0, 0) == 0,
        pack_bytes(0, 0, 0, 0, 0) | (y << 32) == pack_bytes(y, 0, 0, 0, 0),
        pack_bytes(a, 0, 0, 0, 0) | (y << 24) == pack_bytes(a, y, 0, 0, 0),
        pack_bytes(a, b, 0, 0, 0) | (y << 16) == pack_bytes(a, b, y, 0, 0),
        pack_bytes(a, b, c, 0, 0) | (y << 8) == pack_bytes(a, b, c, y, 0),
        pack_bytes(a, b, c, d, 0) | (y << 0) == pack_bytes(a, b, c, d, y),
{
}

/// Setting a position of a block word whose positions from there on are
/// empty gives the word with that value in place.
pub(crate) proof fn lemma_pack_values_step(
    a: u64,
    b: u64,
    c: u64,
    d: u64,
    e: u64,
    f: u64,
    g: u64,
    y: u64,
)
    by (bit_vector)
    ensures
        pack_values(0, 0, 0, 0, 0, 0, 0, 0) == 0,
        pack_values(0, 0, 0, 0, 0, 0, 0, 0) | (y << 35) == pack_values(y, 0, 0, 0, 0, 0, 0, 0),
        pack_values(a, 0, 0, 0, 0, 0, 0, 0) | (y << 30) == pack_values(a, y, 0, 0, 0, 0, 0, 0),
        pack_values(a, b, 0, 0, 0, 0, 0, 0) | (y << 25) == pack_values(a, b, y, 0, 0, 0, 0, 0),
        pack_values(a, b, c, 0, 0, 0, 0, 0) | (y << 20) == pack_values(a, b, c, y, 0, 0, 0, 0),
        pack_values(a, b, c, d, 0, 0, 0, 0) | (y << 15) == pack_values(a, b, c, d, y, 0, 0, 0),
        pack_values(a, b, c, d, e, 0, 0, 0) | (y << 10) == pack_values(a, b, c, d, e, y, 0, 0),
        pack_values(a, b, c, d, e, f, 0, 0) | (y << 5) == pack_values(a, b, c, d, e, f, y, 0),
        pack_values(a, b, c, d, e, f, g, 0) | (y << 0) == pack_values(a, b, c, d, e, f, g, y),
{
}

/// The bytes of a word made of five bytes are those five, and packing its
/// eight 5-bit values gives the word again.
pub(crate) proof fn lemma_word_of_bytes(x0: u64, x1: u64, x2: u64, x3: u64, x4: u64)
    by (bit_vector)
    requires
        x0 < 256,
        x1 < 256,
        x2 < 256,
        x3 < 256,
        x4 < 256,
    ensures
        octet_of(pack_bytes(x0, x1, x2, x3, x4), 0) == x0,
        octet_of(pack_bytes(x0, x1, x2, x3, x4), 1) == x1,
        octet_of(pack_bytes(x0, x1, x2, x3, x4), 2) == x2,
        octet_of(pack_bytes(x0, x1, x2, x3, x4), 3) == x3,
        octet_of(pack_bytes(x0, x1, x2, x3, x4), 4) == x4,
        pack_values(
            quintet_of(pack_bytes(x0, x1, x2, x3, x4), 0),
            quintet_of(pack_bytes(x0, x1, x2, x3, x4), 1),
            quintet_of(pack_bytes(x0, x1, x2, x3, x4), 2),
            quintet_of(pack_bytes(x0, x1, x2, x3, x4), 3),
            quintet_of(pack_bytes(x0, x1, x2, x3, x4), 4),
            quintet_of(pack_bytes(x0, x1, x2, x3, x4), 5),
            quintet_of(pack_bytes(x0, x1, x2, x3, x4), 6),
            quintet_of(pack_bytes(x0, x1, x2, x3, x4), 7),
        ) == pack_bytes(x0, x1, x2, x3, x4),
{
}

/// The 5-bit values of a word made of eight such values are those eight.
pub(crate) proof fn lemma_word_of_values(
    v0: u64,
    v1: u64,
    v2: u64,
    v3: u64,
    v4: u64,
    v5: u64,
    v6: u64,
    v7: u64,
)
    by (bit_vector)
    requires
        v0 < 32,
        v1 < 32,
        v2 < 32,
        v3 < 32,
        v4 < 32,
        v5 < 32,
        v6 < 32,
        v7 < 32,
    ensures
        quintet_of(pack_values(v0, v1, v2, v3, v4, v5, v6, v7), 0) == v0,
        quintet_of(pack_values(v0, v1, v2, v3, v4, v5, v6, v7), 1) == v1,
        quintet_of(pack_values(v0, v1, v2, v3, v4, v5, v6, v7), 2) == v2,
        quintet_of(pack_values(v0, v1, v2, v3, v4, v5, v6, v7), 3) == v3,
        quintet_of(pack_values(v0, v1, v2, v3, v4, v5, v6, v7), 4) == v4,
        quintet_of(pack_values(v0, v1, v2, v3, v4, v5, v6, v7), 5) == v5,
        quintet_of(pack_values(v0, v1, v2, v3, v4, v5, v6, v7), 6) == v6,
        quintet_of(pack_values(v0, v1, v2, v3, v4, v5, v6, v7), 7) == v7,
{
}

/// The zero bits that fill up a block of fewer than five bytes make up whole
/// 5-bit values from the position on at which the symbols of the block end.
pub(crate) proof fn lemma_fill_is_zero(x0: u64, x1: u64, x2: u64, x3: u64)
    by (bit_vector)
    requires
        x0 < 256,
        x1 < 256,
        x2 < 256,
        x3 < 256,
    ensures
        forall|s: u64| #![auto] (pack_bytes(0, 0, 0, 0, 0) >> s) & 31 == 0,
        forall|s: u64| #![auto] s <= 25 ==> (pack_bytes(x0, 0, 0, 0, 0) >> s) & 31 == 0,
        forall|s: u64| #![auto] s <= 15 ==> (pack_bytes(x0, x1, 0, 0, 0) >> s) & 31 == 0,
        forall|s: u64| #![auto] s <= 10 ==> (pack_bytes(x0, x1, x2, 0, 0) >> s) & 31 == 0,
        forall|s: u64| #![auto] s <= 0 ==> (pack_bytes(x0, x1, x2, x3, 0) >> s) & 31 == 0,
{
}

/// Bit `o` of a block word, counted from its most significant bit, is a bit
/// of the 5-bit value and of the byte that lie over it.
pub(crate) proof fn lemma_word_bit(word: u64, o: u64)
    by (bit_vector)
    requires
        o < 40,
    ensures
        (((word >> ((35 - 5 * (o / 5)) as u64)) & 31) >> ((4 - o % 5) as u64)) & 1 == (word >> ((39
            - o) as u64)) & 1,
        (((word >> ((32 - 8 * (o / 8)) as u64)) & 255) >> ((7 - o % 8) as u64)) & 1 == (word >> ((39
            - o) as u64)) & 1,
{
}

} // verus!
