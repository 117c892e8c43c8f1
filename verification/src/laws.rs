//! What holds of the encoder and the decoder together.

use vstd::prelude::*;
use vstd::utf8::{encode_utf8, is_ascii_chars_encode_utf8};
use crate::alphabet::{
    ascii_lower, ascii_upper, is_symbol, lemma_symbol_value, lemma_symbol_value_ignores_case,
    symbol_value,
};
use crate::blocks::{
    byte_at, byte_block, decoded, decoded_len, encoded, encoded_len, lemma_encoded_symbols,
    lemma_fill_is_zero, lemma_word_bit, lemma_word_bounds, lemma_word_of_bytes,
    lemma_word_of_values, octet, quintet, text_block, valid_text, value_at,
};

verus! {

/// The bytes of a text, one for each character. Meant for ASCII text, where
/// these are the bytes that a string is stored as.
pub open spec fn text_bytes(text: Seq<char>) -> Seq<u8> {
    Seq::new(text.len(), |i: int| text[i] as u8)
}

/// A text with every lowercase letter replaced by its uppercase form.
pub open spec fn uppercase(text: Seq<u8>) -> Seq<u8> {
    Seq::new(text.len(), |i: int| ascii_upper(text[i]))
}

/// A text with every uppercase letter replaced by its lowercase form.
pub open spec fn lowercase(text: Seq<u8>) -> Seq<u8> {
    Seq::new(text.len(), |i: int| ascii_lower(text[i]))
}

/// Bit `k` of a byte sequence read as one stream of bits, the most
/// significant bit of the first byte being bit 0. Zero past the end.
pub open spec fn bit_of_bytes(bytes: Seq<u8>, k: int) -> u64 {
    (byte_at(bytes, k / 8) >> ((7 - k % 8) as u64)) & 1
}

/// Bit `k` of a text read as one stream of bits, five to a symbol, the most
/// significant bit of the first symbol's value being bit 0. Zero past the
/// end, and where the text holds a byte that is no symbol.
pub open spec fn bit_of_text(text: Seq<u8>, k: int) -> u64 {
    (value_at(text, k / 5) >> ((4 - k % 5) as u64)) & 1
}

/// The encoding of `n` bytes is read back as `n` bytes.
pub proof fn lemma_decoded_len_of_encoded_len(n: nat)
    ensures
        decoded_len(encoded_len(n)) == n,
{
}

/// Past the end of an encoding, the 5-bit values of its bytes are zero.
proof fn lemma_quintet_past_end(bytes: Seq<u8>, i: int)
    requires
        encoded_len(bytes.len()) <= i,
    ensures
        quintet(bytes, i) == 0,
{
    let blk = i / 8;
    lemma_fill_is_zero(
        byte_at(bytes, 5 * blk),
        byte_at(bytes, 5 * blk + 1),
        byte_at(bytes, 5 * blk + 2),
        byte_at(bytes, 5 * blk + 3),
    );
}

/// The text of an encoding holds, at every index, the symbol of the 5-bit
/// value that the bytes have there, and nothing past its end.
proof fn lemma_value_of_encoded(bytes: Seq<u8>, i: int)
    requires
        0 <= i,
    ensures
        value_at(text_bytes(encoded(bytes)), i) == quintet(bytes, i),
        i < encoded_len(bytes.len()) ==> is_symbol(text_bytes(encoded(bytes))[i]),
{
    if i < encoded_len(bytes.len()) {
        lemma_encoded_symbols(bytes);
        lemma_symbol_value(quintet(bytes, i) as int);
    } else {
        lemma_quintet_past_end(bytes, i);
    }
}

/// The word of a block of an encoding's text is the word of the same block
/// of the bytes.
proof fn lemma_block_of_encoded(bytes: Seq<u8>, blk: int)
    requires
        0 <= blk,
    ensures
        text_block(text_bytes(encoded(bytes)), blk) == byte_block(bytes, blk),
{
    lemma_value_of_encoded(bytes, 8 * blk);
    lemma_value_of_encoded(bytes, 8 * blk + 1);
    lemma_value_of_encoded(bytes, 8 * blk + 2);
    lemma_value_of_encoded(bytes, 8 * blk + 3);
    lemma_value_of_encoded(bytes, 8 * blk + 4);
    lemma_value_of_encoded(bytes, 8 * blk + 5);
    lemma_value_of_encoded(bytes, 8 * blk + 6);
    lemma_value_of_encoded(bytes, 8 * blk + 7);
    lemma_word_of_bytes(
        byte_at(bytes, 5 * blk),
        byte_at(bytes, 5 * blk + 1),
        byte_at(bytes, 5 * blk + 2),
        byte_at(bytes, 5 * blk + 3),
        byte_at(bytes, 5 * blk + 4),
    );
}

/// Round trip: the text that encodes `bytes` is valid, and decodes to `bytes`.
pub proof fn lemma_round_trip(bytes: Seq<u8>)
    ensures
        valid_text(text_bytes(encoded(bytes))),
        decoded(text_bytes(encoded(bytes))) == bytes,
{
    let text = text_bytes(encoded(bytes));
    assert forall|i: int| 0 <= i < text.len() implies is_symbol(#[trigger] text[i]) by {
        lemma_value_of_encoded(bytes, i);
    }
    lemma_decoded_len_of_encoded_len(bytes.len());
    assert forall|k: int| 0 <= k < bytes.len() implies octet(text, k) == bytes[k] by {
        let blk = k / 5;
        lemma_block_of_encoded(bytes, blk);
        lemma_word_of_bytes(
            byte_at(bytes, 5 * blk),
            byte_at(bytes, 5 * blk + 1),
            byte_at(bytes, 5 * blk + 2),
            byte_at(bytes, 5 * blk + 3),
            byte_at(bytes, 5 * blk + 4),
        );
    }
    assert(decoded(text) =~= bytes);
}

/// The bytes that a string holding an encoding is stored as are the bytes of
/// its characters, so what `lemma_round_trip` says of the latter holds of
/// the former.
pub proof fn lemma_encoded_as_bytes(bytes: Seq<u8>)
    ensures
        encode_utf8(encoded(bytes)) == text_bytes(encoded(bytes)),
{
    lemma_encoded_symbols(bytes);
    is_ascii_chars_encode_utf8(encoded(bytes));
    assert(encode_utf8(encoded(bytes)) =~= text_bytes(encoded(bytes)));
}

/// Two texts of one length whose bytes stand, index by index, for the same
/// values are valid together and decode to the same bytes.
proof fn lemma_same_values(a: Seq<u8>, b: Seq<u8>)
    requires
        a.len() == b.len(),
        forall|i: int| 0 <= i < a.len() ==> symbol_value(#[trigger] a[i]) == symbol_value(b[i]),
    ensures
        valid_text(a) == valid_text(b),
        decoded(a) == decoded(b),
{
    if valid_text(a) {
        assert forall|i: int| 0 <= i < b.len() implies is_symbol(#[trigger] b[i]) by {
            assert(is_symbol(a[i]));
        }
    }
    assert forall|i: int| value_at(a, i) == value_at(b, i) by {
        if 0 <= i < a.len() {
            assert(symbol_value(a[i]) == symbol_value(b[i]));
        }
    }
}

/// Case insensitivity of the decoder: changing the case of letters changes
/// neither whether a text is valid nor what it decodes to.
pub proof fn lemma_decoding_ignores_case(text: Seq<u8>)
    ensures
        valid_text(uppercase(text)) == valid_text(text),
        valid_text(lowercase(text)) == valid_text(text),
        decoded(uppercase(text)) == decoded(text),
        decoded(lowercase(text)) == decoded(text),
{
    assert forall|i: int| 0 <= i < text.len() implies symbol_value(#[trigger] text[i])
        == symbol_value(uppercase(text)[i]) && symbol_value(text[i]) == symbol_value(
        lowercase(text)[i],
    ) by {
        lemma_symbol_value_ignores_case(text[i]);
    }
    lemma_same_values(text, uppercase(text));
    lemma_same_values(text, lowercase(text));
}

/// Round trip in either case: the text that encodes `bytes` decodes to
/// `bytes` when its letters are made uppercase, and when they are made
/// lowercase.
pub proof fn lemma_round_trip_any_case(bytes: Seq<u8>)
    ensures
        valid_text(uppercase(text_bytes(encoded(bytes)))),
        decoded(uppercase(text_bytes(encoded(bytes)))) == bytes,
        valid_text(lowercase(text_bytes(encoded(bytes)))),
        decoded(lowercase(text_bytes(encoded(bytes)))) == bytes,
{
    lemma_round_trip(bytes);
    lemma_decoding_ignores_case(text_bytes(encoded(bytes)));
}

/// Encoding keeps the stream of bits: bit for bit, the text of an encoding
/// holds the bits of the bytes, and zero bits after them.
pub proof fn lemma_encoding_keeps_bits(bytes: Seq<u8>, k: int)
    requires
        0 <= k,
    ensures
        bit_of_text(text_bytes(encoded(bytes)), k) == bit_of_bytes(bytes, k),
{
    let blk = k / 40;
    let o = (k % 40) as u64;
    let word = byte_block(bytes, blk);
    lemma_value_of_encoded(bytes, k / 5);
    lemma_word_of_bytes(
        byte_at(bytes, 5 * blk),
        byte_at(bytes, 5 * blk + 1),
        byte_at(bytes, 5 * blk + 2),
        byte_at(bytes, 5 * blk + 3),
        byte_at(bytes, 5 * blk + 4),
    );
    lemma_word_bit(word, o);
}

/// Decoding keeps the stream of bits: bit for bit, the bytes of a decoding
/// hold the bits of the text, and zero bits where the text has ended.
pub proof fn lemma_decoding_keeps_bits(text: Seq<u8>, k: int)
    requires
        0 <= k < 8 * decoded_len(text.len()),
    ensures
        bit_of_bytes(decoded(text), k) == bit_of_text(text, k),
{
    let blk = k / 40;
    let o = (k % 40) as u64;
    let word = text_block(text, blk);
    lemma_word_of_values(
        value_at(text, 8 * blk),
        value_at(text, 8 * blk + 1),
        value_at(text, 8 * blk + 2),
        value_at(text, 8 * blk + 3),
        value_at(text, 8 * blk + 4),
        value_at(text, 8 * blk + 5),
        value_at(text, 8 * blk + 6),
        value_at(text, 8 * blk + 7),
    );
    lemma_word_bounds(word);
    lemma_word_bit(word, o);
}

} // verus!
