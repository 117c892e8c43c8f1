//! Text to bytes.

use vstd::prelude::*;
use crate::alphabet::{is_symbol, symbol_value, value_of};
use crate::blocks::{
    bytes_for, decoded, decoded_len, lemma_decoded_len, lemma_pack_values_step,
    lemma_word_bounds, octet, text_block, valid_text, value_at,
};

verus! {

/// Why a text could not be decoded.
#[derive(Debug, Clone, Copy, PartialEq, Eq, Structural)]
pub enum DecodeError {
    /// The byte `character` at index `position` is no symbol of the alphabet.
    InvalidCharacter { position: usize, character: u8 },
}

/// Whether `position` is the index of the first byte of `text` that is no
/// symbol of the alphabet.
pub open spec fn first_invalid_at(text: Seq<u8>, position: int) -> bool {
    &&& 0 <= position < text.len()
    &&& !is_symbol(text[position])
    &&& forall|j: int| 0 <= j < position ==> is_symbol(#[trigger] text[j])
}

/// The number of bytes to write for a block that holds `count` symbols.
fn bytes_in_block(count: usize) -> (r: usize)
    requires
        1 <= count <= 8,
    ensures
        r == bytes_for(count as int),
{
    match count {
        1 => 0,
        2 => 1,
        3 => 2,
        4 => 2,
        5 => 3,
        6 => 4,
        7 => 4,
        _ => 5,
    }
}

/// Placing the value of symbol `i` into the word of the symbols before it
/// gives the word of the symbols up to and including it.
proof fn lemma_accumulate_value(text: Seq<u8>, i: int, v: u8, shift: u64)
    requires
        0 <= i < text.len(),
        symbol_value(text[i]) == Some(v),
        shift == 35 - 5 * (i % 8),
    ensures
        text_block(text.take(i), i / 8) | ((v as u64) << shift) == text_block(
            text.take(i + 1),
            i / 8,
        ),
{
    let blk = i / 8;
    let before = text.take(i);
    let after = text.take(i + 1);
    assert forall|j: int| value_at(after, j) == (if j == i {
        v as u64
    } else {
        value_at(before, j)
    }) by {}
    lemma_pack_values_step(
        value_at(before, 8 * blk),
        value_at(before, 8 * blk + 1),
        value_at(before, 8 * blk + 2),
        value_at(before, 8 * blk + 3),
        value_at(before, 8 * blk + 4),
        value_at(before, 8 * blk + 5),
        value_at(before, 8 * blk + 6),
        v as u64,
    );
}

/// Once a block is complete, or the input has ended, the word of the symbols
/// read so far is the word of the block.
proof fn lemma_block_complete(text: Seq<u8>, i: int)
    requires
        0 <= i < text.len(),
        i % 8 == 7 || i + 1 == text.len(),
    ensures
        text_block(text.take(i + 1), i / 8) == text_block(text, i / 8),
{
}

/// Reads Base32 text back into bytes. Letters count in either case; padding
/// characters are not part of the alphabet.
///
/// The first byte of `b` that is no symbol of the alphabet ends the decoding
/// with `InvalidCharacter`, and nothing of what was read before it is
/// returned.
///
/// No length is rejected. An encoding ends in a block of 0, 2, 4, 5 or 7
/// symbols. A text that ends otherwise is read by the same rule: a final
/// block of 1 symbol gives no byte, one of 3 symbols two bytes and one of 6
/// symbols four, the last of them filled up with zero bits.
pub fn decode(b: &[u8]) -> (r: Result<Vec<u8>, DecodeError>)
    ensures
        r is Ok <==> valid_text(b@),
        r matches Ok(bytes) ==> bytes@ == decoded(b@),
        r matches Ok(bytes) ==> bytes@.len() == decoded_len(b@.len()),
        r matches Ok(bytes) ==> (b@.len() % 8 != 3 && b@.len() % 8 != 6 ==> bytes@.len() == 5
            * b@.len() / 8),
        r matches Err(e) ==> first_invalid_at(b@, e->position as int),
        r matches Err(e) ==> e->character == b@[e->position as int],
{
    let mut out: Vec<u8> = Vec::new();
    let mut n: u64 = 0;
    let len = b.len();
    let mut i: usize = 0;
    proof {
        lemma_pack_values_step(0, 0, 0, 0, 0, 0, 0, 0);
    }
    while i < len
        invariant
            len == b@.len(),
            i <= len,
            forall|j: int| 0 <= j < i ==> is_symbol(#[trigger] b@[j]),
            i < len ==> n == text_block(b@.take(i as int), i as int / 8),
            out@.len() == (if i == len {
                decoded_len(len as nat) as int
            } else {
                5 * (i as int / 8)
            }),
            forall|k: int| 0 <= k < out@.len() ==> out@[k] == octet(b@, k),
        decreases len - i,
    {
        let c = b[i];
        let v = match value_of(c) {
            Some(v) => v,
            None => {
                return Err(DecodeError::InvalidCharacter { position: i, character: c });
            },
        };
        // The value's place in the block word: bits 35 to 39 for the first
        // symbol of a block, bits 0 to 4 for the eighth.
        let pos = i % 8;
        let shift: u64 = 35 - 5 * (pos as u64);
        proof {
            lemma_accumulate_value(b@, i as int, v, shift);
        }
        n = n | ((v as u64) << shift);
        // The block is written out when it is full or the input ends.
        if shift == 0 || i == len - 1 {
            proof {
                lemma_block_complete(b@, i as int);
            }
            let count = bytes_in_block(pos + 1);
            let ghost blk = i as int / 8;
            let mut t: usize = 0;
            while t < count
                invariant
                    t <= count <= 5,
                    blk == i as int / 8,
                    n == text_block(b@, blk),
                    out@.len() == 5 * blk + t,
                    forall|k: int| 0 <= k < out@.len() ==> out@[k] == octet(b@, k),
                decreases count - t,
            {
                let down: u64 = 32 - 8 * (t as u64);
                let byte = (n >> down) & 255;
                proof {
                    lemma_word_bounds(n);
                }
                out.push(byte as u8);
                t = t + 1;
            }
            n = 0;
            proof {
                lemma_pack_values_step(0, 0, 0, 0, 0, 0, 0, 0);
            }
        }
        i = i + 1;
    }
    proof {
        lemma_decoded_len(len as nat);
    }
    Ok(out)
}

} // verus!
