//! Bytes to text.

use vstd::prelude::*;
use vstd::string::*;
use crate::alphabet::{push_symbol, symbol};
use crate::blocks::{
    byte_at, byte_block, encoded, encoded_len, lemma_encoded_len, lemma_encoded_symbols,
    lemma_pack_bytes_step, lemma_word_bounds, quintet, symbols_for,
};

verus! {

/// The number of symbols to write for a block that holds `count` bytes.
fn symbols_in_block(count: usize) -> (r: usize)
    requires
        1 <= count <= 5,
    ensures
        r == symbols_for(count as int),
{
    match count {
        1 => 2,
        2 => 4,
        3 => 5,
        4 => 7,
        _ => 8,
    }
}

/// Placing byte `i` into the word of the bytes before it gives the word of
/// the bytes up to and including it.
proof fn lemma_accumulate_byte(bytes: Seq<u8>, i: int, shift: u64)
    requires
        0 <= i < bytes.len(),
        shift == 8 * (4 - i % 5),
    ensures
        byte_block(bytes.take(i), i / 5) | ((bytes[i] as u64) << shift) == byte_block(
            bytes.take(i + 1),
            i / 5,
        ),
{
    let blk = i / 5;
    let before = bytes.take(i);
    let after = bytes.take(i + 1);
    assert forall|j: int| byte_at(after, j) == (if j == i {
        bytes[i] as u64
    } else {
        byte_at(before, j)
    }) by {}
    lemma_pack_bytes_step(
        byte_at(before, 5 * blk),
        byte_at(before, 5 * blk + 1),
        byte_at(before, 5 * blk + 2),
        byte_at(before, 5 * blk + 3),
        bytes[i] as u64,
    );
}

/// Once a block is complete, or the input has ended, the word of the bytes
/// read so far is the word of the block.
proof fn lemma_block_complete(bytes: Seq<u8>, i: int)
    requires
        0 <= i < bytes.len(),
        i % 5 == 4 || i + 1 == bytes.len(),
    ensures
        byte_block(bytes.take(i + 1), i / 5) == byte_block(bytes, i / 5),
{
}

/// Writes `b` as Base32 text: one lowercase symbol for every five bits, the
/// most significant first, the last symbol filled up with zero bits. No
/// padding is written, and every byte sequence has an encoding.
pub fn encode(b: &[u8]) -> (s: String)
    ensures
        s@ == encoded(b@),
        s@.len() == (8 * b@.len() + 4) / 5,
        s.is_ascii(),
{
    let mut out = String::new();
    let mut n: u64 = 0;
    let len = b.len();
    let mut i: usize = 0;
    proof {
        lemma_pack_bytes_step(0, 0, 0, 0, 0);
    }
    while i < len
        invariant
            len == b@.len(),
            i <= len,
            i < len ==> n == byte_block(b@.take(i as int), i as int / 5),
            out@.len() == (if i == len {
                encoded_len(len as nat) as int
            } else {
                8 * (i as int / 5)
            }),
            forall|p: int| 0 <= p < out@.len() ==> out@[p] == symbol(quintet(b@, p) as int),
        decreases len - i,
    {
        // The byte's place in the block word: bits 32 to 39 for the first
        // byte of a block, bits 0 to 7 for the fifth.
        let pos = i % 5;
        let shift: u64 = 8 * (4 - pos as u64);
        proof {
            lemma_accumulate_byte(b@, i as int, shift);
        }
        n = n | ((b[i] as u64) << shift);
        // The block is written out when it is full or the input ends.
        if shift == 0 || i == len - 1 {
            proof {
                lemma_block_complete(b@, i as int);
            }
            let count = symbols_in_block(pos + 1);
            let ghost blk = i as int / 5;
            let mut g: usize = 0;
            while g < count
                invariant
                    g <= count <= 8,
                    blk == i as int / 5,
                    n == byte_block(b@, blk),
                    out@.len() == 8 * blk + g,
                    forall|p: int| 0 <= p < out@.len() ==> out@[p] == symbol(quintet(b@, p) as int),
                decreases count - g,
            {
                let down: u64 = 35 - 5 * (g as u64);
                let v = (n >> down) & 31;
                proof {
                    lemma_word_bounds(n);
                }
                push_symbol(&mut out, v as usize);
                g = g + 1;
            }
            n = 0;
            proof {
                lemma_pack_bytes_step(0, 0, 0, 0, 0);
            }
        }
        i = i + 1;
    }
    proof {
        lemma_encoded_len(len as nat);
        lemma_encoded_symbols(b@);
    }
    out
}

} // verus!
