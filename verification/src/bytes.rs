//! Words as the bytes that lie in memory.

use vstd::prelude::*;

verus! {

/// The four bytes of `w`, lowest first.
pub open spec fn word_le(w: u32) -> Seq<u8> {
    seq![
        (w & 0xff) as u8,
        ((w >> 8) & 0xff) as u8,
        ((w >> 16) & 0xff) as u8,
        ((w >> 24) & 0xff) as u8,
    ]
}

/// The four bytes of `w`, highest first.
pub open spec fn word_be(w: u32) -> Seq<u8> {
    seq![
        ((w >> 24) & 0xff) as u8,
        ((w >> 16) & 0xff) as u8,
        ((w >> 8) & 0xff) as u8,
        (w & 0xff) as u8,
    ]
}

/// The bytes of each word of `ws` in turn, lowest first.
pub open spec fn words_le(ws: Seq<u32>) -> Seq<u8>
    decreases ws.len(),
{
    if ws.len() == 0 {
        Seq::empty()
    } else {
        words_le(ws.drop_last()) + word_le(ws.last())
    }
}

/// The bytes of each word of `ws` in turn, highest first.
pub open spec fn words_be(ws: Seq<u32>) -> Seq<u8>
    decreases ws.len(),
{
    if ws.len() == 0 {
        Seq::empty()
    } else {
        words_be(ws.drop_last()) + word_be(ws.last())
    }
}

/// The memory of `words` as bytes, by `bytemuck::cast_slice`.
///
/// Believed of `cast_slice` from 32-bit words to bytes: it does not fail (a
/// byte has no alignment to miss and divides every length), it yields four
/// bytes for each word, and these are the bytes of the words as this machine
/// lays them out, which is lowest first or highest first.
#[verifier::external_body]
pub(crate) fn words_to_bytes(words: &Vec<u32>) -> (bytes: Vec<u8>)
    ensures
        bytes@.len() == 4 * words@.len(),
        bytes@ == words_le(words@) || bytes@ == words_be(words@),
{
    bytemuck::cast_slice::<u32, u8>(words.as_slice()).to_vec()
}

} // verus!
