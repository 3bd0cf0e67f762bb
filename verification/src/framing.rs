//! Little-endian framing of stored sequences.
//!
//! A stored sequence is a flat stream of bytes: each 64-bit word, eight bytes
//! at a time, least significant byte first. Unframing reads the stream back
//! one full group of eight at a time and drops trailing bytes short of a
//! group, which is how a stored file is read.

use vstd::bytes::lemma_auto_spec_u64_to_from_le_bytes;
use vstd::bytes::spec_u64_from_le_bytes;
use vstd::bytes::spec_u64_to_le_bytes;
use vstd::bytes::u64_from_le_bytes;
use vstd::bytes::u64_to_le_bytes;
use vstd::prelude::*;
use vstd::slice::slice_subrange;

verus! {

/// The byte stream that frames the words: eight bytes per word, in order,
/// each word least significant byte first.
pub open spec fn words_as_le_bytes(ws: Seq<u64>) -> Seq<u8> {
    Seq::new(ws.len() * 8, |i: int| spec_u64_to_le_bytes(ws[i / 8])[i % 8])
}

/// The words framed in a byte stream: one word per full group of eight
/// bytes; trailing bytes short of a group are dropped.
pub open spec fn le_bytes_as_words(bs: Seq<u8>) -> Seq<u64> {
    Seq::new(bs.len() / 8, |i: int| spec_u64_from_le_bytes(bs.subrange(8 * i, 8 * i + 8)))
}

/// Frame the words as a byte stream.
pub fn words_to_le_bytes(words: &Vec<u64>) -> (r: Vec<u8>)
    ensures
        r@ == words_as_le_bytes(words@),
{
    let mut r: Vec<u8> = Vec::new();
    let mut k: usize = 0;
    while k < words.len()
        invariant
            k <= words@.len(),
            r@ == words_as_le_bytes(words@.take(k as int)),
        decreases words@.len() - k,
    {
        let mut group = u64_to_le_bytes(words[k]);
        proof {
            lemma_auto_spec_u64_to_from_le_bytes();
            assert(words_as_le_bytes(words@.take(k as int + 1)) =~= words_as_le_bytes(
                words@.take(k as int),
            ) + spec_u64_to_le_bytes(words@[k as int]));
        }
        r.append(&mut group);
        k = k + 1;
    }
    proof {
        assert(words@.take(words@.len() as int) =~= words@);
    }
    r
}

/// Unframe a byte stream into its words, dropping trailing bytes short of a
/// full group of eight.
pub fn le_bytes_to_words(bytes: &Vec<u8>) -> (r: Vec<u64>)
    ensures
        r@ == le_bytes_as_words(bytes@),
{
    let mut r: Vec<u64> = Vec::new();
    let mut off: usize = 0;
    while bytes.len() - off >= 8
        invariant
            off <= bytes@.len(),
            off == r@.len() * 8,
            forall|i: int|
                0 <= i < r@.len() ==> r@[i] == spec_u64_from_le_bytes(
                    bytes@.subrange(8 * i, 8 * i + 8),
                ),
        decreases bytes@.len() - off,
    {
        let group = slice_subrange(bytes.as_slice(), off, off + 8);
        r.push(u64_from_le_bytes(group));
        off = off + 8;
    }
    proof {
        assert(r@.len() == bytes@.len() / 8);
        assert(r@ =~= le_bytes_as_words(bytes@));
    }
    r
}

/// Framing a sequence of words and unframing the stream recovers the words
/// exactly.
pub proof fn lemma_frame_then_unframe(ws: Seq<u64>)
    ensures
        le_bytes_as_words(words_as_le_bytes(ws)) == ws,
{
    lemma_auto_spec_u64_to_from_le_bytes();
    let bs = words_as_le_bytes(ws);
    assert(bs.len() / 8 == ws.len());
    assert forall|i: int| 0 <= i < ws.len() implies le_bytes_as_words(bs)[i] == ws[i] by {
        assert(bs.subrange(8 * i, 8 * i + 8) =~= spec_u64_to_le_bytes(ws[i]));
    }
    assert(le_bytes_as_words(bs) =~= ws);
}

/// Unframing a byte stream and framing the words again recovers the stream
/// up to its last full group of eight: only trailing bytes short of a group
/// are lost.
pub proof fn lemma_unframe_then_frame(bs: Seq<u8>)
    ensures
        words_as_le_bytes(le_bytes_as_words(bs)) == bs.take(((bs.len() / 8) * 8) as int),
{
    lemma_auto_spec_u64_to_from_le_bytes();
    let ws = le_bytes_as_words(bs);
    assert forall|i: int| 0 <= i < ws.len() * 8 implies words_as_le_bytes(ws)[i] == bs[i] by {
        let k = i / 8;
        assert(ws[k] == spec_u64_from_le_bytes(bs.subrange(8 * k, 8 * k + 8)));
        assert(spec_u64_to_le_bytes(ws[k]) =~= bs.subrange(8 * k, 8 * k + 8));
        assert(words_as_le_bytes(ws)[i] == bs.subrange(8 * k, 8 * k + 8)[i % 8]);
        assert(bs.subrange(8 * k, 8 * k + 8)[i % 8] == bs[8 * k + i % 8]);
        assert(8 * k + i % 8 == i);
    }
    assert(words_as_le_bytes(ws) =~= bs.take(((bs.len() / 8) * 8) as int));
}

} // verus!
