//! Borsh calldata: the words after the opcode are flattened into little-endian bytes,
//! which borsh reads from the front. The final word may carry zero padding, so a
//! reader must tolerate trailing bytes.
use vstd::prelude::*;
use crate::bytes;
use crate::bytes::flatten_words;

verus! {

pub fn words_to_bytes(words: &[u128]) -> (r: Vec<u8>)
    ensures
        r@ == bytes::words_bytes(words@),
        r@.len() == 16 * words@.len(),
{
    proof {
        bytes::lemma_words_bytes_len(words@);
    }
    flatten_words(words)
}

/// The end of the chunk of 16 bytes that begins at `16 * i`.
pub open spec fn chunk_end(b: Seq<u8>, i: int) -> int {
    if 16 * i + 16 <= b.len() { 16 * i + 16 } else { b.len() as int }
}

/// Whether words hold bytes in chunks of 16, little-endian, the last one filled up
/// with zeros.
pub open spec fn packs(words: Seq<u128>, b: Seq<u8>) -> bool {
    &&& words.len() == (b.len() + 15) / 16
    &&& forall|i: int| 0 <= i < words.len() ==> #[trigger] words[i] == bytes::le_num(b.subrange(16 * i, chunk_end(b, i)))
}

/// Bytes that were packed into words stand at the beginning of the words' bytes.
pub proof fn lemma_packed(words: Seq<u128>, b: Seq<u8>)
    requires
        packs(words, b),
    ensures
        bytes::words_bytes(words).len() >= b.len(),
        bytes::words_bytes(words).take(b.len() as int) == b,
{
    bytes::lemma_words_bytes_len(words);
    let all = bytes::words_bytes(words);
    assert forall|k: int| 0 <= k < b.len() implies all[k] == b[k] by {
        let i = k / 16;
        let j = k % 16;
        let chunk = b.subrange(16 * i, chunk_end(b, i));
        assert(0 <= i < words.len());
        assert(words[i] == bytes::le_num(chunk));
        bytes::lemma_words_bytes_at(words, i);
        bytes::lemma_le_num_round_trip(chunk);
        bytes::lemma_le_bytes_take(words[i] as int, 16, chunk.len());
        bytes::lemma_le_bytes_len(words[i] as int, 16);
        let w = bytes::le_bytes(words[i] as int, 16);
        bytes::lemma_le_num_round_trip(all.subrange(16 * i, 16 * i + 16));
        assert(all.subrange(16 * i, 16 * i + 16) == w);
        assert(all[k] == all.subrange(16 * i, 16 * i + 16)[j]);
        assert(w.take(chunk.len() as int) == chunk);
        assert(w[j] == w.take(chunk.len() as int)[j]);
        assert(chunk[j] == b[k]);
    }
    assert(all.take(b.len() as int) =~= b);
}

/// Words are what their own bytes are packed into: fields of 16 bytes each, written by
/// borsh and packed, are the legacy words.
pub proof fn lemma_words_pack(words: Seq<u128>)
    ensures
        packs(words, bytes::words_bytes(words)),
{
    bytes::lemma_words_bytes_len(words);
    let b = bytes::words_bytes(words);
    assert forall|i: int| 0 <= i < words.len() implies #[trigger] words[i] == bytes::le_num(
        b.subrange(16 * i, chunk_end(b, i)),
    ) by {
        bytes::lemma_words_bytes_at(words, i);
    }
}

} // verus!
