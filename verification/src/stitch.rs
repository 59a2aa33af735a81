//! Accumulation of counts across sequential chunks of one logical input.

use vstd::prelude::*;
use crate::count::{
    count_bytes_blazing_speed, in_word_after, is_word_byte, lemma_carry_adjustment,
    lemma_count_concat, lemma_counts_le_len, line_count, word_count,
};
use crate::counts::WcCounts;

verus! {

/// Combines the counts of consecutive chunks of one input into one record,
/// correcting for words that straddle a chunk boundary.
///
/// Feeding it chunks c1, c2, ... leaves it holding exactly the counts of the
/// single buffer c1 + c2 + ...: chunking is invisible in the totals.
pub struct ChunkStitcher {
    total: WcCounts,
    in_word: bool,
    processed: Ghost<Seq<u8>>,
}

impl ChunkStitcher {
    /// The bytes fed so far, chunk after chunk.
    pub closed spec fn processed(self) -> Seq<u8> {
        self.processed@
    }

    /// The stitcher's totals are exactly the counts of the bytes fed so far,
    /// counted as one buffer with no byte preceding it.
    pub closed spec fn wf(self) -> bool {
        &&& self.total.lines == line_count(self.processed@)
        &&& self.total.words == word_count(self.processed@, false)
        &&& self.total.chars == self.processed@.len()
        &&& self.in_word == in_word_after(self.processed@, false)
    }

    /// A stitcher that has seen no bytes: zero counts, outside a word.
    pub fn new() -> (r: ChunkStitcher)
        ensures
            r.wf(),
            r.processed() == Seq::<u8>::empty(),
    {
        ChunkStitcher { total: WcCounts::zero(), in_word: false, processed: Ghost(Seq::empty()) }
    }

    /// How many bytes have been fed so far.
    pub fn bytes_seen(&self) -> (r: usize)
        requires
            self.wf(),
        ensures
            r == self.processed().len(),
    {
        self.total.chars
    }

    /// Feed the next chunk. The chunk is counted on its own, one word is
    /// subtracted when the previous chunk ended inside a word and this chunk
    /// begins inside the same word, and the corrected counts are added to
    /// the running totals. An empty chunk changes nothing, the boundary
    /// state included.
    pub fn push_chunk(&mut self, chunk: &[u8])
        requires
            old(self).wf(),
            old(self).processed().len() + chunk@.len() <= usize::MAX,
        ensures
            final(self).wf(),
            final(self).processed() == old(self).processed() + chunk@,
    {
        let mut chunk_counts = count_bytes_blazing_speed(chunk);
        proof {
            lemma_count_concat(self.processed@, chunk@, false);
            lemma_carry_adjustment(chunk@);
            lemma_counts_le_len(self.processed@, false);
            lemma_counts_le_len(chunk@, false);
        }
        if chunk.len() > 0 {
            let first_is_word = chunk[0] > 0x20;
            if self.in_word && first_is_word {
                chunk_counts.words = chunk_counts.words - 1;
            }
            let last_is_word = chunk[chunk.len() - 1] > 0x20;
            self.in_word = last_is_word;
            proof {
                assert(chunk@.last() == chunk@[chunk@.len() - 1]);
            }
        }
        self.total.add(&chunk_counts);
        proof {
            self.processed@ = self.processed@ + chunk@;
        }
    }

    /// The totals of everything fed so far.
    pub fn counts(&self) -> (r: WcCounts)
        requires
            self.wf(),
        ensures
            r.lines == line_count(self.processed()),
            r.words == word_count(self.processed(), false),
            r.chars == self.processed().len(),
    {
        self.total
    }
}

} // verus!
