//! The counting core: the byte-level meaning of lines, words, and bytes,
//! the verified scanner, and the chunk-invariance laws.

use vstd::prelude::*;
use crate::counts::WcCounts;

verus! {

/// A byte belongs to a word exactly when its value is above the space
/// character; every byte at or below 0x20 is whitespace.
pub open spec fn is_word_byte(b: u8) -> bool {
    b > 0x20
}

/// The number of 0x0A bytes in `s`.
pub open spec fn line_count(s: Seq<u8>) -> nat
    decreases s.len(),
{
    if s.len() == 0 {
        0
    } else {
        (line_count(s.drop_last()) + if s.last() == 0x0au8 {
            1nat
        } else {
            0nat
        }) as nat
    }
}

/// The word-boundary state after scanning `s`, starting from `carry`
/// (whether the byte just before `s` belonged to a word). An empty buffer
/// leaves the state untouched; otherwise the state is the class of the last
/// byte.
pub open spec fn in_word_after(s: Seq<u8>, carry: bool) -> bool
    decreases s.len(),
{
    if s.len() == 0 {
        carry
    } else {
        is_word_byte(s.last())
    }
}

/// The number of words begun inside `s` when the byte just before `s` had
/// class `carry`: a word is begun at each whitespace-to-word transition.
pub open spec fn word_count(s: Seq<u8>, carry: bool) -> nat
    decreases s.len(),
{
    if s.len() == 0 {
        0
    } else {
        (word_count(s.drop_last(), carry) + if is_word_byte(s.last()) && !in_word_after(
            s.drop_last(),
            carry,
        ) {
            1nat
        } else {
            0nat
        }) as nat
    }
}

/// No field of a count can exceed the byte length of what was counted.
pub proof fn lemma_counts_le_len(s: Seq<u8>, carry: bool)
    ensures
        line_count(s) <= s.len(),
        word_count(s, carry) <= s.len(),
    decreases s.len(),
{
    if s.len() > 0 {
        lemma_counts_le_len(s.drop_last(), carry);
    }
}

/// Counting distributes over concatenation: lines and bytes add up, and
/// words add up once the word-boundary state is carried from the first part
/// into the second. This is the two-chunk form of chunk invariance.
pub proof fn lemma_count_concat(a: Seq<u8>, b: Seq<u8>, carry: bool)
    ensures
        line_count(a + b) == line_count(a) + line_count(b),
        word_count(a + b, carry) == word_count(a, carry) + word_count(b, in_word_after(a, carry)),
        in_word_after(a + b, carry) == in_word_after(b, in_word_after(a, carry)),
    decreases b.len(),
{
    if b.len() == 0 {
        assert(a + b =~= a);
    } else {
        lemma_count_concat(a, b.drop_last(), carry);
        assert((a + b).drop_last() =~= a + b.drop_last());
        assert((a + b).last() == b.last());
    }
}

/// Starting a buffer inside a word cancels exactly the one word that a
/// carry-free count charges for a leading word byte, and changes nothing
/// else: the correction the chunk stitcher applies at a chunk boundary.
pub proof fn lemma_carry_adjustment(s: Seq<u8>)
    ensures
        s.len() > 0 && is_word_byte(s[0]) ==> word_count(s, false) == word_count(s, true) + 1,
        !(s.len() > 0 && is_word_byte(s[0])) ==> word_count(s, false) == word_count(s, true),
        s.len() > 0 ==> in_word_after(s, false) == in_word_after(s, true),
    decreases s.len(),
{
    if s.len() > 0 {
        lemma_carry_adjustment(s.drop_last());
        if s.len() > 1 {
            assert(s.drop_last()[0] == s[0]);
        }
    }
}

/// A buffer of whitespace alone contains no word.
pub proof fn lemma_whitespace_no_words(s: Seq<u8>, carry: bool)
    requires
        forall|i: int| 0 <= i < s.len() ==> !is_word_byte(s[i]),
    ensures
        word_count(s, carry) == 0,
    decreases s.len(),
{
    if s.len() > 0 {
        assert(!is_word_byte(s.last()));
        lemma_whitespace_no_words(s.drop_last(), carry);
    }
}

/// The bytes of a list of chunks, laid end to end.
pub open spec fn flatten_chunks(chunks: Seq<Seq<u8>>) -> Seq<u8>
    decreases chunks.len(),
{
    if chunks.len() == 0 {
        Seq::empty()
    } else {
        chunks.first() + flatten_chunks(chunks.drop_first())
    }
}

/// The line total obtained by counting chunk after chunk: plain addition.
pub open spec fn stitched_lines(chunks: Seq<Seq<u8>>) -> nat
    decreases chunks.len(),
{
    if chunks.len() == 0 {
        0
    } else {
        (line_count(chunks.first()) + stitched_lines(chunks.drop_first())) as nat
    }
}

/// The byte total obtained by counting chunk after chunk: plain addition.
pub open spec fn stitched_chars(chunks: Seq<Seq<u8>>) -> nat
    decreases chunks.len(),
{
    if chunks.len() == 0 {
        0
    } else {
        (chunks.first().len() + stitched_chars(chunks.drop_first())) as nat
    }
}

/// The word total obtained by counting chunk after chunk, threading the
/// word-boundary state out of each chunk into the next.
pub open spec fn stitched_words(chunks: Seq<Seq<u8>>, carry: bool) -> nat
    decreases chunks.len(),
{
    if chunks.len() == 0 {
        0
    } else {
        (word_count(chunks.first(), carry) + stitched_words(
            chunks.drop_first(),
            in_word_after(chunks.first(), carry),
        )) as nat
    }
}

/// The word-boundary state after counting chunk after chunk.
pub open spec fn stitched_carry(chunks: Seq<Seq<u8>>, carry: bool) -> bool
    decreases chunks.len(),
{
    if chunks.len() == 0 {
        carry
    } else {
        stitched_carry(chunks.drop_first(), in_word_after(chunks.first(), carry))
    }
}

/// Chunk invariance: however a buffer is partitioned into consecutive
/// chunks, counting the chunks one after another with the word-boundary
/// state carried across equals counting the whole buffer at once, in all
/// three fields.
pub proof fn lemma_chunk_invariance(chunks: Seq<Seq<u8>>, carry: bool)
    ensures
        stitched_lines(chunks) == line_count(flatten_chunks(chunks)),
        stitched_words(chunks, carry) == word_count(flatten_chunks(chunks), carry),
        stitched_chars(chunks) == flatten_chunks(chunks).len(),
        stitched_carry(chunks, carry) == in_word_after(flatten_chunks(chunks), carry),
    decreases chunks.len(),
{
    if chunks.len() > 0 {
        lemma_chunk_invariance(chunks.drop_first(), in_word_after(chunks.first(), carry));
        lemma_count_concat(chunks.first(), flatten_chunks(chunks.drop_first()), carry);
    }
}

/// One pass over a buffer, continuing from the word-boundary state `carry_in`
/// left by an earlier chunk of the same input. Returns the counts of this
/// buffer and the state to hand to the next chunk.
pub fn count_bytes_with_carry(data: &[u8], carry_in: bool) -> (r: (WcCounts, bool))
    ensures
        r.0.lines == line_count(data@),
        r.0.words == word_count(data@, carry_in),
        r.0.chars == data@.len(),
        r.1 == in_word_after(data@, carry_in),
{
    let len: usize = data.len();
    let mut lines: usize = 0;
    let mut words: usize = 0;
    let mut in_word: bool = carry_in;
    let mut i: usize = 0;
    while i < len
        invariant
            0 <= i <= len,
            len == data@.len(),
            lines == line_count(data@.take(i as int)),
            words == word_count(data@.take(i as int), carry_in),
            in_word == in_word_after(data@.take(i as int), carry_in),
            lines <= i,
            words <= i,
        decreases len - i,
    {
        let b = data[i];
        proof {
            assert(data@.take(i + 1).drop_last() =~= data@.take(i as int));
            assert(data@.take(i + 1).last() == data@[i as int]);
        }
        if b == 0x0au8 {
            lines = lines + 1;
        }
        if b > 0x20u8 {
            if !in_word {
                words = words + 1;
                in_word = true;
            }
        } else {
            in_word = false;
        }
        i = i + 1;
    }
    proof {
        assert(data@.take(len as int) =~= data@);
    }
    (WcCounts { lines, words, chars: len }, in_word)
}

/// Count a buffer that stands on its own: no byte precedes it, so the scan
/// starts outside a word.
pub fn count_bytes_blazing_speed(data: &[u8]) -> (r: WcCounts)
    ensures
        r.lines == line_count(data@),
        r.words == word_count(data@, false),
        r.chars == data@.len(),
{
    let (counts, _) = count_bytes_with_carry(data, false);
    counts
}

} // verus!
