//! The record of totals for one input, and field-wise aggregation.

use vstd::prelude::*;

verus! {

/// Line, word, and byte totals for one input source.
///
/// `chars` is the raw byte length of the input (no multi-byte decoding is
/// done anywhere in this crate).
#[derive(Clone, Copy, Debug, PartialEq, Eq, Structural)]
pub struct WcCounts {
    pub lines: usize,
    pub words: usize,
    pub chars: usize,
}

impl WcCounts {
    /// The all-zero record, the count of an empty input.
    pub open spec fn spec_zero() -> WcCounts {
        WcCounts { lines: 0, words: 0, chars: 0 }
    }

    pub fn zero() -> (r: WcCounts)
        ensures
            r == WcCounts::spec_zero(),
    {
        WcCounts { lines: 0, words: 0, chars: 0 }
    }

    /// Field-wise accumulation of another record into this one.
    pub fn add(&mut self, other: &WcCounts)
        requires
            old(self).lines + other.lines <= usize::MAX,
            old(self).words + other.words <= usize::MAX,
            old(self).chars + other.chars <= usize::MAX,
        ensures
            final(self).lines == old(self).lines + other.lines,
            final(self).words == old(self).words + other.words,
            final(self).chars == old(self).chars + other.chars,
    {
        self.lines = self.lines + other.lines;
        self.words = self.words + other.words;
        self.chars = self.chars + other.chars;
    }
}

impl Default for WcCounts {
    fn default() -> (r: Self)
        ensures
            r == WcCounts::spec_zero(),
    {
        WcCounts { lines: 0, words: 0, chars: 0 }
    }
}

/// Sum of the `lines` fields of a sequence of records.
pub open spec fn sum_lines(s: Seq<WcCounts>) -> nat
    decreases s.len(),
{
    if s.len() == 0 {
        0
    } else {
        (sum_lines(s.drop_last()) + s.last().lines) as nat
    }
}

/// Sum of the `words` fields of a sequence of records.
pub open spec fn sum_words(s: Seq<WcCounts>) -> nat
    decreases s.len(),
{
    if s.len() == 0 {
        0
    } else {
        (sum_words(s.drop_last()) + s.last().words) as nat
    }
}

/// Sum of the `chars` fields of a sequence of records.
pub open spec fn sum_chars(s: Seq<WcCounts>) -> nat
    decreases s.len(),
{
    if s.len() == 0 {
        0
    } else {
        (sum_chars(s.drop_last()) + s.last().chars) as nat
    }
}

/// Every prefix sum is bounded by the sum over the whole sequence.
proof fn lemma_sum_prefix(s: Seq<WcCounts>, i: int)
    requires
        0 <= i <= s.len(),
    ensures
        sum_lines(s.take(i)) <= sum_lines(s),
        sum_words(s.take(i)) <= sum_words(s),
        sum_chars(s.take(i)) <= sum_chars(s),
    decreases s.len() - i,
{
    if i == s.len() {
        assert(s.take(i) =~= s);
    } else {
        lemma_sum_prefix(s, i + 1);
        assert(s.take(i + 1).drop_last() =~= s.take(i));
    }
}

/// The grand total over a list of per-file records: the field-wise sum of
/// every record, or `None` when some field-wise sum does not fit in `usize`.
pub fn total_counts(per_file: &Vec<WcCounts>) -> (r: Option<WcCounts>)
    ensures
        r is Some <==> sum_lines(per_file@) <= usize::MAX && sum_words(per_file@) <= usize::MAX
            && sum_chars(per_file@) <= usize::MAX,
        r matches Some(t) ==> t.lines == sum_lines(per_file@) && t.words == sum_words(per_file@)
            && t.chars == sum_chars(per_file@),
{
    let mut total = WcCounts::zero();
    let n: usize = per_file.len();
    let mut i: usize = 0;
    while i < n
        invariant
            0 <= i <= n,
            n == per_file@.len(),
            total.lines == sum_lines(per_file@.take(i as int)),
            total.words == sum_words(per_file@.take(i as int)),
            total.chars == sum_chars(per_file@.take(i as int)),
        decreases n - i,
    {
        let next = per_file[i];
        proof {
            assert(per_file@.take(i + 1).drop_last() =~= per_file@.take(i as int));
            assert(per_file@.take(i + 1).last() == per_file@[i as int]);
            lemma_sum_prefix(per_file@, i + 1);
        }
        if total.lines > usize::MAX - next.lines || total.words > usize::MAX - next.words
            || total.chars > usize::MAX - next.chars {
            return None;
        }
        total.add(&next);
        i = i + 1;
    }
    proof {
        assert(per_file@.take(n as int) =~= per_file@);
    }
    Some(total)
}

} // verus!
