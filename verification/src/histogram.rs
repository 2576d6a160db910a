//! Byte-frequency histograms of blocks.
//!
//! The order-0 entropy of a block is a function of how often each of the 256
//! byte values occurs in it. This module counts the occurrences and hands out
//! the counts in the forms an entropy estimator needs: the count of one
//! symbol, the number of bytes counted, and the counts of the symbols that
//! occur at all.

use vstd::prelude::*;

verus! {

/// The size of the byte alphabet.
pub const SYMBOLS: usize = 256;

/// How often `symbol` occurs in `block`.
pub open spec fn occurrences(block: Seq<u8>, symbol: u8) -> nat
    decreases block.len(),
{
    if block.len() == 0 {
        0
    } else {
        occurrences(block.drop_last(), symbol) + if block.last() == symbol {
            1nat
        } else {
            0nat
        }
    }
}

/// `counts` holds, for each byte value, how often it occurs in `block`.
pub open spec fn is_tally_of(counts: Seq<usize>, block: Seq<u8>) -> bool {
    &&& counts.len() == SYMBOLS
    &&& forall|symbol: u8| counts[symbol as int] == #[trigger] occurrences(block, symbol)
}

/// The sum of all entries of `counts`.
pub open spec fn sum(counts: Seq<usize>) -> nat
    decreases counts.len(),
{
    if counts.len() == 0 {
        0
    } else {
        sum(counts.drop_last()) + counts.last() as nat
    }
}

/// The entries of `counts` that are not zero, in their order.
pub open spec fn nonzero(counts: Seq<usize>) -> Seq<usize> {
    counts.filter(|count: usize| count > 0)
}

/// No symbol occurs more often than the block is long.
pub proof fn lemma_occurrences_bound(block: Seq<u8>, symbol: u8)
    ensures
        occurrences(block, symbol) <= block.len(),
    decreases block.len(),
{
    if block.len() > 0 {
        lemma_occurrences_bound(block.drop_last(), symbol);
    }
}

/// In a block that repeats one byte, that byte occurs as often as the block
/// is long and no other byte occurs.
pub proof fn lemma_occurrences_uniform(block: Seq<u8>, byte: u8, symbol: u8)
    requires
        forall|i: int| 0 <= i < block.len() ==> block[i] == byte,
    ensures
        occurrences(block, symbol) == (if symbol == byte {
            block.len()
        } else {
            0
        }),
    decreases block.len(),
{
    if block.len() > 0 {
        lemma_occurrences_uniform(block.drop_last(), byte, symbol);
    }
}

/// Raising one entry by one raises the sum by one.
proof fn lemma_sum_bump(counts: Seq<usize>, at: int)
    requires
        0 <= at < counts.len(),
        counts[at] < usize::MAX,
    ensures
        sum(counts.update(at, (counts[at] + 1) as usize)) == sum(counts) + 1,
    decreases counts.len(),
{
    let bumped = counts.update(at, (counts[at] + 1) as usize);
    if at == counts.len() - 1 {
        assert(bumped.drop_last() == counts.drop_last());
    } else {
        assert(bumped.drop_last() == counts.drop_last().update(at, (counts[at] + 1) as usize));
        lemma_sum_bump(counts.drop_last(), at);
    }
}

/// A sequence of zeros sums to zero.
proof fn lemma_sum_zeros(counts: Seq<usize>)
    requires
        forall|i: int| 0 <= i < counts.len() ==> counts[i] == 0,
    ensures
        sum(counts) == 0,
    decreases counts.len(),
{
    if counts.len() > 0 {
        lemma_sum_zeros(counts.drop_last());
    }
}

/// No entry is larger than the sum.
pub proof fn lemma_entry_within_sum(counts: Seq<usize>, at: int)
    requires
        0 <= at < counts.len(),
    ensures
        counts[at] <= sum(counts),
    decreases counts.len(),
{
    if at < counts.len() - 1 {
        lemma_entry_within_sum(counts.drop_last(), at);
    }
}

/// The counts of a block add up to the length of the block: every byte of
/// the block is counted once, under its own value.
pub proof fn lemma_tally_sums_to_length(counts: Seq<usize>, block: Seq<u8>)
    requires
        is_tally_of(counts, block),
    ensures
        sum(counts) == block.len(),
    decreases block.len(),
{
    if block.len() == 0 {
        assert forall|i: int| 0 <= i < counts.len() implies counts[i] == 0 by {
            assert(counts[i as u8 as int] == occurrences(block, i as u8));
        }
        lemma_sum_zeros(counts);
    } else {
        let rest = block.drop_last();
        let slot = block.last() as int;
        assert(counts[slot] == occurrences(block, block.last()));
        let before = counts.update(slot, (counts[slot] - 1) as usize);
        assert(is_tally_of(before, rest)) by {
            assert forall|symbol: u8| before[symbol as int] == #[trigger] occurrences(
                rest,
                symbol,
            ) by {
                assert(counts[symbol as int] == occurrences(block, symbol));
            }
        }
        lemma_tally_sums_to_length(before, rest);
        lemma_sum_bump(before, slot);
        assert(before.update(slot, (before[slot] + 1) as usize) == counts);
    }
}

/// The counts that are not zero lie between one and the length of the
/// block, and there are at most as many of them as the alphabet has symbols.
pub proof fn lemma_nonzero_counts(counts: Seq<usize>, block: Seq<u8>)
    requires
        is_tally_of(counts, block),
    ensures
        nonzero(counts).len() <= SYMBOLS,
        forall|i: int|
            0 <= i < nonzero(counts).len() ==> 1 <= #[trigger] nonzero(counts)[i] <= block.len(),
{
    let present = |count: usize| count > 0;
    assert forall|i: int| 0 <= i < nonzero(counts).len() implies 1 <= #[trigger] nonzero(
        counts,
    )[i] <= block.len() by {
        let count = nonzero(counts)[i];
        counts.lemma_filter_contains_rev(present, count);
        let at = choose|at: int| 0 <= at < counts.len() && counts[at] == count;
        lemma_entry_within_sum(counts, at);
        lemma_tally_sums_to_length(counts, block);
    }
}

/// Filtering a stretch of zeros with one other entry in it leaves that entry.
proof fn lemma_nonzero_single(counts: Seq<usize>, at: int)
    requires
        0 <= at < counts.len(),
        counts[at] > 0,
        forall|i: int| 0 <= i < counts.len() && i != at ==> counts[i] == 0,
    ensures
        nonzero(counts) == seq![counts[at]],
    decreases counts.len(),
{
    reveal(Seq::filter);
    let present = |count: usize| count > 0;
    if at == counts.len() - 1 {
        counts.drop_last().lemma_all_neg_filter_empty(present);
    } else {
        lemma_nonzero_single(counts.drop_last(), at);
    }
}

/// The histogram of a block that repeats one byte has a single count that
/// is not zero: the length of the block.
pub proof fn lemma_uniform_block(counts: Seq<usize>, block: Seq<u8>, byte: u8)
    requires
        is_tally_of(counts, block),
        block.len() > 0,
        forall|i: int| 0 <= i < block.len() ==> block[i] == byte,
    ensures
        nonzero(counts) == seq![block.len() as usize],
{
    assert forall|i: int| 0 <= i < counts.len() implies counts[i] == if i == byte as int {
        block.len()
    } else {
        0
    } by {
        lemma_occurrences_uniform(block, byte, i as u8);
    }
    lemma_nonzero_single(counts, byte as int);
}

/// The frequencies of the 256 byte values in one block.
pub struct Histogram {
    counts: [usize; SYMBOLS],
    total: usize,
}

impl View for Histogram {
    type V = Seq<usize>;

    /// The counts, indexed by byte value.
    closed spec fn view(&self) -> Seq<usize> {
        self.counts@
    }
}

impl Histogram {
    #[verifier::type_invariant]
    spec fn counted(&self) -> bool {
        sum(self.counts@) == self.total
    }

    /// Counts the bytes of `block`.
    pub fn of_block(block: &[u8]) -> (histogram: Histogram)
        ensures
            is_tally_of(histogram@, block@),
            sum(histogram@) == block@.len(),
    {
        let mut counts: [usize; SYMBOLS] = [0usize; SYMBOLS];
        let mut done: usize = 0;
        while done < block.len()
            invariant
                done <= block.len(),
                is_tally_of(counts@, block@.take(done as int)),
            decreases block.len() - done,
        {
            let byte: u8 = block[done];
            let slot: usize = byte as usize;
            proof {
                assert(block@.take(done + 1).drop_last() == block@.take(done as int));
                lemma_occurrences_bound(block@.take(done as int), byte);
            }
            let count: usize = counts[slot];
            let ghost counted = counts@;
            counts[slot] = count + 1;
            done = done + 1;
            proof {
                assert forall|symbol: u8| counts@[symbol as int] == #[trigger] occurrences(
                    block@.take(done as int),
                    symbol,
                ) by {
                    assert(counted[symbol as int] == occurrences(
                        block@.take(done - 1),
                        symbol,
                    ));
                }
            }
        }
        proof {
            assert(block@.take(block@.len() as int) == block@);
            lemma_tally_sums_to_length(counts@, block@);
        }
        Histogram { counts, total: block.len() }
    }

    /// How often `symbol` was counted.
    pub fn count(&self, symbol: u8) -> (count: usize)
        ensures
            count == self@[symbol as int],
    {
        self.counts[symbol as usize]
    }

    /// How many bytes were counted in all.
    pub fn total(&self) -> (total: usize)
        ensures
            total == sum(self@),
    {
        proof {
            use_type_invariant(self);
        }
        self.total
    }

    /// The counts of the symbols that occur, in the order of the symbols.
    pub fn nonzero_counts(&self) -> (present: Vec<usize>)
        ensures
            present@ == nonzero(self@),
    {
        let mut present: Vec<usize> = Vec::new();
        let mut symbol: usize = 0;
        while symbol < SYMBOLS
            invariant
                symbol <= SYMBOLS,
                self.counts@.len() == SYMBOLS,
                present@ == nonzero(self.counts@.take(symbol as int)),
            decreases SYMBOLS - symbol,
        {
            let count: usize = self.counts[symbol];
            proof {
                reveal(Seq::filter);
                assert(self.counts@.take(symbol + 1).drop_last() == self.counts@.take(
                    symbol as int,
                ));
            }
            if count > 0 {
                present.push(count);
            }
            symbol = symbol + 1;
        }
        proof {
            assert(self.counts@.take(SYMBOLS as int) == self.counts@);
        }
        present
    }
}

} // verus!
