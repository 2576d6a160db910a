//! The block scanner.
//!
//! A scan reads its source block by block and keeps one measurement for each
//! block that held any bytes. Reading the source and computing a measurement
//! from a histogram are the caller's work; everything that is decided in
//! between is decided here. The caller starts by reading, hands each outcome
//! to the [`Scanner`] and does what the returned [`Action`] says, until that
//! is [`Action::Finish`].
//!
//! [`ScanState`] is the mathematical model of a scan: the blocks taken so
//! far, their measurements and the phase the scan is in. The contracts of
//! the scanner's methods are transitions of that model.

use crate::histogram::{is_tally_of, sum, Histogram};
use vstd::prelude::*;
use vstd::slice::slice_subrange;

verus! {

/// The block size of a scan that is not told another: one mebibyte.
pub const DEFAULT_BLOCK_SIZE: usize = 1_048_576;

/// What one read of the source gave.
#[derive(Clone, Copy, Debug, PartialEq, Eq, Structural)]
pub enum ReadOutcome {
    /// The read failed.
    Failed,
    /// The read put this many bytes at the start of the buffer. Zero bytes
    /// mean that the source is exhausted.
    Filled(usize),
}

/// Why a scan ended.
#[derive(Clone, Copy, Debug, PartialEq, Eq, Structural)]
pub enum Stop {
    /// The source had no more bytes.
    EndOfInput,
    /// A read failed; what was measured before it is kept.
    ReadFailed,
    /// The byte limit was reached.
    LimitReached,
}

/// Where a scan stands.
#[derive(Clone, Copy, Debug, PartialEq, Eq, Structural)]
pub enum Phase {
    /// The next block is to be read.
    Reading,
    /// A block was taken and its measurement is awaited.
    Measuring,
    /// The scan is over.
    Finished(Stop),
}

/// What the caller of a scan is to do next.
pub enum Action {
    /// Read the next block into the buffer and report the outcome.
    Read,
    /// Compute the measurement of the block that has this histogram and
    /// report it.
    Measure(Histogram),
    /// Stop: the scan is over.
    Finish,
}

/// The lengths of `blocks`, added up.
pub open spec fn total_len(blocks: Seq<Seq<u8>>) -> nat
    decreases blocks.len(),
{
    if blocks.len() == 0 {
        0
    } else {
        total_len(blocks.drop_last()) + blocks.last().len()
    }
}

/// `blocks`, one after the other, as one sequence of bytes.
pub open spec fn concat(blocks: Seq<Seq<u8>>) -> Seq<u8>
    decreases blocks.len(),
{
    if blocks.len() == 0 {
        Seq::empty()
    } else {
        concat(blocks.drop_last()) + blocks.last()
    }
}

/// A scan, as a mathematical value.
pub struct ScanState<V> {
    /// The most bytes that one block can hold.
    pub block_size: nat,
    /// The number of bytes after which the scan stops; zero for no limit.
    pub limit: nat,
    /// The blocks measured so far, in the order in which they were read.
    pub blocks: Seq<Seq<u8>>,
    /// The measurements of those blocks, in the same order.
    pub values: Seq<V>,
    /// Where the scan stands.
    pub phase: Phase,
    /// The block whose measurement is awaited, in the measuring phase.
    pub pending: Seq<u8>,
}

impl<V> ScanState<V> {
    /// A scan before its first read.
    pub open spec fn start(block_size: nat, limit: nat) -> Self {
        ScanState {
            block_size,
            limit,
            blocks: Seq::empty(),
            values: Seq::empty(),
            phase: Phase::Reading,
            pending: Seq::empty(),
        }
    }

    /// The number of blocks measured.
    pub open spec fn block_count(self) -> nat {
        self.blocks.len()
    }

    /// The number of bytes in the blocks measured.
    pub open spec fn byte_count(self) -> nat {
        total_len(self.blocks)
    }

    /// Whether a limit is set and the bytes measured have reached it.
    pub open spec fn limit_reached(self) -> bool {
        self.limit != 0 && self.byte_count() >= self.limit
    }

    /// Whether a scan in the reading phase can take `outcome` for a read
    /// into a buffer of `buffer_len` bytes.
    pub open spec fn accepts(self, outcome: ReadOutcome, buffer_len: nat) -> bool {
        &&& self.phase == Phase::Reading
        &&& buffer_len == self.block_size
        &&& outcome matches ReadOutcome::Filled(filled) ==> filled <= buffer_len
    }

    /// The scan after a read: over when the read failed or gave nothing,
    /// else waiting for the measurement of the bytes that the read put into
    /// `buffer`.
    pub open spec fn after_read(self, outcome: ReadOutcome, buffer: Seq<u8>) -> Self {
        match outcome {
            ReadOutcome::Failed => ScanState { phase: Phase::Finished(Stop::ReadFailed), ..self },
            ReadOutcome::Filled(filled) => if filled == 0 {
                ScanState { phase: Phase::Finished(Stop::EndOfInput), ..self }
            } else {
                ScanState { phase: Phase::Measuring, pending: buffer.take(filled as int), ..self }
            },
        }
    }

    /// The scan after the pending block got its measurement: block and
    /// value are recorded, and the scan is over if that reached the limit.
    pub open spec fn after_measure(self, value: V) -> Self {
        let recorded = ScanState {
            blocks: self.blocks.push(self.pending),
            values: self.values.push(value),
            pending: Seq::empty(),
            ..self
        };
        ScanState {
            phase: if recorded.limit_reached() {
                Phase::Finished(Stop::LimitReached)
            } else {
                Phase::Reading
            },
            ..recorded
        }
    }

    /// The bytes taken from the source so far: those of the blocks measured
    /// and, while one is pending, of the pending block.
    pub open spec fn taken(self) -> Seq<u8> {
        if self.phase == Phase::Measuring {
            concat(self.blocks) + self.pending
        } else {
            concat(self.blocks)
        }
    }

    /// Whether the scan took its bytes from the start of `input`, in order
    /// and without gaps, and has met the end of the source only at the end
    /// of `input`.
    pub open spec fn follows(self, input: Seq<u8>) -> bool {
        &&& self.taken().is_prefix_of(input)
        &&& self.phase == Phase::Finished(Stop::EndOfInput) ==> self.taken() == input
    }

    /// What holds of every scan, whatever the source gave: each block has
    /// its value; no block is empty or longer than the block size; with a
    /// limit set, the bytes before the last block were short of the limit;
    /// and the scan is over by the limit exactly when the limit is reached.
    pub open spec fn well_formed(self) -> bool {
        &&& self.values.len() == self.blocks.len()
        &&& forall|i: int|
            0 <= i < self.blocks.len() ==> 1 <= #[trigger] self.blocks[i].len() <= self.block_size
        &&& self.limit != 0 && self.blocks.len() > 0 ==> total_len(self.blocks.drop_last())
            < self.limit
        &&& self.phase == Phase::Measuring ==> 1 <= self.pending.len() <= self.block_size
        &&& self.phase == Phase::Finished(Stop::LimitReached) <==> self.limit_reached()
    }
}

/// A fresh scan is well formed.
pub proof fn lemma_start_well_formed<V>(block_size: nat, limit: nat)
    ensures
        ScanState::<V>::start(block_size, limit).well_formed(),
{
}

/// A read keeps a scan well formed.
pub proof fn lemma_read_keeps_well_formed<V>(
    state: ScanState<V>,
    outcome: ReadOutcome,
    buffer: Seq<u8>,
)
    requires
        state.well_formed(),
        state.accepts(outcome, buffer.len()),
    ensures
        state.after_read(outcome, buffer).well_formed(),
{
}

/// A measurement keeps a scan well formed.
pub proof fn lemma_measure_keeps_well_formed<V>(state: ScanState<V>, value: V)
    requires
        state.well_formed(),
        state.phase == Phase::Measuring,
    ensures
        state.after_measure(value).well_formed(),
{
    let next = state.after_measure(value);
    assert(next.blocks.drop_last() == state.blocks);
}

/// Every block measured has exactly one value, and no block is empty: there
/// are at most as many blocks as bytes.
pub proof fn lemma_one_value_per_block<V>(state: ScanState<V>)
    requires
        state.well_formed(),
    ensures
        state.values.len() == state.block_count(),
        state.block_count() <= state.byte_count(),
{
    lemma_total_len_bounds(state.blocks, state.block_size);
}

/// Whether `outcome` and `buffer` are what a read can give at a source that
/// holds `input` and has given `taken` of it before: the bytes of the input
/// that come next, and none only where none are left.
pub open spec fn reads_from(
    input: Seq<u8>,
    taken: Seq<u8>,
    outcome: ReadOutcome,
    buffer: Seq<u8>,
) -> bool {
    outcome matches ReadOutcome::Filled(filled) ==> {
        &&& (taken + buffer.take(filled as int)).is_prefix_of(input)
        &&& filled == 0 ==> taken == input
    }
}

/// A fresh scan follows every input.
pub proof fn lemma_start_follows<V>(block_size: nat, limit: nat, input: Seq<u8>)
    ensures
        ScanState::<V>::start(block_size, limit).follows(input),
{
}

/// A scan that follows an input still follows it after a read from it.
pub proof fn lemma_read_follows<V>(
    state: ScanState<V>,
    outcome: ReadOutcome,
    buffer: Seq<u8>,
    input: Seq<u8>,
)
    requires
        state.follows(input),
        state.phase == Phase::Reading,
        reads_from(input, state.taken(), outcome, buffer),
    ensures
        state.after_read(outcome, buffer).follows(input),
{
}

/// A scan that follows an input still follows it after a measurement.
pub proof fn lemma_measure_follows<V>(state: ScanState<V>, value: V, input: Seq<u8>)
    requires
        state.follows(input),
        state.phase == Phase::Measuring,
    ensures
        state.after_measure(value).follows(input),
{
    let next = state.after_measure(value);
    assert(next.blocks.drop_last() == state.blocks);
}

/// The bytes counted are the bytes of the blocks measured. Where the scan
/// follows an input, they are at most as many as the input has, and all of
/// them once the scan has ended at the end of the input.
pub proof fn lemma_bytes_within_input<V>(state: ScanState<V>, input: Seq<u8>)
    requires
        state.follows(input),
    ensures
        state.byte_count() == concat(state.blocks).len(),
        state.byte_count() <= input.len(),
        state.phase == Phase::Finished(Stop::EndOfInput) ==> state.byte_count() == input.len(),
{
    lemma_concat_len(state.blocks);
}

/// With a limit set, the bytes counted stay below the limit plus one block
/// size, and a scan that is over has reached the limit unless the source
/// ended it before.
pub proof fn lemma_limit_bounds<V>(state: ScanState<V>)
    requires
        state.well_formed(),
        state.limit != 0,
    ensures
        state.byte_count() < state.limit + state.block_size,
        state.phase is Finished ==> state.byte_count() >= state.limit || state.phase
            == Phase::Finished(Stop::EndOfInput) || state.phase == Phase::Finished(
            Stop::ReadFailed,
        ),
        state.phase !is Finished ==> state.byte_count() < state.limit,
{
}

/// Blocks of one to `block_size` bytes hold at least as many bytes as there
/// are blocks, and at most `block_size` bytes each.
pub proof fn lemma_total_len_bounds(blocks: Seq<Seq<u8>>, block_size: nat)
    requires
        forall|i: int| 0 <= i < blocks.len() ==> 1 <= #[trigger] blocks[i].len() <= block_size,
    ensures
        blocks.len() <= total_len(blocks) <= blocks.len() * block_size,
    decreases blocks.len(),
{
    if blocks.len() > 0 {
        lemma_total_len_bounds(blocks.drop_last(), block_size);
        assert(blocks.len() * block_size == (blocks.len() - 1) * block_size + block_size)
            by (nonlinear_arith);
    }
}

/// Blocks laid end to end are as long as their lengths added up.
pub proof fn lemma_concat_len(blocks: Seq<Seq<u8>>)
    ensures
        concat(blocks).len() == total_len(blocks),
    decreases blocks.len(),
{
    if blocks.len() > 0 {
        lemma_concat_len(blocks.drop_last());
    }
}

/// What a scan found: how many blocks and bytes it took, and the
/// measurement of each block in the order in which the blocks were read.
pub struct Report<V> {
    block_count: usize,
    byte_count: usize,
    values: Vec<V>,
}

/// A report, as a mathematical value.
pub struct ReportView<V> {
    /// The number of blocks measured.
    pub block_count: nat,
    /// The number of bytes in those blocks.
    pub byte_count: nat,
    /// The measurements, one for each block.
    pub values: Seq<V>,
}

impl<V> View for Report<V> {
    type V = ReportView<V>;

    closed spec fn view(&self) -> ReportView<V> {
        ReportView {
            block_count: self.block_count as nat,
            byte_count: self.byte_count as nat,
            values: self.values@,
        }
    }
}

impl<V> Report<V> {
    #[verifier::type_invariant]
    spec fn one_value_per_block(&self) -> bool {
        self.values@.len() == self.block_count
    }

    /// The number of blocks measured, which is the number of values.
    pub fn block_count(&self) -> (count: usize)
        ensures
            count == self@.block_count,
            count == self@.values.len(),
    {
        proof {
            use_type_invariant(self);
        }
        self.block_count
    }

    /// The number of bytes in the blocks measured.
    pub fn byte_count(&self) -> (count: usize)
        ensures
            count == self@.byte_count,
    {
        self.byte_count
    }

    /// The measurements, one for each block, in the order of the blocks.
    pub fn values(&self) -> (values: &Vec<V>)
        ensures
            values@ == self@.values,
            values@.len() == self@.block_count,
    {
        proof {
            use_type_invariant(self);
        }
        &self.values
    }
}

/// A scan in progress.
pub struct Scanner<V> {
    block_size: usize,
    limit: usize,
    block_count: usize,
    byte_count: usize,
    values: Vec<V>,
    phase: Phase,
    pending_len: usize,
    blocks: Ghost<Seq<Seq<u8>>>,
    pending: Ghost<Seq<u8>>,
}

impl<V> View for Scanner<V> {
    type V = ScanState<V>;

    closed spec fn view(&self) -> ScanState<V> {
        ScanState {
            block_size: self.block_size as nat,
            limit: self.limit as nat,
            blocks: self.blocks@,
            values: self.values@,
            phase: self.phase,
            pending: self.pending@,
        }
    }
}

impl<V> Scanner<V> {
    /// The counters agree with the blocks taken, and the pending block can
    /// still be counted.
    pub closed spec fn counted(&self) -> bool {
        &&& self.block_count == self.blocks@.len()
        &&& self.byte_count == total_len(self.blocks@)
        &&& self.phase == Phase::Measuring ==> self.pending_len == self.pending@.len()
            && self.byte_count + self.pending_len <= usize::MAX
    }

    /// The scanner is in a state that a scan can reach.
    pub open spec fn wf(&self) -> bool {
        self@.well_formed() && self.counted()
    }

    /// Whether the byte counter has room for what `outcome` brings.
    pub open spec fn has_room(&self, outcome: ReadOutcome) -> bool {
        outcome matches ReadOutcome::Filled(filled) ==> self@.byte_count() + filled <= usize::MAX
    }

    /// A scanner for blocks of up to `block_size` bytes that stops once
    /// `limit` bytes are measured, or only at the end of the source where
    /// `limit` is zero.
    pub fn new(block_size: usize, limit: usize) -> (scanner: Scanner<V>)
        ensures
            scanner.wf(),
            scanner@ == ScanState::<V>::start(block_size as nat, limit as nat),
    {
        Scanner {
            block_size,
            limit,
            block_count: 0,
            byte_count: 0,
            values: Vec::new(),
            phase: Phase::Reading,
            pending_len: 0,
            blocks: Ghost(Seq::empty()),
            pending: Ghost(Seq::empty()),
        }
    }

    /// The most bytes that one block can hold.
    pub fn block_size(&self) -> (block_size: usize)
        ensures
            block_size == self@.block_size,
    {
        self.block_size
    }

    /// The byte limit; zero for none.
    pub fn limit(&self) -> (limit: usize)
        ensures
            limit == self@.limit,
    {
        self.limit
    }

    /// Where the scan stands.
    pub fn phase(&self) -> (phase: Phase)
        ensures
            phase == self@.phase,
    {
        self.phase
    }

    /// The number of bytes in the blocks measured so far.
    pub fn byte_count(&self) -> (count: usize)
        requires
            self.wf(),
        ensures
            count == self@.byte_count(),
    {
        self.byte_count
    }

    /// Takes the outcome of a read into `buffer`.
    ///
    /// A failed read and a read of no bytes end the scan, and what was
    /// measured before stays. Otherwise the bytes that the read filled, and
    /// no others of the buffer, become the pending block, and the caller is
    /// handed their histogram to measure.
    pub fn on_read(&mut self, outcome: ReadOutcome, buffer: &[u8]) -> (action: Action)
        requires
            old(self).wf(),
            old(self)@.accepts(outcome, buffer@.len()),
            old(self).has_room(outcome),
        ensures
            final(self).wf(),
            final(self)@ == old(self)@.after_read(outcome, buffer@),
            (match action {
                Action::Read => false,
                Action::Measure(histogram) => final(self)@.phase == Phase::Measuring
                    && is_tally_of(histogram@, final(self)@.pending) && sum(histogram@)
                    == final(self)@.pending.len(),
                Action::Finish => final(self)@.phase is Finished,
            }),
    {
        match outcome {
            ReadOutcome::Failed => {
                self.phase = Phase::Finished(Stop::ReadFailed);
                Action::Finish
            },
            ReadOutcome::Filled(filled) => {
                if filled == 0 {
                    self.phase = Phase::Finished(Stop::EndOfInput);
                    Action::Finish
                } else {
                    let block = slice_subrange(buffer, 0, filled);
                    self.phase = Phase::Measuring;
                    self.pending_len = filled;
                    self.pending = Ghost(block@);
                    Action::Measure(Histogram::of_block(block))
                }
            },
        }
    }

    /// Takes the measurement of the pending block.
    ///
    /// The block is counted and its value appended to the values. The scan
    /// is over if a limit is set and the bytes counted have reached it;
    /// else the caller is to read on.
    pub fn on_measured(&mut self, value: V) -> (action: Action)
        requires
            old(self).wf(),
            old(self)@.phase == Phase::Measuring,
        ensures
            final(self).wf(),
            final(self)@ == old(self)@.after_measure(value),
            (match action {
                Action::Read => final(self)@.phase == Phase::Reading,
                Action::Measure(_) => false,
                Action::Finish => final(self)@.phase == Phase::Finished(Stop::LimitReached),
            }),
    {
        let ghost before = self@;
        proof {
            lemma_one_value_per_block(before);
            assert(before.blocks.push(before.pending).drop_last() =~= before.blocks);
        }
        self.block_count = self.block_count + 1;
        self.byte_count = self.byte_count + self.pending_len;
        self.values.push(value);
        self.blocks = Ghost(self.blocks@.push(self.pending@));
        self.pending = Ghost(Seq::empty());
        if self.limit != 0 && self.byte_count >= self.limit {
            self.phase = Phase::Finished(Stop::LimitReached);
            Action::Finish
        } else {
            self.phase = Phase::Reading;
            Action::Read
        }
    }

    /// Ends the scan and gives what it found so far.
    pub fn into_report(self) -> (report: Report<V>)
        requires
            self.wf(),
        ensures
            report@.block_count == self@.block_count(),
            report@.byte_count == self@.byte_count(),
            report@.values == self@.values,
            report@.values.len() == report@.block_count,
    {
        Report { block_count: self.block_count, byte_count: self.byte_count, values: self.values }
    }
}

} // verus!
