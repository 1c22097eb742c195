//! Turns new chain heads into ranges of blocks to read, and the logs of those
//! blocks into balance-change events.
//!
//! Heads that queue up while a cycle runs are folded into the newest one, and
//! one plan covers the whole span since the last processed block. The plan
//! reads at most `max_block_lag` blocks, the newest ones, in chunks of at most
//! `backfill_chunk_blocks`; older blocks are left to the periodic snapshot.
use crate::domain::evm_network::{law_chunk_fits_the_cap, EvmNetwork};
use crate::domain::primitives::{Address, Log};
use crate::evm::signatures::{
    deposit_signature, deposit_topic, withdrawal_signature, withdrawal_topic,
};
use crate::services::health::SubsystemHealth;
use crate::services::range_bisect::{
    law_bisect_resolves_every_block, lemma_whole_range_covers, traverse, whole_range, FetchOutcome,
};
use crate::text::{decimal, decimal_text};
use vstd::prelude::*;
use vstd::string::*;

verus! {

/// A plain token transfer has its signature, the sender and the receiver as
/// topics. A non-fungible transfer has a fourth and is not a balance change.
pub const ERC20_TRANSFER_TOPICS_LEN: usize = 3;

/// The work that one head asks for.
#[derive(Debug, PartialEq, Eq)]
pub struct FetchPlan {
    /// Blocks left out because the gap exceeded the backfill cap.
    pub skipped_blocks: u64,
    /// Inclusive ranges, oldest first. Empty for a stale or repeated head.
    pub ranges: Vec<(u64, u64)>,
}

/// A wallet's balance of a token may have changed.
#[derive(Clone, Copy, Debug, PartialEq, Eq, Structural)]
pub struct Erc20TransferEvent {
    pub owner: Address,
    pub token: Address,
    pub block: Option<u64>,
}

/// `from..=to` cut into ranges of `chunk` blocks, the last one possibly
/// narrower.
pub open spec fn chunk_ranges(from: int, to: int, chunk: int) -> Seq<(u64, u64)>
    decreases to - from + 1,
{
    if from > to || chunk < 1 {
        Seq::empty()
    } else {
        let end = if from + chunk - 1 < to {
            from + chunk - 1
        } else {
            to
        };
        seq![(from as u64, end as u64)] + chunk_ranges(end + 1, to, chunk)
    }
}

/// How many blocks are read for `incoming`: none if it is not past the cursor,
/// itself alone if there is no cursor yet, else the gap up to the cap.
pub open spec fn planned_blocks(latest: u64, incoming: u64, max_backfill: u64) -> int {
    if latest == 0 {
        1
    } else if incoming <= latest {
        0
    } else if incoming - latest < max_backfill {
        incoming - latest
    } else {
        max_backfill as int
    }
}

/// How many blocks of the gap are given up.
pub open spec fn skipped_blocks(latest: u64, incoming: u64, max_backfill: u64) -> int {
    if latest == 0 || incoming <= latest {
        0
    } else {
        incoming - latest - planned_blocks(latest, incoming, max_backfill)
    }
}

pub open spec fn planned_ranges(
    latest: u64,
    incoming: u64,
    max_backfill: u64,
    chunk: u64,
) -> Seq<(u64, u64)> {
    chunk_ranges(
        incoming - planned_blocks(latest, incoming, max_backfill) + 1,
        incoming as int,
        chunk as int,
    )
}

/// The blocks in a list of ranges.
pub open spec fn blocks_in(ranges: Seq<(u64, u64)>) -> int
    decreases ranges.len(),
{
    if ranges.len() == 0 {
        0
    } else {
        ranges[0].1 - ranges[0].0 + 1 + blocks_in(ranges.drop_first())
    }
}

/// The ranges follow the block `before` without a gap, oldest first, and end
/// at `last`.
pub open spec fn contiguous(ranges: Seq<(u64, u64)>, before: int, last: int) -> bool
    decreases ranges.len(),
{
    if ranges.len() == 0 {
        before == last
    } else {
        &&& ranges[0].0 == before + 1
        &&& ranges[0].0 <= ranges[0].1
        &&& contiguous(ranges.drop_first(), ranges[0].1 as int, last)
    }
}

proof fn lemma_chunks_are_contiguous(from: int, to: int, chunk: int)
    requires
        0 <= from <= to + 1,
        to <= u64::MAX,
        chunk >= 1,
    ensures
        contiguous(chunk_ranges(from, to, chunk), from - 1, to),
        blocks_in(chunk_ranges(from, to, chunk)) == to - from + 1,
        forall|i: int|
            0 <= i < chunk_ranges(from, to, chunk).len() ==> {
                let r = #[trigger] chunk_ranges(from, to, chunk)[i];
                &&& r.1 - r.0 + 1 <= chunk
                &&& i + 1 < chunk_ranges(from, to, chunk).len() ==> r.1 - r.0 + 1 == chunk
            },
    decreases to - from + 1,
{
    let all = chunk_ranges(from, to, chunk);
    if from <= to {
        let end = if from + chunk - 1 < to {
            from + chunk - 1
        } else {
            to
        };
        lemma_chunks_are_contiguous(end + 1, to, chunk);
        let rest = chunk_ranges(end + 1, to, chunk);
        assert(all.drop_first() =~= rest);
        assert forall|i: int| 0 <= i < all.len() implies {
            let r = #[trigger] all[i];
            &&& r.1 - r.0 + 1 <= chunk
            &&& i + 1 < all.len() ==> r.1 - r.0 + 1 == chunk
        } by {
            if i > 0 {
                assert(all[i] == rest[i - 1]);
            } else if all.len() > 1 {
                assert(rest.len() > 0);
                assert(end < to);
            }
        }
    }
}

/// The plan reads exactly the newest blocks of the gap: the ranges run from
/// the oldest planned block to the head without a gap or an overlap, each is
/// at most one chunk and all but the last are full, no more than the cap is
/// read, and every block of the gap is either read or counted as skipped.
pub proof fn law_plan_reads_the_newest_blocks(
    latest: u64,
    incoming: u64,
    max_backfill: u64,
    chunk: u64,
)
    requires
        chunk >= 1,
    ensures
        ({
            let ranges = planned_ranges(latest, incoming, max_backfill, chunk);
            let planned = planned_blocks(latest, incoming, max_backfill);
            let skipped = skipped_blocks(latest, incoming, max_backfill);
            &&& contiguous(ranges, incoming - planned, incoming as int)
            &&& blocks_in(ranges) == planned
            &&& latest == 0 ==> planned == 1
            &&& latest != 0 ==> planned <= max_backfill
            &&& latest != 0 && incoming > latest ==> skipped + planned == incoming - latest
            &&& skipped >= 0
            &&& skipped > 0 ==> planned == max_backfill
            &&& forall|i: int|
                0 <= i < ranges.len() ==> {
                    let r = #[trigger] ranges[i];
                    &&& r.1 - r.0 + 1 <= chunk
                    &&& i + 1 < ranges.len() ==> r.1 - r.0 + 1 == chunk
                }
        }),
{
    let planned = planned_blocks(latest, incoming, max_backfill);
    lemma_chunks_are_contiguous(incoming - planned + 1, incoming as int, chunk as int);
}

/// A head that is not past the cursor plans nothing, so replaying heads is
/// harmless.
pub proof fn law_stale_head_plans_nothing(
    latest: u64,
    incoming: u64,
    max_backfill: u64,
    chunk: u64,
)
    requires
        latest != 0,
        incoming <= latest,
    ensures
        planned_ranges(latest, incoming, max_backfill, chunk) == Seq::<(u64, u64)>::empty(),
        skipped_blocks(latest, incoming, max_backfill) == 0,
{
}

/// While heads come one by one, each is read on its own and nothing else is.
pub proof fn law_next_head_is_read_alone(latest: u64, max_backfill: u64, chunk: u64)
    requires
        latest < u64::MAX,
        max_backfill >= 1,
        chunk >= 1,
    ensures
        ({
            let next = (latest + 1) as u64;
            &&& planned_ranges(latest, next, max_backfill, chunk) == seq![(next, next)]
            &&& skipped_blocks(latest, next, max_backfill) == 0
        }),
{
    let next = (latest + 1) as u64;
    assert(chunk_ranges(next + 1, next as int, chunk as int) =~= Seq::empty());
    assert(planned_ranges(latest, next, max_backfill, chunk) =~= seq![(next, next)]);
}

/// The newest of `first` and the queued heads.
pub open spec fn is_newest(newest: u64, first: u64, queued: Seq<u64>) -> bool {
    &&& newest >= first
    &&& forall|i: int| 0 <= i < queued.len() ==> newest >= #[trigger] queued[i]
    &&& newest == first || queued.contains(newest)
}

/// What the dispatcher does next.
#[derive(Clone, Copy, Debug, PartialEq, Eq, Structural)]
pub enum DispatcherAction {
    /// Wait for a head.
    AwaitHead,
    /// Read the logs of this inclusive range, then report it as done.
    FetchRange { from: u64, to: u64 },
    Stop,
}

/// What became of a batch of heads.
#[derive(Clone, Copy, Debug, PartialEq, Eq, Structural)]
pub struct HeadReport {
    /// The newest head of the batch.
    pub head: u64,
    /// How many heads were queued behind the first.
    pub drained_heads: u64,
    /// Blocks given up because of the cap.
    pub skipped_blocks: u64,
    /// Blocks to be read besides the head itself.
    pub backfilled_blocks: u64,
    pub action: DispatcherAction,
}

/// The dispatcher as a mathematical value.
pub struct DispatcherState {
    pub is_active: bool,
    /// The cursor: the last block whose logs were read. Zero before the first.
    pub latest_processed: u64,
    /// The head of the latest cycle.
    pub head: u64,
    /// The ranges of that cycle that are still to be read.
    pub pending: Seq<(u64, u64)>,
    /// Blocks lost so far, counted once for each of the two reads that lost it.
    pub missed_blocks: nat,
    pub weth9: Address,
    pub max_block_lag: u64,
    pub chunk_blocks: u64,
}

/// Between two steps the pending ranges lead without a gap from past the
/// cursor to the head of the cycle; with none pending the cursor is there.
pub open spec fn coherent(state: DispatcherState) -> bool {
    &&& state.chunk_blocks >= 1
    &&& state.pending.len() == 0 ==> state.latest_processed == state.head
    &&& state.pending.len() > 0 ==> {
        &&& state.latest_processed == 0 || state.latest_processed < state.pending[0].0
        &&& state.pending[0].0 >= 1 || state.pending[0].0 == state.pending[0].1
        &&& contiguous(state.pending, state.pending[0].0 - 1, state.head as int)
    }
}

/// A batch was taken whose newest head is `head`: a cycle starts with the
/// ranges planned for it, if there are any.
pub open spec fn headed(state: DispatcherState, head: u64) -> DispatcherState {
    let latest = state.latest_processed;
    let cap = state.max_block_lag;
    DispatcherState {
        pending: planned_ranges(latest, head, cap, state.chunk_blocks),
        head: if planned_blocks(latest, head, cap) == 0 {
            state.head
        } else {
            head
        },
        ..state
    }
}

/// The next range was read, by two reads that lost so many blocks: the cursor
/// moves to its end all the same, and the lost blocks are counted.
pub open spec fn range_read(
    state: DispatcherState,
    erc20_lost: u64,
    weth9_lost: u64,
) -> DispatcherState {
    DispatcherState {
        latest_processed: state.pending[0].1,
        pending: state.pending.drop_first(),
        missed_blocks: state.missed_blocks + erc20_lost as nat + weth9_lost as nat,
        ..state
    }
}

/// What became of a range.
#[derive(Clone, Copy, Debug, PartialEq, Eq, Structural)]
pub struct RangeReport {
    /// Blocks that count as processed.
    pub processed_blocks: u64,
    /// Blocks lost, counted once for each read that lost it.
    pub missed_blocks: u64,
    pub action: DispatcherAction,
}

pub struct Erc20TransferEventDispatcher {
    is_active: bool,
    latest_processed_block: u64,
    head: u64,
    ranges: Vec<(u64, u64)>,
    done: usize,
    missed_block_logs: u64,
    weth9_address: Address,
    max_block_lag: u64,
    backfill_chunk_blocks: u64,
}

impl View for Erc20TransferEventDispatcher {
    type V = DispatcherState;

    closed spec fn view(&self) -> DispatcherState {
        DispatcherState {
            is_active: self.is_active,
            latest_processed: self.latest_processed_block,
            head: self.head,
            pending: self.ranges@.skip(self.done as int),
            missed_blocks: self.missed_block_logs as nat,
            weth9: self.weth9_address,
            max_block_lag: self.max_block_lag,
            chunk_blocks: self.backfill_chunk_blocks,
        }
    }
}

/// The action that goes with the ranges that are left.
pub open spec fn action_for(pending: Seq<(u64, u64)>) -> DispatcherAction {
    if pending.len() == 0 {
        DispatcherAction::AwaitHead
    } else {
        DispatcherAction::FetchRange { from: pending[0].0, to: pending[0].1 }
    }
}

/// Why an active dispatcher that lags is unhealthy.
pub open spec fn lag_message(lag: int, max: u64, head: u64, processed: u64) -> Seq<char> {
    "block lag "@ + decimal(lag as nat) + " exceeds max "@ + decimal(max as nat) + " (head="@
        + decimal(head as nat) + ", latest_processed="@ + decimal(processed as nat) + ")"@
}

/// Why the dispatcher is unhealthy, if it is.
pub open spec fn trouble(state: DispatcherState, current_head: u64) -> Option<Seq<char>> {
    let processed = state.latest_processed;
    let lag = current_head - processed;
    if !state.is_active {
        Some("dispatcher not active yet (startup) or shut down"@)
    } else if current_head != 0 && processed != 0 && lag > state.max_block_lag {
        Some(lag_message(lag, state.max_block_lag, current_head, processed))
    } else {
        None
    }
}

impl Erc20TransferEventDispatcher {
    pub closed spec fn wf(&self) -> bool {
        &&& self.done <= self.ranges@.len()
        &&& self.max_block_lag >= 1
        &&& coherent(self@)
    }

    /// A dispatcher for `network` that has not started yet.
    pub fn new(network: EvmNetwork) -> (dispatcher: Self)
        ensures
            dispatcher.wf(),
            dispatcher@.is_active == false,
            dispatcher@.latest_processed == 0,
            dispatcher@.pending == Seq::<(u64, u64)>::empty(),
            dispatcher@.missed_blocks == 0,
            dispatcher@.weth9 == network.weth9(),
            dispatcher@.max_block_lag == network.lag_blocks(),
            dispatcher@.chunk_blocks == network.chunk_blocks(),
    {
        proof {
            law_chunk_fits_the_cap(network);
        }
        let dispatcher = Erc20TransferEventDispatcher {
            is_active: false,
            latest_processed_block: 0,
            head: 0,
            ranges: Vec::new(),
            done: 0,
            missed_block_logs: 0,
            weth9_address: network.weth9_address(),
            max_block_lag: network.max_block_lag(),
            backfill_chunk_blocks: network.backfill_chunk_blocks(),
        };
        assert(dispatcher@.pending =~= Seq::<(u64, u64)>::empty());
        dispatcher
    }

    /// Plans the reads for one incoming head against the cursor
    /// `latest_processed`.
    pub fn plan_fetch(
        latest_processed: u64,
        incoming: u64,
        max_backfill: u64,
        chunk_blocks: u64,
    ) -> (plan: FetchPlan)
        requires
            chunk_blocks >= 1,
        ensures
            plan.skipped_blocks == skipped_blocks(latest_processed, incoming, max_backfill),
            plan.ranges@ == planned_ranges(
                latest_processed,
                incoming,
                max_backfill,
                chunk_blocks,
            ),
    {
        if latest_processed != 0 && incoming <= latest_processed {
            return FetchPlan { skipped_blocks: 0, ranges: Vec::new() };
        }
        let mut ranges: Vec<(u64, u64)> = Vec::new();
        if latest_processed == 0 {
            ranges.push((incoming, incoming));
            assert(chunk_ranges(incoming + 1, incoming as int, chunk_blocks as int)
                =~= Seq::empty());
            assert(ranges@ =~= chunk_ranges(
                incoming as int,
                incoming as int,
                chunk_blocks as int,
            ));
            return FetchPlan { skipped_blocks: 0, ranges };
        }
        let gap: u64 = incoming - latest_processed;
        let planned: u64 = if gap < max_backfill {
            gap
        } else {
            max_backfill
        };
        // The newest block that is no longer planned for.
        let mut before: u64 = incoming - planned;
        let ghost start = before + 1;
        assert(ranges@ + chunk_ranges(before + 1, incoming as int, chunk_blocks as int)
            =~= chunk_ranges(start, incoming as int, chunk_blocks as int));
        while before < incoming
            invariant
                before <= incoming,
                chunk_blocks >= 1,
                ranges@ + chunk_ranges(before + 1, incoming as int, chunk_blocks as int)
                    == chunk_ranges(start, incoming as int, chunk_blocks as int),
            decreases incoming - before,
        {
            let left: u64 = incoming - before;
            let end: u64 = if chunk_blocks < left {
                before + chunk_blocks
            } else {
                incoming
            };
            let ghost done = ranges@;
            ranges.push((before + 1, end));
            assert(chunk_ranges(before + 1, incoming as int, chunk_blocks as int) == seq![
                ((before + 1) as u64, end),
            ] + chunk_ranges(end + 1, incoming as int, chunk_blocks as int));
            assert(ranges@ + chunk_ranges(end + 1, incoming as int, chunk_blocks as int) =~= done
                + chunk_ranges(before + 1, incoming as int, chunk_blocks as int));
            before = end;
        }
        assert(ranges@ =~= chunk_ranges(start, incoming as int, chunk_blocks as int));
        FetchPlan { skipped_blocks: gap - planned, ranges }
    }

    /// Folds the queued heads and `first` into the newest of them, and counts
    /// the queued ones.
    pub fn drain_queued_heads(queued: &Vec<u64>, first: u64) -> (folded: (u64, u64))
        ensures
            is_newest(folded.0, first, queued@),
            folded.1 == queued@.len(),
    {
        let mut newest: u64 = first;
        let mut i: usize = 0;
        while i < queued.len()
            invariant
                i <= queued@.len(),
                is_newest(newest, first, queued@.take(i as int)),
            decreases queued@.len() - i,
        {
            let head: u64 = queued[i];
            let ghost shorter = queued@.take(i as int);
            let ghost longer = queued@.take(i + 1);
            assert(longer =~= shorter.push(head));
            if head > newest {
                newest = head;
            }
            i = i + 1;
            proof {
                assert(longer[longer.len() - 1] == head);
                if newest != first && newest != head {
                    let k = choose|k: int| 0 <= k < shorter.len() && shorter[k] == newest;
                    assert(longer[k] == newest);
                }
                assert forall|j: int| 0 <= j < longer.len() implies newest >= #[trigger] longer[j] by {
                    if j < shorter.len() {
                        assert(longer[j] == shorter[j]);
                    }
                }
            }
        }
        assert(queued@.take(i as int) =~= queued@);
        (newest, i as u64)
    }

    fn total_blocks(ranges: &Vec<(u64, u64)>) -> (total: u64)
        requires
            0 <= blocks_in(ranges@) <= u64::MAX,
            forall|i: int| 0 <= i < ranges@.len() ==> (#[trigger] ranges@[i]).0 <= ranges@[i].1,
        ensures
            total == blocks_in(ranges@),
    {
        let mut total: u64 = 0;
        let mut i: usize = 0;
        assert(ranges@.skip(0) =~= ranges@);
        while i < ranges.len()
            invariant
                i <= ranges@.len(),
                total + blocks_in(ranges@.skip(i as int)) == blocks_in(ranges@),
                blocks_in(ranges@) <= u64::MAX,
                forall|i: int|
                    0 <= i < ranges@.len() ==> (#[trigger] ranges@[i]).0 <= ranges@[i].1,
            decreases ranges@.len() - i,
        {
            let (from, to) = ranges[i];
            assert(ranges@.skip(i as int).drop_first() =~= ranges@.skip(i + 1));
            proof {
                lemma_blocks_nonnegative(ranges@.skip(i + 1));
            }
            total = total + (to - from + 1);
            i = i + 1;
        }
        total
    }

    pub fn latest_processed_block(&self) -> (block: u64)
        ensures
            block == self@.latest_processed,
    {
        self.latest_processed_block
    }

    /// Blocks lost so far, counted once for each read that lost it.
    pub fn missed_block_logs(&self) -> (blocks: u64)
        ensures
            blocks == self@.missed_blocks,
    {
        self.missed_block_logs
    }

    /// The loop has started.
    pub fn activate(&mut self) -> (action: DispatcherAction)
        requires
            old(self).wf(),
        ensures
            final(self).wf(),
            final(self)@ == (DispatcherState { is_active: true, ..old(self)@ }),
            action == action_for(old(self)@.pending),
    {
        self.is_active = true;
        self.next_action()
    }

    fn next_action(&self) -> (action: DispatcherAction)
        requires
            self.wf(),
        ensures
            action == action_for(self@.pending),
    {
        if self.done < self.ranges.len() {
            let (from, to) = self.ranges[self.done];
            DispatcherAction::FetchRange { from, to }
        } else {
            DispatcherAction::AwaitHead
        }
    }

    /// Takes a head and whatever queued up behind it, and starts a cycle if
    /// the newest of them is past the cursor.
    pub fn on_heads(&mut self, first: u64, queued: &Vec<u64>) -> (report: HeadReport)
        requires
            old(self).wf(),
            old(self)@.pending.len() == 0,
        ensures
            final(self).wf(),
            is_newest(report.head, first, queued@),
            report.drained_heads == queued@.len(),
            ({
                let latest = old(self)@.latest_processed;
                let cap = old(self)@.max_block_lag;
                let ranges = planned_ranges(latest, report.head, cap, old(self)@.chunk_blocks);
                let planned = planned_blocks(latest, report.head, cap);
                &&& report.action == action_for(ranges)
                &&& report.skipped_blocks == if planned == 0 {
                    0
                } else {
                    skipped_blocks(latest, report.head, cap)
                }
                &&& report.backfilled_blocks == if planned == 0 {
                    0
                } else {
                    planned - 1
                }
            }),
            final(self)@ == headed(old(self)@, report.head),
    {
        let (head, drained_heads) = Self::drain_queued_heads(queued, first);
        let plan = Self::plan_fetch(
            self.latest_processed_block,
            head,
            self.max_block_lag,
            self.backfill_chunk_blocks,
        );
        let ghost latest = self.latest_processed_block;
        let ghost planned = planned_blocks(latest, head, self.max_block_lag);
        proof {
            lemma_head_keeps_coherence(self@, head);
            law_plan_reads_the_newest_blocks(
                latest,
                head,
                self.max_block_lag,
                self.backfill_chunk_blocks,
            );
            lemma_contiguous_ranges(plan.ranges@, head - planned, head as int);
        }
        if plan.ranges.len() == 0 {
            assert(self@.pending =~= plan.ranges@);
            return HeadReport {
                head,
                drained_heads,
                skipped_blocks: 0,
                backfilled_blocks: 0,
                action: DispatcherAction::AwaitHead,
            };
        }
        let total: u64 = Self::total_blocks(&plan.ranges);
        self.head = head;
        self.ranges = plan.ranges;
        self.done = 0;
        assert(self.ranges@.skip(0) =~= self.ranges@);
        HeadReport {
            head,
            drained_heads,
            skipped_blocks: plan.skipped_blocks,
            backfilled_blocks: total - 1,
            action: self.next_action(),
        }
    }

    /// The current range has been read, with this many blocks lost by the read
    /// of the token transfers and by that of the wrapped token. The cursor
    /// moves to the range's end, so that a later range that fails leaves only
    /// what is past it.
    pub fn on_range_done(&mut self, erc20_lost: u64, weth9_lost: u64) -> (report: RangeReport)
        requires
            old(self).wf(),
            old(self)@.pending.len() > 0,
            old(self)@.missed_blocks + erc20_lost + weth9_lost <= u64::MAX,
        ensures
            final(self).wf(),
            final(self)@ == range_read(old(self)@, erc20_lost, weth9_lost),
            report.processed_blocks == old(self)@.pending[0].1 - old(self)@.pending[0].0 + 1,
            report.missed_blocks == erc20_lost + weth9_lost,
            report.action == action_for(old(self)@.pending.drop_first()),
    {
        proof {
            lemma_read_keeps_coherence(self@, erc20_lost, weth9_lost);
        }
        let ghost pending = self@.pending;
        assert(self.done < self.ranges.len());
        let (from, to) = self.ranges[self.done];
        self.latest_processed_block = to;
        self.done = self.done + 1;
        let missed_blocks: u64 = erc20_lost + weth9_lost;
        self.missed_block_logs = self.missed_block_logs + missed_blocks;
        assert(self@.pending =~= pending.drop_first());
        assert(pending[0] == (from, to));
        RangeReport { processed_blocks: to - from + 1, missed_blocks, action: self.next_action() }
    }

    /// The service is shutting down.
    pub fn on_cancelled(&mut self) -> (action: DispatcherAction)
        requires
            old(self).wf(),
        ensures
            final(self).wf(),
            final(self)@ == (DispatcherState { is_active: false, ..old(self)@ }),
            action == DispatcherAction::Stop,
    {
        self.is_active = false;
        DispatcherAction::Stop
    }

    /// No more heads will come: the loop ends, and the state stays as it is.
    pub fn on_heads_closed(&self) -> (action: DispatcherAction)
        ensures
            action == DispatcherAction::Stop,
    {
        DispatcherAction::Stop
    }

    /// How far the head of the latest cycle is behind `latest_head`.
    pub fn lag_behind(&self, latest_head: u64) -> (lag: u64)
        ensures
            lag == if latest_head > self@.head {
                latest_head - self@.head
            } else {
                0
            },
    {
        latest_head.saturating_sub(self.head)
    }

    /// Healthy once active, unless the cursor lags more than the chain allows.
    /// Before the first head and before the first processed block there is
    /// nothing to lag behind. Reads that fail do not count.
    pub fn health_status(&self, current_head: u64) -> (health: SubsystemHealth)
        ensures
            health@ == trouble(self@, current_head),
    {
        if !self.is_active {
            return SubsystemHealth::Unhealthy(
                String::from_str("dispatcher not active yet (startup) or shut down"),
            );
        }
        if current_head == 0 || self.latest_processed_block == 0 {
            return SubsystemHealth::Healthy;
        }
        let lag: u64 = current_head.saturating_sub(self.latest_processed_block);
        if lag > self.max_block_lag {
            let mut reason = String::from_str("block lag ");
            reason.append(decimal_text(lag).as_str());
            reason.append(" exceeds max ");
            reason.append(decimal_text(self.max_block_lag).as_str());
            reason.append(" (head=");
            reason.append(decimal_text(current_head).as_str());
            reason.append(", latest_processed=");
            reason.append(decimal_text(self.latest_processed_block).as_str());
            reason.append(")");
            return SubsystemHealth::Unhealthy(reason);
        }
        SubsystemHealth::Healthy
    }

    /// The wallet that wrapped or unwrapped native tokens, if `log` says so:
    /// it is a deposit to or a withdrawal from the wrapped-token contract.
    pub fn weth9_owner(&self, log: &Log) -> (owner: Option<Address>)
        ensures
            owner == weth9_owner_of(*log, self@.weth9),
    {
        if log.address != self.weth9_address {
            return None;
        }
        if log.topics.len() < 2 {
            return None;
        }
        let topic0 = log.topics[0];
        if topic0 != deposit_topic() && topic0 != withdrawal_topic() {
            return None;
        }
        Some(Address::from_word(log.topics[1]))
    }

    /// The event that a log of the wrapped-token contract gives rise to.
    pub fn on_weth9_log(&self, log: &Log) -> (event: Option<Erc20TransferEvent>)
        ensures
            event == (match weth9_owner_of(*log, self@.weth9) {
                Some(owner) => Some(
                    Erc20TransferEvent { owner, token: log.address, block: log.block_number },
                ),
                None => None,
            }),
    {
        match self.weth9_owner(log) {
            Some(owner) => Some(
                Erc20TransferEvent { owner, token: log.address, block: log.block_number },
            ),
            None => None,
        }
    }

    /// The events of a transfer: one for the sender, then one for the
    /// receiver. None for a log with another number of topics.
    pub fn on_erc20_log(log: &Log) -> (events: Vec<Erc20TransferEvent>)
        ensures
            events@ == transfer_events_of(*log),
            events@.len() == if log.topics@.len() == 3 {
                2nat
            } else {
                0nat
            },
            forall|i: int|
                0 <= i < events@.len() ==> {
                    &&& (#[trigger] events@[i]).owner == Address::of_word(log.topics@[i + 1])
                    &&& events@[i].token == log.address
                    &&& events@[i].block == log.block_number
                },
    {
        let mut events: Vec<Erc20TransferEvent> = Vec::new();
        if log.topics.len() != ERC20_TRANSFER_TOPICS_LEN {
            return events;
        }
        let token = log.address;
        let block = log.block_number;
        let from = Address::from_word(log.topics[1]);
        let to = Address::from_word(log.topics[2]);
        events.push(Erc20TransferEvent { owner: from, token, block });
        events.push(Erc20TransferEvent { owner: to, token, block });
        assert(events@ =~= transfer_events_of(*log));
        events
    }
}

proof fn lemma_head_keeps_coherence(state: DispatcherState, head: u64)
    requires
        coherent(state),
        state.pending.len() == 0,
    ensures
        coherent(headed(state, head)),
        headed(state, head).pending.len() == 0 <==> planned_blocks(
            state.latest_processed,
            head,
            state.max_block_lag,
        ) == 0,
{
    let planned = planned_blocks(state.latest_processed, head, state.max_block_lag);
    let ranges = headed(state, head).pending;
    law_plan_reads_the_newest_blocks(
        state.latest_processed,
        head,
        state.max_block_lag,
        state.chunk_blocks,
    );
    lemma_contiguous_ranges(ranges, head - planned, head as int);
}

proof fn lemma_read_keeps_coherence(state: DispatcherState, erc20_lost: u64, weth9_lost: u64)
    requires
        coherent(state),
        state.pending.len() > 0,
    ensures
        coherent(range_read(state, erc20_lost, weth9_lost)),
        state.latest_processed <= state.pending[0].1 <= state.head,
        state.latest_processed != 0 ==> state.latest_processed < state.pending[0].1,
        state.pending[0].0 <= state.pending[0].1,
{
    let rest = state.pending.drop_first();
    let cursor = state.pending[0].1 as int;
    assert(contiguous(rest, cursor, state.head as int));
    lemma_contiguous_ranges(rest, cursor, state.head as int);
    if rest.len() > 0 {
        assert(rest[0].0 == cursor + 1);
    }
}

/// One step of the dispatcher's loop.
pub enum DispatcherStep {
    /// A head and those queued behind it were taken; `newest` is their newest.
    Heads { newest: u64, first: u64, queued: Seq<u64> },
    /// The next range was read.
    Range { erc20_lost: u64, weth9_lost: u64 },
}

/// Heads are taken only when no range is pending, and folded into their newest;
/// a range is read only while one is pending.
pub open spec fn can_step(state: DispatcherState, step: DispatcherStep) -> bool {
    match step {
        DispatcherStep::Heads { newest, first, queued } => state.pending.len() == 0 && is_newest(
            newest,
            first,
            queued,
        ),
        DispatcherStep::Range { .. } => state.pending.len() > 0,
    }
}

/// The state after a step.
pub open spec fn stepped(state: DispatcherState, step: DispatcherStep) -> DispatcherState {
    match step {
        DispatcherStep::Heads { newest, .. } => headed(state, newest),
        DispatcherStep::Range { erc20_lost, weth9_lost } => range_read(
            state,
            erc20_lost,
            weth9_lost,
        ),
    }
}

/// The state after a whole run of steps.
pub open spec fn after_run(state: DispatcherState, steps: Seq<DispatcherStep>) -> DispatcherState
    decreases steps.len(),
{
    if steps.len() == 0 {
        state
    } else {
        stepped(after_run(state, steps.drop_last()), steps.last())
    }
}

/// Each step of the run is one that the dispatcher takes where it then is.
pub open spec fn is_run(state: DispatcherState, steps: Seq<DispatcherStep>) -> bool
    decreases steps.len(),
{
    steps.len() > 0 ==> {
        &&& is_run(state, steps.drop_last())
        &&& can_step(after_run(state, steps.drop_last()), steps.last())
    }
}

proof fn lemma_run_is_coherent(start: DispatcherState, steps: Seq<DispatcherStep>)
    requires
        coherent(start),
        is_run(start, steps),
    ensures
        coherent(after_run(start, steps)),
        after_run(start, steps).max_block_lag == start.max_block_lag,
    decreases steps.len(),
{
    if steps.len() > 0 {
        let before = after_run(start, steps.drop_last());
        lemma_run_is_coherent(start, steps.drop_last());
        match steps.last() {
            DispatcherStep::Heads { newest, .. } => {
                lemma_head_keeps_coherence(before, newest);
            },
            DispatcherStep::Range { erc20_lost, weth9_lost } => {
                lemma_read_keeps_coherence(before, erc20_lost, weth9_lost);
            },
        }
    }
}

/// `newest` is the largest of `cursor` and all heads that came in the run.
pub open spec fn is_newest_of_run(
    newest: u64,
    cursor: u64,
    steps: Seq<DispatcherStep>,
) -> bool {
    &&& newest >= cursor
    &&& forall|i: int|
        0 <= i < steps.len() ==> (#[trigger] steps[i] matches DispatcherStep::Heads {
            first,
            queued,
            ..
        } ==> newest >= first && forall|j: int|
            0 <= j < queued.len() ==> newest >= #[trigger] queued[j])
    &&& newest == cursor || exists|i: int|
        0 <= i < steps.len() && (#[trigger] steps[i] matches DispatcherStep::Heads {
            first,
            queued,
            ..
        } && (newest == first || queued.contains(newest)))
}

/// A run that starts with nothing pending, on a chain that backfills at least
/// one block: whatever heads come, in whatever order and batches, and whatever
/// the reads lose, the latest cycle is that of the newest head, the cursor
/// never passes it, and once no range is pending the cursor is the largest of
/// where it started and all the heads.
pub proof fn law_run_ends_at_the_newest_head(start: DispatcherState, steps: Seq<DispatcherStep>)
    requires
        coherent(start),
        start.pending.len() == 0,
        start.max_block_lag >= 1,
        is_run(start, steps),
    ensures
        ({
            let end = after_run(start, steps);
            &&& is_newest_of_run(end.head, start.latest_processed, steps)
            &&& end.latest_processed <= end.head
            &&& end.pending.len() == 0 ==> is_newest_of_run(
                end.latest_processed,
                start.latest_processed,
                steps,
            )
        }),
    decreases steps.len(),
{
    if steps.len() > 0 {
        let earlier = steps.drop_last();
        let before = after_run(start, earlier);
        let cursor = start.latest_processed;
        let end = after_run(start, steps);
        law_run_ends_at_the_newest_head(start, earlier);
        lemma_run_is_coherent(start, earlier);
        lemma_run_is_coherent(start, steps);
        match steps.last() {
            DispatcherStep::Heads { newest, .. } => {
                lemma_head_keeps_coherence(before, newest);
                assert(end.head >= before.head && end.head >= newest);
            },
            DispatcherStep::Range { erc20_lost, weth9_lost } => {
                lemma_read_keeps_coherence(before, erc20_lost, weth9_lost);
            },
        }
        assert forall|i: int| 0 <= i < steps.len() implies (
        #[trigger] steps[i] matches DispatcherStep::Heads { first, queued, .. } ==> end.head
            >= first && forall|j: int|
            0 <= j < queued.len() ==> end.head >= #[trigger] queued[j]) by {
            if i < earlier.len() {
                assert(steps[i] == earlier[i]);
            }
        }
        if end.head == before.head {
            lemma_newest_of_longer_run(end.head, cursor, steps);
        } else {
            assert(steps[steps.len() - 1] == steps.last());
        }
        if end.pending.len() > 0 {
            lemma_read_keeps_coherence(end, 0, 0);
        }
    }
}

proof fn lemma_newest_of_longer_run(newest: u64, cursor: u64, steps: Seq<DispatcherStep>)
    requires
        steps.len() > 0,
        is_newest_of_run(newest, cursor, steps.drop_last()),
    ensures
        newest == cursor || exists|i: int|
            0 <= i < steps.len() && (#[trigger] steps[i] matches DispatcherStep::Heads {
                first,
                queued,
                ..
            } && (newest == first || queued.contains(newest))),
{
    let earlier = steps.drop_last();
    if newest != cursor {
        let i = choose|i: int|
            0 <= i < earlier.len() && (#[trigger] earlier[i] matches DispatcherStep::Heads {
                first,
                queued,
                ..
            } && (newest == first || queued.contains(newest)));
        assert(steps[i] == earlier[i]);
    }
}

/// On the way the cursor never falls: at each step of a run it is at least
/// where it was at any step before.
pub proof fn law_cursor_never_falls(
    start: DispatcherState,
    steps: Seq<DispatcherStep>,
    earlier: int,
    later: int,
)
    requires
        coherent(start),
        is_run(start, steps),
        0 <= earlier <= later <= steps.len(),
    ensures
        after_run(start, steps.take(earlier)).latest_processed <= after_run(
            start,
            steps.take(later),
        ).latest_processed,
    decreases steps.len(), later - earlier,
{
    if later < steps.len() {
        let shorter = steps.drop_last();
        law_cursor_never_falls(start, shorter, earlier, later);
        assert(shorter.take(earlier) =~= steps.take(earlier));
        assert(shorter.take(later) =~= steps.take(later));
    } else if earlier < later {
        let shorter = steps.drop_last();
        law_cursor_never_falls(start, shorter, earlier, later - 1);
        assert(shorter.take(earlier) =~= steps.take(earlier));
        assert(shorter.take(later - 1) =~= shorter);
        assert(steps.take(later) =~= steps);
        lemma_run_is_coherent(start, shorter);
        if let DispatcherStep::Range { erc20_lost, weth9_lost } = steps.last() {
            lemma_read_keeps_coherence(after_run(start, shorter), erc20_lost, weth9_lost);
        }
    }
}

/// A head at or below a cursor that is set reads nothing: taking it, alone or
/// with others like it, leaves the dispatcher as it was, waiting for a head.
pub proof fn law_stale_head_changes_nothing(state: DispatcherState, head: u64)
    requires
        coherent(state),
        state.pending.len() == 0,
        state.latest_processed != 0,
        head <= state.latest_processed,
    ensures
        headed(state, head) == state,
        action_for(headed(state, head).pending) == DispatcherAction::AwaitHead,
{
    assert(headed(state, head).pending =~= state.pending);
}

/// How many blocks one read loses over a whole run, against a provider whose
/// answer depends on the range alone.
pub open spec fn lost_in_run(
    start: DispatcherState,
    steps: Seq<DispatcherStep>,
    provider: spec_fn((u64, u64)) -> FetchOutcome,
) -> nat
    decreases steps.len(),
{
    if steps.len() == 0 {
        0
    } else {
        let earlier = steps.drop_last();
        let range = after_run(start, earlier).pending[0];
        lost_in_run(start, earlier, provider) + match steps.last() {
            DispatcherStep::Heads { .. } => 0,
            DispatcherStep::Range { .. } => traverse(
                whole_range(range.0, range.1),
                provider,
            ).lost.len(),
        }
    }
}

/// Each range of the run was read from the two providers by bisection, and
/// reported with the counters of the two traversals.
pub open spec fn reads_from(
    start: DispatcherState,
    steps: Seq<DispatcherStep>,
    erc20: spec_fn((u64, u64)) -> FetchOutcome,
    weth9: spec_fn((u64, u64)) -> FetchOutcome,
) -> bool
    decreases steps.len(),
{
    steps.len() > 0 ==> {
        let (from, to) = after_run(start, steps.drop_last()).pending[0];
        &&& reads_from(start, steps.drop_last(), erc20, weth9)
        &&& steps.last() matches DispatcherStep::Range { erc20_lost, weth9_lost } ==> {
            &&& erc20_lost == traverse(whole_range(from, to), erc20).lost_blocks
            &&& weth9_lost == traverse(whole_range(from, to), weth9).lost_blocks
        }
    }
}

/// Over a whole run the count of missed blocks grows by exactly the number of
/// blocks that the read of the transfers lost and the number that the read of
/// the wrapped token lost, together. Taking heads does not change it.
pub proof fn law_missed_blocks_are_the_lost_ones(
    start: DispatcherState,
    steps: Seq<DispatcherStep>,
    erc20: spec_fn((u64, u64)) -> FetchOutcome,
    weth9: spec_fn((u64, u64)) -> FetchOutcome,
)
    requires
        coherent(start),
        is_run(start, steps),
        reads_from(start, steps, erc20, weth9),
    ensures
        after_run(start, steps).missed_blocks == start.missed_blocks + lost_in_run(
            start,
            steps,
            erc20,
        ) + lost_in_run(start, steps, weth9),
    decreases steps.len(),
{
    if steps.len() > 0 {
        let earlier = steps.drop_last();
        let before = after_run(start, earlier);
        law_missed_blocks_are_the_lost_ones(start, earlier, erc20, weth9);
        lemma_run_is_coherent(start, earlier);
        if let DispatcherStep::Range { erc20_lost, weth9_lost } = steps.last() {
            let (from, to) = before.pending[0];
            lemma_read_keeps_coherence(before, erc20_lost, weth9_lost);
            lemma_whole_range_covers(from, to);
            law_bisect_resolves_every_block(whole_range(from, to), erc20, from as int, to as int);
            law_bisect_resolves_every_block(whole_range(from, to), weth9, from as int, to as int);
        }
    }
}

/// In every state that a dispatcher can reach its pending ranges lead from the
/// cursor to the head, and it backfills at least one block, so that what is
/// stated of runs holds of it.
pub proof fn law_dispatcher_is_coherent(dispatcher: Erc20TransferEventDispatcher)
    requires
        dispatcher.wf(),
    ensures
        coherent(dispatcher@),
        dispatcher@.chunk_blocks >= 1,
        dispatcher@.max_block_lag >= 1,
{
}

/// Once a cycle has run its ranges, the cursor is at the cycle's head: nothing
/// between was left out.
pub proof fn law_finished_cycle_reaches_its_head(dispatcher: Erc20TransferEventDispatcher)
    requires
        dispatcher.wf(),
        dispatcher@.pending.len() == 0,
    ensures
        dispatcher@.latest_processed == dispatcher@.head,
{
}

/// An active dispatcher is unhealthy if and only if it lags more than allowed,
/// so it is healthy again as soon as it has caught up.
pub proof fn law_only_lag_is_unhealthy(state: DispatcherState, current_head: u64)
    requires
        state.is_active,
        state.latest_processed != 0,
    ensures
        trouble(state, current_head) is Some <==> current_head > state.latest_processed
            + state.max_block_lag,
{
}

/// The cursor only moves forward: the end of the next range to be read is past
/// it, and never past the cycle's head.
pub proof fn law_cursor_moves_forward(dispatcher: Erc20TransferEventDispatcher)
    requires
        dispatcher.wf(),
        dispatcher@.pending.len() > 0,
    ensures
        dispatcher@.latest_processed != 0 ==> dispatcher@.latest_processed
            < dispatcher@.pending[0].1,
        dispatcher@.pending[0].0 <= dispatcher@.pending[0].1 <= dispatcher@.head,
{
    lemma_read_keeps_coherence(dispatcher@, 0, 0);
}

pub open spec fn weth9_owner_of(log: Log, weth9: Address) -> Option<Address> {
    if log.address == weth9 && log.topics@.len() >= 2 && (log.topics@[0] == deposit_signature()
        || log.topics@[0] == withdrawal_signature()) {
        Some(Address::of_word(log.topics@[1]))
    } else {
        None
    }
}

pub open spec fn transfer_events_of(log: Log) -> Seq<Erc20TransferEvent> {
    if log.topics@.len() == ERC20_TRANSFER_TOPICS_LEN {
        seq![
            Erc20TransferEvent {
                owner: Address::of_word(log.topics@[1]),
                token: log.address,
                block: log.block_number,
            },
            Erc20TransferEvent {
                owner: Address::of_word(log.topics@[2]),
                token: log.address,
                block: log.block_number,
            },
        ]
    } else {
        Seq::empty()
    }
}

proof fn lemma_blocks_nonnegative(ranges: Seq<(u64, u64)>)
    requires
        forall|i: int| 0 <= i < ranges.len() ==> (#[trigger] ranges[i]).0 <= ranges[i].1,
    ensures
        blocks_in(ranges) >= 0,
    decreases ranges.len(),
{
    if ranges.len() > 0 {
        let rest = ranges.drop_first();
        assert forall|i: int| 0 <= i < rest.len() implies (#[trigger] rest[i]).0 <= rest[i].1 by {
            assert(rest[i] == ranges[i + 1]);
        }
        lemma_blocks_nonnegative(rest);
    }
}

proof fn lemma_contiguous_ranges(ranges: Seq<(u64, u64)>, before: int, last: int)
    requires
        contiguous(ranges, before, last),
    ensures
        before <= last,
        ranges.len() == 0 <==> before == last,
        forall|i: int| 0 <= i < ranges.len() ==> (#[trigger] ranges[i]).0 <= ranges[i].1,
    decreases ranges.len(),
{
    if ranges.len() > 0 {
        let rest = ranges.drop_first();
        lemma_contiguous_ranges(rest, ranges[0].1 as int, last);
        assert forall|i: int| 0 <= i < ranges.len() implies (#[trigger] ranges[i]).0
            <= ranges[i].1 by {
            if i > 0 {
                assert(ranges[i] == rest[i - 1]);
            }
        }
    }
}

/// A log with three topics concerns two wallets, those in the last twenty bytes
/// of the second and the third topic, in this order, whatever its data say.
/// Both events name the log's contract and its block. Another number of topics
/// concerns nobody.
pub proof fn law_transfer_concerns_both_parties(log: Log)
    ensures
        log.topics@.len() == 3 ==> transfer_events_of(log).len() == 2,
        log.topics@.len() != 3 ==> transfer_events_of(log).len() == 0,
        forall|k: int|
            0 <= k < transfer_events_of(log).len() ==> {
                let event = #[trigger] transfer_events_of(log)[k];
                &&& event.owner.hi == log.topics@[k + 1].hi % 0x1_0000_0000
                &&& event.owner.lo == log.topics@[k + 1].lo
                &&& event.token == log.address
                &&& event.block == log.block_number
            },
{
}

/// The value of a transfer does not matter: logs that differ in their data
/// alone give rise to the same events.
pub proof fn law_transfer_value_does_not_matter(log: Log, other: Log)
    requires
        log.address == other.address,
        log.topics@ == other.topics@,
        log.block_number == other.block_number,
    ensures
        transfer_events_of(log) == transfer_events_of(other),
        forall|weth9: Address| #[trigger]
            weth9_owner_of(log, weth9) == weth9_owner_of(other, weth9),
{
}

/// Sender and receiver are treated alike: a transfer the other way round has
/// the same two events, in the other order.
pub proof fn law_transfer_is_symmetric(log: Log, back: Log)
    requires
        log.topics@.len() == 3,
        back.topics@ == seq![log.topics@[0], log.topics@[2], log.topics@[1]],
        back.address == log.address,
        back.block_number == log.block_number,
    ensures
        transfer_events_of(back) == transfer_events_of(log).reverse(),
{
    assert(transfer_events_of(back) =~= transfer_events_of(log).reverse());
}

/// A log of the wrapped-token contract concerns a wallet if and only if its
/// first topic is that of a deposit or of a withdrawal and it has a second one,
/// in whose last twenty bytes the wallet is. A log of another contract never
/// does.
pub proof fn law_wrapping_concerns_the_wallet(log: Log, weth9: Address)
    ensures
        weth9_owner_of(log, weth9) is Some <==> log.address == weth9 && log.topics@.len() >= 2 && (
        (log.topics@[0].hi == 0xe1fffcc4923d04b559f4d29a8bfc6cda && log.topics@[0].lo
            == 0x04eb5b0d3c460751c2402c5c5cc9109c) || (log.topics@[0].hi
            == 0x7fcf532c15f0a6db0bd6d0e038bea71d && log.topics@[0].lo
            == 0x30d808c7d98cb3bf7268a95bf5081b65)),
        weth9_owner_of(log, weth9) matches Some(owner) ==> owner.hi == log.topics@[1].hi
            % 0x1_0000_0000 && owner.lo == log.topics@[1].lo,
{
}

proof fn lemma_contiguous_covers(ranges: Seq<(u64, u64)>, before: int, last: int, block: int)
    requires
        contiguous(ranges, before, last),
    ensures
        (exists|i: int| 0 <= i < ranges.len() && (#[trigger] ranges[i]).0 <= block <= ranges[i].1)
            <==> before < block <= last,
        forall|i: int, j: int|
            0 <= i < j < ranges.len() ==> (#[trigger] ranges[i]).1 < (#[trigger] ranges[j]).0,
        forall|i: int|
            0 <= i < ranges.len() ==> before < (#[trigger] ranges[i]).0 && ranges[i].1 <= last,
    decreases ranges.len(),
{
    if ranges.len() > 0 {
        let rest = ranges.drop_first();
        lemma_contiguous_ranges(rest, ranges[0].1 as int, last);
        lemma_contiguous_covers(rest, ranges[0].1 as int, last, block);
        assert forall|i: int, j: int| 0 <= i < j < ranges.len() implies (#[trigger] ranges[i]).1 < (
        #[trigger] ranges[j]).0 by {
            assert(ranges[j] == rest[j - 1]);
            if i > 0 {
                assert(ranges[i] == rest[i - 1]);
            }
        }
        assert forall|i: int| 0 <= i < ranges.len() implies before < (#[trigger] ranges[i]).0
            && ranges[i].1 <= last by {
            if i > 0 {
                assert(ranges[i] == rest[i - 1]);
            }
        }
        if before < block <= last {
            if block <= ranges[0].1 {
                assert(ranges[0].0 <= block <= ranges[0].1);
            } else {
                let k = choose|k: int|
                    0 <= k < rest.len() && (#[trigger] rest[k]).0 <= block <= rest[k].1;
                assert(ranges[k + 1] == rest[k]);
            }
        }
    }
}

/// Which blocks are read for a head: with no cursor yet the head alone, else
/// each block that is past the cursor, not past the head, and among the newest
/// that the cap allows for. Each is read once, older ones first.
pub proof fn law_block_is_read_if_it_is_new(
    latest: u64,
    incoming: u64,
    max_backfill: u64,
    chunk: u64,
    block: u64,
)
    requires
        chunk >= 1,
    ensures
        (exists|i: int|
            0 <= i < planned_ranges(latest, incoming, max_backfill, chunk).len() && (
            #[trigger] planned_ranges(latest, incoming, max_backfill, chunk)[i]).0 <= block
                <= planned_ranges(latest, incoming, max_backfill, chunk)[i].1) <==> (if latest
            == 0 {
            block == incoming
        } else {
            latest < block <= incoming && incoming - block < max_backfill
        }),
        forall|i: int, j: int|
            0 <= i < j < planned_ranges(latest, incoming, max_backfill, chunk).len() ==> (
            #[trigger] planned_ranges(latest, incoming, max_backfill, chunk)[i]).1 < (
            #[trigger] planned_ranges(latest, incoming, max_backfill, chunk)[j]).0,
{
    law_plan_reads_the_newest_blocks(latest, incoming, max_backfill, chunk);
    lemma_contiguous_covers(
        planned_ranges(latest, incoming, max_backfill, chunk),
        incoming - planned_blocks(latest, incoming, max_backfill),
        incoming as int,
        block as int,
    );
}

/// Blocks are given up if and only if a cursor is set and the gap exceeds the
/// cap, and then exactly what exceeds it.
pub proof fn law_only_the_excess_is_skipped(latest: u64, incoming: u64, max_backfill: u64)
    ensures
        skipped_blocks(latest, incoming, max_backfill) == if latest != 0 && incoming - latest
            > max_backfill {
            incoming - latest - max_backfill
        } else {
            0
        },
{
}

/// The next range to be read is the oldest that is left; with none left the
/// dispatcher waits for a head.
pub proof fn law_oldest_range_is_next(pending: Seq<(u64, u64)>)
    ensures
        action_for(pending) is AwaitHead <==> pending.len() == 0,
        pending.len() > 0 ==> (action_for(pending) matches DispatcherAction::FetchRange {
            from,
            to,
        } && from == pending.first().0 && to == pending.first().1),
{
}

/// Taking heads moves no cursor, counts no loss and changes nothing that the
/// dispatcher was set up with.
pub proof fn law_heads_only_plan(state: DispatcherState, head: u64)
    ensures
        headed(state, head).latest_processed == state.latest_processed,
        headed(state, head).missed_blocks == state.missed_blocks,
        headed(state, head).is_active == state.is_active,
        headed(state, head).weth9 == state.weth9,
        headed(state, head).max_block_lag == state.max_block_lag,
        headed(state, head).chunk_blocks == state.chunk_blocks,
        headed(state, head).pending == planned_ranges(
            state.latest_processed,
            head,
            state.max_block_lag,
            state.chunk_blocks,
        ),
        headed(state, head).head == head || headed(state, head).head == state.head,
{
}

/// Reading the next range moves the cursor to its end and no further, drops
/// that range and no other, and counts what both reads lost.
pub proof fn law_reading_takes_one_range(state: DispatcherState, erc20_lost: u64, weth9_lost: u64)
    requires
        state.pending.len() > 0,
    ensures
        ({
            let after = range_read(state, erc20_lost, weth9_lost);
            &&& after.latest_processed == state.pending.first().1
            &&& seq![state.pending.first()] + after.pending == state.pending
            &&& after.missed_blocks - state.missed_blocks == erc20_lost + weth9_lost
            &&& after.head == state.head
            &&& after.is_active == state.is_active
            &&& after.weth9 == state.weth9
            &&& after.max_block_lag == state.max_block_lag
            &&& after.chunk_blocks == state.chunk_blocks
        }),
{
    assert(seq![state.pending.first()] + state.pending.drop_first() =~= state.pending);
}

/// A dispatcher that is not active is never healthy; one that is active has
/// nothing to lag behind before the first head and before the first processed
/// block.
pub proof fn law_health_before_the_first_block(state: DispatcherState, current_head: u64)
    ensures
        !state.is_active ==> trouble(state, current_head) is Some,
        state.is_active && (current_head == 0 || state.latest_processed == 0) ==> trouble(
            state,
            current_head,
        ) is None,
{
}

} // verus!
