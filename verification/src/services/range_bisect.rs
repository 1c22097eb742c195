//! Fetching a range of blocks from a provider that may refuse it.
//!
//! A refused range of several blocks is split in half and both halves are
//! asked for again, down to single blocks. Only a block that is refused on its
//! own is lost. Subranges resolve oldest first, so logs keep their order.
use vstd::prelude::*;

verus! {

/// How a provider answered a request for a range.
#[derive(Clone, Copy, Debug, PartialEq, Eq, Structural)]
pub enum FetchOutcome {
    /// The range came back with this many logs.
    Fetched { logs: u64 },
    Failed,
}

/// The state of one traversal, as a mathematical value: the ranges still to be
/// asked for with the next one last, and what was counted so far.
pub struct BisectState {
    pub pending: Seq<(u64, u64)>,
    pub handled_logs: nat,
    pub lost_blocks: nat,
}

/// The traversal of `from..=to` before its first request.
pub open spec fn whole_range(from: u64, to: u64) -> BisectState {
    BisectState { pending: seq![(from, to)], handled_logs: 0, lost_blocks: 0 }
}

/// Where a refused range is cut: the last block of its older half.
pub open spec fn split_point(from: u64, to: u64) -> u64 {
    (from + (to - from) / 2) as u64
}

/// One answer applied to the range that was asked for.
pub open spec fn bisect_step(state: BisectState, outcome: FetchOutcome) -> BisectState {
    let (from, to) = state.pending.last();
    let rest = state.pending.drop_last();
    match outcome {
        FetchOutcome::Fetched { logs } => BisectState {
            pending: rest,
            handled_logs: state.handled_logs + logs as nat,
            lost_blocks: state.lost_blocks,
        },
        FetchOutcome::Failed => if from < to {
            let mid = split_point(from, to);
            BisectState {
                pending: rest.push(((mid + 1) as u64, to)).push((from, mid)),
                handled_logs: state.handled_logs,
                lost_blocks: state.lost_blocks,
            }
        } else {
            BisectState {
                pending: rest,
                handled_logs: state.handled_logs,
                lost_blocks: state.lost_blocks + 1,
            }
        },
    }
}

/// The pending ranges are non-empty and follow one another without a gap:
/// the next one starts at `first` and the last to be asked for ends at `last`.
pub open spec fn covers(pending: Seq<(u64, u64)>, first: int, last: int) -> bool
    decreases pending.len(),
{
    if pending.len() == 0 {
        first == last + 1
    } else {
        let (from, to) = pending.last();
        &&& from == first
        &&& from <= to
        &&& covers(pending.drop_last(), to + 1, last)
    }
}

/// The traversal of one range.
#[derive(Debug)]
pub struct RangeBisect {
    pending: Vec<(u64, u64)>,
    handled_logs: u64,
    lost_blocks: u64,
}

impl View for RangeBisect {
    type V = BisectState;

    closed spec fn view(&self) -> BisectState {
        BisectState {
            pending: self.pending@,
            handled_logs: self.handled_logs as nat,
            lost_blocks: self.lost_blocks as nat,
        }
    }
}

impl RangeBisect {
    pub fn new(from: u64, to: u64) -> (bisect: RangeBisect)
        ensures
            bisect@ == whole_range(from, to),
    {
        let mut pending: Vec<(u64, u64)> = Vec::new();
        pending.push((from, to));
        assert(pending@ =~= seq![(from, to)]);
        RangeBisect { pending, handled_logs: 0, lost_blocks: 0 }
    }

    /// The inclusive range to ask for next; none once everything is resolved.
    pub fn current(&self) -> (range: Option<(u64, u64)>)
        ensures
            range == (if self@.pending.len() == 0 {
                None
            } else {
                Some(self@.pending.last())
            }),
    {
        let len: usize = self.pending.len();
        if len == 0 {
            None
        } else {
            Some(self.pending[len - 1])
        }
    }

    /// Applies the provider's answer to the current range.
    pub fn advance(&mut self, outcome: FetchOutcome)
        requires
            old(self)@.pending.len() > 0,
            outcome matches FetchOutcome::Fetched { logs } ==> old(self)@.handled_logs + logs
                <= u64::MAX,
            outcome is Failed ==> old(self)@.lost_blocks < u64::MAX,
        ensures
            final(self)@ == bisect_step(old(self)@, outcome),
    {
        match self.pending.pop() {
            None => {},
            Some((from, to)) => match outcome {
                FetchOutcome::Fetched { logs } => {
                    self.handled_logs = self.handled_logs + logs;
                },
                FetchOutcome::Failed => {
                    if from < to {
                        let mid: u64 = from + (to - from) / 2;
                        self.pending.push((mid + 1, to));
                        self.pending.push((from, mid));
                    } else {
                        self.lost_blocks = self.lost_blocks + 1;
                    }
                },
            },
        }
    }

    /// Logs handed on so far.
    pub fn handled_logs(&self) -> (n: u64)
        ensures
            n == self@.handled_logs,
    {
        self.handled_logs
    }

    /// Blocks whose logs were given up so far.
    pub fn lost_blocks(&self) -> (n: u64)
        ensures
            n == self@.lost_blocks,
    {
        self.lost_blocks
    }
}

/// What a whole traversal does with its blocks, in the order it happens.
pub struct Traversal {
    /// The ranges that came back.
    pub fetched: Seq<(u64, u64)>,
    /// The blocks that were refused on their own.
    pub lost: Seq<u64>,
    /// How many requests were made.
    pub requests: nat,
    /// What the counters show at the end.
    pub handled_logs: nat,
    pub lost_blocks: nat,
}

/// A measure of the work left, which every answer lowers.
pub open spec fn work(pending: Seq<(u64, u64)>) -> nat
    decreases pending.len(),
{
    if pending.len() == 0 {
        0
    } else {
        let (from, to) = pending.last();
        work(pending.drop_last()) + (if from < to {
            2 * (to - from) as nat + 1
        } else {
            1
        })
    }
}

proof fn lemma_step_lowers_work(state: BisectState, outcome: FetchOutcome)
    requires
        state.pending.len() > 0,
    ensures
        work(bisect_step(state, outcome).pending) < work(state.pending),
{
    let (from, to) = state.pending.last();
    let rest = state.pending.drop_last();
    if outcome is Failed && from < to {
        let mid = split_point(from, to);
        let upper = rest.push(((mid + 1) as u64, to));
        let both = upper.push((from, mid));
        assert(both.drop_last() =~= upper);
        assert(upper.drop_last() =~= rest);
        assert(work(both) == work(upper) + (if from < mid {
            2 * (mid - from) as nat + 1
        } else {
            1
        }));
    }
}

/// Follows a traversal to its end, against a provider whose answer depends on
/// the range alone.
pub open spec fn traverse(
    state: BisectState,
    provider: spec_fn((u64, u64)) -> FetchOutcome,
) -> Traversal
    decreases work(state.pending),
    via traverse_decreases
{
    if state.pending.len() == 0 {
        Traversal {
            fetched: Seq::empty(),
            lost: Seq::empty(),
            requests: 0,
            handled_logs: state.handled_logs,
            lost_blocks: state.lost_blocks,
        }
    } else {
        let range = state.pending.last();
        let outcome = provider(range);
        let after = traverse(bisect_step(state, outcome), provider);
        Traversal {
            fetched: if outcome is Fetched {
                seq![range] + after.fetched
            } else {
                after.fetched
            },
            lost: if outcome is Failed && range.0 >= range.1 {
                seq![range.0] + after.lost
            } else {
                after.lost
            },
            requests: after.requests + 1,
            handled_logs: after.handled_logs,
            lost_blocks: after.lost_blocks,
        }
    }
}

#[via_fn]
proof fn traverse_decreases(
    state: BisectState,
    provider: spec_fn((u64, u64)) -> FetchOutcome,
) {
    if state.pending.len() > 0 {
        lemma_step_lowers_work(state, provider(state.pending.last()));
    }
}

/// Block `b` lies in one of the fetched ranges.
pub open spec fn fetched_has(fetched: Seq<(u64, u64)>, b: int) -> bool {
    exists|i: int| 0 <= i < fetched.len() && (#[trigger] fetched[i]).0 <= b <= fetched[i].1
}

/// Block `b` is one of the lost ones.
pub open spec fn lost_has(lost: Seq<u64>, b: int) -> bool {
    exists|i: int| 0 <= i < lost.len() && #[trigger] lost[i] == b
}

/// The logs that the fetched ranges hold together.
pub open spec fn logs_in(
    fetched: Seq<(u64, u64)>,
    provider: spec_fn((u64, u64)) -> FetchOutcome,
) -> nat
    decreases fetched.len(),
{
    if fetched.len() == 0 {
        0
    } else {
        provider(fetched[0])->logs as nat + logs_in(fetched.drop_first(), provider)
    }
}

/// Every block of `first..=last` is fetched or lost, no block is both and none
/// outside is touched; ranges and lost blocks come oldest first; what came
/// back and what was lost is what the provider said of exactly that range or
/// block; and the counters count it.
pub open spec fn resolves(
    t: Traversal,
    state: BisectState,
    provider: spec_fn((u64, u64)) -> FetchOutcome,
    first: int,
    last: int,
) -> bool {
    &&& forall|b: int|
        first <= b <= last ==> (#[trigger] fetched_has(t.fetched, b)) != lost_has(t.lost, b)
    &&& forall|b: int| #[trigger] fetched_has(t.fetched, b) ==> first <= b <= last
    &&& forall|b: int| #[trigger] lost_has(t.lost, b) ==> first <= b <= last
    &&& forall|i: int, j: int|
        0 <= i < j < t.fetched.len() ==> (#[trigger] t.fetched[i]).1 < (#[trigger] t.fetched[j]).0
    &&& forall|i: int, j: int| 0 <= i < j < t.lost.len() ==> #[trigger] t.lost[i] < #[trigger] t.lost[j]
    &&& forall|i: int|
        0 <= i < t.fetched.len() ==> provider(#[trigger] t.fetched[i]) is Fetched
    &&& forall|i: int|
        0 <= i < t.lost.len() ==> provider((#[trigger] t.lost[i], t.lost[i])) is Failed
    &&& t.handled_logs == state.handled_logs + logs_in(t.fetched, provider)
    &&& t.lost_blocks == state.lost_blocks + t.lost.len()
}

proof fn lemma_prepend_fetched(range: (u64, u64), rest: Seq<(u64, u64)>, b: int)
    ensures
        fetched_has(seq![range] + rest, b) == (range.0 <= b <= range.1 || fetched_has(rest, b)),
{
    let all = seq![range] + rest;
    if range.0 <= b <= range.1 {
        assert(all[0] == range);
    }
    if fetched_has(rest, b) {
        let i = choose|i: int| 0 <= i < rest.len() && (#[trigger] rest[i]).0 <= b <= rest[i].1;
        assert(all[i + 1] == rest[i]);
    }
    if fetched_has(all, b) {
        let i = choose|i: int| 0 <= i < all.len() && (#[trigger] all[i]).0 <= b <= all[i].1;
        if i > 0 {
            assert(rest[i - 1] == all[i]);
        }
    }
}

proof fn lemma_prepend_lost(block: u64, rest: Seq<u64>, b: int)
    ensures
        lost_has(seq![block] + rest, b) == (block == b || lost_has(rest, b)),
{
    let all = seq![block] + rest;
    if block == b {
        assert(all[0] == block);
    }
    if lost_has(rest, b) {
        let i = choose|i: int| 0 <= i < rest.len() && #[trigger] rest[i] == b;
        assert(all[i + 1] == rest[i]);
    }
    if lost_has(all, b) {
        let i = choose|i: int| 0 <= i < all.len() && #[trigger] all[i] == b;
        if i > 0 {
            assert(rest[i - 1] == all[i]);
        }
    }
}

proof fn lemma_covers_bounds(pending: Seq<(u64, u64)>, first: int, last: int)
    requires
        covers(pending, first, last),
    ensures
        first <= last + 1,
    decreases pending.len(),
{
    if pending.len() > 0 {
        lemma_covers_bounds(pending.drop_last(), pending.last().1 + 1, last);
    }
}

proof fn lemma_split_covers(pending: Seq<(u64, u64)>, first: int, last: int)
    requires
        covers(pending, first, last),
        pending.len() > 0,
        pending.last().0 < pending.last().1,
    ensures
        ({
            let (from, to) = pending.last();
            let mid = split_point(from, to);
            covers(
                pending.drop_last().push(((mid + 1) as u64, to)).push((from, mid)),
                first,
                last,
            )
        }),
{
    let (from, to) = pending.last();
    let mid = split_point(from, to);
    let rest = pending.drop_last();
    let upper = rest.push(((mid + 1) as u64, to));
    let both = upper.push((from, mid));
    assert(upper.drop_last() =~= rest);
    assert(both.drop_last() =~= upper);
    assert(covers(rest, to + 1, last));
    assert(covers(upper, mid + 1, last));
}

/// Whatever the provider answers, and however its mind changes: after each
/// answer the pending ranges cover exactly the blocks that are not resolved
/// yet, and there is less left to ask for.
pub proof fn law_every_answer_keeps_the_cover(
    state: BisectState,
    outcome: FetchOutcome,
    first: int,
    last: int,
)
    requires
        state.pending.len() > 0,
        covers(state.pending, first, last),
    ensures
        ({
            let (from, to) = state.pending.last();
            let next = bisect_step(state, outcome);
            let is_split = outcome is Failed && from < to;
            &&& covers(
                next.pending,
                if is_split {
                    first
                } else {
                    to + 1
                },
                last,
            )
            &&& next.lost_blocks == state.lost_blocks + if outcome is Failed && from == to {
                1nat
            } else {
                0nat
            }
            &&& work(next.pending) < work(state.pending)
        }),
{
    lemma_step_lowers_work(state, outcome);
    if outcome is Failed && state.pending.last().0 < state.pending.last().1 {
        lemma_split_covers(state.pending, first, last);
    }
}

/// The invariant of the traversal: from any state whose pending ranges cover
/// `first..=last`, the blocks that are left are resolved exactly, and the
/// number of requests is bounded by the work that is left.
pub proof fn law_bisect_resolves_every_block(
    state: BisectState,
    provider: spec_fn((u64, u64)) -> FetchOutcome,
    first: int,
    last: int,
)
    requires
        covers(state.pending, first, last),
    ensures
        resolves(traverse(state, provider), state, provider, first, last),
        traverse(state, provider).requests <= work(state.pending),
    decreases work(state.pending),
{
    let t = traverse(state, provider);
    if state.pending.len() == 0 {
        assert forall|b: int| !fetched_has(t.fetched, b) by {}
        assert forall|b: int| !lost_has(t.lost, b) by {}
    } else {
        let range = state.pending.last();
        let outcome = provider(range);
        let next = bisect_step(state, outcome);
        lemma_step_lowers_work(state, outcome);
        lemma_covers_bounds(state.pending.drop_last(), range.1 + 1, last);
        let after = traverse(next, provider);
        if outcome is Fetched {
            law_bisect_resolves_every_block(next, provider, range.1 + 1, last);
            assert forall|b: int| #[trigger]
                fetched_has(t.fetched, b) == (range.0 <= b <= range.1 || fetched_has(
                    after.fetched,
                    b,
                )) by {
                lemma_prepend_fetched(range, after.fetched, b);
            }
            assert(t.fetched.drop_first() =~= after.fetched);
            assert forall|i: int, j: int| 0 <= i < j < t.fetched.len() implies (
            #[trigger] t.fetched[i]).1 < (#[trigger] t.fetched[j]).0 by {
                assert(t.fetched[j] == after.fetched[j - 1]);
                assert(provider(after.fetched[j - 1]) is Fetched);
                if i == 0 {
                    lemma_fetched_start(next, provider, range.1 + 1, last, j - 1);
                } else {
                    assert(t.fetched[i] == after.fetched[i - 1]);
                }
            }
            assert forall|i: int| 0 <= i < t.fetched.len() implies provider(
                #[trigger] t.fetched[i],
            ) is Fetched by {
                if i > 0 {
                    assert(t.fetched[i] == after.fetched[i - 1]);
                }
            }
        } else if range.0 < range.1 {
            lemma_split_covers(state.pending, first, last);
            law_bisect_resolves_every_block(next, provider, first, last);
        } else {
            law_bisect_resolves_every_block(next, provider, range.1 + 1, last);
            assert forall|b: int| #[trigger]
                lost_has(t.lost, b) == (range.0 == b || lost_has(after.lost, b)) by {
                lemma_prepend_lost(range.0, after.lost, b);
            }
            assert forall|i: int, j: int| 0 <= i < j < t.lost.len() implies #[trigger] t.lost[i]
                < #[trigger] t.lost[j] by {
                assert(t.lost[j] == after.lost[j - 1]);
                assert(lost_has(after.lost, after.lost[j - 1] as int));
                if i > 0 {
                    assert(t.lost[i] == after.lost[i - 1]);
                }
            }
            assert forall|i: int| 0 <= i < t.lost.len() implies provider(
                (#[trigger] t.lost[i], t.lost[i]),
            ) is Failed by {
                if i > 0 {
                    assert(t.lost[i] == after.lost[i - 1]);
                }
            }
        }
    }
}

/// Fetched ranges are non-empty and start no earlier than the first block.
proof fn lemma_fetched_start(
    state: BisectState,
    provider: spec_fn((u64, u64)) -> FetchOutcome,
    first: int,
    last: int,
    i: int,
)
    requires
        covers(state.pending, first, last),
        0 <= i < traverse(state, provider).fetched.len(),
    ensures
        first <= traverse(state, provider).fetched[i].0 <= traverse(state, provider).fetched[i].1,
    decreases work(state.pending),
{
    let t = traverse(state, provider);
    let range = state.pending.last();
    let outcome = provider(range);
    let next = bisect_step(state, outcome);
    lemma_step_lowers_work(state, outcome);
    if outcome is Fetched {
        if i > 0 {
            assert(t.fetched[i] == traverse(next, provider).fetched[i - 1]);
            lemma_fetched_start(next, provider, range.1 + 1, last, i - 1);
        }
    } else if range.0 < range.1 {
        lemma_split_covers(state.pending, first, last);
        lemma_fetched_start(next, provider, first, last, i);
    } else {
        lemma_fetched_start(next, provider, range.1 + 1, last, i);
    }
}

pub proof fn lemma_whole_range_covers(from: u64, to: u64)
    requires
        from <= to,
    ensures
        covers(whole_range(from, to).pending, from as int, to as int),
{
    let rest = whole_range(from, to).pending.drop_last();
    assert(rest =~= Seq::empty());
    assert(covers(rest, to + 1, to as int));
}

/// A provider that answers for every block on its own costs no block, however
/// it treats wider ranges.
pub proof fn law_no_loss_where_single_blocks_succeed(
    from: u64,
    to: u64,
    provider: spec_fn((u64, u64)) -> FetchOutcome,
)
    requires
        from <= to,
        forall|b: u64| from <= b <= to ==> (#[trigger] provider((b, b))) is Fetched,
    ensures
        ({
            let t = traverse(whole_range(from, to), provider);
            &&& t.lost_blocks == 0
            &&& forall|b: int| from <= b <= to ==> #[trigger] fetched_has(t.fetched, b)
        }),
{
    let t = traverse(whole_range(from, to), provider);
    lemma_whole_range_covers(from, to);
    law_bisect_resolves_every_block(whole_range(from, to), provider, from as int, to as int);
    if t.lost.len() > 0 {
        assert(lost_has(t.lost, t.lost[0] as int));
        assert(provider((t.lost[0], t.lost[0])) is Failed);
    }
    assert forall|b: int| from <= b <= to implies #[trigger] fetched_has(t.fetched, b) by {
        assert(!lost_has(t.lost, b));
    }
}

/// The worst case is one request per node of the halving: fewer than two per
/// block, and every block is still asked for on its own before it is given up.
pub proof fn law_bisect_request_bound(
    from: u64,
    to: u64,
    provider: spec_fn((u64, u64)) -> FetchOutcome,
)
    requires
        from <= to,
    ensures
        traverse(whole_range(from, to), provider).requests <= 2 * (to - from) + 1,
{
    let start = whole_range(from, to);
    lemma_whole_range_covers(from, to);
    law_bisect_resolves_every_block(start, provider, from as int, to as int);
    assert(start.pending.drop_last() =~= Seq::empty());
    assert(work(start.pending.drop_last()) == 0);
}

/// A traversal starts with the whole range and nothing counted.
pub proof fn law_traversal_starts_with_the_whole_range(from: u64, to: u64)
    ensures
        whole_range(from, to).pending.len() == 1,
        whole_range(from, to).pending[0] == (from, to),
        whole_range(from, to).handled_logs == 0,
        whole_range(from, to).lost_blocks == 0,
{
}

/// What one answer does. A range that came back is done, and its logs are
/// counted. One of several blocks that was refused is replaced by its halves,
/// which differ in width by at most a block, the older to be asked for first,
/// and costs nothing. A single block that was refused is done, and counted as
/// lost. The ranges behind it stay.
pub proof fn law_answer_settles_or_halves(state: BisectState, outcome: FetchOutcome)
    requires
        state.pending.len() > 0,
    ensures
        ({
            let (from, to) = state.pending.last();
            let after = bisect_step(state, outcome);
            let rest = state.pending.len() - 1;
            &&& forall|i: int| 0 <= i < rest ==> #[trigger] after.pending[i] == state.pending[i]
            &&& outcome matches FetchOutcome::Fetched { logs } ==> {
                &&& after.pending.len() == rest
                &&& after.handled_logs == state.handled_logs + logs
                &&& after.lost_blocks == state.lost_blocks
            }
            &&& outcome is Failed && from < to ==> {
                let older = after.pending[rest + 1];
                let newer = after.pending[rest];
                &&& after.pending.len() == rest + 2
                &&& older.0 == from
                &&& newer.0 == older.1 + 1
                &&& newer.1 == to
                &&& 0 <= (older.1 - older.0) - (newer.1 - newer.0) <= 1
                &&& after.handled_logs == state.handled_logs
                &&& after.lost_blocks == state.lost_blocks
            }
            &&& outcome is Failed && from >= to ==> {
                &&& after.pending.len() == rest
                &&& after.handled_logs == state.handled_logs
                &&& after.lost_blocks == state.lost_blocks + 1
            }
        }),
{
}

} // verus!
