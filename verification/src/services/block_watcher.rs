//! Follows new heads over a subscription: health canary, source of heads for
//! the dispatcher and trigger for snapshots after a reconnect.
//!
//! Silence is not proof that a subscription is dead, since a chain may go
//! quiet. When no header comes within the stall timeout, the head is asked for
//! over another channel: if it has not moved past the last observed block the
//! chain is idle and the stream is kept; if it has, or if it cannot be told,
//! the stream is given up and subscribed anew.
use crate::domain::evm_network::EvmNetwork;
use crate::services::health::SubsystemHealth;
use crate::text::{decimal, decimal_text};
use vstd::prelude::*;
use vstd::string::*;

verus! {

/// The shortest silence that is taken for a stall, in milliseconds.
pub const MIN_STALL_MILLIS: u64 = 2_000;

/// The silence that is taken for a stall, in block times.
pub const STALL_TIMEOUT_BLOCKS: u64 = 3;

/// The pause before subscribing again, in milliseconds.
pub const POST_DISCONNECT_DELAY_MILLIS: u64 = 200;

/// How many heads may wait for the dispatcher.
pub const BLOCK_CHANNEL_CAP: usize = 256;

/// What a silent stream turned out to be.
#[derive(Clone, Copy, Debug, PartialEq, Eq, Structural)]
pub enum StallVerdict {
    /// The chain produces nothing; the stream is presumed fine.
    ChainIdle,
    /// The chain moved on without the stream.
    StreamStalled { http_head: u64 },
    /// Nothing to compare with, or the check failed.
    Unconfirmed,
}

/// What the watcher does next.
#[derive(Clone, Copy, Debug, PartialEq, Eq, Structural)]
pub enum WatcherAction {
    /// Open a subscription and report whether it was established.
    Subscribe,
    /// Wait for a header, for at most this long.
    AwaitHeader { timeout_millis: u64 },
    /// Hand the block on, dropping it if nobody keeps up, then wait.
    Distribute { block: u64, timeout_millis: u64 },
    /// Ask for the head over the other channel.
    CheckHead,
    /// Pause this long, then start over unless cancelled meanwhile.
    Pause { millis: u64 },
    Stop,
}

pub struct BlockWatcher {
    pub network: EvmNetwork,
    /// A header, or proof that there is none, came since the subscription.
    pub connected: bool,
    /// A subscription is open; this is what snapshot loops follow.
    pub subscribed: bool,
    /// The last observed block, zero before the first.
    pub latest_block: u64,
}

/// What happens to a watcher.
pub enum WatcherStep {
    /// The loop starts, at first or after a pause.
    Start { cancelled: bool },
    /// The subscription was established, or given up because of shutdown.
    SubscribeResult { established: bool },
    Header { block: u64 },
    /// No header came within the stall timeout.
    Silence,
    /// The head was asked for over the other channel, which may not answer.
    HeadChecked { checked: Option<u64> },
    /// The stream ended, or the service is shutting down.
    StreamEnd,
}

pub open spec fn stall_millis(block_millis: int) -> int {
    if block_millis * STALL_TIMEOUT_BLOCKS > MIN_STALL_MILLIS {
        block_millis * STALL_TIMEOUT_BLOCKS
    } else {
        MIN_STALL_MILLIS as int
    }
}

pub open spec fn verdict(last_observed: u64, http_head: u64) -> StallVerdict {
    if http_head > last_observed {
        StallVerdict::StreamStalled { http_head }
    } else {
        StallVerdict::ChainIdle
    }
}

/// The verdict on a silent stream, given the answer to the head check. Without
/// a header to compare with, the check is not made.
pub open spec fn confirmed_verdict(last_observed: u64, checked: Option<u64>) -> StallVerdict {
    match checked {
        Some(http_head) if last_observed != 0 => verdict(last_observed, http_head),
        _ => StallVerdict::Unconfirmed,
    }
}

/// The watcher after its subscription was given up.
pub open spec fn disconnected(watcher: BlockWatcher) -> (BlockWatcher, WatcherAction) {
    (
        BlockWatcher { connected: false, subscribed: false, ..watcher },
        WatcherAction::Pause { millis: POST_DISCONNECT_DELAY_MILLIS },
    )
}

/// One step of the watcher: its next state, and what it does next.
pub open spec fn watcher_step(watcher: BlockWatcher, step: WatcherStep) -> (
    BlockWatcher,
    WatcherAction,
) {
    match step {
        WatcherStep::Start { cancelled } => (
            watcher,
            if cancelled {
                WatcherAction::Stop
            } else {
                WatcherAction::Subscribe
            },
        ),
        WatcherStep::SubscribeResult { established } => if established {
            (BlockWatcher { subscribed: true, ..watcher }, watcher.awaiting())
        } else {
            (watcher, WatcherAction::Stop)
        },
        // Connected at that block, whatever was observed before.
        WatcherStep::Header { block } => (
            BlockWatcher { connected: true, latest_block: block, ..watcher },
            WatcherAction::Distribute {
                block,
                timeout_millis: watcher.awaiting()->AwaitHeader_timeout_millis,
            },
        ),
        // Before the first header there is nothing to check against.
        WatcherStep::Silence => if watcher.latest_block != 0 {
            (watcher, WatcherAction::CheckHead)
        } else {
            disconnected(watcher)
        },
        WatcherStep::HeadChecked { checked } => if confirmed_verdict(
            watcher.latest_block,
            checked,
        ) is ChainIdle {
            (BlockWatcher { connected: true, ..watcher }, watcher.awaiting())
        } else {
            disconnected(watcher)
        },
        WatcherStep::StreamEnd => disconnected(watcher),
    }
}

impl BlockWatcher {
    /// Why the watcher is unhealthy, if it is.
    pub open spec fn trouble(self) -> Option<Seq<char>> {
        if self.connected {
            None
        } else {
            Some(
                "ws newHeads disconnected (last observed block="@ + decimal(
                    self.latest_block as nat,
                ) + ")"@,
            )
        }
    }

    pub open spec fn awaiting(self) -> WatcherAction {
        WatcherAction::AwaitHeader {
            timeout_millis: stall_millis(self.network.block_millis() as int) as u64,
        }
    }

    pub fn new(network: EvmNetwork) -> (watcher: BlockWatcher)
        ensures
            watcher == (BlockWatcher {
                network,
                connected: false,
                subscribed: false,
                latest_block: 0,
            }),
    {
        BlockWatcher { network, connected: false, subscribed: false, latest_block: 0 }
    }

    pub fn stall_timeout(block_time: u64) -> (millis: u64)
        requires
            block_time * STALL_TIMEOUT_BLOCKS <= u64::MAX,
        ensures
            millis == stall_millis(block_time as int),
    {
        let silence: u64 = block_time * STALL_TIMEOUT_BLOCKS;
        if silence > MIN_STALL_MILLIS {
            silence
        } else {
            MIN_STALL_MILLIS
        }
    }

    pub fn stall_verdict(last_observed: u64, http_head: u64) -> (v: StallVerdict)
        ensures
            v == verdict(last_observed, http_head),
    {
        if http_head <= last_observed {
            StallVerdict::ChainIdle
        } else {
            StallVerdict::StreamStalled { http_head }
        }
    }

    /// The verdict on a silent stream. `checked` is the head as the other
    /// channel sees it, if it answered.
    pub fn confirm_stall(&self, checked: Option<u64>) -> (v: StallVerdict)
        ensures
            v == confirmed_verdict(self.latest_block, checked),
    {
        if self.latest_block == 0 {
            return StallVerdict::Unconfirmed;
        }
        match checked {
            Some(http_head) => Self::stall_verdict(self.latest_block, http_head),
            None => StallVerdict::Unconfirmed,
        }
    }

    /// Healthy if and only if the watcher is connected; otherwise the reason
    /// names the last observed block.
    pub fn health_status(&self) -> (health: SubsystemHealth)
        ensures
            health@ == self.trouble(),
    {
        if self.connected {
            SubsystemHealth::Healthy
        } else {
            let mut reason = String::from_str("ws newHeads disconnected (last observed block=");
            reason.append(decimal_text(self.latest_block).as_str());
            reason.append(")");
            SubsystemHealth::Unhealthy(reason)
        }
    }

    pub fn latest_block(&self) -> (block: u64)
        ensures
            block == self.latest_block,
    {
        self.latest_block
    }

    /// The top of the loop.
    pub fn on_start(&self, cancelled: bool) -> (action: WatcherAction)
        ensures
            (*self, action) == watcher_step(*self, WatcherStep::Start { cancelled }),
    {
        if cancelled {
            WatcherAction::Stop
        } else {
            WatcherAction::Subscribe
        }
    }

    /// The subscription was established, or given up because of shutdown.
    pub fn on_subscribe_result(&mut self, established: bool) -> (action: WatcherAction)
        ensures
            (*final(self), action) == watcher_step(
                *old(self),
                WatcherStep::SubscribeResult { established },
            ),
    {
        if !established {
            return WatcherAction::Stop;
        }
        self.subscribed = true;
        self.await_header()
    }

    fn await_header(&self) -> (action: WatcherAction)
        ensures
            action == self.awaiting(),
    {
        let timeout_millis: u64 = Self::stall_timeout(self.network.block_time());
        WatcherAction::AwaitHeader { timeout_millis }
    }

    /// A header came: the watcher is connected at that block, whatever it had
    /// observed before, and hands the block on.
    pub fn record_connected(&mut self, block_number: u64) -> (action: WatcherAction)
        ensures
            (*final(self), action) == watcher_step(
                *old(self),
                WatcherStep::Header { block: block_number },
            ),
    {
        self.connected = true;
        self.latest_block = block_number;
        let timeout_millis: u64 = Self::stall_timeout(self.network.block_time());
        WatcherAction::Distribute { block: block_number, timeout_millis }
    }

    /// The stream ended, or the service is shutting down.
    pub fn on_stream_end(&mut self) -> (action: WatcherAction)
        ensures
            (*final(self), action) == watcher_step(*old(self), WatcherStep::StreamEnd),
    {
        self.connected = false;
        self.subscribed = false;
        WatcherAction::Pause { millis: POST_DISCONNECT_DELAY_MILLIS }
    }

    /// No header came within the stall timeout. Before the first header there
    /// is nothing to check against, and the stream is given up.
    pub fn on_silence(&mut self) -> (action: WatcherAction)
        ensures
            (*final(self), action) == watcher_step(*old(self), WatcherStep::Silence),
    {
        if self.latest_block == 0 {
            self.on_stream_end()
        } else {
            WatcherAction::CheckHead
        }
    }

    /// The head check is done. An idle chain keeps the stream and is healthy,
    /// even if no header came since the subscription; anything else gives the
    /// stream up.
    pub fn on_head_checked(&mut self, checked: Option<u64>) -> (action: WatcherAction)
        ensures
            (*final(self), action) == watcher_step(
                *old(self),
                WatcherStep::HeadChecked { checked },
            ),
    {
        match self.confirm_stall(checked) {
            StallVerdict::ChainIdle => {
                self.connected = true;
                self.await_header()
            },
            StallVerdict::StreamStalled { .. } => self.on_stream_end(),
            StallVerdict::Unconfirmed => self.on_stream_end(),
        }
    }
}

/// The steps that a watcher may take after an action. `None` stands for the
/// time before its loop has started.
pub open spec fn answers(action: Option<WatcherAction>, step: WatcherStep) -> bool {
    match action {
        None => step is Start,
        Some(WatcherAction::Subscribe) => step is SubscribeResult,
        Some(WatcherAction::AwaitHeader { .. }) => step is Header || step is Silence
            || step is StreamEnd,
        Some(WatcherAction::Distribute { .. }) => step is Header || step is Silence
            || step is StreamEnd,
        Some(WatcherAction::CheckHead) => step is HeadChecked || step is StreamEnd,
        Some(WatcherAction::Pause { .. }) => step is Start,
        Some(WatcherAction::Stop) => false,
    }
}

/// A new watcher for `network` after a series of steps, and the action that it
/// took last.
pub open spec fn after_watching(network: EvmNetwork, steps: Seq<WatcherStep>) -> (
    BlockWatcher,
    Option<WatcherAction>,
)
    decreases steps.len(),
{
    if steps.len() == 0 {
        (BlockWatcher { network, connected: false, subscribed: false, latest_block: 0 }, None)
    } else {
        let (watcher, action) = watcher_step(
            after_watching(network, steps.drop_last()).0,
            steps.last(),
        );
        (watcher, Some(action))
    }
}

/// Each step answers the action before it.
pub open spec fn is_watch(network: EvmNetwork, steps: Seq<WatcherStep>) -> bool
    decreases steps.len(),
{
    steps.len() > 0 ==> {
        &&& is_watch(network, steps.drop_last())
        &&& answers(after_watching(network, steps.drop_last()).1, steps.last())
    }
}

/// Step `i` shows that the stream is alive: a header came, or the head check
/// found the chain idle.
pub open spec fn shows_life(network: EvmNetwork, steps: Seq<WatcherStep>, i: int) -> bool {
    match steps[i] {
        WatcherStep::Header { .. } => true,
        WatcherStep::HeadChecked { checked } => confirmed_verdict(
            after_watching(network, steps.take(i)).0.latest_block,
            checked,
        ) is ChainIdle,
        _ => false,
    }
}

/// At step `i` the stream ended: by itself, by shutdown, or because it was
/// given up as stalled.
pub open spec fn ends_stream(network: EvmNetwork, steps: Seq<WatcherStep>, i: int) -> bool {
    match steps[i] {
        WatcherStep::StreamEnd => true,
        WatcherStep::Silence => after_watching(network, steps.take(i)).0.latest_block == 0,
        WatcherStep::HeadChecked { .. } => !shows_life(network, steps, i),
        _ => false,
    }
}

/// Step `i` established a subscription.
pub open spec fn subscribes(steps: Seq<WatcherStep>, i: int) -> bool {
    steps[i] == (WatcherStep::SubscribeResult { established: true })
}

/// A subscription was established at step `i`, and since then no other was and
/// the stream has not ended.
pub open spec fn open_since(network: EvmNetwork, steps: Seq<WatcherStep>, i: int) -> bool {
    &&& 0 <= i < steps.len()
    &&& subscribes(steps, i)
    &&& forall|k: int|
        i < k < steps.len() ==> !(#[trigger] ends_stream(network, steps, k)) && !subscribes(
            steps,
            k,
        )
}

/// A subscription is open, and since it was established a header came or the
/// chain was found idle.
pub open spec fn alive_since_subscribed(network: EvmNetwork, steps: Seq<WatcherStep>) -> bool {
    exists|i: int, j: int| #[trigger]
        open_since(network, steps, i) && i < j < steps.len() && #[trigger] shows_life(
            network,
            steps,
            j,
        )
}

proof fn lemma_shorter_watch(network: EvmNetwork, steps: Seq<WatcherStep>, i: int)
    requires
        0 <= i < steps.len() - 1,
    ensures
        shows_life(network, steps, i) == shows_life(network, steps.drop_last(), i),
        ends_stream(network, steps, i) == ends_stream(network, steps.drop_last(), i),
        subscribes(steps, i) == subscribes(steps.drop_last(), i),
{
    assert(steps.drop_last().take(i) =~= steps.take(i));
}

proof fn lemma_longer_watch_is_open(network: EvmNetwork, steps: Seq<WatcherStep>, i: int)
    requires
        steps.len() > 0,
        0 <= i < steps.len() - 1,
    ensures
        open_since(network, steps, i) <==> open_since(network, steps.drop_last(), i)
            && !ends_stream(network, steps, steps.len() - 1) && !subscribes(
            steps,
            steps.len() - 1,
        ),
{
    let earlier = steps.drop_last();
    let last = steps.len() - 1;
    lemma_shorter_watch(network, steps, i);
    if open_since(network, steps, i) {
        assert(!ends_stream(network, steps, last) && !subscribes(steps, last));
        assert forall|k: int| i < k < earlier.len() implies !(#[trigger] ends_stream(
            network,
            earlier,
            k,
        )) && !subscribes(earlier, k) by {
            lemma_shorter_watch(network, steps, k);
        }
        assert(open_since(network, earlier, i));
    }
    if open_since(network, earlier, i) && !ends_stream(network, steps, last) && !subscribes(
        steps,
        last,
    ) {
        assert forall|k: int| i < k < steps.len() implies !(#[trigger] ends_stream(
            network,
            steps,
            k,
        )) && !subscribes(steps, k) by {
            if k < earlier.len() {
                lemma_shorter_watch(network, steps, k);
            }
        }
        assert(open_since(network, steps, i));
    }
}

/// Over any run of a watcher: a subscription is reported as open if and only
/// if one was established and its stream has not ended since.
pub proof fn law_subscribed_while_the_stream_is_open(
    network: EvmNetwork,
    steps: Seq<WatcherStep>,
)
    requires
        is_watch(network, steps),
    ensures
        after_watching(network, steps).0.subscribed <==> exists|i: int| #[trigger]
            open_since(network, steps, i),
    decreases steps.len(),
{
    if steps.len() > 0 {
        let earlier = steps.drop_last();
        let last = steps.len() - 1;
        law_subscribed_while_the_stream_is_open(network, earlier);
        lemma_watch_is_consistent(network, earlier);
        assert(steps.take(last) =~= earlier);
        if subscribes(steps, last) {
            assert(open_since(network, steps, last));
        }
        if after_watching(network, steps).0.subscribed && !subscribes(steps, last) {
            let i = choose|i: int| #[trigger] open_since(network, earlier, i);
            lemma_longer_watch_is_open(network, steps, i);
        }
        if exists|i: int| #[trigger] open_since(network, steps, i) {
            let i = choose|i: int| #[trigger] open_since(network, steps, i);
            if i < last {
                lemma_longer_watch_is_open(network, steps, i);
            }
        }
    }
}

proof fn lemma_watch_is_consistent(network: EvmNetwork, steps: Seq<WatcherStep>)
    requires
        is_watch(network, steps),
    ensures
        ({
            let (watcher, action) = after_watching(network, steps);
            &&& watcher.network == network
            &&& watcher.connected ==> watcher.subscribed
            &&& watcher.subscribed <==> (action matches Some(a) && (a is AwaitHeader
                || a is Distribute || a is CheckHead))
        }),
    decreases steps.len(),
{
    if steps.len() > 0 {
        lemma_watch_is_consistent(network, steps.drop_last());
    }
}

/// Over any run of a watcher: it is healthy if and only if a header came, or
/// the chain was found idle, since the latest subscription, and the stream has
/// not ended since. So it is healthy only while a subscription is open.
pub proof fn law_healthy_while_the_stream_is_alive(network: EvmNetwork, steps: Seq<WatcherStep>)
    requires
        is_watch(network, steps),
    ensures
        after_watching(network, steps).0.trouble() is None <==> alive_since_subscribed(
            network,
            steps,
        ),
        after_watching(network, steps).0.connected ==> after_watching(network, steps).0.subscribed,
    decreases steps.len(),
{
    lemma_watch_is_consistent(network, steps);
    if steps.len() > 0 {
        let earlier = steps.drop_last();
        let last = steps.len() - 1;
        let before = after_watching(network, earlier).0;
        let watcher = after_watching(network, steps).0;
        law_healthy_while_the_stream_is_alive(network, earlier);
        law_subscribed_while_the_stream_is_open(network, earlier);
        lemma_watch_is_consistent(network, earlier);
        assert(steps.take(last) =~= earlier);
        if watcher.connected {
            if shows_life(network, steps, last) {
                let i = choose|i: int| #[trigger] open_since(network, earlier, i);
                lemma_longer_watch_is_open(network, steps, i);
                assert(open_since(network, steps, i) && shows_life(network, steps, last));
            } else {
                let (i, j) = choose|i: int, j: int| #[trigger]
                    open_since(network, earlier, i) && i < j < earlier.len()
                        && #[trigger] shows_life(network, earlier, j);
                lemma_longer_watch_is_open(network, steps, i);
                lemma_shorter_watch(network, steps, j);
                assert(open_since(network, steps, i) && shows_life(network, steps, j));
            }
        }
        if alive_since_subscribed(network, steps) {
            let (i, j) = choose|i: int, j: int| #[trigger]
                open_since(network, steps, i) && i < j < steps.len() && #[trigger] shows_life(
                    network,
                    steps,
                    j,
                );
            lemma_longer_watch_is_open(network, steps, i);
            if j < last {
                lemma_shorter_watch(network, steps, j);
                assert(open_since(network, earlier, i) && shows_life(network, earlier, j));
                assert(alive_since_subscribed(network, earlier));
            }
        }
    }
}

/// A stream is torn down on silence only if the head is known to have moved
/// past the last observed block, or nothing is known of it.
pub proof fn law_quiet_chain_keeps_the_stream(last_observed: u64, http_head: u64)
    requires
        last_observed != 0,
    ensures
        confirmed_verdict(last_observed, Some(http_head)) is ChainIdle <==> http_head
            <= last_observed,
{
}

/// On every supported chain the stall timeout is at least the minimum and at
/// least three block times.
pub proof fn law_stall_timeout_bounds(network: EvmNetwork)
    ensures
        stall_millis(network.block_millis() as int) >= MIN_STALL_MILLIS,
        stall_millis(network.block_millis() as int) >= STALL_TIMEOUT_BLOCKS
            * network.block_millis(),
{
}

/// The stall timeout is the larger of three block times and two seconds.
pub proof fn law_stall_timeout_is_the_larger(block_millis: int)
    ensures
        stall_millis(block_millis) >= 3 * block_millis,
        stall_millis(block_millis) >= 2_000,
        stall_millis(block_millis) == 3 * block_millis || stall_millis(block_millis) == 2_000,
{
}

/// A silent stream counts as stalled if and only if the head was told and is
/// past the last observed block, and as unconfirmed if and only if there is
/// nothing to compare.
pub proof fn law_verdict_compares_the_heads(last_observed: u64, checked: Option<u64>)
    ensures
        (confirmed_verdict(last_observed, checked) is Unconfirmed) <==> last_observed == 0
            || checked is None,
        (confirmed_verdict(last_observed, checked) is StreamStalled) <==> last_observed != 0
            && checked is Some && checked->0 > last_observed,
        confirmed_verdict(last_observed, checked) matches StallVerdict::StreamStalled { http_head }
            ==> Some(http_head) == checked,
        checked matches Some(http_head) ==> (verdict(last_observed, http_head) is StreamStalled
            <==> http_head > last_observed) && !(verdict(last_observed, http_head) is Unconfirmed),
        checked matches Some(http_head) ==> (verdict(last_observed, http_head)
            matches StallVerdict::StreamStalled { http_head: told } ==> told == http_head),
{
}

/// The last observed block is that of the latest header, whatever else happens,
/// and the chain that is watched never changes.
pub proof fn law_only_headers_move_the_last_block(watcher: BlockWatcher, step: WatcherStep)
    ensures
        step matches WatcherStep::Header { block } ==> watcher_step(watcher, step).0.latest_block
            == block,
        !(step is Header) ==> watcher_step(watcher, step).0.latest_block == watcher.latest_block,
        watcher_step(watcher, step).0.network == watcher.network,
{
}

/// Which steps make and unmake a connection: a header makes it, and so does a
/// head check that finds the chain where the watcher is; the end of the stream
/// unmakes it, and so does a silence that nothing can be said of or that the
/// head check finds to be a stall. Only a subscription that is established
/// counts as one.
pub proof fn law_steps_make_and_unmake_connections(watcher: BlockWatcher, step: WatcherStep)
    ensures
        ({
            let after = watcher_step(watcher, step).0;
            let idle = step matches WatcherStep::HeadChecked { checked: Some(head) }
                && watcher.latest_block != 0 && head <= watcher.latest_block;
            let given_up = step is StreamEnd || (step is HeadChecked && !idle) || (step is Silence
                && watcher.latest_block == 0);
            let established = step == (WatcherStep::SubscribeResult { established: true });
            &&& after.connected <==> step is Header || idle || (watcher.connected && !given_up)
            &&& after.subscribed <==> established || (watcher.subscribed && !given_up)
        }),
{
}

/// What a watcher does next. It waits for headers for the stall timeout of its
/// chain, hands every header on, asks for the head when a header is overdue,
/// and pauses before it starts over.
pub proof fn law_steps_lead_to_actions(watcher: BlockWatcher, step: WatcherStep)
    ensures
        ({
            let action = watcher_step(watcher, step).1;
            let millis = watcher.network.block_millis();
            let timeout = if 3 * millis > 2_000 {
                3 * millis
            } else {
                2_000
            };
            let idle = step matches WatcherStep::HeadChecked { checked: Some(head) }
                && watcher.latest_block != 0 && head <= watcher.latest_block;
            let established = step == (WatcherStep::SubscribeResult { established: true });
            &&& action is Subscribe <==> step == (WatcherStep::Start { cancelled: false })
            &&& action is Stop <==> step == (WatcherStep::Start { cancelled: true }) || step == (
            WatcherStep::SubscribeResult { established: false })
            &&& action is AwaitHeader <==> established || idle
            &&& action matches WatcherAction::AwaitHeader { timeout_millis } ==> timeout_millis
                == timeout
            &&& action is Distribute <==> step is Header
            &&& action matches WatcherAction::Distribute { block, timeout_millis } ==> step == (
            WatcherStep::Header { block }) && timeout_millis == timeout
            &&& action is CheckHead <==> step is Silence && watcher.latest_block != 0
            &&& action is Pause <==> step is StreamEnd || (step is HeadChecked && !idle) || (step
                is Silence && watcher.latest_block == 0)
            &&& action matches WatcherAction::Pause { millis } ==> millis == 200
        }),
{
}

} // verus!
