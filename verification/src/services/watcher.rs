//! Follows the wrapped-token events of one session's owner over a shared
//! connection, and turns each into a refresh of that token.
use crate::domain::events::BalanceEvent;
use crate::domain::evm_network::EvmNetwork;
use crate::domain::primitives::{checksum_text, Address, Log, U256, Word};
use crate::domain::session::Session;
use crate::evm::signatures::{
    deposit_signature, deposit_topic, withdrawal_signature, withdrawal_topic,
};
use crate::services::balance_refresh_queue::FetchRequest;
use crate::services::rpc_client::{LogFilter, RpcError};
use crate::services::snapshot_updater::{is_error, SnapshotAction};
use crate::text::decimal;
use vstd::prelude::*;
use vstd::string::*;

verus! {

/// A wrap or an unwrap of native tokens, and the block it happened in.
#[derive(Clone, Copy, Debug, PartialEq, Eq, Structural)]
pub enum WethEvents {
    Deposit(Option<u64>),
    Withdrawal(Option<u64>),
}

#[derive(Debug)]
pub enum WatcherError {
    GettingBalance(Address, EvmNetwork, String),
}

impl WatcherError {
    pub open spec fn message(self) -> Seq<char> {
        match self {
            WatcherError::GettingBalance(owner, network, error) =>
                "unable to get balance for owner"@ + checksum_text(owner.hi, owner.lo)
                + " in network"@ + decimal(network.id() as nat) + ": "@ + error@,
        }
    }

    pub fn to_text(&self) -> (text: String)
        ensures
            text@ == self.message(),
    {
        match self {
            WatcherError::GettingBalance(owner, network, error) => {
                let mut text = String::from_str("unable to get balance for owner");
                text.append(owner.to_text().as_str());
                text.append(" in network");
                text.append(network.to_text().as_str());
                text.append(": ");
                text.append(error.as_str());
                text
            },
        }
    }
}

#[derive(Clone, Copy, Debug, PartialEq, Eq, Structural)]
pub enum ParseWeb3LogsError {
    Topic0IsNone,
    UnexpectedHashSignature,
}

impl ParseWeb3LogsError {
    pub open spec fn message(self) -> Seq<char> {
        match self {
            ParseWeb3LogsError::Topic0IsNone => "log.topic0() is none"@,
            ParseWeb3LogsError::UnexpectedHashSignature =>
                "event HASH_SIGNATURE is not expected"@,
        }
    }

    pub fn to_text(&self) -> (text: String)
        ensures
            text@ == self.message(),
    {
        match self {
            ParseWeb3LogsError::Topic0IsNone => String::from_str("log.topic0() is none"),
            ParseWeb3LogsError::UnexpectedHashSignature => String::from_str(
                "event HASH_SIGNATURE is not expected",
            ),
        }
    }
}

/// The log has the shape of a wrap or an unwrap: one indexed address, and an
/// amount in the data.
pub open spec fn has_weth_shape(log: Log) -> bool {
    log.topics@.len() == 2 && log.data@.len() >= 32
}

/// What a log of the wrapped-token contract says. A log with the right
/// signature and the wrong shape says nothing; any other is an error.
pub open spec fn weth_event_of(log: Log) -> Result<Option<WethEvents>, ParseWeb3LogsError> {
    if log.topics@.len() == 0 {
        Err(ParseWeb3LogsError::Topic0IsNone)
    } else if log.topics@[0] == deposit_signature() {
        Ok(
            if has_weth_shape(log) {
                Some(WethEvents::Deposit(log.block_number))
            } else {
                None
            },
        )
    } else if log.topics@[0] == withdrawal_signature() {
        Ok(
            if has_weth_shape(log) {
                Some(WethEvents::Withdrawal(log.block_number))
            } else {
                None
            },
        )
    } else {
        Err(ParseWeb3LogsError::UnexpectedHashSignature)
    }
}

/// The refresh that a log asks for: the wrapped token at the log's block, or
/// at the latest one where the log's shape is wrong. None for an unknown log.
pub open spec fn refresh_for(log: Log, weth9: Address) -> Option<FetchRequest> {
    match weth_event_of(log) {
        Err(_) => None,
        Ok(None) => Some((weth9, None)),
        Ok(Some(WethEvents::Deposit(block))) => Some((weth9, block)),
        Ok(Some(WethEvents::Withdrawal(block))) => Some((weth9, block)),
    }
}

#[derive(Clone, Copy, Debug, PartialEq, Eq, Structural)]
pub enum LogLoopEvent {
    /// The loop begins.
    Started,
    Subscribed,
    /// Subscribing was given up.
    SubscribeFailed,
    LogReceived,
    StreamEnded,
    /// The session is over.
    Cancelled,
}

#[derive(Clone, Copy, Debug, PartialEq, Eq, Structural)]
pub enum LogLoopAction {
    Subscribe,
    /// Ask for a fresh snapshot, since events may have been missed, and wait
    /// for logs. Says whether this was not the first time.
    RefreshAndAwaitLog { resubscribed: bool },
    /// Handle the log and wait for the next.
    HandleLog,
    /// Tell clients that the connection is lost and end the session.
    CloseSession,
    Stop,
}

/// The loop that follows the logs of one filter.
#[derive(Clone, Copy, Debug, PartialEq, Eq, Structural)]
pub struct LogLoop {
    /// A subscription was established before.
    pub is_reconnect: bool,
}

#[derive(Clone, Copy, Debug, PartialEq, Eq, Structural)]
pub enum WatcherPhase {
    /// Waiting for the first request for a snapshot, which comes once logs are
    /// followed.
    Parked,
    Running,
}

#[derive(Clone, Copy, Debug, PartialEq, Eq, Structural)]
pub enum WatcherEvent {
    RefreshRequested,
    Tick,
    Cancelled,
}

/// One step of the watcher's snapshot loop. The interval starts with the first
/// request, and its first tick is due at once.
pub open spec fn watcher_step(phase: WatcherPhase, event: WatcherEvent) -> (
    WatcherPhase,
    SnapshotAction,
) {
    match (phase, event) {
        (_, WatcherEvent::Cancelled) => (phase, SnapshotAction::Stop),
        (WatcherPhase::Parked, WatcherEvent::RefreshRequested) => (
            WatcherPhase::Running,
            SnapshotAction::StartInterval,
        ),
        (WatcherPhase::Parked, WatcherEvent::Tick) => (phase, SnapshotAction::Await),
        (WatcherPhase::Running, WatcherEvent::Tick) => (phase, SnapshotAction::FetchSnapshot),
        (WatcherPhase::Running, WatcherEvent::RefreshRequested) => (
            phase,
            SnapshotAction::ResetIntervalAndFetch,
        ),
    }
}

impl LogLoop {
    pub fn new() -> (log_loop: LogLoop)
        ensures
            !log_loop.is_reconnect,
    {
        LogLoop { is_reconnect: false }
    }

    /// What to do about an event. A stream that ends is subscribed anew.
    pub fn on_event(&mut self, event: LogLoopEvent) -> (action: LogLoopAction)
        ensures
            final(self).is_reconnect == (old(self).is_reconnect || event
                == LogLoopEvent::Subscribed),
            action == (match event {
                LogLoopEvent::Started => LogLoopAction::Subscribe,
                LogLoopEvent::Subscribed => LogLoopAction::RefreshAndAwaitLog {
                    resubscribed: old(self).is_reconnect,
                },
                LogLoopEvent::SubscribeFailed => LogLoopAction::CloseSession,
                LogLoopEvent::LogReceived => LogLoopAction::HandleLog,
                LogLoopEvent::StreamEnded => LogLoopAction::Subscribe,
                LogLoopEvent::Cancelled => LogLoopAction::Stop,
            }),
    {
        match event {
            LogLoopEvent::Started => LogLoopAction::Subscribe,
            LogLoopEvent::Subscribed => {
                let resubscribed = self.is_reconnect;
                self.is_reconnect = true;
                LogLoopAction::RefreshAndAwaitLog { resubscribed }
            },
            LogLoopEvent::SubscribeFailed => LogLoopAction::CloseSession,
            LogLoopEvent::LogReceived => LogLoopAction::HandleLog,
            LogLoopEvent::StreamEnded => LogLoopAction::Subscribe,
            LogLoopEvent::Cancelled => LogLoopAction::Stop,
        }
    }
}

/// The watcher of one session.
pub struct Watcher {
    pub session: Session,
    pub phase: WatcherPhase,
}

impl Watcher {
    pub fn new(session: Session) -> (watcher: Watcher)
        ensures
            watcher.session == session,
            watcher.phase == WatcherPhase::Parked,
    {
        Watcher { session, phase: WatcherPhase::Parked }
    }

    /// What the snapshot loop does about an event.
    pub fn on_event(&mut self, event: WatcherEvent) -> (action: SnapshotAction)
        ensures
            final(self).session == old(self).session,
            (final(self).phase, action) == watcher_step(old(self).phase, event),
    {
        match event {
            WatcherEvent::Cancelled => SnapshotAction::Stop,
            WatcherEvent::RefreshRequested => match self.phase {
                WatcherPhase::Parked => {
                    self.phase = WatcherPhase::Running;
                    SnapshotAction::StartInterval
                },
                WatcherPhase::Running => SnapshotAction::ResetIntervalAndFetch,
            },
            WatcherEvent::Tick => match self.phase {
                WatcherPhase::Parked => SnapshotAction::Await,
                WatcherPhase::Running => SnapshotAction::FetchSnapshot,
            },
        }
    }

    /// The wraps and unwraps of the session's owner.
    pub fn weth9_filter(&self) -> (filter: LogFilter)
        ensures
            filter.from_block is None,
            filter.to_block is None,
            filter.address == Some(self.session.network.weth9()),
            filter.signatures@ == seq![deposit_signature(), withdrawal_signature()],
            filter.topic1 matches Some(word) && word.hi == self.session.owner.hi && word.lo
                == self.session.owner.lo,
    {
        let mut signatures: Vec<Word> = Vec::new();
        signatures.push(deposit_topic());
        signatures.push(withdrawal_topic());
        assert(signatures@ =~= seq![deposit_signature(), withdrawal_signature()]);
        LogFilter {
            from_block: None,
            to_block: None,
            address: Some(self.session.network.weth9_address()),
            signatures,
            topic1: Some(self.session.owner.into_word()),
        }
    }

    /// What clients are told when logs can no longer be followed.
    pub fn connection_lost_event() -> (event: Option<BalanceEvent>)
        ensures
            is_error(event, 503, "WebSocket connection lost permanently"@),
    {
        Some(
            BalanceEvent::Error {
                code: 503,
                message: String::from_str("WebSocket connection lost permanently"),
            },
        )
    }

    /// What a failed balance read is reported as.
    pub fn balance_error(&self, error: &RpcError) -> (mapped: WatcherError)
        ensures
            mapped matches WatcherError::GettingBalance(owner, network, text) && owner
                == self.session.owner && network == self.session.network && text@
                == error.message(),
    {
        WatcherError::GettingBalance(self.session.owner, self.session.network, error.to_text())
    }

    /// Reads a log of the wrapped-token contract.
    pub fn parse_weth9_logs(log: &Log) -> (outcome: Result<
        Option<WethEvents>,
        ParseWeb3LogsError,
    >)
        ensures
            outcome == weth_event_of(*log),
    {
        if log.topics.len() == 0 {
            return Err(ParseWeb3LogsError::Topic0IsNone);
        }
        let topic0 = log.topics[0];
        let decodes = log.topics.len() == 2 && U256::abi_decode(&log.data).is_some();
        if topic0 == deposit_topic() {
            return Ok(
                if decodes {
                    Some(WethEvents::Deposit(log.block_number))
                } else {
                    None
                },
            );
        }
        if topic0 == withdrawal_topic() {
            return Ok(
                if decodes {
                    Some(WethEvents::Withdrawal(log.block_number))
                } else {
                    None
                },
            );
        }
        Err(ParseWeb3LogsError::UnexpectedHashSignature)
    }

    /// The refresh that a log gives rise to.
    pub fn refresh_request(&self, log: &Log) -> (request: Option<FetchRequest>)
        ensures
            request == refresh_for(*log, self.session.network.weth9()),
    {
        let weth9 = self.session.network.weth9_address();
        match Self::parse_weth9_logs(log) {
            Err(_) => None,
            Ok(None) => Some((weth9, None)),
            Ok(Some(WethEvents::Deposit(block))) => Some((weth9, block)),
            Ok(Some(WethEvents::Withdrawal(block))) => Some((weth9, block)),
        }
    }
}

/// No snapshot is taken before logs are followed: the loop is parked until the
/// first request, which the first subscription makes.
pub proof fn law_no_snapshot_while_parked(event: WatcherEvent)
    ensures
        ({
            let action = watcher_step(WatcherPhase::Parked, event).1;
            !(action is FetchSnapshot) && !(action is ResetIntervalAndFetch)
        }),
        watcher_step(WatcherPhase::Parked, event).0 == WatcherPhase::Running ==> event
            == WatcherEvent::RefreshRequested,
{
}

/// What a log of the wrapped-token contract says: without topics it is an error
/// of its own; its first topic has to be that of a deposit or of a withdrawal;
/// and with one more topic and at least one word of data it is the one or the
/// other, at the log's block.
pub proof fn law_wrap_is_told_by_topic_and_shape(log: Log)
    ensures
        ({
            let is_deposit = log.topics@.len() > 0 && log.topics@[0].hi
                == 0xe1fffcc4923d04b559f4d29a8bfc6cda && log.topics@[0].lo
                == 0x04eb5b0d3c460751c2402c5c5cc9109c;
            let is_withdrawal = log.topics@.len() > 0 && log.topics@[0].hi
                == 0x7fcf532c15f0a6db0bd6d0e038bea71d && log.topics@[0].lo
                == 0x30d808c7d98cb3bf7268a95bf5081b65;
            let is_whole = log.topics@.len() == 2 && log.data@.len() >= 32;
            let event = weth_event_of(log);
            &&& event is Ok <==> is_deposit || is_withdrawal
            &&& event matches Err(error) ==> (error == ParseWeb3LogsError::Topic0IsNone
                <==> log.topics@.len() == 0)
            &&& event matches Ok(told) ==> (told is Some <==> is_whole)
            &&& event == Ok::<Option<WethEvents>, ParseWeb3LogsError>(
                Some(WethEvents::Deposit(log.block_number)),
            ) <==> is_deposit && is_whole
            &&& event == Ok::<Option<WethEvents>, ParseWeb3LogsError>(
                Some(WethEvents::Withdrawal(log.block_number)),
            ) <==> is_withdrawal && is_whole
        }),
{
}

/// Every wrap and every unwrap asks for a refresh of the wrapped token, at the
/// log's block if the log is whole and at the latest one if not, whatever the
/// amount. Other logs ask for none.
pub proof fn law_every_wrap_asks_for_a_refresh(log: Log, weth9: Address)
    ensures
        refresh_for(log, weth9) is Some <==> log.topics@.len() > 0 && ((log.topics@[0].hi
            == 0xe1fffcc4923d04b559f4d29a8bfc6cda && log.topics@[0].lo
            == 0x04eb5b0d3c460751c2402c5c5cc9109c) || (log.topics@[0].hi
            == 0x7fcf532c15f0a6db0bd6d0e038bea71d && log.topics@[0].lo
            == 0x30d808c7d98cb3bf7268a95bf5081b65)),
        refresh_for(log, weth9) matches Some((token, block)) ==> token == weth9 && block == (
        if log.topics@.len() == 2 && log.data@.len() >= 32 {
            log.block_number
        } else {
            None
        }),
{
}

/// The amount of a wrap does not matter: logs with the same topics and block,
/// and with as much data, say the same.
pub proof fn law_wrapped_amount_does_not_matter(log: Log, other: Log, weth9: Address)
    requires
        log.topics@ == other.topics@,
        log.block_number == other.block_number,
        log.data@.len() == other.data@.len(),
    ensures
        weth_event_of(log) == weth_event_of(other),
        refresh_for(log, weth9) == refresh_for(other, weth9),
{
}

/// What the watcher's loop does: the first request starts the interval, and from
/// then on it takes a snapshot on every tick and on every request, the latter
/// anew from the start of the interval, until the session is over.
pub proof fn law_watcher_loop_actions(phase: WatcherPhase, event: WatcherEvent)
    ensures
        ({
            let (after, action) = watcher_step(phase, event);
            let running = phase == WatcherPhase::Running;
            &&& action is Stop <==> event is Cancelled
            &&& action is StartInterval <==> !running && event is RefreshRequested
            &&& action is Await <==> !running && event is Tick
            &&& action is FetchSnapshot <==> running && event is Tick
            &&& action is ResetIntervalAndFetch <==> running && event is RefreshRequested
            &&& after == WatcherPhase::Running <==> running || event is RefreshRequested
        }),
{
}

} // verus!
