//! Keeps the balances of one session up to date: full snapshots at intervals
//! and on demand, and the results of refreshes in between.
//!
//! Snapshots are taken only while new heads are being followed, so that no
//! transfer between a snapshot and the first followed head goes unseen.
use crate::domain::events::BalanceEvent;
use crate::domain::primitives::Address;
use crate::domain::session::Session;
use crate::services::rpc_client::{BalancesWithBlock, RpcError};
use crate::services::subscription::{diff_of, law_texts_are_those_of_the_map, texts};
use crate::services::subscription_manager::{
    balances_merged, is_live, law_merge_changes_the_balances_of_one_session, SessionHandle,
    SessionState, SubscriptionManager,
};
use crate::text::decimal;
use vstd::prelude::*;
use vstd::string::*;

verus! {

#[derive(Clone, Copy, Debug, PartialEq, Eq, Structural)]
pub enum SnapshotPhase {
    /// New heads are not followed; no snapshot is taken.
    AwaitingConnection,
    Running,
}

#[derive(Clone, Copy, Debug, PartialEq, Eq, Structural)]
pub enum SnapshotEvent {
    /// Whether heads are followed, as seen when asked for.
    Connection { connected: bool },
    /// That has changed, to this.
    ConnectionChanged { connected: bool },
    /// It will not change any more.
    ConnectionClosed,
    /// The interval has passed.
    Tick,
    /// A fresh snapshot is wanted.
    RefreshRequested,
    /// The session is over.
    Cancelled,
}

#[derive(Clone, Copy, Debug, PartialEq, Eq, Structural)]
pub enum SnapshotAction {
    /// Wait for the connection to change.
    AwaitConnection,
    /// Report whether heads are followed.
    CheckConnection,
    /// Start the interval anew, its first tick being due at once, and wait.
    StartInterval,
    /// Wait for whatever comes.
    Await,
    FetchSnapshot,
    /// Let the interval start over from now, and take a snapshot.
    ResetIntervalAndFetch,
    Stop,
}

/// One step of the snapshot loop.
pub open spec fn snapshot_step(phase: SnapshotPhase, event: SnapshotEvent) -> (
    SnapshotPhase,
    SnapshotAction,
) {
    match (phase, event) {
        (_, SnapshotEvent::Cancelled) => (phase, SnapshotAction::Stop),
        (SnapshotPhase::AwaitingConnection, SnapshotEvent::Connection { connected }) => if connected {
            (SnapshotPhase::Running, SnapshotAction::StartInterval)
        } else {
            (phase, SnapshotAction::AwaitConnection)
        },
        (SnapshotPhase::AwaitingConnection, SnapshotEvent::ConnectionChanged { connected }) => if connected {
            (SnapshotPhase::Running, SnapshotAction::StartInterval)
        } else {
            (phase, SnapshotAction::AwaitConnection)
        },
        (SnapshotPhase::AwaitingConnection, SnapshotEvent::ConnectionClosed) => (
            phase,
            SnapshotAction::Stop,
        ),
        (SnapshotPhase::AwaitingConnection, _) => (phase, SnapshotAction::AwaitConnection),
        (SnapshotPhase::Running, SnapshotEvent::Connection { connected }) => if connected {
            (phase, SnapshotAction::Await)
        } else {
            (SnapshotPhase::AwaitingConnection, SnapshotAction::AwaitConnection)
        },
        (SnapshotPhase::Running, SnapshotEvent::ConnectionChanged { connected }) => if connected {
            (phase, SnapshotAction::Await)
        } else {
            (SnapshotPhase::AwaitingConnection, SnapshotAction::CheckConnection)
        },
        (SnapshotPhase::Running, SnapshotEvent::Tick) => (phase, SnapshotAction::FetchSnapshot),
        (SnapshotPhase::Running, SnapshotEvent::RefreshRequested) => (
            phase,
            SnapshotAction::ResetIntervalAndFetch,
        ),
        (SnapshotPhase::Running, _) => (phase, SnapshotAction::Await),
    }
}

/// What is done about a result of a refresh.
#[derive(Debug)]
pub struct QueueReaction {
    /// What clients are told.
    pub event: Option<BalanceEvent>,
    /// Whether the session is over.
    pub close_session: bool,
}

/// What clients are told of amounts that were read.
pub open spec fn is_update_of(
    event: Option<BalanceEvent>,
    registry: Map<Session, SessionState>,
    handle: SessionHandle,
    balances: BalancesWithBlock,
) -> bool {
    let diff = diff_of(registry[handle.session].subscription.snapshot, balances.0@, balances.1);
    if is_live(registry, handle) && diff != Map::<Address, Seq<char>>::empty() {
        event matches Some(BalanceEvent::BalanceUpdate(told)) && told.wf() && texts(told@) == diff
    } else {
        event is None
    }
}

/// The registry after amounts were read for a session. Those of a session that
/// is gone are dropped, even if another took its place.
pub open spec fn after_update(
    registry: Map<Session, SessionState>,
    handle: SessionHandle,
    balances: BalancesWithBlock,
) -> Map<Session, SessionState> {
    if is_live(registry, handle) {
        balances_merged(registry, handle.session, balances.0@, balances.1)
    } else {
        registry
    }
}

/// An error event with this code and text.
pub open spec fn is_error(event: Option<BalanceEvent>, code: u16, text: Seq<char>) -> bool {
    event matches Some(BalanceEvent::Error { code: c, message }) && c == code && message@ == text
}

pub struct SnapshotUpdater {
    pub session: Session,
    pub phase: SnapshotPhase,
}

impl SnapshotUpdater {
    pub fn new(session: Session) -> (updater: SnapshotUpdater)
        ensures
            updater.session == session,
            updater.phase == SnapshotPhase::AwaitingConnection,
    {
        SnapshotUpdater { session, phase: SnapshotPhase::AwaitingConnection }
    }

    /// What to do about an event.
    pub fn on_event(&mut self, event: SnapshotEvent) -> (action: SnapshotAction)
        ensures
            final(self).session == old(self).session,
            (final(self).phase, action) == snapshot_step(old(self).phase, event),
    {
        match event {
            SnapshotEvent::Cancelled => {
                return SnapshotAction::Stop;
            },
            _ => {},
        }
        match self.phase {
            SnapshotPhase::AwaitingConnection => match event {
                SnapshotEvent::Connection { connected } => {
                    if connected {
                        self.phase = SnapshotPhase::Running;
                        SnapshotAction::StartInterval
                    } else {
                        SnapshotAction::AwaitConnection
                    }
                },
                SnapshotEvent::ConnectionChanged { connected } => {
                    if connected {
                        self.phase = SnapshotPhase::Running;
                        SnapshotAction::StartInterval
                    } else {
                        SnapshotAction::AwaitConnection
                    }
                },
                SnapshotEvent::ConnectionClosed => SnapshotAction::Stop,
                _ => SnapshotAction::AwaitConnection,
            },
            SnapshotPhase::Running => match event {
                SnapshotEvent::Connection { connected } => {
                    if connected {
                        SnapshotAction::Await
                    } else {
                        self.phase = SnapshotPhase::AwaitingConnection;
                        SnapshotAction::AwaitConnection
                    }
                },
                SnapshotEvent::ConnectionChanged { connected } => {
                    if connected {
                        SnapshotAction::Await
                    } else {
                        self.phase = SnapshotPhase::AwaitingConnection;
                        SnapshotAction::CheckConnection
                    }
                },
                SnapshotEvent::Tick => SnapshotAction::FetchSnapshot,
                SnapshotEvent::RefreshRequested => SnapshotAction::ResetIntervalAndFetch,
                _ => SnapshotAction::Await,
            },
        }
    }

    /// Merges what was read and says what clients are told: the changes, if
    /// there are any.
    pub fn update_balances_and_send_event(
        manager: &mut SubscriptionManager,
        handle: &SessionHandle,
        balances: &BalancesWithBlock,
    ) -> (event: Option<BalanceEvent>)
        requires
            old(manager).wf(),
            balances.0.wf(),
        ensures
            final(manager).wf(),
            final(manager).created() == old(manager).created(),
            final(manager)@ == after_update(old(manager)@, *handle, *balances),
            is_update_of(event, old(manager)@, *handle, *balances),
    {
        let ghost registry = manager@;
        match manager.update_balances_and_take_diff(handle, &balances.0, balances.1) {
            None => None,
            Some(diff) => {
                let ghost told = diff_of(
                    registry[handle.session].subscription.snapshot,
                    balances.0@,
                    balances.1,
                );
                proof {
                    assert(texts(diff@).dom() =~= diff@.dom());
                    if told == Map::<Address, Seq<char>>::empty() {
                        assert(diff@ =~= Map::empty());
                    }
                    if diff@ == Map::<Address, String>::empty() {
                        assert(told =~= Map::empty());
                    }
                }
                if diff.is_empty() {
                    None
                } else {
                    Some(BalanceEvent::BalanceUpdate(diff))
                }
            },
        }
    }

    /// One chunk of a snapshot has come, or failed to. A failed chunk is told
    /// and leaves the others alone.
    pub fn on_snapshot_chunk(
        manager: &mut SubscriptionManager,
        handle: &SessionHandle,
        result: Result<BalancesWithBlock, RpcError>,
    ) -> (event: Option<BalanceEvent>)
        requires
            old(manager).wf(),
            result matches Ok(balances) ==> balances.0.wf(),
        ensures
            final(manager).wf(),
            final(manager).created() == old(manager).created(),
            match result {
                Ok(balances) => {
                    &&& final(manager)@ == after_update(old(manager)@, *handle, balances)
                    &&& is_update_of(event, old(manager)@, *handle, balances)
                },
                Err(_) => {
                    &&& final(manager)@ == old(manager)@
                    &&& is_error(event, 500, "Error when make multicall3 request"@)
                },
            },
    {
        match result {
            Ok(balances) => Self::update_balances_and_send_event(manager, handle, &balances),
            Err(_) => Some(
                BalanceEvent::Error {
                    code: 500,
                    message: String::from_str("Error when make multicall3 request"),
                },
            ),
        }
    }

    /// The refresh queue has said something. A failed refresh ends the session;
    /// a queue that has nothing more to say is ignored.
    pub fn on_queue_result(
        manager: &mut SubscriptionManager,
        handle: &SessionHandle,
        message: Option<Result<BalancesWithBlock, RpcError>>,
    ) -> (reaction: QueueReaction)
        requires
            old(manager).wf(),
            message matches Some(Ok(balances)) ==> balances.0.wf(),
        ensures
            final(manager).wf(),
            final(manager).created() == old(manager).created(),
            match message {
                Some(Ok(balances)) => {
                    &&& final(manager)@ == after_update(old(manager)@, *handle, balances)
                    &&& is_update_of(reaction.event, old(manager)@, *handle, balances)
                    &&& !reaction.close_session
                },
                Some(Err(_)) => {
                    &&& final(manager)@ == old(manager)@
                    &&& is_error(
                        reaction.event,
                        503,
                        "RPC provider connection lost permanently"@,
                    )
                    &&& reaction.close_session
                },
                None => {
                    &&& final(manager)@ == old(manager)@
                    &&& reaction.event is None
                    &&& !reaction.close_session
                },
            },
    {
        match message {
            Some(Ok(balances)) => {
                let event = Self::update_balances_and_send_event(manager, handle, &balances);
                QueueReaction { event, close_session: false }
            },
            Some(Err(_)) => QueueReaction {
                event: Some(
                    BalanceEvent::Error {
                        code: 503,
                        message: String::from_str("RPC provider connection lost permanently"),
                    },
                ),
                close_session: true,
            },
            None => QueueReaction { event: None, close_session: false },
        }
    }
}

/// Whether heads are followed, as last reported; nothing before the first
/// report.
pub open spec fn last_report(events: Seq<SnapshotEvent>) -> Option<bool>
    decreases events.len(),
{
    if events.len() == 0 {
        None
    } else {
        match events.last() {
            SnapshotEvent::Connection { connected } => Some(connected),
            SnapshotEvent::ConnectionChanged { connected } => Some(connected),
            _ => last_report(events.drop_last()),
        }
    }
}

/// The phase after a series of events, from the start.
pub open spec fn phase_after(events: Seq<SnapshotEvent>) -> SnapshotPhase
    decreases events.len(),
{
    if events.len() == 0 {
        SnapshotPhase::AwaitingConnection
    } else {
        snapshot_step(phase_after(events.drop_last()), events.last()).0
    }
}

/// Whatever happens, the loop runs if and only if heads were followed when
/// last reported.
pub proof fn law_loop_runs_while_heads_are_followed(events: Seq<SnapshotEvent>)
    ensures
        phase_after(events) == SnapshotPhase::Running <==> last_report(events) == Some(true),
    decreases events.len(),
{
    if events.len() > 0 {
        law_loop_runs_while_heads_are_followed(events.drop_last());
    }
}

/// A snapshot is taken only while heads are followed, as last reported, and a
/// session that is over takes none.
pub proof fn law_snapshots_need_a_connection(events: Seq<SnapshotEvent>, event: SnapshotEvent)
    ensures
        ({
            let action = snapshot_step(phase_after(events), event).1;
            action is FetchSnapshot || action is ResetIntervalAndFetch ==> last_report(events)
                == Some(true) && event != SnapshotEvent::Cancelled
        }),
        snapshot_step(phase_after(events), SnapshotEvent::Cancelled).1 == SnapshotAction::Stop,
{
    law_loop_runs_while_heads_are_followed(events);
}

/// The loop starts, at first and after the connection was lost, only on a
/// report that heads are followed.
pub proof fn law_lost_connection_parks_the_updater(event: SnapshotEvent)
    ensures
        snapshot_step(
            SnapshotPhase::Running,
            SnapshotEvent::ConnectionChanged { connected: false },
        ).0 == SnapshotPhase::AwaitingConnection,
        snapshot_step(SnapshotPhase::AwaitingConnection, event).0 == SnapshotPhase::Running
            <==> event == (SnapshotEvent::ConnectionChanged { connected: true }) || event == (
        SnapshotEvent::Connection { connected: true }),
{
}

/// What the snapshot loop does: it takes a snapshot on every tick and on every
/// request while it runs, the latter anew from the start of the interval; it
/// starts on a report that heads are followed, looks again when told that they
/// are not, and stops when the session is over or the connection can no longer
/// come.
pub proof fn law_snapshot_loop_actions(phase: SnapshotPhase, event: SnapshotEvent)
    ensures
        ({
            let action = snapshot_step(phase, event).1;
            let running = phase == SnapshotPhase::Running;
            let is_report = event is Connection || event is ConnectionChanged;
            let reports_heads = event == (SnapshotEvent::Connection { connected: true }) || event
                == (SnapshotEvent::ConnectionChanged { connected: true });
            &&& action is FetchSnapshot <==> running && event is Tick
            &&& action is ResetIntervalAndFetch <==> running && event is RefreshRequested
            &&& action is StartInterval <==> !running && reports_heads
            &&& action is Stop <==> event is Cancelled || (!running && event is ConnectionClosed)
            &&& action is CheckConnection <==> running && event == (
            SnapshotEvent::ConnectionChanged { connected: false })
            &&& action is AwaitConnection <==> (running && event == (SnapshotEvent::Connection {
                connected: false,
            })) || (!running && ((is_report && !reports_heads) || event is Tick
                || event is RefreshRequested))
            &&& action is Await <==> running && (reports_heads || event is ConnectionClosed)
        }),
{
}

/// Amounts that were read for a session that is there, under the number they
/// were read for, are kept as they were read unless something at least as
/// recent is known, and clients are told of exactly those of them that they did
/// not know, in decimal.
pub proof fn law_read_amounts_reach_the_session(
    event: Option<BalanceEvent>,
    registry: Map<Session, SessionState>,
    handle: SessionHandle,
    balances: BalancesWithBlock,
    token: Address,
)
    requires
        is_update_of(event, registry, handle, balances),
        registry.dom().contains(handle.session),
        registry[handle.session].id == handle.id,
    ensures
        ({
            let after = after_update(registry, handle, balances);
            let known = registry[handle.session].subscription.snapshot;
            let shown = after[handle.session].subscription.snapshot;
            let is_taken = balances.0@.dom().contains(token) && (!known.dom().contains(token)
                || known[token].block_number < balances.1);
            let is_told = is_taken && (!known.dom().contains(token) || known[token].amount
                != balances.0@[token]);
            &&& after.dom() == registry.dom()
            &&& is_taken ==> shown.dom().contains(token) && shown[token].amount
                == balances.0@[token] && shown[token].block_number == balances.1
            &&& !is_taken ==> (shown.dom().contains(token) <==> known.dom().contains(token))
            &&& !is_taken && known.dom().contains(token) ==> shown[token] == known[token]
            &&& is_told ==> event is Some
            &&& event matches Some(e) ==> (e matches BalanceEvent::BalanceUpdate(told) && (
            told@.dom().contains(token) <==> is_told) && (is_told ==> told@[token]@ == decimal(
                balances.0@[token]@,
            )) && told@ != Map::<Address, String>::empty())
        }),
{
    law_merge_changes_the_balances_of_one_session(
        registry,
        handle.session,
        balances.0@,
        balances.1,
        handle.session,
        token,
    );
    let diff = diff_of(registry[handle.session].subscription.snapshot, balances.0@, balances.1);
    if let Some(BalanceEvent::BalanceUpdate(told)) = event {
        law_texts_are_those_of_the_map(told@, token);
        if told@ == Map::<Address, String>::empty() {
            assert(texts(told@) =~= Map::empty());
        }
    }
    if diff.dom().contains(token) {
        assert(diff != Map::<Address, Seq<char>>::empty());
    }
}

/// What one session is read changes no other, and what was read for a session
/// that is gone changes nothing and is told to nobody, even if another session
/// took its place.
pub proof fn law_amounts_reach_no_other_session(
    event: Option<BalanceEvent>,
    registry: Map<Session, SessionState>,
    handle: SessionHandle,
    balances: BalancesWithBlock,
    other: Session,
)
    requires
        is_update_of(event, registry, handle, balances),
    ensures
        other != handle.session && registry.dom().contains(other) ==> after_update(
            registry,
            handle,
            balances,
        )[other] == registry[other],
        !registry.dom().contains(handle.session) || registry[handle.session].id != handle.id ==> {
            &&& event is None
            &&& after_update(registry, handle, balances) == registry
        },
{
}

/// An error event carries the code and the text that it is for.
pub proof fn law_error_event_carries_its_code(
    event: Option<BalanceEvent>,
    code: u16,
    text: Seq<char>,
)
    requires
        is_error(event, code, text),
    ensures
        event is Some,
        event->0 is Error,
        event->0->code == code,
        event->0->message@ == text,
{
}

} // verus!
