//! The registry of live sessions: who watches what, how many clients listen to
//! a session, and since when nobody does.
//!
//! A session that comes back after it was dropped is another one: what was read
//! on behalf of the first is never taken for the second's.
//!
//! Sessions without clients are dropped once they have been idle for longer
//! than their time to live. One wallet may be watched on one chain by a bounded
//! number of sessions at once.
use crate::collections::address_map::AddressMap;
use crate::collections::address_set::{lemma_push_to_set, AddressSet};
use crate::collections::keyed::{
    distinct_keys, has_key, key_index, lemma_map_of_entry, lemma_map_of_push, lemma_map_of_remove,
    lemma_map_of_update, lemma_next_key_is_new, map_of,
};
use crate::config::constants::{MAX_CLIENTS_PER_OWNER, SESSION_TTL};
use crate::domain::events::BalanceEvent;
use crate::domain::evm_network::EvmNetwork;
use crate::domain::primitives::{Address, U256};
use crate::domain::session::Session;
use crate::services::subscription::{
    diff_of, merged, texts, watched_replaced, Balance, BalanceSnapshot, Subscription,
    SubscriptionState,
};
use crate::text::{decimal, decimal_text, joined};
use vstd::prelude::*;
use vstd::string::*;

verus! {

#[derive(Clone, Copy, Debug, PartialEq, Eq, Structural)]
pub enum SubscriptionError {
    /// There is no such session, or it has no client to be removed.
    SessionNotRegistered,
    /// One more session would exceed what one owner may have on one chain.
    OwnerClientLimitExceeded { limit: usize },
}

impl SubscriptionError {
    pub open spec fn message(self) -> Seq<char> {
        match self {
            SubscriptionError::SessionNotRegistered =>
                "no session registered for this (chain, owner, client_id)"@,
            SubscriptionError::OwnerClientLimitExceeded { limit } =>
                "too many active client_ids for this owner (limit: "@ + decimal(limit as nat)
                + ")"@,
        }
    }

    pub fn to_text(&self) -> (text: String)
        ensures
            text@ == self.message(),
    {
        match self {
            SubscriptionError::SessionNotRegistered => String::from_str(
                "no session registered for this (chain, owner, client_id)",
            ),
            SubscriptionError::OwnerClientLimitExceeded { limit } => {
                let number = decimal_text(*limit as u64);
                let mut text = joined(
                    "too many active client_ids for this owner (limit: ",
                    number.as_str(),
                );
                text.append(")");
                text
            },
        }
    }
}

/// What an accepted upsert did.
#[derive(Clone, Copy, Debug, PartialEq, Eq, Structural)]
pub enum UpsertOutcome {
    /// The session was there; its tokens were replaced. A fresh snapshot is
    /// due if they changed.
    Existing { changed: bool },
    /// The session is new and its balances have to be watched from now on.
    /// What is read for it is handed in under `id`.
    Created { id: u64, sessions_for_owner: usize },
}

/// One life of a session, from its creation until it is dropped.
#[derive(Clone, Copy, Debug, PartialEq, Eq, Structural)]
pub struct SessionHandle {
    pub session: Session,
    pub id: u64,
}

struct SubWithCounter {
    id: u64,
    clients: u32,
    /// When the last client left, in nanoseconds of a monotonic clock.
    idle_since: Option<u64>,
    subscription: Subscription,
}

/// One session of the registry.
pub struct SessionState {
    /// How many sessions had been created before it.
    pub id: u64,
    pub clients: u32,
    pub idle_since: Option<u64>,
    pub subscription: SubscriptionState,
}

impl SubWithCounter {
    spec fn state(&self) -> SessionState {
        SessionState {
            id: self.id,
            clients: self.clients,
            idle_since: self.idle_since,
            subscription: self.subscription@,
        }
    }
}

spec fn registry_of(entries: Seq<(Session, SubWithCounter)>) -> Map<Session, SessionState> {
    map_of(entries).map_values(|sub: SubWithCounter| sub.state())
}

proof fn lemma_registry_entry(entries: Seq<(Session, SubWithCounter)>, i: int)
    requires
        distinct_keys(entries),
        0 <= i < entries.len(),
    ensures
        registry_of(entries).dom().contains(entries[i].0),
        registry_of(entries)[entries[i].0] == entries[i].1.state(),
{
    lemma_map_of_entry(entries, i);
}

proof fn lemma_registry_push(
    entries: Seq<(Session, SubWithCounter)>,
    session: Session,
    sub: SubWithCounter,
)
    requires
        distinct_keys(entries),
        !has_key(entries, session),
    ensures
        distinct_keys(entries.push((session, sub))),
        registry_of(entries.push((session, sub))) == registry_of(entries).insert(
            session,
            sub.state(),
        ),
{
    lemma_map_of_push(entries, session, sub);
    assert(registry_of(entries.push((session, sub))) =~= registry_of(entries).insert(
        session,
        sub.state(),
    ));
}

proof fn lemma_registry_update(
    entries: Seq<(Session, SubWithCounter)>,
    i: int,
    sub: SubWithCounter,
)
    requires
        distinct_keys(entries),
        0 <= i < entries.len(),
    ensures
        distinct_keys(entries.update(i, (entries[i].0, sub))),
        registry_of(entries.update(i, (entries[i].0, sub))) == registry_of(entries).insert(
            entries[i].0,
            sub.state(),
        ),
{
    lemma_map_of_update(entries, i, sub);
    assert(registry_of(entries.update(i, (entries[i].0, sub))) =~= registry_of(entries).insert(
        entries[i].0,
        sub.state(),
    ));
}

proof fn lemma_registry_remove(entries: Seq<(Session, SubWithCounter)>, i: int)
    requires
        distinct_keys(entries),
        0 <= i < entries.len(),
    ensures
        distinct_keys(entries.remove(i)),
        registry_of(entries.remove(i)) == registry_of(entries).remove(entries[i].0),
{
    lemma_map_of_remove(entries, i);
    assert(registry_of(entries.remove(i)) =~= registry_of(entries).remove(entries[i].0));
}

/// The sessions that watch one wallet on one chain.
pub open spec fn owner_sessions(
    registry: Map<Session, SessionState>,
    network: EvmNetwork,
    owner: Address,
) -> Set<Session> {
    registry.dom().filter(
        |session: Session| session.network == network && session.owner == owner,
    )
}

/// No wallet is watched on a chain by more sessions than allowed.
pub open spec fn within_owner_cap(registry: Map<Session, SessionState>) -> bool {
    &&& registry.dom().finite()
    &&& forall|network: EvmNetwork, owner: Address| #[trigger]
        owner_sessions(registry, network, owner).len() <= MAX_CLIENTS_PER_OWNER
}

/// A session nobody has listened to yet.
pub open spec fn fresh_session(id: u64, tokens: Set<Address>, now: u64) -> SessionState {
    SessionState {
        id,
        clients: 0,
        idle_since: Some(now),
        subscription: SubscriptionState {
            watched: tokens,
            snapshot: Map::<Address, Balance>::empty(),
        },
    }
}

/// The session is there, and it is the one that the handle was given for.
pub open spec fn is_live(registry: Map<Session, SessionState>, handle: SessionHandle) -> bool {
    registry.dom().contains(handle.session) && registry[handle.session].id == handle.id
}

/// The registry after a session was created, as number `id`, or given new
/// tokens, or why it cannot be. The cap binds new sessions only.
pub open spec fn upserted(
    registry: Map<Session, SessionState>,
    id: u64,
    session: Session,
    tokens: Set<Address>,
    now: u64,
) -> Result<Map<Session, SessionState>, SubscriptionError> {
    if registry.dom().contains(session) {
        let state = registry[session];
        Ok(
            registry.insert(
                session,
                SessionState {
                    subscription: watched_replaced(state.subscription, tokens),
                    ..state
                },
            ),
        )
    } else if owner_sessions(registry, session.network, session.owner).len()
        >= MAX_CLIENTS_PER_OWNER {
        Err(SubscriptionError::OwnerClientLimitExceeded { limit: MAX_CLIENTS_PER_OWNER })
    } else {
        Ok(registry.insert(session, fresh_session(id, tokens, now)))
    }
}

/// What an accepted upsert is reported as, given the registry before it.
pub open spec fn upsert_outcome(
    registry: Map<Session, SessionState>,
    id: u64,
    session: Session,
    tokens: Set<Address>,
) -> UpsertOutcome {
    if registry.dom().contains(session) {
        UpsertOutcome::Existing { changed: registry[session].subscription.watched != tokens }
    } else {
        UpsertOutcome::Created {
            id,
            sessions_for_owner: (owner_sessions(registry, session.network, session.owner).len()
                + 1) as usize,
        }
    }
}

/// A session after one more client connected. The counter stops at its
/// maximum.
pub open spec fn with_client(state: SessionState) -> SessionState {
    SessionState {
        clients: if state.clients < u32::MAX {
            (state.clients + 1) as u32
        } else {
            u32::MAX
        },
        idle_since: None,
        ..state
    }
}

/// A session with clients after one of them left.
pub open spec fn without_client(state: SessionState, now: u64) -> SessionState {
    SessionState {
        clients: (state.clients - 1) as u32,
        idle_since: if state.clients == 1 {
            Some(now)
        } else {
            state.idle_since
        },
        ..state
    }
}

/// It is known since when nobody listens, if and only if nobody does.
pub open spec fn idleness_is_known(state: SessionState) -> bool {
    state.clients == 0 <==> state.idle_since is Some
}

/// Nobody listens, and nobody has for longer than the time to live.
pub open spec fn is_expired(state: SessionState, now: u64) -> bool {
    &&& state.clients == 0
    &&& state.idle_since matches Some(since) && now - since > SESSION_TTL
}

/// The registry without the sessions that have expired.
pub open spec fn reaped(
    registry: Map<Session, SessionState>,
    now: u64,
) -> Map<Session, SessionState> {
    Map::new(
        |session: Session|
            registry.dom().contains(session) && !is_expired(registry[session], now),
        |session: Session| registry[session],
    )
}

/// The registry after amounts read at `block` were merged into the balances of
/// a registered session.
pub open spec fn balances_merged(
    registry: Map<Session, SessionState>,
    session: Session,
    amounts: Map<Address, U256>,
    block: u64,
) -> Map<Session, SessionState> {
    let state = registry[session];
    registry.insert(
        session,
        SessionState {
            subscription: SubscriptionState {
                snapshot: merged(state.subscription.snapshot, amounts, block),
                ..state.subscription
            },
            ..state
        },
    )
}

/// What every client is told when the service shuts down.
pub fn shutdown_event() -> (event: BalanceEvent)
    ensures
        event matches BalanceEvent::Error { code, message } && code == 503 && message@
            == "server is shutting down"@,
{
    BalanceEvent::Error { code: 503, message: String::from_str("server is shutting down") }
}

pub struct SubscriptionManager {
    entries: Vec<(Session, SubWithCounter)>,
    created: u64,
}

impl View for SubscriptionManager {
    type V = Map<Session, SessionState>;

    closed spec fn view(&self) -> Map<Session, SessionState> {
        registry_of(self.entries@)
    }
}

impl SubscriptionManager {
    /// How many sessions have been created so far.
    pub closed spec fn created(&self) -> u64 {
        self.created
    }

    pub closed spec fn wf(&self) -> bool {
        &&& distinct_keys(self.entries@)
        &&& forall|i: int|
            0 <= i < self.entries@.len() ==> (#[trigger] self.entries@[i]).1.subscription.wf()
        &&& forall|i: int|
            0 <= i < self.entries@.len() ==> idleness_is_known(
                (#[trigger] self.entries@[i]).1.state(),
            )
        &&& forall|i: int|
            0 <= i < self.entries@.len() ==> (#[trigger] self.entries@[i]).1.id < self.created
        &&& within_owner_cap(self@)
    }

    pub fn new() -> (manager: SubscriptionManager)
        ensures
            manager.wf(),
            manager@ == Map::<Session, SessionState>::empty(),
            manager.created() == 0,
    {
        let manager = SubscriptionManager { entries: Vec::new(), created: 0 };
        assert(manager@ =~= Map::<Session, SessionState>::empty());
        assert forall|network: EvmNetwork, owner: Address| #[trigger]
            owner_sessions(manager@, network, owner).len() <= MAX_CLIENTS_PER_OWNER by {
            assert(owner_sessions(manager@, network, owner) =~= Set::<Session>::empty());
        }
        manager
    }

    fn position(&self, session: &Session) -> (found: Option<usize>)
        ensures
            found is Some <==> has_key(self.entries@, *session),
            found matches Some(i) ==> i < self.entries@.len() && self.entries@[i as int].0
                == *session,
    {
        let mut i: usize = 0;
        while i < self.entries.len()
            invariant
                i <= self.entries@.len(),
                forall|j: int| 0 <= j < i ==> (#[trigger] self.entries@[j]).0 != *session,
            decreases self.entries@.len() - i,
        {
            if self.entries[i].0 == *session {
                return Some(i);
            }
            i = i + 1;
        }
        None
    }

    /// How many sessions have been created so far.
    pub fn created_count(&self) -> (count: u64)
        ensures
            count == self.created(),
    {
        self.created
    }

    /// Where the session is that the handle was given for, if it is there.
    fn position_of(&self, handle: &SessionHandle) -> (found: Option<usize>)
        requires
            self.wf(),
        ensures
            found is Some <==> is_live(self@, *handle),
            found matches Some(i) ==> i < self.entries@.len() && self.entries@[i as int].0
                == handle.session,
    {
        match self.position(&handle.session) {
            Some(i) => {
                proof {
                    lemma_registry_entry(self.entries@, i as int);
                }
                if self.entries[i].1.id == handle.id {
                    Some(i)
                } else {
                    None
                }
            },
            None => None,
        }
    }

    pub fn is_registered(&self, session: &Session) -> (r: bool)
        ensures
            r == self@.dom().contains(*session),
    {
        self.position(session).is_some()
    }

    /// How many sessions watch `owner` on `network`.
    pub fn sessions_of(&self, network: EvmNetwork, owner: &Address) -> (count: usize)
        requires
            self.wf(),
        ensures
            count == owner_sessions(self@, network, *owner).len(),
    {
        let mut count: usize = 0;
        let mut i: usize = 0;
        let ghost mut seen: Set<Session> = Set::empty();
        while i < self.entries.len()
            invariant
                i <= self.entries@.len(),
                count <= i,
                distinct_keys(self.entries@),
                seen.finite(),
                count == seen.len(),
                forall|s: Session| #[trigger]
                    seen.contains(s) <==> s.network == network && s.owner == *owner && has_key(
                        self.entries@.take(i as int),
                        s,
                    ),
            decreases self.entries@.len() - i,
        {
            let ghost shorter = self.entries@.take(i as int);
            let ghost longer = self.entries@.take(i + 1);
            let session = self.entries[i].0;
            proof {
                lemma_next_key_is_new(self.entries@, i as int);
                assert forall|s: Session| has_key(longer, s) == (s == session || has_key(
                    shorter,
                    s,
                )) by {
                    if has_key(shorter, s) {
                        let j = key_index(shorter, s);
                        assert(longer[j] == shorter[j]);
                    }
                    if s == session {
                        assert(longer[i as int].0 == s);
                    }
                    if has_key(longer, s) && s != session {
                        let j = key_index(longer, s);
                        assert(shorter[j] == longer[j]);
                    }
                }
            }
            if session.network == network && session.owner == *owner {
                count = count + 1;
                proof {
                    seen = seen.insert(session);
                }
            }
            i = i + 1;
        }
        proof {
            assert(self.entries@.take(i as int) =~= self.entries@);
            assert(seen =~= owner_sessions(self@, network, *owner));
        }
        count
    }

    /// Creates a session, or replaces the tokens of one that is there.
    pub fn upsert(
        &mut self,
        session: Session,
        tokens: AddressSet,
        now: u64,
    ) -> (outcome: Result<UpsertOutcome, SubscriptionError>)
        requires
            old(self).wf(),
            old(self)@.dom().contains(session) || old(self).created() < u64::MAX,
            tokens.wf(),
        ensures
            final(self).wf(),
            match upserted(old(self)@, old(self).created(), session, tokens@, now) {
                Ok(registry) => {
                    &&& final(self)@ == registry
                    &&& outcome == Ok::<UpsertOutcome, SubscriptionError>(
                        upsert_outcome(old(self)@, old(self).created(), session, tokens@),
                    )
                },
                Err(error) => {
                    &&& final(self)@ == old(self)@
                    &&& outcome == Err::<UpsertOutcome, SubscriptionError>(error)
                },
            },
            final(self).created() == old(self).created() + if outcome matches Ok(
                UpsertOutcome::Created { .. },
            ) {
                1int
            } else {
                0int
            },
    {
        match self.position(&session) {
            Some(i) => {
                let changed = self.replace_watched_tokens(i, tokens);
                Ok(UpsertOutcome::Existing { changed })
            },
            None => self.create_session_locked(session, tokens, now),
        }
    }

    fn replace_watched_tokens(&mut self, i: usize, tokens: AddressSet) -> (changed: bool)
        requires
            old(self).wf(),
            tokens.wf(),
            i < old(self).entries@.len(),
        ensures
            final(self).wf(),
            final(self).created() == old(self).created(),
            ({
                let session = old(self).entries@[i as int].0;
                let state = old(self)@[session];
                &&& old(self)@.dom().contains(session)
                &&& changed == (state.subscription.watched != tokens@)
                &&& final(self)@ == old(self)@.insert(
                    session,
                    SessionState {
                        subscription: watched_replaced(state.subscription, tokens@),
                        ..state
                    },
                )
            }),
    {
        let ghost before = self.entries@;
        let changed = self.entries[i].1.subscription.set_watched_tokens(tokens);
        proof {
            lemma_registry_entry(before, i as int);
            lemma_registry_update(before, i as int, self.entries@[i as int].1);
            assert(self.entries@ =~= before.update(i as int, self.entries@[i as int]));
            lemma_cap_kept(registry_of(before), self@);
        }
        changed
    }

    /// Registers a session that is known to be absent, unless its owner is at
    /// the limit on its chain.
    fn create_session_locked(
        &mut self,
        session: Session,
        tokens: AddressSet,
        now: u64,
    ) -> (outcome: Result<UpsertOutcome, SubscriptionError>)
        requires
            old(self).wf(),
            old(self).created() < u64::MAX,
            tokens.wf(),
            !old(self)@.dom().contains(session),
        ensures
            final(self).wf(),
            match upserted(old(self)@, old(self).created(), session, tokens@, now) {
                Ok(registry) => {
                    &&& final(self)@ == registry
                    &&& outcome == Ok::<UpsertOutcome, SubscriptionError>(
                        upsert_outcome(old(self)@, old(self).created(), session, tokens@),
                    )
                    &&& final(self).created() == old(self).created() + 1
                },
                Err(error) => {
                    &&& final(self)@ == old(self)@
                    &&& outcome == Err::<UpsertOutcome, SubscriptionError>(error)
                    &&& final(self).created() == old(self).created()
                },
            },
    {
        let existing: usize = self.sessions_of(session.network, &session.owner);
        if existing >= MAX_CLIENTS_PER_OWNER {
            return Err(
                SubscriptionError::OwnerClientLimitExceeded { limit: MAX_CLIENTS_PER_OWNER },
            );
        }
        let ghost before = self.entries@;
        let ghost watched = tokens@;
        let id: u64 = self.created;
        let entry = SubWithCounter {
            id,
            clients: 0,
            idle_since: Some(now),
            subscription: Subscription::new(tokens),
        };
        proof {
            lemma_registry_push(before, session, entry);
            assert(entry.state() == fresh_session(id, watched, now));
        }
        self.entries.push((session, entry));
        self.created = id + 1;
        proof {
            let ghost after = registry_of(before).insert(session, fresh_session(id, watched, now));
            assert(self@ == after);
            assert(after.dom() =~= registry_of(before).dom().insert(session));
            assert forall|network: EvmNetwork, owner: Address| #[trigger]
                owner_sessions(after, network, owner).len() <= MAX_CLIENTS_PER_OWNER by {
                let had = owner_sessions(registry_of(before), network, owner);
                registry_of(before).dom().lemma_len_filter(
                    |s: Session| s.network == network && s.owner == owner,
                );
                if network == session.network && owner == session.owner {
                    assert(owner_sessions(after, network, owner) =~= had.insert(session));
                } else {
                    assert(owner_sessions(after, network, owner) =~= had);
                }
            }
        }
        Ok(UpsertOutcome::Created { id, sessions_for_owner: existing + 1 })
    }

    /// One more client listens to `session`.
    pub fn subscribe(&mut self, session: &Session) -> (outcome: Result<(), SubscriptionError>)
        requires
            old(self).wf(),
        ensures
            final(self).wf(),
            final(self).created() == old(self).created(),
            if old(self)@.dom().contains(*session) {
                &&& outcome is Ok
                &&& final(self)@ == old(self)@.insert(*session, with_client(old(self)@[*session]))
            } else {
                &&& outcome == Err::<(), SubscriptionError>(
                    SubscriptionError::SessionNotRegistered,
                )
                &&& final(self)@ == old(self)@
            },
    {
        match self.position(session) {
            Some(i) => {
                let ghost before = self.entries@;
                let clients: u32 = self.entries[i].1.clients.saturating_add(1);
                self.entries[i].1.clients = clients;
                self.entries[i].1.idle_since = None;
                proof {
                    lemma_registry_entry(before, i as int);
                    lemma_registry_update(before, i as int, self.entries@[i as int].1);
                    assert(self.entries@ =~= before.update(i as int, self.entries@[i as int]));
                    lemma_cap_kept(registry_of(before), self@);
                }
                Ok(())
            },
            None => Err(SubscriptionError::SessionNotRegistered),
        }
    }

    /// A client left. Says whether it was the last one.
    pub fn unsubscribe(&mut self, session: &Session, now: u64) -> (outcome: Result<
        bool,
        SubscriptionError,
    >)
        requires
            old(self).wf(),
        ensures
            final(self).wf(),
            final(self).created() == old(self).created(),
            if old(self)@.dom().contains(*session) && old(self)@[*session].clients > 0 {
                &&& outcome == Ok::<bool, SubscriptionError>(old(self)@[*session].clients == 1)
                &&& final(self)@ == old(self)@.insert(
                    *session,
                    without_client(old(self)@[*session], now),
                )
            } else {
                &&& outcome == Err::<bool, SubscriptionError>(
                    SubscriptionError::SessionNotRegistered,
                )
                &&& final(self)@ == old(self)@
            },
    {
        match self.position(session) {
            Some(i) => {
                let ghost before = self.entries@;
                proof {
                    lemma_registry_entry(before, i as int);
                }
                let clients: u32 = self.entries[i].1.clients;
                if clients == 0 {
                    return Err(SubscriptionError::SessionNotRegistered);
                }
                self.entries[i].1.clients = clients - 1;
                if clients == 1 {
                    self.entries[i].1.idle_since = Some(now);
                }
                proof {
                    lemma_registry_update(before, i as int, self.entries@[i as int].1);
                    assert(self.entries@ =~= before.update(i as int, self.entries@[i as int]));
                    lemma_cap_kept(registry_of(before), self@);
                }
                Ok(clients == 1)
            },
            None => Err(SubscriptionError::SessionNotRegistered),
        }
    }

    /// The sessions of `owner` that watch `token`: each of them gets its own
    /// refresh.
    pub fn owned_queues_watching(&self, owner: &Address, token: &Address) -> (sessions: Vec<
        Session,
    >)
        requires
            self.wf(),
        ensures
            sessions@.no_duplicates(),
            forall|s: Session| #[trigger]
                sessions@.contains(s) <==> self@.dom().contains(s) && s.owner == *owner
                    && self@[s].subscription.watched.contains(*token),
    {
        let mut sessions: Vec<Session> = Vec::new();
        let mut i: usize = 0;
        while i < self.entries.len()
            invariant
                i <= self.entries@.len(),
                self.wf(),
                sessions@.no_duplicates(),
                forall|s: Session| #[trigger]
                    sessions@.contains(s) <==> exists|j: int|
                        0 <= j < i && (#[trigger] self.entries@[j]).0 == s && s.owner
                            == *owner && self.entries@[j].1.subscription@.watched.contains(*token),
            decreases self.entries@.len() - i,
        {
            let session = self.entries[i].0;
            let ghost before = sessions@;
            let watching = session.owner == *owner
                && self.entries[i].1.subscription.is_watched_token(token);
            if watching {
                proof {
                    if before.contains(session) {
                        let j = choose|j: int|
                            0 <= j < i && (#[trigger] self.entries@[j]).0 == session;
                        assert(self.entries@[j].0 != self.entries@[i as int].0);
                    }
                    lemma_push_to_set(before, session);
                    assert forall|s: Session| before.push(session).contains(s) == (before.contains(
                        s,
                    ) || s == session) by {
                        assert(before.push(session).to_set().contains(s)
                            == before.to_set().insert(session).contains(s));
                    }
                }
                sessions.push(session);
            }
            i = i + 1;
            proof {
                assert forall|s: Session| #[trigger]
                    sessions@.contains(s) <==> exists|j: int|
                        0 <= j < i && (#[trigger] self.entries@[j]).0 == s && s.owner
                            == *owner && self.entries@[j].1.subscription@.watched.contains(
                            *token,
                        ) by {
                    if before.contains(s) {
                        let j = choose|j: int|
                            0 <= j < i - 1 && (#[trigger] self.entries@[j]).0 == s
                                && self.entries@[j].1.subscription@.watched.contains(*token);
                        assert(0 <= j < i && self.entries@[j].0 == s);
                    }
                    if watching && s == session {
                        assert(self.entries@[i - 1].0 == s);
                    }
                }
            }
        }
        proof {
            assert forall|s: Session| #[trigger]
                sessions@.contains(s) <==> self@.dom().contains(s) && s.owner == *owner
                    && self@[s].subscription.watched.contains(*token) by {
                if sessions@.contains(s) {
                    let j = choose|j: int|
                        0 <= j < self.entries@.len() && (#[trigger] self.entries@[j]).0 == s
                            && self.entries@[j].1.subscription@.watched.contains(*token);
                    lemma_registry_entry(self.entries@, j);
                }
                if self@.dom().contains(s) {
                    let j = key_index(self.entries@, s);
                    assert(self.entries@[j].0 == s);
                    lemma_registry_entry(self.entries@, j);
                }
            }
        }
        sessions
    }

    /// Drops the sessions that have expired and returns them, so that what
    /// runs on their behalf can be stopped.
    pub fn cleanup_subs(&mut self, now: u64) -> (expired: Vec<Session>)
        requires
            old(self).wf(),
        ensures
            final(self).wf(),
            final(self).created() == old(self).created(),
            final(self)@ == reaped(old(self)@, now),
            expired@.no_duplicates(),
            forall|s: Session| #[trigger]
                expired@.contains(s) <==> old(self)@.dom().contains(s) && is_expired(
                    old(self)@[s],
                    now,
                ),
    {
        let mut expired: Vec<Session> = Vec::new();
        let ghost all = self@;
        let mut i: usize = 0;
        assert(self@ =~= all.remove_keys(expired@.to_set()));
        while i < self.entries.len()
            invariant
                i <= self.entries@.len(),
                self.created == old(self).created,
                distinct_keys(self.entries@),
                forall|j: int|
                    0 <= j < self.entries@.len() ==> (#[trigger] self.entries@[j]).1.subscription.wf()
                        && idleness_is_known(self.entries@[j].1.state())
                        && self.entries@[j].1.id < self.created,
                expired@.no_duplicates(),
                self@ == all.remove_keys(expired@.to_set()),
                forall|j: int|
                    0 <= j < i ==> !is_expired((#[trigger] self.entries@[j]).1.state(), now),
                forall|s: Session| #[trigger]
                    expired@.contains(s) ==> all.dom().contains(s) && is_expired(all[s], now),
            decreases self.entries@.len() - i,
        {
            let ghost before = self.entries@;
            proof {
                lemma_registry_entry(before, i as int);
            }
            let should_remove = self.entries[i].1.clients == 0 && match self.entries[i].1.idle_since {
                Some(since) => now.saturating_sub(since) > SESSION_TTL,
                None => false,
            };
            if should_remove {
                let session = self.entries[i].0;
                let ghost gone = expired@;
                assert(is_expired(before[i as int].1.state(), now));
                proof {
                    lemma_registry_remove(before, i as int);
                    lemma_push_to_set(gone, session);
                    assert(registry_of(before).dom().contains(session));
                    assert(!gone.to_set().contains(session));
                    assert forall|s: Session| #[trigger] gone.push(session).contains(s) implies (
                    gone.contains(s) || s == session) by {
                        assert(gone.push(session).to_set().contains(s));
                    }
                }
                let _ = self.entries.remove(i);
                expired.push(session);
                proof {
                    assert(self.entries@ =~= before.remove(i as int));
                    assert(self@ =~= all.remove_keys(expired@.to_set()));
                    assert forall|j: int| 0 <= j < i implies !is_expired(
                        (#[trigger] self.entries@[j]).1.state(),
                        now,
                    ) by {
                        assert(self.entries@[j] == before[j]);
                    }
                    assert forall|j: int| 0 <= j < self.entries@.len() implies (
                    #[trigger] self.entries@[j]).1.subscription.wf() && idleness_is_known(
                        self.entries@[j].1.state(),
                    ) && self.entries@[j].1.id < self.created by {
                        let k = if j < i { j } else { j + 1 };
                        assert(self.entries@[j] == before[k]);
                    }
                }
            } else {
                assert(!is_expired(before[i as int].1.state(), now));
                i = i + 1;
            }
        }
        proof {
            assert forall|s: Session| #[trigger] self@.dom().contains(s) implies !is_expired(
                all[s],
                now,
            ) by {
                let j = key_index(self.entries@, s);
                assert(self.entries@[j].0 == s);
                lemma_registry_entry(self.entries@, j);
            }
            assert forall|s: Session| #[trigger] expired@.contains(s) <==> all.dom().contains(s)
                && is_expired(all[s], now) by {
                if all.dom().contains(s) && is_expired(all[s], now) {
                    assert(!self@.dom().contains(s));
                }
            }
            assert(self@ =~= reaped(all, now));
            lemma_cap_kept(all, self@);
        }
        expired
    }

    /// Forgets every session and returns them; their clients are told with
    /// the shutdown event.
    pub fn close_sse_connections(&mut self) -> (closed: Vec<Session>)
        requires
            old(self).wf(),
        ensures
            final(self).wf(),
            final(self).created() == old(self).created(),
            final(self)@ == Map::<Session, SessionState>::empty(),
            closed@.no_duplicates(),
            forall|s: Session| #[trigger] closed@.contains(s) <==> old(self)@.dom().contains(s),
    {
        let mut closed: Vec<Session> = Vec::new();
        let mut i: usize = 0;
        while i < self.entries.len()
            invariant
                i <= self.entries@.len(),
                *self == *old(self),
                distinct_keys(self.entries@),
                closed@.len() == i,
                forall|j: int| 0 <= j < i ==> #[trigger] closed@[j] == self.entries@[j].0,
            decreases self.entries@.len() - i,
        {
            closed.push(self.entries[i].0);
            i = i + 1;
        }
        proof {
            assert forall|s: Session| #[trigger] closed@.contains(s) <==> old(
                self,
            )@.dom().contains(s) by {
                if closed@.contains(s) {
                    let j = choose|j: int| 0 <= j < closed@.len() && closed@[j] == s;
                    assert(old(self).entries@[j].0 == s);
                }
                if old(self)@.dom().contains(s) {
                    let j = key_index(old(self).entries@, s);
                    assert(closed@[j] == s);
                }
            }
            assert forall|a: int, b: int|
                0 <= a < closed@.len() && 0 <= b < closed@.len() && a != b implies closed@[a]
                != closed@[b] by {
                assert(old(self).entries@[a].0 != old(self).entries@[b].0);
            }
        }
        self.entries = Vec::new();
        proof {
            assert(self@ =~= Map::<Session, SessionState>::empty());
            lemma_cap_kept(old(self)@, self@);
        }
        closed
    }

    /// Merges amounts into the balances of a session and returns what its
    /// clients have to be told; nothing for one that is gone, even if another
    /// took its place.
    pub fn update_balances_and_take_diff(
        &mut self,
        handle: &SessionHandle,
        new_balances: &AddressMap<U256>,
        block_number: u64,
    ) -> (diff: Option<AddressMap<String>>)
        requires
            old(self).wf(),
            new_balances.wf(),
        ensures
            final(self).wf(),
            final(self).created() == old(self).created(),
            diff is Some <==> is_live(old(self)@, *handle),
            diff matches Some(d) ==> {
                &&& d.wf()
                &&& texts(d@) == diff_of(
                    old(self)@[handle.session].subscription.snapshot,
                    new_balances@,
                    block_number,
                )
                &&& final(self)@ == balances_merged(
                    old(self)@,
                    handle.session,
                    new_balances@,
                    block_number,
                )
            },
            diff is None ==> final(self)@ == old(self)@,
    {
        match self.position_of(handle) {
            Some(i) => {
                let ghost before = self.entries@;
                let diff = self.entries[i].1.subscription.update_balances_and_take_diff(
                    new_balances,
                    block_number,
                );
                proof {
                    lemma_registry_entry(before, i as int);
                    lemma_registry_update(before, i as int, self.entries@[i as int].1);
                    assert(self.entries@ =~= before.update(i as int, self.entries@[i as int]));
                    lemma_cap_kept(registry_of(before), self@);
                }
                Some(diff)
            },
            None => None,
        }
    }

    /// The balances of `session` as they are known.
    pub fn current_snapshot(&self, session: &Session) -> (snapshot: Option<BalanceSnapshot>)
        requires
            self.wf(),
        ensures
            snapshot is Some <==> self@.dom().contains(*session),
            snapshot matches Some(s) ==> s.wf() && s@ == self@[*session].subscription.snapshot,
    {
        match self.position(session) {
            Some(i) => {
                proof {
                    lemma_registry_entry(self.entries@, i as int);
                }
                Some(self.entries[i].1.subscription.current_snapshot())
            },
            None => None,
        }
    }

    /// The tokens that a session watches; none for one that is gone.
    pub fn clone_watched_tokens(&self, handle: &SessionHandle) -> (tokens: Option<AddressSet>)
        requires
            self.wf(),
        ensures
            tokens is Some <==> is_live(self@, *handle),
            tokens matches Some(t) ==> t.wf() && t@
                == self@[handle.session].subscription.watched,
    {
        match self.position_of(handle) {
            Some(i) => {
                proof {
                    lemma_registry_entry(self.entries@, i as int);
                }
                Some(self.entries[i].1.subscription.clone_watched_tokens())
            },
            None => None,
        }
    }
}

/// The cap holds of any registry whose sessions were there before.
proof fn lemma_cap_kept(before: Map<Session, SessionState>, after: Map<Session, SessionState>)
    requires
        within_owner_cap(before),
        after.dom().subset_of(before.dom()),
    ensures
        within_owner_cap(after),
{
    vstd::set_lib::lemma_len_subset(after.dom(), before.dom());
    assert forall|network: EvmNetwork, owner: Address| #[trigger]
        owner_sessions(after, network, owner).len() <= MAX_CLIENTS_PER_OWNER by {
        before.dom().lemma_len_filter(|s: Session| s.network == network && s.owner == owner);
        let kept = owner_sessions(after, network, owner);
        let had = owner_sessions(before, network, owner);
        assert(kept.subset_of(had));
        vstd::set_lib::lemma_len_subset(kept, had);
    }
}

/// In every state that the registry can reach, no wallet is watched on a chain
/// by more sessions than allowed.
pub proof fn law_owner_cap_always_holds(
    manager: SubscriptionManager,
    network: EvmNetwork,
    owner: Address,
)
    requires
        manager.wf(),
    ensures
        owner_sessions(manager@, network, owner).len() <= MAX_CLIENTS_PER_OWNER,
{
}

/// In every state that the registry can reach, a session that nobody listens
/// to will expire: it is reaped by any cleanup that comes more than the time
/// to live after it fell idle.
pub proof fn law_no_idle_session_is_forgotten(manager: SubscriptionManager, session: Session)
    requires
        manager.wf(),
        manager@.dom().contains(session),
        manager@[session].clients == 0,
    ensures
        manager@[session].idle_since is Some,
        forall|now: u64|
            now - manager@[session].idle_since->0 > SESSION_TTL ==> !(#[trigger] reaped(
                manager@,
                now,
            )).dom().contains(session),
{
    let k = key_index(manager.entries@, session);
    assert(manager.entries@[k].0 == session);
    lemma_registry_entry(manager.entries@, k);
}

/// Of any two requests for a session only the first can create it: once it is
/// there, a request replaces its tokens, whatever the pressure on the cap, and
/// adds no session.
pub proof fn law_session_is_created_once(
    registry: Map<Session, SessionState>,
    id: u64,
    session: Session,
    tokens: Set<Address>,
    now: u64,
    next_id: u64,
    more_tokens: Set<Address>,
    later: u64,
)
    requires
        upserted(registry, id, session, tokens, now) is Ok,
    ensures
        ({
            let first = upserted(registry, id, session, tokens, now)->Ok_0;
            let second = upserted(first, next_id, session, more_tokens, later);
            &&& first.dom() == registry.dom().insert(session)
            &&& upsert_outcome(first, next_id, session, more_tokens) is Existing
            &&& second is Ok
            &&& second->Ok_0.dom() == first.dom()
            &&& second->Ok_0[session].subscription.watched == more_tokens
            &&& second->Ok_0[session].clients == first[session].clients
            &&& second->Ok_0[session].id == first[session].id
        }),
{
    let first = upserted(registry, id, session, tokens, now)->Ok_0;
    let second = upserted(first, next_id, session, more_tokens, later)->Ok_0;
    assert(first.dom() =~= registry.dom().insert(session));
    assert(second.dom() =~= first.dom());
}

/// In every state that the registry can reach, the sessions that are there were
/// created before, so the next one to be created gets a number that none of
/// them has.
pub proof fn law_session_numbers_are_used_up(manager: SubscriptionManager, session: Session)
    requires
        manager.wf(),
        manager@.dom().contains(session),
    ensures
        manager@[session].id < manager.created(),
{
    let k = key_index(manager.entries@, session);
    assert(manager.entries@[k].0 == session);
    lemma_registry_entry(manager.entries@, k);
}

/// Something that happens to the registry.
pub enum RegistryStep {
    Upsert { session: Session, tokens: Set<Address>, now: u64 },
    Subscribe { session: Session },
    Unsubscribe { session: Session, now: u64 },
    Update { handle: SessionHandle, amounts: Map<Address, U256>, block: u64 },
    Cleanup { now: u64 },
    Close,
}

/// The registry and the number of created sessions after a step. What is
/// refused changes nothing.
pub open spec fn registry_after(
    registry: Map<Session, SessionState>,
    created: u64,
    step: RegistryStep,
) -> (Map<Session, SessionState>, u64) {
    match step {
        RegistryStep::Upsert { session, tokens, now } => match upserted(
            registry,
            created,
            session,
            tokens,
            now,
        ) {
            Ok(after) => if registry.dom().contains(session) {
                (after, created)
            } else {
                (after, (created + 1) as u64)
            },
            Err(_) => (registry, created),
        },
        RegistryStep::Subscribe { session } => if registry.dom().contains(session) {
            (registry.insert(session, with_client(registry[session])), created)
        } else {
            (registry, created)
        },
        RegistryStep::Unsubscribe { session, now } => if registry.dom().contains(session)
            && registry[session].clients > 0 {
            (registry.insert(session, without_client(registry[session], now)), created)
        } else {
            (registry, created)
        },
        RegistryStep::Update { handle, amounts, block } => if is_live(registry, handle) {
            (balances_merged(registry, handle.session, amounts, block), created)
        } else {
            (registry, created)
        },
        RegistryStep::Cleanup { now } => (reaped(registry, now), created),
        RegistryStep::Close => (Map::empty(), created),
    }
}

/// The same after a series of steps.
pub open spec fn registry_after_all(
    registry: Map<Session, SessionState>,
    created: u64,
    steps: Seq<RegistryStep>,
) -> (Map<Session, SessionState>, u64)
    decreases steps.len(),
{
    if steps.len() == 0 {
        (registry, created)
    } else {
        let (before, count) = registry_after_all(registry, created, steps.drop_last());
        registry_after(before, count, steps.last())
    }
}

/// A session that is gone never comes back, whatever happens: one that is
/// created later under the same key is another one, so nothing that was read
/// for the first is merged into it.
pub proof fn law_dropped_session_does_not_come_back(
    registry: Map<Session, SessionState>,
    created: u64,
    handle: SessionHandle,
    steps: Seq<RegistryStep>,
)
    requires
        handle.id < created,
        !is_live(registry, handle),
        created + steps.len() <= u64::MAX,
    ensures
        ({
            let (after, count) = registry_after_all(registry, created, steps);
            &&& !is_live(after, handle)
            &&& created <= count <= created + steps.len()
        }),
    decreases steps.len(),
{
    if steps.len() > 0 {
        law_dropped_session_does_not_come_back(registry, created, handle, steps.drop_last());
    }
}

/// Asking again for the tokens a session already watches changes nothing.
pub proof fn law_same_tokens_change_nothing(
    registry: Map<Session, SessionState>,
    id: u64,
    session: Session,
    now: u64,
)
    requires
        registry.dom().contains(session),
    ensures
        upserted(registry, id, session, registry[session].subscription.watched, now) == Ok::<
            Map<Session, SessionState>,
            SubscriptionError,
        >(registry),
{
    assert(registry.insert(session, registry[session]) =~= registry);
}

/// A new session is refused if and only if its owner is at the limit on its
/// chain.
pub proof fn law_only_the_cap_refuses(
    registry: Map<Session, SessionState>,
    id: u64,
    session: Session,
    tokens: Set<Address>,
    now: u64,
)
    ensures
        upserted(registry, id, session, tokens, now) is Err <==> !registry.dom().contains(session)
            && owner_sessions(registry, session.network, session.owner).len()
            >= MAX_CLIENTS_PER_OWNER,
{
}

/// A client that connects and leaves again leaves the session as it found it,
/// but for the time since when nobody listens.
pub proof fn law_connect_and_leave(state: SessionState, now: u64)
    requires
        state.clients < u32::MAX,
    ensures
        without_client(with_client(state), now).clients == state.clients,
        without_client(with_client(state), now).subscription == state.subscription,
        without_client(with_client(state), now).idle_since == if state.clients == 0 {
            Some(now)
        } else {
            None
        },
{
}

/// A session that somebody listens to is never reaped, however long it lives.
pub proof fn law_active_session_is_kept(
    registry: Map<Session, SessionState>,
    session: Session,
    now: u64,
)
    requires
        registry.dom().contains(session),
        registry[session].clients > 0,
    ensures
        reaped(registry, now).dom().contains(session),
        reaped(registry, now)[session] == registry[session],
{
}

/// A session is reaped at `now` if and only if its last client left, or it was
/// created without one, more than the time to live before.
pub proof fn law_idle_session_is_reaped_past_its_ttl(
    state: SessionState,
    id: u64,
    tokens: Set<Address>,
    since: u64,
    now: u64,
)
    requires
        state.clients == 1,
    ensures
        is_expired(without_client(state, since), now) <==> now - since > SESSION_TTL,
        is_expired(fresh_session(id, tokens, since), now) <==> now - since > SESSION_TTL,
{
}

/// With cleanups one time to live apart, the cleanup that reaps a session
/// comes no later than two of them after it fell idle.
pub proof fn law_cleanup_reaps_within_two_ttls(state: SessionState, now: u64)
    requires
        now >= SESSION_TTL,
        is_expired(state, now),
        !is_expired(state, (now - SESSION_TTL) as u64),
    ensures
        SESSION_TTL < now - state.idle_since->0 <= 2 * SESSION_TTL,
{
}

/// What happens to one session leaves the others alone, those of the same
/// owner included.
pub proof fn law_siblings_are_independent(
    registry: Map<Session, SessionState>,
    id: u64,
    session: Session,
    other: Session,
    tokens: Set<Address>,
    now: u64,
)
    requires
        session != other,
        registry.dom().contains(other),
    ensures
        upserted(registry, id, session, tokens, now) matches Ok(after) ==> after.dom().contains(other)
            && after[other] == registry[other],
        reaped(registry, now).dom().contains(other) <==> !is_expired(registry[other], now),
        reaped(registry.remove(session), now).dom().contains(other) <==> reaped(
            registry,
            now,
        ).dom().contains(other),
{
}

/// A client that connects is counted, unless the counter is at its maximum, and
/// ends the idleness of the session; one that leaves is no longer counted, and
/// the session falls idle with its last one. Nothing else of the session
/// changes.
pub proof fn law_clients_are_counted_one_by_one(state: SessionState, now: u64)
    ensures
        state.clients < u32::MAX ==> with_client(state).clients == state.clients + 1,
        state.clients == u32::MAX ==> with_client(state).clients == u32::MAX,
        with_client(state).idle_since is None,
        with_client(state).id == state.id,
        with_client(state).subscription == state.subscription,
        state.clients > 0 ==> without_client(state, now).clients == state.clients - 1,
        state.clients == 1 ==> without_client(state, now).idle_since == Some(now),
        state.clients > 1 ==> without_client(state, now).idle_since == state.idle_since,
        without_client(state, now).id == state.id,
        without_client(state, now).subscription == state.subscription,
{
}

/// A cleanup drops exactly the sessions that nobody listens to and that fell
/// idle more than five seconds before, and leaves the others as they are.
pub proof fn law_cleanup_drops_only_idle_sessions(
    registry: Map<Session, SessionState>,
    session: Session,
    now: u64,
)
    requires
        registry.dom().contains(session),
    ensures
        reaped(registry, now).dom().subset_of(registry.dom()),
        !reaped(registry, now).dom().contains(session) <==> registry[session].clients == 0
            && registry[session].idle_since is Some && now - registry[session].idle_since->0
            > 5_000_000_000,
        reaped(registry, now).dom().contains(session) ==> reaped(registry, now)[session]
            == registry[session],
        is_expired(registry[session], now) <==> !reaped(registry, now).dom().contains(session),
{
}

/// Amounts that are merged for a session change its balances alone: a token that
/// was read and of which nothing at least as recent is known gets the amount
/// and the block of the reading, every other one stays, and so do the rest of
/// the session and all other sessions.
pub proof fn law_merge_changes_the_balances_of_one_session(
    registry: Map<Session, SessionState>,
    session: Session,
    amounts: Map<Address, U256>,
    block: u64,
    other: Session,
    token: Address,
)
    requires
        registry.dom().contains(session),
    ensures
        ({
            let after = balances_merged(registry, session, amounts, block);
            let known = registry[session].subscription.snapshot;
            let shown = after[session].subscription.snapshot;
            let is_taken = amounts.dom().contains(token) && (!known.dom().contains(token)
                || known[token].block_number < block);
            &&& after.dom() == registry.dom()
            &&& other != session && registry.dom().contains(other) ==> after[other]
                == registry[other]
            &&& after[session].id == registry[session].id
            &&& after[session].clients == registry[session].clients
            &&& after[session].idle_since == registry[session].idle_since
            &&& after[session].subscription.watched == registry[session].subscription.watched
            &&& is_taken ==> shown.dom().contains(token) && shown[token].amount == amounts[token]
                && shown[token].block_number == block
            &&& !is_taken ==> (shown.dom().contains(token) <==> known.dom().contains(token))
            &&& !is_taken && known.dom().contains(token) ==> shown[token] == known[token]
        }),
{
    let after = balances_merged(registry, session, amounts, block);
    assert(after.dom() =~= registry.dom());
}

/// A handle is good for the session it was given for: it has to be there, under
/// the same key and with the same number.
pub proof fn law_handle_is_good_for_one_life(
    registry: Map<Session, SessionState>,
    handle: SessionHandle,
    state: SessionState,
)
    ensures
        is_live(registry, handle) ==> registry.dom().contains(handle.session),
        !is_live(registry.remove(handle.session), handle),
        is_live(registry.insert(handle.session, state), handle) <==> state.id == handle.id,
{
}

} // verus!
