//! Sessions as callers see them: what a request for a session leads to, what a
//! new stream starts with, and how failures are answered.
use crate::collections::address_map::AddressMap;
use crate::collections::address_set::AddressSet;
use crate::collections::keyed::{
    distinct_keys, lemma_map_of_push, lemma_next_key_is_new, map_of,
};
use crate::domain::events::BalanceEvent;
use crate::domain::evm_network::{law_native_token_is_not_weth9, EvmNetwork};
use crate::domain::primitives::Address;
use crate::domain::session::Session;
use crate::services::block_watcher::BlockWatcher;
use crate::services::errors::FetcherError;
use crate::services::event_dispatcher::{
    trouble, Erc20TransferEvent, Erc20TransferEventDispatcher,
};
use crate::services::health::AppHealth;
use crate::services::subscription::{amounts_shown, texts, Balance, BalanceSnapshot};
use crate::services::subscription_manager::{
    owner_sessions, upsert_outcome, upserted, with_client, SessionState, SubscriptionError, SubscriptionManager,
    UpsertOutcome,
};
use crate::services::url_guard::{parsed_url, refusal, validate_url};
use crate::text::{decimal, decimal_text, joined};
use vstd::prelude::*;
use vstd::string::*;

verus! {

/// How long a token list is kept, in seconds.
pub const TOKEN_LIST_CACHE_TTL: u64 = 18_000;

/// Transfer events that may wait to be routed.
pub const TRANSFER_CHANNEL_CAPACITY: usize = 256;

#[derive(Clone, Copy, Debug, PartialEq, Eq, Structural)]
pub struct SessionConfig {
    /// Seconds between full snapshots of a session.
    pub snapshot_interval: usize,
    /// Tokens that a session may watch.
    pub token_limit: usize,
    /// The chain that is served.
    pub active_network: EvmNetwork,
    /// Whether token lists may be fetched from private hosts.
    pub allow_private_token_lists: bool,
}

/// A request to watch tokens.
#[derive(Debug)]
pub struct SessionContext {
    pub session: Session,
    pub custom_tokens: Vec<Address>,
    pub tokens_lists_urls: Vec<String>,
}

/// An error that ends a request for a stream.
#[derive(Debug)]
pub struct StreamError {
    pub code: u16,
    pub message: String,
}

#[derive(Debug)]
pub enum SessionError {
    /// The list at this URL could not be loaded.
    TokenListNotFound(String),
    /// The limit, and how many tokens there would be, in this order.
    TokenLimitExceeded(usize, usize),
    SessionIsNotCreated,
    TooManyClients,
    /// The list at this URL may not be fetched, for this reason.
    TokenListUrlNotAllowed(String, String),
    /// The limit of sessions of one owner on one chain.
    OwnerClientLimitExceeded(usize),
}

impl SessionError {
    pub open spec fn message(self) -> Seq<char> {
        match self {
            SessionError::TokenListNotFound(url) => "Token list not found: "@ + url@,
            SessionError::TokenLimitExceeded(limit, count) => "Token limit exceeded, max count is "@
                + decimal(limit as nat) + ", current count is "@ + decimal(count as nat),
            SessionError::SessionIsNotCreated => "Session is not created"@,
            SessionError::TooManyClients => "Too many clients"@,
            SessionError::TokenListUrlNotAllowed(url, reason) => "Token list url "@ + url@
                + " is not allowed: "@ + reason@,
            SessionError::OwnerClientLimitExceeded(limit) =>
                "Too many clients for this owner, limit is "@ + decimal(limit as nat),
        }
    }

    pub fn to_text(&self) -> (text: String)
        ensures
            text@ == self.message(),
    {
        match self {
            SessionError::TokenListNotFound(url) => joined("Token list not found: ", url.as_str()),
            SessionError::TokenLimitExceeded(limit, count) => {
                let mut text = String::from_str("Token limit exceeded, max count is ");
                text.append(decimal_text(*limit as u64).as_str());
                text.append(", current count is ");
                text.append(decimal_text(*count as u64).as_str());
                text
            },
            SessionError::SessionIsNotCreated => String::from_str("Session is not created"),
            SessionError::TooManyClients => String::from_str("Too many clients"),
            SessionError::TokenListUrlNotAllowed(url, reason) => {
                let mut text = joined("Token list url ", url.as_str());
                text.append(" is not allowed: ");
                text.append(reason.as_str());
                text
            },
            SessionError::OwnerClientLimitExceeded(limit) => joined(
                "Too many clients for this owner, limit is ",
                decimal_text(*limit as u64).as_str(),
            ),
        }
    }
}

impl StreamError {
    pub fn new(code: u16, message: String) -> (error: StreamError)
        ensures
            error.code == code,
            error.message == message,
    {
        StreamError { code, message }
    }

    /// A session that does not exist is not found; everything else is an
    /// internal matter.
    pub fn from(err: SessionError) -> (error: StreamError)
        ensures
            err is SessionIsNotCreated ==> error.code == 404 && error.message@
                == "Session is not created"@,
            !(err is SessionIsNotCreated) ==> error.code == 500 && error.message@
                == "Internal server error"@,
    {
        match err {
            SessionError::SessionIsNotCreated => StreamError::new(
                404,
                String::from_str("Session is not created"),
            ),
            _ => StreamError::new(500, String::from_str("Internal server error")),
        }
    }

    /// The status that the error is answered with: its code, if it is one.
    pub fn status(&self) -> (status: u16)
        ensures
            status == if 100 <= self.code <= 999 {
                self.code
            } else {
                500
            },
    {
        if self.code >= 100 && self.code <= 999 {
            self.code
        } else {
            500
        }
    }
}

/// What a session watches: the tokens of its lists, those it names itself and
/// the wrapped native token, but never the native one.
pub open spec fn watched_set(
    network: EvmNetwork,
    listed: Set<Address>,
    custom: Seq<Address>,
) -> Set<Address> {
    listed.union(custom.to_set()).insert(network.weth9()).remove(network.native_token())
}

/// What an error of the registry is to a caller.
pub open spec fn caller_error(error: SubscriptionError) -> SessionError {
    match error {
        SubscriptionError::SessionNotRegistered => SessionError::SessionIsNotCreated,
        SubscriptionError::OwnerClientLimitExceeded { limit } =>
            SessionError::OwnerClientLimitExceeded(limit),
    }
}

/// Why the list at a URL may not be fetched, if so.
pub open spec fn url_refusal(url: String, allow_private: bool) -> Option<Seq<char>> {
    refusal(parsed_url(url@), allow_private)
}

/// How a request to create a session or to replace what it watches is answered,
/// and the registry `after` it. `id` is the number of the session if it is new.
pub open spec fn is_upsert_of(
    registry: Map<Session, SessionState>,
    id: u64,
    limit: usize,
    ctx: SessionContext,
    listed: Result<AddressSet, FetcherError>,
    now: u64,
    outcome: Result<UpsertOutcome, SessionError>,
    after: Map<Session, SessionState>,
) -> bool {
    match listed {
        Err(FetcherError::UnableToLoadList(url, _)) => {
            &&& after == registry
            &&& outcome matches Err(SessionError::TokenListNotFound(at)) && at@ == url@
        },
        Ok(tokens) => {
            let watched = watched_set(ctx.session.network, tokens@, ctx.custom_tokens@);
            if watched.len() > limit {
                &&& after == registry
                &&& outcome == Err::<UpsertOutcome, SessionError>(
                    SessionError::TokenLimitExceeded(limit, watched.len() as usize),
                )
                &&& watched.len() <= usize::MAX
            } else {
                match upserted(registry, id, ctx.session, watched, now) {
                    Err(error) => {
                        &&& after == registry
                        &&& outcome == Err::<UpsertOutcome, SessionError>(caller_error(error))
                    },
                    Ok(changed) => {
                        &&& after == changed
                        &&& outcome == Ok::<UpsertOutcome, SessionError>(
                            upsert_outcome(registry, id, ctx.session, watched),
                        )
                    },
                }
            }
        },
    }
}

pub struct SessionManager {
    pub sub_manager: SubscriptionManager,
    pub config: SessionConfig,
}

impl SessionManager {
    pub fn new(config: SessionConfig) -> (manager: SessionManager)
        ensures
            manager.config == config,
            manager.sub_manager.wf(),
            manager.sub_manager@ == Map::<Session, SessionState>::empty(),
            manager.sub_manager.created() == 0,
    {
        SessionManager { sub_manager: SubscriptionManager::new(), config }
    }

    /// Checks the URLs of a request, before any of them is fetched. The first
    /// one that may not be fetched is reported.
    pub fn check_urls(&self, urls: &Vec<String>) -> (outcome: Result<(), SessionError>)
        ensures
            match outcome {
                Ok(_) => forall|i: int|
                    0 <= i < urls@.len() ==> url_refusal(
                        #[trigger] urls@[i],
                        self.config.allow_private_token_lists,
                    ) is None,
                Err(SessionError::TokenListUrlNotAllowed(url, reason)) => exists|i: int|
                    0 <= i < urls@.len() && (#[trigger] urls@[i])@ == url@ && url_refusal(
                        urls@[i],
                        self.config.allow_private_token_lists,
                    ) == Some(reason@) && (forall|j: int|
                        0 <= j < i ==> url_refusal(
                            #[trigger] urls@[j],
                            self.config.allow_private_token_lists,
                        ) is None),
                Err(_) => false,
            },
    {
        let mut i: usize = 0;
        while i < urls.len()
            invariant
                i <= urls@.len(),
                forall|j: int|
                    0 <= j < i ==> url_refusal(
                        #[trigger] urls@[j],
                        self.config.allow_private_token_lists,
                    ) is None,
            decreases urls@.len() - i,
        {
            match validate_url(urls[i].as_str(), self.config.allow_private_token_lists) {
                Ok(_) => {},
                Err(reason) => {
                    return Err(SessionError::TokenListUrlNotAllowed(urls[i].clone(), reason));
                },
            }
            i = i + 1;
        }
        Ok(())
    }

    /// The tokens that a session watches.
    pub fn extend_tokens(
        network: EvmNetwork,
        listed: AddressSet,
        custom_tokens: &Vec<Address>,
    ) -> (tokens: AddressSet)
        requires
            listed.wf(),
        ensures
            tokens.wf(),
            tokens@ == watched_set(network, listed@, custom_tokens@),
            forall|token: Address| #[trigger]
                tokens@.contains(token) <==> token != network.native_token() && (token
                    == network.weth9() || listed@.contains(token) || custom_tokens@.contains(
                    token,
                )),
    {
        let mut tokens = listed;
        tokens.extend(custom_tokens);
        let _ = tokens.insert(network.weth9_address());
        tokens.without(network.native_token_address())
    }

    /// Creates a session or replaces what it watches. `listed` is what its
    /// token lists came to.
    pub fn upsert(
        &mut self,
        ctx: &SessionContext,
        listed: Result<AddressSet, FetcherError>,
        now: u64,
    ) -> (outcome: Result<UpsertOutcome, SessionError>)
        requires
            old(self).sub_manager.wf(),
            old(self).sub_manager@.dom().contains(ctx.session) || old(self).sub_manager.created()
                < u64::MAX,
            listed matches Ok(tokens) ==> tokens.wf(),
        ensures
            final(self).sub_manager.wf(),
            final(self).config == old(self).config,
            is_upsert_of(
                old(self).sub_manager@,
                old(self).sub_manager.created(),
                old(self).config.token_limit,
                *ctx,
                listed,
                now,
                outcome,
                final(self).sub_manager@,
            ),
            final(self).sub_manager.created() == old(self).sub_manager.created()
                + if outcome matches Ok(UpsertOutcome::Created { .. }) {
                1int
            } else {
                0int
            },
            outcome is Ok ==> listed is Ok && final(self).sub_manager@.dom().contains(ctx.session),
            outcome is Ok ==> forall|token: Address| #[trigger]
                final(self).sub_manager@[ctx.session].subscription.watched.contains(token)
                    <==> token != ctx.session.network.native_token() && (token
                    == ctx.session.network.weth9() || listed->Ok_0@.contains(token)
                    || ctx.custom_tokens@.contains(token)),
            (outcome matches Err(SessionError::TokenLimitExceeded(_, _))) <==> (listed is Ok
                && Set::new(
                |token: Address|
                    token != ctx.session.network.native_token() && (token
                        == ctx.session.network.weth9() || listed->Ok_0@.contains(token)
                        || ctx.custom_tokens@.contains(token)),
            ).len() > old(self).config.token_limit),
    {
        proof {
            let asked = Set::new(
                |token: Address|
                    token != ctx.session.network.native_token() && (token
                        == ctx.session.network.weth9() || listed->Ok_0@.contains(token)
                        || ctx.custom_tokens@.contains(token)),
            );
            assert(asked =~= watched_set(
                ctx.session.network,
                listed->Ok_0@,
                ctx.custom_tokens@,
            ));
        }
        let listed = match listed {
            Ok(tokens) => tokens,
            Err(FetcherError::UnableToLoadList(url, _)) => {
                return Err(SessionError::TokenListNotFound(url));
            },
        };
        let tokens = Self::extend_tokens(ctx.session.network, listed, &ctx.custom_tokens);
        let count: usize = tokens.len();
        if count > self.config.token_limit {
            return Err(SessionError::TokenLimitExceeded(self.config.token_limit, count));
        }
        match self.sub_manager.upsert(ctx.session, tokens, now) {
            Ok(done) => Ok(done),
            Err(error) => Err(Self::map_subscription_error(error)),
        }
    }

    /// Replaces what a session watches. `listed` is what its token lists came
    /// to. A session that is gone by now stays gone.
    pub fn replace(
        &mut self,
        ctx: &SessionContext,
        listed: Result<AddressSet, FetcherError>,
        now: u64,
    ) -> (outcome: Result<UpsertOutcome, SessionError>)
        requires
            old(self).sub_manager.wf(),
            listed matches Ok(tokens) ==> tokens.wf(),
        ensures
            final(self).sub_manager.wf(),
            final(self).config == old(self).config,
            final(self).sub_manager.created() == old(self).sub_manager.created(),
            if old(self).sub_manager@.dom().contains(ctx.session) {
                is_upsert_of(
                    old(self).sub_manager@,
                    old(self).sub_manager.created(),
                    old(self).config.token_limit,
                    *ctx,
                    listed,
                    now,
                    outcome,
                    final(self).sub_manager@,
                )
            } else {
                &&& outcome == Err::<UpsertOutcome, SessionError>(
                    SessionError::SessionIsNotCreated,
                )
                &&& final(self).sub_manager@ == old(self).sub_manager@
            },
            outcome is Ok ==> listed is Ok && final(self).sub_manager@.dom().contains(ctx.session),
            outcome is Ok ==> forall|token: Address| #[trigger]
                final(self).sub_manager@[ctx.session].subscription.watched.contains(token)
                    <==> token != ctx.session.network.native_token() && (token
                    == ctx.session.network.weth9() || listed->Ok_0@.contains(token)
                    || ctx.custom_tokens@.contains(token)),
            old(self).sub_manager@.dom().contains(ctx.session) ==> ((outcome matches Err(SessionError::TokenLimitExceeded(_, _))) <==> (listed is Ok
                && Set::new(
                |token: Address|
                    token != ctx.session.network.native_token() && (token
                        == ctx.session.network.weth9() || listed->Ok_0@.contains(token)
                        || ctx.custom_tokens@.contains(token)),
            ).len() > old(self).config.token_limit)),
    {
        match self.check_update(&ctx.session) {
            Ok(_) => self.upsert(ctx, listed, now),
            Err(error) => Err(error),
        }
    }

    /// Whether a request to replace what a session watches can be served at
    /// all: the session has to be there.
    pub fn check_update(&self, session: &Session) -> (outcome: Result<(), SessionError>)
        ensures
            outcome is Ok <==> self.sub_manager@.dom().contains(*session),
            outcome matches Err(error) ==> error is SessionIsNotCreated,
    {
        if self.sub_manager.is_registered(session) {
            Ok(())
        } else {
            Err(SessionError::SessionIsNotCreated)
        }
    }

    pub fn map_subscription_error(sub_error: SubscriptionError) -> (error: SessionError)
        ensures
            error == caller_error(sub_error),
    {
        match sub_error {
            SubscriptionError::SessionNotRegistered => SessionError::SessionIsNotCreated,
            SubscriptionError::OwnerClientLimitExceeded { limit } =>
                SessionError::OwnerClientLimitExceeded(limit),
        }
    }

    /// The health of the service, of which both parts have to be well.
    pub fn health_status(
        block_watcher: &BlockWatcher,
        event_dispatcher: &Erc20TransferEventDispatcher,
    ) -> (health: AppHealth)
        ensures
            health.block_watcher@ == block_watcher.trouble(),
            health.event_dispatcher@ == trouble(event_dispatcher@, block_watcher.latest_block),
    {
        AppHealth {
            block_watcher: block_watcher.health_status(),
            event_dispatcher: event_dispatcher.health_status(block_watcher.latest_block()),
        }
    }

    /// The sessions that have to refresh a token after a transfer, at the
    /// transfer's block.
    pub fn route_transfer(&self, event: &Erc20TransferEvent) -> (sessions: Vec<Session>)
        requires
            self.sub_manager.wf(),
        ensures
            sessions@.no_duplicates(),
            forall|s: Session| #[trigger]
                sessions@.contains(s) <==> self.sub_manager@.dom().contains(s) && s.owner
                    == event.owner && self.sub_manager@[s].subscription.watched.contains(
                    event.token,
                ),
    {
        self.sub_manager.owned_queues_watching(&event.owner, &event.token)
    }

    /// What a new stream starts with: all balances, if any are known.
    pub fn initial_event(snapshot: &BalanceSnapshot) -> (event: Option<BalanceEvent>)
        requires
            snapshot.wf(),
        ensures
            event is None <==> snapshot@ == Map::<Address, Balance>::empty(),
            event matches Some(e) ==> e matches BalanceEvent::BalanceUpdate(balances)
                && balances.wf() && texts(balances@) == amounts_shown(snapshot@),
    {
        if snapshot.is_empty() {
            return None;
        }
        let mut balances: AddressMap<String> = AddressMap::new();
        let entries = snapshot.entries();
        let mut i: usize = 0;
        proof {
            assert(map_of(entries@.take(0)) =~= Map::empty());
            assert(texts(balances@) =~= amounts_shown(map_of(entries@.take(0))));
        }
        while i < entries.len()
            invariant
                i <= entries@.len(),
                distinct_keys(entries@),
                balances.wf(),
                texts(balances@) == amounts_shown(map_of(entries@.take(i as int))),
            decreases entries@.len() - i,
        {
            let (token, balance) = entries[i];
            let ghost shorter = entries@.take(i as int);
            let ghost longer = entries@.take(i + 1);
            let ghost before = balances@;
            proof {
                lemma_next_key_is_new(entries@, i as int);
                lemma_map_of_push(shorter, token, balance);
            }
            balances.insert(token, balance.amount.to_text());
            i = i + 1;
            proof {
                let shown = decimal(balance.amount@);
                assert(texts(balances@) =~= texts(before).insert(token, shown));
                assert(amounts_shown(map_of(longer)) =~= amounts_shown(map_of(shorter)).insert(
                    token,
                    shown,
                ));
            }
        }
        assert(entries@.take(i as int) =~= entries@);
        Some(BalanceEvent::BalanceUpdate(balances))
    }

    /// A client opens a stream: it is counted, and gets what the stream starts
    /// with. What follows are diffs to that.
    pub fn create_sse_connection(&mut self, session: Session) -> (outcome: Result<
        Option<BalanceEvent>,
        StreamError,
    >)
        requires
            old(self).sub_manager.wf(),
        ensures
            final(self).sub_manager.wf(),
            final(self).config == old(self).config,
            final(self).sub_manager.created() == old(self).sub_manager.created(),
            ({
                let registry = old(self).sub_manager@;
                if registry.dom().contains(session) {
                    let known = registry[session].subscription.snapshot;
                    &&& final(self).sub_manager@ == registry.insert(
                        session,
                        with_client(registry[session]),
                    )
                    &&& outcome is Ok
                    &&& outcome->Ok_0 is None <==> known == Map::<Address, Balance>::empty()
                    &&& outcome->Ok_0 matches Some(e)
                        ==> e matches BalanceEvent::BalanceUpdate(balances) && balances.wf()
                        && texts(balances@) == amounts_shown(known)
                } else {
                    &&& final(self).sub_manager@ == registry
                    &&& outcome matches Err(error) && error.code == 404 && error.message@
                        == "Session is not created"@
                }
            }),
    {
        match self.sub_manager.subscribe(&session) {
            Err(error) => Err(StreamError::from(Self::map_subscription_error(error))),
            Ok(_) => match self.sub_manager.current_snapshot(&session) {
                Some(snapshot) => Ok(Self::initial_event(&snapshot)),
                None => Ok(None),
            },
        }
    }

    /// The name under which an event is streamed.
    pub fn balance_event_to_sse(event: &BalanceEvent) -> (name: &'static str)
        ensures
            name@ == (match event {
                BalanceEvent::BalanceUpdate(_) => "balance_update"@,
                BalanceEvent::Error { code: _, message: _ } => "error"@,
            }),
    {
        match event {
            BalanceEvent::BalanceUpdate(_) => "balance_update",
            BalanceEvent::Error { .. } => "error",
        }
    }
}

/// The wrapped native token is watched by every session and the native one by
/// none, whatever was asked for; every other token that was asked for is
/// watched, and no other.
pub proof fn law_watched_tokens(
    network: EvmNetwork,
    listed: Set<Address>,
    custom: Seq<Address>,
    token: Address,
)
    ensures
        watched_set(network, listed, custom).contains(network.weth9()),
        !watched_set(network, listed, custom).contains(network.native_token()),
        token != network.weth9() && token != network.native_token() ==> (watched_set(
            network,
            listed,
            custom,
        ).contains(token) <==> listed.contains(token) || custom.contains(token)),
{
    law_native_token_is_not_weth9(network);
}

/// A request for a session that is there adds and drops no session, however it
/// is answered.
pub proof fn law_update_keeps_the_sessions(
    registry: Map<Session, SessionState>,
    id: u64,
    limit: usize,
    ctx: SessionContext,
    listed: Result<AddressSet, FetcherError>,
    now: u64,
    outcome: Result<UpsertOutcome, SessionError>,
    after: Map<Session, SessionState>,
)
    requires
        registry.dom().contains(ctx.session),
        is_upsert_of(registry, id, limit, ctx, listed, now, outcome, after),
    ensures
        after.dom() == registry.dom(),
        outcome matches Ok(done) ==> done is Existing,
{
    assert(after.dom() =~= registry.dom());
}

/// What a served request leads to, where `asked` is what it asks for: the
/// tokens of its lists, those it names and the wrapped native token, without
/// the native one. It is refused for its size if and only if that is more than
/// the limit, and otherwise the session watches exactly that, whatever it
/// watched before. A refused request changes nothing, and a served one changes
/// no other session.
pub proof fn law_served_request_is_watched(
    registry: Map<Session, SessionState>,
    id: u64,
    limit: usize,
    ctx: SessionContext,
    listed: AddressSet,
    now: u64,
    outcome: Result<UpsertOutcome, SessionError>,
    after: Map<Session, SessionState>,
    asked: Set<Address>,
)
    requires
        is_upsert_of(registry, id, limit, ctx, Ok(listed), now, outcome, after),
        forall|token: Address| #[trigger]
            asked.contains(token) <==> token != ctx.session.network.native_token() && (token
                == ctx.session.network.weth9() || listed@.contains(token)
                || ctx.custom_tokens@.contains(token)),
    ensures
        (outcome matches Err(SessionError::TokenLimitExceeded(_, _))) <==> asked.len() > limit,
        outcome matches Err(SessionError::TokenLimitExceeded(max, count)) ==> max == limit && count
            == asked.len(),
        outcome is Err ==> after == registry,
        outcome is Ok ==> after.dom() == registry.dom().insert(ctx.session),
        outcome is Ok ==> forall|token: Address| #[trigger]
            after[ctx.session].subscription.watched.contains(token) <==> asked.contains(token),
        forall|other: Session|
            other != ctx.session && #[trigger] registry.dom().contains(other) ==> after[other]
                == registry[other],
{
    let watched = watched_set(ctx.session.network, listed@, ctx.custom_tokens@);
    assert(asked =~= watched);
    assert(outcome is Ok ==> after.dom() =~= registry.dom().insert(ctx.session));
}

/// A session that a request finds keeps its number, its clients, the time since
/// when nobody listens and the balances of every token that it still watches.
/// The request is reported as one that changed the tokens if and only if it
/// did.
pub proof fn law_served_request_keeps_the_session(
    registry: Map<Session, SessionState>,
    id: u64,
    limit: usize,
    ctx: SessionContext,
    listed: AddressSet,
    now: u64,
    outcome: Result<UpsertOutcome, SessionError>,
    after: Map<Session, SessionState>,
)
    requires
        is_upsert_of(registry, id, limit, ctx, Ok(listed), now, outcome, after),
        registry.dom().contains(ctx.session),
    ensures
        after.dom().contains(ctx.session),
        after[ctx.session].id == registry[ctx.session].id,
        after[ctx.session].clients == registry[ctx.session].clients,
        after[ctx.session].idle_since == registry[ctx.session].idle_since,
        forall|token: Address| #[trigger]
            registry[ctx.session].subscription.snapshot.dom().contains(token)
                && after[ctx.session].subscription.watched.contains(token) ==> {
                &&& after[ctx.session].subscription.snapshot.dom().contains(token)
                &&& after[ctx.session].subscription.snapshot[token]
                    == registry[ctx.session].subscription.snapshot[token]
            },
        outcome matches Ok(done) ==> (done matches UpsertOutcome::Existing { changed } && changed
            == (after[ctx.session].subscription.watched
            != registry[ctx.session].subscription.watched)),
        outcome matches Err(error) ==> error is TokenLimitExceeded,
{
}

/// A session that a request does not find is created, without clients, idle
/// from now on and with no balance known, unless `siblings`, the sessions that
/// watch the same wallet on the same chain, are five already.
pub proof fn law_served_request_creates_the_session(
    registry: Map<Session, SessionState>,
    id: u64,
    limit: usize,
    ctx: SessionContext,
    listed: AddressSet,
    now: u64,
    outcome: Result<UpsertOutcome, SessionError>,
    after: Map<Session, SessionState>,
    siblings: Set<Session>,
)
    requires
        is_upsert_of(registry, id, limit, ctx, Ok(listed), now, outcome, after),
        !registry.dom().contains(ctx.session),
        forall|other: Session| #[trigger]
            siblings.contains(other) <==> registry.dom().contains(other) && other.network
                == ctx.session.network && other.owner == ctx.session.owner,
    ensures
        !(outcome matches Err(SessionError::TokenLimitExceeded(_, _))) ==> {
            &&& outcome is Ok <==> siblings.len() < 5
            &&& outcome matches Err(error) ==> (error matches SessionError::OwnerClientLimitExceeded(
                max,
            ) && max == 5)
        },
        outcome matches Ok(done) ==> {
            &&& done matches UpsertOutcome::Created { id: number, sessions_for_owner } && number
                == id && sessions_for_owner == siblings.len() + 1
            &&& after.dom().contains(ctx.session)
            &&& after[ctx.session].id == id
            &&& after[ctx.session].clients == 0
            &&& after[ctx.session].idle_since == Some(now)
            &&& forall|token: Address| !#[trigger]
                after[ctx.session].subscription.snapshot.dom().contains(token)
        },
{
    assert(siblings =~= owner_sessions(registry, ctx.session.network, ctx.session.owner));
}

/// A request whose token lists could not be loaded is refused under the URL of
/// the list that failed, and changes nothing.
pub proof fn law_failed_list_refuses_the_request(
    registry: Map<Session, SessionState>,
    id: u64,
    limit: usize,
    ctx: SessionContext,
    url: String,
    reason: String,
    now: u64,
    outcome: Result<UpsertOutcome, SessionError>,
    after: Map<Session, SessionState>,
)
    requires
        is_upsert_of(
            registry,
            id,
            limit,
            ctx,
            Err(FetcherError::UnableToLoadList(url, reason)),
            now,
            outcome,
            after,
        ),
    ensures
        after == registry,
        outcome matches Err(SessionError::TokenListNotFound(at)) && at@ == url@,
{
}

/// Callers learn of a session that is not there, and of the cap with its limit,
/// as what they are.
pub proof fn law_callers_get_the_registrys_error(limit: usize)
    ensures
        caller_error(SubscriptionError::SessionNotRegistered) is SessionIsNotCreated,
        caller_error(SubscriptionError::OwnerClientLimitExceeded { limit }) matches
            SessionError::OwnerClientLimitExceeded(max) && max == limit,
{
}

/// Whether a list may be fetched is decided by what its URL parses to.
pub proof fn law_url_is_refused_for_what_it_parses_to(url: String, allow_private: bool)
    ensures
        url_refusal(url, allow_private) == refusal(parsed_url(url@), allow_private),
{
}

} // verus!
