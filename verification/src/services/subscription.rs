//! What one session watches and what its clients have been told: the watched
//! tokens and the balances last seen.
use crate::collections::address_map::AddressMap;
use crate::collections::address_set::AddressSet;
use crate::collections::keyed::{
    distinct_keys, lemma_map_of_push, lemma_next_key_is_new, map_of,
};
use crate::domain::primitives::{Address, U256};
use crate::text::decimal;
use vstd::prelude::*;

verus! {

/// An amount and the block it was read at.
#[derive(Clone, Copy, Debug, PartialEq, Eq, Structural)]
pub struct Balance {
    pub amount: U256,
    pub block_number: u64,
}

/// The balances of a session, by token.
pub type BalanceSnapshot = AddressMap<Balance>;

/// Whether an amount read at `block` replaces what is known of `token`: it
/// does unless something at least as recent is known.
pub open spec fn is_news(known: Map<Address, Balance>, token: Address, block: u64) -> bool {
    !known.dom().contains(token) || known[token].block_number < block
}

/// The balances after amounts read at `block` were merged into `known`.
pub open spec fn merged(
    known: Map<Address, Balance>,
    amounts: Map<Address, U256>,
    block: u64,
) -> Map<Address, Balance> {
    Map::new(
        |token: Address| known.dom().contains(token) || amounts.dom().contains(token),
        |token: Address|
            if amounts.dom().contains(token) && is_news(known, token, block) {
                Balance { amount: amounts[token], block_number: block }
            } else {
                known[token]
            },
    )
}

/// What clients are told of that merge: the tokens whose amount they did not
/// know, with the new amount in decimal.
pub open spec fn diff_of(
    known: Map<Address, Balance>,
    amounts: Map<Address, U256>,
    block: u64,
) -> Map<Address, Seq<char>> {
    Map::new(
        |token: Address|
            amounts.dom().contains(token) && is_news(known, token, block) && (
            !known.dom().contains(token) || known[token].amount != amounts[token]),
        |token: Address| decimal(amounts[token]@),
    )
}

/// The values of a map of texts.
pub open spec fn texts(map: Map<Address, String>) -> Map<Address, Seq<char>> {
    map.map_values(|text: String| text@)
}

/// The amounts of a snapshot as clients see them.
pub open spec fn amounts_shown(snapshot: Map<Address, Balance>) -> Map<Address, Seq<char>> {
    snapshot.map_values(|balance: Balance| decimal(balance.amount@))
}

/// The state of one session.
#[derive(Debug)]
pub struct Subscription {
    tokens: AddressSet,
    snapshot: BalanceSnapshot,
}

pub struct SubscriptionState {
    pub watched: Set<Address>,
    pub snapshot: Map<Address, Balance>,
}

impl View for Subscription {
    type V = SubscriptionState;

    closed spec fn view(&self) -> SubscriptionState {
        SubscriptionState { watched: self.tokens@, snapshot: self.snapshot@ }
    }
}

impl Subscription {
    pub closed spec fn wf(&self) -> bool {
        self.tokens.wf() && self.snapshot.wf()
    }

    /// A session that watches `tokens` and knows no balance yet.
    pub fn new(tokens: AddressSet) -> (subscription: Subscription)
        requires
            tokens.wf(),
        ensures
            subscription.wf(),
            subscription@ == (SubscriptionState {
                watched: tokens@,
                snapshot: Map::<Address, Balance>::empty(),
            }),
    {
        Subscription { tokens, snapshot: AddressMap::new() }
    }

    pub fn clone_watched_tokens(&self) -> (tokens: AddressSet)
        requires
            self.wf(),
        ensures
            tokens.wf(),
            tokens@ == self@.watched,
    {
        self.tokens.duplicate()
    }

    pub fn is_watched_token(&self, address: &Address) -> (r: bool)
        requires
            self.wf(),
        ensures
            r == self@.watched.contains(*address),
    {
        self.tokens.contains(address)
    }

    /// Replaces the watched tokens and forgets the balances of those that are
    /// no longer watched. Says whether the set changed; if it did not, nothing
    /// does.
    pub fn set_watched_tokens(&mut self, new_tokens: AddressSet) -> (changed: bool)
        requires
            old(self).wf(),
            new_tokens.wf(),
        ensures
            final(self).wf(),
            changed == (old(self)@.watched != new_tokens@),
            final(self)@ == watched_replaced(old(self)@, new_tokens@),
    {
        if self.tokens.same_as(&new_tokens) {
            return false;
        }
        self.snapshot.retain_keys(&new_tokens);
        self.tokens = new_tokens;
        true
    }

    /// Merges amounts that were read at `block_number` into the snapshot and
    /// returns what clients have to be told.
    pub fn update_balances_and_take_diff(
        &mut self,
        new_balances: &AddressMap<U256>,
        block_number: u64,
    ) -> (diff: AddressMap<String>)
        requires
            old(self).wf(),
            new_balances.wf(),
        ensures
            final(self).wf(),
            diff.wf(),
            final(self)@ == (SubscriptionState {
                snapshot: merged(old(self)@.snapshot, new_balances@, block_number),
                ..old(self)@
            }),
            texts(diff@) == diff_of(old(self)@.snapshot, new_balances@, block_number),
            forall|token: Address| #[trigger]
                new_balances@.dom().contains(token) && (!old(self)@.snapshot.dom().contains(token)
                    || old(self)@.snapshot[token].block_number < block_number) ==> {
                    &&& final(self)@.snapshot.dom().contains(token)
                    &&& final(self)@.snapshot[token].amount == new_balances@[token]
                    &&& final(self)@.snapshot[token].block_number == block_number
                    &&& diff@.dom().contains(token) <==> !old(self)@.snapshot.dom().contains(token)
                        || old(self)@.snapshot[token].amount != new_balances@[token]
                    &&& diff@.dom().contains(token) ==> diff@[token]@ == decimal(
                        new_balances@[token]@,
                    )
                },
    {
        let ghost known = self.snapshot@;
        let mut diff: AddressMap<String> = AddressMap::new();
        let entries = new_balances.entries();
        let mut i: usize = 0;
        proof {
            assert(entries@.take(0) =~= Seq::<(Address, U256)>::empty());
            assert(map_of(entries@.take(0)) =~= Map::<Address, U256>::empty());
            assert(merged(known, map_of(entries@.take(0)), block_number) =~= known);
            assert(texts(diff@) =~= diff_of(known, map_of(entries@.take(0)), block_number));
        }
        while i < entries.len()
            invariant
                i <= entries@.len(),
                distinct_keys(entries@),
                self.wf(),
                diff.wf(),
                self.tokens@ == old(self).tokens@,
                self.snapshot@ == merged(known, map_of(entries@.take(i as int)), block_number),
                texts(diff@) == diff_of(known, map_of(entries@.take(i as int)), block_number),
            decreases entries@.len() - i,
        {
            let (token, amount) = entries[i];
            let ghost shorter = entries@.take(i as int);
            let ghost longer = entries@.take(i + 1);
            let ghost before = self.snapshot@;
            let ghost told = diff@;
            proof {
                lemma_next_key_is_new(entries@, i as int);
                lemma_map_of_push(shorter, token, amount);
                // `token` has not been met yet, so what is stored is what was known.
                assert(before.dom().contains(token) == known.dom().contains(token));
                assert(known.dom().contains(token) ==> before[token] == known[token]);
            }
            let stored: Option<Balance> = match self.snapshot.get(&token) {
                Some(balance) => Some(*balance),
                None => None,
            };
            let balance = Balance { amount, block_number };
            match stored {
                Some(current) => {
                    if current.block_number < block_number {
                        if current.amount != amount {
                            diff.insert(token, amount.to_text());
                        }
                        self.snapshot.insert(token, balance);
                    }
                },
                None => {
                    diff.insert(token, amount.to_text());
                    self.snapshot.insert(token, balance);
                },
            }
            i = i + 1;
            proof {
                assert(self.snapshot@ =~= merged(known, map_of(longer), block_number));
                let is_told = is_news(known, token, block_number) && (!known.dom().contains(token)
                    || known[token].amount != amount);
                let told_before = diff_of(known, map_of(shorter), block_number);
                if is_told {
                    assert(texts(diff@) =~= texts(told).insert(token, decimal(amount@)));
                    assert(diff_of(known, map_of(longer), block_number) =~= told_before.insert(
                        token,
                        decimal(amount@),
                    ));
                } else {
                    assert(diff@ == told);
                    assert(diff_of(known, map_of(longer), block_number) =~= told_before);
                }
            }
        }
        proof {
            assert(entries@.take(i as int) =~= entries@);
            assert forall|token: Address| #[trigger]
                new_balances@.dom().contains(token) && (!known.dom().contains(token)
                    || known[token].block_number < block_number) implies {
                &&& self.snapshot@.dom().contains(token)
                &&& self.snapshot@[token].amount == new_balances@[token]
                &&& self.snapshot@[token].block_number == block_number
                &&& diff@.dom().contains(token) <==> !known.dom().contains(token)
                    || known[token].amount != new_balances@[token]
                &&& diff@.dom().contains(token) ==> diff@[token]@ == decimal(new_balances@[token]@)
            } by {
                law_read_amount_is_kept_and_told(known, new_balances@, block_number, token);
                law_texts_are_those_of_the_map(diff@, token);
            }
        }
        diff
    }

    /// A copy of the balances, for a client that has just connected.
    pub fn current_snapshot(&self) -> (snapshot: BalanceSnapshot)
        requires
            self.wf(),
        ensures
            snapshot.wf(),
            snapshot@ == self@.snapshot,
    {
        self.snapshot.duplicate()
    }
}

/// A session after its watched tokens were replaced by `tokens`.
pub open spec fn watched_replaced(
    state: SubscriptionState,
    tokens: Set<Address>,
) -> SubscriptionState {
    if state.watched == tokens {
        state
    } else {
        SubscriptionState { watched: tokens, snapshot: state.snapshot.restrict(tokens) }
    }
}

/// Setting the same tokens again changes nothing.
pub proof fn law_replacing_tokens_is_idempotent(state: SubscriptionState, tokens: Set<Address>)
    ensures
        watched_replaced(watched_replaced(state, tokens), tokens) == watched_replaced(
            state,
            tokens,
        ),
        watched_replaced(state, tokens).watched == tokens,
{
}

/// A change of the watched tokens leaves no balance of a token that is not
/// watched, and keeps those of the others as they were.
pub proof fn law_changed_tokens_leave_no_ghosts(state: SubscriptionState, tokens: Set<Address>)
    requires
        state.watched != tokens,
    ensures
        watched_replaced(state, tokens).snapshot.dom().subset_of(tokens),
        forall|token: Address|
            state.snapshot.dom().contains(token) && tokens.contains(token) ==> {
                &&& watched_replaced(state, tokens).snapshot.dom().contains(token)
                &&& #[trigger] watched_replaced(state, tokens).snapshot[token]
                    == state.snapshot[token]
            },
{
}

/// No update takes a token back to an earlier block or forgets it.
pub proof fn law_snapshot_never_goes_back(
    known: Map<Address, Balance>,
    amounts: Map<Address, U256>,
    block: u64,
)
    ensures
        forall|token: Address| #[trigger]
            known.dom().contains(token) ==> merged(known, amounts, block).dom().contains(token)
                && merged(known, amounts, block)[token].block_number >= known[token].block_number,
{
}

/// Amounts of blocks that are not more recent than what is known are ignored
/// and nobody is told of them.
pub proof fn law_stale_amounts_are_ignored(
    known: Map<Address, Balance>,
    amounts: Map<Address, U256>,
    block: u64,
)
    requires
        forall|token: Address| #[trigger]
            amounts.dom().contains(token) ==> known.dom().contains(token) && block
                <= known[token].block_number,
    ensures
        merged(known, amounts, block) == known,
        diff_of(known, amounts, block) == Map::<Address, Seq<char>>::empty(),
{
    assert(merged(known, amounts, block) =~= known);
    assert(diff_of(known, amounts, block) =~= Map::<Address, Seq<char>>::empty());
}

/// The same read delivered twice is told once.
pub proof fn law_repeated_amounts_are_told_once(
    known: Map<Address, Balance>,
    amounts: Map<Address, U256>,
    block: u64,
)
    ensures
        merged(merged(known, amounts, block), amounts, block) == merged(known, amounts, block),
        diff_of(merged(known, amounts, block), amounts, block) == Map::<
            Address,
            Seq<char>,
        >::empty(),
{
    law_stale_amounts_are_ignored(merged(known, amounts, block), amounts, block);
}

/// A client that knows what was shown before and applies the diff knows what
/// is shown after.
pub proof fn law_diff_keeps_clients_in_step(
    known: Map<Address, Balance>,
    amounts: Map<Address, U256>,
    block: u64,
)
    ensures
        amounts_shown(known).union_prefer_right(diff_of(known, amounts, block)) == amounts_shown(
            merged(known, amounts, block),
        ),
{
    assert(amounts_shown(known).union_prefer_right(diff_of(known, amounts, block))
        =~= amounts_shown(merged(known, amounts, block)));
}

/// Amounts that were read at one block.
pub struct Reading {
    pub amounts: Map<Address, U256>,
    pub block: u64,
}

/// The balances after a series of readings came in.
pub open spec fn merged_all(
    known: Map<Address, Balance>,
    readings: Seq<Reading>,
) -> Map<Address, Balance>
    decreases readings.len(),
{
    if readings.len() == 0 {
        known
    } else {
        merged(
            merged_all(known, readings.drop_last()),
            readings.last().amounts,
            readings.last().block,
        )
    }
}

/// What a client shows that saw everything of `known` when it connected and
/// then applied the diff of every reading.
pub open spec fn shown_by_client(
    known: Map<Address, Balance>,
    readings: Seq<Reading>,
) -> Map<Address, Seq<char>>
    decreases readings.len(),
{
    if readings.len() == 0 {
        amounts_shown(known)
    } else {
        shown_by_client(known, readings.drop_last()).union_prefer_right(
            diff_of(
                merged_all(known, readings.drop_last()),
                readings.last().amounts,
                readings.last().block,
            ),
        )
    }
}

/// A stream tells all: whatever readings come in, a client that got the full
/// snapshot first and every diff since shows exactly the current balances.
pub proof fn law_stream_reproduces_the_snapshot(
    known: Map<Address, Balance>,
    readings: Seq<Reading>,
)
    ensures
        shown_by_client(known, readings) == amounts_shown(merged_all(known, readings)),
    decreases readings.len(),
{
    if readings.len() > 0 {
        law_stream_reproduces_the_snapshot(known, readings.drop_last());
        law_diff_keeps_clients_in_step(
            merged_all(known, readings.drop_last()),
            readings.last().amounts,
            readings.last().block,
        );
    }
}

/// What happens to a session while a client listens.
pub enum StreamStep {
    /// Amounts were read; the client is told the diff.
    Read(Reading),
    /// The watched tokens were replaced; the client is told nothing.
    Replaced(Set<Address>),
}

/// The session after a series of such steps.
pub open spec fn after_steps(
    state: SubscriptionState,
    steps: Seq<StreamStep>,
) -> SubscriptionState
    decreases steps.len(),
{
    if steps.len() == 0 {
        state
    } else {
        let before = after_steps(state, steps.drop_last());
        match steps.last() {
            StreamStep::Read(reading) => SubscriptionState {
                snapshot: merged(before.snapshot, reading.amounts, reading.block),
                ..before
            },
            StreamStep::Replaced(tokens) => watched_replaced(before, tokens),
        }
    }
}

/// What a client shows after them, if it saw everything that was known when it
/// connected and applied every diff since.
pub open spec fn shown_after_steps(
    state: SubscriptionState,
    steps: Seq<StreamStep>,
) -> Map<Address, Seq<char>>
    decreases steps.len(),
{
    if steps.len() == 0 {
        amounts_shown(state.snapshot)
    } else {
        let shown = shown_after_steps(state, steps.drop_last());
        match steps.last() {
            StreamStep::Read(reading) => shown.union_prefer_right(
                diff_of(
                    after_steps(state, steps.drop_last()).snapshot,
                    reading.amounts,
                    reading.block,
                ),
            ),
            StreamStep::Replaced(_) => shown,
        }
    }
}

/// A stream stays true while the watched tokens change: whatever readings and
/// replacements come, every token of the current snapshot is shown by the
/// client, with its current amount.
pub proof fn law_stream_shows_current_balances(state: SubscriptionState, steps: Seq<StreamStep>)
    ensures
        forall|token: Address| #[trigger]
            after_steps(state, steps).snapshot.dom().contains(token) ==> {
                &&& shown_after_steps(state, steps).dom().contains(token)
                &&& shown_after_steps(state, steps)[token] == decimal(
                    after_steps(state, steps).snapshot[token].amount@,
                )
            },
    decreases steps.len(),
{
    if steps.len() > 0 {
        let before = after_steps(state, steps.drop_last());
        let after = after_steps(state, steps);
        law_stream_shows_current_balances(state, steps.drop_last());
        assert forall|token: Address| #[trigger] after.snapshot.dom().contains(token) implies {
            &&& shown_after_steps(state, steps).dom().contains(token)
            &&& shown_after_steps(state, steps)[token] == decimal(
                after.snapshot[token].amount@,
            )
        } by {
            if before.snapshot.dom().contains(token) {
                assert(shown_after_steps(state, steps.drop_last()).dom().contains(token));
            }
        }
    }
}

/// Readings of different blocks may overtake one another: in either order the
/// balances end up the same, with the amount of the later block.
pub proof fn law_overtaken_readings_do_no_harm(
    known: Map<Address, Balance>,
    a: Reading,
    b: Reading,
)
    requires
        a.block != b.block,
    ensures
        merged(merged(known, a.amounts, a.block), b.amounts, b.block) == merged(
            merged(known, b.amounts, b.block),
            a.amounts,
            a.block,
        ),
{
    assert(merged(merged(known, a.amounts, a.block), b.amounts, b.block) =~= merged(
        merged(known, b.amounts, b.block),
        a.amounts,
        a.block,
    ));
}

/// An amount that nothing at least as recent stands against is kept exactly as
/// it was read, under the block it was read at. Clients are told of it, in
/// decimal, if and only if the amount they knew was another one or none.
pub proof fn law_read_amount_is_kept_and_told(
    known: Map<Address, Balance>,
    amounts: Map<Address, U256>,
    block: u64,
    token: Address,
)
    requires
        amounts.dom().contains(token),
        !known.dom().contains(token) || known[token].block_number < block,
    ensures
        merged(known, amounts, block).dom().contains(token),
        merged(known, amounts, block)[token].amount == amounts[token],
        merged(known, amounts, block)[token].block_number == block,
        diff_of(known, amounts, block).dom().contains(token) <==> !known.dom().contains(token)
            || known[token].amount != amounts[token],
        diff_of(known, amounts, block).dom().contains(token) ==> diff_of(
            known,
            amounts,
            block,
        )[token] == decimal(amounts[token]@),
{
}

/// A token that was not read, or that something at least as recent is known of,
/// stays as it is, and clients are told nothing of it.
pub proof fn law_other_amounts_stay(
    known: Map<Address, Balance>,
    amounts: Map<Address, U256>,
    block: u64,
    token: Address,
)
    requires
        !amounts.dom().contains(token) || (known.dom().contains(token) && block
            <= known[token].block_number),
    ensures
        merged(known, amounts, block).dom().contains(token) <==> known.dom().contains(token),
        known.dom().contains(token) ==> merged(known, amounts, block)[token] == known[token],
        !diff_of(known, amounts, block).dom().contains(token),
{
}

/// The texts of a map are those of its values, under the same keys.
pub proof fn law_texts_are_those_of_the_map(map: Map<Address, String>, token: Address)
    ensures
        texts(map).dom().contains(token) <==> map.dom().contains(token),
        map.dom().contains(token) ==> texts(map)[token] == map[token]@,
{
}

/// A client that connects is shown every balance that is known and no other,
/// each in decimal.
pub proof fn law_shown_amounts_are_the_known_ones(
    snapshot: Map<Address, Balance>,
    token: Address,
)
    ensures
        amounts_shown(snapshot).dom().contains(token) <==> snapshot.dom().contains(token),
        snapshot.dom().contains(token) ==> amounts_shown(snapshot)[token] == decimal(
            snapshot[token].amount@,
        ),
{
}

/// Replacing the watched tokens keeps every balance of a token that is watched
/// afterwards, as it was; the others are forgotten, unless the tokens are the
/// same as before. None is made up.
pub proof fn law_replaced_tokens_keep_their_balances(
    state: SubscriptionState,
    tokens: Set<Address>,
    token: Address,
)
    ensures
        watched_replaced(state, tokens).watched.contains(token) <==> tokens.contains(token),
        watched_replaced(state, tokens).snapshot.dom().contains(token)
            <==> state.snapshot.dom().contains(token) && (tokens.contains(token) || state.watched
            == tokens),
        watched_replaced(state, tokens).snapshot.dom().contains(token) ==> watched_replaced(
            state,
            tokens,
        ).snapshot[token] == state.snapshot[token],
{
}

} // verus!
