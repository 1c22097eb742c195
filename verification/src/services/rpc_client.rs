//! What is asked of a node and what is made of its answers.
//!
//! Balances are read in batches of `balanceOf` calls. A call of a batch may
//! fail without spoiling the others: lists of tokens regularly hold contracts
//! that revert. Large snapshots are read in chunks, so that clients see the
//! first ones early.
use crate::collections::address_map::AddressMap;
use crate::config::back_off_config::{get_rpc_backoff, BackoffPolicy};
use crate::domain::primitives::{
    law_address_order, law_address_order_is_numeric, Address, U256, Word,
};
use crate::evm::signatures::{
    deposit_signature, deposit_topic, transfer_signature, transfer_topic, withdrawal_signature,
    withdrawal_topic,
};
use crate::text::{decimal, decimal_text, joined};
use vstd::prelude::*;
use vstd::seq_lib::*;
use vstd::string::*;

verus! {

/// Tokens per chunk of a snapshot.
pub const MULTICALL_CHUNK_SIZE: usize = 500;

/// How long a head check may take, in milliseconds.
pub const HEADER_TIMEOUT: u64 = 3_000;

/// Balances by token and the block they were read at.
pub type BalancesWithBlock = (AddressMap<U256>, u64);

#[derive(Debug)]
pub enum RpcError {
    /// The node did not answer, or not usefully, and asking again is over.
    Exhausted(String),
}

impl RpcError {
    pub open spec fn message(self) -> Seq<char> {
        match self {
            RpcError::Exhausted(e) => "Provider exhausted after retries: "@ + e@,
        }
    }

    pub fn to_text(&self) -> (text: String)
        ensures
            text@ == self.message(),
    {
        match self {
            RpcError::Exhausted(e) => joined("Provider exhausted after retries: ", e.as_str()),
        }
    }
}

/// How a head check was answered.
#[derive(Debug)]
pub enum HeadAnswer {
    Number(u64),
    Failed(String),
    TimedOut,
}

/// How a batch of calls failed as a whole.
#[derive(Clone, Copy, Debug, PartialEq, Eq, Structural)]
pub enum MulticallFailure {
    /// The request did not get through, or was answered with an error that
    /// may carry what the contract reverted with.
    Transport { has_revert_data: bool },
    Decode,
    NoReturnData,
    CallFailed,
    ValueTx,
}

/// A query for event logs. Without topics any event matches.
#[derive(Debug)]
pub struct LogFilter {
    pub from_block: Option<u64>,
    pub to_block: Option<u64>,
    pub address: Option<Address>,
    /// The accepted event signatures.
    pub signatures: Vec<Word>,
    /// The required first indexed argument.
    pub topic1: Option<Word>,
}

/// Sorted in byte order.
pub open spec fn is_sorted(tokens: Seq<Address>) -> bool {
    forall|i: int, j: int|
        0 <= i < j < tokens.len() ==> !(#[trigger] tokens[j]).before(#[trigger] tokens[i])
}

/// The same tokens, each as often, in byte order.
pub open spec fn is_sorted_copy(sorted: Seq<Address>, tokens: Seq<Address>) -> bool {
    &&& is_sorted(sorted)
    &&& sorted.to_multiset() == tokens.to_multiset()
}

/// The chunks put together again.
pub open spec fn rejoined(chunks: Seq<Vec<Address>>) -> Seq<Address>
    decreases chunks.len(),
{
    if chunks.len() == 0 {
        Seq::empty()
    } else {
        rejoined(chunks.drop_last()) + chunks.last()@
    }
}

/// The balances that the first `n` answers give: an answer counts for the
/// token at its place, and a failed or missing one is left out.
pub open spec fn read_balances(
    tokens: Seq<Address>,
    answers: Seq<Option<U256>>,
    n: int,
) -> Map<Address, U256>
    decreases n,
{
    if n <= 0 {
        Map::empty()
    } else {
        let rest = read_balances(tokens, answers, n - 1);
        if n - 1 < answers.len() && answers[n - 1] is Some {
            rest.insert(tokens[n - 1], answers[n - 1]->0)
        } else {
            rest
        }
    }
}

/// How many of the first `n` tokens got no balance.
pub open spec fn failed_reads(answers: Seq<Option<U256>>, n: int) -> int
    decreases n,
{
    if n <= 0 {
        0
    } else {
        failed_reads(answers, n - 1) + if n - 1 < answers.len() && answers[n - 1] is Some {
            0int
        } else {
            1
        }
    }
}

pub struct RpcClient;

impl RpcClient {
    /// The tokens of a batch, in byte order.
    pub fn sorted_tokens(tokens: &Vec<Address>) -> (sorted: Vec<Address>)
        ensures
            is_sorted_copy(sorted@, tokens@),
    {
        let mut sorted: Vec<Address> = Vec::new();
        let mut i: usize = 0;
        assert(tokens@.take(0) =~= sorted@);
        while i < tokens.len()
            invariant
                i <= tokens@.len(),
                sorted@.len() == i,
                is_sorted(sorted@),
                sorted@.to_multiset() == tokens@.take(i as int).to_multiset(),
            decreases tokens@.len() - i,
        {
            let token = tokens[i];
            let ghost before = sorted@;
            // From the end, since input is often sorted already.
            let mut at: usize = sorted.len();
            while at > 0 && token.is_before(&sorted[at - 1])
                invariant
                    at <= sorted@.len(),
                    sorted@ == before,
                    forall|j: int| at <= j < before.len() ==> token.before(#[trigger] before[j]),
                decreases at,
            {
                at = at - 1;
            }
            sorted.insert(at, token);
            proof {
                let after = before.insert(at as int, token);
                to_multiset_insert(before, at as int, token);
                to_multiset_build(tokens@.take(i as int), token);
                assert(tokens@.take(i + 1) =~= tokens@.take(i as int).push(token));
                assert forall|a: int, b: int| 0 <= a < b < after.len() implies !(
                #[trigger] after[b]).before(#[trigger] after[a]) by {
                    let a2 = if a < at { a } else { a - 1 };
                    let b2 = if b < at { b } else { b - 1 };
                    if a != at {
                        assert(after[a] == before[a2]);
                    }
                    if b != at {
                        assert(after[b] == before[b2]);
                    }
                    if a != at && b != at {
                        assert(!before[b2].before(before[a2]));
                    } else if b == at {
                        // everything up to the last element before the gap is no greater
                        assert(!token.before(before[at - 1]));
                        if a2 < at - 1 {
                            assert(!before[at - 1].before(before[a2]));
                        }
                    }
                }
            }
            i = i + 1;
        }
        assert(tokens@.take(i as int) =~= tokens@);
        sorted
    }

    /// The chunks of a snapshot: the tokens in byte order, cut into chunks of
    /// which only the last may be short.
    pub fn token_chunks(tokens: &Vec<Address>) -> (chunks: Vec<Vec<Address>>)
        ensures
            is_sorted_copy(rejoined(chunks@), tokens@),
            forall|i: int|
                0 <= i < chunks@.len() ==> 0 < (#[trigger] chunks@[i])@.len()
                    <= MULTICALL_CHUNK_SIZE,
            forall|i: int|
                0 <= i < chunks@.len() - 1 ==> (#[trigger] chunks@[i])@.len()
                    == MULTICALL_CHUNK_SIZE,
    {
        let sorted = Self::sorted_tokens(tokens);
        let mut chunks: Vec<Vec<Address>> = Vec::new();
        let mut start: usize = 0;
        assert(rejoined(chunks@) =~= sorted@.take(0));
        while start < sorted.len()
            invariant
                start <= sorted@.len(),
                rejoined(chunks@) == sorted@.take(start as int),
                forall|i: int|
                    0 <= i < chunks@.len() ==> 0 < (#[trigger] chunks@[i])@.len()
                        <= MULTICALL_CHUNK_SIZE,
                start < sorted@.len() ==> forall|i: int|
                    0 <= i < chunks@.len() ==> (#[trigger] chunks@[i])@.len()
                        == MULTICALL_CHUNK_SIZE,
                forall|i: int|
                    0 <= i < chunks@.len() - 1 ==> (#[trigger] chunks@[i])@.len()
                        == MULTICALL_CHUNK_SIZE,
            decreases sorted@.len() - start,
        {
            let left: usize = sorted.len() - start;
            let width: usize = if left < MULTICALL_CHUNK_SIZE {
                left
            } else {
                MULTICALL_CHUNK_SIZE
            };
            let mut chunk: Vec<Address> = Vec::new();
            let mut k: usize = 0;
            while k < width
                invariant
                    k <= width,
                    start + width <= sorted.len(),
                    chunk@ == sorted@.subrange(start as int, start + k),
                decreases width - k,
            {
                chunk.push(sorted[start + k]);
                k = k + 1;
                assert(chunk@ =~= sorted@.subrange(start as int, start + k));
            }
            let ghost before = chunks@;
            chunks.push(chunk);
            proof {
                assert(chunks@.drop_last() =~= before);
                assert(rejoined(chunks@) =~= sorted@.take(start + width));
            }
            start = start + width;
        }
        assert(sorted@.take(start as int) =~= sorted@);
        chunks
    }

    /// Pairs the answers of a batch with its tokens, by place. Returns the
    /// balances and the number of tokens that got none.
    pub fn map_balance_result(
        tokens: &Vec<Address>,
        answers: &Vec<Option<U256>>,
    ) -> (mapped: (AddressMap<U256>, usize))
        ensures
            mapped.0.wf(),
            mapped.0@ == read_balances(tokens@, answers@, tokens@.len() as int),
            mapped.1 == failed_reads(answers@, tokens@.len() as int),
    {
        let mut balances: AddressMap<U256> = AddressMap::new();
        let mut failed: usize = 0;
        let mut i: usize = 0;
        while i < tokens.len()
            invariant
                i <= tokens@.len(),
                failed <= i,
                balances.wf(),
                balances@ == read_balances(tokens@, answers@, i as int),
                failed == failed_reads(answers@, i as int),
            decreases tokens@.len() - i,
        {
            let answer: Option<U256> = if i < answers.len() {
                answers[i]
            } else {
                None
            };
            match answer {
                Some(balance) => balances.insert(tokens[i], balance),
                None => {
                    failed = failed + 1;
                },
            }
            i = i + 1;
        }
        (balances, failed)
    }

    /// What a batch comes to: the balances of its tokens and the block they
    /// were read at, or the end of trying. `answer` is what the batch was
    /// answered with. Also says how many tokens got no balance.
    pub fn fetch_balances_via_multicall(
        tokens: &Vec<Address>,
        answer: Result<(u64, Vec<Option<U256>>), String>,
    ) -> (outcome: Result<(BalancesWithBlock, usize), RpcError>)
        ensures
            match answer {
                Ok((block, answers)) => outcome matches Ok(((balances, at), failed))
                    && balances.wf() && at == block && balances@ == read_balances(
                    tokens@,
                    answers@,
                    tokens@.len() as int,
                ) && failed == failed_reads(answers@, tokens@.len() as int),
                Err(error) => outcome matches Err(RpcError::Exhausted(text)) && text@ == error@,
            },
    {
        match answer {
            Ok((block, answers)) => {
                let (balances, failed) = Self::map_balance_result(tokens, &answers);
                Ok(((balances, block), failed))
            },
            Err(error) => Err(RpcError::Exhausted(error)),
        }
    }

    /// The head, as the answer to a head check gives it.
    pub fn latest_block_number(answer: HeadAnswer) -> (outcome: Result<u64, RpcError>)
        ensures
            match answer {
                HeadAnswer::Number(n) => outcome == Ok::<u64, RpcError>(n),
                HeadAnswer::Failed(error) => outcome matches Err(RpcError::Exhausted(text))
                    && text@ == error@,
                HeadAnswer::TimedOut => outcome matches Err(RpcError::Exhausted(text)) && text@
                    == "eth_blockNumber timed out after "@ + decimal((HEADER_TIMEOUT / 1000) as nat)
                    + "s"@,
            },
    {
        match answer {
            HeadAnswer::Number(n) => Ok(n),
            HeadAnswer::Failed(error) => Err(RpcError::Exhausted(error)),
            HeadAnswer::TimedOut => {
                let mut text = joined(
                    "eth_blockNumber timed out after ",
                    decimal_text(HEADER_TIMEOUT / 1000).as_str(),
                );
                text.append("s");
                Err(RpcError::Exhausted(text))
            },
        }
    }

    /// Whether a failed batch is worth asking for again: failures on the way
    /// are; what the contract itself said, or what cannot be decoded, would
    /// come out the same.
    pub fn is_multicall_retryable(failure: &MulticallFailure) -> (r: bool)
        ensures
            r == (*failure == (MulticallFailure::Transport { has_revert_data: false })),
    {
        match failure {
            MulticallFailure::Transport { has_revert_data } => !*has_revert_data,
            MulticallFailure::Decode => false,
            MulticallFailure::NoReturnData => false,
            MulticallFailure::CallFailed => false,
            MulticallFailure::ValueTx => false,
        }
    }

    pub fn backoff() -> (policy: BackoffPolicy)
        ensures
            policy == (BackoffPolicy {
                min_delay_millis: 2_000,
                max_delay_millis: 10_000,
                max_times: 3,
                jitter: true,
            }),
    {
        get_rpc_backoff()
    }

    /// Every token transfer in the blocks `from..=to`, whatever the token.
    pub fn transfer_logs_in_range(from: u64, to: u64) -> (filter: LogFilter)
        ensures
            filter.from_block == Some(from),
            filter.to_block == Some(to),
            filter.address is None,
            filter.signatures@ == seq![transfer_signature()],
            filter.topic1 is None,
    {
        let mut signatures: Vec<Word> = Vec::new();
        signatures.push(transfer_topic());
        assert(signatures@ =~= seq![transfer_signature()]);
        LogFilter {
            from_block: Some(from),
            to_block: Some(to),
            address: None,
            signatures,
            topic1: None,
        }
    }

    /// Every wrap and unwrap of native tokens in the blocks `from..=to`. The
    /// contract emits no transfer for them.
    pub fn weth9_logs_in_range(weth9_address: Address, from: u64, to: u64) -> (filter: LogFilter)
        ensures
            filter.from_block == Some(from),
            filter.to_block == Some(to),
            filter.address == Some(weth9_address),
            filter.signatures@ == seq![deposit_signature(), withdrawal_signature()],
            filter.topic1 is None,
    {
        let mut signatures: Vec<Word> = Vec::new();
        signatures.push(deposit_topic());
        signatures.push(withdrawal_topic());
        assert(signatures@ =~= seq![deposit_signature(), withdrawal_signature()]);
        LogFilter {
            from_block: Some(from),
            to_block: Some(to),
            address: Some(weth9_address),
            signatures,
            topic1: None,
        }
    }
}

/// Byte order leaves no choice: two sorted copies of the same tokens are the
/// same list.
pub proof fn law_sorted_copy_is_unique(a: Seq<Address>, b: Seq<Address>)
    requires
        is_sorted(a),
        is_sorted(b),
        a.to_multiset() == b.to_multiset(),
    ensures
        a == b,
    decreases a.len(),
{
    broadcast use group_to_multiset_ensures;

    to_multiset_len(a);
    to_multiset_len(b);
    if a.len() > 0 {
        let x = a[0];
        let y = b[0];
        assert(a.to_multiset().count(x) > 0);
        assert(b.contains(x));
        assert(b.to_multiset().count(y) > 0);
        assert(a.contains(y));
        let i = choose|i: int| 0 <= i < b.len() && b[i] == x;
        let j = choose|j: int| 0 <= j < a.len() && a[j] == y;
        assert(!b[i].before(b[0]) || i == 0);
        assert(!a[j].before(a[0]) || j == 0);
        law_address_order(x, y, x);
        assert(x == y);
        let ra = a.remove(0);
        let rb = b.remove(0);
        assert forall|i: int, j: int| 0 <= i < j < ra.len() implies !(#[trigger] ra[j]).before(
            #[trigger] ra[i],
        ) by {
            assert(ra[i] == a[i + 1] && ra[j] == a[j + 1]);
        }
        assert forall|i: int, j: int| 0 <= i < j < rb.len() implies !(#[trigger] rb[j]).before(
            #[trigger] rb[i],
        ) by {
            assert(rb[i] == b[i + 1] && rb[j] == b[j + 1]);
        }
        law_sorted_copy_is_unique(ra, rb);
        assert(a =~= seq![x] + ra);
        assert(b =~= seq![y] + rb);
    }
}

/// The chunks of a snapshot hold every token, and none twice if none was given
/// twice: each token is asked for in one chunk, at one place.
pub proof fn law_chunks_hold_each_token_once(chunks: Seq<Vec<Address>>, tokens: Seq<Address>)
    requires
        is_sorted_copy(rejoined(chunks), tokens),
        tokens.no_duplicates(),
    ensures
        rejoined(chunks).no_duplicates(),
        forall|token: Address| #[trigger]
            rejoined(chunks).contains(token) <==> tokens.contains(token),
{
    broadcast use group_to_multiset_ensures;

    let all = rejoined(chunks);
    tokens.lemma_multiset_has_no_duplicates();
    all.lemma_multiset_has_no_duplicates_conv();
    assert forall|token: Address| #[trigger] all.contains(token) <==> tokens.contains(token) by {
        assert(all.contains(token) <==> all.to_multiset().count(token) > 0);
        assert(tokens.contains(token) <==> tokens.to_multiset().count(token) > 0);
    }
}

/// Where no token is asked for twice, each of the first `n` tokens has a
/// balance if and only if its own answer holds one, which is then that
/// balance; no other token has one; and every token is either read or counted
/// as failed.
pub proof fn law_answers_are_paired_by_place(
    tokens: Seq<Address>,
    answers: Seq<Option<U256>>,
    n: int,
)
    requires
        tokens.no_duplicates(),
        0 <= n <= tokens.len(),
    ensures
        ({
            let balances = read_balances(tokens, answers, n);
            &&& forall|i: int|
                0 <= i < n ==> (balances.dom().contains(#[trigger] tokens[i]) <==> i
                    < answers.len() && answers[i] is Some)
            &&& forall|i: int|
                0 <= i < n && i < answers.len() && answers[i] is Some ==> balances[
                    #[trigger] tokens[i]] == answers[i]->0
            &&& forall|token: Address| #[trigger]
                balances.dom().contains(token) ==> tokens.take(n).contains(token)
            &&& balances.dom().finite()
            &&& balances.dom().len() + failed_reads(answers, n) == n
        }),
    decreases n,
{
    let balances = read_balances(tokens, answers, n);
    if n > 0 {
        law_answers_are_paired_by_place(tokens, answers, n - 1);
        let rest = read_balances(tokens, answers, n - 1);
        let token = tokens[n - 1];
        assert(!rest.dom().contains(token)) by {
            if rest.dom().contains(token) {
                let shorter = tokens.take(n - 1);
                let k = choose|k: int| 0 <= k < shorter.len() && shorter[k] == token;
                assert(tokens[k] == tokens[n - 1]);
            }
        }
        assert forall|t: Address| #[trigger] balances.dom().contains(t) implies tokens.take(
            n,
        ).contains(t) by {
            if t == token {
                assert(tokens.take(n)[n - 1] == t);
            } else {
                let shorter = tokens.take(n - 1);
                let k = choose|k: int| 0 <= k < shorter.len() && shorter[k] == t;
                assert(tokens.take(n)[k] == t);
            }
        }
        if n - 1 < answers.len() && answers[n - 1] is Some {
            assert(balances.dom() =~= rest.dom().insert(token));
        }
    }
}

/// A token has a balance if and only if one of its places among the first `n`
/// was answered with one, and it is the answer at the last such place, `last`.
pub proof fn law_last_answer_of_a_token_counts(
    tokens: Seq<Address>,
    answers: Seq<Option<U256>>,
    n: int,
    token: Address,
)
    requires
        0 <= n <= tokens.len(),
    ensures
        read_balances(tokens, answers, n).dom().contains(token) <==> exists|i: int|
            0 <= i < n && i < answers.len() && #[trigger] tokens[i] == token && answers[i] is Some,
        forall|last: int|
            0 <= last < n && last < answers.len() && #[trigger] tokens[last] == token
                && answers[last] is Some && (forall|i: int|
                last < i < n && i < answers.len() && #[trigger] tokens[i] == token
                    ==> answers[i] is None) ==> read_balances(tokens, answers, n)[token]
                == answers[last]->0,
    decreases n,
{
    if n > 0 {
        law_last_answer_of_a_token_counts(tokens, answers, n - 1, token);
        if n - 1 < answers.len() && answers[n - 1] is Some && tokens[n - 1] == token {
            assert forall|last: int|
                0 <= last < n && last < answers.len() && #[trigger] tokens[last] == token
                    && answers[last] is Some && (forall|i: int|
                    last < i < n && i < answers.len() && #[trigger] tokens[i] == token
                        ==> answers[i] is None) implies read_balances(tokens, answers, n)[token]
                == answers[last]->0 by {
                if last < n - 1 {
                    assert(tokens[n - 1] == token);
                }
            }
        }
    }
}

/// Every token is either read or counted as failed: the count grows by one with
/// each place that was not answered with a balance, and only then.
pub proof fn law_failed_reads_are_counted_one_by_one(answers: Seq<Option<U256>>, n: int)
    requires
        n >= 0,
    ensures
        failed_reads(answers, 0) == 0,
        failed_reads(answers, n + 1) - failed_reads(answers, n) == if n < answers.len()
            && answers[n] is Some {
            0int
        } else {
            1int
        },
{
}

/// Chunks put together again are the chunks one after the other.
pub proof fn law_rejoined_chunks_are_in_order(chunks: Seq<Vec<Address>>)
    ensures
        rejoined(chunks) == chunks.map_values(|chunk: Vec<Address>| chunk@).flatten(),
    decreases chunks.len(),
{
    let views = chunks.map_values(|chunk: Vec<Address>| chunk@);
    if chunks.len() > 0 {
        let earlier = chunks.drop_last().map_values(|chunk: Vec<Address>| chunk@);
        law_rejoined_chunks_are_in_order(chunks.drop_last());
        assert(views =~= earlier.push(chunks.last()@));
        earlier.lemma_flatten_push(chunks.last()@);
    } else {
        assert(views =~= Seq::empty());
    }
}

/// A sorted copy holds each token as often as what it was made of, and no
/// address in it denotes a smaller number than one before it.
pub proof fn law_sorted_copy_is_in_numeric_order(sorted: Seq<Address>, tokens: Seq<Address>)
    requires
        is_sorted_copy(sorted, tokens),
    ensures
        sorted.len() == tokens.len(),
        sorted.to_multiset() == tokens.to_multiset(),
        forall|i: int, j: int|
            0 <= i < j < sorted.len() ==> (#[trigger] sorted[i]).hi
                * 0x1_0000_0000_0000_0000_0000_0000_0000_0000nat + sorted[i].lo <= (
            #[trigger] sorted[j]).hi * 0x1_0000_0000_0000_0000_0000_0000_0000_0000nat
                + sorted[j].lo,
{
    to_multiset_len(sorted);
    to_multiset_len(tokens);
    assert forall|i: int, j: int| 0 <= i < j < sorted.len() implies (#[trigger] sorted[i]).hi
        * 0x1_0000_0000_0000_0000_0000_0000_0000_0000nat + sorted[i].lo <= (
    #[trigger] sorted[j]).hi * 0x1_0000_0000_0000_0000_0000_0000_0000_0000nat + sorted[j].lo by {
        law_address_order_is_numeric(sorted[j], sorted[i]);
    }
}

} // verus!
