//! Reads token balances and the native balance of a wallet in one batch, and
//! fails as a whole if any call of the batch does.
use crate::collections::address_map::AddressMap;
use crate::domain::primitives::{
    checksum_text, decoded_u256, lemma_u256_of_view, Address, U256,
};
use crate::evm::calldata::{
    address_call, is_address_call, Call, BALANCE_OF_SELECTOR, GET_ETH_BALANCE_SELECTOR,
};
use crate::services::errors::ServiceError;
use crate::services::rpc_client::{is_sorted_copy, RpcClient};
use crate::text::{decimal, decimal_text};
use vstd::prelude::*;
use vstd::string::*;

verus! {

#[derive(Clone, Copy, Debug, PartialEq, Eq, Structural)]
pub enum MulticallError {
    ProviderExhausted,
}

impl MulticallError {
    pub open spec fn message(self) -> Seq<char> {
        "Provider exhausted with retries"@
    }

    pub fn to_text(&self) -> (text: String)
        ensures
            text@ == self.message(),
    {
        String::from_str("Provider exhausted with retries")
    }

    /// What a batch that never completed is reported as.
    pub fn into_service_error(self) -> (error: ServiceError)
        ensures
            error matches ServiceError::BalancesMultiCallError(text) && text@ == self.message(),
    {
        ServiceError::BalancesMultiCallError(self.to_text())
    }
}

/// The answer to one call of a batch.
#[derive(Debug)]
pub struct SubcallAnswer {
    pub success: bool,
    pub return_data: Vec<u8>,
}

pub open spec fn other_than(native: Address) -> spec_fn(Address) -> bool {
    |token: Address| token != native
}

/// The tokens other than `native`, in the order given.
pub open spec fn without_native(tokens: Seq<Address>, native: Address) -> Seq<Address> {
    tokens.filter(other_than(native))
}

pub open spec fn missing_message() -> Seq<char> {
    "multicall: missing response at index={i} for token={token}"@
}

pub open spec fn missing_native_message() -> Seq<char> {
    "multicall3: missing response at index={i} for token={token}"@
}

pub open spec fn failed_message(token: Address, index: int, data_len: nat) -> Seq<char> {
    "multicall3 subcall failed: token="@ + checksum_text(token.hi, token.lo) + ", index="@
        + decimal(index as nat) + ", return_data_len="@ + decimal(data_len)
}

/// What the answers to the first `n` tokens amount to: their balances, leaving
/// out what cannot be decoded, or why the batch failed at the first answer
/// that is missing or unsuccessful.
pub open spec fn token_balances(
    tokens: Seq<Address>,
    answers: Seq<SubcallAnswer>,
    n: int,
) -> Result<Map<Address, U256>, Seq<char>>
    decreases n,
{
    if n <= 0 {
        Ok(Map::empty())
    } else {
        match token_balances(tokens, answers, n - 1) {
            Err(reason) => Err(reason),
            Ok(balances) => if n - 1 >= answers.len() {
                Err(missing_message())
            } else if !answers[n - 1].success {
                Err(
                    failed_message(tokens[n - 1], n - 1, answers[n - 1].return_data@.len()),
                )
            } else {
                match decoded_u256(answers[n - 1].return_data@) {
                    Some(balance) => Ok(balances.insert(tokens[n - 1], balance)),
                    None => Ok(balances),
                }
            },
        }
    }
}

/// What the whole batch amounts to: the last answer is the native balance,
/// which is taken whether or not the call was successful.
pub open spec fn batch_balances(
    tokens: Seq<Address>,
    native: Address,
    answers: Seq<SubcallAnswer>,
) -> Result<Map<Address, U256>, Seq<char>> {
    match token_balances(tokens, answers, tokens.len() as int) {
        Err(reason) => Err(reason),
        Ok(balances) => if tokens.len() >= answers.len() {
            Err(missing_native_message())
        } else {
            match decoded_u256(answers[tokens.len() as int].return_data@) {
                Some(balance) => Ok(balances.insert(native, balance)),
                None => Ok(balances),
            }
        },
    }
}

/// The tokens that are asked for one by one, in byte order: all but the
/// native one, which has a call of its own.
pub fn batch_tokens(tokens: &Vec<Address>, native: Address) -> (erc20: Vec<Address>)
    ensures
        is_sorted_copy(erc20@, without_native(tokens@, native)),
{
    let mut kept: Vec<Address> = Vec::new();
    let ghost is_kept = other_than(native);
    let mut i: usize = 0;
    assert(tokens@.take(0).filter(is_kept) =~= Seq::<Address>::empty()) by {
        reveal(Seq::filter);
    }
    while i < tokens.len()
        invariant
            i <= tokens@.len(),
            is_kept == other_than(native),
            kept@ == tokens@.take(i as int).filter(is_kept),
        decreases tokens@.len() - i,
    {
        let token = tokens[i];
        proof {
            reveal(Seq::filter);
            assert(tokens@.take(i + 1).drop_last() =~= tokens@.take(i as int));
            assert(tokens@.take(i + 1).last() == token);
        }
        if token != native {
            kept.push(token);
        }
        i = i + 1;
    }
    assert(tokens@.take(i as int) =~= tokens@);
    RpcClient::sorted_tokens(&kept)
}

/// The calls of a batch: the balance of `owner` in each token, then its
/// native balance.
pub fn batch_calls(erc20: &Vec<Address>, owner: Address, multicall3: Address) -> (calls: Vec<Call>)
    requires
        erc20@.len() < usize::MAX,
    ensures
        calls@.len() == erc20@.len() + 1,
        forall|i: int|
            0 <= i < erc20@.len() ==> (#[trigger] calls@[i]).target == erc20@[i]
                && is_address_call(calls@[i].call_data@, BALANCE_OF_SELECTOR, owner),
        calls@.last().target == multicall3,
        is_address_call(calls@.last().call_data@, GET_ETH_BALANCE_SELECTOR, owner),
{
    let mut calls: Vec<Call> = Vec::new();
    let mut i: usize = 0;
    while i < erc20.len()
        invariant
            i <= erc20@.len(),
            calls@.len() == i,
            forall|j: int|
                0 <= j < i ==> (#[trigger] calls@[j]).target == erc20@[j] && is_address_call(
                    calls@[j].call_data@,
                    BALANCE_OF_SELECTOR,
                    owner,
                ),
        decreases erc20@.len() - i,
    {
        let call_data = address_call(BALANCE_OF_SELECTOR, owner);
        calls.push(Call { target: erc20[i], call_data });
        i = i + 1;
    }
    let call_data = address_call(GET_ETH_BALANCE_SELECTOR, owner);
    calls.push(Call { target: multicall3, call_data });
    calls
}

fn failure_text(token: Address, index: usize, data_len: usize) -> (text: String)
    ensures
        text@ == failed_message(token, index as int, data_len as nat),
{
    let mut text = String::from_str("multicall3 subcall failed: token=");
    text.append(token.to_text().as_str());
    text.append(", index=");
    text.append(decimal_text(index as u64).as_str());
    text.append(", return_data_len=");
    text.append(decimal_text(data_len as u64).as_str());
    text
}

/// Reads the balances out of a batch's answers.
pub fn collect_balances(
    erc20: &Vec<Address>,
    native: Address,
    answers: &Vec<SubcallAnswer>,
) -> (outcome: Result<AddressMap<U256>, ServiceError>)
    ensures
        match batch_balances(erc20@, native, answers@) {
            Ok(balances) => outcome is Ok && outcome->Ok_0.wf() && outcome->Ok_0@ == balances,
            Err(reason) => outcome matches Err(ServiceError::BalancesMultiCallError(text))
                && text@ == reason,
        },
{
    let mut balances: AddressMap<U256> = AddressMap::new();
    let mut i: usize = 0;
    while i < erc20.len()
        invariant
            i <= erc20@.len(),
            balances.wf(),
            token_balances(erc20@, answers@, i as int) == Ok::<Map<Address, U256>, Seq<char>>(
                balances@,
            ),
        decreases erc20@.len() - i,
    {
        if i >= answers.len() {
            proof {
                lemma_failure_lasts(erc20@, answers@, i + 1, erc20@.len() as int);
            }
            return Err(
                ServiceError::BalancesMultiCallError(
                    String::from_str(
                        "multicall: missing response at index={i} for token={token}",
                    ),
                ),
            );
        }
        if !answers[i].success {
            proof {
                lemma_failure_lasts(erc20@, answers@, i + 1, erc20@.len() as int);
            }
            return Err(
                ServiceError::BalancesMultiCallError(
                    failure_text(erc20[i], i, answers[i].return_data.len()),
                ),
            );
        }
        match U256::abi_decode(&answers[i].return_data) {
            Some(balance) => {
                proof {
                    lemma_u256_of_view(balance);
                }
                balances.insert(erc20[i], balance);
            },
            None => {},
        }
        i = i + 1;
    }
    if i >= answers.len() {
        return Err(
            ServiceError::BalancesMultiCallError(
                String::from_str("multicall3: missing response at index={i} for token={token}"),
            ),
        );
    }
    match U256::abi_decode(&answers[i].return_data) {
        Some(balance) => {
            proof {
                lemma_u256_of_view(balance);
            }
            balances.insert(native, balance);
        },
        None => {},
    }
    Ok(balances)
}

/// The balances of a wallet and the block they were read at, out of the reply
/// to the whole batch: that block and the answers, or why none came.
pub fn fetch_balances_via_multicall(
    erc20: &Vec<Address>,
    native: Address,
    reply: Result<(U256, Vec<SubcallAnswer>), MulticallError>,
) -> (outcome: Result<(AddressMap<U256>, U256), ServiceError>)
    ensures
        match reply {
            Ok((block, answers)) => match batch_balances(erc20@, native, answers@) {
                Ok(balances) => outcome is Ok && outcome->Ok_0.0.wf() && outcome->Ok_0.0@
                    == balances && outcome->Ok_0.1 == block,
                Err(reason) => outcome matches Err(ServiceError::BalancesMultiCallError(text))
                    && text@ == reason,
            },
            Err(error) => outcome matches Err(ServiceError::BalancesMultiCallError(text)) && text@
                == error.message(),
        },
{
    match reply {
        Ok((block, answers)) => match collect_balances(erc20, native, &answers) {
            Ok(balances) => Ok((balances, block)),
            Err(error) => Err(error),
        },
        Err(error) => Err(error.into_service_error()),
    }
}

proof fn lemma_failure_lasts(
    tokens: Seq<Address>,
    answers: Seq<SubcallAnswer>,
    k: int,
    n: int,
)
    requires
        0 <= k <= n,
        token_balances(tokens, answers, k) is Err,
    ensures
        token_balances(tokens, answers, n) == token_balances(tokens, answers, k),
    decreases n - k,
{
    if k < n {
        lemma_failure_lasts(tokens, answers, k, n - 1);
    }
}

/// A batch succeeds if and only if every token's call was answered with
/// success and the native balance was answered at all.
pub proof fn law_batch_is_all_or_nothing(
    tokens: Seq<Address>,
    native: Address,
    answers: Seq<SubcallAnswer>,
)
    ensures
        batch_balances(tokens, native, answers) is Ok <==> answers.len() > tokens.len() && (
        forall|i: int| 0 <= i < tokens.len() ==> (#[trigger] answers[i]).success),
{
    lemma_token_balances_ok(tokens, answers, tokens.len() as int);
}

proof fn lemma_token_balances_ok(tokens: Seq<Address>, answers: Seq<SubcallAnswer>, n: int)
    requires
        0 <= n,
    ensures
        token_balances(tokens, answers, n) is Ok <==> answers.len() >= n && (forall|i: int|
            0 <= i < n ==> (#[trigger] answers[i]).success),
    decreases n,
{
    if n > 0 {
        lemma_token_balances_ok(tokens, answers, n - 1);
        if token_balances(tokens, answers, n) is Err && answers.len() >= n {
            if token_balances(tokens, answers, n - 1) is Ok {
                assert(!answers[n - 1].success);
            }
        }
    }
}

proof fn lemma_token_balances_values(
    tokens: Seq<Address>,
    answers: Seq<SubcallAnswer>,
    n: int,
    token: Address,
)
    requires
        0 <= n <= tokens.len(),
        token_balances(tokens, answers, n) is Ok,
    ensures
        ({
            let balances = token_balances(tokens, answers, n)->Ok_0;
            &&& balances.dom().contains(token) <==> exists|i: int|
                0 <= i < n && #[trigger] tokens[i] == token && answers[i].return_data@.len() >= 32
            &&& forall|last: int|
                0 <= last < n && #[trigger] tokens[last] == token
                    && answers[last].return_data@.len() >= 32 && (forall|i: int|
                    last < i < n && #[trigger] tokens[i] == token
                        ==> answers[i].return_data@.len() < 32) ==> Some(balances[token])
                    == decoded_u256(answers[last].return_data@)
        }),
    decreases n,
{
    if n > 0 {
        lemma_token_balances_values(tokens, answers, n - 1, token);
        let balances = token_balances(tokens, answers, n)->Ok_0;
        if tokens[n - 1] == token && answers[n - 1].return_data@.len() >= 32 {
            assert forall|last: int|
                0 <= last < n && #[trigger] tokens[last] == token
                    && answers[last].return_data@.len() >= 32 && (forall|i: int|
                    last < i < n && #[trigger] tokens[i] == token
                        ==> answers[i].return_data@.len() < 32) implies Some(balances[token])
                == decoded_u256(answers[last].return_data@) by {
                if last < n - 1 {
                    assert(tokens[n - 1] == token);
                }
            }
        }
    }
}

/// What a batch that succeeds holds, where the native token is not among those
/// asked for one by one: a token that was answered with a number has the one of
/// its last such answer, the native token has the one of the answer behind all
/// of them, and no other token has a balance.
pub proof fn law_answers_of_a_batch_are_paired_by_place(
    tokens: Seq<Address>,
    native: Address,
    answers: Seq<SubcallAnswer>,
    token: Address,
)
    requires
        batch_balances(tokens, native, answers) is Ok,
        !tokens.contains(native),
        token != native,
    ensures
        ({
            let balances = batch_balances(tokens, native, answers)->Ok_0;
            &&& balances.dom().contains(token) <==> exists|i: int|
                0 <= i < tokens.len() && #[trigger] tokens[i] == token
                    && answers[i].return_data@.len() >= 32
            &&& forall|last: int|
                0 <= last < tokens.len() && #[trigger] tokens[last] == token
                    && answers[last].return_data@.len() >= 32 && (forall|i: int|
                    last < i < tokens.len() && #[trigger] tokens[i] == token
                        ==> answers[i].return_data@.len() < 32) ==> Some(balances[token])
                    == decoded_u256(answers[last].return_data@)
            &&& balances.dom().contains(native) <==> answers[tokens.len() as int].return_data@.len()
                >= 32
            &&& balances.dom().contains(native) ==> Some(balances[native]) == decoded_u256(
                answers[tokens.len() as int].return_data@,
            )
        }),
{
    lemma_token_balances_values(tokens, answers, tokens.len() as int, token);
    lemma_token_balances_values(tokens, answers, tokens.len() as int, native);
    if token_balances(tokens, answers, tokens.len() as int)->Ok_0.dom().contains(native) {
        let i = choose|i: int|
            0 <= i < tokens.len() && #[trigger] tokens[i] == native
                && answers[i].return_data@.len() >= 32;
        assert(tokens[i] == native);
    }
}

/// A batch that fails is reported for the first token, at place `i`, whose
/// answer is missing or unsuccessful; with none such, for the missing answer of
/// the native token.
pub proof fn law_batch_fails_at_its_first_failure(
    tokens: Seq<Address>,
    native: Address,
    answers: Seq<SubcallAnswer>,
    i: int,
)
    requires
        0 <= i <= tokens.len(),
        i <= answers.len(),
        forall|j: int| 0 <= j < i ==> (#[trigger] answers[j]).success,
    ensures
        i < tokens.len() && i == answers.len() ==> batch_balances(tokens, native, answers) == Err::<
            Map<Address, U256>,
            Seq<char>,
        >("multicall: missing response at index={i} for token={token}"@),
        i < tokens.len() && i < answers.len() && !answers[i].success ==> batch_balances(
            tokens,
            native,
            answers,
        ) == Err::<Map<Address, U256>, Seq<char>>(
            "multicall3 subcall failed: token="@ + checksum_text(tokens[i].hi, tokens[i].lo)
                + ", index="@ + decimal(i as nat) + ", return_data_len="@ + decimal(
                answers[i].return_data@.len(),
            ),
        ),
        i == tokens.len() && i == answers.len() ==> batch_balances(tokens, native, answers) == Err::<
            Map<Address, U256>,
            Seq<char>,
        >("multicall3: missing response at index={i} for token={token}"@),
{
    lemma_token_balances_ok(tokens, answers, i);
    if i < tokens.len() && (i == answers.len() || !answers[i].success) {
        assert(token_balances(tokens, answers, i + 1) is Err);
        lemma_failure_lasts(tokens, answers, i + 1, tokens.len() as int);
    }
}

/// Leaving out the native token leaves out nothing else: every other token is
/// asked for as often as it was given, and in the same order.
pub proof fn law_only_the_native_token_is_left_out(
    tokens: Seq<Address>,
    native: Address,
    token: Address,
)
    ensures
        !without_native(tokens, native).contains(native),
        token != native ==> (without_native(tokens, native).contains(token) <==> tokens.contains(
            token,
        )),
        token != native ==> without_native(tokens.push(token), native) == without_native(
            tokens,
            native,
        ).push(token),
        without_native(tokens.push(native), native) == without_native(tokens, native),
        without_native(Seq::empty(), native) == Seq::<Address>::empty(),
{
    let kept = other_than(native);
    assert forall|i: int| 0 <= i < tokens.filter(kept).len() implies kept(
        #[trigger] tokens.filter(kept)[i],
    ) by {
        tokens.lemma_filter_pred(kept, i);
    }
    if token != native {
        if tokens.contains(token) {
            let i = choose|i: int| 0 <= i < tokens.len() && tokens[i] == token;
            tokens.lemma_filter_contains(kept, i);
        }
        if tokens.filter(kept).contains(token) {
            tokens.lemma_filter_contains_rev(kept, token);
        }
    }
    reveal(Seq::filter);
    assert(tokens.push(token).drop_last() =~= tokens);
    assert(tokens.push(native).drop_last() =~= tokens);
}

} // verus!
