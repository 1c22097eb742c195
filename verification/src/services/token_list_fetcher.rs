//! Token lists: which of their tokens are on the served chain, and what
//! several lists amount to together.
use crate::collections::address_set::AddressSet;
use crate::config::constants::MAX_TOKEN_LIST_RESPONSE_BYTES;
use crate::domain::evm_network::{law_chain_id_round_trip, EvmNetwork};
use crate::domain::primitives::Address;
use crate::domain::token::Token;
use crate::services::errors::FetcherError;
use vstd::prelude::*;
use vstd::string::*;

verus! {

/// Lists that are kept at once.
pub const CACHE_CAPACITY: u64 = 256;

/// The tokens of one list, or of several, on the served chain.
pub type ChainTokens = AddressSet;

/// The addresses of the tokens that are on the chain.
pub open spec fn on_chain(tokens: Seq<Token>, chain_id: u64) -> Set<Address> {
    Set::new(
        |address: Address|
            exists|i: int|
                0 <= i < tokens.len() && (#[trigger] tokens[i]).chain_id == chain_id
                    && tokens[i].address == address,
    )
}

/// The tokens of the lists that were loaded.
pub open spec fn loaded_tokens(lists: Seq<Result<ChainTokens, FetcherError>>) -> Set<Address> {
    Set::new(
        |address: Address|
            exists|i: int|
                0 <= i < lists.len() && (#[trigger] lists[i]) is Ok && lists[i]->Ok_0@.contains(
                    address,
                ),
    )
}

pub struct TokenListFetcher {
    /// The chain that lists are filtered by.
    pub network: EvmNetwork,
}

impl TokenListFetcher {
    pub fn new(network: EvmNetwork) -> (fetcher: TokenListFetcher)
        ensures
            fetcher.network == network,
    {
        TokenListFetcher { network }
    }

    /// Refuses a response that is larger than the cap, before it is parsed.
    pub fn check_response_size(url: &str, bytes: usize) -> (outcome: Result<(), FetcherError>)
        ensures
            outcome is Ok <==> bytes <= MAX_TOKEN_LIST_RESPONSE_BYTES,
            outcome is Ok <==> bytes <= 10 * 1024 * 1024,
            outcome matches Err(FetcherError::UnableToLoadList(at, reason)) ==> at@ == url@
                && reason@ == "response is too large"@,
    {
        if bytes <= MAX_TOKEN_LIST_RESPONSE_BYTES {
            Ok(())
        } else {
            Err(
                FetcherError::UnableToLoadList(
                    String::from_str(url),
                    String::from_str("response is too large"),
                ),
            )
        }
    }

    /// The tokens of a list on the served chain.
    pub fn filter_by_chain(&self, tokens: &Vec<Token>) -> (set: ChainTokens)
        ensures
            set.wf(),
            set@ == on_chain(tokens@, self.network.id()),
            forall|i: int|
                0 <= i < tokens@.len() && (#[trigger] tokens@[i]).chain_id == self.network.id()
                    ==> set@.contains(tokens@[i].address),
            forall|address: Address| #[trigger]
                set@.contains(address) ==> exists|i: int|
                    0 <= i < tokens@.len() && (#[trigger] tokens@[i]).address == address
                        && tokens@[i].chain_id == self.network.id(),
    {
        let mut set = AddressSet::new();
        let chain_id: u64 = self.network.chain_id();
        let mut i: usize = 0;
        assert(set@ =~= on_chain(tokens@.take(0), chain_id));
        while i < tokens.len()
            invariant
                i <= tokens@.len(),
                set.wf(),
                set@ == on_chain(tokens@.take(i as int), chain_id),
            decreases tokens@.len() - i,
        {
            let token = tokens[i];
            let ghost shorter = tokens@.take(i as int);
            let ghost longer = tokens@.take(i + 1);
            if token.chain_id == chain_id {
                let _ = set.insert(token.address);
            }
            proof {
                assert(longer[i as int] == token);
                assert forall|a: Address| set@.contains(a) == on_chain(
                    longer,
                    chain_id,
                ).contains(a) by {
                    if on_chain(shorter, chain_id).contains(a) {
                        let k = choose|k: int|
                            0 <= k < shorter.len() && (#[trigger] shorter[k]).chain_id == chain_id
                                && shorter[k].address == a;
                        assert(longer[k] == shorter[k]);
                    }
                    if on_chain(longer, chain_id).contains(a) {
                        let k = choose|k: int|
                            0 <= k < longer.len() && (#[trigger] longer[k]).chain_id == chain_id
                                && longer[k].address == a;
                        if k < i {
                            assert(shorter[k] == longer[k]);
                        }
                    }
                }
                assert(set@ =~= on_chain(longer, chain_id));
            }
            i = i + 1;
        }
        assert(tokens@.take(i as int) =~= tokens@);
        set
    }

    /// A list that was fetched from `url`, filtered; or why it was not.
    pub fn fetch_list_and_filter_by_chain(
        &self,
        url: &str,
        fetched: Result<Vec<Token>, String>,
    ) -> (outcome: Result<ChainTokens, FetcherError>)
        ensures
            match fetched {
                Ok(tokens) => outcome is Ok && outcome->Ok_0.wf() && outcome->Ok_0@ == on_chain(
                    tokens@,
                    self.network.id(),
                ),
                Err(error) => outcome matches Err(FetcherError::UnableToLoadList(at, reason))
                    && at@ == url@ && reason@ == error@,
            },
    {
        match fetched {
            Ok(tokens) => Ok(self.filter_by_chain(&tokens)),
            Err(error) => Err(FetcherError::UnableToLoadList(String::from_str(url), error)),
        }
    }

    /// All lists together. If any of them could not be loaded there is no
    /// result, since a client must get every token it asked for.
    pub fn get_tokens(lists: Vec<Result<ChainTokens, FetcherError>>) -> (outcome: Result<
        ChainTokens,
        FetcherError,
    >)
        requires
            forall|i: int|
                0 <= i < lists@.len() && (#[trigger] lists@[i]) is Ok ==> lists@[i]->Ok_0.wf(),
        ensures
            match outcome {
                Ok(tokens) => {
                    &&& forall|i: int| 0 <= i < lists@.len() ==> (#[trigger] lists@[i]) is Ok
                    &&& tokens.wf()
                    &&& tokens@ == loaded_tokens(lists@)
                    &&& forall|i: int, address: Address|
                        0 <= i < lists@.len() && #[trigger] lists@[i]->Ok_0@.contains(address)
                            ==> tokens@.contains(address)
                    &&& forall|address: Address| #[trigger]
                        tokens@.contains(address) ==> exists|i: int|
                            0 <= i < lists@.len() && (#[trigger] lists@[i])->Ok_0@.contains(address)
                },
                Err(error) => exists|i: int|
                    0 <= i < lists@.len() && #[trigger] lists@[i] == Err::<
                        ChainTokens,
                        FetcherError,
                    >(error) && (forall|j: int| 0 <= j < i ==> (#[trigger] lists@[j]) is Ok),
            },
    {
        let mut lists = lists;
        let ghost all = lists@;
        let mut tokens = AddressSet::new();
        let mut failed: usize = 0;
        // Look for the first failure before anything is merged.
        while failed < lists.len()
            invariant_except_break
                failed <= all.len(),
                lists@ == all,
                forall|j: int| 0 <= j < failed ==> (#[trigger] all[j]) is Ok,
            ensures
                failed <= all.len(),
                lists@ == all,
                forall|j: int| 0 <= j < failed ==> (#[trigger] all[j]) is Ok,
                failed < all.len() ==> all[failed as int] is Err,
            decreases all.len() - failed,
        {
            match &lists[failed] {
                Ok(_) => {},
                Err(_) => {
                    break;
                },
            }
            failed = failed + 1;
        }
        if failed < lists.len() {
            let first = lists.remove(failed);
            match first {
                Err(error) => {
                    assert(all[failed as int] == Err::<ChainTokens, FetcherError>(error));
                    return Err(error);
                },
                Ok(_) => {},
            }
        }
        let mut i: usize = 0;
        assert(tokens@ =~= loaded_tokens(all.take(0)));
        while i < lists.len()
            invariant
                i <= all.len(),
                lists@ == all,
                forall|j: int| 0 <= j < all.len() ==> (#[trigger] all[j]) is Ok,
                tokens.wf(),
                tokens@ == loaded_tokens(all.take(i as int)),
            decreases all.len() - i,
        {
            let ghost shorter = all.take(i as int);
            let ghost longer = all.take(i + 1);
            match &lists[i] {
                Ok(list) => {
                    tokens.union_with(list);
                    proof {
                        assert(longer[i as int] == all[i as int]);
                        assert forall|a: Address| tokens@.contains(a) == loaded_tokens(
                            longer,
                        ).contains(a) by {
                            if loaded_tokens(shorter).contains(a) {
                                let k = choose|k: int|
                                    0 <= k < shorter.len() && (#[trigger] shorter[k]) is Ok
                                        && shorter[k]->Ok_0@.contains(a);
                                assert(longer[k] == shorter[k]);
                            }
                            if loaded_tokens(longer).contains(a) {
                                let k = choose|k: int|
                                    0 <= k < longer.len() && (#[trigger] longer[k]) is Ok
                                        && longer[k]->Ok_0@.contains(a);
                                if k < i {
                                    assert(shorter[k] == longer[k]);
                                }
                            }
                        }
                        assert(tokens@ =~= loaded_tokens(longer));
                    }
                },
                Err(_) => {},
            }
            i = i + 1;
        }
        assert(all.take(i as int) =~= all);
        Ok(tokens)
    }
}

/// Every entry of the chain has its address in what the filter keeps.
pub proof fn law_entry_of_the_chain_is_kept(tokens: Seq<Token>, chain_id: u64, i: int)
    requires
        0 <= i < tokens.len(),
        tokens[i].chain_id == chain_id,
    ensures
        on_chain(tokens, chain_id).contains(tokens[i].address),
{
}

/// An address whose every entry is of another chain is not kept, and neither is
/// one without an entry.
pub proof fn law_foreign_address_is_dropped(tokens: Seq<Token>, chain_id: u64, address: Address)
    requires
        forall|i: int|
            0 <= i < tokens.len() && (#[trigger] tokens[i]).address == address
                ==> tokens[i].chain_id != chain_id,
    ensures
        !on_chain(tokens, chain_id).contains(address),
{
}

/// Two chains have no token in common in a list that gives each address once.
pub proof fn law_chains_do_not_share_tokens(
    tokens: Seq<Token>,
    here: EvmNetwork,
    there: EvmNetwork,
    address: Address,
)
    requires
        here != there,
        forall|i: int, j: int|
            0 <= i < tokens.len() && 0 <= j < tokens.len() && (#[trigger] tokens[i]).address == (
            #[trigger] tokens[j]).address ==> i == j,
    ensures
        !(on_chain(tokens, here.id()).contains(address) && on_chain(
            tokens,
            there.id(),
        ).contains(address)),
{
    law_chain_id_round_trip(here, here.id());
    law_chain_id_round_trip(there, there.id());
}

/// What is kept of one chain does not depend on the entries of another: without
/// them the list comes to the same.
pub proof fn law_foreign_entries_do_not_matter(tokens: Seq<Token>, chain_id: u64, i: int)
    requires
        0 <= i < tokens.len(),
        tokens[i].chain_id != chain_id,
    ensures
        on_chain(tokens.remove(i), chain_id) == on_chain(tokens, chain_id),
{
    let fewer = tokens.remove(i);
    assert forall|address: Address| on_chain(fewer, chain_id).contains(address) == on_chain(
        tokens,
        chain_id,
    ).contains(address) by {
        if on_chain(tokens, chain_id).contains(address) {
            let k = choose|k: int|
                0 <= k < tokens.len() && (#[trigger] tokens[k]).chain_id == chain_id
                    && tokens[k].address == address;
            let at = if k < i { k } else { k - 1 };
            assert(fewer[at] == tokens[k]);
        }
        if on_chain(fewer, chain_id).contains(address) {
            let k = choose|k: int|
                0 <= k < fewer.len() && (#[trigger] fewer[k]).chain_id == chain_id
                    && fewer[k].address == address;
            let at = if k < i { k } else { k + 1 };
            assert(tokens[at] == fewer[k]);
        }
    }
    assert(on_chain(fewer, chain_id) =~= on_chain(tokens, chain_id));
}

/// All lists together hold every token of every list, and no other.
pub proof fn law_lists_together_hold_each_of_them(
    lists: Seq<Result<ChainTokens, FetcherError>>,
    address: Address,
)
    ensures
        forall|i: int|
            0 <= i < lists.len() && (#[trigger] lists[i]) is Ok && lists[i]->Ok_0@.contains(address)
                ==> loaded_tokens(lists).contains(address),
        (forall|i: int|
            0 <= i < lists.len() && (#[trigger] lists[i]) is Ok
                ==> !lists[i]->Ok_0@.contains(address)) ==> !loaded_tokens(lists).contains(address),
{
}

} // verus!
