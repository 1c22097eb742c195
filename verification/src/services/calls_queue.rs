//! A simpler way of gathering refresh requests, in which a request without a
//! block counts as one for block zero.
use crate::collections::address_map::AddressMap;
use crate::collections::keyed::{
    distinct_keys, has_key, key_index, lemma_map_of_entry, map_of,
};
use crate::domain::primitives::{Address, BlockId};
use crate::services::balance_refresh_queue::{is_requested, FetchRequest};
use crate::services::errors::ServiceError;
use crate::services::rpc_client::BalancesWithBlock;
use vstd::prelude::*;

verus! {

/// What a batch of calls came to.
#[derive(Debug)]
pub enum QueueMessage {
    Success(BalancesWithBlock),
    Error(ServiceError),
}

/// Tokens and the newest block each was requested at.
pub type TokenMap = AddressMap<u64>;

pub open spec fn block_or_zero(request: FetchRequest) -> u64 {
    match request.1 {
        Some(block) => block,
        None => 0,
    }
}

/// `newest` holds exactly the requested tokens, each with the newest block
/// among its requests.
pub open spec fn is_newest_by_token(
    newest: Map<Address, u64>,
    batch: Seq<FetchRequest>,
) -> bool {
    &&& forall|token: Address| #[trigger]
        newest.dom().contains(token) <==> is_requested(batch, token)
    &&& forall|i: int|
        0 <= i < batch.len() ==> block_or_zero(#[trigger] batch[i]) <= newest[batch[i].0]
    &&& forall|token: Address| #[trigger]
        newest.dom().contains(token) ==> exists|i: int|
            0 <= i < batch.len() && (#[trigger] batch[i]).0 == token && block_or_zero(batch[i])
                == newest[token]
}

/// The newest block of all, or the latest if there is none but zero.
pub open spec fn is_batch_block(newest: Map<Address, u64>, id: BlockId) -> bool {
    match id {
        BlockId::Number(n) => {
            &&& n > 0
            &&& forall|token: Address| #[trigger]
                newest.dom().contains(token) ==> newest[token] <= n
            &&& exists|token: Address| #[trigger] newest.dom().contains(token) && newest[token]
                == n
        },
        BlockId::Latest => forall|token: Address| #[trigger]
            newest.dom().contains(token) ==> newest[token] == 0,
    }
}

pub struct CallsQueue;

impl CallsQueue {
    pub fn fold_batch_vec_to_token_map(batch: &Vec<FetchRequest>) -> (newest: TokenMap)
        ensures
            newest.wf(),
            is_newest_by_token(newest@, batch@),
    {
        let mut newest: TokenMap = AddressMap::new();
        let mut i: usize = 0;
        while i < batch.len()
            invariant
                i <= batch@.len(),
                newest.wf(),
                is_newest_by_token(newest@, batch@.take(i as int)),
            decreases batch@.len() - i,
        {
            let (token, wanted) = batch[i];
            let ghost before = newest@;
            let ghost shorter = batch@.take(i as int);
            let ghost longer = batch@.take(i + 1);
            let block: u64 = match wanted {
                Some(block) => block,
                None => 0,
            };
            let saved: Option<u64> = match newest.get(&token) {
                Some(known) => Some(*known),
                None => None,
            };
            let kept: u64 = match saved {
                Some(known) => if known < block {
                    block
                } else {
                    known
                },
                None => block,
            };
            newest.insert(token, kept);
            proof {
                assert(longer =~= shorter.push((token, wanted)));
                assert(longer[i as int] == (token, wanted));
                assert forall|j: int| 0 <= j < i implies #[trigger] longer[j] == shorter[j] by {}
                assert forall|t: Address| #[trigger] newest@.dom().contains(t) <==> is_requested(
                    longer,
                    t,
                ) by {
                    if is_requested(shorter, t) {
                        let k = choose|k: int|
                            0 <= k < shorter.len() && (#[trigger] shorter[k]).0 == t;
                        assert(longer[k].0 == t);
                    }
                    if is_requested(longer, t) && t != token {
                        let k = choose|k: int|
                            0 <= k < longer.len() && (#[trigger] longer[k]).0 == t;
                        assert(shorter[k].0 == t);
                    }
                }
                assert forall|j: int| 0 <= j < longer.len() implies block_or_zero(
                    #[trigger] longer[j],
                ) <= newest@[longer[j].0] by {
                    if j < i {
                        assert(longer[j] == shorter[j]);
                        assert(is_requested(shorter, shorter[j].0));
                        assert(before.dom().contains(shorter[j].0));
                    }
                }
                assert forall|t: Address| #[trigger] newest@.dom().contains(t) implies exists|j: int|
                    0 <= j < longer.len() && (#[trigger] longer[j]).0 == t && block_or_zero(
                        longer[j],
                    ) == newest@[t] by {
                    if t == token && kept == block {
                        assert(longer[i as int].0 == t);
                    } else {
                        assert(before.dom().contains(t));
                        let k = choose|k: int|
                            0 <= k < shorter.len() && (#[trigger] shorter[k]).0 == t
                                && block_or_zero(shorter[k]) == before[t];
                        assert(longer[k] == shorter[k]);
                    }
                }
            }
            i = i + 1;
        }
        assert(batch@.take(i as int) =~= batch@);
        newest
    }

    /// The tokens of a batch and the block it is read at.
    pub fn plan_batch(newest: &TokenMap) -> (plan: (Vec<Address>, BlockId))
        requires
            newest.wf(),
        ensures
            plan.0@.no_duplicates(),
            forall|token: Address| #[trigger]
                plan.0@.contains(token) <==> newest@.dom().contains(token),
            is_batch_block(newest@, plan.1),
    {
        let entries = newest.entries();
        let mut tokens: Vec<Address> = Vec::new();
        let mut latest_block: u64 = 0;
        let mut i: usize = 0;
        while i < entries.len()
            invariant
                i <= entries@.len(),
                distinct_keys(entries@),
                map_of(entries@) == newest@,
                tokens@.len() == i,
                forall|j: int| 0 <= j < i ==> #[trigger] tokens@[j] == entries@[j].0,
                forall|j: int| 0 <= j < i ==> (#[trigger] entries@[j]).1 <= latest_block,
                latest_block > 0 ==> exists|j: int|
                    0 <= j < i && (#[trigger] entries@[j]).1 == latest_block,
            decreases entries@.len() - i,
        {
            let (token, block) = entries[i];
            tokens.push(token);
            if block > latest_block {
                latest_block = block;
                assert(entries@[i as int].1 == latest_block);
            }
            i = i + 1;
        }
        proof {
            assert forall|token: Address| #[trigger] tokens@.contains(
                token,
            ) <==> newest@.dom().contains(token) by {
                if tokens@.contains(token) {
                    let j = choose|j: int| 0 <= j < tokens@.len() && tokens@[j] == token;
                    lemma_map_of_entry(entries@, j);
                }
                if newest@.dom().contains(token) {
                    let j = key_index(entries@, token);
                    assert(tokens@[j] == token);
                }
            }
            assert forall|a: int, b: int|
                0 <= a < tokens@.len() && 0 <= b < tokens@.len() && a != b implies tokens@[a]
                != tokens@[b] by {
                assert(entries@[a].0 != entries@[b].0);
            }
            assert forall|token: Address| #[trigger] newest@.dom().contains(token) implies newest@[
                token] <= latest_block by {
                assert(has_key(entries@, token));
                let j = key_index(entries@, token);
                lemma_map_of_entry(entries@, j);
            }
        }
        if latest_block == 0 {
            (tokens, BlockId::Latest)
        } else {
            proof {
                let j = choose|j: int|
                    0 <= j < entries@.len() && (#[trigger] entries@[j]).1 == latest_block;
                lemma_map_of_entry(entries@, j);
                assert(newest@.dom().contains(entries@[j].0));
            }
            (tokens, BlockId::Number(latest_block))
        }
    }

    /// Reports what a batch came to.
    pub fn report(outcome: Result<BalancesWithBlock, ServiceError>) -> (message: QueueMessage)
        ensures
            message == (match outcome {
                Ok(balances) => QueueMessage::Success(balances),
                Err(error) => QueueMessage::Error(error),
            }),
    {
        match outcome {
            Ok(balances) => QueueMessage::Success(balances),
            Err(error) => QueueMessage::Error(error),
        }
    }
}

/// A token is asked for if and only if some request of the batch is for it, and
/// at the highest block that its requests name, one without a block counting
/// for zero.
pub proof fn law_token_has_its_highest_block(
    batch: Seq<FetchRequest>,
    newest: Map<Address, u64>,
    token: Address,
)
    requires
        is_newest_by_token(newest, batch),
    ensures
        newest.dom().contains(token) <==> exists|i: int|
            0 <= i < batch.len() && (#[trigger] batch[i]).0 == token,
        newest.dom().contains(token) ==> batch.contains((token, Some(newest[token]))) || (
        newest[token] == 0 && batch.contains((token, None::<u64>))),
        forall|i: int|
            0 <= i < batch.len() && (#[trigger] batch[i]).0 == token && batch[i].1 is Some
                ==> batch[i].1->0 <= newest[token],
{
    if newest.dom().contains(token) {
        let i = choose|i: int|
            0 <= i < batch.len() && (#[trigger] batch[i]).0 == token && block_or_zero(batch[i])
                == newest[token];
        assert(batch[i] == (token, batch[i].1));
        assert(batch.contains(batch[i]));
    }
    assert forall|i: int|
        0 <= i < batch.len() && (#[trigger] batch[i]).0 == token && batch[i].1 is Some implies batch[
        i].1->0 <= newest[token] by {
        assert(block_or_zero(batch[i]) == batch[i].1->0);
    }
}

/// A batch is read at block `n` if and only if `n` is the highest block that a
/// request names and it is not zero. Else it is read at the latest block.
pub proof fn law_batch_has_the_highest_block(
    batch: Seq<FetchRequest>,
    newest: Map<Address, u64>,
    id: BlockId,
    n: u64,
)
    requires
        is_newest_by_token(newest, batch),
        is_batch_block(newest, id),
    ensures
        id == BlockId::Number(n) <==> {
            &&& n > 0
            &&& exists|i: int| 0 <= i < batch.len() && (#[trigger] batch[i]).1 == Some(n)
            &&& forall|i: int|
                0 <= i < batch.len() && (#[trigger] batch[i]).1 is Some ==> batch[i].1->0 <= n
        },
{
    assert forall|i: int| 0 <= i < batch.len() implies newest.dom().contains(
        (#[trigger] batch[i]).0,
    ) by {
        assert(is_requested(batch, batch[i].0));
    }
    if id == BlockId::Number(n) {
        let token = choose|token: Address| #[trigger]
            newest.dom().contains(token) && newest[token] == n;
        let k = choose|k: int|
            0 <= k < batch.len() && (#[trigger] batch[k]).0 == token && block_or_zero(batch[k])
                == newest[token];
        assert(batch[k].1 == Some(n));
        assert forall|i: int| 0 <= i < batch.len() && (#[trigger] batch[i]).1 is Some implies batch[
        i].1->0 <= n by {
            assert(block_or_zero(batch[i]) <= newest[batch[i].0]);
        }
    }
    if n > 0 && (exists|i: int| 0 <= i < batch.len() && (#[trigger] batch[i]).1 == Some(n)) && (
    forall|i: int|
        0 <= i < batch.len() && (#[trigger] batch[i]).1 is Some ==> batch[i].1->0 <= n) {
        let k = choose|k: int| 0 <= k < batch.len() && (#[trigger] batch[k]).1 == Some(n);
        assert(block_or_zero(batch[k]) <= newest[batch[k].0]);
        assert(newest.dom().contains(batch[k].0));
        assert forall|other: Address| #[trigger] newest.dom().contains(other) implies newest[other]
            <= n by {
            let i = choose|i: int|
                0 <= i < batch.len() && (#[trigger] batch[i]).0 == other && block_or_zero(batch[i])
                    == newest[other];
        }
    }
}

} // verus!
