//! Gathers requests to refresh the balances of one wallet into batches.
//!
//! Every event on the chain makes one token's balance stale. Requests that
//! come close together are answered by one read: each token once, at a block
//! no older than any of the events.
use crate::collections::address_map::AddressMap;
use crate::collections::keyed::{
    distinct_keys, has_key, key_index, lemma_map_of_entry, map_of,
};
use crate::domain::primitives::{Address, BlockId};
use vstd::prelude::*;

verus! {

/// A token whose balance is stale, and the block of the event that says so.
/// Without a block the latest state is wanted.
pub type FetchRequest = (Address, Option<u64>);

/// Tokens and the block each is wanted at.
pub type LatestBlockByToken = AddressMap<Option<u64>>;

pub open spec fn is_requested(batch: Seq<FetchRequest>, token: Address) -> bool {
    exists|i: int| 0 <= i < batch.len() && (#[trigger] batch[i]).0 == token
}

/// Some request for `token` names no block.
pub open spec fn is_unpinned(batch: Seq<FetchRequest>, token: Address) -> bool {
    exists|i: int| 0 <= i < batch.len() && #[trigger] batch[i] == (token, None::<u64>)
}

/// `blocks` holds exactly the requested tokens, each with no block if some
/// request names none, else with the highest block that was requested.
pub open spec fn coalesces(
    blocks: Map<Address, Option<u64>>,
    batch: Seq<FetchRequest>,
) -> bool {
    &&& forall|token: Address| #[trigger]
        blocks.dom().contains(token) <==> is_requested(batch, token)
    &&& forall|token: Address| #[trigger]
        blocks.dom().contains(token) ==> (blocks[token] is None <==> is_unpinned(batch, token))
    &&& forall|token: Address| #[trigger]
        blocks.dom().contains(token) && blocks[token] is Some ==> batch.contains(
            (token, blocks[token]),
        )
    &&& forall|i: int|
        #![trigger batch[i]]
        0 <= i < batch.len() && batch[i].1 is Some && blocks[batch[i].0] is Some
            ==> batch[i].1->0 <= blocks[batch[i].0]->0
}

/// The block of a batch: the highest one, or the latest if some token is not
/// pinned or no block is known.
pub open spec fn resolves_to(blocks: Map<Address, Option<u64>>, id: BlockId) -> bool {
    match id {
        BlockId::Number(n) => {
            &&& n > 0
            &&& forall|token: Address| #[trigger]
                blocks.dom().contains(token) ==> blocks[token] is Some && blocks[token]->0 <= n
            &&& exists|token: Address| #[trigger]
                blocks.dom().contains(token) && blocks[token] == Some(n)
        },
        BlockId::Latest => {
            ||| exists|token: Address| #[trigger]
                blocks.dom().contains(token) && blocks[token] is None
            ||| forall|token: Address| #[trigger]
                blocks.dom().contains(token) ==> blocks[token] == Some(0u64)
        },
    }
}

pub struct BalanceRefreshQueue;

impl BalanceRefreshQueue {
    /// Collapses the requests of one batch: each token once.
    pub fn coalesce_by_token(batch: &Vec<FetchRequest>) -> (blocks: LatestBlockByToken)
        ensures
            blocks.wf(),
            coalesces(blocks@, batch@),
    {
        let mut blocks: LatestBlockByToken = AddressMap::new();
        let mut i: usize = 0;
        while i < batch.len()
            invariant
                i <= batch@.len(),
                blocks.wf(),
                coalesces(blocks@, batch@.take(i as int)),
            decreases batch@.len() - i,
        {
            let (token, wanted) = batch[i];
            let ghost before = blocks@;
            let ghost shorter = batch@.take(i as int);
            let ghost longer = batch@.take(i + 1);
            let saved: Option<Option<u64>> = match blocks.get(&token) {
                Some(block) => Some(*block),
                None => None,
            };
            let block: Option<u64> = match saved {
                None => wanted,
                Some(known) => match (known, wanted) {
                    (Some(a), Some(b)) => if a < b {
                        Some(b)
                    } else {
                        Some(a)
                    },
                    _ => None,
                },
            };
            blocks.insert(token, block);
            proof {
                assert(longer =~= shorter.push((token, wanted)));
                assert(longer[i as int] == (token, wanted));
                assert forall|t: Address| is_requested(longer, t) == (t == token || is_requested(
                    shorter,
                    t,
                )) by {
                    lemma_push_requested(shorter, (token, wanted), t);
                }
                assert forall|t: Address| is_unpinned(longer, t) == (is_unpinned(shorter, t) || (t
                    == token && wanted is None)) by {
                    lemma_push_requested(shorter, (token, wanted), t);
                }
                assert forall|t: Address| #[trigger]
                    blocks@.dom().contains(t) && blocks@[t] is Some implies longer.contains(
                    (t, blocks@[t]),
                ) by {
                    if t == token {
                        if block == wanted {
                            assert(longer[i as int] == (t, blocks@[t]));
                        } else {
                            assert(shorter.contains((t, before[t])));
                            let k = choose|k: int|
                                0 <= k < shorter.len() && shorter[k] == (t, before[t]);
                            assert(longer[k] == (t, blocks@[t]));
                        }
                    } else {
                        assert(shorter.contains((t, before[t])));
                        let k = choose|k: int|
                            0 <= k < shorter.len() && shorter[k] == (t, before[t]);
                        assert(longer[k] == (t, blocks@[t]));
                    }
                }
                assert forall|j: int|
                    #![trigger longer[j]]
                    0 <= j < longer.len() && longer[j].1 is Some && blocks@[longer[j].0]
                        is Some implies longer[j].1->0 <= blocks@[longer[j].0]->0 by {
                    if j < i {
                        assert(longer[j] == shorter[j]);
                        assert(is_requested(shorter, shorter[j].0));
                        assert(before.dom().contains(shorter[j].0));
                    }
                }
            }
            i = i + 1;
        }
        assert(batch@.take(i as int) =~= batch@);
        blocks
    }

    /// The block at which a batch is read.
    pub fn resolve_block_id(blocks: &LatestBlockByToken) -> (id: BlockId)
        requires
            blocks.wf(),
        ensures
            resolves_to(blocks@, id),
    {
        let entries = blocks.entries();
        let mut highest: u64 = 0;
        let mut i: usize = 0;
        while i < entries.len()
            invariant
                i <= entries@.len(),
                distinct_keys(entries@),
                map_of(entries@) == blocks@,
                forall|j: int|
                    0 <= j < i ==> (#[trigger] entries@[j]).1 is Some && entries@[j].1->0
                        <= highest,
                highest > 0 ==> exists|j: int|
                    0 <= j < i && (#[trigger] entries@[j]).1 == Some(highest),
            decreases entries@.len() - i,
        {
            match entries[i].1 {
                Some(block) => {
                    if block > highest {
                        highest = block;
                        assert(entries@[i as int].1 == Some(highest));
                    }
                },
                None => {
                    proof {
                        lemma_map_of_entry(entries@, i as int);
                    }
                    assert(blocks@.dom().contains(entries@[i as int].0));
                    return BlockId::Latest;
                },
            }
            i = i + 1;
        }
        proof {
            assert forall|token: Address| #[trigger] blocks@.dom().contains(token) implies blocks@[
                token] is Some && blocks@[token]->0 <= highest by {
                assert(has_key(entries@, token));
                let j = key_index(entries@, token);
                lemma_map_of_entry(entries@, j);
            }
        }
        if highest > 0 {
            proof {
                let j = choose|j: int|
                    0 <= j < entries@.len() && (#[trigger] entries@[j]).1 == Some(highest);
                lemma_map_of_entry(entries@, j);
                assert(blocks@.dom().contains(entries@[j].0));
            }
            BlockId::Number(highest)
        } else {
            BlockId::Latest
        }
    }

    /// What one batch reads: its tokens, each once, and the block.
    pub fn plan_batch(batch: &Vec<FetchRequest>) -> (plan: (Vec<Address>, BlockId))
        ensures
            plan.0@.no_duplicates(),
            forall|token: Address| #[trigger]
                plan.0@.contains(token) <==> is_requested(batch@, token),
            exists|blocks: Map<Address, Option<u64>>|
                #![trigger coalesces(blocks, batch@)]
                coalesces(blocks, batch@) && resolves_to(blocks, plan.1),
    {
        let blocks = Self::coalesce_by_token(batch);
        let entries = blocks.entries();
        let mut tokens: Vec<Address> = Vec::new();
        let mut i: usize = 0;
        while i < entries.len()
            invariant
                i <= entries@.len(),
                distinct_keys(entries@),
                map_of(entries@) == blocks@,
                tokens@.len() == i,
                forall|j: int| 0 <= j < i ==> #[trigger] tokens@[j] == entries@[j].0,
            decreases entries@.len() - i,
        {
            tokens.push(entries[i].0);
            i = i + 1;
        }
        proof {
            assert forall|token: Address| #[trigger] tokens@.contains(token) <==> is_requested(
                batch@,
                token,
            ) by {
                if tokens@.contains(token) {
                    let j = choose|j: int| 0 <= j < tokens@.len() && tokens@[j] == token;
                    lemma_map_of_entry(entries@, j);
                    assert(blocks@.dom().contains(token));
                }
                if is_requested(batch@, token) {
                    assert(blocks@.dom().contains(token));
                    let j = key_index(entries@, token);
                    assert(tokens@[j] == token);
                }
            }
            assert forall|a: int, b: int|
                0 <= a < tokens@.len() && 0 <= b < tokens@.len() && a != b implies tokens@[a]
                != tokens@[b] by {
                assert(entries@[a].0 != entries@[b].0);
            }
        }
        let id = Self::resolve_block_id(&blocks);
        assert(coalesces(blocks@, batch@) && resolves_to(blocks@, id));
        (tokens, id)
    }
}

proof fn lemma_push_requested(batch: Seq<FetchRequest>, request: FetchRequest, token: Address)
    ensures
        is_requested(batch.push(request), token) == (token == request.0 || is_requested(
            batch,
            token,
        )),
        is_unpinned(batch.push(request), token) == (request == (token, None::<u64>)
            || is_unpinned(batch, token)),
{
    let longer = batch.push(request);
    assert(longer[batch.len() as int] == request);
    if is_requested(batch, token) {
        let i = choose|i: int| 0 <= i < batch.len() && (#[trigger] batch[i]).0 == token;
        assert(longer[i] == batch[i]);
    }
    if is_requested(longer, token) && token != request.0 {
        let i = choose|i: int| 0 <= i < longer.len() && (#[trigger] longer[i]).0 == token;
        assert(batch[i] == longer[i]);
    }
    if is_unpinned(batch, token) {
        let i = choose|i: int|
            0 <= i < batch.len() && #[trigger] batch[i] == (token, None::<u64>);
        assert(longer[i] == batch[i]);
    }
    if is_unpinned(longer, token) && request != (token, None::<u64>) {
        let i = choose|i: int|
            0 <= i < longer.len() && #[trigger] longer[i] == (token, None::<u64>);
        assert(batch[i] == longer[i]);
    }
}

/// The order and repetition of requests do not matter: batches that hold the
/// same requests coalesce to the same blocks.
pub proof fn law_order_of_requests_does_not_matter(
    first: Map<Address, Option<u64>>,
    second: Map<Address, Option<u64>>,
    a: Seq<FetchRequest>,
    b: Seq<FetchRequest>,
)
    requires
        coalesces(first, a),
        coalesces(second, b),
        forall|request: FetchRequest| a.contains(request) <==> b.contains(request),
    ensures
        first == second,
{
    assert forall|token: Address| is_requested(a, token) == is_requested(b, token) by {
        lemma_same_requests(a, b, token);
        lemma_same_requests(b, a, token);
    }
    assert forall|token: Address| is_unpinned(a, token) == is_unpinned(b, token) by {
        lemma_same_requests(a, b, token);
        lemma_same_requests(b, a, token);
    }
    assert(first.dom() =~= second.dom());
    assert forall|token: Address| #[trigger] first.dom().contains(token) implies first[token]
        == second[token] by {
        assert(second.dom().contains(token));
        if first[token] is Some {
            lemma_highest(first, a, second, b, token);
            lemma_highest(second, b, first, a, token);
        }
    }
    assert(first =~= second);
}

proof fn lemma_same_requests(a: Seq<FetchRequest>, b: Seq<FetchRequest>, token: Address)
    requires
        forall|request: FetchRequest| a.contains(request) <==> b.contains(request),
    ensures
        is_requested(a, token) ==> is_requested(b, token),
        is_unpinned(a, token) ==> is_unpinned(b, token),
{
    if is_requested(a, token) {
        let i = choose|i: int| 0 <= i < a.len() && (#[trigger] a[i]).0 == token;
        assert(a.contains(a[i]));
        let j = choose|j: int| 0 <= j < b.len() && b[j] == a[i];
        assert(b[j].0 == token);
    }
    if is_unpinned(a, token) {
        let i = choose|i: int| 0 <= i < a.len() && #[trigger] a[i] == (token, None::<u64>);
        assert(a.contains(a[i]));
        let j = choose|j: int| 0 <= j < b.len() && b[j] == a[i];
        assert(b[j] == (token, None::<u64>));
    }
}

proof fn lemma_highest(
    first: Map<Address, Option<u64>>,
    a: Seq<FetchRequest>,
    second: Map<Address, Option<u64>>,
    b: Seq<FetchRequest>,
    token: Address,
)
    requires
        coalesces(first, a),
        coalesces(second, b),
        forall|request: FetchRequest| a.contains(request) <==> b.contains(request),
        first.dom().contains(token),
        second.dom().contains(token),
        first[token] is Some,
        second[token] is Some,
    ensures
        first[token]->0 <= second[token]->0,
{
    assert(a.contains((token, first[token])));
    assert(b.contains((token, first[token])));
    let j = choose|j: int| 0 <= j < b.len() && b[j] == (token, first[token]);
    assert(b[j].0 == token);
}

/// A batch has one block.
pub proof fn law_block_of_a_batch_is_unique(
    blocks: Map<Address, Option<u64>>,
    a: BlockId,
    b: BlockId,
)
    requires
        resolves_to(blocks, a),
        resolves_to(blocks, b),
    ensures
        a == b,
{
}

/// A batch that is read at a given block is read no earlier than any event
/// that asked for it.
pub proof fn law_read_is_not_older_than_its_events(
    batch: Seq<FetchRequest>,
    blocks: Map<Address, Option<u64>>,
    n: u64,
    i: int,
)
    requires
        coalesces(blocks, batch),
        resolves_to(blocks, BlockId::Number(n)),
        0 <= i < batch.len(),
    ensures
        batch[i].1 is Some,
        batch[i].1->0 <= n,
{
    let token = batch[i].0;
    assert(is_requested(batch, token));
    assert(blocks.dom().contains(token));
    if batch[i].1 is None {
        assert(batch[i] == (token, None::<u64>));
        assert(is_unpinned(batch, token));
    }
}

/// A token is asked for if and only if some request of the batch is for it. It
/// is wanted at the latest block if and only if one of its requests names none;
/// else at the highest block that they name.
pub proof fn law_token_is_wanted_at_its_highest_block(
    batch: Seq<FetchRequest>,
    blocks: Map<Address, Option<u64>>,
    token: Address,
)
    requires
        coalesces(blocks, batch),
    ensures
        is_requested(batch, token) <==> batch.map_values(
            |request: FetchRequest| request.0,
        ).contains(token),
        blocks.dom().contains(token) <==> batch.map_values(
            |request: FetchRequest| request.0,
        ).contains(token),
        blocks.dom().contains(token) ==> (blocks[token] is None <==> batch.contains(
            (token, None::<u64>),
        )),
        blocks.dom().contains(token) && blocks[token] is Some ==> batch.contains(
            (token, blocks[token]),
        ) && forall|i: int|
            0 <= i < batch.len() && (#[trigger] batch[i]).0 == token ==> batch[i].1->0
                <= blocks[token]->0,
{
    let tokens = batch.map_values(|request: FetchRequest| request.0);
    if tokens.contains(token) {
        let i = choose|i: int| 0 <= i < tokens.len() && tokens[i] == token;
        assert(batch[i].0 == token);
    }
    if is_requested(batch, token) {
        let i = choose|i: int| 0 <= i < batch.len() && (#[trigger] batch[i]).0 == token;
        assert(tokens[i] == token);
    }
    if batch.contains((token, None::<u64>)) {
        let i = choose|i: int| 0 <= i < batch.len() && batch[i] == (token, None::<u64>);
        assert(is_unpinned(batch, token));
    }
    if is_unpinned(batch, token) {
        assert(batch.contains((token, None::<u64>)));
    }
    if blocks.dom().contains(token) && blocks[token] is Some {
        assert forall|i: int| 0 <= i < batch.len() && (#[trigger] batch[i]).0
            == token implies batch[i].1->0 <= blocks[token]->0 by {
            if batch[i].1 is None {
                assert(batch[i] == (token, None::<u64>));
            }
        }
    }
}

/// A batch is read at block `n` if and only if every request names a block, `n`
/// is the highest of them and it is not zero. Else it is read at the latest
/// block.
pub proof fn law_batch_is_read_at_the_highest_block(
    batch: Seq<FetchRequest>,
    blocks: Map<Address, Option<u64>>,
    id: BlockId,
    n: u64,
)
    requires
        coalesces(blocks, batch),
        resolves_to(blocks, id),
    ensures
        id == BlockId::Number(n) <==> {
            &&& n > 0
            &&& exists|i: int| 0 <= i < batch.len() && (#[trigger] batch[i]).1 == Some(n)
            &&& forall|i: int|
                0 <= i < batch.len() ==> (#[trigger] batch[i]).1 is Some && batch[i].1->0 <= n
        },
{
    if id == BlockId::Number(n) {
        let token = choose|token: Address| #[trigger]
            blocks.dom().contains(token) && blocks[token] == Some(n);
        assert(batch.contains((token, Some(n))));
        let k = choose|k: int| 0 <= k < batch.len() && batch[k] == (token, Some(n));
        assert(batch[k].1 == Some(n));
        assert forall|i: int| 0 <= i < batch.len() implies (#[trigger] batch[i]).1 is Some
            && batch[i].1->0 <= n by {
            law_read_is_not_older_than_its_events(batch, blocks, n, i);
        }
    }
    if n > 0 && (exists|i: int| 0 <= i < batch.len() && (#[trigger] batch[i]).1 == Some(n)) && (
    forall|i: int|
        0 <= i < batch.len() ==> (#[trigger] batch[i]).1 is Some && batch[i].1->0 <= n) {
        let k = choose|k: int| 0 <= k < batch.len() && (#[trigger] batch[k]).1 == Some(n);
        let token = batch[k].0;
        assert(is_requested(batch, token));
        assert(blocks.dom().contains(token));
        assert forall|other: Address| #[trigger] blocks.dom().contains(other) implies blocks[other]
            is Some && blocks[other]->0 <= n by {
            if is_unpinned(batch, other) {
                let i = choose|i: int|
                    0 <= i < batch.len() && #[trigger] batch[i] == (other, None::<u64>);
                assert(batch[i].1 is None);
            }
            assert(batch.contains((other, blocks[other])));
            let i = choose|i: int| 0 <= i < batch.len() && batch[i] == (other, blocks[other]);
            assert(batch[i].1 == blocks[other]);
        }
        assert(blocks[token] == Some(n));
    }
}

} // verus!
