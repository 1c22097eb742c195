//! Shares connections between log listeners: a listener joins a connection
//! with room, and a new one is opened only where there is none.
use crate::collections::keyed::{
    distinct_keys, key_index, lemma_map_of_entry, lemma_map_of_len, lemma_map_of_push,
    lemma_map_of_remove, lemma_map_of_update, map_of,
};
use crate::config::back_off_config::{get_ws_subscription_backoff, BackoffPolicy};
use crate::text::joined;
use vstd::prelude::*;
use vstd::string::*;

verus! {

#[derive(Debug)]
pub enum WsPoolError {
    InitProvider(String),
    FailedToAcquireConnectionPool(String),
    WsSubscriptionExhausted,
    SubscribeSemaphoreClosed,
}

impl WsPoolError {
    pub open spec fn message(self) -> Seq<char> {
        match self {
            WsPoolError::InitProvider(e) => "failed to init WS provider: "@ + e@,
            WsPoolError::FailedToAcquireConnectionPool(e) =>
                "failed to acquire WS connection pool: "@ + e@,
            WsPoolError::WsSubscriptionExhausted => "WS subscription is exhausted with retries"@,
            WsPoolError::SubscribeSemaphoreClosed => "WS subscribe semaphore is closed"@,
        }
    }

    pub fn to_text(&self) -> (text: String)
        ensures
            text@ == self.message(),
    {
        match self {
            WsPoolError::InitProvider(e) => joined("failed to init WS provider: ", e.as_str()),
            WsPoolError::FailedToAcquireConnectionPool(e) => joined(
                "failed to acquire WS connection pool: ",
                e.as_str(),
            ),
            WsPoolError::WsSubscriptionExhausted => String::from_str(
                "WS subscription is exhausted with retries",
            ),
            WsPoolError::SubscribeSemaphoreClosed => String::from_str(
                "WS subscribe semaphore is closed",
            ),
        }
    }
}

/// What became of a connection when a listener left it.
#[derive(Clone, Copy, Debug, PartialEq, Eq, Structural)]
pub enum Released {
    /// There is no such connection any more.
    Unknown,
    /// Others still use it.
    Kept,
    /// Nobody does; it is to be closed.
    Closed,
}

/// The pool after a listener joined the connection, which is opened if it is
/// not there.
pub open spec fn after_join(pool: Map<u128, usize>, id: u128) -> Map<u128, usize> {
    pool.insert(
        id,
        if pool.dom().contains(id) {
            (pool[id] + 1) as usize
        } else {
            1
        },
    )
}

/// The pool after a listener left the connection, which goes with its last
/// listener. Leaving one that is gone changes nothing.
pub open spec fn after_leave(pool: Map<u128, usize>, id: u128) -> Map<u128, usize> {
    if !pool.dom().contains(id) {
        pool
    } else if pool[id] <= 1 {
        pool.remove(id)
    } else {
        pool.insert(id, (pool[id] - 1) as usize)
    }
}

/// Connections by id, with how many listeners share each.
#[derive(Debug)]
pub struct WsConnectionPool {
    connections: Vec<(u128, usize)>,
    max_clients_per_connection: usize,
}

impl View for WsConnectionPool {
    type V = Map<u128, usize>;

    closed spec fn view(&self) -> Map<u128, usize> {
        map_of(self.connections@)
    }
}

impl WsConnectionPool {
    /// How many listeners may share a connection.
    pub closed spec fn capacity(&self) -> usize {
        self.max_clients_per_connection
    }

    /// Every connection is used, and by no more listeners than may share it;
    /// one that was opened for a listener is used by it in any case.
    pub closed spec fn wf(&self) -> bool {
        &&& distinct_keys(self.connections@)
        &&& forall|i: int|
            0 <= i < self.connections@.len() ==> 1 <= (#[trigger] self.connections@[i]).1 && (
            self.connections@[i].1 <= self.max_clients_per_connection || self.connections@[i].1 == 1)
    }

    pub fn new(max_clients_per_connection: usize) -> (pool: WsConnectionPool)
        ensures
            pool.wf(),
            pool.capacity() == max_clients_per_connection,
            pool@ == Map::<u128, usize>::empty(),
    {
        let pool = WsConnectionPool { connections: Vec::new(), max_clients_per_connection };
        assert(pool@ =~= Map::<u128, usize>::empty());
        pool
    }

    /// How many connections are open.
    pub fn len(&self) -> (n: usize)
        requires
            self.wf(),
        ensures
            n == self@.dom().len(),
            self@.dom().finite(),
    {
        proof {
            lemma_map_of_len(self.connections@);
        }
        self.connections.len()
    }

    /// Joins a connection with room, if there is one.
    pub fn acquire(&mut self) -> (joined: Option<u128>)
        requires
            old(self).wf(),
        ensures
            final(self).wf(),
            final(self).capacity() == old(self).capacity(),
            match joined {
                Some(id) => {
                    &&& old(self)@.dom().contains(id)
                    &&& old(self)@[id] < old(self).capacity()
                    &&& final(self)@ == after_join(old(self)@, id)
                },
                None => {
                    &&& final(self)@ == old(self)@
                    &&& forall|id: u128| #[trigger]
                        old(self)@.dom().contains(id) ==> old(self)@[id] >= old(self).capacity()
                },
            },
    {
        let mut i: usize = 0;
        while i < self.connections.len()
            invariant
                i <= self.connections@.len(),
                *self == *old(self),
                self.wf(),
                forall|j: int|
                    0 <= j < i ==> (#[trigger] self.connections@[j]).1
                        >= self.max_clients_per_connection,
            decreases self.connections@.len() - i,
        {
            let (id, clients) = self.connections[i];
            if clients < self.max_clients_per_connection {
                proof {
                    lemma_map_of_entry(self.connections@, i as int);
                    lemma_map_of_update(self.connections@, i as int, (clients + 1) as usize);
                }
                self.connections.set(i, (id, clients + 1));
                return Some(id);
            }
            i = i + 1;
        }
        proof {
            assert forall|id: u128| #[trigger] old(self)@.dom().contains(id) implies old(self)@[id]
                >= old(self).capacity() by {
                let k = key_index(self.connections@, id);
                lemma_map_of_entry(self.connections@, k);
            }
        }
        None
    }

    /// A connection was opened for a listener.
    pub fn add_connection(&mut self, id: u128)
        requires
            old(self).wf(),
            !old(self)@.dom().contains(id),
        ensures
            final(self).wf(),
            final(self).capacity() == old(self).capacity(),
            final(self)@ == after_join(old(self)@, id),
    {
        proof {
            lemma_map_of_push(self.connections@, id, 1usize);
        }
        self.connections.push((id, 1));
    }

    /// A listener left its connection.
    pub fn release(&mut self, id: u128) -> (released: Released)
        requires
            old(self).wf(),
        ensures
            final(self).wf(),
            final(self).capacity() == old(self).capacity(),
            final(self)@ == after_leave(old(self)@, id),
            released == if !old(self)@.dom().contains(id) {
                Released::Unknown
            } else if old(self)@[id] <= 1 {
                Released::Closed
            } else {
                Released::Kept
            },
    {
        let mut i: usize = 0;
        while i < self.connections.len()
            invariant
                i <= self.connections@.len(),
                *self == *old(self),
                self.wf(),
                forall|j: int| 0 <= j < i ==> (#[trigger] self.connections@[j]).0 != id,
            decreases self.connections@.len() - i,
        {
            let (known, clients) = self.connections[i];
            if known == id {
                proof {
                    lemma_map_of_entry(self.connections@, i as int);
                }
                let left: usize = clients.saturating_sub(1);
                if left == 0 {
                    proof {
                        lemma_map_of_remove(self.connections@, i as int);
                    }
                    let _ = self.connections.remove(i);
                    return Released::Closed;
                }
                proof {
                    lemma_map_of_update(self.connections@, i as int, left);
                }
                self.connections.set(i, (id, left));
                return Released::Kept;
            }
            i = i + 1;
        }
        Released::Unknown
    }

    pub fn create_ws_sub_backoff() -> (policy: BackoffPolicy)
        ensures
            policy == (BackoffPolicy {
                min_delay_millis: 1_000,
                max_delay_millis: 5_000,
                max_times: 5,
                jitter: true,
            }),
    {
        get_ws_subscription_backoff()
    }
}

/// In every state of the pool each connection has a listener, and never more
/// than may share it, unless it was opened for a single one.
pub proof fn law_connections_are_used_within_capacity(pool: WsConnectionPool, id: u128)
    requires
        pool.wf(),
        pool@.dom().contains(id),
    ensures
        pool@[id] >= 1,
        pool@[id] <= pool.capacity() || pool@[id] == 1,
{
    let k = key_index(pool.connections@, id);
    lemma_map_of_entry(pool.connections@, k);
}

/// Leaving undoes joining: a connection that was joined is as it was, and one
/// that was opened is gone.
pub proof fn law_release_undoes_acquire(pool: Map<u128, usize>, id: u128)
    requires
        pool.dom().contains(id) ==> 1 <= pool[id] < usize::MAX,
    ensures
        after_leave(after_join(pool, id), id) == pool,
{
    assert(after_leave(after_join(pool, id), id) =~= pool);
}

/// A listener that joins is counted on its connection, one that leaves is no
/// longer, and the last one takes the connection with it. Other connections are
/// not touched.
pub proof fn law_listeners_are_counted_one_by_one(
    pool: Map<u128, usize>,
    id: u128,
    other: u128,
)
    requires
        other != id,
    ensures
        after_join(pool, id).dom() == pool.dom().insert(id),
        !pool.dom().contains(id) ==> after_join(pool, id)[id] == 1,
        pool.dom().contains(id) && pool[id] < usize::MAX ==> after_join(pool, id)[id] == pool[id]
            + 1,
        pool.dom().contains(other) ==> after_join(pool, id)[other] == pool[other],
        after_leave(pool, id).dom().contains(id) <==> pool.dom().contains(id) && pool[id] > 1,
        pool.dom().contains(id) && pool[id] > 1 ==> after_leave(pool, id)[id] == pool[id] - 1,
        after_leave(pool, id).dom().contains(other) <==> pool.dom().contains(other),
        pool.dom().contains(other) ==> after_leave(pool, id)[other] == pool[other],
{
    assert(after_join(pool, id).dom() =~= pool.dom().insert(id));
}

} // verus!
