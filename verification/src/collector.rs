//! The index of the sync-event collector: the addresses to subscribe to and
//! the pool behind each address, from which a decoded sync log becomes an
//! event.
use vstd::prelude::*;
use crate::uint::U256;
use crate::types::{Address, Pool, Event, same_address};

verus! {

/// The last pool of `pools` at `address`, as a map filled in order would hold
/// it; `None` when no pool is there.
pub open spec fn last_pool_at(pools: Seq<Pool>, address: Seq<u8>) -> Option<Pool>
    decreases pools.len(),
{
    if pools.len() == 0 {
        None
    } else if pools.last().address@ == address {
        Some(pools.last())
    } else {
        last_pool_at(pools.drop_last(), address)
    }
}

/// `pools[k]` is the last pool of `pools` at `address`.
pub open spec fn last_at(pools: Seq<Pool>, k: int, address: Seq<u8>) -> bool {
    &&& 0 <= k < pools.len()
    &&& pools[k].address@ == address
    &&& forall|j: int| k < j < pools.len() ==> (#[trigger] pools[j]).address@ != address
}

/// A lookup finds the last pool configured at the address, and nothing where
/// no pool is configured.
pub proof fn lemma_last_pool_at(pools: Seq<Pool>, address: Seq<u8>)
    ensures
        forall|k: int| #[trigger] last_at(pools, k, address) ==> last_pool_at(pools, address) == Some(
            pools[k],
        ),
        (forall|k: int| 0 <= k < pools.len() ==> (#[trigger] pools[k]).address@ != address)
            ==> last_pool_at(pools, address) is None,
        last_pool_at(pools, address) is Some ==> exists|k: int| #[trigger] last_at(pools, k, address),
    decreases pools.len(),
{
    if pools.len() > 0 {
        let prefix = pools.drop_last();
        lemma_last_pool_at(prefix, address);
        let n = pools.len() - 1;
        assert forall|k: int| #[trigger] last_at(pools, k, address) implies last_pool_at(
            pools,
            address,
        ) == Some(pools[k]) by {
            if k < n {
                assert(pools[n].address@ != address);
                assert(last_at(prefix, k, address));
            }
        }
        if (forall|k: int| 0 <= k < pools.len() ==> (#[trigger] pools[k]).address@ != address) {
            assert(pools[n].address@ != address);
            assert forall|k: int| 0 <= k < prefix.len() implies (#[trigger] prefix[k]).address@
                != address by {
                assert(prefix[k] == pools[k]);
            }
        }
        if last_pool_at(pools, address) is Some {
            if pools[n].address@ == address {
                assert(last_at(pools, n, address));
            } else {
                let k = choose|k: int| #[trigger] last_at(prefix, k, address);
                assert(prefix[k] == pools[k]);
                assert forall|j: int| k < j < pools.len() implies (#[trigger] pools[j]).address@
                    != address by {
                    if j < n {
                        assert(prefix[j] == pools[j]);
                    }
                }
                assert(last_at(pools, k, address));
            }
        }
    }
}

/// The addresses of `pools`, in order.
pub open spec fn addresses_of(pools: Seq<Pool>) -> Seq<Address> {
    pools.map_values(|p: Pool| p.address)
}

/// What the collector knows of its pools.
pub struct V2SyncCollector {
    pool_addresses: Vec<Address>,
    pool_map: Vec<Pool>,
}

impl V2SyncCollector {
    /// The addresses subscribed to, in configuration order.
    pub closed spec fn addresses(self) -> Seq<Address> {
        self.pool_addresses@
    }

    /// The configured pools, in order.
    pub closed spec fn pools(self) -> Seq<Pool> {
        self.pool_map@
    }

    /// The index of `pools`: their addresses in order, and each address's pool
    /// (the last one configured there).
    pub fn new(pools: &[Pool]) -> (r: V2SyncCollector)
        ensures
            r.addresses() == addresses_of(pools@),
            r.pools() == pools@,
    {
        let mut pool_addresses: Vec<Address> = Vec::new();
        let mut pool_map: Vec<Pool> = Vec::new();
        let mut i: usize = 0;
        while i < pools.len()
            invariant
                i <= pools@.len(),
                pool_addresses@ == addresses_of(pools@.take(i as int)),
                pool_map@ == pools@.take(i as int),
            decreases pools@.len() - i,
        {
            let address = pools[i].address;
            pool_addresses.push(address);
            pool_map.push(pools[i].clone());
            proof {
                assert(pools@.take(i + 1) =~= pools@.take(i as int).push(pools@[i as int]));
                assert(addresses_of(pools@.take(i + 1)) =~= addresses_of(pools@.take(i as int)).push(
                    address,
                ));
            }
            i = i + 1;
        }
        proof {
            assert(pools@.take(pools@.len() as int) =~= pools@);
        }
        V2SyncCollector { pool_addresses, pool_map }
    }

    /// The addresses to subscribe to.
    pub fn pool_addresses(&self) -> (r: &Vec<Address>)
        ensures
            r@ == self.addresses(),
    {
        &self.pool_addresses
    }

    /// The pool at `address`, if one is configured there.
    pub fn pool_at(&self, address: &Address) -> (r: Option<Pool>)
        ensures
            r == last_pool_at(self.pools(), address@),
            forall|k: int| #[trigger] last_at(self.pools(), k, address@) ==> r == Some(self.pools()[k]),
            (forall|k: int| 0 <= k < self.pools().len() ==> (#[trigger] self.pools()[k]).address@ != address@)
                ==> r is None,
            r matches Some(p) ==> p.address@ == address@,
    {
        proof {
            lemma_last_pool_at(self.pools(), address@);
        }
        let mut i: usize = self.pool_map.len();
        assert(self.pool_map@.take(i as int) =~= self.pool_map@);
        while i > 0
            invariant
                i <= self.pool_map@.len(),
                last_pool_at(self.pool_map@, address@) == last_pool_at(
                    self.pool_map@.take(i as int),
                    address@,
                ),
            decreases i,
        {
            proof {
                assert(self.pool_map@.take(i as int).drop_last() =~= self.pool_map@.take(i - 1));
            }
            if same_address(&self.pool_map[i - 1].address, address) {
                proof {
                    lemma_last_pool_at(self.pools(), address@);
                }
                return Some(self.pool_map[i - 1].clone());
            }
            i = i - 1;
        }
        None
    }

    /// The event for a sync log of `log_address` whose decoded reserves are
    /// `reserve0` and `reserve1`; `None` when no pool is configured there.
    pub fn event_for_log(&self, log_address: &Address, reserve0: U256, reserve1: U256) -> (r: Option<
        Event,
    >)
        ensures
            match r {
                Some(Event::PoolSync { pool, reserve0: r0, reserve1: r1 }) => last_pool_at(
                    self.pools(),
                    log_address@,
                ) == Some(pool) && r0 == reserve0 && r1 == reserve1,
                None => last_pool_at(self.pools(), log_address@) is None,
            },
            forall|k: int| #[trigger] last_at(self.pools(), k, log_address@) ==> (r matches Some(
                Event::PoolSync { pool, reserve0: r0, reserve1: r1 },
            ) && pool == self.pools()[k] && r0 == reserve0 && r1 == reserve1),
            (forall|k: int|
                0 <= k < self.pools().len() ==> (#[trigger] self.pools()[k]).address@
                    != log_address@) ==> r is None,
    {
        let pool = self.pool_at(log_address)?;
        Some(Event::PoolSync { pool, reserve0, reserve1 })
    }
}

/// How many blocks back the start-up sanity check looks for sync logs.
pub const SYNC_LOOKBACK_BLOCKS: u64 = 6;

/// The block range `(from, to)` of the start-up sanity check for chain tip
/// `tip`: the last [`SYNC_LOOKBACK_BLOCKS`] blocks, clipped at block zero.
pub fn sync_lookback_range(tip: u64) -> (r: (u64, u64))
    ensures
        r.1 == tip,
        r.0 == if tip >= SYNC_LOOKBACK_BLOCKS {
            (tip - SYNC_LOOKBACK_BLOCKS) as u64
        } else {
            0
        },
{
    (tip.saturating_sub(SYNC_LOOKBACK_BLOCKS), tip)
}

} // verus!
