//! The arbitrage strategy: a book of pool reserve states, kept current from
//! sync events, and the search for profitable two-pool round trips each time
//! a pool's reserves change.
use vstd::prelude::*;
use vstd::arithmetic::div_mod::lemma_small_mod;
use crate::uint::{U256, is_zero, zero_word, word_modulus};
use crate::math::{get_optimial_arbitrage_amount, optimal_amount, reserve_bound,
    lemma_optimal_amount_small_reserves, lemma_one_direction_at_most, overpriced,
    closed_form_size, constant_product_out};
use crate::profit::{calculate_net_profit, net_profit, lemma_round_trip_defined,
    lemma_net_profit_constant_product};
use crate::types::{
    Address, Pool, PoolState, Event, Action, ActionView, action_views, same_token, same_address,
    tokens_equal,
};

verus! {

/// The round trip "sell A on `pool_a`, buy it back on `pool_b`" with reserves
/// `(r1_a, r1_b)` on `pool_a` and `(r2_a, r2_b)` on `pool_b`, as a proposal
/// when it has a trade size and that size pays after gas; empty otherwise.
#[verifier::opaque]
pub open spec fn direction_actions(
    pool_a: Pool,
    pool_b: Pool,
    r1_a: nat,
    r1_b: nat,
    r2_a: nat,
    r2_b: nat,
    estimated_gas_used: nat,
    base_fee_per_gas: nat,
) -> Seq<ActionView> {
    match optimal_amount(r1_a, r1_b, r2_a, r2_b) {
        Some(amount_in) => match net_profit(
            amount_in,
            r1_a,
            r1_b,
            r2_a,
            r2_b,
            estimated_gas_used,
            base_fee_per_gas,
        ) {
            Some(profit) => seq![
                ActionView::SubmitArbBundle {
                    pool_a,
                    pool_b,
                    amount_in,
                    expected_profit: profit,
                },
            ],
            None => seq![],
        },
        None => seq![],
    }
}

/// The reserves of `current` and `other` as `(r1_a, r1_b, r2_a, r2_b)`, with
/// A the token0 of `current`, when the two pools trade the same pair of
/// tokens (in either order); `None` otherwise.
pub open spec fn oriented_reserves(current: PoolState, other: PoolState) -> Option<(nat, nat, nat, nat)> {
    if same_token(current.pool.token0, other.pool.token0) && same_token(
        current.pool.token1,
        other.pool.token1,
    ) {
        Some((current.reserve0@, current.reserve1@, other.reserve0@, other.reserve1@))
    } else if same_token(current.pool.token0, other.pool.token1) && same_token(
        current.pool.token1,
        other.pool.token0,
    ) {
        Some((current.reserve0@, current.reserve1@, other.reserve1@, other.reserve0@))
    } else {
        None
    }
}

/// The proposals for the pair `current`/`other`: first selling A on `current`,
/// then selling A on `other`.
pub open spec fn pair_actions(
    current: PoolState,
    other: PoolState,
    estimated_gas_used: nat,
    base_fee_per_gas: nat,
) -> Seq<ActionView> {
    match oriented_reserves(current, other) {
        Some((r1_a, r1_b, r2_a, r2_b)) => direction_actions(
            current.pool,
            other.pool,
            r1_a,
            r1_b,
            r2_a,
            r2_b,
            estimated_gas_used,
            base_fee_per_gas,
        ) + direction_actions(
            other.pool,
            current.pool,
            r2_a,
            r2_b,
            r1_a,
            r1_b,
            estimated_gas_used,
            base_fee_per_gas,
        ),
        None => seq![],
    }
}

/// The proposals of `current` against each pool of `others` in turn, skipping
/// the pool at `updated` and pools with an empty reserve.
pub open spec fn opportunities(
    others: Seq<PoolState>,
    current: PoolState,
    updated: Seq<u8>,
    estimated_gas_used: nat,
    base_fee_per_gas: nat,
) -> Seq<ActionView>
    decreases others.len(),
{
    if others.len() == 0 {
        seq![]
    } else {
        let before = opportunities(
            others.drop_last(),
            current,
            updated,
            estimated_gas_used,
            base_fee_per_gas,
        );
        let other = others.last();
        if other.pool.address@ == updated || other.reserve0@ == 0 || other.reserve1@ == 0 {
            before
        } else {
            before + pair_actions(current, other, estimated_gas_used, base_fee_per_gas)
        }
    }
}

/// Some state of `pools` is at `address`.
pub open spec fn has_pool(pools: Seq<PoolState>, address: Seq<u8>) -> bool {
    exists|i: int| 0 <= i < pools.len() && #[trigger] pools[i].pool.address@ == address
}

/// The state of `pools` at `address` (meaningful when `has_pool`).
pub open spec fn pool_at(pools: Seq<PoolState>, address: Seq<u8>) -> PoolState {
    pools[choose|i: int| 0 <= i < pools.len() && #[trigger] pools[i].pool.address@ == address]
}

/// No two states of `pools` share an address.
pub open spec fn unique_addresses(pools: Seq<PoolState>) -> bool {
    forall|i: int, j: int|
        0 <= i < pools.len() && 0 <= j < pools.len() && i != j ==> #[trigger] pools[i].pool.address@
            != #[trigger] pools[j].pool.address@
}

/// Every reserve fits in 112 bits, as Uniswap V2 pairs keep them.
pub open spec fn reserves_bounded(pools: Seq<PoolState>) -> bool {
    forall|i: int|
        0 <= i < pools.len() ==> #[trigger] pools[i].reserve0@ < reserve_bound()
            && pools[i].reserve1@ < reserve_bound()
}

/// What `evaluation_opportunities` proposes after a change at `updated`:
/// nothing when no pool is there or it has an empty reserve, else the
/// proposals of that pool against every other pool in book order.
pub open spec fn evaluation(
    pools: Seq<PoolState>,
    updated: Seq<u8>,
    estimated_gas_used: nat,
    base_fee_per_gas: nat,
) -> Seq<ActionView> {
    if !has_pool(pools, updated) {
        seq![]
    } else {
        let current = pool_at(pools, updated);
        if current.reserve0@ == 0 || current.reserve1@ == 0 {
            seq![]
        } else {
            opportunities(pools, current, updated, estimated_gas_used, base_fee_per_gas)
        }
    }
}

/// `state` with its reserves replaced.
pub open spec fn with_reserves(state: PoolState, reserve0: U256, reserve1: U256) -> PoolState {
    PoolState { pool: state.pool, reserve0, reserve1 }
}

/// The book after a sync event for `address`: the state at that address, if
/// any, takes the new reserves; every other state is unchanged.
pub open spec fn apply_sync(pools: Seq<PoolState>, address: Seq<u8>, reserve0: U256, reserve1: U256) -> Seq<
    PoolState,
> {
    pools.map_values(
        |s: PoolState|
            if s.pool.address@ == address {
                with_reserves(s, reserve0, reserve1)
            } else {
                s
            },
    )
}

/// The position of the state at `address` (meaningful when `has_pool`).
pub open spec fn pool_index(pools: Seq<PoolState>, address: Seq<u8>) -> int {
    choose|i: int| 0 <= i < pools.len() && #[trigger] pools[i].pool.address@ == address
}

/// The book after recording `state`: it replaces the state at its address,
/// or is appended when the book has none there.
pub open spec fn insert_state(pools: Seq<PoolState>, state: PoolState) -> Seq<PoolState> {
    if has_pool(pools, state.pool.address@) {
        pools.update(pool_index(pools, state.pool.address@), state)
    } else {
        pools.push(state)
    }
}

/// The state recorded for `pool` from the reserves fetched for it: those
/// reserves, or zero reserves when they could not be fetched.
pub open spec fn fetched_state(pool: Pool, fetched: Option<(U256, U256)>) -> PoolState {
    match fetched {
        Some((reserve0, reserve1)) => PoolState { pool, reserve0, reserve1 },
        None => PoolState {
            pool,
            reserve0: zero_word(),
            reserve1: zero_word(),
        },
    }
}

/// The book after recording, in order, the state fetched for each pool.
pub open spec fn synced_book(
    book: Seq<PoolState>,
    pools: Seq<Pool>,
    fetched: Seq<Option<(U256, U256)>>,
) -> Seq<PoolState>
    decreases pools.len(),
{
    if pools.len() == 0 || fetched.len() == 0 {
        book
    } else {
        insert_state(
            synced_book(book, pools.drop_last(), fetched.drop_last()),
            fetched_state(pools.last(), fetched.last()),
        )
    }
}

/// Fetched reserves fit in 112 bits.
pub open spec fn fetched_bounded(fetched: Seq<Option<(U256, U256)>>) -> bool {
    forall|i: int|
        0 <= i < fetched.len() && #[trigger] fetched[i] is Some ==> fetched[i].unwrap().0@
            < reserve_bound() && fetched[i].unwrap().1@ < reserve_bound()
}

/// Two pools trade the same pair of tokens, in either order.
pub open spec fn same_pair(p: Pool, q: Pool) -> bool {
    (same_token(p.token0, q.token0) && same_token(p.token1, q.token1)) || (same_token(
        p.token0,
        q.token1,
    ) && same_token(p.token1, q.token0))
}

/// A well-formed proposal after a change at `updated`: an arbitrage between
/// two pools that trade the same pair, exactly one of them at `updated`, with
/// a positive size and a positive expected profit.
pub open spec fn sound_proposal(a: ActionView, updated: Seq<u8>) -> bool {
    match a {
        ActionView::SubmitArbBundle { pool_a, pool_b, amount_in, expected_profit } => {
            &&& pool_a.address@ != pool_b.address@
            &&& (pool_a.address@ == updated || pool_b.address@ == updated)
            &&& same_pair(pool_a, pool_b)
            &&& amount_in > 0
            &&& expected_profit > 0
        },
        ActionView::NoOp => false,
    }
}

/// The strategy: the configured pools, the book of their reserve states (one
/// per address), and the gas a bundle is expected to use.
pub struct ArbitrageStrategy {
    initial_pools: Vec<Pool>,
    pools: Vec<PoolState>,
    estimated_gas_used: U256,
}

/// Appends the proposal, if any, of the round trip "sell A on `pool_a`, buy it
/// back on `pool_b`".
fn push_direction(
    actions: &mut Vec<Action>,
    pool_a: &Pool,
    pool_b: &Pool,
    r1_a: U256,
    r1_b: U256,
    r2_a: U256,
    r2_b: U256,
    estimated_gas_used: U256,
    base_fee_per_gas: U256,
)
    requires
        r1_a@ < reserve_bound(),
        r1_b@ < reserve_bound(),
        r2_a@ < reserve_bound(),
        r2_b@ < reserve_bound(),
    ensures
        action_views(final(actions)@) == action_views(old(actions)@) + direction_actions(
            *pool_a,
            *pool_b,
            r1_a@,
            r1_b@,
            r2_a@,
            r2_b@,
            estimated_gas_used@,
            base_fee_per_gas@,
        ),
{
    proof {
        reveal(direction_actions);
    }
    if let Some(amount_in) = get_optimial_arbitrage_amount(r1_a, r1_b, r2_a, r2_b) {
        proof {
            lemma_optimal_amount_small_reserves(r1_a@, r1_b@, r2_a@, r2_b@);
            lemma_round_trip_defined(amount_in@, r1_a@, r1_b@, r2_a@, r2_b@);
        }
        if let Some(net_profit) = calculate_net_profit(
            amount_in,
            r1_a,
            r1_b,
            r2_a,
            r2_b,
            estimated_gas_used,
            base_fee_per_gas,
        ) {
            actions.push(
                Action::SubmitArbBundle {
                    pool_a: pool_a.clone(),
                    pool_b: pool_b.clone(),
                    amount_in,
                    expected_profit: net_profit,
                },
            );
            proof {
                assert(action_views(actions@) =~= action_views(old(actions)@) + direction_actions(
                    *pool_a,
                    *pool_b,
                    r1_a@,
                    r1_b@,
                    r2_a@,
                    r2_b@,
                    estimated_gas_used@,
                    base_fee_per_gas@,
                ));
            }
            return ;
        }
    }
    assert(action_views(actions@) =~= action_views(old(actions)@) + direction_actions(
        *pool_a,
        *pool_b,
        r1_a@,
        r1_b@,
        r2_a@,
        r2_b@,
        estimated_gas_used@,
        base_fee_per_gas@,
    ));
}

impl ArbitrageStrategy {
    /// The configured pools.
    pub closed spec fn initial(self) -> Seq<Pool> {
        self.initial_pools@
    }

    /// The book of reserve states.
    pub closed spec fn book(self) -> Seq<PoolState> {
        self.pools@
    }

    /// The gas a bundle is expected to use.
    pub closed spec fn gas(self) -> nat {
        self.estimated_gas_used@
    }

    /// The book holds one state per address, each with reserves in 112 bits.
    pub open spec fn wf(self) -> bool {
        unique_addresses(self.book()) && reserves_bounded(self.book())
    }

    /// A strategy over `pools` with an empty book and an expected gas use of
    /// 140 000.
    pub fn new(pools: Vec<Pool>) -> (r: ArbitrageStrategy)
        ensures
            r.wf(),
            r.initial() == pools@,
            r.book() == Seq::<PoolState>::empty(),
            r.gas() == 140_000,
    {
        ArbitrageStrategy { initial_pools: pools, pools: Vec::new(), estimated_gas_used: U256::from_u64(140_000) }
    }

    /// The configured pools.
    pub fn initial_pools(&self) -> (r: &Vec<Pool>)
        ensures
            r@ == self.initial(),
    {
        &self.initial_pools
    }

    /// The book of reserve states.
    pub fn pool_states(&self) -> (r: &Vec<PoolState>)
        ensures
            r@ == self.book(),
    {
        &self.pools
    }

    /// Proposals for the pool at `updated_address` against every other pool of
    /// the book trading the same pair, after a change of its reserves; see
    /// [`evaluation`].
    pub fn evaluation_opportunities(&self, updated_address: Address, base_fee_per_gas: U256) -> (r:
        Vec<Action>)
        requires
            self.wf(),
        ensures
            action_views(r@) == evaluation(
                self.book(),
                updated_address@,
                self.gas(),
                base_fee_per_gas@,
            ),
    {
        let mut actions: Vec<Action> = Vec::new();
        let idx = match self.find(&updated_address) {
            Some(i) => i,
            None => {
                assert(action_views(actions@) =~= seq![]);
                return actions;
            },
        };
        let current_state = &self.pools[idx];
        if is_zero(&current_state.reserve0) || is_zero(&current_state.reserve1) {
            assert(action_views(actions@) =~= seq![]);
            return actions;
        }
        proof {
            assert(current_state.reserve0@ < reserve_bound() && current_state.reserve1@
                < reserve_bound());
        }
        let ghost pools = self.pools@;
        let ghost gas = self.estimated_gas_used@;
        let mut j: usize = 0;
        while j < self.pools.len()
            invariant
                pools == self.pools@,
                gas == self.estimated_gas_used@,
                j <= pools.len(),
                reserves_bounded(pools),
                *current_state == pool_at(pools, updated_address@),
                current_state.reserve0@ < reserve_bound(),
                current_state.reserve1@ < reserve_bound(),
                action_views(actions@) == opportunities(
                    pools.take(j as int),
                    *current_state,
                    updated_address@,
                    gas,
                    base_fee_per_gas@,
                ),
            decreases pools.len() - j,
        {
            let other_state = &self.pools[j];
            proof {
                assert(pools.take(j + 1).drop_last() =~= pools.take(j as int));
                assert(pools.take(j + 1).last() == pools[j as int]);
                assert(other_state.reserve0@ < reserve_bound() && other_state.reserve1@
                    < reserve_bound());
            }
            if same_address(&other_state.pool.address, &updated_address) || is_zero(
                &other_state.reserve0,
            ) || is_zero(&other_state.reserve1) {
                j = j + 1;
                continue ;
            }
            let ghost before = action_views(actions@);
            let cur = &current_state.pool;
            let oth = &other_state.pool;
            if tokens_equal(&cur.token0, &oth.token0) && tokens_equal(&cur.token1, &oth.token1) {
                push_direction(
                    &mut actions,
                    cur,
                    oth,
                    current_state.reserve0,
                    current_state.reserve1,
                    other_state.reserve0,
                    other_state.reserve1,
                    self.estimated_gas_used,
                    base_fee_per_gas,
                );
                push_direction(
                    &mut actions,
                    oth,
                    cur,
                    other_state.reserve0,
                    other_state.reserve1,
                    current_state.reserve0,
                    current_state.reserve1,
                    self.estimated_gas_used,
                    base_fee_per_gas,
                );
            } else if tokens_equal(&cur.token0, &oth.token1) && tokens_equal(&cur.token1, &oth.token0) {
                push_direction(
                    &mut actions,
                    cur,
                    oth,
                    current_state.reserve0,
                    current_state.reserve1,
                    other_state.reserve1,
                    other_state.reserve0,
                    self.estimated_gas_used,
                    base_fee_per_gas,
                );
                push_direction(
                    &mut actions,
                    oth,
                    cur,
                    other_state.reserve1,
                    other_state.reserve0,
                    current_state.reserve0,
                    current_state.reserve1,
                    self.estimated_gas_used,
                    base_fee_per_gas,
                );
            }
            proof {
                assert(action_views(actions@) =~= before + pair_actions(
                    *current_state,
                    *other_state,
                    gas,
                    base_fee_per_gas@,
                ));
            }
            j = j + 1;
        }
        proof {
            assert(pools.take(pools.len() as int) =~= pools);
        }
        actions
    }

    /// Records `state` in the book; see [`insert_state`].
    fn record(&mut self, state: PoolState)
        requires
            old(self).wf(),
            state.reserve0@ < reserve_bound(),
            state.reserve1@ < reserve_bound(),
        ensures
            final(self).wf(),
            final(self).book() == insert_state(old(self).book(), state),
            final(self).initial() == old(self).initial(),
            final(self).gas() == old(self).gas(),
    {
        match self.find(&state.pool.address) {
            Some(i) => {
                proof {
                    let c = pool_index(self.pools@, state.pool.address@);
                    assert(0 <= c < self.pools@.len() && self.pools@[c].pool.address@
                        == state.pool.address@);
                    assert(self.pools@[i as int].pool.address@ == state.pool.address@);
                }
                self.pools.set(i, state);
            },
            None => {
                self.pools.push(state);
            },
        }
    }

    /// Records the reserves fetched for each configured pool, in order
    /// (`None` where they could not be fetched, which records zero reserves).
    pub fn sync_state(&mut self, fetched: &Vec<Option<(U256, U256)>>)
        requires
            old(self).wf(),
            fetched@.len() == old(self).initial().len(),
            fetched_bounded(fetched@),
        ensures
            final(self).wf(),
            final(self).book() == synced_book(old(self).book(), old(self).initial(), fetched@),
            final(self).initial() == old(self).initial(),
            final(self).gas() == old(self).gas(),
    {
        let ghost book0 = self.pools@;
        let ghost initial = self.initial_pools@;
        let mut i: usize = 0;
        while i < self.initial_pools.len()
            invariant
                self.wf(),
                initial == self.initial_pools@,
                self.gas() == old(self).gas(),
                book0 == old(self).book(),
                initial == old(self).initial(),
                fetched@.len() == initial.len(),
                fetched_bounded(fetched@),
                i <= initial.len(),
                self.pools@ == synced_book(book0, initial.take(i as int), fetched@.take(i as int)),
            decreases initial.len() - i,
        {
            let pool = self.initial_pools[i].clone();
            let state = match fetched[i] {
                Some((reserve0, reserve1)) => PoolState { pool, reserve0, reserve1 },
                None => PoolState { pool, reserve0: U256::zero(), reserve1: U256::zero() },
            };
            proof {
                assert(fetched@[i as int] is Some ==> fetched@[i as int].unwrap().0@ < reserve_bound());
                assert(initial.take(i + 1).drop_last() =~= initial.take(i as int));
                assert(fetched@.take(i + 1).drop_last() =~= fetched@.take(i as int));
                assert(state == fetched_state(initial[i as int], fetched@[i as int]));
            }
            self.record(state);
            i = i + 1;
        }
        proof {
            assert(initial.take(initial.len() as int) =~= initial);
            assert(fetched@.take(initial.len() as int) =~= fetched@);
        }
    }

    /// Applies a sync event to the book and returns the proposals it opens;
    /// see [`apply_sync`] and [`evaluation`].
    pub fn process_event(&mut self, event: Event, base_fee_per_gas: U256) -> (r: Vec<Action>)
        requires
            old(self).wf(),
            match event {
                Event::PoolSync { reserve0, reserve1, .. } => reserve0@ < reserve_bound()
                    && reserve1@ < reserve_bound(),
            },
        ensures
            final(self).wf(),
            final(self).initial() == old(self).initial(),
            final(self).gas() == old(self).gas(),
            match event {
                Event::PoolSync { pool, reserve0, reserve1 } => {
                    &&& final(self).book() == apply_sync(
                        old(self).book(),
                        pool.address@,
                        reserve0,
                        reserve1,
                    )
                    &&& final(self).book().len() == old(self).book().len()
                    &&& forall|i: int|
                        0 <= i < old(self).book().len() ==> {
                            let before = #[trigger] old(self).book()[i];
                            let after = final(self).book()[i];
                            if before.pool.address@ == pool.address@ {
                                &&& after.pool == before.pool
                                &&& after.reserve0 == reserve0
                                &&& after.reserve1 == reserve1
                            } else {
                                after == before
                            }
                        }
                    &&& action_views(r@) == evaluation(
                        final(self).book(),
                        pool.address@,
                        final(self).gas(),
                        base_fee_per_gas@,
                    )
                },
            },
    {
        match event {
            Event::PoolSync { pool, reserve0, reserve1 } => {
                let ghost old_pools = self.pools@;
                match self.find(&pool.address) {
                    Some(i) => {
                        let updated = PoolState {
                            pool: self.pools[i].pool.clone(),
                            reserve0,
                            reserve1,
                        };
                        self.pools.set(i, updated);
                        proof {
                            assert(self.pools@ =~= apply_sync(
                                old_pools,
                                pool.address@,
                                reserve0,
                                reserve1,
                            ));
                        }
                    },
                    None => {
                        proof {
                            assert(self.pools@ =~= apply_sync(
                                old_pools,
                                pool.address@,
                                reserve0,
                                reserve1,
                            ));
                        }
                    },
                }
                self.evaluation_opportunities(pool.address, base_fee_per_gas)
            },
        }
    }

    /// The position of the state at `address` in the book.
    fn find(&self, address: &Address) -> (r: Option<usize>)
        requires
            unique_addresses(self.book()),
        ensures
            match r {
                Some(i) => i < self.book().len() && self.book()[i as int].pool.address@ == address@
                    && has_pool(self.book(), address@) && pool_at(self.book(), address@)
                    == self.book()[i as int],
                None => !has_pool(self.book(), address@),
            },
    {
        let mut i: usize = 0;
        while i < self.pools.len()
            invariant
                i <= self.pools@.len(),
                unique_addresses(self.pools@),
                forall|j: int| 0 <= j < i ==> #[trigger] self.pools@[j].pool.address@ != address@,
            decreases self.pools@.len() - i,
        {
            if same_address(&self.pools[i].pool.address, address) {
                proof {
                    assert(self.pools@[i as int].pool.address@ == address@);
                    assert(has_pool(self.pools@, address@));
                    let c = choose|j: int|
                        0 <= j < self.pools@.len() && #[trigger] self.pools@[j].pool.address@
                            == address@;
                }
                return Some(i);
            }
            i = i + 1;
        }
        None
    }
}

proof fn lemma_direction_sound(
    pool_a: Pool,
    pool_b: Pool,
    r1_a: nat,
    r1_b: nat,
    r2_a: nat,
    r2_b: nat,
    gas: nat,
    fee: nat,
    updated: Seq<u8>,
)
    requires
        pool_a.address@ != pool_b.address@,
        pool_a.address@ == updated || pool_b.address@ == updated,
        same_pair(pool_a, pool_b),
    ensures
        forall|i: int|
            0 <= i < direction_actions(pool_a, pool_b, r1_a, r1_b, r2_a, r2_b, gas, fee).len()
                ==> sound_proposal(
                #[trigger] direction_actions(pool_a, pool_b, r1_a, r1_b, r2_a, r2_b, gas, fee)[i],
                updated,
            ),
{
    reveal(direction_actions);
}

/// Every proposal of the strategy after a change at `updated` is an arbitrage
/// between two distinct pools trading the same pair, one of them the updated
/// pool, with a positive size and a positive expected profit.
pub proof fn lemma_evaluation_sound(
    pools: Seq<PoolState>,
    updated: Seq<u8>,
    estimated_gas_used: nat,
    base_fee_per_gas: nat,
)
    ensures
        forall|i: int|
            0 <= i < evaluation(pools, updated, estimated_gas_used, base_fee_per_gas).len()
                ==> sound_proposal(
                #[trigger] evaluation(pools, updated, estimated_gas_used, base_fee_per_gas)[i],
                updated,
            ),
{
    if has_pool(pools, updated) {
        let current = pool_at(pools, updated);
        lemma_opportunities_sound(pools, current, updated, estimated_gas_used, base_fee_per_gas);
    }
}

proof fn lemma_opportunities_sound(
    others: Seq<PoolState>,
    current: PoolState,
    updated: Seq<u8>,
    gas: nat,
    fee: nat,
)
    requires
        current.pool.address@ == updated,
    ensures
        forall|i: int|
            0 <= i < opportunities(others, current, updated, gas, fee).len() ==> sound_proposal(
                #[trigger] opportunities(others, current, updated, gas, fee)[i],
                updated,
            ),
    decreases others.len(),
{
    if others.len() > 0 {
        lemma_opportunities_sound(others.drop_last(), current, updated, gas, fee);
        let before = opportunities(others.drop_last(), current, updated, gas, fee);
        let other = others.last();
        if !(other.pool.address@ == updated || other.reserve0@ == 0 || other.reserve1@ == 0) {
            match oriented_reserves(current, other) {
                Some((r1_a, r1_b, r2_a, r2_b)) => {
                    assert(same_pair(current.pool, other.pool));
                    assert(same_pair(other.pool, current.pool));
                    lemma_direction_sound(
                        current.pool,
                        other.pool,
                        r1_a,
                        r1_b,
                        r2_a,
                        r2_b,
                        gas,
                        fee,
                        updated,
                    );
                    lemma_direction_sound(
                        other.pool,
                        current.pool,
                        r2_a,
                        r2_b,
                        r1_a,
                        r1_b,
                        gas,
                        fee,
                        updated,
                    );
                    let first = direction_actions(
                        current.pool,
                        other.pool,
                        r1_a,
                        r1_b,
                        r2_a,
                        r2_b,
                        gas,
                        fee,
                    );
                    let second = direction_actions(
                        other.pool,
                        current.pool,
                        r2_a,
                        r2_b,
                        r1_a,
                        r1_b,
                        gas,
                        fee,
                    );
                    let all = opportunities(others, current, updated, gas, fee);
                    assert(all == before + (first + second));
                    assert forall|i: int| 0 <= i < all.len() implies sound_proposal(
                        #[trigger] all[i],
                        updated,
                    ) by {
                        if i < before.len() {
                            assert(all[i] == before[i]);
                        } else if i < before.len() + first.len() {
                            assert(all[i] == first[i - before.len()]);
                        } else {
                            assert(all[i] == second[i - before.len() - first.len()]);
                        }
                    }
                },
                None => {},
            }
        }
    }
}

/// With reserves in 112 bits, a pair of pools yields at most one proposal:
/// never both directions of the same round trip.
pub proof fn lemma_pair_at_most_one(
    current: PoolState,
    other: PoolState,
    estimated_gas_used: nat,
    base_fee_per_gas: nat,
)
    requires
        current.reserve0@ < reserve_bound(),
        current.reserve1@ < reserve_bound(),
        other.reserve0@ < reserve_bound(),
        other.reserve1@ < reserve_bound(),
    ensures
        pair_actions(current, other, estimated_gas_used, base_fee_per_gas).len() <= 1,
{
    reveal(direction_actions);
    match oriented_reserves(current, other) {
        Some((r1_a, r1_b, r2_a, r2_b)) => {
            lemma_one_direction_at_most(r1_a, r1_b, r2_a, r2_b);
        },
        None => {},
    }
}

/// A sync event changes the reserves at its address only: the book keeps its
/// length, its pools and their order, the state at the address takes the new
/// reserves, every other state is unchanged, and addresses stay unique.
pub proof fn lemma_apply_sync(
    pools: Seq<PoolState>,
    address: Seq<u8>,
    reserve0: U256,
    reserve1: U256,
)
    requires
        unique_addresses(pools),
    ensures
        apply_sync(pools, address, reserve0, reserve1).len() == pools.len(),
        unique_addresses(apply_sync(pools, address, reserve0, reserve1)),
        forall|i: int|
            0 <= i < pools.len() ==> (#[trigger] apply_sync(pools, address, reserve0, reserve1)[i]).pool
                == pools[i].pool,
        forall|i: int|
            0 <= i < pools.len() && pools[i].pool.address@ != address ==> #[trigger] apply_sync(
                pools,
                address,
                reserve0,
                reserve1,
            )[i] == pools[i],
        forall|i: int|
            0 <= i < pools.len() && pools[i].pool.address@ == address ==> {
                &&& (#[trigger] apply_sync(pools, address, reserve0, reserve1)[i]).reserve0 == reserve0
                &&& apply_sync(pools, address, reserve0, reserve1)[i].reserve1 == reserve1
            },
        has_pool(pools, address) ==> {
            let s = pool_at(apply_sync(pools, address, reserve0, reserve1), address);
            &&& s.pool == pool_at(pools, address).pool
            &&& s.reserve0 == reserve0
            &&& s.reserve1 == reserve1
        },
{
    let after = apply_sync(pools, address, reserve0, reserve1);
    assert forall|i: int, j: int|
        0 <= i < after.len() && 0 <= j < after.len() && i != j implies #[trigger] after[i].pool.address@
        != #[trigger] after[j].pool.address@ by {
        assert(pools[i].pool.address@ != pools[j].pool.address@);
    }
    if has_pool(pools, address) {
        let k = pool_index(pools, address);
        assert(after[k].pool.address@ == address);
        assert(has_pool(after, address));
        let c = pool_index(after, address);
        assert(after[c].pool.address@ == address);
        assert(pools[c].pool.address@ == address);
    }
}

/// After a sync, every configured pool has a state in the book.
pub proof fn lemma_synced_book_covers(
    book: Seq<PoolState>,
    pools: Seq<Pool>,
    fetched: Seq<Option<(U256, U256)>>,
    k: int,
)
    requires
        fetched.len() == pools.len(),
        0 <= k < pools.len(),
    ensures
        has_pool(synced_book(book, pools, fetched), pools[k].address@),
    decreases pools.len(),
{
    let prev = synced_book(book, pools.drop_last(), fetched.drop_last());
    let st = fetched_state(pools.last(), fetched.last());
    if k < pools.len() - 1 {
        lemma_synced_book_covers(book, pools.drop_last(), fetched.drop_last(), k);
        assert(pools.drop_last()[k] == pools[k]);
        lemma_insert_keeps(prev, st, pools[k].address@);
    } else {
        lemma_insert_has(prev, st);
    }
}

proof fn lemma_insert_keeps(pools: Seq<PoolState>, state: PoolState, address: Seq<u8>)
    requires
        has_pool(pools, address),
    ensures
        has_pool(insert_state(pools, state), address),
{
    let i = choose|i: int| 0 <= i < pools.len() && #[trigger] pools[i].pool.address@ == address;
    let after = insert_state(pools, state);
    if has_pool(pools, state.pool.address@) {
        let k = pool_index(pools, state.pool.address@);
        if i == k {
            assert(after[k].pool.address@ == address);
        } else {
            assert(after[i].pool.address@ == address);
        }
    } else {
        assert(after[i].pool.address@ == address);
    }
}

proof fn lemma_insert_has(pools: Seq<PoolState>, state: PoolState)
    ensures
        has_pool(insert_state(pools, state), state.pool.address@),
{
    let after = insert_state(pools, state);
    if has_pool(pools, state.pool.address@) {
        let k = pool_index(pools, state.pool.address@);
        assert(after[k].pool.address@ == state.pool.address@);
    } else {
        assert(after[pools.len() as int].pool.address@ == state.pool.address@);
    }
}

/// `better` proposes the same arbitrage as `worse` (same pools and size) with
/// an expected profit at least as large.
pub open spec fn dominates(better: ActionView, worse: ActionView) -> bool {
    match (better, worse) {
        (
            ActionView::SubmitArbBundle { pool_a: a1, pool_b: b1, amount_in: x1, expected_profit: p1 },
            ActionView::SubmitArbBundle { pool_a: a2, pool_b: b2, amount_in: x2, expected_profit: p2 },
        ) => a1 == a2 && b1 == b2 && x1 == x2 && p1 >= p2,
        _ => false,
    }
}

/// Some proposal of `better` dominates `a`.
pub open spec fn dominated_in(better: Seq<ActionView>, a: ActionView) -> bool {
    exists|j: int| 0 <= j < better.len() && #[trigger] dominates(better[j], a)
}

/// Every proposal of `worse` is dominated by some proposal of `better`.
pub open spec fn covers(better: Seq<ActionView>, worse: Seq<ActionView>) -> bool {
    forall|i: int| 0 <= i < worse.len() ==> dominated_in(better, #[trigger] worse[i])
}

proof fn lemma_covers_concat(b1: Seq<ActionView>, w1: Seq<ActionView>, b2: Seq<ActionView>, w2: Seq<ActionView>)
    requires
        covers(b1, w1),
        covers(b2, w2),
    ensures
        covers(b1 + b2, w1 + w2),
{
    let b = b1 + b2;
    let w = w1 + w2;
    assert forall|i: int| 0 <= i < w.len() implies dominated_in(b, #[trigger] w[i]) by {
        if i < w1.len() {
            assert(w[i] == w1[i]);
            assert(dominated_in(b1, w1[i]));
            let j = choose|j: int| 0 <= j < b1.len() && #[trigger] dominates(b1[j], w1[i]);
            assert(b[j] == b1[j]);
            assert(dominates(b[j], w[i]));
        } else {
            assert(w[i] == w2[i - w1.len()]);
            assert(dominated_in(b2, w2[i - w1.len()]));
            let j = choose|j: int|
                0 <= j < b2.len() && #[trigger] dominates(b2[j], w2[i - w1.len()]);
            assert(b[j + b1.len()] == b2[j]);
            assert(dominates(b[j + b1.len()], w[i]));
        }
    }
    assert(covers(b, w));
}

proof fn lemma_direction_lower_fee(
    pool_a: Pool,
    pool_b: Pool,
    r1_a: nat,
    r1_b: nat,
    r2_a: nat,
    r2_b: nat,
    gas: nat,
    fee_low: nat,
    fee_high: nat,
)
    requires
        fee_low <= fee_high,
        gas * fee_high < word_modulus(),
    ensures
        covers(
            direction_actions(pool_a, pool_b, r1_a, r1_b, r2_a, r2_b, gas, fee_low),
            direction_actions(pool_a, pool_b, r1_a, r1_b, r2_a, r2_b, gas, fee_high),
        ),
{
    reveal(direction_actions);
    assert(gas * fee_low <= gas * fee_high) by (nonlinear_arith)
        requires
            fee_low <= fee_high,
    ;
    lemma_small_mod(gas * fee_low, word_modulus());
    lemma_small_mod(gas * fee_high, word_modulus());
    let low = direction_actions(pool_a, pool_b, r1_a, r1_b, r2_a, r2_b, gas, fee_low);
    let high = direction_actions(pool_a, pool_b, r1_a, r1_b, r2_a, r2_b, gas, fee_high);
    if high.len() > 0 {
        assert(dominates(low[0], high[0]));
        assert(dominated_in(low, high[0]));
    }
}

proof fn lemma_opportunities_lower_fee(
    others: Seq<PoolState>,
    current: PoolState,
    updated: Seq<u8>,
    gas: nat,
    fee_low: nat,
    fee_high: nat,
)
    requires
        fee_low <= fee_high,
        gas * fee_high < word_modulus(),
    ensures
        covers(
            opportunities(others, current, updated, gas, fee_low),
            opportunities(others, current, updated, gas, fee_high),
        ),
    decreases others.len(),
{
    if others.len() == 0 {
    } else {
        lemma_opportunities_lower_fee(others.drop_last(), current, updated, gas, fee_low, fee_high);
        let other = others.last();
        if !(other.pool.address@ == updated || other.reserve0@ == 0 || other.reserve1@ == 0) {
            match oriented_reserves(current, other) {
                Some((r1_a, r1_b, r2_a, r2_b)) => {
                    lemma_direction_lower_fee(
                        current.pool,
                        other.pool,
                        r1_a,
                        r1_b,
                        r2_a,
                        r2_b,
                        gas,
                        fee_low,
                        fee_high,
                    );
                    lemma_direction_lower_fee(
                        other.pool,
                        current.pool,
                        r2_a,
                        r2_b,
                        r1_a,
                        r1_b,
                        gas,
                        fee_low,
                        fee_high,
                    );
                    lemma_covers_concat(
                        direction_actions(current.pool, other.pool, r1_a, r1_b, r2_a, r2_b, gas, fee_low),
                        direction_actions(current.pool, other.pool, r1_a, r1_b, r2_a, r2_b, gas, fee_high),
                        direction_actions(other.pool, current.pool, r2_a, r2_b, r1_a, r1_b, gas, fee_low),
                        direction_actions(other.pool, current.pool, r2_a, r2_b, r1_a, r1_b, gas, fee_high),
                    );
                    lemma_covers_concat(
                        opportunities(others.drop_last(), current, updated, gas, fee_low),
                        opportunities(others.drop_last(), current, updated, gas, fee_high),
                        pair_actions(current, other, gas, fee_low),
                        pair_actions(current, other, gas, fee_high),
                    );
                },
                None => {
                    assert(pair_actions(current, other, gas, fee_low) =~= seq![]);
                    assert(pair_actions(current, other, gas, fee_high) =~= seq![]);
                    assert(opportunities(others, current, updated, gas, fee_low) =~= opportunities(
                        others.drop_last(), current, updated, gas, fee_low) + seq![]);
                    assert(opportunities(others, current, updated, gas, fee_high) =~= opportunities(
                        others.drop_last(), current, updated, gas, fee_high) + seq![]);
                },
            }
        }
    }
}

/// A lower base fee never loses a proposal: when `gas · fee_high` fits in
/// 256 bits and `fee_low <= fee_high`, each proposal made at `fee_high` is
/// also made at `fee_low`, with the same pools and size and an expected profit
/// at least as large.
pub proof fn lemma_lower_fee_keeps_proposals(
    pools: Seq<PoolState>,
    updated: Seq<u8>,
    estimated_gas_used: nat,
    fee_low: nat,
    fee_high: nat,
)
    requires
        fee_low <= fee_high,
        estimated_gas_used * fee_high < word_modulus(),
    ensures
        covers(
            evaluation(pools, updated, estimated_gas_used, fee_low),
            evaluation(pools, updated, estimated_gas_used, fee_high),
        ),
{
    if has_pool(pools, updated) {
        let current = pool_at(pools, updated);
        lemma_opportunities_lower_fee(pools, current, updated, estimated_gas_used, fee_low, fee_high);
    }
}

/// The round trip "sell A on `pool_a` (reserves `r1_a`, `r1_b`), buy it back
/// on `pool_b` (reserves `r2_a`, `r2_b`)" yields at most one proposal, and one
/// exactly when `pool_a` overprices A after fees
/// (`997²·r1_b·r2_a > 10⁶·r1_a·r2_b`) and the closed-form size pays after gas.
/// The proposal sells on `pool_a`, buys back on `pool_b`, has the closed-form
/// size, and (for a size below 2^112) its profit plus gas plus the size is
/// the A the two constant-product swaps return.
pub proof fn lemma_direction_law(
    pool_a: Pool,
    pool_b: Pool,
    r1_a: nat,
    r1_b: nat,
    r2_a: nat,
    r2_b: nat,
    gas: nat,
    fee: nat,
)
    requires
        0 < r1_a < reserve_bound(),
        0 < r1_b < reserve_bound(),
        0 < r2_a < reserve_bound(),
        0 < r2_b < reserve_bound(),
    ensures
        ({
            let d = direction_actions(pool_a, pool_b, r1_a, r1_b, r2_a, r2_b, gas, fee);
            let size = closed_form_size(r1_a, r1_b, r2_a, r2_b);
            &&& d.len() <= 1
            &&& d.len() == 1 <==> (overpriced(r1_a, r1_b, r2_a, r2_b) && net_profit(
                size,
                r1_a,
                r1_b,
                r2_a,
                r2_b,
                gas,
                fee,
            ) is Some)
            &&& d.len() == 1 ==> {
                &&& d[0] is SubmitArbBundle
                &&& d[0]->pool_a == pool_a
                &&& d[0]->pool_b == pool_b
                &&& d[0]->amount_in == size
                &&& size < reserve_bound() ==> d[0]->expected_profit + (gas * fee) % word_modulus()
                    + size == constant_product_out(
                    constant_product_out(size, r1_a, r1_b),
                    r2_b,
                    r2_a,
                )
            }
        }),
{
    reveal(direction_actions);
    lemma_optimal_amount_small_reserves(r1_a, r1_b, r2_a, r2_b);
    let size = closed_form_size(r1_a, r1_b, r2_a, r2_b);
    if size < reserve_bound() {
        lemma_net_profit_constant_product(size, r1_a, r1_b, r2_a, r2_b, gas, fee);
    }
}

/// For two distinct pools trading the same two tokens in the same order, the
/// proposals are those of the two round trips over the pools' raw reserves:
/// first selling token0 on `current` (reserves `(current.reserve0,
/// current.reserve1)` against `(other.reserve0, other.reserve1)`), then
/// selling token0 on `other`; each has the closed-form size over those raw
/// reserves and exists only when its pool overprices token0 after fees.
pub proof fn lemma_same_order_proposals(current: PoolState, other: PoolState, gas: nat, fee: nat)
    requires
        same_token(current.pool.token0, other.pool.token0),
        same_token(current.pool.token1, other.pool.token1),
        0 < current.reserve0@ < reserve_bound(),
        0 < current.reserve1@ < reserve_bound(),
        0 < other.reserve0@ < reserve_bound(),
        0 < other.reserve1@ < reserve_bound(),
    ensures
        ({
            let (c0, c1, o0, o1) = (
                current.reserve0@,
                current.reserve1@,
                other.reserve0@,
                other.reserve1@,
            );
            let ps = pair_actions(current, other, gas, fee);
            &&& ps == direction_actions(current.pool, other.pool, c0, c1, o0, o1, gas, fee)
                + direction_actions(other.pool, current.pool, o0, o1, c0, c1, gas, fee)
            &&& ps.len() <= 2
            &&& forall|i: int|
                0 <= i < ps.len() ==> {
                    &&& (#[trigger] ps[i]) is SubmitArbBundle
                    &&& (ps[i]->pool_a == current.pool && ps[i]->pool_b == other.pool
                        && ps[i]->amount_in == closed_form_size(c0, c1, o0, o1) && overpriced(
                        c0,
                        c1,
                        o0,
                        o1,
                    )) || (ps[i]->pool_a == other.pool && ps[i]->pool_b == current.pool
                        && ps[i]->amount_in == closed_form_size(o0, o1, c0, c1) && overpriced(
                        o0,
                        o1,
                        c0,
                        c1,
                    ))
                }
            &&& (overpriced(c0, c1, o0, o1) && net_profit(
                closed_form_size(c0, c1, o0, o1),
                c0,
                c1,
                o0,
                o1,
                gas,
                fee,
            ) is Some) ==> ps.len() >= 1 && ps[0]->pool_a == current.pool && ps[0]->amount_in
                == closed_form_size(c0, c1, o0, o1)
        }),
{
    let (c0, c1, o0, o1) = (current.reserve0@, current.reserve1@, other.reserve0@, other.reserve1@);
    lemma_direction_law(current.pool, other.pool, c0, c1, o0, o1, gas, fee);
    lemma_direction_law(other.pool, current.pool, o0, o1, c0, c1, gas, fee);
    let first = direction_actions(current.pool, other.pool, c0, c1, o0, o1, gas, fee);
    let second = direction_actions(other.pool, current.pool, o0, o1, c0, c1, gas, fee);
    let ps = pair_actions(current, other, gas, fee);
    assert(ps == first + second);
    assert forall|i: int| 0 <= i < ps.len() implies {
        &&& (#[trigger] ps[i]) is SubmitArbBundle
        &&& (ps[i]->pool_a == current.pool && ps[i]->pool_b == other.pool && ps[i]->amount_in
            == closed_form_size(c0, c1, o0, o1) && overpriced(c0, c1, o0, o1)) || (ps[i]->pool_a
            == other.pool && ps[i]->pool_b == current.pool && ps[i]->amount_in == closed_form_size(
            o0,
            o1,
            c0,
            c1,
        ) && overpriced(o0, o1, c0, c1))
    } by {
        if i < first.len() {
            assert(ps[i] == first[0]);
        } else {
            assert(ps[i] == second[0]);
        }
    }
}

/// For two pools trading the same two tokens in opposite orders, the
/// proposals are those of the two round trips with `other`'s reserves read in
/// `current`'s token order, `(other.reserve1, other.reserve0)`.
pub proof fn lemma_reversed_order_proposals(current: PoolState, other: PoolState, gas: nat, fee: nat)
    requires
        !(same_token(current.pool.token0, other.pool.token0) && same_token(
            current.pool.token1,
            other.pool.token1,
        )),
        same_token(current.pool.token0, other.pool.token1),
        same_token(current.pool.token1, other.pool.token0),
        0 < current.reserve0@ < reserve_bound(),
        0 < current.reserve1@ < reserve_bound(),
        0 < other.reserve0@ < reserve_bound(),
        0 < other.reserve1@ < reserve_bound(),
    ensures
        ({
            let (c0, c1, o0, o1) = (
                current.reserve0@,
                current.reserve1@,
                other.reserve0@,
                other.reserve1@,
            );
            let ps = pair_actions(current, other, gas, fee);
            &&& ps == direction_actions(current.pool, other.pool, c0, c1, o1, o0, gas, fee)
                + direction_actions(other.pool, current.pool, o1, o0, c0, c1, gas, fee)
            &&& forall|i: int|
                0 <= i < ps.len() ==> {
                    &&& (#[trigger] ps[i]) is SubmitArbBundle
                    &&& (ps[i]->pool_a == current.pool && ps[i]->pool_b == other.pool
                        && ps[i]->amount_in == closed_form_size(c0, c1, o1, o0) && overpriced(
                        c0,
                        c1,
                        o1,
                        o0,
                    )) || (ps[i]->pool_a == other.pool && ps[i]->pool_b == current.pool
                        && ps[i]->amount_in == closed_form_size(o1, o0, c0, c1) && overpriced(
                        o1,
                        o0,
                        c0,
                        c1,
                    ))
                }
        }),
{
    let (c0, c1, o0, o1) = (current.reserve0@, current.reserve1@, other.reserve0@, other.reserve1@);
    lemma_direction_law(current.pool, other.pool, c0, c1, o1, o0, gas, fee);
    lemma_direction_law(other.pool, current.pool, o1, o0, c0, c1, gas, fee);
    let first = direction_actions(current.pool, other.pool, c0, c1, o1, o0, gas, fee);
    let second = direction_actions(other.pool, current.pool, o1, o0, c0, c1, gas, fee);
    let ps = pair_actions(current, other, gas, fee);
    assert(ps == first + second);
    assert forall|i: int| 0 <= i < ps.len() implies {
        &&& (#[trigger] ps[i]) is SubmitArbBundle
        &&& (ps[i]->pool_a == current.pool && ps[i]->pool_b == other.pool && ps[i]->amount_in
            == closed_form_size(c0, c1, o1, o0) && overpriced(c0, c1, o1, o0)) || (ps[i]->pool_a
            == other.pool && ps[i]->pool_b == current.pool && ps[i]->amount_in == closed_form_size(
            o1,
            o0,
            c0,
            c1,
        ) && overpriced(o1, o0, c0, c1))
    } by {
        if i < first.len() {
            assert(ps[i] == first[0]);
        } else {
            assert(ps[i] == second[0]);
        }
    }
}

/// Pools that do not trade the same two tokens yield no proposal.
pub proof fn lemma_unrelated_pools_no_proposals(current: PoolState, other: PoolState, gas: nat, fee: nat)
    requires
        !(same_token(current.pool.token0, other.pool.token0) && same_token(
            current.pool.token1,
            other.pool.token1,
        )),
        !(same_token(current.pool.token0, other.pool.token1) && same_token(
            current.pool.token1,
            other.pool.token0,
        )),
    ensures
        pair_actions(current, other, gas, fee).len() == 0,
{
}

/// `other` is a pool the updated pool at `updated` is compared with: another
/// address, and both reserves non-empty.
pub open spec fn compared(other: PoolState, updated: Seq<u8>) -> bool {
    other.pool.address@ != updated && other.reserve0@ != 0 && other.reserve1@ != 0
}

/// `a` is a proposal of the pair of `current` with some pool of `others` that
/// it is compared with.
pub open spec fn from_compared_pair(
    others: Seq<PoolState>,
    current: PoolState,
    updated: Seq<u8>,
    gas: nat,
    fee: nat,
    a: ActionView,
) -> bool {
    exists|j: int|
        0 <= j < others.len() && compared(others[j], updated) && #[trigger] pair_actions(
            current,
            others[j],
            gas,
            fee,
        ).contains(a)
}

proof fn lemma_opportunities_pairs(
    others: Seq<PoolState>,
    current: PoolState,
    updated: Seq<u8>,
    gas: nat,
    fee: nat,
)
    ensures
        forall|j: int, k: int|
            0 <= j < others.len() && compared(others[j], updated) && 0 <= k < pair_actions(
                current,
                others[j],
                gas,
                fee,
            ).len() ==> opportunities(others, current, updated, gas, fee).contains(
                #[trigger] pair_actions(current, #[trigger] others[j], gas, fee)[k],
            ),
        forall|i: int|
            0 <= i < opportunities(others, current, updated, gas, fee).len() ==> from_compared_pair(
                others,
                current,
                updated,
                gas,
                fee,
                #[trigger] opportunities(others, current, updated, gas, fee)[i],
            ),
    decreases others.len(),
{
    if others.len() > 0 {
        let prefix = others.drop_last();
        lemma_opportunities_pairs(prefix, current, updated, gas, fee);
        let before = opportunities(prefix, current, updated, gas, fee);
        let all = opportunities(others, current, updated, gas, fee);
        let n = others.len() - 1;
        let last = others[n];
        let p = pair_actions(current, last, gas, fee);
        if compared(last, updated) {
            assert(all == before + p);
        } else {
            assert(all == before);
        }
        assert forall|j: int, k: int|
            0 <= j < others.len() && compared(others[j], updated) && 0 <= k < pair_actions(
                current,
                others[j],
                gas,
                fee,
            ).len() implies all.contains(
            #[trigger] pair_actions(current, #[trigger] others[j], gas, fee)[k],
        ) by {
            if j < n {
                assert(prefix[j] == others[j]);
                let x = pair_actions(current, prefix[j], gas, fee)[k];
                assert(before.contains(x));
                let t = choose|t: int| 0 <= t < before.len() && before[t] == x;
                assert(all[t] == x);
            } else {
                assert(all[before.len() + k] == p[k]);
            }
        }
        assert forall|i: int| 0 <= i < all.len() implies from_compared_pair(
            others,
            current,
            updated,
            gas,
            fee,
            #[trigger] all[i],
        ) by {
            if i < before.len() {
                assert(all[i] == before[i]);
                assert(from_compared_pair(prefix, current, updated, gas, fee, before[i]));
                let j = choose|j: int|
                    0 <= j < prefix.len() && compared(prefix[j], updated) && #[trigger] pair_actions(
                        current,
                        prefix[j],
                        gas,
                        fee,
                    ).contains(before[i]);
                assert(prefix[j] == others[j]);
                assert(pair_actions(current, others[j], gas, fee).contains(all[i]));
            } else {
                assert(all[i] == p[i - before.len()]);
                assert(p.contains(all[i]));
                assert(others[n] == last);
                assert(pair_actions(current, others[n], gas, fee).contains(all[i]));
            }
        }
    }
}

/// The proposals after a change at `updated` are exactly those of the pairs
/// (updated pool, other pool) over the pools of the book at another address
/// with non-empty reserves: each such pair's proposals are made, and each
/// proposal made comes from such a pair.
#[verifier::rlimit(60)]
pub proof fn lemma_evaluation_pairs(pools: Seq<PoolState>, updated: Seq<u8>, gas: nat, fee: nat)
    requires
        has_pool(pools, updated),
        pool_at(pools, updated).reserve0@ != 0,
        pool_at(pools, updated).reserve1@ != 0,
    ensures
        forall|j: int, k: int|
            0 <= j < pools.len() && compared(pools[j], updated) && 0 <= k < pair_actions(
                pool_at(pools, updated),
                pools[j],
                gas,
                fee,
            ).len() ==> evaluation(pools, updated, gas, fee).contains(
                #[trigger] pair_actions(pool_at(pools, updated), #[trigger] pools[j], gas, fee)[k],
            ),
        forall|i: int|
            0 <= i < evaluation(pools, updated, gas, fee).len() ==> from_compared_pair(
                pools,
                pool_at(pools, updated),
                updated,
                gas,
                fee,
                #[trigger] evaluation(pools, updated, gas, fee)[i],
            ),
{
    lemma_opportunities_pairs(pools, pool_at(pools, updated), updated, gas, fee);
}

} // verus!
