//! The bot's data: tokens, pools, their reserve states, the sync events the
//! collector emits and the actions the strategy proposes.
use vstd::prelude::*;
use crate::uint::U256;

verus! {

/// A 20-byte Ethereum account or contract address.
pub type Address = [u8; 20];

/// An ERC-20 token of a pool.
#[derive(Debug)]
pub struct Token {
    pub address: Address,
    pub symbol: String,
    pub decimals: u32,
}

/// Two tokens are the same when all their fields agree.
pub open spec fn same_token(a: Token, b: Token) -> bool {
    a.address@ == b.address@ && a.symbol@ == b.symbol@ && a.decimals == b.decimals
}

impl Clone for Token {
    fn clone(&self) -> (r: Self)
        ensures
            r == *self,
    {
        Token { address: self.address, symbol: self.symbol.clone(), decimals: self.decimals }
    }
}

/// A Uniswap V2 pair.
#[derive(Debug)]
pub struct Pool {
    pub id: u32,
    pub address: Address,
    pub venue: String,
    pub token0: Token,
    pub token1: Token,
}

impl Clone for Pool {
    fn clone(&self) -> (r: Self)
        ensures
            r == *self,
    {
        Pool {
            id: self.id,
            address: self.address,
            venue: self.venue.clone(),
            token0: self.token0.clone(),
            token1: self.token1.clone(),
        }
    }
}

/// The pool list of a configuration file.
#[derive(Debug)]
pub struct Pools {
    pub pools: Vec<Pool>,
}

/// A reserve update observed on chain.
#[derive(Debug)]
pub enum Event {
    PoolSync { pool: Pool, reserve0: U256, reserve1: U256 },
}

/// The last known reserves of a pool.
#[derive(Debug)]
pub struct PoolState {
    pub pool: Pool,
    pub reserve0: U256,
    pub reserve1: U256,
}

/// What the strategy asks the executor to do.
#[derive(Debug)]
pub enum Action {
    /// Borrow `amount_in` of the shared token, sell it on `pool_a`, buy it
    /// back on `pool_b`, and require `expected_profit` at the end.
    SubmitArbBundle { pool_a: Pool, pool_b: Pool, amount_in: U256, expected_profit: U256 },
    /// Nothing to do.
    NoOp,
}

/// An action over mathematical values.
pub enum ActionView {
    SubmitArbBundle { pool_a: Pool, pool_b: Pool, amount_in: nat, expected_profit: nat },
    NoOp,
}

impl View for Action {
    type V = ActionView;

    open spec fn view(&self) -> ActionView {
        match self {
            Action::SubmitArbBundle { pool_a, pool_b, amount_in, expected_profit } =>
                ActionView::SubmitArbBundle {
                pool_a: *pool_a,
                pool_b: *pool_b,
                amount_in: amount_in@,
                expected_profit: expected_profit@,
            },
            Action::NoOp => ActionView::NoOp,
        }
    }
}

/// The actions of a sequence, over mathematical values.
pub open spec fn action_views(actions: Seq<Action>) -> Seq<ActionView> {
    actions.map_values(|a: Action| a@)
}

/// Whether two addresses are the same.
pub fn same_address(a: &Address, b: &Address) -> (r: bool)
    ensures
        r == (a@ == b@),
{
    let mut i: usize = 0;
    while i < 20
        invariant
            0 <= i <= 20,
            forall|j: int| 0 <= j < i ==> a@[j] == b@[j],
        decreases 20 - i,
    {
        if a[i] != b[i] {
            return false;
        }
        i = i + 1;
    }
    assert(a@ =~= b@);
    true
}

/// Whether two tokens are the same (the derived field-wise equality).
pub fn tokens_equal(a: &Token, b: &Token) -> (r: bool)
    ensures
        r == same_token(*a, *b),
{
    same_address(&a.address, &b.address) && a.symbol == b.symbol && a.decimals == b.decimals
}

} // verus!
