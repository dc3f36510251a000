use arb_bot::strategy::ArbitrageStrategy;
use arb_bot::types::{Action, Event, Pool, Token};
use arb_bot::uint::U256;

const E18: u64 = 1_000_000_000_000_000_000;

fn u(x: u64) -> U256 {
    U256::from_u64(x)
}

fn token(byte: u8, symbol: &str) -> Token {
    Token { address: [byte; 20], symbol: symbol.to_string(), decimals: 18 }
}

fn pool(id: u32, byte: u8, t0: Token, t1: Token) -> Pool {
    Pool { id, address: [byte; 20], venue: "uniswap".to_string(), token0: t0, token1: t1 }
}

fn weth() -> Token {
    token(0xAA, "WETH")
}

fn usdc() -> Token {
    token(0xBB, "USDC")
}

fn strategy_with(pools: Vec<Pool>, reserves: Vec<Option<(U256, U256)>>) -> ArbitrageStrategy {
    let mut s = ArbitrageStrategy::new(pools);
    s.sync_state(&reserves);
    s
}

#[test]
fn sync_records_every_pool() {
    let pools = vec![pool(1, 1, weth(), usdc()), pool(2, 2, weth(), usdc())];
    let s = strategy_with(pools, vec![Some((u(5), u(6))), None]);
    let book = s.pool_states();
    assert_eq!(book.len(), 2);
    assert_eq!(book[0].reserve0, u(5));
    assert_eq!(book[0].reserve1, u(6));
    assert_eq!(book[1].reserve0, u(0));
    assert_eq!(book[1].reserve1, u(0));
    assert_eq!(s.initial_pools().len(), 2);
}

#[test]
fn sync_keeps_one_state_per_address() {
    let pools = vec![pool(1, 1, weth(), usdc()), pool(9, 1, usdc(), weth())];
    let s = strategy_with(pools, vec![Some((u(5), u(6))), Some((u(7), u(8)))]);
    let book = s.pool_states();
    assert_eq!(book.len(), 1);
    assert_eq!(book[0].pool.id, 9);
    assert_eq!(book[0].reserve0, u(7));
}

#[test]
fn event_on_overpriced_pool_proposes_one_arbitrage() {
    let pools = vec![pool(1, 1, weth(), usdc()), pool(2, 2, weth(), usdc())];
    let mut s = strategy_with(pools, vec![Some((u(1), u(1))), Some((u(E18), u(E18)))]);
    let event = Event::PoolSync {
        pool: pool(1, 1, weth(), usdc()),
        reserve0: u(E18),
        reserve1: u(2 * E18),
    };
    let actions = s.process_event(event, u(25_000_000_000));
    assert_eq!(actions.len(), 1);
    match &actions[0] {
        Action::SubmitArbBundle { pool_a, pool_b, amount_in, expected_profit } => {
            assert_eq!(pool_a.id, 1);
            assert_eq!(pool_b.id, 2);
            assert_eq!(*amount_in, u(137_342_864_158_934_975));
            assert_eq!(*expected_profit, u(52_806_580_606_230_338));
        },
        Action::NoOp => panic!("expected an arbitrage"),
    }
    assert_eq!(s.pool_states()[0].reserve1, u(2 * E18));
    assert_eq!(s.pool_states()[1].reserve1, u(E18));
}

#[test]
fn reversed_token_order_is_matched() {
    let pools = vec![pool(1, 1, weth(), usdc()), pool(2, 2, usdc(), weth())];
    let mut s = strategy_with(pools, vec![Some((u(E18), u(2 * E18))), Some((u(E18), u(E18)))]);
    let actions = s.evaluation_opportunities([1; 20], u(25_000_000_000));
    assert_eq!(actions.len(), 1);
    let event = Event::PoolSync { pool: pool(2, 2, usdc(), weth()), reserve0: u(E18), reserve1: u(E18) };
    let actions = s.process_event(event, u(25_000_000_000));
    assert_eq!(actions.len(), 1);
    match &actions[0] {
        Action::SubmitArbBundle { pool_a, pool_b, .. } => {
            // Starting from pool 2's token0 (USDC), the trip sells USDC on pool 2.
            assert_eq!(pool_a.id, 2);
            assert_eq!(pool_b.id, 1);
        },
        Action::NoOp => panic!("expected an arbitrage"),
    }
}

#[test]
fn no_proposals_for_unknown_or_empty_or_unrelated_pools() {
    let dai = token(0xCC, "DAI");
    let pools = vec![
        pool(1, 1, weth(), usdc()),
        pool(2, 2, weth(), usdc()),
        pool(3, 3, weth(), dai),
    ];
    let mut s = strategy_with(
        pools,
        vec![Some((u(E18), u(2 * E18))), Some((u(0), u(E18))), Some((u(E18), u(E18)))],
    );
    assert!(s.evaluation_opportunities([7; 20], u(1)).is_empty());
    assert!(s.evaluation_opportunities([1; 20], u(1)).is_empty());
    let event = Event::PoolSync { pool: pool(7, 7, weth(), usdc()), reserve0: u(1), reserve1: u(1) };
    assert!(s.process_event(event, u(1)).is_empty());
    assert_eq!(s.pool_states().len(), 3);
}

#[test]
fn gas_cost_can_cancel_the_proposal() {
    let pools = vec![pool(1, 1, weth(), usdc()), pool(2, 2, weth(), usdc())];
    let s = strategy_with(pools, vec![Some((u(E18), u(2 * E18))), Some((u(E18), u(E18)))]);
    assert_eq!(s.evaluation_opportunities([1; 20], u(25_000_000_000)).len(), 1);
    assert!(s.evaluation_opportunities([1; 20], u(1_000_000_000_000)).is_empty());
}

#[test]
fn lower_base_fee_keeps_proposals_with_more_profit() {
    let pools = vec![pool(1, 1, weth(), usdc()), pool(2, 2, weth(), usdc())];
    let s = strategy_with(pools, vec![Some((u(E18), u(2 * E18))), Some((u(E18), u(E18)))]);
    let high = s.evaluation_opportunities([1; 20], u(25_000_000_000));
    let low = s.evaluation_opportunities([1; 20], u(1));
    assert_eq!(high.len(), 1);
    assert_eq!(low.len(), 1);
    match (&low[0], &high[0]) {
        (
            Action::SubmitArbBundle { amount_in: a1, expected_profit: p1, .. },
            Action::SubmitArbBundle { amount_in: a2, expected_profit: p2, .. },
        ) => {
            assert_eq!(a1, a2);
            assert!(p1.to_u128() > p2.to_u128());
        },
        _ => panic!("expected arbitrages"),
    }
}
