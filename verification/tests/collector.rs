use arb_bot::collector::{sync_lookback_range, V2SyncCollector};
use arb_bot::types::{Event, Pool, Token};
use arb_bot::uint::U256;

fn token(byte: u8) -> Token {
    Token { address: [byte; 20], symbol: format!("T{}", byte), decimals: 18 }
}

fn pool(id: u32, byte: u8) -> Pool {
    Pool { id, address: [byte; 20], venue: "sushiswap".to_string(), token0: token(10), token1: token(11) }
}

#[test]
fn collector_indexes_pools_in_order() {
    let pools = vec![pool(1, 1), pool(2, 2), pool(3, 1)];
    let c = V2SyncCollector::new(&pools);
    assert_eq!(c.pool_addresses(), &vec![[1u8; 20], [2u8; 20], [1u8; 20]]);
    assert_eq!(c.pool_at(&[2; 20]).map(|p| p.id), Some(2));
    assert_eq!(c.pool_at(&[1; 20]).map(|p| p.id), Some(3));
    assert!(c.pool_at(&[4; 20]).is_none());
}

#[test]
fn collector_turns_known_logs_into_events() {
    let c = V2SyncCollector::new(&[pool(1, 1)]);
    match c.event_for_log(&[1; 20], U256::from_u64(5), U256::from_u64(6)) {
        Some(Event::PoolSync { pool, reserve0, reserve1 }) => {
            assert_eq!(pool.id, 1);
            assert_eq!(reserve0, U256::from_u64(5));
            assert_eq!(reserve1, U256::from_u64(6));
        },
        None => panic!("known pool"),
    }
    assert!(c.event_for_log(&[2; 20], U256::from_u64(5), U256::from_u64(6)).is_none());
}

#[test]
fn lookback_range_clips_at_genesis() {
    assert_eq!(sync_lookback_range(100), (94, 100));
    assert_eq!(sync_lookback_range(3), (0, 3));
    assert_eq!(sync_lookback_range(6), (0, 6));
}
