use arb_bot::gas::{next_base_fee_from_history, AtomicStateView};
use arb_bot::uint::U256;

#[test]
fn atomic_state_view_stores_and_loads() {
    let mut view = AtomicStateView::new();
    assert_eq!(view.get_base_fee(), U256::zero());
    assert_eq!(view.get_latest_block(), 0);

    view.set_base_fee(U256::from_u64(25_000_000_000u64));
    view.set_latest_block(18_000_000);

    assert_eq!(view.get_base_fee(), U256::from_u64(25_000_000_000u64));
    assert_eq!(view.get_latest_block(), 18_000_000);
}

#[test]
fn state_view_values_are_independent() {
    let mut view = AtomicStateView::new();
    view.set_latest_block(7);
    view.set_base_fee(U256::from_u128(u128::MAX));
    assert_eq!(view.get_latest_block(), 7);
    assert_eq!(view.get_base_fee(), U256::from_u128(u128::MAX));
    view.set_latest_block(u64::MAX);
    assert_eq!(view.get_base_fee(), U256::from_u128(u128::MAX));
    assert_eq!(view.get_latest_block(), u64::MAX);
}

#[test]
fn block_header_updates_only_with_base_fee() {
    let mut view = AtomicStateView::new();
    view.record_block_header(None, 10);
    assert_eq!(view.get_latest_block(), 0);
    assert_eq!(view.get_base_fee(), U256::zero());
    view.record_block_header(Some(30_000_000_000), 11);
    assert_eq!(view.get_latest_block(), 11);
    assert_eq!(view.get_base_fee(), U256::from_u64(30_000_000_000));
}

#[test]
fn next_base_fee_is_last_history_entry() {
    assert_eq!(next_base_fee_from_history(&vec![]), None);
    assert_eq!(
        next_base_fee_from_history(&vec![1, 2, 3_000_000_000_000_000_000_000]),
        Some(U256::from_u128(3_000_000_000_000_000_000_000))
    );
}

#[test]
fn default_state_view_is_zero() {
    let view = AtomicStateView::default();
    assert_eq!(view.get_base_fee(), U256::zero());
    assert_eq!(view.get_latest_block(), 0);
}


#[test]
fn watcher_keeps_the_last_header_with_a_fee() {
    let mut view = AtomicStateView::new();
    let headers = [(Some(10u64), 1u64), (Some(20), 2), (None, 3), (None, 4)];
    for (fee, number) in headers {
        view.record_block_header(fee, number);
    }
    assert_eq!(view.get_base_fee(), U256::from_u64(20));
    assert_eq!(view.get_latest_block(), 2);
}
