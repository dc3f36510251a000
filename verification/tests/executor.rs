use alloy::consensus::transaction::RlpEcdsaEncodableTx;
use alloy::consensus::{SignableTransaction, TxLegacy};
use alloy::signers::local::PrivateKeySigner;
use alloy::signers::SignerSync;
use arb_bot::executor::{address_of_secret_key, encode_flash_swap, FlashBotExecutor};
use arb_bot::types::{Action, Pool, Token};
use arb_bot::uint::U256;

fn token(byte: u8) -> Token {
    Token { address: [byte; 20], symbol: "TKN".to_string(), decimals: 6 }
}

fn pool(byte: u8) -> Pool {
    Pool { id: byte as u32, address: [byte; 20], venue: "uniswap".to_string(), token0: token(1), token1: token(2) }
}

const KEY: [u8; 32] = [7; 32];

fn selector() -> Vec<u8> {
    alloy::primitives::keccak256("executeFlashSwap(address,address,uint256,uint256)".as_bytes()).0[0..4].to_vec()
}

#[test]
fn calldata_follows_the_abi_layout() {
    let amount = U256::from_u128(0x0102_0304_0506_0708_090a_0b0c_0d0e_0f10);
    let profit = U256::from_u64(0xff);
    let data = encode_flash_swap(&[0x11; 20], &[0x22; 20], &amount, &profit);
    assert_eq!(data.len(), 132);
    assert_eq!(data[0..4].to_vec(), selector());
    assert_eq!(data[4..16].to_vec(), vec![0u8; 12]);
    assert_eq!(data[16..36].to_vec(), vec![0x11u8; 20]);
    assert_eq!(data[36..48].to_vec(), vec![0u8; 12]);
    assert_eq!(data[48..68].to_vec(), vec![0x22u8; 20]);
    assert_eq!(data[68..84].to_vec(), vec![0u8; 16]);
    assert_eq!(data[84..100].to_vec(), (1u8..=16).collect::<Vec<u8>>());
    assert_eq!(data[100..131].to_vec(), vec![0u8; 31]);
    assert_eq!(data[131], 0xff);
}

#[test]
fn no_op_plans_nothing() {
    let mut ex = FlashBotExecutor::new(KEY, [9; 20], "https://relay.example".to_string(), 5);
    assert!(ex.execute_bundle(Action::NoOp, 100).is_none());
    let action = Action::SubmitArbBundle {
        pool_a: pool(3),
        pool_b: pool(4),
        amount_in: U256::from_u64(10),
        expected_profit: U256::from_u64(1),
    };
    let plan = ex.execute_bundle(action, 100).expect("arbitrage plans a bundle");
    assert_eq!(plan.tx.nonce, 5);
}

#[test]
fn bundles_use_successive_nonces() {
    let mut ex = FlashBotExecutor::new(KEY, [9; 20], "https://relay.example".to_string(), 41);
    assert_eq!(ex.flashbots_rpc_url(), "https://relay.example");
    let mk = || Action::SubmitArbBundle {
        pool_a: pool(3),
        pool_b: pool(4),
        amount_in: U256::from_u64(10),
        expected_profit: U256::from_u64(1),
    };
    let first = ex.execute_bundle(mk(), 18_000_000).unwrap();
    let second = ex.execute_bundle(mk(), 18_000_001).unwrap();
    assert_eq!(first.tx.nonce, 41);
    assert_eq!(second.tx.nonce, 42);
    assert_eq!(first.target_block, 18_000_001);
    assert_eq!(second.target_block, 18_000_002);
    assert_eq!(first.tx.chain_id, Some(1));
    assert_eq!(first.tx.gas_price, 0);
    assert_eq!(first.tx.gas_limit, 200_000);
    assert_eq!(first.tx.to, [9u8; 20]);
    assert_eq!(first.tx.value, U256::zero());
    assert_eq!(
        first.tx.input,
        encode_flash_swap(&[3; 20], &[4; 20], &U256::from_u64(10), &U256::from_u64(1))
    );
}

#[test]
fn nonce_counter_wraps() {
    let mut ex = FlashBotExecutor::new(KEY, [9; 20], String::new(), u64::MAX);
    let mk = || Action::SubmitArbBundle {
        pool_a: pool(3),
        pool_b: pool(4),
        amount_in: U256::from_u64(10),
        expected_profit: U256::from_u64(1),
    };
    assert_eq!(ex.execute_bundle(mk(), 0).unwrap().tx.nonce, u64::MAX);
    assert_eq!(ex.execute_bundle(mk(), 0).unwrap().tx.nonce, 0);
}

#[test]
fn no_op_needs_no_block_headroom() {
    let mut ex = FlashBotExecutor::new(KEY, [9; 20], String::new(), 3);
    assert!(ex.execute_bundle(Action::NoOp, u64::MAX).is_none());
    let plan = ex
        .execute_bundle(
            Action::SubmitArbBundle {
                pool_a: pool(3),
                pool_b: pool(4),
                amount_in: U256::from_u64(1),
                expected_profit: U256::from_u64(1),
            },
            7,
        )
        .unwrap();
    assert_eq!(plan.tx.nonce, 3);
}

#[test]
fn bundle_transaction_is_signed_with_the_key() {
    let mut ex = FlashBotExecutor::new(KEY, [9; 20], String::new(), 12);
    let action = Action::SubmitArbBundle {
        pool_a: pool(3),
        pool_b: pool(4),
        amount_in: U256::from_u64(1000),
        expected_profit: U256::from_u64(5),
    };
    let plan = ex.execute_bundle(action, 100).unwrap();
    let signer = PrivateKeySigner::from_bytes(&KEY.into()).unwrap();
    let tx = TxLegacy {
        chain_id: Some(1),
        nonce: 12,
        gas_price: 0,
        gas_limit: 200_000,
        to: alloy::primitives::TxKind::Call(alloy::primitives::Address::from([9u8; 20])),
        value: alloy::primitives::U256::ZERO,
        input: encode_flash_swap(&[3; 20], &[4; 20], &U256::from_u64(1000), &U256::from_u64(5)).into(),
    };
    let sig = signer.sign_hash_sync(&tx.signature_hash()).unwrap();
    let mut expected = Vec::new();
    tx.rlp_encode_signed(&sig, &mut expected);
    assert_eq!(plan.signed_tx, Some(expected));
    assert_eq!(ex.signer_address(), Some(signer.address().0 .0));
    assert_eq!(address_of_secret_key(&KEY), Some(signer.address().0 .0));
}

#[test]
fn invalid_key_signs_nothing() {
    let mut ex = FlashBotExecutor::new([0; 32], [9; 20], String::new(), 0);
    assert_eq!(ex.signer_address(), None);
    assert_eq!(address_of_secret_key(&[0; 32]), None);
    let plan = ex
        .execute_bundle(
            Action::SubmitArbBundle {
                pool_a: pool(3),
                pool_b: pool(4),
                amount_in: U256::from_u64(1),
                expected_profit: U256::from_u64(1),
            },
            7,
        )
        .unwrap();
    assert_eq!(plan.signed_tx, None);
    assert_eq!(plan.tx.nonce, 0);
}
