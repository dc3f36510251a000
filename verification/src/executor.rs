//! The executor's planning of a flash-swap bundle: the call data for the
//! arbitrage contract, the legacy transaction that carries it, and the
//! nonce counter that numbers successive transactions.
use vstd::prelude::*;
use crate::uint::{U256, be_word, to_be_bytes};
use vstd::string::StringSliceAdditionalSpecFns;
use alloy::consensus::transaction::RlpEcdsaEncodableTx;
use alloy::consensus::{SignableTransaction, TxLegacy};
use alloy::primitives::{Signature, TxKind, B256};
use alloy::signers::SignerSync;
use alloy::signers::local::PrivateKeySigner;
use crate::types::{Address, Action};

verus! {

/// Keccak-256 of `data` (32 bytes), as `alloy` computes it.
pub uninterp spec fn keccak256_digest(data: Seq<u8>) -> Seq<u8>;

/// `alloy_primitives::keccak256`: the Keccak-256 digest of `data`.
#[verifier::external_body]
fn keccak256(data: &[u8]) -> (r: [u8; 32])
    ensures
        r@ == keccak256_digest(data@),
{
    alloy::primitives::keccak256(data).0
}

/// The Solidity signature of the arbitrage contract's entry point.
pub open spec fn flash_swap_signature() -> Seq<u8> {
    "executeFlashSwap(address,address,uint256,uint256)".spec_bytes()
}

/// The function selector: the first four bytes of the signature's digest.
pub open spec fn flash_swap_selector() -> Seq<u8> {
    Seq::new(4, |i: int| keccak256_digest(flash_swap_signature())[i])
}

/// An address as an ABI word: twelve zero bytes, then the address.
pub open spec fn address_word(address: Seq<u8>) -> Seq<u8> {
    Seq::new(12, |i: int| 0u8) + address
}

/// The ABI call data of `executeFlashSwap(pool_a, pool_b, amount_in, min_profit)`.
pub open spec fn flash_swap_calldata(
    pool_a: Seq<u8>,
    pool_b: Seq<u8>,
    amount_in: nat,
    min_profit: nat,
) -> Seq<u8> {
    flash_swap_selector() + address_word(pool_a) + address_word(pool_b) + be_word(amount_in)
        + be_word(min_profit)
}

/// The call data's layout: the selector in bytes 0..4, then four 32-byte
/// words: `pool_a` in bytes 16..36 after twelve zero bytes, `pool_b` in bytes
/// 48..68 after twelve zero bytes, then `amount_in` and `min_profit` big-endian.
pub proof fn lemma_flash_swap_calldata_layout(
    pool_a: Seq<u8>,
    pool_b: Seq<u8>,
    amount_in: nat,
    min_profit: nat,
)
    requires
        pool_a.len() == 20,
        pool_b.len() == 20,
    ensures
        ({
            let cd = flash_swap_calldata(pool_a, pool_b, amount_in, min_profit);
            &&& cd.len() == 132
            &&& cd.subrange(0, 4) == Seq::new(
                4,
                |i: int| keccak256_digest(flash_swap_signature())[i],
            )
            &&& cd.subrange(4, 16) == Seq::new(12, |i: int| 0u8)
            &&& cd.subrange(16, 36) == pool_a
            &&& cd.subrange(36, 48) == Seq::new(12, |i: int| 0u8)
            &&& cd.subrange(48, 68) == pool_b
            &&& cd.subrange(68, 100) == be_word(amount_in)
            &&& cd.subrange(100, 132) == be_word(min_profit)
        }),
{
    let cd = flash_swap_calldata(pool_a, pool_b, amount_in, min_profit);
    assert(cd.subrange(0, 4) =~= flash_swap_selector());
    assert(cd.subrange(4, 16) =~= Seq::new(12, |i: int| 0u8));
    assert(cd.subrange(16, 36) =~= pool_a);
    assert(cd.subrange(36, 48) =~= Seq::new(12, |i: int| 0u8));
    assert(cd.subrange(48, 68) =~= pool_b);
    assert(cd.subrange(68, 100) =~= be_word(amount_in));
    assert(cd.subrange(100, 132) =~= be_word(min_profit));
}

/// Appends `bytes` to `out`.
fn append_bytes(out: &mut Vec<u8>, bytes: &[u8])
    ensures
        final(out)@ == old(out)@ + bytes@,
{
    let mut i: usize = 0;
    while i < bytes.len()
        invariant
            i <= bytes@.len(),
            out@ == old(out)@ + bytes@.take(i as int),
        decreases bytes@.len() - i,
    {
        out.push(bytes[i]);
        proof {
            assert(bytes@.take(i + 1) =~= bytes@.take(i as int).push(bytes@[i as int]));
        }
        i = i + 1;
    }
    proof {
        assert(bytes@.take(bytes@.len() as int) =~= bytes@);
    }
}

/// The ABI call data of `executeFlashSwap(pool_a, pool_b, amount_in, min_profit)`.
pub fn encode_flash_swap(pool_a: &Address, pool_b: &Address, amount_in: &U256, min_profit: &U256) -> (r:
    Vec<u8>)
    ensures
        r@ == flash_swap_calldata(pool_a@, pool_b@, amount_in@, min_profit@),
        r@.len() == 132,
        r@.subrange(0, 4) == Seq::new(4, |i: int| keccak256_digest(flash_swap_signature())[i]),
        r@.subrange(4, 16) == Seq::new(12, |i: int| 0u8),
        r@.subrange(16, 36) == pool_a@,
        r@.subrange(36, 48) == Seq::new(12, |i: int| 0u8),
        r@.subrange(48, 68) == pool_b@,
        r@.subrange(68, 100) == be_word(amount_in@),
        r@.subrange(100, 132) == be_word(min_profit@),
{
    let signature: &str = "executeFlashSwap(address,address,uint256,uint256)";
    let digest = keccak256(signature.as_bytes());
    let padding: [u8; 12] = [0u8; 12];
    let mut out: Vec<u8> = Vec::new();
    append_bytes(&mut out, &digest[0..4]);
    assert(out@ =~= flash_swap_selector());
    append_bytes(&mut out, &padding);
    append_bytes(&mut out, pool_a);
    append_bytes(&mut out, &padding);
    append_bytes(&mut out, pool_b);
    append_bytes(&mut out, &to_be_bytes(amount_in));
    append_bytes(&mut out, &to_be_bytes(min_profit));
    proof {
        assert(padding@ =~= Seq::new(12, |i: int| 0u8));
        assert(out@ =~= flash_swap_calldata(pool_a@, pool_b@, amount_in@, min_profit@));
        lemma_flash_swap_calldata_layout(pool_a@, pool_b@, amount_in@, min_profit@);
    }
    out
}

/// A legacy (pre-EIP-2718) Ethereum transaction calling `to`.
#[derive(Debug)]
pub struct LegacyTx {
    pub chain_id: Option<u64>,
    pub nonce: u64,
    pub gas_price: u128,
    pub gas_limit: u64,
    pub to: Address,
    pub value: U256,
    pub input: Vec<u8>,
}

/// The hash a legacy transaction's signer signs (EIP-155 when it has a chain
/// id), as `alloy` computes it.
pub uninterp spec fn legacy_signing_hash(
    chain_id: Option<u64>,
    nonce: u64,
    gas_price: u128,
    gas_limit: u64,
    to: Seq<u8>,
    value: nat,
    input: Seq<u8>,
) -> Seq<u8>;

/// The RLP encoding of a legacy transaction with the 65-byte signature
/// `signature` (r, s, v), as `alloy` computes it; `None` when the last byte is
/// no valid parity.
pub uninterp spec fn signed_legacy_encoding(
    chain_id: Option<u64>,
    nonce: u64,
    gas_price: u128,
    gas_limit: u64,
    to: Seq<u8>,
    value: nat,
    input: Seq<u8>,
    signature: Seq<u8>,
) -> Option<Seq<u8>>;

/// The Ethereum address of the secp256k1 secret key `key`, as `alloy`
/// derives it; `None` when `key` is no valid secret key.
pub uninterp spec fn secret_key_address(key: Seq<u8>) -> Option<Seq<u8>>;

/// The recoverable ECDSA signature (r, s, v) of the 32-byte `hash` under the
/// secret key `key`, as `alloy`'s local signer computes it (deterministic
/// nonce, RFC 6979); `None` when `key` is no valid secret key or signing fails.
pub uninterp spec fn ecdsa_signature(key: Seq<u8>, hash: Seq<u8>) -> Option<Seq<u8>>;

/// `alloy`'s `SignableTransaction::signature_hash` of the legacy transaction.
#[verifier::external_body]
fn signing_hash(tx: &LegacyTx) -> (r: [u8; 32])
    ensures
        r@ == legacy_signing_hash(
            tx.chain_id,
            tx.nonce,
            tx.gas_price,
            tx.gas_limit,
            tx.to@,
            tx.value@,
            tx.input@,
        ),
{
    let t = TxLegacy { chain_id: tx.chain_id, nonce: tx.nonce, gas_price: tx.gas_price,
        gas_limit: tx.gas_limit, to: TxKind::Call(tx.to.into()),
        value: alloy::primitives::U256::from_limbs(tx.value.limbs), input: tx.input.clone().into() };
    SignableTransaction::signature_hash(&t).0
}

/// `alloy`'s `RlpEcdsaEncodableTx::rlp_encode_signed` of the legacy
/// transaction with `signature` read by `Signature::from_raw_array`.
#[verifier::external_body]
fn encode_signed(tx: &LegacyTx, signature: &[u8; 65]) -> (r: Option<Vec<u8>>)
    ensures
        match r {
            Some(raw) => signed_legacy_encoding(
                tx.chain_id,
                tx.nonce,
                tx.gas_price,
                tx.gas_limit,
                tx.to@,
                tx.value@,
                tx.input@,
                signature@,
            ) == Some(raw@),
            None => signed_legacy_encoding(
                tx.chain_id,
                tx.nonce,
                tx.gas_price,
                tx.gas_limit,
                tx.to@,
                tx.value@,
                tx.input@,
                signature@,
            ) is None,
        },
{
    let sig = Signature::from_raw_array(signature).ok()?;
    let t = TxLegacy { chain_id: tx.chain_id, nonce: tx.nonce, gas_price: tx.gas_price,
        gas_limit: tx.gas_limit, to: TxKind::Call(tx.to.into()),
        value: alloy::primitives::U256::from_limbs(tx.value.limbs), input: tx.input.clone().into() };
    let mut out: Vec<u8> = Vec::new();
    RlpEcdsaEncodableTx::rlp_encode_signed(&t, &sig, &mut out);
    Some(out)
}

/// `alloy`'s `PrivateKeySigner::address` of the signer that
/// `PrivateKeySigner::from_bytes` builds from `key`.
#[verifier::external_body]
fn key_address(key: &[u8; 32]) -> (r: Option<Address>)
    ensures
        match r {
            Some(a) => secret_key_address(key@) == Some(a@),
            None => secret_key_address(key@) is None,
        },
{
    PrivateKeySigner::from_bytes(&B256::from(*key)).ok().map(|s| s.address().0 .0)
}

/// `alloy`'s `SignerSync::sign_hash_sync` of the signer that
/// `PrivateKeySigner::from_bytes` builds from `key`, as 65 bytes (r, s, v).
#[verifier::external_body]
fn sign_hash(key: &[u8; 32], hash: &[u8; 32]) -> (r: Option<[u8; 65]>)
    ensures
        match r {
            Some(sig) => ecdsa_signature(key@, hash@) == Some(sig@),
            None => ecdsa_signature(key@, hash@) is None,
        },
{
    let signer = PrivateKeySigner::from_bytes(&B256::from(*key)).ok()?;
    SignerSync::sign_hash_sync(&signer, &B256::from(*hash)).ok().map(|s| s.as_bytes())
}

/// The address of the secret key `key`; `None` when it is no valid key.
pub fn address_of_secret_key(key: &[u8; 32]) -> (r: Option<Address>)
    ensures
        match r {
            Some(a) => secret_key_address(key@) == Some(a@),
            None => secret_key_address(key@) is None,
        },
{
    key_address(key)
}

/// The raw signed transaction of a flash swap signed with `key`: mainnet,
/// nonce `nonce`, no gas price, the flash-swap gas limit, to `to`, no value,
/// call data `input`; `None` when signing or encoding fails.
pub open spec fn signed_flash_swap(key: Seq<u8>, nonce: u64, to: Seq<u8>, input: Seq<u8>) -> Option<
    Seq<u8>,
> {
    let hash = legacy_signing_hash(
        Some(MAINNET_CHAIN_ID),
        nonce,
        0,
        FLASH_SWAP_GAS_LIMIT,
        to,
        0,
        input,
    );
    match ecdsa_signature(key, hash) {
        Some(sig) => signed_legacy_encoding(
            Some(MAINNET_CHAIN_ID),
            nonce,
            0,
            FLASH_SWAP_GAS_LIMIT,
            to,
            0,
            input,
            sig,
        ),
        None => None,
    }
}

/// A bundle ready for submission: the block it targets, its transaction, and
/// that transaction signed and encoded for the relay (`None` when signing
/// failed).
#[derive(Debug)]
pub struct BundlePlan {
    pub target_block: u64,
    pub tx: LegacyTx,
    pub signed_tx: Option<Vec<u8>>,
}

/// The gas limit of a flash-swap transaction.
pub const FLASH_SWAP_GAS_LIMIT: u64 = 200_000;

/// The chain the bundles are built for (Ethereum mainnet).
pub const MAINNET_CHAIN_ID: u64 = 1;

/// The nonce after `nonce`, wrapping as an atomic counter does.
pub open spec fn next_nonce(nonce: u64) -> u64 {
    if nonce == u64::MAX {
        0
    } else {
        (nonce + 1) as u64
    }
}

/// The nonce `k` bundles after `nonce`.
pub open spec fn nonce_after(nonce: u64, k: nat) -> u64
    decreases k,
{
    if k == 0 {
        nonce
    } else {
        next_nonce(nonce_after(nonce, (k - 1) as nat))
    }
}

/// The executor's state: the signer's secret key, the arbitrage contract it
/// calls, the relay it sends bundles to, and the next nonce to use.
pub struct FlashBotExecutor {
    secret_key: [u8; 32],
    contract_address: Address,
    flashbots_rpc_url: String,
    nonce: u64,
}

impl FlashBotExecutor {
    /// The signer's secret key.
    pub closed spec fn key(self) -> Seq<u8> {
        self.secret_key@
    }

    /// The arbitrage contract.
    pub closed spec fn contract(self) -> Address {
        self.contract_address
    }

    /// The relay's URL.
    pub closed spec fn rpc_url(self) -> Seq<char> {
        self.flashbots_rpc_url@
    }

    /// The next nonce to use.
    pub closed spec fn next(self) -> u64 {
        self.nonce
    }

    /// An executor signing with `secret_key`, calling `contract_address`
    /// through the relay at `rpc_url`, whose signer's next nonce is
    /// `initial_nonce`.
    pub fn new(secret_key: [u8; 32], contract_address: Address, rpc_url: String, initial_nonce: u64) -> (r:
        FlashBotExecutor)
        ensures
            r.key() == secret_key@,
            r.contract() == contract_address,
            r.rpc_url() == rpc_url@,
            r.next() == initial_nonce,
    {
        FlashBotExecutor {
            secret_key,
            contract_address,
            flashbots_rpc_url: rpc_url,
            nonce: initial_nonce,
        }
    }

    /// The relay's URL.
    pub fn flashbots_rpc_url(&self) -> (r: &String)
        ensures
            r@ == self.rpc_url(),
    {
        &self.flashbots_rpc_url
    }

    /// The signer's address; `None` when the key is no valid secret key.
    pub fn signer_address(&self) -> (r: Option<Address>)
        ensures
            match r {
                Some(a) => secret_key_address(self.key()) == Some(a@),
                None => secret_key_address(self.key()) is None,
            },
    {
        key_address(&self.secret_key)
    }

    /// Plans the bundle of `action` on top of block `latest_block`: for an
    /// arbitrage, a transaction to the contract calling
    /// `executeFlashSwap(pool_a, pool_b, amount_in, expected_profit)` with the
    /// next nonce, which then advances, signed with the signer's key; nothing
    /// for [`Action::NoOp`].
    pub fn execute_bundle(&mut self, action: Action, latest_block: u64) -> (r: Option<BundlePlan>)
        requires
            action is SubmitArbBundle ==> latest_block < u64::MAX,
        ensures
            final(self).key() == old(self).key(),
            final(self).contract() == old(self).contract(),
            final(self).rpc_url() == old(self).rpc_url(),
            match action {
                Action::NoOp => r is None && final(self).next() == old(self).next(),
                Action::SubmitArbBundle { pool_a, pool_b, amount_in, expected_profit } => {
                    let calldata = flash_swap_calldata(
                        pool_a.address@,
                        pool_b.address@,
                        amount_in@,
                        expected_profit@,
                    );
                    &&& final(self).next() == next_nonce(old(self).next())
                    &&& r matches Some(plan) && {
                        &&& plan.target_block == latest_block + 1
                        &&& plan.tx.chain_id == Some(MAINNET_CHAIN_ID)
                        &&& plan.tx.nonce == old(self).next()
                        &&& plan.tx.gas_price == 0
                        &&& plan.tx.gas_limit == FLASH_SWAP_GAS_LIMIT
                        &&& plan.tx.to == old(self).contract()
                        &&& plan.tx.value@ == 0
                        &&& plan.tx.input@ == calldata
                        &&& match plan.signed_tx {
                            Some(raw) => signed_flash_swap(
                                old(self).key(),
                                old(self).next(),
                                old(self).contract()@,
                                calldata,
                            ) == Some(raw@),
                            None => signed_flash_swap(
                                old(self).key(),
                                old(self).next(),
                                old(self).contract()@,
                                calldata,
                            ) is None,
                        }
                    }
                },
            },
    {
        match action {
            Action::NoOp => None,
            Action::SubmitArbBundle { pool_a, pool_b, amount_in, expected_profit } => {
                let calldata = encode_flash_swap(
                    &pool_a.address,
                    &pool_b.address,
                    &amount_in,
                    &expected_profit,
                );
                let target_block = latest_block + 1;
                let nonce = self.nonce;
                self.nonce = self.nonce.wrapping_add(1);
                let tx = LegacyTx {
                    chain_id: Some(MAINNET_CHAIN_ID),
                    nonce,
                    gas_price: 0,
                    gas_limit: FLASH_SWAP_GAS_LIMIT,
                    to: self.contract_address,
                    value: U256::zero(),
                    input: calldata,
                };
                let hash = signing_hash(&tx);
                let signed_tx = match sign_hash(&self.secret_key, &hash) {
                    Some(signature) => encode_signed(&tx, &signature),
                    None => None,
                };
                Some(BundlePlan { target_block, tx, signed_tx })
            },
        }
    }
}

/// Each planned arbitrage moves the counter on by one, wrapping: after `k`
/// bundles the next nonce is `(n + k) mod 2^64`, so the nonces of up to 2^64
/// successive bundles are pairwise distinct.
pub proof fn lemma_nonces_advance(n: u64, i: nat, j: nat)
    requires
        i < j < 0x10000000000000000nat,
    ensures
        nonce_after(n, i) as int == (n + i) % 0x10000000000000000int,
        nonce_after(n, j) as int == (n + j) % 0x10000000000000000int,
        nonce_after(n, i) != nonce_after(n, j),
{
    lemma_nonce_after_mod(n, i);
    lemma_nonce_after_mod(n, j);
    let m = 0x10000000000000000int;
    assert((n + i) % m != (n + j) % m) by (nonlinear_arith)
        requires
            0 <= i < j < m,
            0 <= n < m,
            m == 0x10000000000000000int,
    ;
}

proof fn lemma_nonce_after_mod(n: u64, k: nat)
    ensures
        nonce_after(n, k) as int == (n + k) % 0x10000000000000000int,
    decreases k,
{
    if k > 0 {
        lemma_nonce_after_mod(n, (k - 1) as nat);
        let m = 0x10000000000000000int;
        let p = (n + k - 1) % m;
        assert((p + 1) % m == (n + k) % m) by (nonlinear_arith)
            requires
                p == (n + k - 1) % m,
                m > 0,
        ;
        assert(p < m) by (nonlinear_arith)
            requires
                p == (n + k - 1) % m,
                m > 0,
        ;
    }
}

} // verus!
