//! The chain state the strategy prices gas with: the latest base fee and
//! block number, and the choice of the next block's base fee from a fee
//! history.
use vstd::prelude::*;
use crate::uint::{U256, pow2_128};

verus! {

/// The latest base fee per gas (in wei) and block number seen by the block
/// watcher; both start at zero. A view has one owner: to share it between
/// tasks, put it behind a lock.
#[derive(Debug)]
pub struct AtomicStateView {
    base_fee_wei: u128,
    latest_block: u128,
}

impl AtomicStateView {
    /// The stored base fee per gas, in wei.
    pub closed spec fn base_fee(self) -> u128 {
        self.base_fee_wei
    }

    /// The stored block number.
    pub closed spec fn block(self) -> u64 {
        self.latest_block as u64
    }

    /// This view with the base fee replaced.
    pub closed spec fn with_base_fee(self, base_fee: u128) -> AtomicStateView {
        AtomicStateView { base_fee_wei: base_fee, latest_block: self.latest_block }
    }

    /// This view with the block number replaced.
    pub closed spec fn with_block(self, block: u64) -> AtomicStateView {
        AtomicStateView { base_fee_wei: self.base_fee_wei, latest_block: block as u128 }
    }

    /// This view after a block header with base fee `base_fee_per_gas` and
    /// number `number`: both stored when the header carries a base fee,
    /// nothing changed otherwise.
    pub open spec fn after_header(self, base_fee_per_gas: Option<u64>, number: u64) -> AtomicStateView {
        match base_fee_per_gas {
            Some(fee) => self.with_base_fee(fee as u128).with_block(number),
            None => self,
        }
    }

    /// This view after the headers `(base fee, number)` in order.
    pub open spec fn after_headers(self, headers: Seq<(Option<u64>, u64)>) -> AtomicStateView
        decreases headers.len(),
    {
        if headers.len() == 0 {
            self
        } else {
            self.after_headers(headers.drop_last()).after_header(
                headers.last().0,
                headers.last().1,
            )
        }
    }

    /// A view with zero base fee and block zero.
    pub fn new() -> (r: AtomicStateView)
        ensures
            r.base_fee() == 0,
            r.block() == 0,
    {
        AtomicStateView { base_fee_wei: 0, latest_block: 0 }
    }

    /// Stores `base_fee`, which must fit in 128 bits; the block is unchanged.
    pub fn set_base_fee(&mut self, base_fee: U256)
        requires
            base_fee@ < pow2_128(),
        ensures
            *final(self) == old(self).with_base_fee(base_fee@ as u128),
    {
        let wei = base_fee.to_u128();
        self.base_fee_wei = wei;
    }

    /// The stored base fee.
    pub fn get_base_fee(&self) -> (r: U256)
        ensures
            r@ == self.base_fee(),
    {
        U256::from_u128(self.base_fee_wei)
    }

    /// Stores `latest_block`; the base fee is unchanged.
    pub fn set_latest_block(&mut self, latest_block: u64)
        ensures
            *final(self) == old(self).with_block(latest_block),
    {
        self.latest_block = latest_block as u128;
    }

    /// The stored block number.
    pub fn get_latest_block(&self) -> (r: u64)
        ensures
            r == self.block(),
    {
        self.latest_block as u64
    }

    /// Records a new block header: when it carries a base fee, stores that fee
    /// and the block number; a header without a base fee changes nothing.
    pub fn record_block_header(&mut self, base_fee_per_gas: Option<u64>, number: u64)
        ensures
            *final(self) == old(self).after_header(base_fee_per_gas, number),
    {
        if let Some(base_fee) = base_fee_per_gas {
            self.set_base_fee(U256::from_u64(base_fee));
            self.set_latest_block(number);
        }
    }
}

impl Default for AtomicStateView {
    /// The same as [`AtomicStateView::new`].
    fn default() -> (r: AtomicStateView)
        ensures
            r.base_fee() == 0,
            r.block() == 0,
    {
        AtomicStateView::new()
    }
}

/// The base fee predicted for the next block: the last entry of the fee
/// history's base fees, or `None` when the history is empty (then the caller
/// falls back on the current gas price).
pub fn next_base_fee_from_history(base_fee_per_gas: &Vec<u128>) -> (r: Option<U256>)
    ensures
        match r {
            Some(fee) => base_fee_per_gas@.len() > 0 && fee@ == base_fee_per_gas@.last(),
            None => base_fee_per_gas@.len() == 0,
        },
{
    if base_fee_per_gas.len() == 0 {
        None
    } else {
        Some(U256::from_u128(base_fee_per_gas[base_fee_per_gas.len() - 1]))
    }
}

/// What is stored reads back unchanged: the base fee after `with_base_fee`,
/// the block after `with_block`, and each store leaves the other value alone.
pub proof fn lemma_state_view_reads_back(view: AtomicStateView, base_fee: u128, block: u64)
    ensures
        view.with_base_fee(base_fee).base_fee() == base_fee,
        view.with_base_fee(base_fee).block() == view.block(),
        view.with_block(block).block() == block,
        view.with_block(block).base_fee() == view.base_fee(),
{
}

/// After a run of block headers, the view holds the base fee and number of
/// the last header that carries a base fee; later headers without one change
/// nothing.
pub proof fn lemma_watcher_keeps_last_fee(
    view: AtomicStateView,
    headers: Seq<(Option<u64>, u64)>,
    j: int,
)
    requires
        0 <= j < headers.len(),
        headers[j].0 is Some,
        forall|k: int| j < k < headers.len() ==> (#[trigger] headers[k]).0 is None,
    ensures
        view.after_headers(headers).base_fee() == headers[j].0.unwrap(),
        view.after_headers(headers).block() == headers[j].1,
    decreases headers.len(),
{
    if j < headers.len() - 1 {
        let prefix = headers.drop_last();
        assert forall|k: int| j < k < prefix.len() implies (#[trigger] prefix[k]).0 is None by {
            assert(prefix[k] == headers[k]);
        }
        lemma_watcher_keeps_last_fee(view, prefix, j);
        assert(headers.last() == headers[headers.len() - 1]);
    } else {
        let v = view.after_headers(headers.drop_last());
        lemma_state_view_reads_back(v.with_base_fee(headers[j].0.unwrap() as u128), 0, headers[j].1);
        lemma_state_view_reads_back(v, headers[j].0.unwrap() as u128, 0);
    }
}

/// Block headers without a base fee leave the view unchanged.
pub proof fn lemma_watcher_ignores_headers_without_fee(
    view: AtomicStateView,
    headers: Seq<(Option<u64>, u64)>,
)
    requires
        forall|k: int| 0 <= k < headers.len() ==> (#[trigger] headers[k]).0 is None,
    ensures
        view.after_headers(headers) == view,
    decreases headers.len(),
{
    if headers.len() > 0 {
        let prefix = headers.drop_last();
        assert forall|k: int| 0 <= k < prefix.len() implies (#[trigger] prefix[k]).0 is None by {
            assert(prefix[k] == headers[k]);
        }
        lemma_watcher_ignores_headers_without_fee(view, prefix);
        assert(headers.last() == headers[headers.len() - 1]);
    }
}

} // verus!
