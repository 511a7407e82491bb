//! A block: the transactions that one height of the chain includes.

use vstd::prelude::*;
use crate::transaction::{Transaction, total_gas};

verus! {

/// The prices of `txs`, in order.
pub open spec fn prices_of(txs: Seq<Transaction>) -> Seq<u64> {
    txs.map_values(|t: Transaction| t.gas_price)
}

/// What `stats::median` gives, as an integer, for a non-empty list of prices.
pub uninterp spec fn median_of(prices: Seq<u64>) -> u64;

/// What `stats::mean` gives, as an integer, for a non-empty list of prices.
pub uninterp spec fn mean_of(prices: Seq<u64>) -> u64;

/// Relies on `stats::median`: the exact median of the values (the mean of the
/// two middle ones for an even count), which exists for a non-empty list; the
/// result is truncated to an integer.
#[verifier::external_body]
fn stats_median(prices: &Vec<u64>) -> (r: u64)
    requires
        prices@.len() > 0,
    ensures
        r == median_of(prices@),
{
    stats::median(prices.iter().copied()).unwrap() as u64
}

/// Relies on `stats::mean`: the running mean of the values, truncated to an integer.
#[verifier::external_body]
fn stats_mean(prices: &Vec<u64>) -> (r: u64)
    requires
        prices@.len() > 0,
    ensures
        r == mean_of(prices@),
{
    stats::mean(prices.iter().copied()) as u64
}

/// A block fullness as the fraction `gas / capacity`.
#[derive(Clone, Copy, Debug, PartialEq, Eq)]
pub struct Fullness {
    pub gas: u128,
    pub capacity: u128,
}

/// The transactions of one block and the block's gas limit.
pub struct Block {
    txs: Vec<Transaction>,
    gas_limit: u64,
}

impl Block {
    /// The included transactions, in the order they were added.
    pub closed spec fn view(&self) -> Seq<Transaction> {
        self.txs@
    }

    pub closed spec fn limit(&self) -> u64 {
        self.gas_limit
    }

    /// The block's total gas fits in a `u64`.
    pub open spec fn wf(&self) -> bool {
        total_gas(self@) <= u64::MAX
    }

    /// An empty block with the given gas limit.
    pub fn new(gas_limit: u64) -> (r: Block)
        ensures
            r.wf(),
            r@ == Seq::<Transaction>::empty(),
            r.limit() == gas_limit,
    {
        Block { txs: Vec::new(), gas_limit }
    }

    /// Appends `txs` in their order.
    pub fn add_txs(&mut self, txs: Vec<Transaction>)
        requires
            old(self).wf(),
            total_gas(old(self)@ + txs@) <= u64::MAX,
        ensures
            final(self).wf(),
            final(self)@ == old(self)@ + txs@,
            final(self).limit() == old(self).limit(),
    {
        let mut n: usize = 0;
        while n < txs.len()
            invariant
                n <= txs@.len(),
                self.gas_limit == old(self).gas_limit,
                self.txs@ == old(self).txs@ + txs@.subrange(0, n as int),
            decreases txs@.len() - n,
        {
            self.txs.push(txs[n]);
            n = n + 1;
            assert(self.txs@ =~= old(self).txs@ + txs@.subrange(0, n as int));
        }
        assert(txs@.subrange(0, n as int) =~= txs@);
    }

    /// Sum of the included transactions' gas.
    pub fn gas_used(&self) -> (r: u64)
        requires
            self.wf(),
        ensures
            r == total_gas(self@),
    {
        let mut sum: u64 = 0;
        let mut n: usize = 0;
        while n < self.txs.len()
            invariant
                n <= self@.len(),
                total_gas(self@) <= u64::MAX,
                sum == total_gas(self@.subrange(0, n as int)),
            decreases self@.len() - n,
        {
            proof {
                assert(self@.subrange(0, n as int + 1).drop_last() =~= self@.subrange(0, n as int));
                lemma_total_gas_prefix(self@, n as int + 1);
            }
            sum = sum + self.txs[n].gas_used;
            n = n + 1;
        }
        assert(self@.subrange(0, n as int) =~= self@);
        sum
    }

    /// The share of the gas limit that the block uses, as the fraction gas
    /// used over gas limit; above one only if more was added than the limit.
    pub fn fullness(&self) -> (r: Fullness)
        requires
            self.wf(),
        ensures
            r == (Fullness { gas: total_gas(self@) as u128, capacity: self.limit() as u128 }),
    {
        Fullness { gas: self.gas_used() as u128, capacity: self.gas_limit as u128 }
    }

    /// The gas limit the block was made with.
    pub fn gas_limit(&self) -> (r: u64)
        ensures
            r == self.limit(),
    {
        self.gas_limit
    }

    /// The median price of the included transactions.
    pub fn median_price(&self) -> (r: u64)
        requires
            self@.len() > 0,
        ensures
            r == median_of(prices_of(self@)),
    {
        let prices = self.prices();
        stats_median(&prices)
    }

    /// The mean price of the included transactions.
    pub fn mean_price(&self) -> (r: u64)
        requires
            self@.len() > 0,
        ensures
            r == mean_of(prices_of(self@)),
    {
        let prices = self.prices();
        stats_mean(&prices)
    }

    /// The lowest price among the included transactions.
    pub fn min_price(&self) -> (r: u64)
        requires
            self@.len() > 0,
        ensures
            exists|i: int| 0 <= i < self@.len() && r == self@[i].gas_price,
            forall|i: int| 0 <= i < self@.len() ==> r <= #[trigger] self@[i].gas_price,
    {
        let mut best = self.txs[0].gas_price;
        let mut n: usize = 1;
        while n < self.txs.len()
            invariant
                1 <= n <= self@.len(),
                exists|i: int| 0 <= i < self@.len() && best == self@[i].gas_price,
                forall|i: int| 0 <= i < n ==> best <= #[trigger] self@[i].gas_price,
            decreases self@.len() - n,
        {
            if self.txs[n].gas_price < best {
                best = self.txs[n].gas_price;
            }
            n = n + 1;
        }
        best
    }

    /// The highest price among the included transactions.
    pub fn max_price(&self) -> (r: u64)
        requires
            self@.len() > 0,
        ensures
            exists|i: int| 0 <= i < self@.len() && r == self@[i].gas_price,
            forall|i: int| 0 <= i < self@.len() ==> r >= #[trigger] self@[i].gas_price,
    {
        let mut best = self.txs[0].gas_price;
        let mut n: usize = 1;
        while n < self.txs.len()
            invariant
                1 <= n <= self@.len(),
                exists|i: int| 0 <= i < self@.len() && best == self@[i].gas_price,
                forall|i: int| 0 <= i < n ==> best >= #[trigger] self@[i].gas_price,
            decreases self@.len() - n,
        {
            if self.txs[n].gas_price > best {
                best = self.txs[n].gas_price;
            }
            n = n + 1;
        }
        best
    }

    /// Number of included transactions.
    pub fn tx_count(&self) -> (r: u64)
        ensures
            r == self@.len(),
    {
        self.txs.len() as u64
    }

    /// The prices of the included transactions, in order.
    fn prices(&self) -> (r: Vec<u64>)
        ensures
            r@ == prices_of(self@),
    {
        let mut r: Vec<u64> = Vec::new();
        let mut n: usize = 0;
        while n < self.txs.len()
            invariant
                n <= self@.len(),
                r@ == prices_of(self@.subrange(0, n as int)),
            decreases self@.len() - n,
        {
            r.push(self.txs[n].gas_price);
            n = n + 1;
            assert(r@ =~= prices_of(self@.subrange(0, n as int)));
        }
        assert(self@.subrange(0, n as int) =~= self@);
        r
    }
}

/// The gas of a prefix never exceeds the gas of the whole sequence.
pub proof fn lemma_total_gas_prefix(txs: Seq<Transaction>, n: int)
    requires
        0 <= n <= txs.len(),
    ensures
        total_gas(txs.subrange(0, n)) <= total_gas(txs),
    decreases txs.len() - n,
{
    if n < txs.len() {
        lemma_total_gas_prefix(txs, n + 1);
        assert(txs.subrange(0, n + 1).drop_last() =~= txs.subrange(0, n));
    } else {
        assert(txs.subrange(0, n) =~= txs);
    }
}

} // verus!
