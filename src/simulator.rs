//! The control loop of the fee market: each block draws users from the demand
//! curve, admits those willing to pay the posted price, fills a block from the
//! pool, and every `control_range` blocks moves the price towards the target
//! fullness.

use vstd::prelude::*;
use vstd::seq_lib::lemma_multiset_commutative;
use vstd::arithmetic::div_mod::{lemma_div_is_ordered, lemma_div_multiples_vanish_fancy};
use crate::block::{Block, Fullness};
use crate::demand::DemandCurve;
use crate::sorted_list::inserted_all;
use crate::transaction::{
    Transaction,
    TransactionPool,
    TxIds,
    greedy_take,
    priced,
    total_gas,
};

verus! {

/// A non-negative rational number `num / den`.
#[derive(Clone, Copy, Debug, PartialEq, Eq)]
pub struct Ratio {
    pub num: u32,
    pub den: u32,
}

impl Ratio {
    /// The denominator is positive.
    pub open spec fn wf(&self) -> bool {
        self.den > 0
    }
}

/// What one simulated block reports.
#[derive(Clone, Copy, Debug, PartialEq, Eq)]
pub struct BlockRecord {
    pub height: u64,
    pub time: u64,
    pub n_user: u64,
    pub n_sent_tx: u64,
    pub n_included_tx: u64,
    pub n_unincluded_tx: u64,
    pub txpool_size: u64,
    pub control_fullness: Fullness,
    pub posted_price: u64,
}

/// Each value is at most the next.
pub open spec fn ascending(s: Seq<u64>) -> bool {
    forall|i: int, j: int| 0 <= i < j < s.len() ==> s[i] <= s[j]
}

/// Twice the median of an ascending sequence: twice the middle value for an odd
/// length, the sum of the two middle values for an even one.
pub open spec fn twice_median(s: Seq<u64>) -> int {
    let h = (s.len() / 2) as int;
    if s.len() % 2 == 1 {
        2 * s[h]
    } else {
        s[h - 1] + s[h]
    }
}

/// The fullness `twice_median / (2 * limit)` lies above `target`.
pub open spec fn above_target(twice_median: int, limit: u64, target: Ratio) -> bool {
    twice_median * target.den > 2 * limit * target.num
}

/// The posted price after one adjustment by `rate`: times `1 + rate` (up to
/// `u64::MAX`) when raising, divided by `1 + rate` when lowering, rounded down.
pub open spec fn adjusted_price(price: u64, raise: bool, rate: Ratio) -> u64 {
    if raise {
        let p = price * (rate.den + rate.num) / (rate.den as int);
        if p > u64::MAX {
            u64::MAX
        } else {
            p as u64
        }
    } else {
        (price * rate.den / (rate.den + rate.num)) as u64
    }
}

/// Adjusting never moves the price the wrong way: lowering gives at most the
/// old price, raising at least the old price, and raising gives strictly more
/// whenever the price times the rate comes to at least one whole unit and the
/// price is not already the largest value.
pub proof fn lemma_adjustment_direction(price: u64, rate: Ratio)
    requires
        rate.wf(),
    ensures
        adjusted_price(price, false, rate) <= price,
        adjusted_price(price, true, rate) >= price,
        price * rate.num >= rate.den && price < u64::MAX ==> adjusted_price(price, true, rate)
            > price,
{
    let p = price as int;
    let d = rate.den as int;
    let n = rate.num as int;
    assert(p * d <= p * (d + n)) by (nonlinear_arith)
        requires
            p >= 0,
            n >= 0,
    ;
    lemma_div_is_ordered(p * d, p * (d + n), d);
    lemma_div_multiples_vanish_fancy(p, 0, d);
    assert(d * p == p * d) by (nonlinear_arith);
    lemma_div_is_ordered(p * d, p * (d + n), d + n);
    lemma_div_multiples_vanish_fancy(p, 0, d + n);
    assert((d + n) * p == p * (d + n)) by (nonlinear_arith);
    if p * n >= d {
        assert(d * (p + 1) <= p * (d + n)) by (nonlinear_arith)
            requires
                p * n >= d,
                p >= 0,
        ;
        lemma_div_is_ordered(d * (p + 1), p * (d + n), d);
        lemma_div_multiples_vanish_fancy(p + 1, 0, d);
    }
}

/// Number of values in `s` at or above `threshold`.
pub open spec fn count_at_least(s: Seq<u64>, threshold: u64) -> int
    decreases s.len(),
{
    if s.len() == 0 {
        0
    } else {
        count_at_least(s.drop_last(), threshold) + if s.last() >= threshold {
            1int
        } else {
            0int
        }
    }
}

/// `n` transactions with consecutive ids from `first_id`, each using `gas` at `price`.
pub open spec fn fresh_txs(first_id: u64, n: int, gas: u64, price: u64) -> Seq<Transaction> {
    Seq::new(n as nat, |i: int| Transaction { id: (first_id + i) as u64, gas_used: gas, gas_price: price })
}

/// The values of `v` in ascending order.
pub fn sort_ascending(v: &Vec<u64>) -> (r: Vec<u64>)
    ensures
        ascending(r@),
        r@.to_multiset() == v@.to_multiset(),
{
    let mut r: Vec<u64> = Vec::new();
    let mut n: usize = 0;
    assert(v@.subrange(0, 0) =~= r@);
    while n < v.len()
        invariant
            n <= v@.len(),
            ascending(r@),
            r@.to_multiset() == v@.subrange(0, n as int).to_multiset(),
        decreases v@.len() - n,
    {
        let x = v[n];
        let mut p: usize = 0;
        while p < r.len() && r[p] <= x
            invariant
                p <= r@.len(),
                forall|i: int| 0 <= i < p ==> r@[i] <= x,
            decreases r@.len() - p,
        {
            p = p + 1;
        }
        let ghost old_r = r@;
        r.insert(p, x);
        proof {
            assert(r@ =~= old_r.subrange(0, p as int).push(x) + old_r.subrange(
                p as int,
                old_r.len() as int,
            ));
            assert(old_r =~= old_r.subrange(0, p as int) + old_r.subrange(
                p as int,
                old_r.len() as int,
            ));
            lemma_multiset_commutative(
                old_r.subrange(0, p as int).push(x),
                old_r.subrange(p as int, old_r.len() as int),
            );
            lemma_multiset_commutative(
                old_r.subrange(0, p as int),
                old_r.subrange(p as int, old_r.len() as int),
            );
            old_r.subrange(0, p as int).to_multiset_ensures();
            assert(v@.subrange(0, n as int + 1) =~= v@.subrange(0, n as int).push(x));
            v@.subrange(0, n as int).to_multiset_ensures();
            assert forall|i: int, j: int| 0 <= i < j < r@.len() implies r@[i] <= r@[j] by {
                if j < p {
                } else if i < p && j == p {
                } else if i < p {
                    assert(r@[j] == old_r[j - 1]);
                } else if i == p {
                    assert(r@[j] == old_r[j - 1]);
                    assert(!(old_r[p as int] <= x) || p == old_r.len());
                    if j - 1 > p {
                        assert(old_r[p as int] <= old_r[j - 1]);
                    }
                } else {
                    assert(r@[i] == old_r[i - 1]);
                    assert(r@[j] == old_r[j - 1]);
                }
            }
        }
        n = n + 1;
    }
    assert(v@.subrange(0, n as int) =~= v@);
    r
}

/// Twice the median of the values, computed on their ascending order.
pub fn twice_median_of(v: &Vec<u64>) -> (r: u128)
    requires
        v@.len() > 0,
    ensures
        exists|s: Seq<u64>|
            ascending(s) && s.to_multiset() == v@.to_multiset() && r == twice_median(s),
{
    let s = sort_ascending(v);
    proof {
        s@.to_multiset_ensures();
        v@.to_multiset_ensures();
    }
    let len = s.len();
    if len % 2 == 1 {
        2 * (s[len / 2] as u128)
    } else {
        s[len / 2 - 1] as u128 + s[len / 2] as u128
    }
}

/// The simulator's configuration and state.
pub struct FeeMarketSimulator {
    demand_curve: DemandCurve,
    initial_price: u64,
    block_gas_limit: u64,
    tx_gas_used: u64,
    block_time: u64,
    control_range: u64,
    target_fullness: Ratio,
    price_adjustment_rate: Ratio,
    txpool: TransactionPool,
    blocks: Vec<Block>,
    posted_price: u64,
    control_fullness: Fullness,
    ids: TxIds,
}

impl FeeMarketSimulator {
    /// Gas used by each block of the history, oldest first.
    pub closed spec fn history_gas(&self) -> Seq<u64> {
        self.blocks@.map_values(|b: Block| total_gas(b@) as u64)
    }

    /// The history's blocks, oldest first.
    pub closed spec fn history(&self) -> Seq<Block> {
        self.blocks@
    }

    /// Number of blocks simulated so far.
    pub closed spec fn height_spec(&self) -> nat {
        self.blocks@.len()
    }

    pub closed spec fn price_spec(&self) -> u64 {
        self.posted_price
    }

    pub closed spec fn fullness_spec(&self) -> Fullness {
        self.control_fullness
    }

    pub closed spec fn next_id_spec(&self) -> u64 {
        self.ids.upcoming()
    }

    pub closed spec fn pool_spec(&self) -> Seq<(u64, Transaction)> {
        self.txpool@
    }

    pub closed spec fn gas_limit_spec(&self) -> u64 {
        self.block_gas_limit
    }

    pub closed spec fn tx_gas_spec(&self) -> u64 {
        self.tx_gas_used
    }

    pub closed spec fn block_time_spec(&self) -> u64 {
        self.block_time
    }

    pub closed spec fn control_range_spec(&self) -> u64 {
        self.control_range
    }

    pub closed spec fn target_spec(&self) -> Ratio {
        self.target_fullness
    }

    pub closed spec fn rate_spec(&self) -> Ratio {
        self.price_adjustment_rate
    }

    pub closed spec fn curve_spec(&self) -> DemandCurve {
        self.demand_curve
    }

    /// The configuration is sound, and every block of the history is within
    /// the gas limit.
    pub closed spec fn wf(&self) -> bool {
        &&& self.demand_curve.wf()
        &&& self.txpool.wf()
        &&& self.control_range > 0
        &&& self.target_fullness.wf()
        &&& self.price_adjustment_rate.wf()
        &&& self.blocks@.len() <= u64::MAX
        &&& forall|i: int|
            0 <= i < self.blocks@.len() ==> #[trigger] total_gas(self.blocks@[i]@)
                <= self.block_gas_limit
    }

    /// A controller tick is due at `height`: every `control_range` blocks, never
    /// at height 0.
    pub open spec fn tick_due(&self) -> bool {
        self.height_spec() > 0 && (self.height_spec() as int) % (self.control_range_spec() as int) == 0
    }

    /// A simulator at height 0 with an empty pool, posting `initial_price`.
    pub fn new_autoprice_simulator(
        demand_curve: DemandCurve,
        initial_price: u64,
        block_gas_limit: u64,
        tx_gas_used: u64,
        txpool_size: usize,
        block_time: u64,
        control_range: u64,
        target_fullness: Ratio,
        price_adjustment_rate: Ratio,
    ) -> (r: FeeMarketSimulator)
        requires
            demand_curve.wf(),
            control_range > 0,
            target_fullness.wf(),
            price_adjustment_rate.wf(),
        ensures
            r.wf(),
            r.height_spec() == 0,
            r.price_spec() == initial_price,
            r.fullness_spec() == (Fullness { gas: 0, capacity: 1 }),
            r.next_id_spec() == 0,
            r.pool_spec() == Seq::<(u64, Transaction)>::empty(),
            r.gas_limit_spec() == block_gas_limit,
            r.tx_gas_spec() == tx_gas_used,
            r.block_time_spec() == block_time,
            r.control_range_spec() == control_range,
            r.target_spec() == target_fullness,
            r.rate_spec() == price_adjustment_rate,
            r.curve_spec() == demand_curve,
    {
        FeeMarketSimulator {
            demand_curve,
            initial_price,
            block_gas_limit,
            tx_gas_used,
            block_time,
            control_range,
            target_fullness,
            price_adjustment_rate,
            txpool: TransactionPool::new(txpool_size),
            blocks: Vec::new(),
            posted_price: initial_price,
            control_fullness: Fullness { gas: 0, capacity: 1 },
            ids: TxIds::new(),
        }
    }

    /// The price currently posted to users.
    pub fn posted_price(&self) -> (r: u64)
        ensures
            r == self.price_spec(),
    {
        self.posted_price
    }

    /// The fullness the controller last measured.
    pub fn control_fullness(&self) -> (r: Fullness)
        ensures
            r == self.fullness_spec(),
    {
        self.control_fullness
    }

    /// Number of blocks simulated so far.
    pub fn height(&self) -> (r: u64)
        requires
            self.wf(),
        ensures
            r == self.height_spec(),
    {
        self.blocks.len() as u64
    }

    /// The id the next admitted transaction gets.
    pub fn next_tx_id(&self) -> (r: u64)
        ensures
            r == self.next_id_spec(),
    {
        self.ids.peek()
    }

    /// Number of transactions waiting in the pool.
    pub fn txpool_size(&self) -> (r: u64)
        requires
            self.wf(),
        ensures
            r == self.pool_spec().len(),
    {
        self.txpool.size()
    }

    /// The time between two blocks.
    pub fn block_time(&self) -> (r: u64)
        ensures
            r == self.block_time_spec(),
    {
        self.block_time
    }

    /// The simulated blocks, oldest first.
    pub fn blocks(&self) -> (r: &Vec<Block>)
        ensures
            r@ == self.history(),
    {
        &self.blocks
    }

    /// Twice the median gas of the last `control_range` blocks.
    fn window_twice_median(&self) -> (r: u128)
        requires
            self.wf(),
            self.control_range <= self.blocks@.len(),
        ensures
            exists|s: Seq<u64>|
                ascending(s) && s.to_multiset() == self.history_gas().subrange(
                    self.blocks@.len() - self.control_range,
                    self.blocks@.len() as int,
                ).to_multiset() && r == twice_median(s),
            r <= 2 * self.block_gas_limit,
    {
        let len = self.blocks.len();
        let range = self.control_range as usize;
        let start = len - range;
        let mut window: Vec<u64> = Vec::new();
        let mut i: usize = start;
        while i < len
            invariant
                self.wf(),
                start <= i <= len,
                len == self.blocks@.len(),
                window@ == self.history_gas().subrange(start as int, i as int),
                forall|k: int| 0 <= k < window@.len() ==> #[trigger] window@[k] <= self.block_gas_limit,
            decreases len - i,
        {
            assert(self.blocks@[i as int].wf());
            let g = self.blocks[i].gas_used();
            window.push(g);
            i = i + 1;
            assert(window@ =~= self.history_gas().subrange(start as int, i as int));
        }
        let r = twice_median_of(&window);
        proof {
            let s = choose|s: Seq<u64>|
                ascending(s) && s.to_multiset() == window@.to_multiset() && r == twice_median(s);
            s.to_multiset_ensures();
            window@.to_multiset_ensures();
            assert forall|k: int| 0 <= k < s.len() implies s[k] <= self.block_gas_limit by {
                assert(s.to_multiset().count(s[k]) > 0);
                assert(window@.contains(s[k]));
            }
        }
        r
    }

    /// Runs the controller when a tick is due: measures the median fullness of
    /// the last `control_range` blocks, then raises the posted price by the
    /// adjustment rate if it lies above the target and lowers it otherwise.
    pub fn control_tick(&mut self)
        requires
            old(self).wf(),
        ensures
            final(self).wf(),
            final(self).history() == old(self).history(),
            final(self).pool_spec() == old(self).pool_spec(),
            final(self).next_id_spec() == old(self).next_id_spec(),
            final(self).curve_spec() == old(self).curve_spec(),
            final(self).gas_limit_spec() == old(self).gas_limit_spec(),
            final(self).tx_gas_spec() == old(self).tx_gas_spec(),
            final(self).block_time_spec() == old(self).block_time_spec(),
            final(self).control_range_spec() == old(self).control_range_spec(),
            final(self).target_spec() == old(self).target_spec(),
            final(self).rate_spec() == old(self).rate_spec(),
            !old(self).tick_due() ==> final(self).price_spec() == old(self).price_spec()
                && final(self).fullness_spec() == old(self).fullness_spec(),
            old(self).tick_due() ==> exists|s: Seq<u64>|
                {
                    &&& ascending(s)
                    &&& s.to_multiset() == old(self).history_gas().subrange(
                        old(self).height_spec() - old(self).control_range_spec(),
                        old(self).height_spec() as int,
                    ).to_multiset()
                    &&& final(self).fullness_spec() == (Fullness {
                        gas: twice_median(s) as u128,
                        capacity: (2 * old(self).gas_limit_spec()) as u128,
                    })
                    &&& final(self).price_spec() == adjusted_price(
                        old(self).price_spec(),
                        above_target(
                            twice_median(s),
                            old(self).gas_limit_spec(),
                            old(self).target_spec(),
                        ),
                        old(self).rate_spec(),
                    )
                },
    {
        let height = self.blocks.len() as u64;
        if height > 0 && height % self.control_range == 0 {
            proof {
                if (height as int) < (self.control_range as int) {
                    vstd::arithmetic::div_mod::lemma_small_mod(height as nat, self.control_range as nat);
                }
            }
            let m2 = self.window_twice_median();
            let ghost s = choose|s: Seq<u64>|
                ascending(s) && s.to_multiset() == self.history_gas().subrange(
                    self.blocks@.len() - self.control_range,
                    self.blocks@.len() as int,
                ).to_multiset() && m2 == twice_median(s);
            let limit = self.block_gas_limit as u128;
            let target = self.target_fullness;
            let rate = self.price_adjustment_rate;
            let scale = rate.den as u128 + rate.num as u128;
            let price = self.posted_price as u128;
            proof {
                let mi = m2 as int;
                let li = limit as int;
                let tn = target.num as int;
                let td = target.den as int;
                let pi = price as int;
                let si = scale as int;
                let di = rate.den as int;
                assert(mi * td <= 0x2_0000_0000_0000_0000 * 0x1_0000_0000) by (nonlinear_arith)
                    requires
                        0 <= mi <= 2 * li,
                        0 <= li <= 0xffff_ffff_ffff_ffff,
                        0 <= td <= 0xffff_ffff,
                ;
                assert(2 * li * tn <= 0x2_0000_0000_0000_0000 * 0x1_0000_0000) by (nonlinear_arith)
                    requires
                        0 <= li <= 0xffff_ffff_ffff_ffff,
                        0 <= tn <= 0xffff_ffff,
                ;
                assert(pi * si <= 0x1_0000_0000_0000_0000 * 0x2_0000_0000) by (nonlinear_arith)
                    requires
                        0 <= pi <= 0xffff_ffff_ffff_ffff,
                        0 <= si <= 0x1_ffff_fffe,
                ;
                assert(pi * di <= 0x1_0000_0000_0000_0000 * 0x1_0000_0000) by (nonlinear_arith)
                    requires
                        0 <= pi <= 0xffff_ffff_ffff_ffff,
                        0 <= di <= 0xffff_ffff,
                ;
                assert(pi * di / si <= pi) by (nonlinear_arith)
                    requires
                        si >= di,
                        di >= 0,
                        pi >= 0,
                        si > 0,
                ;
            }
            let raise = m2 * (target.den as u128) > 2 * limit * (target.num as u128);
            let new_price = if raise {
                let p = price * scale / (rate.den as u128);
                if p > u64::MAX as u128 {
                    u64::MAX
                } else {
                    p as u64
                }
            } else {
                (price * (rate.den as u128) / scale) as u64
            };
            proof {
                assert(raise == above_target(twice_median(s), self.block_gas_limit, target));
            }
            self.posted_price = new_price;
            self.control_fullness = Fullness { gas: m2, capacity: 2 * limit };
        }
    }

    /// The simulated time of the next block.
    pub fn current_time(&self) -> (r: u64)
        requires
            self.wf(),
            self.height_spec() * self.block_time_spec() <= u64::MAX,
        ensures
            r == self.height_spec() * self.block_time_spec(),
    {
        self.blocks.len() as u64 * self.block_time
    }

    /// Simulates one block: draws `n_user` willingness-to-pay values, admits one
    /// transaction at the posted price for each value at or above
    /// `admission_threshold`, adds them to the pool, fills a block greedily up
    /// to the gas limit, appends it to the history and reports it.
    pub fn produce_block(&mut self, n_user: u64, admission_threshold: u64) -> (r: BlockRecord)
        requires
            old(self).wf(),
            n_user <= usize::MAX,
            old(self).next_id_spec() + n_user < u64::MAX,
            old(self).height_spec() < u64::MAX,
            old(self).height_spec() * old(self).block_time_spec() <= u64::MAX,
        ensures
            final(self).wf(),
            final(self).curve_spec().table() == old(self).curve_spec().table(),
            final(self).curve_spec().prices() == old(self).curve_spec().prices(),
            final(self).price_spec() == old(self).price_spec(),
            final(self).fullness_spec() == old(self).fullness_spec(),
            final(self).gas_limit_spec() == old(self).gas_limit_spec(),
            final(self).tx_gas_spec() == old(self).tx_gas_spec(),
            final(self).block_time_spec() == old(self).block_time_spec(),
            final(self).control_range_spec() == old(self).control_range_spec(),
            final(self).target_spec() == old(self).target_spec(),
            final(self).rate_spec() == old(self).rate_spec(),
            exists|draws: Seq<u64>|
                {
                    &&& draws.len() == n_user
                    &&& forall|i: int|
                        0 <= i < draws.len() ==> old(self).curve_spec().table().contains(
                            #[trigger] draws[i],
                        )
                    &&& r.n_sent_tx == count_at_least(draws, admission_threshold)
                },
            r.n_sent_tx <= n_user,
            ({
                let sent = fresh_txs(
                    old(self).next_id_spec(),
                    r.n_sent_tx as int,
                    old(self).tx_gas_spec(),
                    old(self).price_spec(),
                );
                let admitted = inserted_all(old(self).pool_spec(), priced(sent));
                let taken = greedy_take(admitted, old(self).gas_limit_spec() as int);
                &&& final(self).next_id_spec() == old(self).next_id_spec() + r.n_sent_tx
                &&& taken.len() <= admitted.len()
                &&& final(self).pool_spec() == admitted.subrange(0, admitted.len() - taken.len())
                &&& final(self).history().len() == old(self).history().len() + 1
                &&& final(self).history().drop_last() == old(self).history()
                &&& final(self).history().last()@ == taken
                &&& total_gas(taken) <= old(self).gas_limit_spec()
                &&& r == (BlockRecord {
                    height: old(self).height_spec() as u64,
                    time: (old(self).height_spec() * old(self).block_time_spec()) as u64,
                    n_user,
                    n_sent_tx: r.n_sent_tx,
                    n_included_tx: taken.len() as u64,
                    n_unincluded_tx: if r.n_sent_tx > taken.len() {
                        (r.n_sent_tx - taken.len()) as u64
                    } else {
                        0
                    },
                    txpool_size: final(self).pool_spec().len() as u64,
                    control_fullness: old(self).fullness_spec(),
                    posted_price: old(self).price_spec(),
                })
            }),
    {
        let draws = self.demand_curve.sample_price(n_user as usize);
        let mut n_sent: u64 = 0;
        let mut i: usize = 0;
        while i < draws.len()
            invariant
                i <= draws@.len(),
                draws@.len() == n_user,
                n_sent <= i,
                n_sent == count_at_least(draws@.subrange(0, i as int), admission_threshold),
                self.wf(),
            decreases draws@.len() - i,
        {
            assert(draws@.subrange(0, i as int + 1).drop_last() =~= draws@.subrange(0, i as int));
            if draws[i] >= admission_threshold {
                n_sent = n_sent + 1;
            }
            i = i + 1;
        }
        assert(draws@.subrange(0, i as int) =~= draws@);
        let price = self.posted_price;
        let gas = self.tx_gas_used;
        let ghost first = self.ids.upcoming();
        let mut txs: Vec<Transaction> = Vec::new();
        let mut k: u64 = 0;
        while k < n_sent
            invariant
                k <= n_sent,
                n_sent <= n_user,
                first + n_user < u64::MAX,
                self.ids.upcoming() == first + k,
                txs@ == fresh_txs(first, k as int, gas, price),
                self.wf(),
                self.txpool@ == old(self).txpool@,
                self.blocks@ == old(self).blocks@,
                self.posted_price == old(self).posted_price,
                self.control_fullness == old(self).control_fullness,
                self.block_gas_limit == old(self).block_gas_limit,
                self.tx_gas_used == old(self).tx_gas_used,
                self.block_time == old(self).block_time,
                self.control_range == old(self).control_range,
                self.target_fullness == old(self).target_fullness,
                self.price_adjustment_rate == old(self).price_adjustment_rate,
                self.demand_curve.table() == old(self).demand_curve.table(),
                self.demand_curve.prices() == old(self).demand_curve.prices(),
                old(self).next_id_spec() == first,
            decreases n_sent - k,
        {
            let tx = self.ids.issue(gas, price);
            txs.push(tx);
            k = k + 1;
            assert(txs@ =~= fresh_txs(first, k as int, gas, price));
        }
        let ghost before = self.txpool@;
        self.txpool.add_txs(txs);
        let ghost admitted = self.txpool@;
        let included = self.txpool.pop_most_valuable_txs(self.block_gas_limit);
        let n_included = included.len() as u64;
        let mut block = Block::new(self.block_gas_limit);
        assert(Seq::<Transaction>::empty() + included@ =~= included@);
        block.add_txs(included);
        let height = self.blocks.len() as u64;
        let time = height * self.block_time;
        let ghost old_blocks = self.blocks@;
        self.blocks.push(block);
        proof {
            assert(self.blocks@.drop_last() =~= old_blocks);
            assert forall|j: int| 0 <= j < self.blocks@.len() implies #[trigger] total_gas(
                self.blocks@[j]@,
            ) <= self.block_gas_limit by {
                if j < old_blocks.len() {
                    assert(self.blocks@[j] == old_blocks[j]);
                }
            }
        }
        let n_unincluded = if n_sent > n_included {
            n_sent - n_included
        } else {
            0
        };
        BlockRecord {
            height,
            time,
            n_user,
            n_sent_tx: n_sent,
            n_included_tx: n_included,
            n_unincluded_tx: n_unincluded,
            txpool_size: self.txpool.size(),
            control_fullness: self.control_fullness,
            posted_price: price,
        }
    }
}

} // verus!
