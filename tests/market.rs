use fee_market_simulator::block::{Block, Fullness};
use fee_market_simulator::demand::{validate_schedule, DemandCurve, DemandError};
use fee_market_simulator::simulator::{
    sort_ascending, twice_median_of, FeeMarketSimulator, Ratio,
};
use fee_market_simulator::transaction::{Transaction, TransactionPool, TxIds};

fn tx(id: u64, gas_used: u64, gas_price: u64) -> Transaction {
    Transaction::new(id, gas_used, gas_price)
}

fn linear_schedule() -> (Vec<u64>, Vec<u64>) {
    let price: Vec<u64> = (0..=1000).map(|i| i * 1000).collect();
    let quantity: Vec<u64> = (0..=1000).map(|i| 100_000 - i * 100).collect();
    (price, quantity)
}

#[test]
fn transaction_fee_and_fields() {
    let t = tx(3, 21_000, 7);
    assert_eq!(t.fee(), 147_000);
    assert_eq!(t.gas_used(), 21_000);
    assert_eq!(t.gas_price(), 7);
    assert!(t == tx(3, 1, 1));
    assert!(t != tx(4, 21_000, 7));
}

#[test]
fn ids_are_issued_in_sequence() {
    let mut ids = TxIds::new();
    let a = ids.issue(10, 5);
    let b = ids.issue(10, 5);
    assert_eq!(a.id, 0);
    assert_eq!(b.id, 1);
    assert_eq!(ids.peek(), 2);
}

#[test]
fn pool_extraction_stays_within_budget() {
    let mut pool = TransactionPool::new(100);
    pool.add_txs(vec![tx(0, 21_000, 5), tx(1, 21_000, 9), tx(2, 21_000, 7), tx(3, 21_000, 1)]);
    assert_eq!(pool.size(), 4);
    let taken = pool.pop_most_valuable_txs(50_000);
    let total: u64 = taken.iter().map(|t| t.gas_used).sum();
    assert!(total <= 50_000);
    assert_eq!(taken.len(), 2);
    assert_eq!(pool.size(), 2);
}

#[test]
fn pool_extraction_takes_highest_prices_first() {
    let mut pool = TransactionPool::new(100);
    pool.add_txs(vec![tx(0, 10, 5), tx(1, 10, 9), tx(2, 10, 7), tx(3, 10, 1), tx(4, 10, 8)]);
    let taken = pool.pop_most_valuable_txs(30);
    let prices: Vec<u64> = taken.iter().map(|t| t.gas_price).collect();
    assert_eq!(prices, vec![9, 8, 7]);
    let rest = pool.pop_most_valuable_txs(u64::MAX);
    let rest_prices: Vec<u64> = rest.iter().map(|t| t.gas_price).collect();
    assert_eq!(rest_prices, vec![5, 1]);
    assert!(rest_prices.iter().all(|p| *p <= 7));
}

#[test]
fn pool_ties_go_to_the_latest_arrival() {
    let mut pool = TransactionPool::new(10);
    pool.add_txs(vec![tx(10, 1, 4), tx(11, 1, 4), tx(12, 1, 4)]);
    let taken = pool.pop_most_valuable_txs(2);
    let ids: Vec<u64> = taken.iter().map(|t| t.id).collect();
    assert_eq!(ids, vec![12, 11]);
}

#[test]
fn pool_stops_at_first_transaction_that_does_not_fit() {
    let mut pool = TransactionPool::new(10);
    pool.add_txs(vec![tx(0, 1, 1), tx(1, 100, 5)]);
    let taken = pool.pop_most_valuable_txs(50);
    assert!(taken.is_empty());
    assert_eq!(pool.size(), 2);
}

#[test]
fn pool_same_transaction_twice_is_kept_once() {
    let mut pool = TransactionPool::new(10);
    pool.add_txs(vec![tx(0, 1, 1), tx(0, 1, 1)]);
    assert_eq!(pool.size(), 1);
}

#[test]
fn empty_pool_gives_nothing() {
    let mut pool = TransactionPool::new(10);
    assert!(pool.pop_most_valuable_txs(1_000).is_empty());
}

#[test]
fn block_statistics() {
    let mut block = Block::new(100);
    block.add_txs(vec![tx(0, 10, 4), tx(1, 20, 1), tx(2, 30, 3), tx(3, 5, 2)]);
    assert_eq!(block.gas_used(), 65);
    assert_eq!(block.gas_limit(), 100);
    assert_eq!(block.fullness(), Fullness { gas: 65, capacity: 100 });
    assert_eq!(block.tx_count(), 4);
    assert_eq!(block.min_price(), 1);
    assert_eq!(block.max_price(), 4);
    assert_eq!(block.median_price(), 2);
    assert_eq!(block.mean_price(), 2);
}

#[test]
fn block_median_of_odd_count() {
    let mut block = Block::new(100);
    block.add_txs(vec![tx(0, 1, 50), tx(1, 1, 10), tx(2, 1, 30)]);
    assert_eq!(block.median_price(), 30);
    assert_eq!(block.mean_price(), 30);
}

#[test]
fn schedule_errors() {
    assert_eq!(validate_schedule(&vec![1], &vec![0], 10), Err(DemandError::TooFewPoints));
    assert_eq!(validate_schedule(&vec![1, 2], &vec![0], 10), Err(DemandError::LengthMismatch));
    assert_eq!(
        validate_schedule(&vec![2, 2], &vec![5, 0], 10),
        Err(DemandError::PriceNotIncreasing)
    );
    assert_eq!(
        validate_schedule(&vec![3, 1], &vec![5, 0], 10),
        Err(DemandError::PriceNotIncreasing)
    );
    assert_eq!(
        validate_schedule(&vec![1, 2], &vec![5, 1], 10),
        Err(DemandError::LastQuantityNotZero)
    );
    assert_eq!(validate_schedule(&vec![1, 2], &vec![0, 0], 10), Err(DemandError::NoDemand));
    assert_eq!(
        validate_schedule(&vec![1, 2], &vec![5, 0], 1),
        Err(DemandError::ResolutionTooSmall)
    );
    assert_eq!(validate_schedule(&vec![1, 2], &vec![5, 0], 2), Ok(()));
}

#[test]
fn demand_curve_refuses_bad_schedule() {
    let r = DemandCurve::new(vec![0, 10], vec![5, 3], vec![0, 10]);
    assert!(matches!(r, Err(DemandError::LastQuantityNotZero)));
}

#[test]
fn demand_curve_holds_table_within_price_range() {
    let r = DemandCurve::new(vec![100, 200, 300], vec![9, 4, 0], vec![50, 150, 250, 900]);
    let curve = match r {
        Ok(c) => c,
        Err(e) => panic!("unexpected {:?}", e),
    };
    assert_eq!(curve.inverse_transform(), &vec![100, 150, 250, 300]);
    assert_eq!(curve.price(), &vec![100, 200, 300]);
    assert_eq!(curve.quantity(), &vec![9, 4, 0]);
}

#[test]
fn samples_stay_within_price_range() {
    let (price, quantity) = linear_schedule();
    let table: Vec<u64> = (0..1000u64).map(|i| i * 1001 + 1).collect();
    let mut curve = match DemandCurve::new(price, quantity, table.clone()) {
        Ok(c) => c,
        Err(e) => panic!("unexpected {:?}", e),
    };
    assert_eq!(curve.inverse_transform().len(), 1000);
    assert_eq!(curve.inverse_transform()[999], 1_000_000);
    let samples = curve.sample_price(10_000);
    assert_eq!(samples.len(), 10_000);
    for s in samples {
        assert!(s <= 1_000_000);
        assert!(curve.inverse_transform().contains(&s));
    }
    assert!(curve.sample_price(0).is_empty());
}

#[test]
fn sorting_and_median() {
    assert_eq!(sort_ascending(&vec![5, 1, 4, 1, 3]), vec![1, 1, 3, 4, 5]);
    assert_eq!(twice_median_of(&vec![5, 1, 4, 1, 3]), 6);
    assert_eq!(twice_median_of(&vec![7, 2, 4, 1]), 6);
    assert_eq!(twice_median_of(&vec![9]), 18);
}

fn flat_demand(willingness: u64) -> DemandCurve {
    match DemandCurve::new(vec![0, willingness], vec![10, 0], vec![willingness; 8]) {
        Ok(c) => c,
        Err(e) => panic!("unexpected {:?}", e),
    }
}

#[test]
fn first_block_record() {
    let mut sim = FeeMarketSimulator::new_autoprice_simulator(
        flat_demand(1_000),
        100,
        5_000,
        1_000,
        1_000,
        12,
        4,
        Ratio { num: 1, den: 2 },
        Ratio { num: 1, den: 8 },
    );
    sim.control_tick();
    let price = sim.posted_price();
    let rec = sim.produce_block(10, price);
    assert_eq!(rec.height, 0);
    assert_eq!(rec.time, 0);
    assert_eq!(rec.n_user, 10);
    assert_eq!(rec.n_sent_tx, 10);
    assert_eq!(rec.n_included_tx, 5);
    assert_eq!(rec.n_unincluded_tx, 5);
    assert_eq!(rec.txpool_size, 5);
    assert_eq!(rec.control_fullness, Fullness { gas: 0, capacity: 1 });
    assert_eq!(rec.posted_price, 100);
    assert_eq!(sim.height(), 1);
    assert_eq!(sim.current_time(), 12);
    assert_eq!(sim.next_tx_id(), 10);
    assert_eq!(sim.blocks()[0].gas_used(), 5_000);
}

#[test]
fn threshold_above_every_willingness_admits_nobody() {
    let mut sim = FeeMarketSimulator::new_autoprice_simulator(
        flat_demand(1_000),
        100,
        5_000,
        1_000,
        1_000,
        1,
        4,
        Ratio { num: 1, den: 2 },
        Ratio { num: 1, den: 8 },
    );
    let rec = sim.produce_block(10, 1_001);
    assert_eq!(rec.n_sent_tx, 0);
    assert_eq!(rec.n_included_tx, 0);
    assert_eq!(sim.txpool_size(), 0);
}

#[test]
fn controller_raises_price_while_blocks_are_too_full() {
    let mut sim = FeeMarketSimulator::new_autoprice_simulator(
        flat_demand(1_000_000),
        100,
        5_000,
        1_000,
        1_000,
        1,
        4,
        Ratio { num: 1, den: 2 },
        Ratio { num: 1, den: 8 },
    );
    let mut prices_at_ticks = Vec::new();
    for height in 0..40u64 {
        sim.control_tick();
        if height > 0 && height % 4 == 0 {
            prices_at_ticks.push(sim.posted_price());
            assert_eq!(sim.control_fullness(), Fullness { gas: 10_000, capacity: 10_000 });
        }
        let price = sim.posted_price();
        sim.produce_block(10, price);
    }
    assert_eq!(prices_at_ticks[0], 112);
    let mut last = 100;
    for p in prices_at_ticks {
        assert!(p > last);
        last = p;
    }
}

#[test]
fn controller_lowers_price_when_blocks_are_empty() {
    let mut sim = FeeMarketSimulator::new_autoprice_simulator(
        flat_demand(10),
        1_000,
        5_000,
        1_000,
        1_000,
        1,
        2,
        Ratio { num: 1, den: 2 },
        Ratio { num: 1, den: 4 },
    );
    for _ in 0..3 {
        sim.control_tick();
        let price = sim.posted_price();
        sim.produce_block(3, price);
    }
    assert_eq!(sim.posted_price(), 800);
    assert_eq!(sim.control_fullness(), Fullness { gas: 0, capacity: 10_000 });
}
