//! Transactions and the pool that holds them until a block takes them.

use vstd::prelude::*;
use crate::sorted_list::{SortedList, inserted_all};

verus! {

/// A transaction: `gas_used` units of gas offered at `gas_price` each. Two
/// transactions are the same transaction when their ids are equal.
#[derive(Clone, Copy, Debug)]
pub struct Transaction {
    pub id: u64,
    pub gas_used: u64,
    pub gas_price: u64,
}

impl PartialEq for Transaction {
    fn eq(&self, other: &Transaction) -> (r: bool) {
        self.id == other.id
    }
}

impl vstd::std_specs::cmp::PartialEqSpecImpl for Transaction {
    open spec fn obeys_eq_spec() -> bool {
        true
    }

    open spec fn eq_spec(&self, other: &Transaction) -> bool {
        self.id == other.id
    }
}

/// Hands out transaction ids, each one once.
pub struct TxIds {
    next: u64,
}

impl TxIds {
    /// The id that the next call of `issue` gives.
    pub closed spec fn upcoming(&self) -> u64 {
        self.next
    }

    /// A generator whose first id is 0.
    pub fn new() -> (r: TxIds)
        ensures
            r.upcoming() == 0,
    {
        TxIds { next: 0 }
    }

    /// The id that the next call of `issue` gives.
    pub fn peek(&self) -> (r: u64)
        ensures
            r == self.upcoming(),
    {
        self.next
    }

    /// A new transaction with a fresh id.
    pub fn issue(&mut self, gas_used: u64, gas_price: u64) -> (r: Transaction)
        requires
            old(self).upcoming() < u64::MAX,
        ensures
            r == (Transaction { id: old(self).upcoming(), gas_used, gas_price }),
            final(self).upcoming() == old(self).upcoming() + 1,
    {
        let id = self.next;
        self.next = self.next + 1;
        Transaction::new(id, gas_used, gas_price)
    }
}

/// Total gas of a sequence of transactions.
pub open spec fn total_gas(txs: Seq<Transaction>) -> int
    decreases txs.len(),
{
    if txs.len() == 0 {
        0
    } else {
        total_gas(txs.drop_last()) + txs.last().gas_used
    }
}

/// What greedy extraction takes from `s` within `budget`: the last entry's
/// transaction if its gas fits, then on from what remains with the budget that
/// is left; nothing once the last entry does not fit.
pub open spec fn greedy_take(s: Seq<(u64, Transaction)>, budget: int) -> Seq<Transaction>
    decreases s.len(),
{
    if s.len() == 0 || s.last().1.gas_used > budget {
        Seq::empty()
    } else {
        seq![s.last().1] + greedy_take(s.drop_last(), budget - s.last().1.gas_used)
    }
}

/// The pool's entries for `txs`: each keyed by its price.
pub open spec fn priced(txs: Seq<Transaction>) -> Seq<(u64, Transaction)> {
    txs.map_values(|t: Transaction| (t.gas_price, t))
}

impl Transaction {
    /// A transaction with the given id, gas and price.
    pub fn new(id: u64, gas_used: u64, gas_price: u64) -> (r: Transaction)
        ensures
            r == (Transaction { id, gas_used, gas_price }),
    {
        Transaction { id, gas_used, gas_price }
    }

    /// What the transaction pays: gas used times gas price.
    pub fn fee(&self) -> (r: u64)
        requires
            self.gas_used * self.gas_price <= u64::MAX,
        ensures
            r == self.gas_used * self.gas_price,
    {
        self.gas_used * self.gas_price
    }

    pub fn gas_used(&self) -> (r: u64)
        ensures
            r == self.gas_used,
    {
        self.gas_used
    }

    pub fn gas_price(&self) -> (r: u64)
        ensures
            r == self.gas_price,
    {
        self.gas_price
    }
}

/// Transactions waiting for a block, ordered by price; among equal prices the
/// later arrival stands further back.
///
/// The capacity is recorded but not enforced: the pool takes every admitted
/// transaction, as the market model sends each one to the pool.
pub struct TransactionPool {
    pool: SortedList<u64, Transaction>,
    limit: usize,
}

impl TransactionPool {
    /// The pool's entries, (price, transaction), cheapest first.
    pub closed spec fn view(&self) -> Seq<(u64, Transaction)> {
        self.pool@
    }

    /// The capacity the pool was made with.
    pub closed spec fn capacity(&self) -> usize {
        self.limit
    }

    /// Every entry is keyed by its transaction's price, and the list is sound.
    pub closed spec fn wf(&self) -> bool {
        &&& self.pool.wf()
        &&& forall|i: int| 0 <= i < self.pool@.len() ==> #[trigger] self.pool@[i].0 == self.pool@[i].1.gas_price
    }

    /// An empty pool of the given capacity.
    pub fn new(limit: usize) -> (r: TransactionPool)
        ensures
            r.wf(),
            r@ == Seq::<(u64, Transaction)>::empty(),
            r.capacity() == limit,
    {
        TransactionPool { pool: SortedList::new(), limit }
    }

    /// Admits each of `txs`, first to last, keyed by its price.
    pub fn add_txs(&mut self, txs: Vec<Transaction>)
        requires
            old(self).wf(),
        ensures
            final(self).wf(),
            final(self)@ == inserted_all(old(self)@, priced(txs@)),
            final(self).capacity() == old(self).capacity(),
    {
        let ghost start = self@;
        let ghost all = txs@;
        let mut n: usize = 0;
        while n < txs.len()
            invariant
                self.wf(),
                n <= all.len(),
                txs@ == all,
                self.limit == old(self).limit,
                self@ == inserted_all(start, priced(all.subrange(0, n as int))),
            decreases all.len() - n,
        {
            let tx = txs[n];
            let ghost before = self.pool@;
            self.pool.insert(tx.gas_price, tx);
            proof {
                assert(priced(all.subrange(0, n as int + 1)).drop_last() =~= priced(
                    all.subrange(0, n as int),
                ));
                assert(priced(all.subrange(0, n as int + 1)).last() == (tx.gas_price, tx));
                crate::sorted_list::lemma_count_is_upper_place(before, tx.gas_price);
                assert forall|i: int| 0 <= i < self.pool@.len() implies #[trigger] self.pool@[i].0
                    == self.pool@[i].1.gas_price by {
                    if !crate::sorted_list::holds_pair(before, tx.gas_price, tx) {
                        let p = crate::sorted_list::count_at_or_below(before, tx.gas_price);
                        if i < p {
                            assert(self.pool@[i] == before[i]);
                        } else if i > p {
                            assert(self.pool@[i] == before[i - 1]);
                        }
                    }
                }
            }
            n = n + 1;
        }
        assert(all.subrange(0, n as int) =~= all);
    }

    /// Takes transactions from the most expensive end while their gas fits
    /// within `total_gas_target`, and returns them in the order taken.
    pub fn pop_most_valuable_txs(&mut self, total_gas_target: u64) -> (r: Vec<Transaction>)
        requires
            old(self).wf(),
        ensures
            final(self).wf(),
            final(self).capacity() == old(self).capacity(),
            r@.len() <= old(self)@.len(),
            final(self)@ == old(self)@.subrange(0, old(self)@.len() - r@.len()),
            forall|i: int| 0 <= i < r@.len() ==> #[trigger] r@[i] == old(self)@[old(self)@.len() - 1 - i].1,
            total_gas(r@) <= total_gas_target,
            final(self)@.len() == 0 || total_gas(r@) + final(self)@.last().1.gas_used
                > total_gas_target,
            forall|i: int, j: int|
                0 <= i < r@.len() && 0 <= j < final(self)@.len() ==> #[trigger] r@[i].gas_price
                    >= #[trigger] final(self)@[j].1.gas_price,
            r@ == greedy_take(old(self)@, total_gas_target as int),
    {
        let mut result: Vec<Transaction> = Vec::new();
        let mut total_gas_used: u64 = 0;
        let ghost start = self@;
        loop
            invariant
                self.wf(),
                self.limit == old(self).limit,
                start == old(self)@,
                result@.len() <= start.len(),
                self@ == start.subrange(0, start.len() - result@.len()),
                forall|i: int| 0 <= i < result@.len() ==> #[trigger] result@[i] == start[start.len() - 1 - i].1,
                total_gas_used == total_gas(result@),
                total_gas_used <= total_gas_target,
                greedy_take(start, total_gas_target as int) == result@ + greedy_take(
                    self@,
                    total_gas_target - total_gas_used,
                ),
            ensures
                self.wf(),
                self.limit == old(self).limit,
                result@.len() <= start.len(),
                self@ == start.subrange(0, start.len() - result@.len()),
                forall|i: int| 0 <= i < result@.len() ==> #[trigger] result@[i] == start[start.len() - 1 - i].1,
                total_gas_used == total_gas(result@),
                total_gas_used <= total_gas_target,
                self@.len() == 0 || total_gas(result@) + self@.last().1.gas_used > total_gas_target,
                greedy_take(start, total_gas_target as int) == result@,
            decreases self@.len(),
        {
            let len = self.pool.len();
            if len == 0 {
                assert(result@ + greedy_take(self@, total_gas_target - total_gas_used) =~= result@);
                break;
            }
            let tx = *self.pool.get(len - 1);
            if tx.gas_used > total_gas_target - total_gas_used {
                assert(result@ + greedy_take(self@, total_gas_target - total_gas_used) =~= result@);
                break;
            }
            let ghost rest = self@;
            total_gas_used = total_gas_used + tx.gas_used;
            let ghost before = result@;
            result.push(tx);
            assert(result@.drop_last() == before);
            self.pool.remove(len - 1);
            assert(self@ =~= start.subrange(0, start.len() - result@.len()));
            assert(self@ =~= rest.drop_last());
            assert(result@ =~= before + seq![tx]);
            assert(before + greedy_take(rest, total_gas_target - (total_gas_used - tx.gas_used))
                =~= result@ + greedy_take(self@, total_gas_target - total_gas_used));
        }
        proof {
            assert forall|i: int, j: int|
                0 <= i < result@.len() && 0 <= j < self@.len() implies #[trigger] result@[i].gas_price
                >= #[trigger] self@[j].1.gas_price by {
                let k = start.len() - 1 - i;
                assert(self@[j] == start[j]);
                assert(start[j].0 <= start[k].0);
                assert(start[j].0 == start[j].1.gas_price);
                assert(start[k].0 == start[k].1.gas_price);
            }
        }
        result
    }

    /// Number of waiting transactions.
    pub fn size(&self) -> (r: u64)
        requires
            self.wf(),
        ensures
            r == self@.len(),
    {
        self.pool.len() as u64
    }
}

} // verus!
