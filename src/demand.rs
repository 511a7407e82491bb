//! The demand curve: a price/quantity schedule and the inverse-transform table
//! that willingness-to-pay values are drawn from.

use vstd::prelude::*;
use rand::rngs::ThreadRng;
use rand::seq::SliceRandom;

verus! {

#[verifier::external_type_specification]
#[verifier::external_body]
pub struct ExThreadRng(ThreadRng);

/// Relies on `rand::thread_rng`: a handle to the thread's generator.
pub assume_specification[ rand::thread_rng ]() -> ThreadRng;

/// Relies on rand's `SliceRandom::choose`: for a non-empty slice it returns one
/// of the slice's elements.
#[verifier::external_body]
fn choose_entry(table: &Vec<u64>, rng: &mut ThreadRng) -> (r: u64)
    requires
        table@.len() > 0,
    ensures
        table@.contains(r),
{
    *table.as_slice().choose(rng).unwrap()
}

/// Why a demand schedule was refused.
#[derive(Clone, Copy, Debug, PartialEq, Eq)]
pub enum DemandError {
    /// Fewer than two price points.
    TooFewPoints,
    /// The price and quantity lists differ in length.
    LengthMismatch,
    /// The prices do not strictly increase.
    PriceNotIncreasing,
    /// The last quantity is not zero.
    LastQuantityNotZero,
    /// Every quantity is zero, so there is no demand to normalise by.
    NoDemand,
    /// The table would hold fewer than two entries.
    ResolutionTooSmall,
}

/// Each price is above the one before it.
pub open spec fn strictly_increasing(s: Seq<u64>) -> bool {
    forall|i: int, j: int| 0 <= i < j < s.len() ==> s[i] < s[j]
}

/// Some quantity is not zero.
pub open spec fn has_demand(q: Seq<u64>) -> bool {
    exists|i: int| 0 <= i < q.len() && q[i] != 0
}

/// The outcome of checking a schedule and a table resolution: the first failed
/// condition, in the order listed in `DemandError`.
pub open spec fn schedule_check(price: Seq<u64>, quantity: Seq<u64>, resolution: int) -> Result<
    (),
    DemandError,
> {
    if price.len() < 2 {
        Err(DemandError::TooFewPoints)
    } else if price.len() != quantity.len() {
        Err(DemandError::LengthMismatch)
    } else if !strictly_increasing(price) {
        Err(DemandError::PriceNotIncreasing)
    } else if quantity.last() != 0 {
        Err(DemandError::LastQuantityNotZero)
    } else if !has_demand(quantity) {
        Err(DemandError::NoDemand)
    } else if resolution < 2 {
        Err(DemandError::ResolutionTooSmall)
    } else {
        Ok(())
    }
}

/// `x` held within `[lo, hi]`.
pub open spec fn clamp(x: u64, lo: u64, hi: u64) -> u64 {
    if x < lo {
        lo
    } else if x > hi {
        hi
    } else {
        x
    }
}

/// Checks a price/quantity schedule and the resolution of the table built from it.
pub fn validate_schedule(price: &Vec<u64>, quantity: &Vec<u64>, interp_resolution: u64) -> (r:
    Result<(), DemandError>)
    ensures
        r == schedule_check(price@, quantity@, interp_resolution as int),
{
    if price.len() < 2 {
        return Err(DemandError::TooFewPoints);
    }
    if price.len() != quantity.len() {
        return Err(DemandError::LengthMismatch);
    }
    let mut i: usize = 1;
    while i < price.len()
        invariant
            1 <= i <= price@.len(),
            price@.len() >= 2,
            price@.len() == quantity@.len(),
            forall|a: int, b: int| 0 <= a < b < i ==> price@[a] < price@[b],
        decreases price@.len() - i,
    {
        if price[i - 1] >= price[i] {
            assert(!strictly_increasing(price@)) by {
                assert(!(price@[i - 1] < price@[i as int]));
            }

            return Err(DemandError::PriceNotIncreasing);
        }
        i = i + 1;
    }
    if quantity[quantity.len() - 1] != 0 {
        return Err(DemandError::LastQuantityNotZero);
    }
    let mut j: usize = 0;
    let mut any = false;
    while j < quantity.len()
        invariant
            j <= quantity@.len(),
            price@.len() >= 2,
            price@.len() == quantity@.len(),
            strictly_increasing(price@),
            quantity@.last() == 0,
            any == exists|k: int| 0 <= k < j && quantity@[k] != 0,
        decreases quantity@.len() - j,
    {
        if quantity[j] != 0 {
            any = true;
        }
        j = j + 1;
    }
    if !any {
        return Err(DemandError::NoDemand);
    }
    if interp_resolution < 2 {
        return Err(DemandError::ResolutionTooSmall);
    }
    Ok(())
}

/// A demand schedule with its inverse-transform table and the generator that
/// draws from the table.
pub struct DemandCurve {
    price: Vec<u64>,
    quantity: Vec<u64>,
    inverse_transform: Vec<u64>,
    rng: ThreadRng,
}

impl DemandCurve {
    pub closed spec fn prices(&self) -> Seq<u64> {
        self.price@
    }

    pub closed spec fn quantities(&self) -> Seq<u64> {
        self.quantity@
    }

    /// The inverse-transform table.
    pub closed spec fn table(&self) -> Seq<u64> {
        self.inverse_transform@
    }

    /// The schedule is valid and every table entry lies within its price range.
    pub open spec fn wf(&self) -> bool {
        &&& schedule_check(self.prices(), self.quantities(), self.table().len() as int) is Ok
        &&& forall|i: int|
            0 <= i < self.table().len() ==> self.prices()[0] <= #[trigger] self.table()[i]
                <= self.prices().last()
    }

    /// A curve from a schedule and the table computed for it; each table entry
    /// is held within the schedule's price range.
    pub fn new(price: Vec<u64>, quantity: Vec<u64>, inverse_transform: Vec<u64>) -> (r: Result<
        DemandCurve,
        DemandError,
    >)
        ensures
            r is Err ==> r == Err::<DemandCurve, DemandError>(
                schedule_check(price@, quantity@, inverse_transform@.len() as int)->Err_0,
            ),
            r is Ok <==> schedule_check(price@, quantity@, inverse_transform@.len() as int) is Ok,
            r matches Ok(c) ==> {
                &&& c.wf()
                &&& c.prices() == price@
                &&& c.quantities() == quantity@
                &&& c.table().len() == inverse_transform@.len()
                &&& forall|i: int|
                    0 <= i < c.table().len() ==> #[trigger] c.table()[i] == clamp(
                        inverse_transform@[i],
                        price@[0],
                        price@.last(),
                    )
            },
    {
        let len = inverse_transform.len();
        match validate_schedule(&price, &quantity, len as u64) {
            Err(e) => Err(e),
            Ok(()) => {
                let lo = price[0];
                let hi = price[price.len() - 1];
                proof {
                    assert(lo <= hi);
                }
                let mut table: Vec<u64> = Vec::new();
                let mut i: usize = 0;
                while i < len
                    invariant
                        len == inverse_transform@.len(),
                        i <= len,
                        lo <= hi,
                        table@.len() == i,
                        forall|k: int|
                            0 <= k < i ==> #[trigger] table@[k] == clamp(
                                inverse_transform@[k],
                                lo,
                                hi,
                            ),
                    decreases len - i,
                {
                    let x = inverse_transform[i];
                    let y = if x < lo {
                        lo
                    } else if x > hi {
                        hi
                    } else {
                        x
                    };
                    table.push(y);
                    i = i + 1;
                }
                Ok(DemandCurve { price, quantity, inverse_transform: table, rng: rand::thread_rng() })
            },
        }
    }

    /// Draws `size` willingness-to-pay values, each an entry of the table chosen
    /// at random with replacement.
    pub fn sample_price(&mut self, size: usize) -> (r: Vec<u64>)
        requires
            old(self).wf(),
        ensures
            final(self).wf(),
            final(self).prices() == old(self).prices(),
            final(self).quantities() == old(self).quantities(),
            final(self).table() == old(self).table(),
            r@.len() == size,
            forall|i: int| 0 <= i < size ==> old(self).table().contains(#[trigger] r@[i]),
            forall|i: int|
                0 <= i < size ==> old(self).prices()[0] <= #[trigger] r@[i] <= old(
                    self,
                ).prices().last(),
    {
        let mut r: Vec<u64> = Vec::new();
        let mut n: usize = 0;
        while n < size
            invariant
                self.wf(),
                self.price@ == old(self).price@,
                self.quantity@ == old(self).quantity@,
                self.inverse_transform@ == old(self).inverse_transform@,
                n <= size,
                r@.len() == n,
                forall|i: int| 0 <= i < n ==> self.table().contains(#[trigger] r@[i]),
            decreases size - n,
        {
            let x = choose_entry(&self.inverse_transform, &mut self.rng);
            r.push(x);
            n = n + 1;
        }
        proof {
            assert forall|i: int| 0 <= i < size implies old(self).prices()[0] <= #[trigger] r@[i]
                <= old(self).prices().last() by {
                let k = choose|k: int| 0 <= k < self.table().len() && self.table()[k] == r@[i];
            }
        }
        r
    }

    /// The schedule's prices.
    pub fn price(&self) -> (r: &Vec<u64>)
        ensures
            r@ == self.prices(),
    {
        &self.price
    }

    /// The schedule's quantities.
    pub fn quantity(&self) -> (r: &Vec<u64>)
        ensures
            r@ == self.quantities(),
    {
        &self.quantity
    }

    /// The inverse-transform table.
    pub fn inverse_transform(&self) -> (r: &Vec<u64>)
        ensures
            r@ == self.table(),
    {
        &self.inverse_transform
    }
}

} // verus!
