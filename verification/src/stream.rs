use vstd::prelude::*;

use crate::wheel::{accepted_prime, next_prime};

verus! {

/// A forward-only cursor over the primes: each step emits the least accepted
/// prime strictly above the last emitted value (or above the construction
/// floor before the first emission) and advances the cursor to it. The view
/// is the cursor value.
pub struct PrimeIter {
    last: u64,
}

impl View for PrimeIter {
    type V = u64;

    closed spec fn view(&self) -> u64 {
        self.last
    }
}

impl PrimeIter {
    /// Emits the least accepted prime strictly above the cursor and moves the
    /// cursor onto it. Returns None when no value above the cursor is
    /// accepted within the 64-bit range — near the top of the range that
    /// genuinely happens, since the test's wrapping arithmetic rejects the
    /// candidates there; the cursor then stays put.
    pub fn next(&mut self) -> (r: Option<u64>)
        ensures
            match r {
                Some(p) => accepted_prime(p) && old(self)@ < p && final(self)@ == p && (forall|q: u64|
                    old(self)@ < q < p ==> !accepted_prime(q)),
                None => final(self)@ == old(self)@ && (forall|q: u64|
                    old(self)@ < q ==> !accepted_prime(q)),
            },
    {
        if self.last == u64::MAX {
            return None;
        }
        let p = next_prime(self.last + 1);
        if p == 0 {
            None
        } else {
            self.last = p;
            Some(p)
        }
    }
}

/// An unbounded increasing sequence of primes, starting with the least prime
/// strictly above `from`.
pub fn primes(from: u64) -> (it: PrimeIter)
    ensures
        it@ == from,
{
    PrimeIter { last: from }
}

} // verus!
