use vstd::prelude::*;

use crate::oracle::{is_prime_mr, lemma_base_verdicts, lemma_verdict_five, mr_verdict};

verus! {

/// The values the neighbor searches ever examine: 2, 3, and the mod-6 wheel,
/// the residues coprime to 6. Every prime is such a value; every other value
/// is divisible by 2 or by 3.
pub open spec fn wheel_value(q: u64) -> bool {
    q == 2 || q == 3 || q % 6 == 1 || q % 6 == 5
}

/// A value the searches can return: a wheel value the deterministic test
/// accepts.
pub open spec fn accepted_prime(q: u64) -> bool {
    wheel_value(q) && mr_verdict(q)
}

/// The least accepted prime at or after `x`, walking the mod-6 wheel with
/// alternating steps of 2 and 4 and testing each candidate. Returns the 0
/// sentinel when no wheel value at or above `x` is accepted before the
/// 64-bit range runs out; near the top of the range that genuinely happens,
/// since the test's wrapping arithmetic rejects the candidates there.
#[verifier::loop_isolation(false)]
pub fn next_prime(x: u64) -> (r: u64)
    ensures
        r != 0 ==> accepted_prime(r) && x <= r && (forall|q: u64|
            x <= q < r ==> !accepted_prime(q)),
        r == 0 ==> forall|q: u64| x <= q ==> !accepted_prime(q),
{
    proof {
        lemma_base_verdicts();
        lemma_verdict_five();
    }
    if x <= 2 {
        return 2;
    }
    if x == 3 {
        return 3;
    }
    if x <= 5 {
        return 5;
    }
    if x > u64::MAX - 2 {
        return 0;
    }
    let k: u64 = x / 6;
    let o: u64 = if x % 6 < 2 {
        1
    } else {
        5
    };
    let mut c: u64 = 6 * k + o;
    let mut i: u64 = (3 + o) / 2;
    while !is_prime_mr(c)
        invariant
            6 <= x <= c <= u64::MAX - 2,
            (c % 6 == 1 && i == 2) || (c % 6 == 5 && i == 4),
            forall|q: u64| x <= q < c ==> !accepted_prime(q),
        decreases u64::MAX - c,
    {
        if c > u64::MAX - 4 {
            proof {
                assert(c == u64::MAX - 2);
                assert forall|q: u64| x <= q implies !accepted_prime(q) by {
                    if q < c {
                    } else if q == c {
                    } else {
                        assert(q == u64::MAX - 1 || q == u64::MAX);
                    }
                }
            }
            return 0;
        }
        proof {
            assert(i == 2 ==> i ^ 6 == 4) by (bit_vector);
            assert(i == 4 ==> i ^ 6 == 2) by (bit_vector);
        }
        i ^= 6;
        c += i;
    }
    c
}

/// The greatest accepted prime at or before `x`, or 0 when `x <= 1`, where no
/// prime exists at or below `x`. For `x >= 5` the search walks the mod-6
/// wheel downward; it always stops at or above 5, because the test provably
/// accepts 5.
#[verifier::loop_isolation(false)]
pub fn previous_prime(x: u64) -> (r: u64)
    ensures
        x <= 1 ==> r == 0,
        x >= 2 ==> accepted_prime(r) && r <= x && (forall|q: u64|
            r < q <= x ==> !accepted_prime(q)),
{
    proof {
        lemma_base_verdicts();
    }
    if x <= 1 {
        return 0;
    }
    if x == 2 {
        return 2;
    }
    if x <= 4 {
        return 3;
    }
    let mut w: u64 = x;
    if w % 2 == 0 {
        w -= 1;
    }
    let o: u64 = if w % 6 == 5 {
        5
    } else {
        1
    };
    let mut i: u64 = if w % 6 == 5 {
        4
    } else {
        2
    };
    let mut c: u64 = (w / 6) * 6 + o;
    proof {
        lemma_verdict_five();
    }
    while !is_prime_mr(c)
        invariant
            5 <= c <= x,
            (c % 6 == 1 && i == 2) || (c % 6 == 5 && i == 4),
            forall|q: u64| c < q <= x && (q % 6 == 1 || q % 6 == 5) ==> !mr_verdict(q),
        decreases c,
    {
        proof {
            assert(c != 5);
            assert(c >= 7);
        }
        c -= i;
        proof {
            assert(i == 2 ==> i ^ 6 == 4) by (bit_vector);
            assert(i == 4 ==> i ^ 6 == 2) by (bit_vector);
        }
        i ^= 6;
    }
    proof {
        assert(mr_verdict(c));
        assert(c >= 2);
        assert forall|q: u64| c < q <= x implies !accepted_prime(q) by {
            if q % 6 == 1 || q % 6 == 5 {
            } else if q == 2 || q == 3 {
                assert(c < 3);
                assert(c % 6 == 1 || c % 6 == 5);
                assert(false);
            } else {
                assert(!wheel_value(q));
            }
        }
    }
    c
}

} // verus!
