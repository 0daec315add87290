use vstd::prelude::*;
use vstd::arithmetic::power::{pow, lemma_pow_strictly_increases};
use vstd::arithmetic::power2::{lemma2_to64, lemma_pow2};

use crate::oracle::{is_prime_mr, lemma_base_verdicts, mr_verdict};
use crate::wheel::{accepted_prime, next_prime};

verus! {

/// The product of base^exponent over the pairs.
pub open spec fn factor_product(ps: Seq<(u64, u32)>) -> int
    decreases ps.len(),
{
    if ps.len() == 0 {
        1
    } else {
        factor_product(ps.drop_last()) * pow(ps.last().0 as int, ps.last().1 as nat)
    }
}

/// The bases are strictly ascending.
pub open spec fn bases_ascending(ps: Seq<(u64, u32)>) -> bool {
    forall|i: int, j: int| #![trigger ps[i], ps[j]] 0 <= i < j < ps.len() ==> ps[i].0 < ps[j].0
}

/// Every base passed the deterministic test.
pub open spec fn bases_accepted(ps: Seq<(u64, u32)>) -> bool {
    forall|i: int| 0 <= i < ps.len() ==> mr_verdict((#[trigger] ps[i]).0)
}

/// A value at least 2 that no accepted wheel value divides — not even itself.
/// With a sound witness table no such value exists (every integer at least 2
/// has a prime divisor, every prime is a wheel value the test accepts), but
/// that soundness is a published result, not a consequence of the test's
/// definition; this predicate names the one gap the factorizer's contract
/// leaves open for it.
pub open spec fn stray_cofactor(b: u64) -> bool {
    b >= 2 && forall|q: u64| #[trigger] accepted_prime(q) ==> b % q != 0
}

/// Appending a pair multiplies the product by base^exponent.
proof fn lemma_product_push(ps: Seq<(u64, u32)>, p: (u64, u32))
    ensures
        factor_product(ps.push(p)) == factor_product(ps) * pow(p.0 as int, p.1 as nat),
{
    assert(ps.push(p).drop_last() =~= ps);
    assert(ps.push(p).last() == p);
}

/// Inserting a pair anywhere multiplies the product by base^exponent.
proof fn lemma_product_insert(ps: Seq<(u64, u32)>, i: int, p: (u64, u32))
    requires
        0 <= i <= ps.len(),
    ensures
        factor_product(ps.insert(i, p)) == factor_product(ps) * pow(p.0 as int, p.1 as nat),
    decreases ps.len() - i,
{
    let ns = ps.insert(i, p);
    ps.insert_ensures(i, p);
    if i == ps.len() {
        assert(ns =~= ps.push(p));
        lemma_product_push(ps, p);
    } else {
        assert(ns.last() == ps.last());
        assert(ns.drop_last() =~= ps.drop_last().insert(i, p)) by {
            ps.drop_last().insert_ensures(i, p);
        }
        lemma_product_insert(ps.drop_last(), i, p);
        assert((factor_product(ps.drop_last()) * pow(p.0 as int, p.1 as nat)) * pow(
            ps.last().0 as int,
            ps.last().1 as nat,
        ) == (factor_product(ps.drop_last()) * pow(ps.last().0 as int, ps.last().1 as nat))
            * pow(p.0 as int, p.1 as nat)) by (nonlinear_arith);
    }
}

/// A product with one more factor of the base.
proof fn lemma_pow_step(b: int, k: nat)
    ensures
        pow(b, k + 1) == pow(b, k) * b,
{
    vstd::arithmetic::power::lemma_pow_adds(b, k, 1);
    vstd::arithmetic::power::lemma_pow1(b);
}

/// pow is monotone in the base.
proof fn lemma_pow_base_monotone(a: int, b: int, e: nat)
    requires
        1 <= a <= b,
    ensures
        1 <= pow(a, e) <= pow(b, e),
    decreases e,
{
    reveal(pow);
    if e > 0 {
        lemma_pow_base_monotone(a, b, (e - 1) as nat);
        assert(pow(a, e) == a * pow(a, (e - 1) as nat));
        assert(pow(b, e) == b * pow(b, (e - 1) as nat));
        assert(1 <= a * pow(a, (e - 1) as nat) <= b * pow(b, (e - 1) as nat))
            by (nonlinear_arith)
            requires
                1 <= a <= b,
                1 <= pow(a, (e - 1) as nat) <= pow(b, (e - 1) as nat),
        ;
    }
}

/// An exponent whose power of a base at least 2 still fits in 64 bits is
/// below 64.
proof fn lemma_small_exponent(y: u64, k: nat)
    requires
        y >= 2,
        pow(y as int, k) <= u64::MAX,
    ensures
        k < 64,
{
    if k >= 64 {
        lemma_pow_base_monotone(2, y as int, k);
        lemma2_to64();
        lemma_pow2(64);
        if k > 64 {
            lemma_pow_strictly_increases(2, 64, k);
        }
        assert(pow(2, k) >= pow(2, 64));
        assert(false);
    }
}

/// If q divides b, it divides a * b.
proof fn lemma_divisor_through_product(q: int, a: int, b: int)
    requires
        q >= 1,
        b >= 0,
        b % q == 0,
    ensures
        (a * b) % q == 0,
{
    let t = b / q;
    vstd::arithmetic::div_mod::lemma_fundamental_div_mod(b, q);
    assert(b == q * t);
    assert(a * b == (a * t) * q) by (nonlinear_arith)
        requires
            b == q * t,
    ;
    vstd::arithmetic::div_mod::lemma_mod_multiples_basic(a * t, q);
}

/// Prime factorization by trial division over the accepted candidate
/// sequence, with an early exit as soon as the remaining cofactor itself
/// passes the deterministic test. The product of base^exponent over the
/// result always equals the input (with the empty product 1 for 0 and 1) and
/// the bases are strictly ascending; each base is accepted by the test,
/// unless the candidate supply ran out against a stray cofactor, which a
/// sound witness table rules out.
#[verifier::loop_isolation(false)]
#[verifier::rlimit(50)]
pub fn prime_factors(x: u64) -> (r: Vec<(u64, u32)>)
    ensures
        r@.len() == 0 <==> x <= 1,
        x >= 2 ==> factor_product(r@) == x as int,
        forall|i: int| 0 <= i < r@.len() ==> (#[trigger] r@[i]).0 >= 2 && r@[i].1 >= 1,
        bases_ascending(r@),
        bases_accepted(r@) || (exists|b: u64| stray_cofactor(b)),
{
    let mut xs: Vec<(u64, u32)> = Vec::new();
    let mut rem: u64 = x;
    let mut y: u64 = 2;
    proof {
        lemma_base_verdicts();
    }
    while rem > 1
        invariant
            factor_product(xs@) * rem == x as int,
            x >= 2 ==> rem >= 1,
            x <= 1 ==> rem == x && xs@.len() == 0,
            2 <= y < u64::MAX,
            accepted_prime(y),
            forall|i: int|
                0 <= i < xs@.len() ==> (#[trigger] xs@[i]).0 >= 2 && xs@[i].1 >= 1
                    && accepted_prime(xs@[i].0) && xs@[i].0 < y,
            bases_ascending(xs@),
            forall|q: u64| #[trigger] accepted_prime(q) && q < y ==> rem % q != 0,
        decreases rem, u64::MAX - y,
    {
        if is_prime_mr(rem) {
            proof {
                lemma_remainder_at_least(rem, y);
                assert forall|i: int, j: int|
                    #![trigger xs@.push((rem, 1u32))[i], xs@.push((rem, 1u32))[j]]
                    0 <= i < j < xs@.push((rem, 1u32)).len() implies xs@.push((rem, 1u32))[i].0
                    < xs@.push((rem, 1u32))[j].0 by {
                    if j < xs@.len() {
                        assert(xs@[i].0 < xs@[j].0);
                    } else {
                        assert(xs@[i].0 < y <= rem);
                    }
                }
                lemma_product_push(xs@, (rem, 1u32));
                assert(pow(rem as int, 1) == rem as int) by {
                    vstd::arithmetic::power::lemma_pow1(rem as int);
                }
            }
            xs.push((rem, 1));
            return xs;
        }
        let ghost rem0: u64 = rem;
        let mut k: u32 = 0;
        proof {
            vstd::arithmetic::power::lemma_pow0(y as int);
        }
        while rem % y == 0
            invariant
                1 <= rem,
                rem * pow(y as int, k as nat) == rem0 as int,
                forall|q: u64| #[trigger] accepted_prime(q) && q < y ==> rem % q != 0,
            decreases rem,
        {
            proof {
                lemma_divide_step(rem, y, k as nat, rem0);
                lemma_small_exponent(y, k as nat + 1);
                assert forall|q: u64| #[trigger] accepted_prime(q) && q < y implies (rem / y)
                    % q != 0 by {
                    if (rem / y) % q == 0 {
                        vstd::arithmetic::div_mod::lemma_fundamental_div_mod(
                            rem as int,
                            y as int,
                        );
                        lemma_divisor_through_product(q as int, y as int, (rem / y) as int);
                        assert(rem % q == 0);
                    }
                }
            }
            rem = rem / y;
            k = k + 1;
        }
        if k > 0 {
            proof {
                lemma_product_push(xs@, (y, k));
                assert((factor_product(xs@) * pow(y as int, k as nat)) * rem == factor_product(
                    xs@,
                ) * (rem * pow(y as int, k as nat))) by (nonlinear_arith);
                assert forall|i: int, j: int|
                    #![trigger xs@.push((y, k))[i], xs@.push((y, k))[j]]
                    0 <= i < j < xs@.push((y, k)).len() implies xs@.push((y, k))[i].0 < xs@.push(
                    (y, k),
                )[j].0 by {
                    if j < xs@.len() {
                        assert(xs@[i].0 < xs@[j].0);
                    } else {
                        assert(xs@[i].0 < y);
                    }
                }
                lemma_pow_base_monotone(2, y as int, k as nat);
                assert(pow(2, k as nat) >= 2) by {
                    vstd::arithmetic::power::lemma_pow1(2);
                    if k > 1 {
                        lemma_pow_strictly_increases(2, 1, k as nat);
                    }
                }
                assert(rem < rem0) by (nonlinear_arith)
                    requires
                        rem * pow(y as int, k as nat) == rem0 as int,
                        pow(y as int, k as nat) >= 2,
                        rem >= 1,
                ;
            }
            xs.push((y, k));
            proof {
                assert(factor_product(xs@) * rem == x as int);
            }
        } else {
            proof {
                assert(pow(y as int, k as nat) == 1);
                assert(rem == rem0) by (nonlinear_arith)
                    requires
                        rem * pow(y as int, k as nat) == rem0 as int,
                        pow(y as int, k as nat) == 1,
                ;
            }
        }
        let y2 = next_prime(y + 1);
        if y2 == 0 {
            proof {
                assert(!accepted_prime(0));
            }
            if rem > 1 {
                proof {
                    assert(stray_cofactor(rem)) by {
                        assert forall|q: u64| #[trigger] accepted_prime(q) implies rem % q
                            != 0 by {
                            if q < y {
                            } else if q == y {
                            } else {
                                assert(y + 1 <= q);
                                assert(!accepted_prime(q));
                            }
                        }
                    }
                }
                let mut idx: usize = 0;
                while idx < xs.len() && xs[idx].0 < rem
                    invariant
                        idx <= xs@.len(),
                        forall|j: int| 0 <= j < idx ==> (#[trigger] xs@[j]).0 < rem,
                    decreases xs@.len() - idx,
                {
                    idx = idx + 1;
                }
                let ghost ns = xs@.insert(idx as int, (rem, 1u32));
                proof {
                    assert forall|j: int| idx <= j < xs@.len() implies rem < (
                    #[trigger] xs@[j]).0 by {
                        assert(accepted_prime(xs@[j].0));
                        assert(rem % xs@[j].0 != 0);
                        assert(xs@[idx as int].0 <= xs@[j].0);
                        assert(rem <= xs@[j].0);
                        if rem == xs@[j].0 {
                            vstd::arithmetic::div_mod::lemma_mod_self_0(rem as int);
                            assert(false);
                        }
                    }
                    xs@.insert_ensures(idx as int, (rem, 1u32));
                    assert forall|a: int, b: int|
                        #![trigger ns[a], ns[b]]
                        0 <= a < b < ns.len() implies ns[a].0 < ns[b].0 by {
                        if b < idx {
                            assert(ns[a] == xs@[a] && ns[b] == xs@[b]);
                        } else if b == idx {
                            assert(ns[b] == (rem, 1u32));
                            assert(ns[a] == xs@[a]);
                        } else {
                            assert(ns[b] == xs@[b - 1]);
                            assert(rem < xs@[b - 1].0);
                            if a < idx {
                                assert(ns[a] == xs@[a]);
                            } else if a == idx {
                                assert(ns[a] == (rem, 1u32));
                            } else {
                                assert(ns[a] == xs@[a - 1]);
                            }
                        }
                    }
                    lemma_product_insert(xs@, idx as int, (rem, 1u32));
                    assert(pow(rem as int, 1) == rem as int) by {
                        vstd::arithmetic::power::lemma_pow1(rem as int);
                    }
                    assert(factor_product(ns) == x as int) by (nonlinear_arith)
                        requires
                            factor_product(ns) == factor_product(xs@) * pow(rem as int, 1),
                            pow(rem as int, 1) == rem as int,
                            factor_product(xs@) * rem == x as int,
                    ;
                }
                xs.insert(idx, (rem, 1));
            } else {
                proof {
                    assert(factor_product(xs@) == x as int) by (nonlinear_arith)
                        requires
                            factor_product(xs@) * rem == x as int,
                            rem == 1,
                    ;
                }
            }
            proof {
                if x >= 2 && xs@.len() == 0 {
                    assert(factor_product(xs@) == 1);
                    assert(false);
                }
            }
            return xs;
        }
        proof {
            assert(accepted_prime(y2));
            assert(0xffff_ffff_ffff_ffffu64 % 6 == 3);
            assert(y2 < u64::MAX);
            assert forall|q: u64| #[trigger] accepted_prime(q) && q < y2 implies rem % q
                != 0 by {
                if q < y {
                } else if q == y {
                } else {
                    assert(y + 1 <= q < y2);
                    assert(!accepted_prime(q));
                }
            }
        }
        proof {
            assert(factor_product(xs@) * rem == x as int);
            assert(rem < rem0 || (rem == rem0 && y < y2));
        }
        y = y2;
    }
    proof {
        if x >= 2 {
            assert(rem == 1);
            assert(factor_product(xs@) == x as int) by (nonlinear_arith)
                requires
                    factor_product(xs@) * rem == x as int,
                    rem == 1,
            ;
            if xs@.len() == 0 {
                assert(factor_product(xs@) == 1);
                assert(false);
            }
        }
    }
    xs
}

/// One division step: rem % y == 0 lets the quotient absorb one more factor
/// of y while the running product stays equal to the round's starting value,
/// and that product bounds the exponent.
proof fn lemma_divide_step(rem: u64, y: u64, k: nat, rem0: u64)
    requires
        y >= 2,
        rem >= 1,
        rem % y == 0,
        rem * pow(y as int, k) == rem0 as int,
    ensures
        (rem / y) * pow(y as int, k + 1) == rem0 as int,
        1 <= rem / y < rem,
        pow(y as int, k + 1) <= u64::MAX,
{
    vstd::arithmetic::div_mod::lemma_fundamental_div_mod(rem as int, y as int);
    assert(rem == y * (rem / y));
    lemma_pow_step(y as int, k);
    assert((rem / y) * (pow(y as int, k) * y) == rem * pow(y as int, k)) by (nonlinear_arith)
        requires
            rem == y * (rem / y),
    ;
    assert(1 <= rem / y < rem) by (nonlinear_arith)
        requires
            rem >= 1,
            y >= 2,
            rem == y * (rem / y),
    ;
    lemma_pow_base_monotone(1, y as int, k + 1);
    assert((rem / y) * pow(y as int, k + 1) >= 1 * pow(y as int, k + 1)) by (nonlinear_arith)
        requires
            rem / y >= 1,
            pow(y as int, k + 1) >= 1,
    ;
}

/// At the early exit the remaining cofactor is at least the current
/// candidate: it survived division by every accepted value below it, and any
/// smaller value is either an accepted wheel value (then it would divide
/// itself) or divisible by 2 or 3, which were divided out.
proof fn lemma_remainder_at_least(rem: u64, y: u64)
    requires
        rem >= 2,
        mr_verdict(rem),
        accepted_prime(y),
        forall|q: u64| #[trigger] accepted_prime(q) && q < y ==> rem % q != 0,
    ensures
        rem >= y,
{
    lemma_base_verdicts();
    if rem < y {
        if rem == 2 || rem == 3 || rem % 6 == 1 || rem % 6 == 5 {
            assert(accepted_prime(rem));
            assert(rem % rem != 0);
            assert(false);
        } else if rem % 2 == 0 {
            assert(accepted_prime(2));
            assert(rem % 2 != 0);
            assert(false);
        } else {
            assert(rem % 6 == 3);
            assert(rem % 3 == 0) by {
                assert(rem == 6 * (rem / 6) + 3);
                assert((6 * (rem / 6) + 3) % 3 == 0) by (nonlinear_arith);
            }
            assert(rem > 3);
            assert(y > 3);
            assert(accepted_prime(3));
            assert(rem % 3 != 0);
            assert(false);
        }
    }
}

} // verus!
