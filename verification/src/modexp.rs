use vstd::prelude::*;
use vstd::arithmetic::div_mod::{lemma_mul_mod_noop_general, lemma_small_mod};
use vstd::arithmetic::power::{
    lemma_pow0, lemma_pow1, lemma_pow_adds, lemma_pow_mod_noop, lemma_pow_multiplies,
    lemma_square_is_pow2, pow,
};

verus! {

/// Spec-level mirror of one run of the square-and-multiply loop, carrying the
/// accumulator `acc` and the running square `sq`. Products wrap at 64 bits
/// before the reduction by `m`, exactly as the executable code computes them.
pub open spec fn mod_pow_frame(acc: u64, sq: u64, e: u64, m: u64) -> u64
    recommends
        m >= 1,
    decreases e,
{
    if e == 0 {
        acc
    } else {
        let acc2 = if e % 2 == 1 {
            acc.wrapping_mul(sq) % m
        } else {
            acc
        };
        mod_pow_frame(acc2, sq.wrapping_mul(sq) % m, e / 2, m)
    }
}

/// a^n mod m as this library computes it: binary exponentiation over fixed
/// 64-bit words, each product wrapping on overflow before it is reduced. The
/// accumulator starts reduced, so a^0 mod 1 == 0. When every intermediate
/// product fits in 64 bits this equals the mathematical a^n mod m; the
/// primality test is calibrated against this exact arithmetic either way.
pub open spec fn mod_pow(a: u64, n: u64, m: u64) -> u64
    recommends
        m >= 1,
{
    mod_pow_frame(1u64 % m, a, n, m)
}

/// Below 2^32 the loop's wrapped arithmetic is the true arithmetic: with the
/// accumulator already reduced and the square below 2^32, every product stays
/// under 2^64, so each frame computes acc * sq^e mod m exactly.
proof fn lemma_frame_exact(acc: u64, sq: u64, e: u64, m: u64)
    requires
        1 <= m <= 0x1_0000_0000,
        acc < m,
        sq < 0x1_0000_0000,
    ensures
        mod_pow_frame(acc, sq, e, m) == (acc * pow(sq as int, e as nat)) % (m as int),
    decreases e,
{
    if e == 0 {
        lemma_pow0(sq as int);
        assert(acc * pow(sq as int, 0) == acc) by (nonlinear_arith)
            requires
                pow(sq as int, 0) == 1,
        ;
        lemma_small_mod(acc as nat, m as nat);
    } else {
        assert((acc as int) * (sq as int) < 0x1_0000_0000_0000_0000) by (nonlinear_arith)
            requires
                acc < 0x1_0000_0000,
                sq < 0x1_0000_0000,
        ;
        assert((sq as int) * (sq as int) < 0x1_0000_0000_0000_0000) by (nonlinear_arith)
            requires
                sq < 0x1_0000_0000,
        ;
        lemma_small_mod(((acc as int) * (sq as int)) as nat, 0x1_0000_0000_0000_0000);
        lemma_small_mod(((sq as int) * (sq as int)) as nat, 0x1_0000_0000_0000_0000);
        assert(acc.wrapping_mul(sq) == (acc as int) * (sq as int));
        assert(sq.wrapping_mul(sq) == (sq as int) * (sq as int));
        let sq2 = sq.wrapping_mul(sq) % m;
        let acc2 = if e % 2 == 1 {
            acc.wrapping_mul(sq) % m
        } else {
            acc
        };
        assert(mod_pow_frame(acc, sq, e, m) == mod_pow_frame(acc2, sq2, e / 2, m));
        lemma_frame_exact(acc2, sq2, e / 2, m);
        let mi = m as int;
        let h = (e / 2) as nat;
        lemma_square_is_pow2(sq as int);
        lemma_pow_multiplies(sq as int, 2, h);
        lemma_pow_adds(sq as int, 2 * h, (e % 2) as nat);
        assert(pow(sq as int, e as nat) == pow((sq as int) * (sq as int), h) * pow(
            sq as int,
            (e % 2) as nat,
        ));
        lemma_pow_mod_noop((sq as int) * (sq as int), h, mi);
        assert(pow(sq2 as int, h) % mi == pow((sq as int) * (sq as int), h) % mi);
        lemma_mul_mod_noop_general(acc2 as int, pow(sq2 as int, h), mi);
        assert((acc2 * pow(sq2 as int, h)) % mi == (acc2 * (pow((sq as int) * (sq as int), h)
            % mi)) % mi) by {
            lemma_mul_mod_noop_general(acc2 as int, pow((sq as int) * (sq as int), h), mi);
        }
        if e % 2 == 1 {
            lemma_pow1(sq as int);
            assert((acc2 * (pow((sq as int) * (sq as int), h) % mi)) % mi == ((acc * sq) * pow(
                (sq as int) * (sq as int),
                h,
            )) % mi) by {
                lemma_mul_mod_noop_general((acc as int) * (sq as int), pow((sq as int) * (sq as int), h), mi);
                lemma_mul_mod_noop_general(acc2 as int, pow((sq as int) * (sq as int), h), mi);
            }
            assert((acc * sq) * pow((sq as int) * (sq as int), h) == acc * pow(sq as int, e as nat))
                by (nonlinear_arith)
                requires
                    pow(sq as int, e as nat) == pow((sq as int) * (sq as int), h) * pow(
                        sq as int,
                        1nat,
                    ),
                    pow(sq as int, 1nat) == sq as int,
            ;
        } else {
            assert((acc2 * (pow((sq as int) * (sq as int), h) % mi)) % mi == (acc * pow(
                (sq as int) * (sq as int),
                h,
            )) % mi) by {
                lemma_mul_mod_noop_general(acc as int, pow((sq as int) * (sq as int), h), mi);
            }
            lemma_pow0(sq as int);
            assert(acc * pow((sq as int) * (sq as int), h) == acc * pow(sq as int, e as nat))
                by (nonlinear_arith)
                requires
                    pow(sq as int, e as nat) == pow((sq as int) * (sq as int), h) * pow(
                        sq as int,
                        0nat,
                    ),
                    pow(sq as int, 0nat) == 1,
            ;
        }
    }
}

/// The one true correctness risk of the design: the loop's products wrap on
/// overflow. This theorem bounds it: for a modulus of at most 2^32 and a base
/// below 2^32, no product can overflow, and the computed value is exactly the
/// mathematical a^n mod m.
pub proof fn lemma_mod_pow_exact(a: u64, n: u64, m: u64)
    requires
        1 <= m <= 0x1_0000_0000,
        a < 0x1_0000_0000,
    ensures
        mod_pow(a, n, m) == pow(a as int, n as nat) % (m as int),
{
    lemma_frame_exact(1u64 % m, a, n, m);
    lemma_mul_mod_noop_general(1, pow(a as int, n as nat), m as int);
    assert(1 * pow(a as int, n as nat) == pow(a as int, n as nat)) by (nonlinear_arith);
}

/// Binary (square-and-multiply) modular exponentiation.
#[verifier::loop_isolation(false)]
pub(crate) fn power(a: u64, n: u64, m: u64) -> (r: u64)
    requires
        m >= 1,
    ensures
        r == mod_pow(a, n, m),
{
    let mut sq: u64 = a;
    let mut acc: u64 = 1 % m;
    let mut e: u64 = n;
    while e > 0
        invariant
            mod_pow_frame(acc, sq, e, m) == mod_pow(a, n, m),
        decreases e,
    {
        proof {
            assert(e & 1 == e % 2) by (bit_vector);
            assert(e >> 1u64 == e / 2) by (bit_vector);
        }
        if e & 1 > 0 {
            acc = acc.wrapping_mul(sq) % m;
        }
        sq = sq.wrapping_mul(sq) % m;
        e = e >> 1u64;
    }
    acc
}

} // verus!
