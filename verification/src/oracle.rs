use vstd::prelude::*;
use vstd::arithmetic::power2::{pow2, lemma2_to64, lemma_pow2_strictly_increases};

use crate::modexp::{mod_pow, mod_pow_frame, power};

verus! {

/// The odd part left after stripping factors of two from `d`.
pub open spec fn odd_part(d: u64) -> u64
    decreases d,
{
    if d > 0 && d % 2 == 0 {
        odd_part(d / 2)
    } else {
        d
    }
}

/// The number of factors of two stripped from `d`, counted on top of `s`.
pub open spec fn two_count(d: u64, s: nat) -> nat
    decreases d,
{
    if d > 0 && d % 2 == 0 {
        two_count(d / 2, s + 1)
    } else {
        s
    }
}

/// The verdict of one witness round after the first power has been taken:
/// `x` is the current value, `y` the result of the last squaring, and `s` the
/// number of squarings still to run. The round declares the number composite
/// as soon as a square is 1 while the squared value was neither 1 nor n-1;
/// otherwise the witness passes exactly when the final squaring equals 1.
pub open spec fn witness_chain(x: u64, y: u64, s: nat, n: u64) -> bool
    recommends
        n >= 5,
        n % 2 == 1,
    decreases s,
{
    if s == 0 {
        y == 1
    } else {
        let y2 = x.wrapping_mul(x) % n;
        if y2 == 1 && x != 1 && x != n - 1 {
            false
        } else {
            witness_chain(y2, y2, (s - 1) as nat, n)
        }
    }
}

/// Whether witness `a` passes for odd n > 3 with n - 1 = d * 2^s (d odd).
pub open spec fn witness_passes(a: u64, d: u64, s: nat, n: u64) -> bool
    recommends
        n >= 5,
        n % 2 == 1,
{
    witness_chain(mod_pow(a, d, n), 0, s, n)
}

/// The fixed witness table: an ascending list of thresholds, each paired with
/// the witness set used for numbers below it; the final set covers the whole
/// 64-bit range. The thresholds and sets follow the published deterministic
/// variants of the Miller–Rabin test.
pub open spec fn witness_seq(n: u64) -> Seq<u64> {
    if n < 2047 {
        seq![2u64]
    } else if n < 1373653 {
        seq![2u64, 3]
    } else if n < 9080191 {
        seq![31u64, 73]
    } else if n < 25326001 {
        seq![2u64, 3, 5]
    } else if n < 3215031751 {
        seq![2u64, 3, 5, 7]
    } else if n < 4759123141 {
        seq![2u64, 7, 61]
    } else if n < 1122004669633 {
        seq![2u64, 13, 23, 1662803]
    } else if n < 2152302898747 {
        seq![2u64, 3, 5, 7, 11]
    } else if n < 3474749660383 {
        seq![2u64, 3, 5, 7, 11, 13]
    } else if n < 341550071728321 {
        seq![2u64, 3, 5, 7, 11, 13, 17]
    } else if n < 3825123056546413051 {
        seq![2u64, 3, 5, 7, 11, 13, 17, 19, 23]
    } else {
        seq![2u64, 3, 5, 7, 11, 13, 17, 19, 23, 29, 31, 37]
    }
}

/// The verdict of the deterministic primality test: 0 and 1 are rejected,
/// 2 and 3 accepted, even numbers above 3 rejected, and every other number is
/// accepted exactly when all witnesses of its table row pass.
pub open spec fn mr_verdict(n: u64) -> bool {
    if n <= 3 {
        n >= 2
    } else if n % 2 == 0 {
        false
    } else {
        forall|i: int|
            0 <= i < witness_seq(n).len() ==> #[trigger] witness_passes(
                witness_seq(n)[i],
                odd_part(n / 2),
                two_count(n / 2, 1),
                n,
            )
    }
}

/// The witness table as plain ordered data: ascending exclusive bounds, each
/// paired with the witness set for numbers below it. The last row's bound is
/// a sentinel the scan never compares against: its set serves every number
/// no earlier bound exceeds.
fn witness_table() -> (t: Vec<(u64, Vec<u64>)>)
    ensures
        t@.len() == 12,
        t@[0].0 == 2047 && t@[0].1@ == seq![2u64],
        t@[1].0 == 1373653 && t@[1].1@ == seq![2u64, 3],
        t@[2].0 == 9080191 && t@[2].1@ == seq![31u64, 73],
        t@[3].0 == 25326001 && t@[3].1@ == seq![2u64, 3, 5],
        t@[4].0 == 3215031751 && t@[4].1@ == seq![2u64, 3, 5, 7],
        t@[5].0 == 4759123141 && t@[5].1@ == seq![2u64, 7, 61],
        t@[6].0 == 1122004669633 && t@[6].1@ == seq![2u64, 13, 23, 1662803],
        t@[7].0 == 2152302898747 && t@[7].1@ == seq![2u64, 3, 5, 7, 11],
        t@[8].0 == 3474749660383 && t@[8].1@ == seq![2u64, 3, 5, 7, 11, 13],
        t@[9].0 == 341550071728321 && t@[9].1@ == seq![2u64, 3, 5, 7, 11, 13, 17],
        t@[10].0 == 3825123056546413051 && t@[10].1@ == seq![2u64, 3, 5, 7, 11, 13, 17, 19, 23],
        t@[11].0 == u64::MAX && t@[11].1@ == seq![
            2u64,
            3,
            5,
            7,
            11,
            13,
            17,
            19,
            23,
            29,
            31,
            37,
        ],
{
    let mut t: Vec<(u64, Vec<u64>)> = Vec::new();
    t.push((2047, row(&[2])));
    t.push((1373653, row(&[2, 3])));
    t.push((9080191, row(&[31, 73])));
    t.push((25326001, row(&[2, 3, 5])));
    t.push((3215031751, row(&[2, 3, 5, 7])));
    t.push((4759123141, row(&[2, 7, 61])));
    t.push((1122004669633, row(&[2, 13, 23, 1662803])));
    t.push((2152302898747, row(&[2, 3, 5, 7, 11])));
    t.push((3474749660383, row(&[2, 3, 5, 7, 11, 13])));
    t.push((341550071728321, row(&[2, 3, 5, 7, 11, 13, 17])));
    t.push((3825123056546413051, row(&[2, 3, 5, 7, 11, 13, 17, 19, 23])));
    t.push((u64::MAX, row(&[2, 3, 5, 7, 11, 13, 17, 19, 23, 29, 31, 37])));
    t
}

/// Copies a fixed row of witnesses into a vector.
#[verifier::loop_isolation(false)]
fn row(ws: &[u64]) -> (r: Vec<u64>)
    ensures
        r@ == ws@,
{
    let mut r: Vec<u64> = Vec::new();
    let mut j: usize = 0;
    while j < ws.len()
        invariant
            j <= ws@.len(),
            r@ == ws@.subrange(0, j as int),
        decreases ws@.len() - j,
    {
        r.push(ws[j]);
        proof {
            assert(ws@.subrange(0, j + 1 as int) =~= ws@.subrange(0, j as int).push(
                ws@[j as int],
            ));
        }
        j = j + 1;
    }
    proof {
        assert(ws@.subrange(0, ws@.len() as int) =~= ws@);
    }
    r
}

/// The witness set for `n`: the set of the first table row whose bound
/// exceeds `n`, or the final row's set when none does.
#[verifier::loop_isolation(false)]
fn witness_list(n: u64) -> (ws: Vec<u64>)
    ensures
        ws@ == witness_seq(n),
{
    let t = witness_table();
    let mut i: usize = 0;
    while i + 1 < t.len() && n >= t[i].0
        invariant
            i < t@.len(),
            forall|j: int| 0 <= j < i ==> n >= (#[trigger] t@[j]).0,
        decreases t@.len() - i,
    {
        i = i + 1;
    }
    let r = row(t[i].1.as_slice());
    proof {
        assert(r@ == witness_seq(n));
    }
    r
}

/// Deterministic Miller–Rabin primality test over the fixed witness table.
/// The result equals the spec-level verdict for every 64-bit input.
#[verifier::loop_isolation(false)]
pub fn is_prime_mr(n: u64) -> (r: bool)
    ensures
        r == mr_verdict(n),
{
    if n <= 3 {
        return n >= 2;
    }
    if n % 2 == 0 {
        return false;
    }
    let mut d: u64 = n / 2;
    let mut s: u32 = 1;
    proof {
        lemma2_to64();
        assert(pow2(0) == 1);
        assert(d >= 1);
        assert(d * pow2(0) == d) by (nonlinear_arith)
            requires
                pow2(0) == 1,
        ;
    }
    while d % 2 == 0
        invariant
            d >= 1,
            1 <= s,
            pow2((s - 1) as nat) <= d * pow2((s - 1) as nat) <= n / 2,
            odd_part(d) == odd_part(n / 2),
            two_count(d, s as nat) == two_count(n / 2, 1),
        decreases d,
    {
        proof {
            lemma_pow2_step(d, (s - 1) as nat);
            if s >= 64 {
                lemma2_to64();
                lemma_pow2_strictly_increases(64, s as nat);
                assert(false);
            }
        }
        d = d / 2;
        s = s + 1;
    }
    let ws = witness_list(n);
    let ghost ss: nat = two_count(n / 2, 1);
    proof {
        assert(two_count(d, s as nat) == s as nat);
    }
    let mut j: usize = 0;
    while j < ws.len()
        invariant
            forall|i: int|
                0 <= i < j ==> #[trigger] witness_passes(ws@[i], d, ss, n),
        decreases ws.len() - j,
    {
        let a = ws[j];
        let mut x: u64 = power(a, d, n);
        let mut y: u64 = 0;
        let mut t: u32 = s;
        while t > 0
            invariant
                witness_chain(x, y, t as nat, n) == witness_passes(a, d, ss, n),
            decreases t,
        {
            y = x.wrapping_mul(x) % n;
            if y == 1 && x != 1 && x != n - 1 {
                proof {
                    assert(!witness_passes(a, d, ss, n));
                    lemma_failed_witness(n, j as int);
                }
                return false;
            }
            x = y;
            t = t - 1;
        }
        if y != 1 {
            proof {
                assert(!witness_passes(a, d, ss, n));
                lemma_failed_witness(n, j as int);
            }
            return false;
        }
        j = j + 1;
    }
    proof {
        assert forall|i: int| 0 <= i < witness_seq(n).len() implies #[trigger] witness_passes(
            witness_seq(n)[i],
            odd_part(n / 2),
            two_count(n / 2, 1),
            n,
        ) by {
            assert(witness_passes(ws@[i], d, ss, n));
        }
    }
    true
}

/// One witness of n's row that does not pass makes the verdict false.
proof fn lemma_failed_witness(n: u64, j: int)
    requires
        n > 3,
        n % 2 == 1,
        0 <= j < witness_seq(n).len(),
        !witness_passes(witness_seq(n)[j], odd_part(n / 2), two_count(n / 2, 1), n),
    ensures
        !mr_verdict(n),
{
    if mr_verdict(n) {
        assert(witness_passes(witness_seq(n)[j], odd_part(n / 2), two_count(n / 2, 1), n));
    }
}

/// The test accepts 2 and 3 and rejects 0 and 1, straight from its
/// definition.
pub proof fn lemma_base_verdicts()
    ensures
        mr_verdict(2),
        mr_verdict(3),
        !mr_verdict(0),
        !mr_verdict(1),
{
}

/// The test accepts 5: its table row is the single witness 2, and
/// 5 - 1 = 1 * 2^2, so the round squares 2 twice, reaching 4 and then 1 with
/// the squared value equal to 5 - 1, which passes.
pub proof fn lemma_verdict_five()
    ensures
        mr_verdict(5),
{
    assert(odd_part(2) == odd_part(1));
    assert(odd_part(1) == 1);
    assert(two_count(2, 1) == two_count(1, 2));
    assert(two_count(1, 2) == 2);
    assert(witness_seq(5) == seq![2u64]);
    assert(1u64.wrapping_mul(2) == 2);
    assert(2u64.wrapping_mul(2) == 4);
    assert(4u64.wrapping_mul(4) == 16);
    assert(mod_pow_frame(1, 2, 1, 5) == mod_pow_frame(2, 4, 0, 5));
    assert(mod_pow(2, 1, 5) == 2);
    assert(witness_chain(1, 1, 0, 5));
    assert(witness_chain(4, 4, 1, 5));
    assert(witness_chain(2, 0, 2, 5));
    assert(witness_passes(2, 1, 2, 5));
    assert forall|i: int| 0 <= i < witness_seq(5).len() implies #[trigger] witness_passes(
        witness_seq(5)[i],
        odd_part(5u64 / 2),
        two_count(5u64 / 2, 1),
        5,
    ) by {
        assert(witness_seq(5)[i] == 2);
    }
}

/// Halving an even d trades one factor of two: pow2 bookkeeping for the
/// splitting loop, keeping the product below n / 2.
proof fn lemma_pow2_step(d: u64, k: nat)
    requires
        d >= 1,
        d % 2 == 0,
    ensures
        (d / 2) * pow2(k + 1) == d * pow2(k),
        pow2(k + 1) <= (d / 2) * pow2(k + 1),
{
    assert(pow2(k + 1) == 2 * pow2(k)) by {
        vstd::arithmetic::power2::lemma_pow2_unfold(k + 1);
    }
    assert(d == 2 * (d / 2));
    assert((d / 2) * (2 * pow2(k)) == d * pow2(k)) by (nonlinear_arith)
        requires
            d == 2 * (d / 2),
    ;
    assert(1 * pow2(k + 1) <= (d / 2) * pow2(k + 1)) by (nonlinear_arith)
        requires
            d / 2 >= 1,
            pow2(k + 1) >= 0,
    ;
}

} // verus!
