//! A deterministic primality and prime-navigation library over 64-bit
//! unsigned integers: a Miller–Rabin style test with a fixed witness table,
//! wheel searches for the nearest accepted prime in either direction, trial
//! factorization with an early exit on a prime cofactor, and a stateful
//! forward-only generator of primes.

mod factor;
mod modexp;
mod oracle;
mod stream;
mod wheel;

pub use factor::{bases_accepted, bases_ascending, factor_product, prime_factors, stray_cofactor};
pub use modexp::{lemma_mod_pow_exact, mod_pow, mod_pow_frame};
pub use oracle::{is_prime_mr, lemma_base_verdicts, lemma_verdict_five, mr_verdict, odd_part,
    two_count, witness_chain, witness_passes, witness_seq};
pub use stream::{primes, PrimeIter};
pub use wheel::{accepted_prime, next_prime, previous_prime, wheel_value};
