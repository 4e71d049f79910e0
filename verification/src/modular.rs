use vstd::prelude::*;
use vstd::arithmetic::power::{pow, lemma_pow_adds, lemma_pow_multiplies, lemma_square_is_pow2,
    lemma_pow_mod_noop, lemma_pow0, lemma_pow1};
use vstd::arithmetic::div_mod::{lemma_mul_mod_noop_left, lemma_mul_mod_noop_right,
    lemma_small_mod};

verus! {

/// The product `a * b` reduced modulo `modulus`.
pub open spec fn mul_mod_spec(a: int, b: int, modulus: int) -> int {
    (a * b) % modulus
}

/// The sum `a + b` reduced modulo `modulus`.
pub open spec fn add_mod_spec(a: int, b: int, modulus: int) -> int {
    (a + b) % modulus
}

/// The difference `a - b` taken modulo `modulus`, written as the
/// non-negative quantity `a + modulus - b` reduced modulo `modulus`.
pub open spec fn sub_mod_spec(a: int, b: int, modulus: int) -> int {
    (a + modulus - b) % modulus
}

/// `a` raised to `b` modulo `modulus`; the empty product is the literal 1,
/// which is not reduced (so the value is 1 even when `modulus` is 1).
pub open spec fn power_mod_spec(a: int, b: nat, modulus: int) -> int {
    if b == 0 {
        1
    } else {
        pow(a, b) % modulus
    }
}

/// The value the inverse routine gives: 0 for 0, otherwise `a^(modulus - 2)`
/// as computed by `power_mod_spec`.
pub open spec fn inv_mod_spec(a: int, modulus: int) -> int {
    if a == 0 {
        0
    } else {
        power_mod_spec(a, (modulus - 2) as nat, modulus)
    }
}

/// Returns `(a * b) mod modulus`, computed exactly in 128 bits.
pub fn multiply_mod(a: u64, b: u64, modulus: u64) -> (r: u64)
    requires
        modulus > 0,
    ensures
        r == mul_mod_spec(a as int, b as int, modulus as int),
        r < modulus,
{
    proof {
        assert((a as u128) * (b as u128) <= u128::MAX) by (nonlinear_arith)
            requires
                a <= u64::MAX,
                b <= u64::MAX,
        ;
    }
    let p: u128 = (a as u128) * (b as u128);
    let r: u128 = p % (modulus as u128);
    r as u64
}

/// One squaring step of binary exponentiation keeps the product
/// `r * base^exp` unchanged modulo `m`.
proof fn lemma_square_step(r: int, base: int, exp: nat, m: int)
    requires
        m > 0,
    ensures
        (r * pow(base, exp)) % m == ((if exp % 2 == 1 {
            (r * base) % m
        } else {
            r
        }) * pow((base * base) % m, exp / 2)) % m,
{
    let h: nat = exp / 2;
    let bit: nat = exp % 2;
    let bb = base * base;
    assert(exp == 2 * h + bit);
    lemma_pow_adds(base, 2 * h, bit);
    lemma_pow_multiplies(base, 2, h);
    lemma_square_is_pow2(base);
    lemma_pow_mod_noop(bb, h, m);
    let big = pow(bb, h);
    let small = pow(bb % m, h);
    assert(pow(base, exp) == big * pow(base, bit));
    if bit == 1 {
        lemma_pow1(base);
        assert(r * (big * base) == (r * base) * big) by (nonlinear_arith);
        lemma_mul_mod_noop_left(r * base, small, m);
        lemma_mul_mod_noop_right(r * base, small, m);
        lemma_mul_mod_noop_right(r * base, big, m);
    } else {
        lemma_pow0(base);
        assert(big * 1 == big);
        lemma_mul_mod_noop_right(r, small, m);
        lemma_mul_mod_noop_right(r, big, m);
    }
}

/// Square-and-multiply from the running product `result`, the running base
/// `base` and the remaining exponent `exp` forms every product in 64 bits:
/// `result * base` in each step where the low bit of the exponent is set,
/// and `base * base` in every step.
pub open spec fn pow_loop_fits(result: int, base: int, exp: nat, modulus: int) -> bool
    decreases exp,
{
    if exp == 0 {
        true
    } else {
        &&& (exp % 2 == 1 ==> result * base <= u64::MAX)
        &&& base * base <= u64::MAX
        &&& pow_loop_fits(
            if exp % 2 == 1 {
                (result * base) % modulus
            } else {
                result
            },
            (base * base) % modulus,
            exp / 2,
            modulus,
        )
    }
}

/// `power_mod(a, b, modulus)` forms all of its products in 64 bits.
pub open spec fn power_mod_fits(a: int, b: nat, modulus: int) -> bool {
    pow_loop_fits(1, a % modulus, b, modulus)
}

proof fn lemma_pow_loop_fits_small(result: int, base: int, exp: nat, modulus: int)
    requires
        0 < modulus <= 0x1_0000_0000,
        0 <= base < modulus,
        result == 1 || 0 <= result < modulus,
    ensures
        pow_loop_fits(result, base, exp, modulus),
    decreases exp,
{
    if exp > 0 {
        assert(result * base <= u64::MAX && base * base <= u64::MAX) by (nonlinear_arith)
            requires
                0 < modulus <= 0x1_0000_0000,
                0 <= base < modulus,
                result == 1 || 0 <= result < modulus,
        ;
        let r2 = if exp % 2 == 1 {
            (result * base) % modulus
        } else {
            result
        };
        lemma_pow_loop_fits_small(r2, (base * base) % modulus, exp / 2, modulus);
    }
}

/// Every exponentiation with a modulus of at most `2^32` stays within 64
/// bits.
pub proof fn lemma_power_mod_fits_small_modulus(a: int, b: nat, modulus: int)
    requires
        0 < modulus <= 0x1_0000_0000,
    ensures
        power_mod_fits(a, b, modulus),
{
    lemma_pow_loop_fits_small(1, a % modulus, b, modulus);
}

/// Returns `a^b mod modulus` by square-and-multiply in 64-bit arithmetic;
/// the inputs are those on which no product overflows (every modulus up to
/// `2^32`, see `lemma_power_mod_fits_small_modulus`).
pub fn power_mod(a: u64, b: u64, modulus: u64) -> (r: u64)
    requires
        modulus > 0,
        power_mod_fits(a as int, b as nat, modulus as int),
    ensures
        r == power_mod_spec(a as int, b as nat, modulus as int),
        b > 0 ==> r < modulus,
{
    let mut base: u64 = a % modulus;
    let mut exp: u64 = b;
    let mut result: u64 = 1;
    proof {
        lemma_pow_mod_noop(a as int, b as nat, modulus as int);
    }
    while exp > 0
        invariant
            modulus > 0,
            base < modulus,
            result == 1 || result < modulus,
            exp == 0 && b > 0 ==> result < modulus,
            exp <= b,
            exp == b ==> result == 1,
            pow_loop_fits(result as int, base as int, exp as nat, modulus as int),
            (result * pow(base as int, exp as nat)) % (modulus as int) == pow(a as int, b as nat)
                % (modulus as int),
        decreases exp,
    {
        proof {
            lemma_square_step(result as int, base as int, exp as nat, modulus as int);
            assert(exp & 1 == exp % 2) by (bit_vector);
            assert(exp >> 1 == exp / 2) by (bit_vector);
        }
        if exp & 1 == 1 {
            result = (result * base) % modulus;
        }
        base = (base * base) % modulus;
        exp = exp >> 1;
    }
    proof {
        lemma_pow0(base as int);
        if b > 0 {
            lemma_small_mod(result as nat, modulus as nat);
        }
    }
    result
}

/// Returns `(a + b) mod modulus`, computed exactly in 128 bits.
pub fn add_mod(a: u64, b: u64, modulus: u64) -> (r: u64)
    requires
        modulus > 0,
    ensures
        r == add_mod_spec(a as int, b as int, modulus as int),
        r < modulus,
{
    let s: u128 = (a as u128) + (b as u128);
    (s % (modulus as u128)) as u64
}

/// Returns `(a + modulus - b) mod modulus`, computed in 128 bits.
/// The subtraction must not go below zero, so `b` may exceed `a` by at
/// most `modulus`.
pub fn sub_mod(a: u64, b: u64, modulus: u64) -> (r: u64)
    requires
        modulus > 0,
        b <= a + modulus,
    ensures
        r == sub_mod_spec(a as int, b as int, modulus as int),
        r < modulus,
{
    let m: u128 = modulus as u128;
    let diff: u128 = ((a as u128) + m - (b as u128)) % m;
    diff as u64
}

/// Returns `a^(modulus - 2) mod modulus`, and 0 for `a == 0`. For a prime
/// modulus this is the multiplicative inverse of `a`.
pub fn inv_mod(a: u64, modulus: u64) -> (r: u64)
    requires
        a == 0 || (modulus >= 2 && power_mod_fits(a as int, (modulus - 2) as nat, modulus as int)),
    ensures
        r == inv_mod_spec(a as int, modulus as int),
{
    if a == 0 {
        0
    } else {
        power_mod(a, modulus - 2, modulus)
    }
}

/// The scalar product entry point: `(a * b) mod modulus`.
pub fn cpp_multiply_mod(a: u64, b: u64, modulus: u64) -> (r: u64)
    requires
        modulus > 0,
    ensures
        r == mul_mod_spec(a as int, b as int, modulus as int),
{
    multiply_mod(a, b, modulus)
}

} // verus!
