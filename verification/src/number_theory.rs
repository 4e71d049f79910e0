use vstd::prelude::*;
use vstd::arithmetic::power::{pow, lemma_pow_positive, lemma0_pow};
use vstd::arithmetic::div_mod::{
    lemma_fundamental_div_mod, lemma_mod_multiples_basic, lemma_mul_mod_noop_left, lemma_small_mod,
    lemma_mod_bound, lemma_add_mod_noop, lemma_sub_mod_noop,
};

verus! {

/// `p` is a prime number: greater than 1 and divisible by no `d` with
/// `1 < d < p`.
pub open spec fn is_prime(p: nat) -> bool {
    &&& p > 1
    &&& forall|d: nat| 1 < d < p ==> #[trigger] (p % d) != 0
}

/// A prime dividing `a * b` with `0 < a < p` divides `b`.
proof fn lemma_prime_divides_product_small(a: nat, b: nat, p: nat)
    requires
        is_prime(p),
        0 < a < p,
        (a * b) % p == 0,
    ensures
        b % p == 0,
    decreases a,
{
    if a == 1 {
        assert(a * b == b) by (nonlinear_arith)
            requires
                a == 1,
        ;
    } else {
        let q = p / a;
        let r = p % a;
        lemma_fundamental_div_mod(p as int, a as int);
        lemma_mod_bound(p as int, a as int);
        assert(r != 0);
        let t = (a * b) / p;
        lemma_fundamental_div_mod((a * b) as int, p as int);
        assert(r * b == (b - q * t) * p) by (nonlinear_arith)
            requires
                p == a * q + r,
                a * b == p * t,
        ;
        lemma_mod_multiples_basic(b - q * t, p as int);
        lemma_prime_divides_product_small(r, b, p);
    }
}

/// Euclid's lemma: a prime dividing a product divides one of the factors.
pub proof fn lemma_euclid_prime(a: nat, b: nat, p: nat)
    requires
        is_prime(p),
        (a * b) % p == 0,
    ensures
        a % p == 0 || b % p == 0,
{
    let ar = a % p;
    if ar != 0 {
        lemma_mod_bound(a as int, p as int);
        lemma_mul_mod_noop_left(a as int, b as int, p as int);
        lemma_prime_divides_product_small(ar, b, p);
    }
}

/// The binomial coefficient `n` choose `k`, by Pascal's rule.
pub open spec fn binom(n: nat, k: nat) -> nat
    decreases n,
{
    if k == 0 {
        1
    } else if n == 0 {
        0
    } else {
        binom((n - 1) as nat, (k - 1) as nat) + binom((n - 1) as nat, k)
    }
}

proof fn lemma_binom_above(n: nat, k: nat)
    requires
        k > n,
    ensures
        binom(n, k) == 0,
    decreases n,
{
    if n > 0 {
        lemma_binom_above((n - 1) as nat, (k - 1) as nat);
        lemma_binom_above((n - 1) as nat, k);
    }
}

proof fn lemma_binom_diag(n: nat)
    ensures
        binom(n, n) == 1,
    decreases n,
{
    if n > 0 {
        lemma_binom_diag((n - 1) as nat);
        lemma_binom_above((n - 1) as nat, n);
    }
}

proof fn lemma_binom_one(n: nat)
    ensures
        binom(n, 1) == n,
    decreases n,
{
    if n > 0 {
        lemma_binom_one((n - 1) as nat);
        assert(binom((n - 1) as nat, 0) == 1);
    }
}

/// The absorption identity `k * C(n, k) == n * C(n - 1, k - 1)`.
proof fn lemma_binom_absorb(n: nat, k: nat)
    requires
        n >= 1,
        k >= 1,
    ensures
        k * binom(n, k) == n * binom((n - 1) as nat, (k - 1) as nat),
    decreases n,
{
    if k == 1 {
        lemma_binom_one(n);
        assert(binom((n - 1) as nat, 0) == 1);
        assert(1 * binom(n, 1) == n * 1);
    } else if n == 1 {
        lemma_binom_above(0, (k - 1) as nat);
        lemma_binom_above(0, k);
        assert(binom(1, k) == binom(0, (k - 1) as nat) + binom(0, k));
        assert(k * 0 == 0);
        assert(1 * 0 == 0);
    } else {
        let m = (n - 1) as nat;
        lemma_binom_absorb(m, k);
        lemma_binom_absorb(m, (k - 1) as nat);
        let c1 = binom(m, (k - 1) as nat);
        let c2 = binom(m, k);
        let d1 = binom((m - 1) as nat, (k - 2) as nat);
        let d2 = binom((m - 1) as nat, (k - 1) as nat);
        assert(binom(n, k) == c1 + c2);
        assert(c1 == d1 + d2);
        assert(k * (c1 + c2) == n * c1) by (nonlinear_arith)
            requires
                k * c2 == m * d2,
                (k - 1) * c1 == m * d1,
                c1 == d1 + d2,
                n == m + 1,
        ;
    }
}

/// A prime `p` divides `C(p, k)` for `0 < k < p`.
proof fn lemma_prime_divides_binom(p: nat, k: nat)
    requires
        is_prime(p),
        0 < k < p,
    ensures
        binom(p, k) % p == 0,
{
    lemma_binom_absorb(p, k);
    let c = binom((p - 1) as nat, (k - 1) as nat);
    assert(k * binom(p, k) == c * p) by (nonlinear_arith)
        requires
            k * binom(p, k) == p * c,
    ;
    lemma_mod_multiples_basic(c as int, p as int);
    lemma_small_mod(k, p);
    lemma_euclid_prime(k, binom(p, k), p);
}

/// The partial binomial sum `sum_{j <= k} C(n, j) * x^j`.
pub open spec fn binom_sum(n: nat, x: int, k: nat) -> int
    decreases k,
{
    if k == 0 {
        1
    } else {
        binom_sum(n, x, (k - 1) as nat) + binom(n, k) * pow(x, k)
    }
}

proof fn lemma_pow_unfold(x: int, k: nat)
    requires
        k > 0,
    ensures
        pow(x, k) == x * pow(x, (k - 1) as nat),
{
    reveal(pow);
}

/// Pascal's rule lifted to the partial binomial sums.
proof fn lemma_binom_sum_pascal(n: nat, x: int, k: nat)
    requires
        k >= 1,
    ensures
        binom_sum(n + 1, x, k) == x * binom_sum(n, x, (k - 1) as nat) + binom_sum(n, x, k),
    decreases k,
{
    lemma_pow_unfold(x, k);
    let n1 = (n + 1) as nat;
    if k == 1 {
        reveal(pow);
        let c = binom(n, 1);
        let p1 = pow(x, 1);
        assert(p1 == x);
        assert(binom(n, 0) == 1);
        assert(binom(n1, 1) == binom(n, 0) + binom(n, 1));
        assert(binom_sum(n1, x, 0) == 1);
        assert(binom_sum(n1, x, 1) == binom_sum(n1, x, 0) + binom(n1, 1) * pow(x, 1));
        assert(binom_sum(n, x, 0) == 1);
        assert(binom_sum(n, x, 1) == binom_sum(n, x, 0) + c * p1);
        assert(1 + (1 + c) * p1 == x * 1 + (1 + c * p1)) by (nonlinear_arith)
            requires
                p1 == x,
        ;
    } else {
        lemma_binom_sum_pascal(n, x, (k - 1) as nat);
        let a = binom_sum(n, x, (k - 2) as nat);
        let a1 = binom_sum(n, x, (k - 1) as nat);
        let a2 = binom_sum(n, x, k);
        let b1 = binom(n, (k - 1) as nat);
        let b2 = binom(n, k);
        let pk1 = pow(x, (k - 1) as nat);
        let pk = pow(x, k);
        assert(binom(n1, k) == b1 + b2);
        assert(binom_sum(n1, x, (k - 1) as nat) == x * a + a1);
        assert(binom_sum(n1, x, k) == binom_sum(n1, x, (k - 1) as nat) + (b1 + b2) * pk);
        assert(a1 == a + b1 * pk1);
        assert(a2 == a1 + b2 * pk);
        assert(x * a + a1 + (b1 + b2) * pk == x * a1 + a2) by (nonlinear_arith)
            requires
                pk == x * pk1,
                a1 == a + b1 * pk1,
                a2 == a1 + b2 * pk,
        ;
    }
}

/// The binomial theorem for `(x + 1)^n`.
pub proof fn lemma_binomial(n: nat, x: int)
    ensures
        pow(x + 1, n) == binom_sum(n, x, n),
    decreases n,
{
    if n == 0 {
        reveal(pow);
    } else {
        let m = (n - 1) as nat;
        lemma_binomial(m, x);
        lemma_pow_unfold(x + 1, n);
        lemma_binom_sum_pascal(m, x, n);
        lemma_binom_above(m, n);
        let s = binom_sum(m, x, m);
        assert(binom_sum(m, x, n) == s + 0 * pow(x, n));
        assert((x + 1) * s == x * s + s) by (nonlinear_arith);
    }
}

/// Below `p`, the binomial sum of a prime `p` is 1 modulo `p`.
proof fn lemma_binom_sum_mod_prime(p: nat, x: int, k: nat)
    requires
        is_prime(p),
        k < p,
    ensures
        binom_sum(p, x, k) % (p as int) == 1,
    decreases k,
{
    lemma_small_mod(1, p);
    if k > 0 {
        lemma_binom_sum_mod_prime(p, x, (k - 1) as nat);
        lemma_prime_divides_binom(p, k);
        let t = binom(p, k) * pow(x, k);
        lemma_mul_mod_noop_left(binom(p, k) as int, pow(x, k), p as int);
        assert(0 * pow(x, k) == 0);
        lemma_small_mod(0, p);
        lemma_add_mod_noop(binom_sum(p, x, (k - 1) as nat), t, p as int);
    }
}

/// `(x + 1)^p == x^p + 1` modulo a prime `p`.
proof fn lemma_freshman(p: nat, x: int)
    requires
        is_prime(p),
    ensures
        pow(x + 1, p) % (p as int) == (pow(x, p) + 1) % (p as int),
{
    let q = (p - 1) as nat;
    lemma_binomial(p, x);
    lemma_binom_diag(p);
    lemma_binom_sum_mod_prime(p, x, q);
    assert(binom_sum(p, x, p) == binom_sum(p, x, q) + pow(x, p));
    lemma_add_mod_noop(binom_sum(p, x, q), pow(x, p), p as int);
    lemma_small_mod(1, p);
    lemma_add_mod_noop(1, pow(x, p), p as int);
}

/// `x^p == x` modulo a prime `p`.
proof fn lemma_pow_prime_mod(x: nat, p: nat)
    requires
        is_prime(p),
    ensures
        pow(x as int, p) % (p as int) == (x as int) % (p as int),
    decreases x,
{
    if x == 0 {
        lemma0_pow(p);
    } else {
        let y = (x - 1) as nat;
        lemma_pow_prime_mod(y, p);
        lemma_freshman(p, y as int);
        lemma_small_mod(1, p);
        lemma_add_mod_noop(pow(y as int, p), 1, p as int);
        lemma_add_mod_noop(y as int, 1, p as int);
    }
}

/// Fermat's little theorem: `a^(p - 1) == 1` modulo a prime `p` that does
/// not divide `a`.
pub proof fn lemma_fermat_little(a: nat, p: nat)
    requires
        is_prime(p),
        a % p != 0,
    ensures
        pow(a as int, (p - 1) as nat) % (p as int) == 1,
{
    let c = pow(a as int, (p - 1) as nat);
    lemma_pow_prime_mod(a, p);
    lemma_pow_unfold(a as int, p);
    lemma_small_mod(0, p);
    assert(a > 0);
    lemma_pow_positive(a as int, (p - 1) as nat);
    assert(pow(a as int, p) == a * c);
    lemma_sub_mod_noop(a * c, a as int, p as int);
    lemma_small_mod(0, p);
    assert(a * c - a == a * (c - 1)) by (nonlinear_arith);
    lemma_euclid_prime(a, (c - 1) as nat, p);
    lemma_small_mod(1, p);
    lemma_add_mod_noop(c - 1, 1, p as int);
}

} // verus!
