use vstd::prelude::*;
use vstd::arithmetic::power::{pow, lemma_pow_adds, lemma_pow_mod_noop, lemma0_pow, lemma_pow0};
use vstd::arithmetic::div_mod::{
    lemma_mul_mod_noop_right, lemma_mul_mod_noop, lemma_small_mod, lemma_mod_bound,
    lemma_add_mod_noop, lemma_mod_add_multiples_vanish, lemma_mod_twice, lemma_fundamental_div_mod,
    lemma_mod_multiples_vanish, lemma_mod_multiples_basic, lemma_mul_mod_noop_left,
};
use crate::modular::{mul_mod_spec, add_mod_spec, sub_mod_spec, power_mod_spec, inv_mod_spec};
use crate::eltwise::fma_mod_spec;
use crate::number_theory::{is_prime, lemma_fermat_little};
use crate::poly::{conv_term, row_sum, conv_prefix, cyclic_conv};
use crate::sums::{seq_sum, seq_sum_sq, sum_mod_spec, sum_sq_mod_spec};

verus! {

/// Modulo a prime, `inv_mod` gives the multiplicative inverse of every
/// value the modulus does not divide.
pub proof fn lemma_inv_mod_is_inverse(a: nat, modulus: nat)
    requires
        is_prime(modulus),
        a % modulus != 0,
    ensures
        0 <= inv_mod_spec(a as int, modulus as int) < modulus,
        mul_mod_spec(a as int, inv_mod_spec(a as int, modulus as int), modulus as int) == 1,
{
    let m = modulus as int;
    lemma_small_mod(0, modulus);
    assert(a != 0);
    if modulus == 2 {
        assert(inv_mod_spec(a as int, m) == 1);
        lemma_mod_bound(a as int, m);
        assert(a * 1 == a);
    } else {
        let e = (modulus - 2) as nat;
        let c = pow(a as int, e);
        lemma_mod_bound(c, m);
        lemma_fermat_little(a, modulus);
        lemma_pow_adds(a as int, 1, e);
        reveal(pow);
        assert(pow(a as int, 1) == a * pow(a as int, 0));
        assert(pow(a as int, (modulus - 1) as nat) == a * c);
        lemma_mul_mod_noop_right(a as int, c, m);
    }
}

/// Modulo a prime, entry `i` of `get_roots` is the inverse of `i + 1`
/// whenever the modulus does not divide `i + 1`.
pub proof fn lemma_roots_are_inverses(i: nat, modulus: nat)
    requires
        is_prime(modulus),
        (i as int + 1) % (modulus as int) != 0,
    ensures
        mul_mod_spec(
            i as int + 1,
            power_mod_spec(i as int + 1, (modulus - 2) as nat, modulus as int),
            modulus as int,
        ) == 1,
{
    lemma_inv_mod_is_inverse((i + 1) as nat, modulus);
}

/// For a modulus above 2, `get_roots` and `get_inv_roots` give the same
/// entry at every index.
pub proof fn lemma_root_tables_agree(i: nat, modulus: nat)
    requires
        modulus > 2,
    ensures
        power_mod_spec(i as int + 1, (modulus - 2) as nat, modulus as int) == inv_mod_spec(
            (i as int + 1) % (modulus as int),
            modulus as int,
        ),
{
    let m = modulus as int;
    let e = (modulus - 2) as nat;
    lemma_pow_mod_noop(i as int + 1, e, m);
    if (i as int + 1) % m == 0 {
        lemma0_pow(e);
        lemma_small_mod(0, modulus);
    }
}

/// The stored difference is the difference of the integers modulo
/// `modulus`.
pub proof fn lemma_sub_mod_is_difference(a: int, b: int, modulus: int)
    requires
        modulus > 0,
    ensures
        sub_mod_spec(a, b, modulus) == (a - b) % modulus,
{
    lemma_mod_add_multiples_vanish(a - b, modulus);
}

/// Subtracting `b` undoes adding `b`: the result is `a` reduced.
pub proof fn lemma_sub_undoes_add(a: int, b: int, modulus: int)
    requires
        modulus > 0,
    ensures
        sub_mod_spec(add_mod_spec(a, b, modulus), b, modulus) == a % modulus,
{
    let s = add_mod_spec(a, b, modulus);
    lemma_sub_mod_is_difference(s, b, modulus);
    lemma_mod_bound(a + b, modulus);
    // (s - b) % m == ((a + b) % m - b) % m == (a + b - b) % m
    lemma_add_mod_noop(a + b, -b, modulus);
    lemma_mod_twice(a + b, modulus);
    lemma_add_mod_noop(s, -b, modulus);
}

/// Adding `b` undoes subtracting `b`: the result is `a` reduced.
pub proof fn lemma_add_undoes_sub(a: int, b: int, modulus: int)
    requires
        modulus > 0,
    ensures
        add_mod_spec(sub_mod_spec(a, b, modulus), b, modulus) == a % modulus,
{
    let d = sub_mod_spec(a, b, modulus);
    lemma_sub_mod_is_difference(a, b, modulus);
    lemma_add_mod_noop(a - b, b, modulus);
    lemma_mod_twice(a - b, modulus);
    lemma_add_mod_noop(d, b, modulus);
}

/// Powers add in the exponent: `a^(e1 + e2) == a^e1 * a^e2` modulo
/// `modulus`, for a modulus above 1.
pub proof fn lemma_power_mod_adds(a: int, e1: nat, e2: nat, modulus: int)
    requires
        modulus > 1,
    ensures
        power_mod_spec(a, e1 + e2, modulus) == mul_mod_spec(
            power_mod_spec(a, e1, modulus),
            power_mod_spec(a, e2, modulus),
            modulus,
        ),
{
    let m = modulus;
    lemma_pow_adds(a, e1, e2);
    lemma_pow0(a);
    lemma_small_mod(1, m as nat);
    // every case is pow(a, e) reduced, since 1 % m == 1
    assert(power_mod_spec(a, e1, m) == pow(a, e1) % m);
    assert(power_mod_spec(a, e2, m) == pow(a, e2) % m);
    assert(power_mod_spec(a, e1 + e2, m) == pow(a, e1 + e2) % m);
    lemma_mul_mod_noop(pow(a, e1), pow(a, e2), m);
}

/// The fused multiply-add is a modular product followed by a modular sum.
pub proof fn lemma_fma_is_mul_then_add(a: int, scalar: int, b: int, modulus: int)
    requires
        modulus > 0,
    ensures
        fma_mod_spec(a, scalar, b, modulus) == add_mod_spec(
            mul_mod_spec(a, scalar, modulus),
            b,
            modulus,
        ),
{
    lemma_add_mod_noop(a * scalar, b, modulus);
    lemma_mod_twice(a * scalar, modulus);
    lemma_add_mod_noop((a * scalar) % modulus, b, modulus);
}

/// The contribution of column `j` (coefficient `b[j]`) to coefficient `k`,
/// counting the first `i` coefficients of `a`.
spec fn col_sum(a: Seq<u64>, b: Seq<u64>, n: nat, k: int, j: int, i: nat) -> int
    decreases i,
{
    if i == 0 {
        0
    } else {
        col_sum(a, b, n, k, j, (i - 1) as nat) + conv_term(a, b, n, k, i - 1, j)
    }
}

/// The contribution of the first `j` columns, each counting the first `i`
/// coefficients of `a`.
spec fn col_prefix(a: Seq<u64>, b: Seq<u64>, n: nat, k: int, j: nat, i: nat) -> int
    decreases j,
{
    if j == 0 {
        0
    } else {
        col_prefix(a, b, n, k, (j - 1) as nat, i) + col_sum(a, b, n, k, j - 1, i)
    }
}

proof fn lemma_col_prefix_empty(a: Seq<u64>, b: Seq<u64>, n: nat, k: int, j: nat)
    ensures
        col_prefix(a, b, n, k, j, 0) == 0,
    decreases j,
{
    if j > 0 {
        lemma_col_prefix_empty(a, b, n, k, (j - 1) as nat);
    }
}

/// Adding row `i` to every column adds the row's sum to the column total.
proof fn lemma_col_prefix_add_row(a: Seq<u64>, b: Seq<u64>, n: nat, k: int, j: nat, i: nat)
    ensures
        col_prefix(a, b, n, k, j, i + 1) == col_prefix(a, b, n, k, j, i) + row_sum(
            a,
            b,
            n,
            k,
            i as int,
            j,
        ),
    decreases j,
{
    if j > 0 {
        lemma_col_prefix_add_row(a, b, n, k, (j - 1) as nat, i);
    }
}

/// Summing rows first or columns first gives the same total.
proof fn lemma_rows_columns(a: Seq<u64>, b: Seq<u64>, n: nat, k: int, i: nat)
    ensures
        conv_prefix(a, b, n, k, i) == col_prefix(a, b, n, k, n, i),
    decreases i,
{
    if i == 0 {
        lemma_col_prefix_empty(a, b, n, k, n);
    } else {
        lemma_rows_columns(a, b, n, k, (i - 1) as nat);
        lemma_col_prefix_add_row(a, b, n, k, n, (i - 1) as nat);
    }
}

/// A column of `a * b` is the matching row of `b * a`.
proof fn lemma_col_is_swapped_row(a: Seq<u64>, b: Seq<u64>, n: nat, k: int, j: int, i: nat)
    ensures
        col_sum(a, b, n, k, j, i) == row_sum(b, a, n, k, j, i),
    decreases i,
{
    if i > 0 {
        lemma_col_is_swapped_row(a, b, n, k, j, (i - 1) as nat);
        let t = i - 1;
        assert(t + j == j + t);
        assert(a[t] * b[j] == b[j] * a[t]) by (nonlinear_arith);
    }
}

proof fn lemma_col_prefix_is_swapped(a: Seq<u64>, b: Seq<u64>, n: nat, k: int, j: nat)
    ensures
        col_prefix(a, b, n, k, j, n) == conv_prefix(b, a, n, k, j),
    decreases j,
{
    if j > 0 {
        lemma_col_prefix_is_swapped(a, b, n, k, (j - 1) as nat);
        lemma_col_is_swapped_row(a, b, n, k, j - 1, n);
    }
}

/// Cyclic polynomial multiplication is commutative: swapping the operands of
/// `multiply_poly` leaves every coefficient unchanged.
pub proof fn lemma_cyclic_conv_commutes(a: Seq<u64>, b: Seq<u64>, n: nat, k: int)
    ensures
        cyclic_conv(a, b, n, k) == cyclic_conv(b, a, n, k),
{
    lemma_rows_columns(a, b, n, k, n);
    lemma_col_prefix_is_swapped(a, b, n, k, n);
}

/// The sum of one word is that word reduced, and each further word is added
/// to the running result and reduced again: `sum` over `n + 1` words equals
/// `(sum over n words + operand[n]) mod modulus`.
pub proof fn lemma_sum_step(s: Seq<u64>, n: nat, modulus: int)
    requires
        n < s.len(),
        modulus > 0,
    ensures
        sum_mod_spec(s, 1, modulus) == (s[0] as int) % modulus,
        sum_mod_spec(s, n + 1, modulus) == (sum_mod_spec(s, n, modulus) + s[n as int]) % modulus,
{
    assert(s.take(1).drop_last() =~= s.take(0));
    assert(s.take(0) =~= Seq::<u64>::empty());
    assert(s.take(n as int + 1).drop_last() =~= s.take(n as int));
    assert(s.take(1).last() == s[0]);
    assert(seq_sum(s.take(0)) == 0);
    assert(seq_sum(s.take(1)) == seq_sum(s.take(1).drop_last()) + s.take(1).last());
    let prev = seq_sum(s.take(n as int));
    lemma_add_mod_noop(prev, s[n as int] as int, modulus);
    lemma_mod_twice(prev, modulus);
    lemma_add_mod_noop(prev % modulus, s[n as int] as int, modulus);
    lemma_small_mod(0, modulus as nat);
}

/// The sum of squares of one word is its square reduced, and each further
/// word adds its square: `sum_sq` over `n + 1` words equals
/// `(sum_sq over n words + operand[n]^2) mod modulus`.
pub proof fn lemma_sum_sq_step(s: Seq<u64>, n: nat, modulus: int)
    requires
        n < s.len(),
        modulus > 0,
    ensures
        sum_sq_mod_spec(s, 1, modulus) == (s[0] * s[0]) % modulus,
        sum_sq_mod_spec(s, n + 1, modulus) == (sum_sq_mod_spec(s, n, modulus) + s[n as int]
            * s[n as int]) % modulus,
{
    assert(s.take(1).drop_last() =~= s.take(0));
    assert(s.take(0) =~= Seq::<u64>::empty());
    assert(s.take(n as int + 1).drop_last() =~= s.take(n as int));
    assert(s.take(1).last() == s[0]);
    assert(seq_sum_sq(s.take(0)) == 0);
    assert(seq_sum_sq(s.take(1)) == seq_sum_sq(s.take(1).drop_last()) + s.take(1).last()
        * s.take(1).last());
    let prev = seq_sum_sq(s.take(n as int));
    let sq = s[n as int] * s[n as int];
    lemma_add_mod_noop(prev, sq, modulus);
    lemma_mod_twice(prev, modulus);
    lemma_add_mod_noop(prev % modulus, sq, modulus);
    lemma_small_mod(0, modulus as nat);
}

/// Words at positions `n` and beyond do not affect the sums over `n` words.
pub proof fn lemma_sums_read_prefix(s: Seq<u64>, t: Seq<u64>, n: nat, modulus: int)
    requires
        n <= s.len(),
        n <= t.len(),
        forall|i: int| 0 <= i < n ==> s[i] == t[i],
    ensures
        sum_mod_spec(s, n, modulus) == sum_mod_spec(t, n, modulus),
        sum_sq_mod_spec(s, n, modulus) == sum_sq_mod_spec(t, n, modulus),
{
    assert(s.take(n as int) =~= t.take(n as int));
}

proof fn lemma_seq_sums_of_copies(s: Seq<u64>, n: nat, c: int)
    requires
        n <= s.len(),
        forall|i: int| 0 <= i < n ==> s[i] == c,
    ensures
        seq_sum(s.take(n as int)) == n * c,
        seq_sum_sq(s.take(n as int)) == n * (c * c),
    decreases n,
{
    if n == 0 {
        assert(s.take(0) =~= Seq::<u64>::empty());
    } else {
        let m = (n - 1) as nat;
        lemma_seq_sums_of_copies(s, m, c);
        assert(s.take(n as int).drop_last() =~= s.take(m as int));
        assert(s.take(n as int).last() == c);
        assert(m * c + c == n * c) by (nonlinear_arith)
            requires
                n == m + 1,
        ;
        assert(m * (c * c) + c * c == n * (c * c)) by (nonlinear_arith)
            requires
                n == m + 1,
        ;
    }
}

/// Summing `n` copies of a word `c` gives `n * c`, and summing their
/// squares gives `n * c^2`, both reduced modulo `modulus`.
pub proof fn lemma_sums_of_copies(s: Seq<u64>, n: nat, c: u64, modulus: int)
    requires
        n <= s.len(),
        modulus > 0,
        forall|i: int| 0 <= i < n ==> s[i] == c,
    ensures
        sum_mod_spec(s, n, modulus) == (n * c) % modulus,
        sum_sq_mod_spec(s, n, modulus) == (n * (c * c)) % modulus,
{
    lemma_seq_sums_of_copies(s, n, c as int);
    lemma_small_mod(0, modulus as nat);
}

/// For `j, k` in `[0, n)`, `(i + j) mod n == k` exactly when `j` is
/// `(k - i) mod n`.
proof fn lemma_mod_match(i: int, j: int, k: int, n: int)
    requires
        n > 0,
        0 <= j < n,
        0 <= k < n,
    ensures
        ((i + j) % n == k) <==> (j == (k - i) % n),
{
    let d = (k - i) % n;
    let q = (k - i) / n;
    lemma_fundamental_div_mod(k - i, n);
    if j == d {
        assert(i + j == n * (-q) + k) by (nonlinear_arith)
            requires
                k - i == n * q + d,
                j == d,
        ;
        lemma_mod_multiples_vanish(-q, k, n);
        lemma_small_mod(k as nat, n as nat);
    }
    if (i + j) % n == k {
        let q2 = (i + j) / n;
        lemma_fundamental_div_mod(i + j, n);
        assert(j == n * q2 + (k - i));
        lemma_mod_multiples_vanish(q2, k - i, n);
        lemma_small_mod(j as nat, n as nat);
    }
}

/// Row `i` of the cyclic product meets coefficient `k` in exactly one
/// column, `(k - i) mod n`.
proof fn lemma_row_single_term(a: Seq<u64>, b: Seq<u64>, n: nat, k: int, i: int, j: nat)
    requires
        0 <= k < n,
        j <= n,
    ensures
        row_sum(a, b, n, k, i, j) == if (k - i) % (n as int) < j {
            a[i] * b[(k - i) % (n as int)]
        } else {
            0
        },
    decreases j,
{
    lemma_mod_bound(k - i, n as int);
    if j > 0 {
        lemma_row_single_term(a, b, n, k, i, (j - 1) as nat);
        lemma_mod_match(i, j - 1, k, n as int);
    }
}

/// The sum `a[0] * b[(k - 0) mod n] + ... + a[i - 1] * b[(k - (i - 1)) mod n]`.
pub open spec fn diagonal_sum(a: Seq<u64>, b: Seq<u64>, n: nat, k: int, i: nat) -> int
    decreases i,
{
    if i == 0 {
        0
    } else {
        diagonal_sum(a, b, n, k, (i - 1) as nat) + a[i - 1] * b[(k - (i - 1)) % (n as int)]
    }
}

proof fn lemma_conv_prefix_diagonal(a: Seq<u64>, b: Seq<u64>, n: nat, k: int, i: nat)
    requires
        0 <= k < n,
    ensures
        conv_prefix(a, b, n, k, i) == diagonal_sum(a, b, n, k, i),
    decreases i,
{
    if i > 0 {
        lemma_conv_prefix_diagonal(a, b, n, k, (i - 1) as nat);
        lemma_row_single_term(a, b, n, k, i - 1, n);
        lemma_mod_bound(k - (i - 1), n as int);
    }
}

/// Coefficient `k` of the cyclic product is the exact integer sum of
/// `a[i] * b[(k - i) mod n]` over `i < n`: each coefficient of `a` meets the
/// one coefficient of `b` that completes its exponent to `k` modulo `n`.
pub proof fn lemma_cyclic_conv_is_diagonal_sum(a: Seq<u64>, b: Seq<u64>, n: nat, k: int)
    requires
        0 <= k < n,
    ensures
        cyclic_conv(a, b, n, k) == diagonal_sum(a, b, n, k, n),
{
    lemma_conv_prefix_diagonal(a, b, n, k, n);
}

proof fn lemma_diagonal_sum_monomial(
    a: Seq<u64>,
    b: Seq<u64>,
    n: nat,
    t: int,
    k: int,
    i: nat,
)
    requires
        0 <= t < n,
        0 <= k < n,
        i <= n,
        forall|j: int| 0 <= j < n && j != t ==> b[j] == 0,
    ensures
        diagonal_sum(a, b, n, k, i) == if (k - t) % (n as int) < i {
            a[(k - t) % (n as int)] * b[t]
        } else {
            0
        },
    decreases i,
{
    lemma_mod_bound(k - t, n as int);
    if i > 0 {
        let r = i - 1;
        lemma_diagonal_sum_monomial(a, b, n, t, k, (i - 1) as nat);
        lemma_mod_bound(k - r, n as int);
        // (k - r) mod n == t exactly when r == (k - t) mod n
        lemma_mod_match(r, t, k, n as int);
        lemma_mod_match(t, r, k, n as int);
        assert(r + t == t + r);
        if (k - r) % (n as int) != t {
            assert(b[(k - r) % (n as int)] == 0);
            assert(a[r] * 0 == 0);
        }
    }
}

/// Multiplying by the monomial `c * X^t` (the only nonzero coefficient of
/// `b` below `n` is `b[t] == c`) rotates `a` by `t` places and scales it by
/// `c`: coefficient `k` is the exact product `a[(k - t) mod n] * c`.
pub proof fn lemma_cyclic_conv_monomial(a: Seq<u64>, b: Seq<u64>, n: nat, t: int, k: int)
    requires
        0 <= t < n,
        0 <= k < n,
        forall|j: int| 0 <= j < n && j != t ==> b[j] == 0,
    ensures
        cyclic_conv(a, b, n, k) == a[(k - t) % (n as int)] * b[t],
{
    lemma_cyclic_conv_is_diagonal_sum(a, b, n, k);
    lemma_diagonal_sum_monomial(a, b, n, t, k, n);
    lemma_mod_bound(k - t, n as int);
}

/// A value `r` is the residue of `x` modulo `m`: it lies in `[0, m)` and
/// differs from `x` by a multiple of `m`.
pub open spec fn is_residue(r: int, x: int, m: int) -> bool {
    &&& 0 <= r < m
    &&& (x - r) % m == 0
}

proof fn lemma_mod_is_residue(x: int, m: int)
    requires
        m > 0,
    ensures
        is_residue(x % m, x, m),
{
    lemma_mod_bound(x, m);
    lemma_fundamental_div_mod(x, m);
    let q = x / m;
    assert(x - x % m == q * m) by (nonlinear_arith)
        requires
            x == m * q + x % m,
    ;
    lemma_mod_multiples_basic(q, m);
}

/// The modular product, sum, difference and fused multiply-add of exact
/// integers are residues of the exact results: `multiply_mod` of `a, b` is
/// the residue of `a * b`, `add_mod` of `a + b`, `sub_mod` of `a - b`, and
/// the fused multiply-add of `a * scalar + b`.
pub proof fn lemma_scalar_results_are_residues(a: int, b: int, scalar: int, modulus: int)
    requires
        modulus > 0,
    ensures
        is_residue(mul_mod_spec(a, b, modulus), a * b, modulus),
        is_residue(add_mod_spec(a, b, modulus), a + b, modulus),
        is_residue(sub_mod_spec(a, b, modulus), a - b, modulus),
        is_residue(fma_mod_spec(a, scalar, b, modulus), a * scalar + b, modulus),
{
    lemma_mod_is_residue(a * b, modulus);
    lemma_mod_is_residue(a + b, modulus);
    lemma_mod_is_residue(a * scalar + b, modulus);
    lemma_sub_mod_is_difference(a, b, modulus);
    lemma_mod_is_residue(a - b, modulus);
}

/// `power_mod` with exponent 0 is 1, and raising the exponent by one
/// multiplies the result by `a`: for a positive exponent the result is the
/// residue of the previous result times `a`.
pub proof fn lemma_power_mod_step(a: int, e: nat, modulus: int)
    requires
        modulus > 0,
    ensures
        power_mod_spec(a, 0, modulus) == 1,
        is_residue(power_mod_spec(a, e + 1, modulus), power_mod_spec(a, e, modulus) * a, modulus),
{
    let m = modulus;
    let p = pow(a, e);
    reveal(pow);
    assert(pow(a, e + 1) == a * p);
    lemma_mod_is_residue(a * p, m);
    if e == 0 {
        assert(p == 1);
        assert(power_mod_spec(a, e, m) * a == a * p);
    } else {
        // (p % m) * a differs from p * a by a multiple of m
        lemma_mul_mod_noop_left(p, a, m);
        lemma_mod_is_residue(p * a, m);
        lemma_mod_is_residue((p % m) * a, m);
        assert(a * p == p * a) by (nonlinear_arith);
        let x = (p % m) * a;
        let r = (a * p) % m;
        assert((x - r) % m == 0) by {
            lemma_fundamental_div_mod(x, m);
            lemma_fundamental_div_mod(p * a, m);
            let qx = x / m;
            assert(x - r == qx * m) by (nonlinear_arith)
                requires
                    x == m * qx + x % m,
                    x % m == r,
            ;
            lemma_mod_multiples_basic(qx, m);
        }
    }
}

} // verus!
