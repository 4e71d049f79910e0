use vstd::prelude::*;
use vstd::arithmetic::div_mod::{lemma_add_mod_noop, lemma_small_mod, lemma_mod_add_multiples_vanish};

verus! {

/// The term `a[i] * b[j]` when it lands on coefficient `k` of the cyclic
/// product modulo `X^n - 1`, that is when `(i + j) mod n == k`; else 0.
pub open spec fn conv_term(a: Seq<u64>, b: Seq<u64>, n: nat, k: int, i: int, j: int) -> int {
    if (i + j) % (n as int) == k {
        a[i] * b[j]
    } else {
        0
    }
}

/// The contribution of row `i` (coefficient `a[i]`) to coefficient `k` of
/// the cyclic product modulo `X^n - 1`, counting the first `j` coefficients
/// of `b`.
pub open spec fn row_sum(a: Seq<u64>, b: Seq<u64>, n: nat, k: int, i: int, j: nat) -> int
    decreases j,
{
    if j == 0 {
        0
    } else {
        row_sum(a, b, n, k, i, (j - 1) as nat) + conv_term(a, b, n, k, i, j - 1)
    }
}

/// The contribution of the first `i` rows to coefficient `k` of the cyclic
/// product of `a` and `b` modulo `X^n - 1`.
pub open spec fn conv_prefix(a: Seq<u64>, b: Seq<u64>, n: nat, k: int, i: nat) -> int
    decreases i,
{
    if i == 0 {
        0
    } else {
        conv_prefix(a, b, n, k, (i - 1) as nat) + row_sum(a, b, n, k, i - 1, n)
    }
}

/// Coefficient `k` of the cyclic product of the first `n` coefficients of
/// `a` and `b`: the sum of `a[i] * b[j]` over all `i, j < n` with
/// `(i + j) mod n == k`.
pub open spec fn cyclic_conv(a: Seq<u64>, b: Seq<u64>, n: nat, k: int) -> int {
    conv_prefix(a, b, n, k, n)
}

/// Multiplies the polynomials with coefficients `operand1[..n]` and
/// `operand2[..n]` modulo `X^n - 1` and modulo `modulus`; coefficient `k`
/// goes to `result[k]`, and the rest of `result` is left as it was.
pub fn multiply_poly(
    result: &mut [u64],
    operand1: &[u64],
    operand2: &[u64],
    n: u64,
    modulus: u64,
)
    requires
        n <= old(result)@.len(),
        n <= operand1@.len(),
        n <= operand2@.len(),
        n == 0 || modulus > 0,
    ensures
        final(result)@.len() == old(result)@.len(),
        forall|k: int|
            0 <= k < n ==> final(result)@[k] == cyclic_conv(operand1@, operand2@, n as nat, k)
                % (modulus as int),
        forall|k: int| n <= k < old(result)@.len() ==> final(result)@[k] == old(result)@[k],
{
    let total: usize = result.len();
    assert(n <= total);
    let len: usize = n as usize;
    let m: u128 = modulus as u128;
    let mut z: usize = 0;
    while z < len
        invariant
            len == n,
            z <= len,
            len <= result@.len(),
            result@.len() == old(result)@.len(),
            forall|k: int| 0 <= k < z ==> result@[k] == 0,
            forall|k: int| len <= k < result@.len() ==> result@[k] == old(result)@[k],
        decreases len - z,
    {
        result[z] = 0;
        z = z + 1;
    }
    proof {
        assert forall|k: int| 0 <= k < len implies #[trigger] result@[k] == conv_prefix(
            operand1@,
            operand2@,
            n as nat,
            k,
            0,
        ) % (m as int) by {
            lemma_small_mod(0, m as nat);
        }
    }
    let mut i: usize = 0;
    while i < len
        invariant
            len == n,
            m == modulus as u128,
            len > 0 ==> m > 0,
            i <= len,
            len <= result@.len(),
            len <= operand1@.len(),
            len <= operand2@.len(),
            result@.len() == old(result)@.len(),
            forall|k: int|
                0 <= k < len ==> #[trigger] result@[k] == conv_prefix(
                    operand1@,
                    operand2@,
                    n as nat,
                    k,
                    i as nat,
                ) % (m as int),
            forall|k: int| 0 <= k < len ==> #[trigger] result@[k] < m,
            forall|k: int| len <= k < result@.len() ==> result@[k] == old(result)@[k],
        decreases len - i,
    {
        let x: u64 = operand1[i];
        let mut j: usize = 0;
        while j < len
            invariant
                len == n,
                m == modulus as u128,
                m > 0,
                i < len,
                j <= len,
                x == operand1@[i as int],
                len <= result@.len(),
                len <= operand1@.len(),
                len <= operand2@.len(),
                result@.len() == old(result)@.len(),
                forall|k: int|
                    0 <= k < len ==> #[trigger] result@[k] == (conv_prefix(
                        operand1@,
                        operand2@,
                        n as nat,
                        k,
                        i as nat,
                    ) + row_sum(operand1@, operand2@, n as nat, k, i as int, j as nat)) % (m as int),
                forall|k: int| 0 <= k < len ==> #[trigger] result@[k] < m,
                forall|k: int| len <= k < result@.len() ==> result@[k] == old(result)@[k],
            decreases len - j,
        {
            let y: u64 = operand2[j];
            // `(i + j) mod len`, formed without leaving the range of `usize`
            let idx: usize = if j < len - i {
                i + j
            } else {
                j - (len - i)
            };
            assert(idx as int == (i + j) % (len as int)) by {
                if j < len - i {
                    lemma_small_mod((i + j) as nat, len as nat);
                } else {
                    lemma_small_mod(idx as nat, len as nat);
                    lemma_mod_add_multiples_vanish(idx as int, len as int);
                }
            }
            proof {
                assert((x as u128) * (y as u128) <= u128::MAX) by (nonlinear_arith)
                    requires
                        x <= u64::MAX,
                        y <= u64::MAX,
                ;
            }
            let value: u64 = (((x as u128) * (y as u128)) % m) as u64;
            let cur: u64 = result[idx];
            let ghost before = result@;
            result[idx] = (((cur as u128) + (value as u128)) % m) as u64;
            proof {
                assert forall|k: int| 0 <= k < len implies #[trigger] result@[k] == (conv_prefix(
                    operand1@,
                    operand2@,
                    n as nat,
                    k,
                    i as nat,
                ) + row_sum(operand1@, operand2@, n as nat, k, i as int, (j + 1) as nat)) % (
                m as int) by {
                    let p = conv_prefix(operand1@, operand2@, n as nat, k, i as nat);
                    let r = row_sum(operand1@, operand2@, n as nat, k, i as int, j as nat);
                    if k == idx as int {
                        lemma_add_mod_noop(p + r, (x as int) * (y as int), m as int);
                    } else {
                        assert(result@[k] == before[k]);
                    }
                }
            }
            j = j + 1;
        }
        i = i + 1;
    }
    proof {
        assert forall|k: int| 0 <= k < len implies #[trigger] result@[k] == cyclic_conv(
            operand1@,
            operand2@,
            n as nat,
            k,
        ) % (modulus as int) by {}
    }
}

/// The cyclic product routine under its second name: the result modulo
/// `X^phi - 1` and modulo `mod_q`.
pub fn polynomial_multiply_cyclotomic_mod(
    result: &mut [u64],
    operand1: &[u64],
    operand2: &[u64],
    phi: u64,
    mod_q: u64,
)
    requires
        phi <= old(result)@.len(),
        phi <= operand1@.len(),
        phi <= operand2@.len(),
        phi == 0 || mod_q > 0,
    ensures
        final(result)@.len() == old(result)@.len(),
        forall|k: int|
            0 <= k < phi ==> final(result)@[k] == cyclic_conv(
                operand1@,
                operand2@,
                phi as nat,
                k,
            ) % (mod_q as int),
        forall|k: int| phi <= k < old(result)@.len() ==> final(result)@[k] == old(result)@[k],
{
    multiply_poly(result, operand1, operand2, phi, mod_q);
}

} // verus!
