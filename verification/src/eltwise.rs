use vstd::prelude::*;
use crate::modular::{mul_mod_spec, add_mod_spec, sub_mod_spec};
use vstd::arithmetic::div_mod::lemma_mod_add_multiples_vanish;

verus! {

/// What element-wise subtraction stores for one pair: the plain difference
/// when it is non-negative, otherwise `modulus` minus the shortfall; in both
/// cases reduced modulo `modulus`.
pub open spec fn eltwise_sub_spec(a: int, b: int, modulus: int) -> int {
    if a >= b {
        (a - b) % modulus
    } else {
        (modulus - (b - a)) % modulus
    }
}

/// The fused multiply-add `(a * scalar + b) mod modulus`.
pub open spec fn fma_mod_spec(a: int, scalar: int, b: int, modulus: int) -> int {
    (a * scalar + b) % modulus
}

/// Both branches of the element-wise subtraction agree with `sub_mod_spec`.
pub proof fn lemma_eltwise_sub_is_sub_mod(a: int, b: int, modulus: int)
    requires
        modulus > 0,
    ensures
        eltwise_sub_spec(a, b, modulus) == sub_mod_spec(a, b, modulus),
{
    if a >= b {
        lemma_mod_add_multiples_vanish(a - b, modulus);
    }
}

/// Writes `(operand1[i] * operand2[i]) mod modulus` into `result[i]` for
/// every `i < n`; the rest of `result` is left as it was.
pub fn eltwise_mult_mod(
    result: &mut [u64],
    operand1: &[u64],
    operand2: &[u64],
    n: u64,
    modulus: u64,
)
    requires
        n <= old(result)@.len(),
        n <= operand1@.len(),
        n <= operand2@.len(),
        n == 0 || modulus > 0,
    ensures
        final(result)@.len() == old(result)@.len(),
        forall|i: int|
            0 <= i < n ==> final(result)@[i] == mul_mod_spec(
                operand1@[i] as int,
                operand2@[i] as int,
                modulus as int,
            ),
        forall|i: int| n <= i < old(result)@.len() ==> final(result)@[i] == old(result)@[i],
{
    if n == 0 {
        return ;
    }
    let total: usize = result.len();
    assert(n <= total);
    let len: usize = n as usize;
    let m: u128 = modulus as u128;
    for i in 0..len
        invariant
            len == n,
            m == modulus as u128,
            m > 0,
            len <= result@.len(),
            len <= operand1@.len(),
            len <= operand2@.len(),
            result@.len() == old(result)@.len(),
            forall|k: int|
                0 <= k < i ==> result@[k] == mul_mod_spec(
                    operand1@[k] as int,
                    operand2@[k] as int,
                    modulus as int,
                ),
            forall|k: int| i <= k < result@.len() ==> result@[k] == old(result)@[k],
    {
        let x: u64 = operand1[i];
        let y: u64 = operand2[i];
        proof {
            assert((x as u128) * (y as u128) <= u128::MAX) by (nonlinear_arith)
                requires
                    x <= u64::MAX,
                    y <= u64::MAX,
            ;
        }
        result[i] = (((x as u128) * (y as u128)) % m) as u64;
    }
}

/// Writes `(operand1[i] + operand2[i]) mod modulus` into `result[i]` for
/// every `i < n`; the rest of `result` is left as it was.
pub fn eltwise_add_mod(
    result: &mut [u64],
    operand1: &[u64],
    operand2: &[u64],
    n: u64,
    modulus: u64,
)
    requires
        n <= old(result)@.len(),
        n <= operand1@.len(),
        n <= operand2@.len(),
        n == 0 || modulus > 0,
    ensures
        final(result)@.len() == old(result)@.len(),
        forall|i: int|
            0 <= i < n ==> final(result)@[i] == add_mod_spec(
                operand1@[i] as int,
                operand2@[i] as int,
                modulus as int,
            ),
        forall|i: int| n <= i < old(result)@.len() ==> final(result)@[i] == old(result)@[i],
{
    if n == 0 {
        return ;
    }
    let total: usize = result.len();
    assert(n <= total);
    let len: usize = n as usize;
    let m: u128 = modulus as u128;
    for i in 0..len
        invariant
            len == n,
            m == modulus as u128,
            m > 0,
            len <= result@.len(),
            len <= operand1@.len(),
            len <= operand2@.len(),
            result@.len() == old(result)@.len(),
            forall|k: int|
                0 <= k < i ==> result@[k] == add_mod_spec(
                    operand1@[k] as int,
                    operand2@[k] as int,
                    modulus as int,
                ),
            forall|k: int| i <= k < result@.len() ==> result@[k] == old(result)@[k],
    {
        let x: u64 = operand1[i];
        let y: u64 = operand2[i];
        result[i] = (((x as u128) + (y as u128)) % m) as u64;
    }
}

/// Writes `operand1[i] - operand2[i]` taken modulo `modulus` into
/// `result[i]` for every `i < n`; the rest of `result` is left as it was.
/// Where `operand2[i]` exceeds `operand1[i]`, it may do so by at most
/// `modulus`, since the shortfall is subtracted from `modulus`.
pub fn eltwise_sub_mod(
    result: &mut [u64],
    operand1: &[u64],
    operand2: &[u64],
    n: u64,
    modulus: u64,
)
    requires
        n <= old(result)@.len(),
        n <= operand1@.len(),
        n <= operand2@.len(),
        n == 0 || modulus > 0,
        forall|i: int|
            0 <= i < n && operand1@[i] < operand2@[i] ==> operand2@[i] - operand1@[i] <= modulus,
    ensures
        final(result)@.len() == old(result)@.len(),
        forall|i: int|
            0 <= i < n ==> final(result)@[i] == eltwise_sub_spec(
                operand1@[i] as int,
                operand2@[i] as int,
                modulus as int,
            ),
        forall|i: int|
            0 <= i < n ==> final(result)@[i] == sub_mod_spec(
                operand1@[i] as int,
                operand2@[i] as int,
                modulus as int,
            ),
        forall|i: int| n <= i < old(result)@.len() ==> final(result)@[i] == old(result)@[i],
{
    if n == 0 {
        return ;
    }
    let total: usize = result.len();
    assert(n <= total);
    let len: usize = n as usize;
    let m: u128 = modulus as u128;
    for i in 0..len
        invariant
            len == n,
            m == modulus as u128,
            m > 0,
            len <= result@.len(),
            len <= operand1@.len(),
            len <= operand2@.len(),
            forall|k: int|
                0 <= k < n && operand1@[k] < operand2@[k] ==> operand2@[k] - operand1@[k]
                    <= modulus,
            result@.len() == old(result)@.len(),
            forall|k: int|
                0 <= k < i ==> result@[k] == eltwise_sub_spec(
                    operand1@[k] as int,
                    operand2@[k] as int,
                    modulus as int,
                ),
            forall|k: int|
                0 <= k < i ==> result@[k] == sub_mod_spec(
                    operand1@[k] as int,
                    operand2@[k] as int,
                    modulus as int,
                ),
            forall|k: int| i <= k < result@.len() ==> result@[k] == old(result)@[k],
    {
        let x: u64 = operand1[i];
        let y: u64 = operand2[i];
        let diff: u128 = if x >= y {
            (x as u128) - (y as u128)
        } else {
            m - ((y as u128) - (x as u128))
        };
        proof {
            lemma_eltwise_sub_is_sub_mod(x as int, y as int, modulus as int);
        }
        result[i] = (diff % m) as u64;
    }
}

/// Writes `operand[i] mod modulus` into `result[i]` for every `i < n`; the
/// rest of `result` is left as it was.
pub fn eltwise_reduce_mod(result: &mut [u64], operand: &[u64], n: u64, modulus: u64)
    requires
        n <= old(result)@.len(),
        n <= operand@.len(),
        n == 0 || modulus > 0,
    ensures
        final(result)@.len() == old(result)@.len(),
        forall|i: int| 0 <= i < n ==> final(result)@[i] == operand@[i] % modulus,
        forall|i: int| n <= i < old(result)@.len() ==> final(result)@[i] == old(result)@[i],
{
    if n == 0 {
        return ;
    }
    let total: usize = result.len();
    assert(n <= total);
    let len: usize = n as usize;
    for i in 0..len
        invariant
            len == n,
            modulus > 0,
            len <= result@.len(),
            len <= operand@.len(),
            result@.len() == old(result)@.len(),
            forall|k: int| 0 <= k < i ==> result@[k] == operand@[k] % modulus,
            forall|k: int| i <= k < result@.len() ==> result@[k] == old(result)@[k],
    {
        result[i] = operand[i] % modulus;
    }
}

/// The plain element-wise reduction; it does what `eltwise_reduce_mod` does.
pub fn eltwise_reduce_mod_naive(result: &mut [u64], operand: &[u64], n: u64, modulus: u64)
    requires
        n <= old(result)@.len(),
        n <= operand@.len(),
        n == 0 || modulus > 0,
    ensures
        final(result)@.len() == old(result)@.len(),
        forall|i: int| 0 <= i < n ==> final(result)@[i] == operand@[i] % modulus,
        forall|i: int| n <= i < old(result)@.len() ==> final(result)@[i] == old(result)@[i],
{
    eltwise_reduce_mod(result, operand, n, modulus);
}

/// Writes `(operand1[i] * scalar + operand2[i]) mod modulus` into
/// `result[i]` for every `i < n`; the rest of `result` is left as it was.
pub fn eltwise_fma_mod(
    result: &mut [u64],
    operand1: &[u64],
    scalar: u64,
    operand2: &[u64],
    n: u64,
    modulus: u64,
)
    requires
        n <= old(result)@.len(),
        n <= operand1@.len(),
        n <= operand2@.len(),
        n == 0 || modulus > 0,
    ensures
        final(result)@.len() == old(result)@.len(),
        forall|i: int|
            0 <= i < n ==> final(result)@[i] == fma_mod_spec(
                operand1@[i] as int,
                scalar as int,
                operand2@[i] as int,
                modulus as int,
            ),
        forall|i: int| n <= i < old(result)@.len() ==> final(result)@[i] == old(result)@[i],
{
    if n == 0 {
        return ;
    }
    let total: usize = result.len();
    assert(n <= total);
    let len: usize = n as usize;
    let m: u128 = modulus as u128;
    for i in 0..len
        invariant
            len == n,
            m == modulus as u128,
            m > 0,
            len <= result@.len(),
            len <= operand1@.len(),
            len <= operand2@.len(),
            result@.len() == old(result)@.len(),
            forall|k: int|
                0 <= k < i ==> result@[k] == fma_mod_spec(
                    operand1@[k] as int,
                    scalar as int,
                    operand2@[k] as int,
                    modulus as int,
                ),
            forall|k: int| i <= k < result@.len() ==> result@[k] == old(result)@[k],
    {
        let x: u64 = operand1[i];
        let y: u64 = operand2[i];
        proof {
            assert((x as u128) * (scalar as u128) + (y as u128) <= u128::MAX) by (nonlinear_arith)
                requires
                    x <= u64::MAX,
                    scalar <= u64::MAX,
                    y <= u64::MAX,
            ;
        }
        result[i] = (((x as u128) * (scalar as u128) + (y as u128)) % m) as u64;
    }
}

/// Element-wise modular product of two equally long slices into a third of
/// the same length.
pub fn cpp_eltwise_mult_mod(result: &mut [u64], a: &[u64], b: &[u64], modulus: u64)
    requires
        old(result)@.len() == a@.len(),
        a@.len() == b@.len(),
        a@.len() == 0 || modulus > 0,
    ensures
        final(result)@.len() == a@.len(),
        forall|i: int|
            0 <= i < a@.len() ==> final(result)@[i] == mul_mod_spec(
                a@[i] as int,
                b@[i] as int,
                modulus as int,
            ),
{
    let n: u64 = a.len() as u64;
    eltwise_mult_mod(result, a, b, n, modulus);
}

} // verus!
