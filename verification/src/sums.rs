use vstd::prelude::*;
use vstd::arithmetic::div_mod::lemma_add_mod_noop_right;

verus! {

/// The sum of the squares of the elements of `s`, as an integer.
pub open spec fn seq_sum_sq(s: Seq<u64>) -> int
    decreases s.len(),
{
    if s.len() == 0 {
        0
    } else {
        seq_sum_sq(s.drop_last()) + s.last() * s.last()
    }
}

/// The sum of the elements of `s`, as an integer.
pub open spec fn seq_sum(s: Seq<u64>) -> int
    decreases s.len(),
{
    if s.len() == 0 {
        0
    } else {
        seq_sum(s.drop_last()) + s.last()
    }
}

/// The value of the sum of squares of the first `n` elements modulo
/// `modulus`; an empty range gives 0 without reducing.
pub open spec fn sum_sq_mod_spec(s: Seq<u64>, n: nat, modulus: int) -> int {
    if n == 0 {
        0
    } else {
        seq_sum_sq(s.take(n as int)) % modulus
    }
}

/// The value of the sum of the first `n` elements modulo `modulus`; an empty
/// range gives 0 without reducing.
pub open spec fn sum_mod_spec(s: Seq<u64>, n: nat, modulus: int) -> int {
    if n == 0 {
        0
    } else {
        seq_sum(s.take(n as int)) % modulus
    }
}

/// Returns the sum of `operand1[i]^2` over `i < n`, modulo `modulus`,
/// reducing after every term.
pub fn sum_sq(operand1: &[u64], n: u64, modulus: u64) -> (r: u64)
    requires
        n <= operand1@.len(),
        n == 0 || modulus > 0,
    ensures
        r == sum_sq_mod_spec(operand1@, n as nat, modulus as int),
        n > 0 ==> r < modulus,
{
    let total_len: usize = operand1.len();
    assert(n <= total_len);
    let len: usize = n as usize;
    let m: u128 = modulus as u128;
    let mut total: u128 = 0;
    let mut i: usize = 0;
    while i < len
        invariant
            len == n,
            len <= operand1@.len(),
            m == modulus as u128,
            i <= len,
            len > 0 ==> m > 0,
            i == 0 ==> total == 0,
            i > 0 ==> m > 0 && total < m && total == seq_sum_sq(operand1@.take(i as int)) % (
            m as int),
        decreases len - i,
    {
        let x: u64 = operand1[i];
        proof {
            assert((x as u128) * (x as u128) <= u128::MAX - u64::MAX) by (nonlinear_arith)
                requires
                    x <= u64::MAX,
            ;
            assert(operand1@.take(i + 1).drop_last() =~= operand1@.take(i as int));
            assert(operand1@.take(i + 1).last() == x);
            assert(operand1@.take(0) =~= Seq::<u64>::empty());
            let prev = seq_sum_sq(operand1@.take(i as int));
            lemma_add_mod_noop_right(x * x, prev, m as int);
        }
        total = (total + (x as u128) * (x as u128)) % m;
        i = i + 1;
    }
    total as u64
}

/// Same result as `sum_sq`.
pub fn sum_sq_fast(operand1: &[u64], n: u64, modulus: u64) -> (r: u64)
    requires
        n <= operand1@.len(),
        n == 0 || modulus > 0,
    ensures
        r == sum_sq_mod_spec(operand1@, n as nat, modulus as int),
        n > 0 ==> r < modulus,
{
    sum_sq(operand1, n, modulus)
}

/// Returns the sum of `operand1[i]` over `i < n`, modulo `modulus`,
/// reducing after every term.
pub fn sum(operand1: &[u64], n: u64, modulus: u64) -> (r: u64)
    requires
        n <= operand1@.len(),
        n == 0 || modulus > 0,
    ensures
        r == sum_mod_spec(operand1@, n as nat, modulus as int),
        n > 0 ==> r < modulus,
{
    let total_len: usize = operand1.len();
    assert(n <= total_len);
    let len: usize = n as usize;
    let m: u128 = modulus as u128;
    let mut total: u128 = 0;
    let mut i: usize = 0;
    while i < len
        invariant
            len == n,
            len <= operand1@.len(),
            m == modulus as u128,
            i <= len,
            len > 0 ==> m > 0,
            i == 0 ==> total == 0,
            i > 0 ==> m > 0 && total < m && total == seq_sum(operand1@.take(i as int)) % (
            m as int),
        decreases len - i,
    {
        let x: u64 = operand1[i];
        proof {
            assert(operand1@.take(i + 1).drop_last() =~= operand1@.take(i as int));
            assert(operand1@.take(i + 1).last() == x);
            assert(operand1@.take(0) =~= Seq::<u64>::empty());
            let prev = seq_sum(operand1@.take(i as int));
            lemma_add_mod_noop_right(x as int, prev, m as int);
        }
        total = (total + (x as u128)) % m;
        i = i + 1;
    }
    total as u64
}

/// Same result as `sum`.
pub fn sum_fast(operand1: &[u64], n: u64, modulus: u64) -> (r: u64)
    requires
        n <= operand1@.len(),
        n == 0 || modulus > 0,
    ensures
        r == sum_mod_spec(operand1@, n as nat, modulus as int),
        n > 0 ==> r < modulus,
{
    sum(operand1, n, modulus)
}

} // verus!
