use hexl::{
    add_mod, cpp_multiply_mod, eltwise_add_mod, eltwise_fma_mod, eltwise_mult_mod,
    eltwise_reduce_mod, eltwise_reduce_mod_naive, eltwise_sub_mod, get_inv_roots, get_roots,
    inv_mod, multiply_mod, multiply_poly, polynomial_multiply_cyclotomic_mod, power_mod, sub_mod,
    sum, sum_fast, sum_sq, sum_sq_fast,
};

const BIG: u64 = u64::MAX;

#[test]
fn multiply_mod_exact_for_full_width_operands() {
    assert_eq!(multiply_mod(BIG, BIG, BIG - 1), 1);
    assert_eq!(multiply_mod(BIG, BIG, (1u64 << 61) - 1), 49);
    assert_eq!(cpp_multiply_mod(7, 8, 10), 6);
    assert_eq!(multiply_mod(5, 9, 1), 0);
}

#[test]
fn power_mod_values() {
    assert_eq!(power_mod(2, 10, 1000), 24);
    assert_eq!(power_mod(3, 200, 1000000007), 136318165);
    assert_eq!(power_mod(2, 3, 1u64 << 40), 8);
    assert_eq!(power_mod(BIG, BIG, 1u64 << 32), 4294967295);
    assert_eq!(power_mod(12, 0, 7), 1);
    assert_eq!(power_mod(0, 5, 7), 0);
}

#[test]
fn power_mod_empty_exponent_is_unreduced_one() {
    assert_eq!(power_mod(5, 0, 1), 1);
    assert_eq!(power_mod(5, 3, 1), 0);
}

#[test]
fn power_mod_exponents_add() {
    let m: u64 = 1000000007;
    for (e1, e2) in [(0u64, 5u64), (3, 4), (17, 29), (100, 1)] {
        let lhs = power_mod(7, e1 + e2, m);
        let rhs = multiply_mod(power_mod(7, e1, m), power_mod(7, e2, m), m);
        assert_eq!(lhs, rhs);
    }
}

#[test]
fn add_and_sub_mod_values() {
    assert_eq!(add_mod(BIG, BIG, 10), 0);
    assert_eq!(add_mod(4, 5, 7), 2);
    assert_eq!(sub_mod(3, 5, 7), 5);
    assert_eq!(sub_mod(5, 3, 7), 2);
    assert_eq!(sub_mod(0, 7, 7), 0);
}

#[test]
fn sub_undoes_add_and_add_undoes_sub() {
    let m: u64 = 97;
    for a in [0u64, 1, 50, 96, 1000] {
        for b in [0u64, 3, 96] {
            assert_eq!(sub_mod(add_mod(a, b, m), b, m), a % m);
            assert_eq!(add_mod(sub_mod(a, b, m), b, m), a % m);
        }
    }
}

#[test]
fn inv_mod_values() {
    assert_eq!(inv_mod(3, 7), 5);
    assert_eq!(inv_mod(0, 7), 0);
    assert_eq!(inv_mod(0, 0), 0);
    assert_eq!(inv_mod(7, 7), 0);
    assert_eq!(inv_mod(1, 2), 1);
}

#[test]
fn inv_mod_is_inverse_for_prime_modulus() {
    for p in [2u64, 3, 5, 7, 13, 65537, 1000000007] {
        for a in [1u64, 2, 3, 10, 12345, 987654321] {
            if a % p != 0 {
                let r = inv_mod(a, p);
                assert!(r < p);
                assert_eq!(multiply_mod(a, r, p), 1);
            }
        }
    }
}

#[test]
fn root_tables() {
    assert_eq!(get_roots(6, 7), vec![1, 4, 5, 2, 3, 6]);
    assert_eq!(get_inv_roots(6, 7), vec![1, 4, 5, 2, 3, 6]);
    assert_eq!(get_roots(0, 0), Vec::<u64>::new());
    assert_eq!(get_inv_roots(3, 1), vec![0, 0, 0]);
}

#[test]
fn root_tables_agree_above_two() {
    for m in [3u64, 4, 7, 10, 65537] {
        assert_eq!(get_roots(20, m), get_inv_roots(20, m));
    }
}

#[test]
fn root_tables_differ_for_modulus_two() {
    assert_eq!(get_roots(3, 2), vec![1, 1, 1]);
    assert_eq!(get_inv_roots(3, 2), vec![1, 0, 1]);
}

#[test]
fn roots_are_inverses_for_prime_modulus() {
    let p: u64 = 65537;
    let roots = get_roots(100, p);
    for i in 0..100u64 {
        assert_eq!(multiply_mod(i + 1, roots[i as usize], p), 1);
    }
}

#[test]
fn eltwise_operations_on_prefix() {
    let a: Vec<u64> = vec![5, 9, BIG, 1];
    let b: Vec<u64> = vec![8, 2, BIG, 1];
    let mut out: Vec<u64> = vec![77, 77, 77, 77];
    eltwise_mult_mod(&mut out, &a, &b, 3, 10);
    assert_eq!(out, vec![0, 8, 5, 77]);
    let mut out: Vec<u64> = vec![77, 77, 77, 77];
    eltwise_add_mod(&mut out, &a, &b, 3, 10);
    assert_eq!(out, vec![3, 1, 0, 77]);
    let mut out: Vec<u64> = vec![77, 77, 77, 77];
    eltwise_sub_mod(&mut out, &a, &b, 3, 10);
    assert_eq!(out, vec![7, 7, 0, 77]);
    let mut out: Vec<u64> = vec![77, 77, 77, 77];
    eltwise_reduce_mod(&mut out, &a, 2, 4);
    assert_eq!(out, vec![1, 1, 77, 77]);
    let mut out: Vec<u64> = vec![77, 77, 77, 77];
    eltwise_reduce_mod_naive(&mut out, &a, 4, 4);
    assert_eq!(out, vec![1, 1, 3, 1]);
}

#[test]
fn eltwise_with_zero_length_leaves_result() {
    let a: Vec<u64> = vec![1, 2];
    let mut out: Vec<u64> = vec![9, 9];
    eltwise_mult_mod(&mut out, &a, &a, 0, 0);
    eltwise_add_mod(&mut out, &a, &a, 0, 0);
    eltwise_reduce_mod(&mut out, &a, 0, 0);
    assert_eq!(out, vec![9, 9]);
}

#[test]
fn eltwise_matches_scalar_operations() {
    let m: u64 = 1000000007;
    let a: Vec<u64> = vec![0, 1, 123456789012, BIG];
    let b: Vec<u64> = vec![5, BIG, 98765, 3];
    let mut prod = vec![0u64; 4];
    let mut total = vec![0u64; 4];
    let mut diff = vec![0u64; 4];
    eltwise_mult_mod(&mut prod, &a, &b, 4, m);
    eltwise_add_mod(&mut total, &a, &b, 4, m);
    let ar: Vec<u64> = a.iter().map(|x| x % m).collect();
    let br: Vec<u64> = b.iter().map(|x| x % m).collect();
    eltwise_sub_mod(&mut diff, &ar, &br, 4, m);
    for i in 0..4 {
        assert_eq!(prod[i], multiply_mod(a[i], b[i], m));
        assert_eq!(total[i], add_mod(a[i], b[i], m));
        assert_eq!(diff[i], sub_mod(ar[i], br[i], m));
    }
}

#[test]
fn fma_is_multiply_then_add() {
    let m: u64 = 1000000007;
    let a: Vec<u64> = vec![12345, BIG, 0];
    let b: Vec<u64> = vec![999, BIG, 4];
    let mut out = vec![0u64; 3];
    eltwise_fma_mod(&mut out, &a, 678, &b, 3, m);
    assert_eq!(out[0], 8370909);
    for i in 0..3 {
        assert_eq!(out[i], add_mod(multiply_mod(a[i], 678, m), b[i], m));
    }
}

#[test]
fn sums_and_sums_of_squares() {
    let v: Vec<u64> = vec![BIG, BIG, BIG];
    assert_eq!(sum_sq(&v, 3, 1000000007), 344832807);
    assert_eq!(sum_sq_fast(&v, 3, 1000000007), 344832807);
    assert_eq!(sum(&v, 3, 1000000007), 747032014);
    assert_eq!(sum_fast(&v, 3, 1000000007), 747032014);
    let w: Vec<u64> = vec![1, 2, 3, 4];
    assert_eq!(sum(&w, 2, 100), 3);
    assert_eq!(sum_sq(&w, 4, 100), 30);
    assert_eq!(sum(&w, 0, 0), 0);
    assert_eq!(sum_sq(&w, 0, 0), 0);
}

#[test]
fn multiply_poly_wraps_around() {
    let a: Vec<u64> = vec![1, 1];
    let mut out = vec![0u64; 2];
    multiply_poly(&mut out, &a, &a, 2, 1000);
    assert_eq!(out, vec![2, 2]);
    let a: Vec<u64> = vec![0, 0, 5];
    let b: Vec<u64> = vec![0, 3, 4];
    let mut out = vec![9u64; 4];
    multiply_poly(&mut out, &a, &b, 3, 7);
    assert_eq!(out, vec![1, 6, 0, 9]);
}

#[test]
fn multiply_poly_commutes() {
    let m: u64 = 65537;
    let a: Vec<u64> = vec![3, 1, 4, 1, 5];
    let b: Vec<u64> = vec![9, 2, 6, 5, 3];
    let mut ab = vec![0u64; 5];
    let mut ba = vec![0u64; 5];
    multiply_poly(&mut ab, &a, &b, 5, m);
    multiply_poly(&mut ba, &b, &a, 5, m);
    assert_eq!(ab, ba);
    let mut c = vec![0u64; 5];
    polynomial_multiply_cyclotomic_mod(&mut c, &a, &b, 5, m);
    assert_eq!(c, ab);
}
