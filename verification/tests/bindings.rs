use hexl::{cpp_eltwise_mult_mod, cpp_multiply_mod, multiply_poly};

#[test]
fn test_multiply_mod() {
    let a: u64 = 12345;
    let b: u64 = 67890;
    let modulus: u64 = 1000000007;
    let result = cpp_multiply_mod(a, b, modulus);
    assert_eq!(result, 838102050);
}

#[test]
fn test_eltwise_mult_mod() {
    let a: Vec<u64> = vec![1, 2, 3, 4, 5];
    let b: Vec<u64> = vec![6, 7, 8, 9, 10];
    let modulus: u64 = 100;
    let mut result: Vec<u64> = vec![0; a.len()];

    cpp_eltwise_mult_mod(&mut result, &a, &b, modulus);

    assert_eq!(result, vec![6, 14, 24, 36, 50]);
}

#[test]
fn test_multiply_poly() {
    let n = 8;
    let modulus = 65537;
    let operand1: Vec<u64> = vec![1, 2, 3, 1, 0, 0, 0, 0];
    let operand2: Vec<u64> = vec![8, 7, 6, 1, 0, 0, 0, 0];
    let mut result = vec![0u64; n];

    let mut expected_result = vec![0u64; n];
    for i in 0..n / 2 {
        for j in 0..n / 2 {
            expected_result[i + j] =
                (expected_result[i + j] + operand1[i] * operand2[j]) % modulus;
        }
    }

    multiply_poly(&mut result, &operand1, &operand2, n as u64, modulus);

    assert_eq!(result, expected_result);
}
