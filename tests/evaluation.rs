use tensor_pcs::binary_field::BinaryField128b;
use tensor_pcs::multilinear::{evaluate, expand_query, inner_product_of};
use tensor_pcs::tensor_pcs::{
    check_column, check_evaluation, mix_t_primes, mixing_coefficients, Error, VerificationError,
};

fn f(v: u128) -> BinaryField128b {
    BinaryField128b::new(v)
}

fn vals(v: &[BinaryField128b]) -> Vec<u128> {
    v.iter().map(|x| x.val()).collect()
}

#[test]
fn tensor_expansion_of_two_challenges() {
    let e = expand_query(&vec![f(0x1234), f(0xabcd)]);
    assert_eq!(vals(&e), vec![0x76f4, 0xdd38, 0x64c1, 0xcf0c]);
    let one = expand_query(&vec![f(7)]);
    assert_eq!(vals(&one), vec![6, 7]);
    assert_eq!(vals(&expand_query(&vec![])), vec![1]);
    let c = mixing_coefficients(&vec![f(0x1234), f(0xabcd)], 3);
    assert_eq!(vals(&c), vec![0x76f4, 0xdd38, 0x64c1]);
}

#[test]
fn evaluation_at_points() {
    let e = vec![f(3), f(5)];
    assert_eq!(evaluate(&e, &vec![f(2)]).val(), 0x8);
    assert_eq!(evaluate(&e, &vec![f(0)]).val(), 3);
    assert_eq!(evaluate(&e, &vec![f(1)]).val(), 5);
    let e = vec![f(10), f(11), f(12), f(13)];
    assert_eq!(evaluate(&e, &vec![f(1), f(0)]).val(), 11);
    assert_eq!(evaluate(&e, &vec![f(0), f(1)]).val(), 12);
    assert_eq!(evaluate(&e, &vec![f(1), f(1)]).val(), 13);
}

#[test]
fn honest_mixed_evaluation_is_accepted() {
    let t0 = vec![f(0x11), f(0x22), f(0x33), f(0x44)];
    let t1 = vec![f(0x99), f(0x1234), f(0x5), f(0xfedc)];
    let query = vec![f(0xdead), f(0xbeef)];
    let coeffs = mixing_coefficients(&vec![f(0x777)], 2);
    let values = vec![evaluate(&t0, &query), evaluate(&t1, &query)];
    let mixed = mix_t_primes(2, &vec![t0, t1], &coeffs).unwrap();
    assert_eq!(check_evaluation(&mixed, &query, &values, &coeffs), Ok(()));
    assert_eq!(evaluate(&mixed, &query).val(), inner_product_of(&values, &coeffs).val());
}

#[test]
fn tampered_mixed_t_prime_is_rejected() {
    let t0 = vec![f(0x11), f(0x22), f(0x33), f(0x44)];
    let query = vec![f(0xdead), f(0xbeef)];
    let coeffs = mixing_coefficients(&vec![], 1);
    let values = vec![evaluate(&t0, &query)];
    let mut mixed = mix_t_primes(2, &vec![t0], &coeffs).unwrap();
    mixed[2] = mixed[2].add(f(1));
    assert_eq!(
        check_evaluation(&mixed, &query, &values, &coeffs),
        Err(Error::Verification(VerificationError::IncorrectEvaluation))
    );
}

#[test]
fn column_check() {
    let stripes = vec![vec![f(1), f(2)], vec![f(3), f(4)]];
    let query_high = vec![f(0x55)];
    let coeffs = mixing_coefficients(&vec![f(0x9)], 2);
    let e0 = evaluate(&stripes[0], &query_high);
    let e1 = evaluate(&stripes[1], &query_high);
    let expected = inner_product_of(&vec![e0, e1], &coeffs);
    assert_eq!(check_column(expected, &stripes, &query_high, &coeffs), Ok(()));
    assert_eq!(
        check_column(expected.add(f(1)), &stripes, &query_high, &coeffs),
        Err(Error::Verification(VerificationError::IncorrectPartialEvaluation))
    );
}
