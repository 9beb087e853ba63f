use tensor_pcs::binary_field::BinaryField128b;
use tensor_pcs::tensor_pcs::{check_proof_shape, mix_t_primes, Error, Proof, VerificationError};

fn f(v: u128) -> BinaryField128b {
    BinaryField128b::new(v)
}

#[test]
fn mix_two_partial_evaluations() {
    let t_primes = vec![vec![f(1), f(0xa5)], vec![f(0x3c), f(1)]];
    let coeffs = vec![f(2), f(3)];
    let mixed = mix_t_primes(1, &t_primes, &coeffs).unwrap();
    let vals: Vec<u128> = mixed.iter().map(|x| x.val()).collect();
    assert_eq!(vals, vec![0x2a, 0xf9]);
}

#[test]
fn mix_rejects_wrong_size() {
    let t_primes = vec![vec![f(1), f(2)], vec![f(3)]];
    let coeffs = vec![f(1), f(1)];
    assert_eq!(mix_t_primes(1, &t_primes, &coeffs).err(), Some(Error::IncorrectPolynomialSize { expected: 1 }));
}

#[test]
fn proof_shape_checks() {
    let good: Proof<u8, ()> = Proof {
        n_polys: 2,
        mixed_t_prime: vec![f(0); 4],
        vcs_proofs: vec![(vec![vec![0u8; 4], vec![0u8; 4]], ()); 3],
    };
    assert_eq!(check_proof_shape(&good, 3, 8, 2, 4), Ok(()));
    assert_eq!(
        check_proof_shape(&good, 2, 8, 2, 4),
        Err(Error::Verification(VerificationError::NumberOfOpeningProofs { expected: 2 }))
    );
    assert_eq!(
        check_proof_shape(&good, 3, 16, 2, 4),
        Err(Error::Verification(VerificationError::OpenedColumnSize {
            col_index: 0,
            poly_index: 0,
            expected: 16,
            actual: 8
        }))
    );
    assert_eq!(
        check_proof_shape(&good, 3, 8, 2, 8),
        Err(Error::Verification(VerificationError::PartialEvaluationSize))
    );
    let mismatched: Proof<u8, ()> = Proof {
        n_polys: 1,
        mixed_t_prime: vec![f(0); 4],
        vcs_proofs: vec![(vec![vec![0u8; 4], vec![0u8; 4]], ()); 3],
    };
    assert_eq!(check_proof_shape(&mismatched, 3, 8, 2, 4), Err(Error::NumBatchedMismatchError));
}
