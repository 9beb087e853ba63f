use tensor_pcs::binary_field::BinaryField128b;
use tensor_pcs::multilinear::evaluate;
use tensor_pcs::tensor_pcs::{
    mix_t_primes, mixing_coefficients, n_mixing_challenges, verify_evaluation_claim, Error, Proof,
    VerificationError,
};

fn f(v: u128) -> BinaryField128b {
    BinaryField128b::new(v)
}

fn partial_high(p: &[BinaryField128b], r: BinaryField128b) -> Vec<BinaryField128b> {
    let h = p.len() / 2;
    (0..h).map(|i| p[i].add(r.multiply(p[i].add(p[i + h])))).collect()
}

#[test]
fn mixing_challenge_counts() {
    assert_eq!(n_mixing_challenges(0), 0);
    assert_eq!(n_mixing_challenges(1), 0);
    assert_eq!(n_mixing_challenges(2), 1);
    assert_eq!(n_mixing_challenges(3), 2);
    assert_eq!(n_mixing_challenges(10), 4);
}

fn batch() -> (Vec<Vec<BinaryField128b>>, Vec<BinaryField128b>) {
    let p0: Vec<BinaryField128b> = (1u128..=8).map(|v| f(v * 0x1111)).collect();
    let p1: Vec<BinaryField128b> = (1u128..=8).map(|v| f(v * 0xabcdef)).collect();
    let query = vec![f(0x1357), f(0x2468), f(0xfeed)];
    (vec![p0, p1], query)
}

fn proof_for(polys: &[Vec<BinaryField128b>], query: &[BinaryField128b], challenges: &Vec<BinaryField128b>) -> Proof<u8, ()> {
    let coeffs = mixing_coefficients(challenges, polys.len());
    let t_primes: Vec<Vec<BinaryField128b>> = polys.iter().map(|p| partial_high(p, query[2])).collect();
    let mixed = mix_t_primes(2, &t_primes, &coeffs).unwrap();
    Proof { n_polys: polys.len(), mixed_t_prime: mixed, vcs_proofs: vec![(vec![vec![0u8; 2]; polys.len()], ()); 3] }
}

#[test]
fn honest_claim_is_accepted() {
    let (polys, query) = batch();
    let challenges = vec![f(0x4242)];
    assert_eq!(challenges.len(), n_mixing_challenges(polys.len()));
    let proof = proof_for(&polys, &query, &challenges);
    let values: Vec<BinaryField128b> = polys.iter().map(|p| evaluate(p, &query)).collect();
    assert_eq!(verify_evaluation_claim(&proof, &query, &values, &challenges, 3, 1, 1, 2), Ok(()));
}

#[test]
fn tampered_claim_is_rejected() {
    let (polys, query) = batch();
    let challenges = vec![f(0x4242)];
    let mut proof = proof_for(&polys, &query, &challenges);
    proof.mixed_t_prime[1] = proof.mixed_t_prime[1].add(f(0x80));
    let values: Vec<BinaryField128b> = polys.iter().map(|p| evaluate(p, &query)).collect();
    assert_eq!(
        verify_evaluation_claim(&proof, &query, &values, &challenges, 3, 1, 1, 2),
        Err(Error::Verification(VerificationError::IncorrectEvaluation))
    );
    assert_eq!(
        verify_evaluation_claim(&proof, &query, &values[..1].to_vec(), &challenges, 3, 1, 1, 2),
        Err(Error::NumBatchedMismatchError)
    );
    assert_eq!(
        verify_evaluation_claim(&proof, &query[..2].to_vec(), &values, &challenges, 3, 1, 1, 2),
        Err(Error::IncorrectQuerySize { expected: 3 })
    );
    assert_eq!(
        verify_evaluation_claim(&proof, &query, &values, &challenges, 4, 1, 1, 2),
        Err(Error::Verification(VerificationError::NumberOfOpeningProofs { expected: 4 }))
    );
}
