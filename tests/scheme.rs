use tensor_pcs::binary_field::BinaryField128b;
use tensor_pcs::multilinear::evaluate;
use tensor_pcs::scheme::{ColumnHasher, LinearCode, VectorCommitScheme};
use tensor_pcs::tensor_pcs::{
    n_mixing_challenges, CodeParams, Error, PackingLayout, Proof, TensorPCS, VerificationError,
};
use vstd::seq::Seq;

/// A repetition code: the message repeated `rate` times.
struct Repetition {
    rate: usize,
}

impl LinearCode for Repetition {
    fn encodes(&self, _msg: Seq<u128>) -> bool {
        true
    }

    fn encoded(&self, msg: Seq<u128>) -> Seq<u128> {
        msg
    }

    fn encode(&self, msg: &Vec<u128>) -> Result<Vec<u128>, ()> {
        let mut out = Vec::new();
        for _ in 0..self.rate {
            out.extend_from_slice(msg);
        }
        Ok(out)
    }
}

struct MixHasher;

impl ColumnHasher<u128> for MixHasher {
    fn hashed(&self, _column: Seq<u128>) -> u128 {
        0
    }

    fn hash(&self, column: &Vec<u128>) -> u128 {
        column
            .iter()
            .enumerate()
            .fold(0x9e37_79b9u128, |h, (i, v)| h.rotate_left(7) ^ v.wrapping_mul(i as u128 * 2 + 1))
    }
}

/// Commits to the digests themselves; an opening is checked against them.
struct DigestList;

impl VectorCommitScheme<u128> for DigestList {
    type Commitment = Vec<Vec<u128>>;
    type Committed = Vec<Vec<u128>>;
    type Proof = ();

    fn commits(&self, _digests: Seq<Seq<u128>>) -> bool {
        true
    }

    fn opens(&self, _committed: Vec<Vec<u128>>, _index: usize) -> bool {
        true
    }

    fn opening_valid(&self, _commitment: Vec<Vec<u128>>, _index: usize, _proof: (), _leaves: Seq<u128>) -> bool {
        true
    }

    fn commit_batch(&self, digests: &Vec<Vec<u128>>) -> Result<(Vec<Vec<u128>>, Vec<Vec<u128>>), ()> {
        Ok((digests.clone(), digests.clone()))
    }

    fn prove_batch_opening(&self, committed: &Vec<Vec<u128>>, index: usize) -> Result<(), ()> {
        if committed.iter().all(|d| index < d.len()) {
            Ok(())
        } else {
            Err(())
        }
    }

    fn verify_batch_opening(
        &self,
        commitment: &Vec<Vec<u128>>,
        index: usize,
        _proof: &(),
        leaves: &Vec<u128>,
    ) -> Result<(), ()> {
        if leaves.len() == commitment.len() && commitment.iter().zip(leaves).all(|(d, l)| d[index] == *l) {
            Ok(())
        } else {
            Err(())
        }
    }
}

struct Lcg(u64);

impl Lcg {
    fn next(&mut self) -> u128 {
        self.0 = self.0.wrapping_mul(6364136223846793005).wrapping_add(1442695040888963407);
        (self.0 >> 11) as u128
    }
}

struct Setup {
    pcs: TensorPCS<DigestList>,
    code: Repetition,
    iota: usize,
    base_bits: usize,
}

fn setup(log_rows: usize, log_dim: usize, log_inv_rate: usize, n_test: usize, iota: usize, base_bits: usize) -> Setup {
    let params = CodeParams {
        len: 1 << (log_dim + log_inv_rate),
        dim: 1 << log_dim,
        dim_bits: log_dim,
        n_test_queries: n_test,
    };
    let layout = PackingLayout {
        base_width: 1,
        intermediate_width: 1,
        extension_width: 1,
        intermediate_degree: iota,
        extension_degree: 128,
        base_bits,
    };
    let pcs = TensorPCS::new(log_rows, params, DigestList, layout).ok().unwrap();
    Setup { pcs, code: Repetition { rate: 1 << log_inv_rate }, iota, base_bits }
}

fn random_polys(s: &Setup, batch: usize, rng: &mut Lcg) -> Vec<Vec<u128>> {
    let n = (1usize << s.pcs.log_rows()) * s.pcs.code_params().dim;
    let bits = s.iota * s.base_bits;
    (0..batch)
        .map(|_| (0..n).map(|_| if bits >= 128 { rng.next() } else { rng.next() & ((1u128 << bits) - 1) }).collect())
        .collect()
}

fn base_scalars(s: &Setup, poly: &[u128]) -> Vec<BinaryField128b> {
    let mut out = Vec::new();
    for v in poly {
        for j in 0..s.iota {
            let c = if s.base_bits >= 128 { *v } else { (v >> (j * s.base_bits)) & ((1u128 << s.base_bits) - 1) };
            out.push(BinaryField128b::new(c));
        }
    }
    out
}

fn run(s: &Setup, batch: usize, seed: u64) -> Result<(), Error> {
    let mut rng = Lcg(seed);
    let polys = random_polys(s, batch, &mut rng);
    let (commitment, (mats, committed)) = s.pcs.commit(&s.code, &MixHasher, &polys)?;
    let query: Vec<BinaryField128b> = (0..s.pcs.n_vars()).map(|_| BinaryField128b::new(rng.next() << 64 | rng.next())).collect();
    let values: Vec<BinaryField128b> = polys.iter().map(|p| evaluate(&base_scalars(s, p), &query)).collect();
    let challenges: Vec<BinaryField128b> =
        (0..n_mixing_challenges(batch)).map(|_| BinaryField128b::new(rng.next())).collect();
    let t_prime = s.pcs.prove_mixed_t_prime(&polys, mats.len(), &query, &challenges)?;
    let n = s.pcs.code_params().len;
    let indices: Vec<usize> = (0..s.pcs.code_params().n_test_queries).map(|_| (rng.next() as usize) % n).collect();
    let openings = s.pcs.open_columns(&mats, &committed, &indices)?;
    let proof = Proof { n_polys: batch, mixed_t_prime: t_prime, vcs_proofs: openings };
    assert_eq!(proof.vcs_proofs.len(), s.pcs.code_params().n_test_queries);
    for (cols, _) in &proof.vcs_proofs {
        assert_eq!(cols.len(), batch);
        for col in cols {
            assert_eq!(col.len(), 1 << s.pcs.log_rows());
        }
    }
    s.pcs.verify_evaluation(&s.code, &MixHasher, &commitment, &query, &proof, &values, &challenges, &indices)
}

#[test]
fn basic_single_commit_prove_verify() {
    let s = setup(4, 5, 2, 12, 1, 8);
    assert_eq!(run(&s, 1, 1), Ok(()));
}

#[test]
fn basic_batch_commit_prove_verify() {
    let s = setup(4, 5, 2, 12, 1, 8);
    assert_eq!(run(&s, 7, 2), Ok(()));
}

#[test]
fn block_1b_base_commit_prove_verify() {
    let s = setup(4, 5, 2, 12, 8, 1);
    assert_eq!(run(&s, 1, 3), Ok(()));
    assert_eq!(run(&s, 3, 4), Ok(()));
}

#[test]
fn basic_32b_base_commit_prove_verify() {
    let s = setup(8, 5, 2, 12, 1, 32);
    assert_eq!(run(&s, 1, 5), Ok(()));
}

#[test]
fn block_32b_base_in_128b_intermediate() {
    let s = setup(3, 3, 1, 4, 4, 32);
    assert_eq!(run(&s, 5, 6), Ok(()));
}

#[test]
fn tampering_is_rejected() {
    let s = setup(3, 3, 1, 4, 2, 8);
    let mut rng = Lcg(9);
    let polys = random_polys(&s, 2, &mut rng);
    let (commitment, (mats, committed)) = s.pcs.commit(&s.code, &MixHasher, &polys).unwrap();
    let query: Vec<BinaryField128b> = (0..s.pcs.n_vars()).map(|_| BinaryField128b::new(rng.next())).collect();
    let values: Vec<BinaryField128b> = polys.iter().map(|p| evaluate(&base_scalars(&s, p), &query)).collect();
    let challenges = vec![BinaryField128b::new(rng.next())];
    let t_prime = s.pcs.prove_mixed_t_prime(&polys, 2, &query, &challenges).unwrap();
    let again = s.pcs.prove_mixed_t_prime(&polys, 2, &query, &challenges).unwrap();
    assert_eq!(t_prime, again);
    let indices = vec![0usize, 5, 9, 15];
    let openings = s.pcs.open_columns(&mats, &committed, &indices).unwrap();
    let honest = Proof { n_polys: 2, mixed_t_prime: t_prime.clone(), vcs_proofs: openings.clone() };
    assert_eq!(
        s.pcs.verify_evaluation(&s.code, &MixHasher, &commitment, &query, &honest, &values, &challenges, &indices),
        Ok(())
    );
    let mut bad_t = t_prime.clone();
    bad_t[3] = bad_t[3].add(BinaryField128b::new(1));
    let proof = Proof { n_polys: 2, mixed_t_prime: bad_t, vcs_proofs: openings.clone() };
    assert_eq!(
        s.pcs.verify_evaluation(&s.code, &MixHasher, &commitment, &query, &proof, &values, &challenges, &indices),
        Err(Error::Verification(VerificationError::IncorrectEvaluation))
    );
    let mut bad_cols = openings.clone();
    bad_cols[1].0[0][2] ^= 1;
    let proof = Proof { n_polys: 2, mixed_t_prime: t_prime.clone(), vcs_proofs: bad_cols };
    assert_eq!(
        s.pcs.verify_evaluation(&s.code, &MixHasher, &commitment, &query, &proof, &values, &challenges, &indices),
        Err(Error::VectorCommit)
    );
    let u_prime = s.pcs.encode_ext(&s.code, &t_prime).unwrap();
    let query_high = query[s.pcs.log_cols()..].to_vec();
    let coeffs = tensor_pcs::tensor_pcs::mixing_coefficients(&challenges, 2);
    assert_eq!(s.pcs.verify_columns(&u_prime, &indices, &proof, &query_high, &coeffs),
        Err(Error::Verification(VerificationError::IncorrectPartialEvaluation)));
    assert_eq!(s.pcs.verify_columns(&u_prime, &indices, &honest, &query_high, &coeffs), Ok(()));
}

#[test]
fn commit_errors() {
    let s = setup(3, 3, 1, 4, 2, 8);
    let good = vec![0u128; 64];
    let short = vec![0u128; 63];
    assert_eq!(
        s.pcs.commit(&s.code, &MixHasher, &vec![good.clone(), short]).err(),
        Some(Error::IncorrectPolynomialSize { expected: 7 })
    );
    let mut wide = good.clone();
    wide[10] = 1 << 16;
    assert_eq!(s.pcs.commit(&s.code, &MixHasher, &vec![good, wide]).err(), Some(Error::UnalignedMessage));
}

#[test]
fn encode_ext_interleaves_stripes() {
    let s = setup(1, 1, 1, 1, 2, 8);
    let t: Vec<BinaryField128b> = [1u128, 2, 3, 4].iter().map(|v| BinaryField128b::new(*v)).collect();
    let u = s.pcs.encode_ext(&s.code, &t).unwrap();
    let vals: Vec<u128> = u.iter().map(|x| x.val()).collect();
    assert_eq!(vals, vec![1, 2, 3, 4, 1, 2, 3, 4]);
}

