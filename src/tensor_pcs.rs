//! The verified core of the tensor-product commitment scheme: mixing of the
//! partial evaluations of a batch, and the shape check of an evaluation proof.
use crate::binary_field::BinaryField128b;
use crate::multilinear::{
    evaluate, expand_query, inner_product, inner_product_of, lemma_expansion_len, ml_eval, pow_two,
    tensor_expansion, values_of,
};
use crate::tower_spec::tower_mul;
use vstd::prelude::*;

verus! {

/// Failures of a proof's shape, found by the verifier.
#[derive(Clone, Copy, Debug, PartialEq, Eq, Structural)]
pub enum VerificationError {
    NumberOfOpeningProofs { expected: usize },
    OpenedColumnSize { col_index: usize, poly_index: usize, expected: usize, actual: usize },
    PartialEvaluationSize,
    IncorrectEvaluation,
    IncorrectPartialEvaluation,
}

/// Errors of the commitment scheme.
#[derive(Clone, Copy, Debug, PartialEq, Eq, Structural)]
pub enum Error {
    CodeLengthPowerOfTwoRequired,
    ExtensionDegreePowerOfTwoRequired,
    PackingWidthMustDivideNumberOfRows,
    PackingWidthMustDivideCodeDimension,
    IncorrectPolynomialSize { expected: usize },
    IncorrectQuerySize { expected: usize },
    UnalignedMessage,
    NumBatchedMismatchError,
    EncodeError,
    VectorCommit,
    Verification(VerificationError),
}

/// Evaluation proof: the number of polynomials, the mixed partial
/// evaluation `t'`, and for each opened column the column of every
/// polynomial (packed intermediate elements `PI`) with its opening proof `VP`.
pub struct Proof<PI, VP> {
    pub n_polys: usize,
    pub mixed_t_prime: Vec<BinaryField128b>,
    pub vcs_proofs: Vec<(Vec<Vec<PI>>, VP)>,
}

/// `sum_{i < n} c_i * t_i[v]` over the extension field (level 7).
pub open spec fn mix_at(ts: Seq<Vec<BinaryField128b>>, cs: Seq<BinaryField128b>, v: int, n: int) -> u128
    decreases n,
{
    if n <= 0 {
        0
    } else {
        mix_at(ts, cs, v, n - 1) ^ tower_mul(7, cs[n - 1].value(), ts[n - 1]@[v].value())
    }
}

/// Mixes the partial evaluations `t_primes` (each with `n_vars` variables,
/// that is `2^n_vars` values) by the coefficients: value `v` of the result is
/// `sum_i c_i * t'_i[v]`. Fails when some `t'_i` has another size.
pub fn mix_t_primes(
    n_vars: usize,
    t_primes: &Vec<Vec<BinaryField128b>>,
    mixing_coeffs: &Vec<BinaryField128b>,
) -> (r: Result<Vec<BinaryField128b>, Error>)
    requires
        n_vars < usize::BITS,
        mixing_coeffs@.len() == t_primes@.len(),
    ensures
        r is Err <==> exists|i: int|
            0 <= i < t_primes@.len() && #[trigger] t_primes@[i]@.len() != (1usize << n_vars),
        r is Err ==> r == Err::<Vec<BinaryField128b>, Error>(
            Error::IncorrectPolynomialSize { expected: n_vars },
        ),
        r matches Ok(m) ==> m@.len() == (1usize << n_vars) && forall|v: int|
            0 <= v < m@.len() ==> #[trigger] m@[v].value() == mix_at(
                t_primes@,
                mixing_coeffs@,
                v,
                t_primes@.len() as int,
            ),
{
    let size: usize = 1usize << n_vars;
    assert(size == (1usize << n_vars));
    let n = t_primes.len();
    let mut i: usize = 0;
    while i < n
        invariant
            n == t_primes@.len(),
            i <= n,
            size == (1usize << n_vars),
            forall|j: int| 0 <= j < i ==> #[trigger] t_primes@[j]@.len() == size,
        decreases n - i,
    {
        if t_primes[i].len() != size {
            assert(t_primes@[i as int]@.len() != (1usize << n_vars));
            return Err(Error::IncorrectPolynomialSize { expected: n_vars });
        }
        i = i + 1;
    }
    let mut mixed: Vec<BinaryField128b> = Vec::new();
    let mut v: usize = 0;
    while v < size
        invariant
            n == t_primes@.len(),
            n == mixing_coeffs@.len(),
            forall|j: int| 0 <= j < n ==> #[trigger] t_primes@[j]@.len() == size,
            v <= size,
            mixed@.len() == v,
            forall|u: int|
                0 <= u < v ==> #[trigger] mixed@[u].value() == mix_at(
                    t_primes@,
                    mixing_coeffs@,
                    u,
                    n as int,
                ),
        decreases size - v,
    {
        let mut acc = BinaryField128b::zero();
        let mut i: usize = 0;
        while i < n
            invariant
                n == t_primes@.len(),
                n == mixing_coeffs@.len(),
                forall|j: int| 0 <= j < n ==> #[trigger] t_primes@[j]@.len() == size,
                v < size,
                i <= n,
                acc.value() == mix_at(t_primes@, mixing_coeffs@, v as int, i as int),
            decreases n - i,
        {
            let term = mixing_coeffs[i].multiply(t_primes[i][v]);
            acc = acc.add(term);
            i = i + 1;
        }
        mixed.push(acc);
        v = v + 1;
    }
    Ok(mixed)
}

/// The size check of opened column `p` of opening `c`: it holds `n_rows`
/// scalars when unpacked from `pi_width`-wide packed elements.
pub open spec fn column_size_ok<PI, VP>(proof: &Proof<PI, VP>, c: int, p: int, n_rows: usize, pi_width: usize) -> bool {
    proof.vcs_proofs@[c].0@[p]@.len() * pi_width == n_rows
}

/// The scalar count reported for a column of `len` packed elements
/// (saturated at `usize::MAX`).
pub open spec fn reported_size(len: int, pi_width: usize) -> usize {
    if len * pi_width <= usize::MAX {
        (len * pi_width) as usize
    } else {
        usize::MAX
    }
}

/// The first failed column size check of opening `c`, from column `p` on.
pub open spec fn column_error<PI, VP>(proof: &Proof<PI, VP>, c: int, p: int, n_rows: usize, pi_width: usize) -> Option<Error>
    decreases proof.vcs_proofs@[c].0@.len() - p,
{
    if p < 0 || p >= proof.vcs_proofs@[c].0@.len() {
        None
    } else if !column_size_ok(proof, c, p, n_rows, pi_width) {
        Some(
            Error::Verification(
                VerificationError::OpenedColumnSize {
                    col_index: c as usize,
                    poly_index: p as usize,
                    expected: n_rows,
                    actual: reported_size(proof.vcs_proofs@[c].0@[p]@.len() as int, pi_width),
                },
            ),
        )
    } else {
        column_error(proof, c, p + 1, n_rows, pi_width)
    }
}

/// The first failed check among openings `c` and after: a column count other
/// than `n_polys`, then the column sizes, opening by opening.
pub open spec fn openings_error<PI, VP>(proof: &Proof<PI, VP>, c: int, n_rows: usize, pi_width: usize) -> Option<Error>
    decreases proof.vcs_proofs@.len() - c,
{
    if c < 0 || c >= proof.vcs_proofs@.len() {
        None
    } else if proof.vcs_proofs@[c].0@.len() != proof.n_polys {
        Some(Error::NumBatchedMismatchError)
    } else if column_error(proof, c, 0, n_rows, pi_width) is Some {
        column_error(proof, c, 0, n_rows, pi_width)
    } else {
        openings_error(proof, c + 1, n_rows, pi_width)
    }
}

/// The first failed shape check of a proof: the number of openings, then
/// the openings, then the length of the mixed `t'`.
pub open spec fn shape_error<PI, VP>(
    proof: &Proof<PI, VP>,
    n_queries: usize,
    n_rows: usize,
    pi_width: usize,
    n_cols: usize,
) -> Option<Error> {
    if proof.vcs_proofs@.len() != n_queries {
        Some(Error::Verification(VerificationError::NumberOfOpeningProofs { expected: n_queries }))
    } else if openings_error(proof, 0, n_rows, pi_width) is Some {
        openings_error(proof, 0, n_rows, pi_width)
    } else if proof.mixed_t_prime@.len() != n_cols {
        Some(Error::Verification(VerificationError::PartialEvaluationSize))
    } else {
        None
    }
}

/// The shape a proof must have: `n_queries` openings, each with a column
/// for every polynomial, each column holding `n_rows` scalars when unpacked
/// from `pi_width`-wide packed elements, and a mixed `t'` of `n_cols` values.
pub open spec fn proof_shape_ok<PI, VP>(
    proof: &Proof<PI, VP>,
    n_queries: usize,
    n_rows: usize,
    pi_width: usize,
    n_cols: usize,
) -> bool {
    shape_error(proof, n_queries, n_rows, pi_width, n_cols) is None
}

/// Checks the shape of an evaluation proof before any algebra is done, and
/// reports the first failed check.
pub fn check_proof_shape<PI, VP>(
    proof: &Proof<PI, VP>,
    n_queries: usize,
    n_rows: usize,
    pi_width: usize,
    n_cols: usize,
) -> (r: Result<(), Error>)
    ensures
        r == (match shape_error(proof, n_queries, n_rows, pi_width, n_cols) {
            Some(e) => Err::<(), Error>(e),
            None => Ok(()),
        }),
{
    if proof.vcs_proofs.len() != n_queries {
        return Err(Error::Verification(VerificationError::NumberOfOpeningProofs { expected: n_queries }));
    }
    let mut c: usize = 0;
    while c < proof.vcs_proofs.len()
        invariant
            c <= proof.vcs_proofs@.len(),
            proof.vcs_proofs@.len() == n_queries,
            openings_error(proof, 0, n_rows, pi_width) == openings_error(proof, c as int, n_rows, pi_width),
        decreases proof.vcs_proofs@.len() - c,
    {
        let cols = &proof.vcs_proofs[c].0;
        if cols.len() != proof.n_polys {
            return Err(Error::NumBatchedMismatchError);
        }
        let mut p: usize = 0;
        while p < cols.len()
            invariant
                c < proof.vcs_proofs@.len(),
                proof.vcs_proofs@.len() == n_queries,
                cols@ == proof.vcs_proofs@[c as int].0@,
                p <= cols@.len(),
                column_error(proof, c as int, 0, n_rows, pi_width) == column_error(proof, c as int, p as int, n_rows, pi_width),
                openings_error(proof, 0, n_rows, pi_width) == openings_error(proof, c as int, n_rows, pi_width),
                proof.vcs_proofs@[c as int].0@.len() == proof.n_polys,
            decreases cols@.len() - p,
        {
            let actual = cols[p].len().checked_mul(pi_width);
            if actual != Some(n_rows) {
                let reported = match actual {
                    Some(x) => x,
                    None => usize::MAX,
                };
                return Err(
                    Error::Verification(
                        VerificationError::OpenedColumnSize {
                            col_index: c,
                            poly_index: p,
                            expected: n_rows,
                            actual: reported,
                        },
                    ),
                );
            }
            p = p + 1;
        }
        c = c + 1;
    }
    if proof.mixed_t_prime.len() != n_cols {
        return Err(Error::Verification(VerificationError::PartialEvaluationSize));
    }
    Ok(())
}

/// What the scheme reads of its linear code: the block length, the message
/// dimension and its base-2 logarithm, and the number of column openings a
/// proof makes.
#[derive(Clone, Copy, Debug, PartialEq, Eq, Structural)]
pub struct CodeParams {
    pub len: usize,
    pub dim: usize,
    pub dim_bits: usize,
    pub n_test_queries: usize,
}

impl CodeParams {
    /// `dim` is `2^dim_bits`.
    pub open spec fn wf(self) -> bool {
        self.dim_bits < 64 && self.dim_bits < usize::BITS && self.dim == (1usize << self.dim_bits)
    }
}

/// The packing of the field types: the widths of the packed base (`P`),
/// intermediate (`PI`) and extension (`PE`) types, the degrees of the
/// intermediate and extension fields over the base field, and the number of
/// bits of a base-field scalar.
#[derive(Clone, Copy, Debug, PartialEq, Eq, Structural)]
pub struct PackingLayout {
    pub base_width: usize,
    pub intermediate_width: usize,
    pub extension_width: usize,
    pub intermediate_degree: usize,
    pub extension_degree: usize,
    pub base_bits: usize,
}

/// `n` is a power of two: `2^k` for some `k` below the word size.
pub open spec fn is_pow2(n: usize) -> bool {
    exists|k: u32| k < usize::BITS && #[trigger] (1usize << k) == n
}

/// Whether `n` is a power of two.
pub fn is_power_of_two(n: usize) -> (r: bool)
    ensures
        r == is_pow2(n),
{
    let mut k: u32 = 0;
    while k < usize::BITS
        invariant
            k <= usize::BITS,
            forall|j: u32| j < k ==> #[trigger] (1usize << j) != n,
        decreases usize::BITS - k,
    {
        if (1usize << k) == n {
            return true;
        }
        k = k + 1;
    }
    false
}

/// Relies on p3_util's `log2_strict_usize`: for a power of two `n`, the
/// exponent `r` with `2^r == n` (it panics on other inputs).
#[verifier::external_body]
fn log2_strict(n: usize) -> (r: usize)
    requires
        is_pow2(n),
    ensures
        r < usize::BITS,
        (1usize << r) == n,
{
    p3_util::log2_strict_usize(n)
}

/// The first misconfiguration of a scheme, in the order the constructor
/// checks them.
pub open spec fn config_error(log_rows: usize, code_len: usize, code_dim: usize, layout: PackingLayout) -> Option<Error> {
    let rows = 1usize << log_rows;
    if !is_pow2(code_len) {
        Some(Error::CodeLengthPowerOfTwoRequired)
    } else if !is_pow2(layout.intermediate_degree) || !is_pow2(layout.extension_degree) {
        Some(Error::ExtensionDegreePowerOfTwoRequired)
    } else if rows % layout.base_width != 0 || rows % layout.intermediate_width != 0 {
        Some(Error::PackingWidthMustDivideNumberOfRows)
    } else if code_dim % layout.intermediate_width != 0 || code_dim % layout.extension_width != 0 {
        Some(Error::PackingWidthMustDivideCodeDimension)
    } else {
        None
    }
}

/// The tensor-product commitment scheme's configuration: `2^log_rows` rows,
/// a linear code, a vector commitment scheme, and the packing of the fields.
pub struct TensorPCS<VCS> {
    log_rows: usize,
    code: CodeParams,
    vcs: VCS,
    layout: PackingLayout,
    log_block_size: usize,
}

impl<VCS> TensorPCS<VCS> {
    /// The number of rows is a power of two.
    pub closed spec fn spec_log_rows(&self) -> usize {
        self.log_rows
    }

    /// The code of the scheme.
    pub closed spec fn spec_code(&self) -> CodeParams {
        self.code
    }

    /// The packing of the scheme.
    pub closed spec fn spec_layout(&self) -> PackingLayout {
        self.layout
    }

    /// The base-2 logarithm of the intermediate field's degree over the base field.
    pub closed spec fn spec_log_block_size(&self) -> usize {
        self.log_block_size
    }

    /// The configuration passed the constructor's checks.
    pub closed spec fn wf(&self) -> bool {
        &&& self.log_rows < usize::BITS
        &&& self.log_block_size < usize::BITS
        &&& (1usize << self.log_block_size) == self.layout.intermediate_degree
        &&& 1 <= self.layout.base_bits
        &&& self.layout.intermediate_degree * self.layout.base_bits <= 128
        &&& self.code.wf()
        &&& config_error(self.log_rows, self.code.len, self.code.dim, self.layout)
            is None
    }

    /// Validates and builds a scheme. Fails with the first misconfiguration:
    /// a code length that is not a power of two, an extension degree that is
    /// not, or a packing width that does not divide the number of rows or the
    /// code dimension.
    pub fn new(log_rows: usize, code: CodeParams, vcs: VCS, layout: PackingLayout) -> (r: Result<Self, Error>)
        requires
            code.wf(),
            log_rows < usize::BITS,
            1 <= layout.base_bits,
            layout.intermediate_degree * layout.base_bits <= 128,
            layout.base_width > 0,
            layout.intermediate_width > 0,
            layout.extension_width > 0,
        ensures
            config_error(log_rows, code.len, code.dim, layout) is Some ==> r is Err
                && r->Err_0 == config_error(log_rows, code.len, code.dim, layout)->Some_0,
            config_error(log_rows, code.len, code.dim, layout) is None ==> (r is Ok
                && r->Ok_0.wf() && r->Ok_0.spec_log_rows() == log_rows && r->Ok_0.spec_layout()
                == layout && r->Ok_0.spec_code() == code),
    {
        let code_len = code.len;
        if !is_power_of_two(code_len) {
            return Err(Error::CodeLengthPowerOfTwoRequired);
        }
        let fi = layout.intermediate_degree;
        let fe = layout.extension_degree;
        if !is_power_of_two(fi) || !is_power_of_two(fe) {
            return Err(Error::ExtensionDegreePowerOfTwoRequired);
        }
        let rows: usize = 1usize << log_rows;
        if rows % layout.base_width != 0 || rows % layout.intermediate_width != 0 {
            return Err(Error::PackingWidthMustDivideNumberOfRows);
        }
        let dim = code.dim;
        if dim % layout.intermediate_width != 0 || dim % layout.extension_width != 0 {
            return Err(Error::PackingWidthMustDivideCodeDimension);
        }
        let log_block_size = log2_strict(fi);
        Ok(TensorPCS { log_rows, code, vcs, layout, log_block_size })
    }

    /// The base-2 logarithm of the number of rows of the committed matrix.
    pub fn log_rows(&self) -> (r: usize)
        ensures
            r == self.spec_log_rows(),
    {
        self.log_rows
    }

    /// The base-2 logarithm of the number of columns of the matrix before
    /// encoding: the code's dimension bits plus the intermediate degree's.
    pub fn log_cols(&self) -> (r: usize)
        requires
            self.wf(),
        ensures
            r == self.spec_code().dim_bits + self.spec_log_block_size(),
            r < 128,
            (1usize << self.spec_log_block_size()) == self.spec_layout().intermediate_degree,
    {
        self.code.dim_bits + self.log_block_size
    }

    /// The number of variables of the committed polynomials:
    /// `log_rows + log_cols`.
    pub fn n_vars(&self) -> (r: usize)
        requires
            self.wf(),
        ensures
            r == self.spec_log_rows() + self.spec_code().dim_bits + self.spec_log_block_size(),
    {
        self.log_rows + self.log_cols()
    }

    /// The vector commitment scheme.
    pub closed spec fn spec_vcs(&self) -> &VCS {
        &self.vcs
    }

    /// The vector commitment scheme.
    pub fn vcs(&self) -> (r: &VCS)
        ensures
            r == self.spec_vcs(),
    {
        &self.vcs
    }

    /// The parameters of the code.
    pub fn code_params(&self) -> (r: CodeParams)
        ensures
            r == self.spec_code(),
    {
        self.code
    }

    /// The packing of the fields.
    pub fn layout(&self) -> (r: PackingLayout)
        ensures
            r == self.spec_layout(),
    {
        self.layout
    }

    /// The base-2 logarithm of the intermediate field's degree over the base field.
    pub fn log_block_size(&self) -> (r: usize)
        ensures
            r == self.spec_log_block_size(),
    {
        self.log_block_size
    }

    /// What a configuration that passed the constructor's checks guarantees.
    pub proof fn lemma_wf(&self)
        requires
            self.wf(),
        ensures
            self.spec_log_rows() < usize::BITS,
            self.spec_log_block_size() < usize::BITS,
            (1usize << self.spec_log_block_size()) == self.spec_layout().intermediate_degree,
            1 <= self.spec_layout().base_bits,
            self.spec_layout().intermediate_degree * self.spec_layout().base_bits <= 128,
            self.spec_code().wf(),
            is_pow2(self.spec_code().len),
    {
    }
}

/// The mixing coefficients of a batch of `n_polys` polynomials: the first
/// `n_polys` entries of the tensor expansion of the mixing challenges.
pub fn mixing_coefficients(challenges: &Vec<BinaryField128b>, n_polys: usize) -> (r: Vec<BinaryField128b>)
    requires
        challenges@.len() < 64,
        n_polys <= pow_two(challenges@.len() as nat),
    ensures
        values_of(r@) == tensor_expansion(values_of(challenges@)).take(n_polys as int),
        r@.len() == n_polys,
{
    let expansion = expand_query(challenges);
    let mut r: Vec<BinaryField128b> = Vec::new();
    let mut i: usize = 0;
    while i < n_polys
        invariant
            n_polys <= expansion@.len(),
            i <= n_polys,
            r@.len() == i,
            forall|k: int| 0 <= k < i ==> #[trigger] r@[k] == expansion@[k],
        decreases n_polys - i,
    {
        r.push(expansion[i]);
        i = i + 1;
    }
    proof {
        assert(values_of(r@) =~= values_of(expansion@).take(n_polys as int));
    }
    r
}

/// The verifier's check of the mixed `t'`: its value at the low half of the
/// query must be the mix of the claimed values. Fails with
/// `IncorrectEvaluation` otherwise.
pub fn check_evaluation(
    mixed_t_prime: &Vec<BinaryField128b>,
    query_low: &Vec<BinaryField128b>,
    values: &Vec<BinaryField128b>,
    mixing_coeffs: &Vec<BinaryField128b>,
) -> (r: Result<(), Error>)
    requires
        mixed_t_prime@.len() == pow_two(query_low@.len() as nat),
        values@.len() == mixing_coeffs@.len(),
    ensures
        r is Ok <==> ml_eval(values_of(mixed_t_prime@), values_of(query_low@)) == inner_product(
            values_of(values@),
            values_of(mixing_coeffs@),
            values@.len() as int,
        ),
        r is Err ==> r == Err::<(), Error>(Error::Verification(VerificationError::IncorrectEvaluation)),
{
    let computed = evaluate(mixed_t_prime, query_low);
    let value = inner_product_of(values, mixing_coeffs);
    if computed.val() != value.val() {
        return Err(Error::Verification(VerificationError::IncorrectEvaluation));
    }
    Ok(())
}

/// The verifier's check of one opened block: each polynomial's stripe of the
/// opened column, a multilinear polynomial over the high half of the query,
/// is evaluated there; the mix of these values must equal the entry of the
/// encoded `u'` at that position. Fails with `IncorrectPartialEvaluation`
/// otherwise.
pub fn check_column(
    expected: BinaryField128b,
    stripes: &Vec<Vec<BinaryField128b>>,
    query_high: &Vec<BinaryField128b>,
    mixing_coeffs: &Vec<BinaryField128b>,
) -> (r: Result<(), Error>)
    requires
        stripes@.len() == mixing_coeffs@.len(),
        forall|i: int| 0 <= i < stripes@.len() ==> #[trigger] stripes@[i]@.len() == pow_two(query_high@.len() as nat),
    ensures
        r is Ok <==> expected.value() == inner_product(
            Seq::new(stripes@.len(), |i: int| ml_eval(values_of(stripes@[i]@), values_of(query_high@))),
            values_of(mixing_coeffs@),
            stripes@.len() as int,
        ),
        r is Err ==> r == Err::<(), Error>(Error::Verification(VerificationError::IncorrectPartialEvaluation)),
{
    let n = stripes.len();
    let mut evals: Vec<BinaryField128b> = Vec::new();
    let mut i: usize = 0;
    while i < n
        invariant
            n == stripes@.len(),
            forall|k: int| 0 <= k < n ==> #[trigger] stripes@[k]@.len() == pow_two(query_high@.len() as nat),
            i <= n,
            evals@.len() == i,
            forall|k: int| 0 <= k < i ==> #[trigger] evals@[k].value() == ml_eval(values_of(stripes@[k]@), values_of(query_high@)),
        decreases n - i,
    {
        evals.push(evaluate(&stripes[i], query_high));
        i = i + 1;
    }
    let actual = inner_product_of(&evals, mixing_coeffs);
    proof {
        assert(values_of(evals@) =~= Seq::new(stripes@.len(), |i: int| ml_eval(values_of(stripes@[i]@), values_of(query_high@))));
    }
    if actual.val() != expected.val() {
        return Err(Error::Verification(VerificationError::IncorrectPartialEvaluation));
    }
    Ok(())
}

/// Relies on p3_util's `log2_ceil_usize`: the least `r` with `n <= 2^r`
/// (0 for `n` of 0 or 1).
#[verifier::external_body]
fn log2_ceil(n: usize) -> (r: usize)
    ensures
        r <= 64,
        n <= pow_two(r as nat),
        r > 0 ==> pow_two((r - 1) as nat) < n,
{
    p3_util::log2_ceil_usize(n)
}

/// The number of mixing challenges to sample for a batch of `n_polys`
/// polynomials: the least `r` with `n_polys <= 2^r`.
pub fn n_mixing_challenges(n_polys: usize) -> (r: usize)
    ensures
        r <= 64,
        n_polys <= pow_two(r as nat),
        r > 0 ==> pow_two((r - 1) as nat) < n_polys,
{
    log2_ceil(n_polys)
}

/// The verifier's first check, made before any challenge is sampled: the
/// number of claimed values must be the proof's number of polynomials.
pub fn check_batch_size(n_polys: usize, n_values: usize) -> (r: Result<(), Error>)
    ensures
        r is Ok <==> n_polys == n_values,
        r is Err ==> r == Err::<(), Error>(Error::NumBatchedMismatchError),
{
    if n_polys != n_values {
        return Err(Error::NumBatchedMismatchError);
    }
    Ok(())
}

/// The verifier's decisions up to the evaluation check, given the mixing
/// challenges sampled by the caller: the batch size must match the claimed
/// values, the query must have `log_rows + log_n_cols` coordinates, the proof
/// must have its shape, and the mixed `t'` must evaluate at the low
/// `log_n_cols` coordinates to the mix of the claimed values.
pub fn verify_evaluation_claim<PI, VP>(
    proof: &Proof<PI, VP>,
    query: &Vec<BinaryField128b>,
    values: &Vec<BinaryField128b>,
    mixing_challenges: &Vec<BinaryField128b>,
    n_queries: usize,
    log_rows: usize,
    pi_width: usize,
    log_n_cols: usize,
) -> (r: Result<(), Error>)
    requires
        mixing_challenges@.len() < 64,
        proof.n_polys <= pow_two(mixing_challenges@.len() as nat),
        log_rows < 64,
        log_n_cols < 64,
        log_rows < usize::BITS,
        log_n_cols < usize::BITS,
    ensures
        values@.len() != proof.n_polys ==> r == Err::<(), Error>(Error::NumBatchedMismatchError),
        (values@.len() == proof.n_polys && query@.len() != log_rows + log_n_cols) ==> r == Err::<
            (),
            Error,
        >(Error::IncorrectQuerySize { expected: (log_rows + log_n_cols) as usize }),
        (values@.len() == proof.n_polys && query@.len() == log_rows + log_n_cols && shape_error(
            proof,
            n_queries,
            1usize << log_rows,
            pi_width,
            1usize << log_n_cols,
        ) is Some) ==> r == Err::<(), Error>(
            shape_error(proof, n_queries, 1usize << log_rows, pi_width, 1usize << log_n_cols)->Some_0,
        ),
        r is Err ==> (r == Err::<(), Error>(Error::NumBatchedMismatchError) || r matches Err(
            Error::IncorrectQuerySize { .. },
        ) || shape_error(proof, n_queries, 1usize << log_rows, pi_width, 1usize << log_n_cols)
            is Some || r == Err::<(), Error>(
            Error::Verification(VerificationError::IncorrectEvaluation),
        )),
        (values@.len() == proof.n_polys && query@.len() == log_rows + log_n_cols && shape_error(
            proof,
            n_queries,
            1usize << log_rows,
            pi_width,
            1usize << log_n_cols,
        ) is None && r is Err) ==> r == Err::<(), Error>(
            Error::Verification(VerificationError::IncorrectEvaluation),
        ),
        r is Ok <==> {
            &&& values@.len() == proof.n_polys
            &&& query@.len() == log_rows + log_n_cols
            &&& proof_shape_ok(proof, n_queries, 1usize << log_rows, pi_width, 1usize << log_n_cols)
            &&& ml_eval(values_of(proof.mixed_t_prime@), values_of(query@).take(log_n_cols as int))
                == inner_product(
                values_of(values@),
                tensor_expansion(values_of(mixing_challenges@)),
                values@.len() as int,
            )
        },
{
    if values.len() != proof.n_polys {
        return Err(Error::NumBatchedMismatchError);
    }
    let coeffs = mixing_coefficients(mixing_challenges, proof.n_polys);
    if query.len() != log_rows + log_n_cols {
        return Err(Error::IncorrectQuerySize { expected: log_rows + log_n_cols });
    }
    let n_rows: usize = 1usize << log_rows;
    let n_cols: usize = 1usize << log_n_cols;
    match check_proof_shape(proof, n_queries, n_rows, pi_width, n_cols) {
        Ok(()) => {},
        Err(e) => {
            return Err(e);
        },
    }
    let mut query_low: Vec<BinaryField128b> = Vec::new();
    let mut i: usize = 0;
    while i < log_n_cols
        invariant
            i <= log_n_cols,
            log_n_cols <= query@.len(),
            query_low@.len() == i,
            forall|k: int| 0 <= k < i ==> #[trigger] query_low@[k] == query@[k],
        decreases log_n_cols - i,
    {
        query_low.push(query[i]);
        i = i + 1;
    }
    proof {
        assert(values_of(query_low@) =~= values_of(query@).take(log_n_cols as int));
        lemma_shift_is_pow_two(log_n_cols);
        lemma_expansion_len(values_of(mixing_challenges@));
        lemma_inner_product_take(
            values_of(values@),
            tensor_expansion(values_of(mixing_challenges@)),
            values@.len() as int,
        );
        assert(values_of(coeffs@) =~= tensor_expansion(values_of(mixing_challenges@)).take(
            proof.n_polys as int,
        ));
    }
    check_evaluation(&proof.mixed_t_prime, &query_low, values, &coeffs)
}

/// `1 << n` is `2^n`.
pub proof fn lemma_shift_is_pow_two(n: usize)
    requires
        n < 64,
        n < usize::BITS,
    ensures
        (1usize << n) as nat == pow_two(n as nat),
    decreases n,
{
    if n == 0 {
        assert(1usize << 0usize == 1) by (bit_vector);
    } else {
        lemma_shift_is_pow_two((n - 1) as usize);
        let m = (n - 1) as usize;
        assert((1usize << n) == 2 * (1usize << m)) by (bit_vector)
            requires
                n == m + 1,
                n < 64,
                n < usize::BITS,
        ;
    }
}

proof fn lemma_inner_product_take(v: Seq<u128>, c: Seq<u128>, n: int)
    requires
        0 <= n <= c.len(),
    ensures
        inner_product(v, c.take(n), n) == inner_product(v, c, n),
    decreases n,
{
    if n > 0 {
        lemma_inner_product_take_prefix(v, c, n, n - 1);
    }
}

proof fn lemma_inner_product_take_prefix(v: Seq<u128>, c: Seq<u128>, n: int, m: int)
    requires
        0 <= m <= n <= c.len(),
    ensures
        inner_product(v, c.take(n), m) == inner_product(v, c, m),
    decreases m,
{
    if m > 0 {
        lemma_inner_product_take_prefix(v, c, n, m - 1);
    }
}

} // verus!
