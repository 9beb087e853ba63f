//! The commit, prove and verify steps of the tensor-product commitment
//! scheme, over its collaborators: a linear code, a column hasher and a
//! vector commitment scheme. Randomness comes in as values: the caller
//! samples the mixing challenges and the column indices from its challenger.
use crate::binary_field::BinaryField128b;
use crate::multilinear::{
    fix_high, inner_product, lemma_pow_two_add, ml_eval, partial_high, pow_two, tensor_expansion,
    values_of,
};
use crate::tensor_pcs::{
    check_batch_size, check_column, column_error, column_size_ok, lemma_shift_is_pow_two, mix_at,
    mix_t_primes, mixing_coefficients, openings_error, shape_error, verify_evaluation_claim, Error,
    Proof, TensorPCS, VerificationError,
};
use vstd::prelude::*;

verus! {

/// A linear code, supplied by the user of the scheme.
pub trait LinearCode {
    /// Whether the code accepts `msg`.
    spec fn encodes(&self, msg: Seq<u128>) -> bool;

    /// The codeword of `msg`.
    spec fn encoded(&self, msg: Seq<u128>) -> Seq<u128>;

    /// Encodes one message.
    fn encode(&self, msg: &Vec<u128>) -> (r: Result<Vec<u128>, ()>)
        ensures
            r is Ok <==> self.encodes(msg@),
            r matches Ok(e) ==> e@ == self.encoded(msg@),
    ;
}

/// Hashes a column of packed intermediate elements to a digest.
pub trait ColumnHasher<D> {
    /// The digest of `column`.
    spec fn hashed(&self, column: Seq<u128>) -> D;

    fn hash(&self, column: &Vec<u128>) -> (r: D)
        ensures
            r == self.hashed(column@),
    ;
}

/// A vector commitment scheme over digests `D`, committing a batch of
/// digest vectors and opening one index of all of them at once.
pub trait VectorCommitScheme<D> {
    type Commitment;

    type Committed;

    type Proof;

    /// Whether the scheme commits the batch `digests`.
    spec fn commits(&self, digests: Seq<Seq<D>>) -> bool;

    /// Whether the scheme opens `index` of a committed batch.
    spec fn opens(&self, committed: Self::Committed, index: usize) -> bool;

    /// Whether `proof` shows that `leaves` sit at `index` of the batch
    /// committed to by `commitment`.
    spec fn opening_valid(
        &self,
        commitment: Self::Commitment,
        index: usize,
        proof: Self::Proof,
        leaves: Seq<D>,
    ) -> bool;

    fn commit_batch(&self, digests: &Vec<Vec<D>>) -> (r: Result<(Self::Commitment, Self::Committed), ()>)
        ensures
            r is Ok <==> self.commits(digests@.map_values(|v: Vec<D>| v@)),
    ;

    fn prove_batch_opening(&self, committed: &Self::Committed, index: usize) -> (r: Result<Self::Proof, ()>)
        ensures
            r is Ok <==> self.opens(*committed, index),
    ;

    fn verify_batch_opening(
        &self,
        commitment: &Self::Commitment,
        index: usize,
        proof: &Self::Proof,
        leaves: &Vec<D>,
    ) -> (r: Result<(), ()>)
        ensures
            r is Ok <==> self.opening_valid(*commitment, index, *proof, leaves@),
    ;
}

/// Relies on transpose's `transpose`: `input` holds `height` rows of `width`
/// values; `output` receives its transpose, `output[c * height + r] ==
/// input[r * width + c]`. It panics unless both lengths are `width * height`.
#[verifier::external_body]
fn transpose_into(input: &Vec<u128>, output: &mut Vec<u128>, width: usize, height: usize)
    requires
        input@.len() == width * height,
        old(output)@.len() == width * height,
    ensures
        final(output)@.len() == width * height,
        forall|r: int, c: int|
            0 <= r < height && 0 <= c < width ==> #[trigger] final(output)@[c * height + r]
                == input@[r * width + c],
{
    transpose::transpose(input.as_slice(), output.as_mut_slice(), width, height)
}

proof fn lemma_row_index(y: int, n: int, c: int)
    requires
        0 <= y,
        0 <= c < n,
    ensures
        0 <= y * n + c < (y + 1) * n,
        (y + 1) * n == y * n + n,
{
    assert(0 <= y * n) by (nonlinear_arith)
        requires
            0 <= y,
            0 <= n,
    ;
    assert((y + 1) * n == y * n + n) by (nonlinear_arith);
}

proof fn lemma_rows_bound(y: int, h: int, n: int)
    requires
        0 <= y < h,
        0 <= n,
    ensures
        (y + 1) * n <= h * n,
{
    assert((y + 1) * n <= h * n) by (nonlinear_arith)
        requires
            0 <= y < h,
            0 <= n,
    ;
}

/// Row `y` of a polynomial's matrix: its intermediate elements
/// `y * dim .. (y + 1) * dim`.
pub open spec fn row_message(poly: Seq<u128>, y: int, dim: int) -> Seq<u128> {
    poly.subrange(y * dim, y * dim + dim)
}

/// `v` is an intermediate-field element of `bits` bits.
pub open spec fn fits(v: u128, bits: int) -> bool {
    bits >= 128 || v >> (bits as u128) == 0
}

/// The encoded matrix of a polynomial, stored by column: `m[c][y]` is
/// symbol `c` of the codeword of row `y`.
pub open spec fn is_encoded_matrix<LC: LinearCode>(
    code: &LC,
    poly: Seq<u128>,
    m: Seq<Vec<u128>>,
    n_rows: int,
    dim: int,
    n: int,
) -> bool {
    &&& m.len() == n
    &&& forall|c: int| 0 <= c < n ==> (#[trigger] m[c])@.len() == n_rows
    &&& forall|c: int, y: int|
        0 <= c < n && 0 <= y < n_rows ==> #[trigger] m[c]@[y] == code.encoded(
            row_message(poly, y, dim),
        )[c]
}

/// Every row of the matrix of `poly` is accepted by the code and encodes to
/// `n` symbols.
pub open spec fn rows_encode<LC: LinearCode>(code: &LC, poly: Seq<u128>, n_rows: int, dim: int, n: int) -> bool {
    forall|y: int|
        0 <= y < n_rows ==> code.encodes(#[trigger] row_message(poly, y, dim)) && code.encoded(
            row_message(poly, y, dim),
        ).len() == n
}

/// Encodes each row of the matrix of `poly` (`n_rows` rows of `dim`
/// elements). Fails with `EncodeError` when the code refuses a row.
pub fn encode_rows<LC: LinearCode>(code: &LC, poly: &Vec<u128>, n_rows: usize, dim: usize) -> (r: Result<Vec<Vec<u128>>, Error>)
    requires
        poly@.len() == n_rows * dim,
    ensures
        r is Ok <==> forall|y: int| 0 <= y < n_rows ==> code.encodes(#[trigger] row_message(poly@, y, dim as int)),
        r is Err ==> r == Err::<Vec<Vec<u128>>, Error>(Error::EncodeError),
        r matches Ok(rows) ==> rows@.len() == n_rows && forall|y: int|
            0 <= y < n_rows ==> (#[trigger] rows@[y])@ == code.encoded(row_message(poly@, y, dim as int)),
{
    let plen = poly.len();
    let mut rows: Vec<Vec<u128>> = Vec::new();
    let mut y: usize = 0;
    while y < n_rows
        invariant
            poly@.len() == n_rows * dim,
            plen == poly@.len(),
            y <= n_rows,
            rows@.len() == y,
            forall|y2: int| 0 <= y2 < y ==> code.encodes(#[trigger] row_message(poly@, y2, dim as int)),
            forall|y2: int| 0 <= y2 < y ==> (#[trigger] rows@[y2])@ == code.encoded(row_message(poly@, y2, dim as int)),
        decreases n_rows - y,
    {
        proof {
            lemma_rows_bound(y as int, n_rows as int, dim as int);
            assert((y + 1) * dim == y * dim + dim) by (nonlinear_arith);
        }
        let start = y * dim;
        let mut msg: Vec<u128> = Vec::new();
        let mut x: usize = 0;
        while x < dim
            invariant
                start == y * dim,
                start + dim <= poly@.len(),
                plen == poly@.len(),
                x <= dim,
                msg@ == poly@.subrange(start as int, start + x),
            decreases dim - x,
        {
            msg.push(poly[start + x]);
            x = x + 1;
            proof {
                assert(msg@ =~= poly@.subrange(start as int, start + x));
            }
        }
        assert(msg@ == row_message(poly@, y as int, dim as int));
        match code.encode(&msg) {
            Ok(e) => {
                rows.push(e);
            },
            Err(()) => {
                assert(!code.encodes(row_message(poly@, y as int, dim as int)));
                return Err(Error::EncodeError);
            },
        }
        y = y + 1;
    }
    Ok(rows)
}

/// Lays codewords out by column: column `c` holds symbol `c` of every
/// codeword, in order. Fails with `EncodeError` unless every codeword has
/// `n` symbols.
pub fn codeword_columns(rows: &Vec<Vec<u128>>, n: usize) -> (r: Result<Vec<Vec<u128>>, Error>)
    requires
        rows@.len() * n <= usize::MAX,
    ensures
        r is Ok <==> forall|y: int| 0 <= y < rows@.len() ==> (#[trigger] rows@[y])@.len() == n,
        r is Err ==> r == Err::<Vec<Vec<u128>>, Error>(Error::EncodeError),
        r matches Ok(m) ==> {
            &&& m@.len() == n
            &&& forall|c: int| 0 <= c < n ==> (#[trigger] m@[c])@.len() == rows@.len()
            &&& forall|c: int, y: int|
                0 <= c < n && 0 <= y < rows@.len() ==> #[trigger] m@[c]@[y] == rows@[y]@[c]
        },
{
    let n_rows = rows.len();
    let mut flat: Vec<u128> = Vec::new();
    let mut y: usize = 0;
    while y < n_rows
        invariant
            n_rows == rows@.len(),
            n_rows * n <= usize::MAX,
            y <= n_rows,
            flat@.len() == y * n,
            forall|y2: int| 0 <= y2 < y ==> (#[trigger] rows@[y2])@.len() == n,
            forall|y2: int, c: int|
                0 <= y2 < y && 0 <= c < n ==> #[trigger] flat@[y2 * n + c] == rows@[y2]@[c],
        decreases n_rows - y,
    {
        let e = &rows[y];
        if e.len() != n {
            return Err(Error::EncodeError);
        }
        proof {
            lemma_rows_bound(y as int, n_rows as int, n as int);
        }
        let ghost before = flat@;
        let mut c: usize = 0;
        while c < n
            invariant
                e@.len() == n,
                e@ == rows@[y as int]@,
                y < n_rows,
                n_rows * n <= usize::MAX,
                (y + 1) * n <= n_rows * n,
                before.len() == y * n,
                flat@.len() == y * n + c,
                c <= n,
                forall|k: int| 0 <= k < y * n ==> #[trigger] flat@[k] == before[k],
                forall|k: int| 0 <= k < c ==> #[trigger] flat@[y * n + k] == e@[k],
            decreases n - c,
        {
            proof {
                assert((y + 1) * n == y * n + n) by (nonlinear_arith);
            }
            flat.push(e[c]);
            c = c + 1;
        }
        proof {
            assert forall|y2: int, c2: int|
                0 <= y2 < y + 1 && 0 <= c2 < n implies #[trigger] flat@[y2 * n + c2] == rows@[y2]@[c2] by {
                lemma_row_index(y2, n as int, c2);
                if y2 < y {
                    lemma_rows_bound(y2, y as int, n as int);
                    assert(flat@[y2 * n + c2] == before[y2 * n + c2]);
                }
            }
            assert((y + 1) * n == y * n + n) by (nonlinear_arith);
        }
        y = y + 1;
    }
    let total = n_rows * n;
    let mut cols: Vec<u128> = Vec::new();
    let mut k: usize = 0;
    while k < total
        invariant
            cols@.len() == k,
            k <= total,
        decreases total - k,
    {
        cols.push(0);
        k = k + 1;
    }
    transpose_into(&flat, &mut cols, n, n_rows);
    let mut m: Vec<Vec<u128>> = Vec::new();
    let mut c: usize = 0;
    while c < n
        invariant
            cols@.len() == n * n_rows,
            n_rows * n <= usize::MAX,
            c <= n,
            m@.len() == c,
            forall|c2: int| 0 <= c2 < c ==> (#[trigger] m@[c2])@.len() == n_rows,
            forall|c2: int, y2: int|
                0 <= c2 < c && 0 <= y2 < n_rows ==> #[trigger] m@[c2]@[y2] == cols@[c2 * n_rows + y2],
        decreases n - c,
    {
        let mut col: Vec<u128> = Vec::new();
        let mut y: usize = 0;
        proof {
            lemma_rows_bound(c as int, n as int, n_rows as int);
            assert((c + 1) * n_rows == c * n_rows + n_rows) by (nonlinear_arith);
            assert(n * n_rows == n_rows * n) by (nonlinear_arith);
        }
        while y < n_rows
            invariant
                c < n,
                cols@.len() <= usize::MAX,
                (c + 1) * n_rows <= cols@.len(),
                (c + 1) * n_rows == c * n_rows + n_rows,
                y <= n_rows,
                col@.len() == y,
                forall|y2: int| 0 <= y2 < y ==> #[trigger] col@[y2] == cols@[c * n_rows + y2],
            decreases n_rows - y,
        {
            col.push(cols[c * n_rows + y]);
            y = y + 1;
        }
        m.push(col);
        c = c + 1;
    }
    proof {
        assert forall|c2: int, y2: int|
            0 <= c2 < n && 0 <= y2 < n_rows implies #[trigger] m@[c2]@[y2] == rows@[y2]@[c2] by {
            assert(cols@[c2 * n_rows + y2] == flat@[y2 * n + c2]);
        }
    }
    Ok(m)
}

/// Encodes the rows of one polynomial and returns its matrix by column.
fn encode_matrix<LC: LinearCode>(code: &LC, poly: &Vec<u128>, n_rows: usize, dim: usize, n: usize) -> (r: Result<Vec<Vec<u128>>, Error>)
    requires
        poly@.len() == n_rows * dim,
        n_rows * n <= usize::MAX,
    ensures
        r is Ok <==> rows_encode(code, poly@, n_rows as int, dim as int, n as int),
        r matches Ok(m) ==> is_encoded_matrix(code, poly@, m@, n_rows as int, dim as int, n as int),
        r is Err ==> r == Err::<Vec<Vec<u128>>, Error>(Error::EncodeError),
{
    let rows = match encode_rows(code, poly, n_rows, dim) {
        Ok(rows) => rows,
        Err(e) => {
            return Err(e);
        },
    };
    let m = codeword_columns(&rows, n);
    proof {
        if m is Ok {
            assert forall|y: int| 0 <= y < n_rows implies code.encodes(#[trigger] row_message(poly@, y, dim as int)) && code.encoded(
                row_message(poly@, y, dim as int),
            ).len() == n by {
                assert(rows@[y]@.len() == n);
            }
        } else {
            let y = choose|y: int| 0 <= y < rows@.len() && !((#[trigger] rows@[y])@.len() == n);
            assert(!(code.encodes(row_message(poly@, y, dim as int)) && code.encoded(row_message(poly@, y, dim as int)).len() == n));
        }
    }
    m
}

/// Every polynomial has `size` elements.
pub open spec fn polys_sized(polys: Seq<Vec<u128>>, size: int) -> bool {
    forall|i: int| 0 <= i < polys.len() ==> #[trigger] polys[i]@.len() == size
}

/// Every element of every polynomial is an intermediate-field element of
/// `bits` bits.
pub open spec fn polys_fit(polys: Seq<Vec<u128>>, bits: int) -> bool {
    forall|i: int, t: int| 0 <= i < polys.len() && 0 <= t < polys[i]@.len() ==> fits(#[trigger] polys[i]@[t], bits)
}

/// The code accepts every row of every polynomial, with codewords of `n` symbols.
pub open spec fn polys_encode<LC: LinearCode>(code: &LC, polys: Seq<Vec<u128>>, n_rows: int, dim: int, n: int) -> bool {
    forall|i: int| 0 <= i < polys.len() ==> rows_encode(code, #[trigger] polys[i]@, n_rows, dim, n)
}

/// Column `c` of the encoded matrix of `poly`: symbol `c` of every row's codeword.
pub open spec fn encoded_column<LC: LinearCode>(code: &LC, poly: Seq<u128>, c: int, n_rows: int, dim: int) -> Seq<u128> {
    Seq::new(n_rows as nat, |y: int| code.encoded(row_message(poly, y, dim))[c])
}

/// The digests `commit` hands to the vector commitment scheme: for each
/// polynomial, the hash of each of its `n` encoded columns.
pub open spec fn commit_digests<LC: LinearCode, D, H: ColumnHasher<D>>(
    code: &LC,
    hasher: &H,
    polys: Seq<Vec<u128>>,
    n_rows: int,
    dim: int,
    n: int,
) -> Seq<Seq<D>> {
    Seq::new(
        polys.len(),
        |i: int| Seq::new(n as nat, |c: int| hasher.hashed(encoded_column(code, polys[i]@, c, n_rows, dim))),
    )
}

/// The hashes of the columns of a matrix, in column order.
pub fn column_digests<D, H: ColumnHasher<D>>(hasher: &H, mat: &Vec<Vec<u128>>) -> (r: Vec<D>)
    ensures
        r@ == Seq::new(mat@.len(), |c: int| hasher.hashed(mat@[c]@)),
{
    let mut digests: Vec<D> = Vec::new();
    let mut c: usize = 0;
    while c < mat.len()
        invariant
            c <= mat@.len(),
            digests@.len() == c,
            forall|c2: int| 0 <= c2 < c ==> #[trigger] digests@[c2] == hasher.hashed(mat@[c2]@),
        decreases mat@.len() - c,
    {
        digests.push(hasher.hash(&mat[c]));
        c = c + 1;
    }
    proof {
        assert(digests@ =~= Seq::new(mat@.len(), |c: int| hasher.hashed(mat@[c]@)));
    }
    digests
}

/// The opening of one column set verifies: the hashes of its columns sit at
/// `index` of the committed batch.
pub open spec fn opening_holds<D, VCS: VectorCommitScheme<D>, H: ColumnHasher<D>>(
    vcs: &VCS,
    hasher: &H,
    commitment: VCS::Commitment,
    index: usize,
    opening: (Vec<Vec<u128>>, VCS::Proof),
) -> bool {
    vcs.opening_valid(
        commitment,
        index,
        opening.1,
        Seq::new(opening.0@.len(), |i: int| hasher.hashed(opening.0@[i]@)),
    )
}

/// Every opening of a proof verifies at its index.
pub open spec fn openings_valid<D, VCS: VectorCommitScheme<D>, H: ColumnHasher<D>>(
    vcs: &VCS,
    hasher: &H,
    commitment: VCS::Commitment,
    indices: Seq<usize>,
    openings: Seq<(Vec<Vec<u128>>, VCS::Proof)>,
) -> bool {
    forall|q: int| 0 <= q < indices.len() ==> #[trigger] opening_holds(vcs, hasher, commitment, indices[q], openings[q])
}

/// The number of variables of the committed polynomials.
pub open spec fn spec_n_vars<V>(pcs: &TensorPCS<V>) -> int {
    pcs.spec_log_rows() + pcs.spec_code().dim_bits + pcs.spec_log_block_size()
}

/// The base-2 logarithm of the number of columns before encoding.
pub open spec fn spec_log_n_cols<V>(pcs: &TensorPCS<V>) -> int {
    pcs.spec_code().dim_bits + pcs.spec_log_block_size()
}

/// The first failed shape check of a proof whose columns hold one
/// intermediate element per row.
pub open spec fn proof_shape_error<V, VP>(pcs: &TensorPCS<V>, proof: &Proof<u128, VP>) -> Option<Error> {
    shape_error(
        proof,
        pcs.spec_code().n_test_queries,
        1usize << pcs.spec_log_rows(),
        1,
        1usize << (pcs.spec_code().dim_bits + pcs.spec_log_block_size()),
    )
}

/// The claim on `t'`: its value at the low coordinates of the query is the
/// mix of the claimed values.
pub open spec fn claim_holds<V, VP>(
    pcs: &TensorPCS<V>,
    query: Seq<BinaryField128b>,
    proof: &Proof<u128, VP>,
    values: Seq<BinaryField128b>,
    challenges: Seq<BinaryField128b>,
) -> bool {
    ml_eval(values_of(proof.mixed_t_prime@), values_of(query).take(spec_log_n_cols(pcs)))
        == inner_product(values_of(values), tensor_expansion(values_of(challenges)), values.len() as int)
}

/// Every column test of every opening holds against the encoding `u'` of `t'`.
pub open spec fn column_tests_hold<V, VP, LC: LinearCode>(
    pcs: &TensorPCS<V>,
    code: &LC,
    query: Seq<BinaryField128b>,
    proof: &Proof<u128, VP>,
    indices: Seq<usize>,
    challenges: Seq<BinaryField128b>,
) -> bool {
    forall|q: int, j: int|
        0 <= q < indices.len() && 0 <= j < pcs.spec_layout().intermediate_degree
            ==> #[trigger] column_test_holds::<VP>(
            u_prime_of(
                code,
                proof.mixed_t_prime@,
                pcs.spec_code().len as int,
                pcs.spec_layout().intermediate_degree as int,
                pcs.spec_code().dim as int,
            ),
            indices[q] as int,
            proof.vcs_proofs@[q].0@,
            j,
            pcs.spec_layout().intermediate_degree as int,
            pcs.spec_layout().base_bits as int,
            values_of(query).subrange(spec_log_n_cols(pcs), query.len() as int),
            tensor_expansion(values_of(challenges)).take(proof.n_polys as int),
        )
}

/// Stripe `j` of `t'`: its values at positions `x * iota + j`, `x < dim`.
pub open spec fn stripe_message(t: Seq<BinaryField128b>, j: int, iota: int, dim: int) -> Seq<u128> {
    Seq::new(dim as nat, |x: int| t[x * iota + j].value())
}

/// The code accepts every stripe of `t'`, with codewords of `n` symbols.
pub open spec fn stripes_encode<LC: LinearCode>(code: &LC, t: Seq<BinaryField128b>, iota: int, dim: int, n: int) -> bool {
    forall|j: int|
        0 <= j < iota ==> code.encodes(#[trigger] stripe_message(t, j, iota, dim)) && code.encoded(
            stripe_message(t, j, iota, dim),
        ).len() == n
}

/// Scalar `j` of `base_bits` bits of a packed intermediate value.
pub open spec fn component(v: u128, j: int, base_bits: int) -> u128 {
    if base_bits >= 128 {
        v
    } else {
        (v >> ((j * base_bits) as u128)) & !(0xffff_ffff_ffff_ffff_ffff_ffff_ffff_ffffu128 << (
        base_bits as u128))
    }
}

/// The base-field stripe `j` of an opened column.
pub open spec fn column_stripe(col: Seq<u128>, j: int, base_bits: int) -> Seq<u128> {
    Seq::new(col.len(), |y: int| component(col[y], j, base_bits))
}

/// The column test of opening `q` and block position `j`: the entry of `u'`
/// at `index * iota + j` is the mix of the stripes' values at the high half
/// of the query.
pub open spec fn column_test_holds<VP>(
    u_prime: Seq<BinaryField128b>,
    index: int,
    cols: Seq<Vec<u128>>,
    j: int,
    iota: int,
    base_bits: int,
    query_high: Seq<u128>,
    coeffs: Seq<u128>,
) -> bool {
    u_prime[index * iota + j].value() == inner_product(
        Seq::new(cols.len(), |i: int| ml_eval(column_stripe(cols[i]@, j, base_bits), query_high)),
        coeffs,
        cols.len() as int,
    )
}

/// The base-field scalars of a polynomial given by its packed intermediate
/// elements: scalar `s` is scalar `s % iota` of element `s / iota`.
pub open spec fn base_values(poly: Seq<u128>, iota: int, base_bits: int) -> Seq<u128> {
    Seq::new((poly.len() * iota) as nat, |s: int| component(poly[s / iota], s % iota, base_bits))
}

/// `t'` of one polynomial: its base-field scalars with the highest
/// variables fixed to `query_high`.
pub open spec fn t_prime_of(poly: Seq<u128>, iota: int, base_bits: int, query_high: Seq<u128>) -> Seq<u128> {
    partial_high(base_values(poly, iota, base_bits), query_high)
}

proof fn lemma_column_sizes<PI, VP>(proof: &Proof<PI, VP>, c: int, p: int, n_rows: usize, pi_width: usize)
    requires
        0 <= p,
        column_error(proof, c, p, n_rows, pi_width) is None,
    ensures
        forall|p2: int|
            p <= p2 < proof.vcs_proofs@[c].0@.len() ==> #[trigger] column_size_ok(proof, c, p2, n_rows, pi_width),
    decreases proof.vcs_proofs@[c].0@.len() - p,
{
    if p < proof.vcs_proofs@[c].0@.len() {
        lemma_column_sizes(proof, c, p + 1, n_rows, pi_width);
    }
}

proof fn lemma_openings_shape<PI, VP>(proof: &Proof<PI, VP>, c: int, n_rows: usize, pi_width: usize)
    requires
        0 <= c,
        openings_error(proof, c, n_rows, pi_width) is None,
    ensures
        forall|c2: int|
            c <= c2 < proof.vcs_proofs@.len() ==> (#[trigger] proof.vcs_proofs@[c2]).0@.len() == proof.n_polys,
        forall|c2: int, p: int|
            c <= c2 < proof.vcs_proofs@.len() && 0 <= p < proof.vcs_proofs@[c2].0@.len()
                ==> #[trigger] column_size_ok(proof, c2, p, n_rows, pi_width),
    decreases proof.vcs_proofs@.len() - c,
{
    if c < proof.vcs_proofs@.len() {
        lemma_column_sizes(proof, c, 0, n_rows, pi_width);
        lemma_openings_shape(proof, c + 1, n_rows, pi_width);
    }
}

proof fn lemma_pow_two_pos(n: nat)
    ensures
        pow_two(n) >= 1,
    decreases n,
{
    if n > 0 {
        lemma_pow_two_pos((n - 1) as nat);
    }
}

proof fn lemma_mix_at_inner(ts: Seq<Vec<BinaryField128b>>, cs: Seq<BinaryField128b>, v: int, k: int)
    requires
        0 <= k <= ts.len(),
        k <= cs.len(),
        0 <= v,
        forall|i: int| #![trigger ts[i]] 0 <= i < k ==> v < ts[i]@.len(),
    ensures
        mix_at(ts, cs, v, k) == inner_product(
            Seq::new(ts.len(), |i: int| values_of(ts[i]@)[v]),
            values_of(cs),
            k,
        ),
    decreases k,
{
    if k > 0 {
        lemma_mix_at_inner(ts, cs, v, k - 1);
    }
}

fn unpack_base(poly: &Vec<u128>, iota: usize, base_bits: usize) -> (r: Vec<BinaryField128b>)
    requires
        1 <= iota,
        1 <= base_bits,
        iota * base_bits <= 128,
        poly@.len() * iota <= usize::MAX,
    ensures
        values_of(r@) == base_values(poly@, iota as int, base_bits as int),
{
    let mut r: Vec<BinaryField128b> = Vec::new();
    let mut t: usize = 0;
    while t < poly.len()
        invariant
            1 <= iota,
            1 <= base_bits,
            iota * base_bits <= 128,
            poly@.len() * iota <= usize::MAX,
            t <= poly@.len(),
            r@.len() == t * iota,
            forall|s: int| 0 <= s < r@.len() ==> (#[trigger] r@[s]).value() == component(poly@[s / iota as int], s % iota as int, base_bits as int),
        decreases poly@.len() - t,
    {
        let mut j: usize = 0;
        while j < iota
            invariant
                1 <= iota,
                1 <= base_bits,
                iota * base_bits <= 128,
                t < poly@.len(),
                j <= iota,
                r@.len() == t * iota + j,
                forall|s: int| 0 <= s < r@.len() ==> (#[trigger] r@[s]).value() == component(poly@[s / iota as int], s % iota as int, base_bits as int),
            decreases iota - j,
        {
            proof {
                vstd::arithmetic::div_mod::lemma_fundamental_div_mod_converse(
                    t * iota + j,
                    iota as int,
                    t as int,
                    j as int,
                );
                assert((j + 1) * base_bits <= iota * base_bits) by (nonlinear_arith)
                    requires
                        j < iota,
                        1 <= base_bits,
                ;
            }
            r.push(BinaryField128b::new(component_exec(poly[t], j, base_bits)));
            j = j + 1;
        }
        proof {
            assert((t + 1) * iota == t * iota + iota) by (nonlinear_arith);
        }
        t = t + 1;
    }
    proof {
        assert(values_of(r@) =~= base_values(poly@, iota as int, base_bits as int));
    }
    r
}

/// `u'`: the extension elements whose entry `c * iota + j` is symbol `c` of
/// the codeword of stripe `j` of `t'`.
pub open spec fn u_prime_of<LC: LinearCode>(code: &LC, t: Seq<BinaryField128b>, n: int, iota: int, dim: int) -> Seq<BinaryField128b> {
    Seq::new(
        (n * iota) as nat,
        |k: int| BinaryField128b(code.encoded(stripe_message(t, k % iota, iota, dim))[k / iota]),
    )
}

fn component_exec(v: u128, j: usize, base_bits: usize) -> (r: u128)
    requires
        1 <= base_bits,
        (j + 1) * base_bits <= 128,
    ensures
        r == component(v, j as int, base_bits as int),
{
    if base_bits >= 128 {
        v
    } else {
        assert(j * base_bits < 128) by (nonlinear_arith)
            requires
                1 <= base_bits,
                (j + 1) * base_bits <= 128,
        ;
        let sh = (j * base_bits) as u128;
        (v >> sh) & !(0xffff_ffff_ffff_ffff_ffff_ffff_ffff_ffffu128 << (base_bits as u128))
    }
}

impl<V> TensorPCS<V> {
    /// Commits a batch of polynomials, each given as its `2^log_rows * dim`
    /// intermediate-field elements (row `y` is `y * dim .. (y + 1) * dim`).
    /// Each row is encoded, the matrix is kept by column, each column is
    /// hashed, and the digests of all polynomials (`commit_digests`) are
    /// committed as a batch. Returns the commitment, and the encoded matrices
    /// with the committed state.
    pub fn commit<LC: LinearCode, D, H: ColumnHasher<D>>(
        &self,
        code: &LC,
        hasher: &H,
        polys: &Vec<Vec<u128>>,
    ) -> (r: Result<(V::Commitment, (Vec<Vec<Vec<u128>>>, V::Committed)), Error>) where
        V: VectorCommitScheme<D>,

        requires
            self.wf(),
            (1usize << self.spec_log_rows()) * self.spec_code().len <= usize::MAX,
            (1usize << self.spec_log_rows()) * self.spec_code().dim <= usize::MAX,
        ensures
            !polys_sized(polys@, (1usize << self.spec_log_rows()) * self.spec_code().dim) ==> r
                == Err::<(V::Commitment, (Vec<Vec<Vec<u128>>>, V::Committed)), Error>(
                Error::IncorrectPolynomialSize {
                    expected: (self.spec_log_rows() + self.spec_code().dim_bits
                        + self.spec_log_block_size()) as usize,
                },
            ),
            (polys_sized(polys@, (1usize << self.spec_log_rows()) * self.spec_code().dim)
                && !polys_fit(
                polys@,
                self.spec_layout().intermediate_degree * self.spec_layout().base_bits,
            )) ==> (r == Err::<(V::Commitment, (Vec<Vec<Vec<u128>>>, V::Committed)), Error>(
                Error::UnalignedMessage,
            ) || r == Err::<(V::Commitment, (Vec<Vec<Vec<u128>>>, V::Committed)), Error>(
                Error::EncodeError,
            )),
            (polys_sized(polys@, (1usize << self.spec_log_rows()) * self.spec_code().dim)
                && polys_fit(
                polys@,
                self.spec_layout().intermediate_degree * self.spec_layout().base_bits,
            ) && !polys_encode(
                code,
                polys@,
                (1usize << self.spec_log_rows()) as int,
                self.spec_code().dim as int,
                self.spec_code().len as int,
            )) ==> r == Err::<(V::Commitment, (Vec<Vec<Vec<u128>>>, V::Committed)), Error>(
                Error::EncodeError,
            ),
            (polys_sized(polys@, (1usize << self.spec_log_rows()) * self.spec_code().dim)
                && polys_fit(
                polys@,
                self.spec_layout().intermediate_degree * self.spec_layout().base_bits,
            ) && polys_encode(
                code,
                polys@,
                (1usize << self.spec_log_rows()) as int,
                self.spec_code().dim as int,
                self.spec_code().len as int,
            )) ==> {
                &&& r is Ok <==> self.spec_vcs().commits(
                    commit_digests(
                        code,
                        hasher,
                        polys@,
                        (1usize << self.spec_log_rows()) as int,
                        self.spec_code().dim as int,
                        self.spec_code().len as int,
                    ),
                )
                &&& r is Err ==> r == Err::<
                    (V::Commitment, (Vec<Vec<Vec<u128>>>, V::Committed)),
                    Error,
                >(Error::VectorCommit)
            },
            r == Err::<(V::Commitment, (Vec<Vec<Vec<u128>>>, V::Committed)), Error>(
                Error::UnalignedMessage,
            ) ==> !polys_fit(
                polys@,
                self.spec_layout().intermediate_degree * self.spec_layout().base_bits,
            ),
            r matches Ok((_, (mats, _))) ==> {
                &&& mats@.len() == polys@.len()
                &&& forall|i: int|
                    0 <= i < polys@.len() ==> is_encoded_matrix(
                        code,
                        polys@[i]@,
                        (#[trigger] mats@[i])@,
                        (1usize << self.spec_log_rows()) as int,
                        self.spec_code().dim as int,
                        self.spec_code().len as int,
                    )
            },
    {
        proof {
            self.lemma_wf();
        }
        let n_rows: usize = 1usize << self.log_rows();
        let params = self.code_params();
        let layout = self.layout();
        let dim = params.dim;
        let n = params.len;
        let bits: usize = layout.intermediate_degree * layout.base_bits;
        let m = polys.len();
        let mut i: usize = 0;
        while i < m
            invariant
                m == polys@.len(),
                i <= m,
                self.wf(),
                n_rows == (1usize << self.spec_log_rows()),
                dim == self.spec_code().dim,
                n_rows * dim <= usize::MAX,
                forall|j: int| 0 <= j < i ==> #[trigger] polys@[j]@.len() == n_rows * dim,
            decreases m - i,
        {
            if polys[i].len() != n_rows * dim {
                proof {
                    self.lemma_wf();
                }
                return Err(Error::IncorrectPolynomialSize { expected: self.n_vars() });
            }
            i = i + 1;
        }
        let ghost digests_spec = commit_digests(code, hasher, polys@, n_rows as int, dim as int, n as int);
        let mut mats: Vec<Vec<Vec<u128>>> = Vec::new();
        let mut all_digests: Vec<Vec<D>> = Vec::new();
        let mut i: usize = 0;
        while i < m
            invariant
                m == polys@.len(),
                i <= m,
                n_rows * n <= usize::MAX,
                n_rows == (1usize << self.spec_log_rows()),
                dim == self.spec_code().dim,
                n == self.spec_code().len,
                bits == self.spec_layout().intermediate_degree * self.spec_layout().base_bits,
                digests_spec == commit_digests(code, hasher, polys@, n_rows as int, dim as int, n as int),
                forall|j: int| 0 <= j < m ==> #[trigger] polys@[j]@.len() == n_rows * dim,
                forall|j: int, t: int|
                    0 <= j < i && 0 <= t < polys@[j]@.len() ==> fits(#[trigger] polys@[j]@[t], bits as int),
                forall|j: int|
                    0 <= j < i ==> rows_encode(code, #[trigger] polys@[j]@, n_rows as int, dim as int, n as int),
                mats@.len() == i,
                all_digests@.len() == i,
                forall|j: int|
                    0 <= j < i ==> is_encoded_matrix(
                        code,
                        polys@[j]@,
                        (#[trigger] mats@[j])@,
                        n_rows as int,
                        dim as int,
                        n as int,
                    ),
                forall|j: int| 0 <= j < i ==> (#[trigger] all_digests@[j])@ == digests_spec[j],
            decreases m - i,
        {
            let poly = &polys[i];
            let mut t: usize = 0;
            while t < poly.len()
                invariant
                    t <= poly@.len(),
                    i < m,
                    m == polys@.len(),
                    n_rows == (1usize << self.spec_log_rows()),
                    dim == self.spec_code().dim,
                    forall|j: int| 0 <= j < m ==> #[trigger] polys@[j]@.len() == n_rows * dim,
                    poly@ == polys@[i as int]@,
                    bits == self.spec_layout().intermediate_degree * self.spec_layout().base_bits,
                    forall|t2: int| 0 <= t2 < t ==> fits(#[trigger] poly@[t2], bits as int),
                decreases poly@.len() - t,
            {
                if bits < 128 && (poly[t] >> (bits as u128)) != 0 {
                    assert(!fits(polys@[i as int]@[t as int], bits as int));
                    return Err(Error::UnalignedMessage);
                }
                t = t + 1;
            }
            let mat = match encode_matrix(code, poly, n_rows, dim, n) {
                Ok(mat) => mat,
                Err(e) => {
                    return Err(e);
                },
            };
            let digests = column_digests(hasher, &mat);
            proof {
                assert forall|c: int| 0 <= c < n implies (#[trigger] mat@[c])@ == encoded_column(code, poly@, c, n_rows as int, dim as int) by {
                    assert(mat@[c]@ =~= encoded_column(code, poly@, c, n_rows as int, dim as int));
                }
                assert(digests@ =~= digests_spec[i as int]);
            }
            all_digests.push(digests);
            mats.push(mat);
            i = i + 1;
        }
        proof {
            assert(all_digests@.map_values(|v: Vec<D>| v@) =~= digests_spec);
        }
        match self.vcs().commit_batch(&all_digests) {
            Ok((commitment, committed)) => Ok((commitment, (mats, committed))),
            Err(()) => Err(Error::VectorCommit),
        }
    }

    /// Opens the columns at `indices` of every committed matrix: for each
    /// index, the column of every polynomial, in polynomial order, with the
    /// vector commitment's opening proof.
    pub fn open_columns<D>(
        &self,
        mats: &Vec<Vec<Vec<u128>>>,
        committed: &V::Committed,
        indices: &Vec<usize>,
    ) -> (r: Result<Vec<(Vec<Vec<u128>>, V::Proof)>, Error>) where V: VectorCommitScheme<D>,

        requires
            forall|i: int, q: int|
                0 <= i < mats@.len() && 0 <= q < indices@.len() ==> #[trigger] indices@[q] < (
                #[trigger] mats@[i])@.len(),
        ensures
            r is Ok <==> forall|q: int|
                0 <= q < indices@.len() ==> self.spec_vcs().opens(*committed, #[trigger] indices@[q]),
            r is Err ==> r matches Err(Error::VectorCommit),
            r matches Ok(o) ==> {
                &&& o@.len() == indices@.len()
                &&& forall|q: int| 0 <= q < indices@.len() ==> (#[trigger] o@[q]).0@.len() == mats@.len()
                &&& forall|q: int, i: int|
                    0 <= q < indices@.len() && 0 <= i < mats@.len() ==> #[trigger] o@[q].0@[i]@
                        == mats@[i]@[indices@[q] as int]@
            },
    {
        let mut out: Vec<(Vec<Vec<u128>>, V::Proof)> = Vec::new();
        let mut q: usize = 0;
        while q < indices.len()
            invariant
                q <= indices@.len(),
                out@.len() == q,
                forall|i: int, q2: int|
                    0 <= i < mats@.len() && 0 <= q2 < indices@.len() ==> #[trigger] indices@[q2] < (
                    #[trigger] mats@[i])@.len(),
                forall|q2: int| 0 <= q2 < q ==> (#[trigger] out@[q2]).0@.len() == mats@.len(),
                forall|q2: int| 0 <= q2 < q ==> self.spec_vcs().opens(*committed, #[trigger] indices@[q2]),
                forall|q2: int, i: int|
                    0 <= q2 < q && 0 <= i < mats@.len() ==> #[trigger] out@[q2].0@[i]@
                        == mats@[i]@[indices@[q2] as int]@,
            decreases indices@.len() - q,
        {
            let index = indices[q];
            let proof = match self.vcs().prove_batch_opening(committed, index) {
                Ok(p) => p,
                Err(()) => {
                    assert(!self.spec_vcs().opens(*committed, indices@[q as int]));
                    return Err(Error::VectorCommit);
                },
            };
            let mut cols: Vec<Vec<u128>> = Vec::new();
            let mut i: usize = 0;
            while i < mats.len()
                invariant
                    i <= mats@.len(),
                    q < indices@.len(),
                    index == indices@[q as int],
                    forall|i2: int| 0 <= i2 < mats@.len() ==> index < (#[trigger] mats@[i2])@.len(),
                    cols@.len() == i,
                    forall|i2: int| 0 <= i2 < i ==> (#[trigger] cols@[i2])@ == mats@[i2]@[index as int]@,
                decreases mats@.len() - i,
            {
                assert(index < mats@[i as int]@.len());
                let col = mats[i][index].clone();
                cols.push(col);
                i = i + 1;
            }
            out.push((cols, proof));
            q = q + 1;
        }
        Ok(out)
    }

    /// Encodes the mixed `t'` (`dim * iota` extension elements) into `u'`
    /// (`n * iota` elements): stripe `j` of `t'` is encoded, and symbol `c`
    /// of its codeword lands at `c * iota + j`.
    pub fn encode_ext<LC: LinearCode>(&self, code: &LC, t_prime: &Vec<BinaryField128b>) -> (r: Result<
        Vec<BinaryField128b>,
        Error,
    >)
        requires
            self.wf(),
            t_prime@.len() == self.spec_code().dim * self.spec_layout().intermediate_degree,
            self.spec_layout().intermediate_degree * self.spec_code().len <= usize::MAX,
        ensures
            r is Ok <==> stripes_encode(
                code,
                t_prime@,
                self.spec_layout().intermediate_degree as int,
                self.spec_code().dim as int,
                self.spec_code().len as int,
            ),
            r is Err ==> r == Err::<Vec<BinaryField128b>, Error>(Error::EncodeError),
            r matches Ok(u) ==> {
                &&& u@.len() == self.spec_code().len * self.spec_layout().intermediate_degree
                &&& forall|c: int, j: int|
                    0 <= c < self.spec_code().len && 0 <= j
                        < self.spec_layout().intermediate_degree ==> #[trigger] u@[c
                        * self.spec_layout().intermediate_degree + j].value() == code.encoded(
                        stripe_message(
                            t_prime@,
                            j,
                            self.spec_layout().intermediate_degree as int,
                            self.spec_code().dim as int,
                        ),
                    )[c]
            },
    {
        proof {
            self.lemma_wf();
        }
        let iota = self.layout().intermediate_degree;
        let params = self.code_params();
        let dim = params.dim;
        let n = params.len;
        let tlen = t_prime.len();
        let mut stripes: Vec<u128> = Vec::new();
        let mut j: usize = 0;
        while j < iota
            invariant
                t_prime@.len() == dim * iota,
                tlen == t_prime@.len(),
                j <= iota,
                stripes@.len() == j * dim,
                forall|j2: int, x: int|
                    0 <= j2 < j && 0 <= x < dim ==> #[trigger] stripes@[j2 * dim + x]
                        == t_prime@[x * iota + j2].value(),
            decreases iota - j,
        {
            let ghost before = stripes@;
            let mut x: usize = 0;
            while x < dim
                invariant
                    t_prime@.len() == dim * iota,
                    tlen == t_prime@.len(),
                    j < iota,
                    x <= dim,
                    before.len() == j * dim,
                    stripes@.len() == j * dim + x,
                    forall|k: int| 0 <= k < j * dim ==> #[trigger] stripes@[k] == before[k],
                    forall|k: int| 0 <= k < x ==> #[trigger] stripes@[j * dim + k] == t_prime@[k * iota + j].value(),
                decreases dim - x,
            {
                proof {
                    lemma_row_index(x as int, iota as int, j as int);
                    lemma_rows_bound(x as int, dim as int, iota as int);
                    assert(dim * iota == iota * dim) by (nonlinear_arith);
                }
                stripes.push(t_prime[x * iota + j].val());
                x = x + 1;
            }
            proof {
                assert forall|j2: int, x2: int|
                    0 <= j2 < j + 1 && 0 <= x2 < dim implies #[trigger] stripes@[j2 * dim + x2]
                    == t_prime@[x2 * iota + j2].value() by {
                    lemma_row_index(j2, dim as int, x2);
                    if j2 < j {
                        lemma_rows_bound(j2, j as int, dim as int);
                        assert(stripes@[j2 * dim + x2] == before[j2 * dim + x2]);
                    }
                }
                assert((j + 1) * dim == j * dim + dim) by (nonlinear_arith);
            }
            j = j + 1;
        }
        proof {
            assert(iota * dim == dim * iota) by (nonlinear_arith);
            assert forall|j2: int| 0 <= j2 < iota implies row_message(stripes@, j2, dim as int) == stripe_message(t_prime@, j2, iota as int, dim as int) by {
                lemma_rows_bound(j2, iota as int, dim as int);
                assert((j2 + 1) * dim == j2 * dim + dim) by (nonlinear_arith);
                assert forall|x: int| 0 <= x < dim implies #[trigger] row_message(stripes@, j2, dim as int)[x] == stripe_message(t_prime@, j2, iota as int, dim as int)[x] by {
                    lemma_row_index(j2, dim as int, x);
                    assert(stripes@[j2 * dim + x] == t_prime@[x * iota + j2].value());
                }
                assert(row_message(stripes@, j2, dim as int) =~= stripe_message(t_prime@, j2, iota as int, dim as int));
            }
        }
        let m = match encode_matrix(code, &stripes, iota, dim, n) {
            Ok(m) => m,
            Err(e) => {
                proof {
                    let y = choose|y: int| 0 <= y < iota && !(code.encodes(#[trigger] row_message(stripes@, y, dim as int)) && code.encoded(row_message(stripes@, y, dim as int)).len() == n);
                    assert(row_message(stripes@, y, dim as int) == stripe_message(t_prime@, y, iota as int, dim as int));
                }
                return Err(e);
            },
        };
        let mut u: Vec<BinaryField128b> = Vec::new();
        let mut c: usize = 0;
        while c < n
            invariant
                m@.len() == n,
                forall|c2: int| 0 <= c2 < n ==> (#[trigger] m@[c2])@.len() == iota,
                is_encoded_matrix(code, stripes@, m@, iota as int, dim as int, n as int),
                rows_encode(code, stripes@, iota as int, dim as int, n as int),
                forall|j2: int| 0 <= j2 < iota ==> #[trigger] row_message(stripes@, j2, dim as int) == stripe_message(t_prime@, j2, iota as int, dim as int),
                iota * n <= usize::MAX,
                c <= n,
                u@.len() == c * iota,
                forall|c2: int, j2: int|
                    0 <= c2 < c && 0 <= j2 < iota ==> #[trigger] u@[c2 * iota + j2].value() == code.encoded(
                        stripe_message(t_prime@, j2, iota as int, dim as int),
                    )[c2],
            decreases n - c,
        {
            let ghost before = u@;
            let mut j: usize = 0;
            while j < iota
                invariant
                    c < n,
                    m@.len() == n,
                    (m@[c as int])@.len() == iota,
                    before.len() == c * iota,
                    u@.len() == c * iota + j,
                    j <= iota,
                    forall|k: int| 0 <= k < c * iota ==> #[trigger] u@[k] == before[k],
                    forall|k: int| 0 <= k < j ==> #[trigger] u@[c * iota + k].value() == m@[c as int]@[k],
                decreases iota - j,
            {
                u.push(BinaryField128b::new(m[c][j]));
                j = j + 1;
            }
            proof {
                assert forall|c2: int, j2: int|
                    0 <= c2 < c + 1 && 0 <= j2 < iota implies #[trigger] u@[c2 * iota + j2].value() == code.encoded(
                    stripe_message(t_prime@, j2, iota as int, dim as int),
                )[c2] by {
                    lemma_row_index(c2, iota as int, j2);
                    if c2 < c {
                        lemma_rows_bound(c2, c as int, iota as int);
                        assert(u@[c2 * iota + j2] == before[c2 * iota + j2]);
                    }
                }
                assert((c + 1) * iota == c * iota + iota) by (nonlinear_arith);
            }
            c = c + 1;
        }
        proof {
            assert(n * iota == iota * n) by (nonlinear_arith);
            assert forall|j2: int| 0 <= j2 < iota implies code.encodes(#[trigger] stripe_message(t_prime@, j2, iota as int, dim as int)) && code.encoded(
                stripe_message(t_prime@, j2, iota as int, dim as int),
            ).len() == n by {
                assert(row_message(stripes@, j2, dim as int) == stripe_message(t_prime@, j2, iota as int, dim as int));
            }
        }
        Ok(u)
    }

    /// The column tests of the verifier: for every opening `q` at
    /// `indices[q]` and every block position `j`, the entry of `u'` at
    /// `indices[q] * iota + j` must be the mix of the base-field stripes `j`
    /// of the opened columns, evaluated at the high half of the query. Fails
    /// with `IncorrectPartialEvaluation` at the first test that does not hold.
    pub fn verify_columns<VP>(
        &self,
        u_prime: &Vec<BinaryField128b>,
        indices: &Vec<usize>,
        proof: &Proof<u128, VP>,
        query_high: &Vec<BinaryField128b>,
        mixing_coeffs: &Vec<BinaryField128b>,
    ) -> (r: Result<(), Error>)
        requires
            self.wf(),
            u_prime@.len() == self.spec_code().len * self.spec_layout().intermediate_degree,
            proof.vcs_proofs@.len() == indices@.len(),
            forall|q: int| 0 <= q < indices@.len() ==> #[trigger] indices@[q] < self.spec_code().len,
            forall|q: int|
                0 <= q < indices@.len() ==> (#[trigger] proof.vcs_proofs@[q]).0@.len()
                    == mixing_coeffs@.len(),
            forall|q: int, i: int|
                0 <= q < indices@.len() && 0 <= i < proof.vcs_proofs@[q].0@.len() ==> (
                #[trigger] proof.vcs_proofs@[q].0@[i])@.len() == pow_two(query_high@.len() as nat),
        ensures
            r is Ok <==> forall|q: int, j: int|
                0 <= q < indices@.len() && 0 <= j < self.spec_layout().intermediate_degree
                    ==> #[trigger] column_test_holds::<VP>(
                    u_prime@,
                    indices@[q] as int,
                    proof.vcs_proofs@[q].0@,
                    j,
                    self.spec_layout().intermediate_degree as int,
                    self.spec_layout().base_bits as int,
                    values_of(query_high@),
                    values_of(mixing_coeffs@),
                ),
            r is Err ==> r == Err::<(), Error>(
                Error::Verification(VerificationError::IncorrectPartialEvaluation),
            ),
    {
        proof {
            self.lemma_wf();
        }
        let iota = self.layout().intermediate_degree;
        let bb = self.layout().base_bits;
        let n = self.code_params().len;
        let ulen = u_prime.len();
        let ghost qh = values_of(query_high@);
        let ghost cs = values_of(mixing_coeffs@);
        let mut q: usize = 0;
        while q < indices.len()
            invariant
                q <= indices@.len(),
                qh == values_of(query_high@),
                cs == values_of(mixing_coeffs@),
                iota == self.spec_layout().intermediate_degree,
                bb == self.spec_layout().base_bits,
                n == self.spec_code().len,
                ulen == u_prime@.len(),
                u_prime@.len() == n * iota,
                iota * bb <= 128,
                1 <= bb,
                proof.vcs_proofs@.len() == indices@.len(),
                forall|q2: int| 0 <= q2 < indices@.len() ==> #[trigger] indices@[q2] < n,
                forall|q2: int|
                    0 <= q2 < indices@.len() ==> (#[trigger] proof.vcs_proofs@[q2]).0@.len()
                        == mixing_coeffs@.len(),
                forall|q2: int, i: int|
                    0 <= q2 < indices@.len() && 0 <= i < proof.vcs_proofs@[q2].0@.len() ==> (
                    #[trigger] proof.vcs_proofs@[q2].0@[i])@.len() == pow_two(query_high@.len() as nat),
                forall|q2: int, j: int|
                    0 <= q2 < q && 0 <= j < iota ==> #[trigger] column_test_holds::<VP>(
                        u_prime@,
                        indices@[q2] as int,
                        proof.vcs_proofs@[q2].0@,
                        j,
                        iota as int,
                        bb as int,
                        qh,
                        cs,
                    ),
            decreases indices@.len() - q,
        {
            let index = indices[q];
            let cols = &proof.vcs_proofs[q].0;
            let mut j: usize = 0;
            while j < iota
                invariant
                    q < indices@.len(),
                    qh == values_of(query_high@),
                    cs == values_of(mixing_coeffs@),
                    iota == self.spec_layout().intermediate_degree,
                    bb == self.spec_layout().base_bits,
                    index == indices@[q as int],
                    index < n,
                    cols@ == proof.vcs_proofs@[q as int].0@,
                    cols@.len() == mixing_coeffs@.len(),
                    forall|i: int| 0 <= i < cols@.len() ==> (#[trigger] cols@[i])@.len() == pow_two(query_high@.len() as nat),
                    ulen == u_prime@.len(),
                    u_prime@.len() == n * iota,
                    iota * bb <= 128,
                    1 <= bb,
                    j <= iota,
                    forall|j2: int| 0 <= j2 < j ==> #[trigger] column_test_holds::<VP>(
                        u_prime@,
                        index as int,
                        cols@,
                        j2,
                        iota as int,
                        bb as int,
                        qh,
                        cs,
                    ),
                decreases iota - j,
            {
                let mut stripes: Vec<Vec<BinaryField128b>> = Vec::new();
                let mut i: usize = 0;
                while i < cols.len()
                    invariant
                        i <= cols@.len(),
                        j < iota,
                        iota * bb <= 128,
                        1 <= bb,
                        stripes@.len() == i,
                        forall|i2: int| 0 <= i2 < cols@.len() ==> (#[trigger] cols@[i2])@.len() == pow_two(query_high@.len() as nat),
                        forall|i2: int| 0 <= i2 < i ==> values_of((#[trigger] stripes@[i2])@) == column_stripe(cols@[i2]@, j as int, bb as int),
                    decreases cols@.len() - i,
                {
                    let col = &cols[i];
                    let mut stripe: Vec<BinaryField128b> = Vec::new();
                    let mut y: usize = 0;
                    proof {
                        assert((j + 1) * bb <= iota * bb) by (nonlinear_arith)
                            requires
                                j < iota,
                                1 <= bb,
                        ;
                    }
                    while y < col.len()
                        invariant
                            y <= col@.len(),
                            (j + 1) * bb <= 128,
                            1 <= bb,
                            stripe@.len() == y,
                            forall|y2: int| 0 <= y2 < y ==> (#[trigger] stripe@[y2]).value() == component(col@[y2], j as int, bb as int),
                        decreases col@.len() - y,
                    {
                        stripe.push(BinaryField128b::new(component_exec(col[y], j, bb)));
                        y = y + 1;
                    }
                    proof {
                        assert(values_of(stripe@) =~= column_stripe(col@, j as int, bb as int));
                    }
                    stripes.push(stripe);
                    i = i + 1;
                }
                proof {
                    lemma_row_index(index as int, iota as int, j as int);
                    lemma_rows_bound(index as int, n as int, iota as int);
                    assert(n * iota == iota * n) by (nonlinear_arith);
                }
                let expected = u_prime[index * iota + j];
                let res = check_column(expected, &stripes, query_high, mixing_coeffs);
                proof {
                    assert(Seq::new(stripes@.len(), |i: int| ml_eval(values_of(stripes@[i]@), qh)) =~= Seq::new(
                        cols@.len(),
                        |i: int| ml_eval(column_stripe(cols@[i]@, j as int, bb as int), qh),
                    ));
                }
                if res.is_err() {
                    assert(expected == u_prime@[index * iota + j]);
                    assert(!column_test_holds::<VP>(u_prime@, index as int, cols@, j as int, iota as int, bb as int, qh, cs));
                    return Err(Error::Verification(VerificationError::IncorrectPartialEvaluation));
                }
                j = j + 1;
            }
            q = q + 1;
        }
        Ok(())
    }

    /// Checks the vector-commitment opening of every opened column set: the
    /// columns are hashed to leaf digests and the opening is verified at its
    /// index. Fails with `VectorCommit` when an opening does not verify.
    pub fn verify_openings<D, H: ColumnHasher<D>>(
        &self,
        hasher: &H,
        commitment: &V::Commitment,
        indices: &Vec<usize>,
        proof: &Proof<u128, V::Proof>,
    ) -> (r: Result<(), Error>) where V: VectorCommitScheme<D>,

        requires
            proof.vcs_proofs@.len() == indices@.len(),
        ensures
            r is Ok <==> openings_valid(self.spec_vcs(), hasher, *commitment, indices@, proof.vcs_proofs@),
            r is Err ==> r == Err::<(), Error>(Error::VectorCommit),
    {
        let mut q: usize = 0;
        while q < indices.len()
            invariant
                q <= indices@.len(),
                proof.vcs_proofs@.len() == indices@.len(),
                forall|q2: int|
                    0 <= q2 < q ==> #[trigger] opening_holds(
                        self.spec_vcs(),
                        hasher,
                        *commitment,
                        indices@[q2],
                        proof.vcs_proofs@[q2],
                    ),
            decreases indices@.len() - q,
        {
            let leaves = column_digests(hasher, &proof.vcs_proofs[q].0);
            match self.vcs().verify_batch_opening(commitment, indices[q], &proof.vcs_proofs[q].1, &leaves) {
                Ok(()) => {},
                Err(()) => {
                    assert(!opening_holds(self.spec_vcs(), hasher, *commitment, indices@[q as int], proof.vcs_proofs@[q as int]));
                    return Err(Error::VectorCommit);
                },
            }
            q = q + 1;
        }
        Ok(())
    }

    /// The prover's mixed `t'`: every polynomial (given by its packed
    /// intermediate elements) is unpacked to base-field scalars, its highest
    /// `log_rows` variables are fixed to the high part of the query, and the
    /// results are mixed by the tensor expansion of the mixing challenges.
    /// Fails when the batch is not the committed one (`n_committed`), when the
    /// query does not have `n_vars` coordinates, or when a polynomial has the
    /// wrong size.
    pub fn prove_mixed_t_prime(
        &self,
        polys: &Vec<Vec<u128>>,
        n_committed: usize,
        query: &Vec<BinaryField128b>,
        mixing_challenges: &Vec<BinaryField128b>,
    ) -> (r: Result<Vec<BinaryField128b>, Error>)
        requires
            self.wf(),
            mixing_challenges@.len() < 64,
            polys@.len() <= pow_two(mixing_challenges@.len() as nat),
            self.spec_code().dim_bits + self.spec_log_block_size() < usize::BITS,
            (1usize << self.spec_log_rows()) * self.spec_code().dim * self.spec_layout().intermediate_degree
                <= usize::MAX,
        ensures
            n_committed != polys@.len() ==> r == Err::<Vec<BinaryField128b>, Error>(Error::NumBatchedMismatchError),
            (n_committed == polys@.len() && query@.len() != self.spec_log_rows() + self.spec_code().dim_bits
                + self.spec_log_block_size()) ==> r == Err::<Vec<BinaryField128b>, Error>(
                Error::IncorrectQuerySize {
                    expected: (self.spec_log_rows() + self.spec_code().dim_bits
                        + self.spec_log_block_size()) as usize,
                },
            ),
            (n_committed == polys@.len() && query@.len() == self.spec_log_rows() + self.spec_code().dim_bits
                + self.spec_log_block_size() && exists|i: int|
                0 <= i < polys@.len() && #[trigger] polys@[i]@.len() != (1usize << self.spec_log_rows())
                    * self.spec_code().dim) ==> r == Err::<Vec<BinaryField128b>, Error>(
                Error::IncorrectPolynomialSize {
                    expected: (self.spec_log_rows() + self.spec_code().dim_bits
                        + self.spec_log_block_size()) as usize,
                },
            ),
            r is Ok <==> (n_committed == polys@.len() && query@.len() == self.spec_log_rows()
                + self.spec_code().dim_bits + self.spec_log_block_size() && forall|i: int|
                0 <= i < polys@.len() ==> #[trigger] polys@[i]@.len() == (1usize << self.spec_log_rows())
                    * self.spec_code().dim),
            r matches Ok(t) ==> {
                &&& t@.len() == self.spec_code().dim * self.spec_layout().intermediate_degree
                &&& forall|v: int|
                    0 <= v < t@.len() ==> #[trigger] t@[v].value() == inner_product(
                        Seq::new(
                            polys@.len(),
                            |i: int|
                                t_prime_of(
                                    polys@[i]@,
                                    self.spec_layout().intermediate_degree as int,
                                    self.spec_layout().base_bits as int,
                                    values_of(query@).subrange(
                                        (self.spec_code().dim_bits + self.spec_log_block_size()) as int,
                                        query@.len() as int,
                                    ),
                                )[v],
                        ),
                        tensor_expansion(values_of(mixing_challenges@)).take(polys@.len() as int),
                        polys@.len() as int,
                    )
            },
    {
        proof {
            self.lemma_wf();
        }
        let m = polys.len();
        if n_committed != m {
            return Err(Error::NumBatchedMismatchError);
        }
        let log_rows = self.log_rows();
        let params = self.code_params();
        let layout = self.layout();
        let lbs = self.log_block_size();
        let log_n_cols = params.dim_bits + lbs;
        let n_vars = log_rows + log_n_cols;
        if query.len() != n_vars {
            return Err(Error::IncorrectQuerySize { expected: n_vars });
        }
        let n_rows: usize = 1usize << log_rows;
        let dim = params.dim;
        let iota = layout.intermediate_degree;
        let bb = layout.base_bits;
        proof {
            lemma_shift_is_pow_two(log_rows);
            lemma_shift_is_pow_two(params.dim_bits);
            lemma_shift_is_pow_two(lbs);
            lemma_shift_is_pow_two(log_n_cols);
            lemma_pow_two_add(params.dim_bits as nat, lbs as nat);
            lemma_pow_two_add(log_rows as nat, log_n_cols as nat);
            lemma_pow_two_pos(lbs as nat);
            assert(n_rows * dim * iota == n_rows * (dim * iota)) by (nonlinear_arith);
        }
        let mut i: usize = 0;
        while i < m
            invariant
                m == polys@.len(),
                n_committed == m,
                query@.len() == n_vars,
                n_vars == self.spec_log_rows() + self.spec_code().dim_bits + self.spec_log_block_size(),
                n_rows == (1usize << self.spec_log_rows()),
                dim == self.spec_code().dim,
                i <= m,
                n_rows * dim * iota <= usize::MAX,
                1 <= iota,
                forall|j: int| 0 <= j < i ==> #[trigger] polys@[j]@.len() == n_rows * dim,
            decreases m - i,
        {
            proof {
                assert(n_rows * dim <= n_rows * dim * iota) by (nonlinear_arith)
                    requires
                        1 <= iota,
                ;
            }
            if polys[i].len() != n_rows * dim {
                return Err(Error::IncorrectPolynomialSize { expected: n_vars });
            }
            i = i + 1;
        }
        let ghost qv = values_of(query@);
        let mut query_high: Vec<BinaryField128b> = Vec::new();
        let mut k: usize = log_n_cols;
        while k < n_vars
            invariant
                log_n_cols <= k <= n_vars,
                n_vars == query@.len(),
                query_high@.len() == k - log_n_cols,
                forall|t: int| 0 <= t < query_high@.len() ==> #[trigger] query_high@[t] == query@[log_n_cols + t],
            decreases n_vars - k,
        {
            query_high.push(query[k]);
            k = k + 1;
        }
        proof {
            assert(values_of(query_high@) =~= qv.subrange(log_n_cols as int, n_vars as int));
        }
        let mut t_primes: Vec<Vec<BinaryField128b>> = Vec::new();
        let mut i: usize = 0;
        while i < m
            invariant
                m == polys@.len(),
                i <= m,
                n_rows * dim * iota <= usize::MAX,
                n_rows * dim * iota == pow_two(n_vars as nat),
                dim * iota == pow_two(log_n_cols as nat),
                n_vars == log_rows + log_n_cols,
                query_high@.len() == log_rows,
                1 <= iota,
                1 <= bb,
                iota * bb <= 128,
                forall|j: int| 0 <= j < m ==> #[trigger] polys@[j]@.len() == n_rows * dim,
                t_primes@.len() == i,
                forall|j: int| 0 <= j < i ==> (#[trigger] t_primes@[j])@.len() == dim * iota,
                forall|j: int|
                    0 <= j < i ==> values_of((#[trigger] t_primes@[j])@) == t_prime_of(
                        polys@[j]@,
                        iota as int,
                        bb as int,
                        values_of(query_high@),
                    ),
            decreases m - i,
        {
            let base = unpack_base(&polys[i], iota, bb);
            assert(base@.len() == values_of(base@).len());
            assert(base@.len() == n_rows * dim * iota);
            let tp = fix_high(&base, &query_high, n_vars);
            proof {
                assert((n_vars - log_rows) as nat == log_n_cols as nat);
            }
            t_primes.push(tp);
            i = i + 1;
        }
        let coeffs = mixing_coefficients(mixing_challenges, m);
        let mixed = match mix_t_primes(log_n_cols, &t_primes, &coeffs) {
            Ok(t) => t,
            Err(e) => {
                assert(forall|j: int| 0 <= j < m ==> (#[trigger] t_primes@[j])@.len() == (1usize << log_n_cols));
                return Err(e);
            },
        };
        proof {
            assert forall|v: int| 0 <= v < mixed@.len() implies #[trigger] mixed@[v].value() == inner_product(
                Seq::new(
                    polys@.len(),
                    |j: int| t_prime_of(polys@[j]@, iota as int, bb as int, qv.subrange(log_n_cols as int, n_vars as int))[v],
                ),
                tensor_expansion(values_of(mixing_challenges@)).take(m as int),
                m as int,
            ) by {
                lemma_mix_at_inner(t_primes@, coeffs@, v, m as int);
                assert(Seq::new(t_primes@.len(), |j: int| values_of(t_primes@[j]@)[v]) =~= Seq::new(
                    polys@.len(),
                    |j: int| t_prime_of(polys@[j]@, iota as int, bb as int, qv.subrange(log_n_cols as int, n_vars as int))[v],
                ));
            }
        }
        Ok(mixed)
    }

    /// Verifies an evaluation proof, given the mixing challenges and the
    /// column indices the caller sampled from its challenger (the challenges
    /// first, the indices after observing `t'`). The proof's columns hold
    /// intermediate elements, one scalar each. In order: the batch size, the
    /// query size and the proof's shape, the claim on `t'`, the encoding of
    /// `t'` into `u'`, the vector-commitment openings, and the column tests.
    pub fn verify_evaluation<LC: LinearCode, D, H: ColumnHasher<D>>(
        &self,
        code: &LC,
        hasher: &H,
        commitment: &V::Commitment,
        query: &Vec<BinaryField128b>,
        proof: &Proof<u128, V::Proof>,
        values: &Vec<BinaryField128b>,
        mixing_challenges: &Vec<BinaryField128b>,
        indices: &Vec<usize>,
    ) -> (r: Result<(), Error>) where V: VectorCommitScheme<D>,

        requires
            self.wf(),
            mixing_challenges@.len() < 64,
            proof.n_polys <= pow_two(mixing_challenges@.len() as nat),
            self.spec_code().dim_bits + self.spec_log_block_size() < 64,
            self.spec_code().dim_bits + self.spec_log_block_size() < usize::BITS,
            self.spec_log_rows() < 64,
            self.spec_layout().intermediate_degree * self.spec_code().len <= usize::MAX,
            indices@.len() == self.spec_code().n_test_queries,
            forall|q: int| 0 <= q < indices@.len() ==> #[trigger] indices@[q] < self.spec_code().len,
        ensures
            values@.len() != proof.n_polys ==> r == Err::<(), Error>(Error::NumBatchedMismatchError),
            (values@.len() == proof.n_polys && query@.len() != spec_n_vars(self)) ==> r == Err::<
                (),
                Error,
            >(Error::IncorrectQuerySize { expected: spec_n_vars(self) as usize }),
            (values@.len() == proof.n_polys && query@.len() == spec_n_vars(self)
                && proof_shape_error(self, proof) is Some) ==> r == Err::<(), Error>(
                proof_shape_error(self, proof)->Some_0,
            ),
            (values@.len() == proof.n_polys && query@.len() == spec_n_vars(self)
                && proof_shape_error(self, proof) is None && !claim_holds(
                self,
                query@,
                proof,
                values@,
                mixing_challenges@,
            )) ==> r == Err::<(), Error>(Error::Verification(VerificationError::IncorrectEvaluation)),
            (values@.len() == proof.n_polys && query@.len() == spec_n_vars(self)
                && proof_shape_error(self, proof) is None && claim_holds(
                self,
                query@,
                proof,
                values@,
                mixing_challenges@,
            )) ==> {
                &&& !stripes_encode(
                    code,
                    proof.mixed_t_prime@,
                    self.spec_layout().intermediate_degree as int,
                    self.spec_code().dim as int,
                    self.spec_code().len as int,
                ) ==> r == Err::<(), Error>(Error::EncodeError)
                &&& stripes_encode(
                    code,
                    proof.mixed_t_prime@,
                    self.spec_layout().intermediate_degree as int,
                    self.spec_code().dim as int,
                    self.spec_code().len as int,
                ) && !openings_valid(self.spec_vcs(), hasher, *commitment, indices@, proof.vcs_proofs@)
                    ==> r == Err::<(), Error>(Error::VectorCommit)
                &&& stripes_encode(
                    code,
                    proof.mixed_t_prime@,
                    self.spec_layout().intermediate_degree as int,
                    self.spec_code().dim as int,
                    self.spec_code().len as int,
                ) && openings_valid(self.spec_vcs(), hasher, *commitment, indices@, proof.vcs_proofs@)
                    ==> (r is Ok <==> column_tests_hold(
                    self,
                    code,
                    query@,
                    proof,
                    indices@,
                    mixing_challenges@,
                ))
                &&& r is Err ==> (r == Err::<(), Error>(Error::EncodeError) || r == Err::<(), Error>(
                    Error::VectorCommit,
                ) || r == Err::<(), Error>(
                    Error::Verification(VerificationError::IncorrectPartialEvaluation),
                ))
            },
            r is Ok ==> {
                &&& values@.len() == proof.n_polys
                &&& query@.len() == spec_n_vars(self)
                &&& claim_holds(self, query@, proof, values@, mixing_challenges@)
                &&& column_tests_hold(self, code, query@, proof, indices@, mixing_challenges@)
            },
    {
        proof {
            self.lemma_wf();
        }
        match check_batch_size(proof.n_polys, values.len()) {
            Ok(()) => {},
            Err(e) => {
                return Err(e);
            },
        }
        let params = self.code_params();
        let log_rows = self.log_rows();
        let log_n_cols = params.dim_bits + self.log_block_size();
        match verify_evaluation_claim(
            proof,
            query,
            values,
            mixing_challenges,
            params.n_test_queries,
            log_rows,
            1,
            log_n_cols,
        ) {
            Ok(()) => {},
            Err(e) => {
                return Err(e);
            },
        }
        let n_rows: usize = 1usize << log_rows;
        let n_cols: usize = 1usize << log_n_cols;
        proof {
            lemma_openings_shape(proof, 0, n_rows, 1);
            lemma_shift_is_pow_two(log_rows);
            lemma_shift_is_pow_two(log_n_cols);
            lemma_shift_is_pow_two(params.dim_bits);
            lemma_shift_is_pow_two(self.spec_log_block_size());
            lemma_pow_two_add(params.dim_bits as nat, self.spec_log_block_size() as nat);
        }
        let u_prime = match self.encode_ext(code, &proof.mixed_t_prime) {
            Ok(u) => u,
            Err(e) => {
                return Err(e);
            },
        };
        match self.verify_openings(hasher, commitment, indices, proof) {
            Ok(()) => {},
            Err(e) => {
                return Err(e);
            },
        }
        let mut query_high: Vec<BinaryField128b> = Vec::new();
        let mut k: usize = log_n_cols;
        while k < query.len()
            invariant
                log_n_cols <= k <= query@.len(),
                query_high@.len() == k - log_n_cols,
                forall|t: int| 0 <= t < query_high@.len() ==> #[trigger] query_high@[t] == query@[log_n_cols + t],
            decreases query@.len() - k,
        {
            query_high.push(query[k]);
            k = k + 1;
        }
        proof {
            assert(values_of(query_high@) =~= values_of(query@).subrange(log_n_cols as int, query@.len() as int));
            assert forall|q: int, i: int|
                0 <= q < indices@.len() && 0 <= i < proof.vcs_proofs@[q].0@.len() implies (
                #[trigger] proof.vcs_proofs@[q].0@[i])@.len() == pow_two(query_high@.len() as nat) by {
                assert(column_size_ok(proof, q, i, n_rows, 1));
            }
        }
        let coeffs = mixing_coefficients(mixing_challenges, proof.n_polys);
        let res = self.verify_columns(&u_prime, indices, proof, &query_high, &coeffs);
        proof {
            let iota = self.spec_layout().intermediate_degree as int;
            let n = params.len as int;
            let want = u_prime_of(code, proof.mixed_t_prime@, n, iota, params.dim as int);
            assert forall|k: int| 0 <= k < u_prime@.len() implies #[trigger] u_prime@[k] == want[k] by {
                vstd::arithmetic::div_mod::lemma_fundamental_div_mod(k, iota);
                vstd::arithmetic::div_mod::lemma_mod_bound(k, iota);
                let c = k / iota;
                let j = k % iota;
                assert(0 <= c < n) by (nonlinear_arith)
                    requires
                        k == iota * c + j,
                        0 <= j < iota,
                        0 <= k < n * iota,
                ;
                assert(c * iota + j == k) by (nonlinear_arith)
                    requires
                        k == iota * c + j,
                ;
                assert(u_prime@[c * iota + j].value() == code.encoded(
                    stripe_message(proof.mixed_t_prime@, j, iota, params.dim as int),
                )[c]);
            }
            assert(u_prime@ =~= want);
        }
        res
    }
}

proof fn lemma_columns_ok<PI, VP>(proof: &Proof<PI, VP>, c: int, p: int, n_rows: usize, pi_width: usize)
    requires
        0 <= p,
        forall|p2: int|
            p <= p2 < proof.vcs_proofs@[c].0@.len() ==> #[trigger] column_size_ok(proof, c, p2, n_rows, pi_width),
    ensures
        column_error(proof, c, p, n_rows, pi_width) is None,
    decreases proof.vcs_proofs@[c].0@.len() - p,
{
    if p < proof.vcs_proofs@[c].0@.len() {
        assert(column_size_ok(proof, c, p, n_rows, pi_width));
        lemma_columns_ok(proof, c, p + 1, n_rows, pi_width);
    }
}

proof fn lemma_openings_ok<PI, VP>(proof: &Proof<PI, VP>, c: int, n_rows: usize, pi_width: usize)
    requires
        0 <= c,
        forall|c2: int|
            c <= c2 < proof.vcs_proofs@.len() ==> (#[trigger] proof.vcs_proofs@[c2]).0@.len() == proof.n_polys,
        forall|c2: int, p: int|
            c <= c2 < proof.vcs_proofs@.len() && 0 <= p < proof.vcs_proofs@[c2].0@.len()
                ==> #[trigger] column_size_ok(proof, c2, p, n_rows, pi_width),
    ensures
        openings_error(proof, c, n_rows, pi_width) is None,
    decreases proof.vcs_proofs@.len() - c,
{
    if c < proof.vcs_proofs@.len() {
        assert(proof.vcs_proofs@[c].0@.len() == proof.n_polys);
        lemma_columns_ok(proof, c, 0, n_rows, pi_width);
        lemma_openings_ok(proof, c + 1, n_rows, pi_width);
    }
}

/// A proof assembled from an honest run has the shape the verifier checks:
/// `t'` from `prove_mixed_t_prime` (`dim * iota` values), and one opening
/// per sampled index, each with the column of every committed matrix (as
/// `open_columns` returns them, from matrices as `commit` returns them).
pub proof fn law_honest_proof_shape<V, VP, LC: LinearCode>(
    pcs: &TensorPCS<V>,
    code: &LC,
    polys: Seq<Vec<u128>>,
    mats: Seq<Vec<Vec<u128>>>,
    indices: Seq<usize>,
    proof: &Proof<u128, VP>,
)
    requires
        pcs.wf(),
        pcs.spec_code().dim_bits + pcs.spec_log_block_size() < 64,
        pcs.spec_code().dim_bits + pcs.spec_log_block_size() < usize::BITS,
        pcs.spec_log_rows() < 64,
        mats.len() == polys.len(),
        forall|i: int|
            0 <= i < polys.len() ==> is_encoded_matrix(
                code,
                polys[i]@,
                (#[trigger] mats[i])@,
                (1usize << pcs.spec_log_rows()) as int,
                pcs.spec_code().dim as int,
                pcs.spec_code().len as int,
            ),
        indices.len() == pcs.spec_code().n_test_queries,
        forall|q: int| 0 <= q < indices.len() ==> #[trigger] indices[q] < pcs.spec_code().len,
        proof.n_polys == polys.len(),
        proof.vcs_proofs@.len() == indices.len(),
        forall|q: int| 0 <= q < indices.len() ==> (#[trigger] proof.vcs_proofs@[q]).0@.len() == mats.len(),
        forall|q: int, i: int|
            0 <= q < indices.len() && 0 <= i < mats.len() ==> #[trigger] proof.vcs_proofs@[q].0@[i]@
                == mats[i]@[indices[q] as int]@,
        proof.mixed_t_prime@.len() == pcs.spec_code().dim * pcs.spec_layout().intermediate_degree,
    ensures
        proof_shape_error(pcs, proof) is None,
{
    pcs.lemma_wf();
    let n_rows = 1usize << pcs.spec_log_rows();
    assert forall|c2: int, p: int|
        0 <= c2 < proof.vcs_proofs@.len() && 0 <= p < proof.vcs_proofs@[c2].0@.len()
            implies #[trigger] column_size_ok(proof, c2, p, n_rows, 1) by {
        assert(mats[p]@[indices[c2] as int]@.len() == n_rows);
    }
    lemma_openings_ok(proof, 0, n_rows, 1);
    lemma_shift_is_pow_two(pcs.spec_code().dim_bits);
    lemma_shift_is_pow_two(pcs.spec_log_block_size());
    lemma_shift_is_pow_two((pcs.spec_code().dim_bits + pcs.spec_log_block_size()) as usize);
    lemma_pow_two_add(pcs.spec_code().dim_bits as nat, pcs.spec_log_block_size() as nat);
}

} // verus!
