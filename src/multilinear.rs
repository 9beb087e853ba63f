//! Multilinear polynomials over the extension field (level 7), given by their
//! values on the Boolean hypercube, and the tensor expansion of a query.
use crate::binary_field::BinaryField128b;
use crate::tower_spec::tower_mul;
use vstd::prelude::*;

verus! {

/// `2^n`.
pub open spec fn pow_two(n: nat) -> nat
    decreases n,
{
    if n == 0 {
        1
    } else {
        2 * pow_two((n - 1) as nat)
    }
}

/// The numbers behind a sequence of extension-field elements.
pub open spec fn values_of(s: Seq<BinaryField128b>) -> Seq<u128> {
    s.map_values(|x: BinaryField128b| x.value())
}

/// Fixes the highest variable of a multilinear polynomial to `r`: value `i`
/// becomes `(1 - r) e[i] + r e[i + h]`, which in characteristic 2 is
/// `e[i] + r (e[i] + e[i + h])`, with `h` half the length.
pub open spec fn fold_high(e: Seq<u128>, r: u128) -> Seq<u128> {
    let h = e.len() / 2;
    Seq::new(h, |i: int| e[i] ^ tower_mul(7, r, e[i] ^ e[i + h]))
}

/// The value of the multilinear polynomial with values `e` (variable `j` is
/// bit `j` of the index) at the point `q`.
pub open spec fn ml_eval(e: Seq<u128>, q: Seq<u128>) -> u128
    decreases q.len(),
{
    if q.len() == 0 {
        e[0]
    } else {
        ml_eval(fold_high(e, q.last()), q.drop_last())
    }
}

/// The tensor expansion `(1 - a_0, a_0) x ... x (1 - a_{m-1}, a_{m-1})`:
/// entry `i` is the product over `j` of `a_j` where bit `j` of `i` is set and
/// of `1 + a_j` where it is clear.
pub open spec fn tensor_expansion(a: Seq<u128>) -> Seq<u128>
    decreases a.len(),
{
    if a.len() == 0 {
        seq![1u128]
    } else {
        let prev = tensor_expansion(a.drop_last());
        let x = a.last();
        prev.map_values(|c: u128| tower_mul(7, c, 1u128 ^ x)) + prev.map_values(
            |c: u128| tower_mul(7, c, x),
        )
    }
}

/// `sum_{i < n} c_i * v_i` over the extension field.
pub open spec fn inner_product(v: Seq<u128>, c: Seq<u128>, n: int) -> u128
    decreases n,
{
    if n <= 0 {
        0
    } else {
        inner_product(v, c, n - 1) ^ tower_mul(7, c[n - 1], v[n - 1])
    }
}

/// The tensor expansion of `m` challenges has `2^m` entries.
pub proof fn lemma_expansion_len(a: Seq<u128>)
    ensures
        tensor_expansion(a).len() == pow_two(a.len()),
    decreases a.len(),
{
    if a.len() > 0 {
        lemma_expansion_len(a.drop_last());
    }
}

/// The tensor expansion of `challenges`.
pub fn expand_query(challenges: &Vec<BinaryField128b>) -> (r: Vec<BinaryField128b>)
    requires
        challenges@.len() < 64,
    ensures
        values_of(r@) == tensor_expansion(values_of(challenges@)),
        r@.len() == pow_two(challenges@.len() as nat),
{
    let ghost a = values_of(challenges@);
    let mut cur: Vec<BinaryField128b> = Vec::new();
    cur.push(BinaryField128b::one());
    let mut j: usize = 0;
    proof {
        assert(a.take(0).len() == 0);
        assert(values_of(cur@) =~= tensor_expansion(a.take(0)));
    }
    while j < challenges.len()
        invariant
            a == values_of(challenges@),
            challenges@.len() < 64,
            j <= challenges@.len(),
            values_of(cur@) == tensor_expansion(a.take(j as int)),
            cur@.len() == pow_two(j as nat),
        decreases challenges@.len() - j,
    {
        let x = challenges[j];
        let one_plus_x = BinaryField128b::one().add(x);
        let n = cur.len();
        let mut next: Vec<BinaryField128b> = Vec::new();
        let mut i: usize = 0;
        while i < n
            invariant
                n == cur@.len(),
                i <= n,
                next@.len() == i,
                forall|k: int| 0 <= k < i ==> #[trigger] next@[k].value() == tower_mul(7, cur@[k].value(), one_plus_x.value()),
            decreases n - i,
        {
            next.push(cur[i].multiply(one_plus_x));
            i = i + 1;
        }
        let mut i: usize = 0;
        while i < n
            invariant
                n == cur@.len(),
                i <= n,
                next@.len() == n + i,
                forall|k: int| 0 <= k < n ==> #[trigger] next@[k].value() == tower_mul(7, cur@[k].value(), one_plus_x.value()),
                forall|k: int| 0 <= k < i ==> #[trigger] next@[n + k].value() == tower_mul(7, cur@[k].value(), x.value()),
            decreases n - i,
        {
            next.push(cur[i].multiply(x));
            i = i + 1;
        }
        proof {
            let t = a.take(j as int + 1);
            assert(t.drop_last() =~= a.take(j as int));
            assert(t.last() == x.value());
            let prev = tensor_expansion(a.take(j as int));
            let lo = prev.map_values(|c: u128| tower_mul(7, c, 1u128 ^ x.value()));
            let hi = prev.map_values(|c: u128| tower_mul(7, c, x.value()));
            assert(prev.len() == n);
            assert forall|k: int| 0 <= k < 2 * n implies #[trigger] values_of(next@)[k] == (lo + hi)[k] by {
                if k < n {
                    assert(values_of(cur@)[k] == prev[k]);
                } else {
                    assert(values_of(cur@)[k - n] == prev[k - n]);
                    assert(next@[n + (k - n)].value() == tower_mul(7, cur@[k - n].value(), x.value()));
                }
            }
            assert(values_of(next@) =~= lo + hi);
        }
        cur = next;
        j = j + 1;
    }
    proof {
        assert(a.take(challenges@.len() as int) =~= a);
    }
    cur
}

/// The value of the multilinear polynomial with values `evals` at `query`.
pub fn evaluate(evals: &Vec<BinaryField128b>, query: &Vec<BinaryField128b>) -> (r: BinaryField128b)
    requires
        evals@.len() == pow_two(query@.len() as nat),
    ensures
        r.value() == ml_eval(values_of(evals@), values_of(query@)),
{
    let ghost q = values_of(query@);
    let mut cur: Vec<BinaryField128b> = evals.clone();
    proof {
        assert(values_of(cur@) =~= values_of(evals@));
        assert(q.take(q.len() as int) =~= q);
    }
    let mut j: usize = query.len();
    while j > 0
        invariant
            q == values_of(query@),
            j <= query@.len(),
            cur@.len() == pow_two(j as nat),
            ml_eval(values_of(cur@), q.take(j as int)) == ml_eval(values_of(evals@), q),
        decreases j,
    {
        let r = query[j - 1];
        let len = cur.len();
        let h = len / 2;
        let mut next: Vec<BinaryField128b> = Vec::new();
        let mut i: usize = 0;
        while i < h
            invariant
                h == cur@.len() / 2,
                len == cur@.len(),
                cur@.len() == 2 * h,
                i <= h,
                next@.len() == i,
                forall|k: int| 0 <= k < i ==> #[trigger] next@[k].value() == cur@[k].value() ^ tower_mul(7, r.value(), cur@[k].value() ^ cur@[k + h].value()),
            decreases h - i,
        {
            let d = cur[i].add(cur[i + h]);
            next.push(cur[i].add(r.multiply(d)));
            i = i + 1;
        }
        proof {
            let t = q.take(j as int);
            assert(t.drop_last() =~= q.take(j - 1));
            assert(t.last() == r.value());
            assert(values_of(next@) =~= fold_high(values_of(cur@), r.value()));
        }
        cur = next;
        j = j - 1;
    }
    proof {
        assert(q.take(0).len() == 0);
    }
    cur[0]
}

/// `sum_i c_i * v_i` over the first `min(v.len(), c.len())` pairs.
pub fn inner_product_of(v: &Vec<BinaryField128b>, c: &Vec<BinaryField128b>) -> (r: BinaryField128b)
    ensures
        r.value() == inner_product(
            values_of(v@),
            values_of(c@),
            if v@.len() < c@.len() { v@.len() as int } else { c@.len() as int },
        ),
{
    let n = if v.len() < c.len() { v.len() } else { c.len() };
    let mut acc = BinaryField128b::zero();
    let mut i: usize = 0;
    while i < n
        invariant
            n <= v@.len(),
            n <= c@.len(),
            i <= n,
            acc.value() == inner_product(values_of(v@), values_of(c@), i as int),
        decreases n - i,
    {
        acc = acc.add(c[i].multiply(v[i]));
        i = i + 1;
    }
    acc
}

/// Fixes the highest `q.len()` variables of a multilinear polynomial to `q`
/// (variable `k - q.len() + i` to `q[i]`, for `2^k` values).
pub open spec fn partial_high(e: Seq<u128>, q: Seq<u128>) -> Seq<u128>
    decreases q.len(),
{
    if q.len() == 0 {
        e
    } else {
        partial_high(fold_high(e, q.last()), q.drop_last())
    }
}

/// `2^(a + b) = 2^a * 2^b`.
pub proof fn lemma_pow_two_add(a: nat, b: nat)
    ensures
        pow_two(a + b) == pow_two(a) * pow_two(b),
    decreases a,
{
    if a == 0 {
        assert(pow_two(a) == 1);
        assert(a + b == b);
    } else {
        lemma_pow_two_add((a - 1) as nat, b);
        assert(pow_two(a) == 2 * pow_two((a - 1) as nat));
        assert((a + b - 1) as nat == (a - 1 + b) as nat);
        assert(pow_two(a + b) == 2 * pow_two((a + b - 1) as nat));
        assert(2 * (pow_two((a - 1) as nat) * pow_two(b)) == (2 * pow_two((a - 1) as nat)) * pow_two(b)) by (nonlinear_arith);
    }
}

/// The partial evaluation at the highest variables: `evals` holds `2^k`
/// values and `q` fixes its highest `q.len()` variables.
pub fn fix_high(evals: &Vec<BinaryField128b>, q: &Vec<BinaryField128b>, k: usize) -> (r: Vec<BinaryField128b>)
    requires
        evals@.len() == pow_two(k as nat),
        q@.len() <= k,
    ensures
        values_of(r@) == partial_high(values_of(evals@), values_of(q@)),
        r@.len() == pow_two((k - q@.len()) as nat),
{
    let ghost qv = values_of(q@);
    let mut cur: Vec<BinaryField128b> = evals.clone();
    proof {
        assert(values_of(cur@) =~= values_of(evals@));
        assert(qv.take(qv.len() as int) =~= qv);
    }
    let mut j: usize = q.len();
    while j > 0
        invariant
            qv == values_of(q@),
            j <= q@.len(),
            q@.len() <= k,
            cur@.len() == pow_two((k - q@.len() + j) as nat),
            partial_high(values_of(cur@), qv.take(j as int)) == partial_high(values_of(evals@), qv),
        decreases j,
    {
        let r = q[j - 1];
        let len = cur.len();
        let h = len / 2;
        let mut next: Vec<BinaryField128b> = Vec::new();
        let mut i: usize = 0;
        while i < h
            invariant
                h == cur@.len() / 2,
                len == cur@.len(),
                cur@.len() == 2 * h,
                i <= h,
                next@.len() == i,
                forall|t: int| 0 <= t < i ==> #[trigger] next@[t].value() == cur@[t].value() ^ tower_mul(7, r.value(), cur@[t].value() ^ cur@[t + h].value()),
            decreases h - i,
        {
            let d = cur[i].add(cur[i + h]);
            next.push(cur[i].add(r.multiply(d)));
            i = i + 1;
        }
        proof {
            let t = qv.take(j as int);
            assert(t.drop_last() =~= qv.take(j - 1));
            assert(t.last() == r.value());
            assert(values_of(next@) =~= fold_high(values_of(cur@), r.value()));
        }
        cur = next;
        j = j - 1;
    }
    proof {
        assert(qv.take(0) =~= Seq::<u128>::empty());
    }
    cur
}

} // verus!
