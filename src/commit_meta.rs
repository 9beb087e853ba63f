//! Commit metadata: committed oracles are grouped by their number of packed
//! variables and given dense commit indices, bucket by bucket in ascending
//! order of that number.
use vstd::prelude::*;

verus! {

/// What the indexer reads of an oracle: its variable count, its tower level,
/// and whether it is a committed oracle. An oracle's id is its position.
#[derive(Clone, Copy, Debug, PartialEq, Eq, Structural)]
pub struct OracleInfo {
    pub n_vars: usize,
    pub tower_level: usize,
    pub committed: bool,
}

/// Errors of the indexer.
#[derive(Clone, Copy, Debug, PartialEq, Eq, Structural)]
pub enum CommitMetaError {
    /// The committed oracle `id` has fewer than `min_vars` variables, the
    /// difference between the top tower level and its own.
    OracleTooSmall { id: usize, min_vars: usize },
    /// The committed oracle `id` has no witness.
    MissingWitness { id: usize },
}

/// The number of packed variables of an oracle: `n_vars - (top - tower_level)`.
pub open spec fn packed_vars(o: OracleInfo, top: int) -> int {
    o.n_vars - (top - o.tower_level)
}

/// A committed oracle with fewer variables than its tower-level deficit.
pub open spec fn too_small(o: OracleInfo, top: int) -> bool {
    o.committed && o.n_vars < top - o.tower_level
}

/// The number of committed oracles in `s` with `v` packed variables.
pub open spec fn count_pv(s: Seq<OracleInfo>, top: int, v: int) -> nat
    decreases s.len(),
{
    if s.len() == 0 {
        0
    } else {
        count_pv(s.drop_last(), top, v) + if s.last().committed && packed_vars(s.last(), top) == v {
            1nat
        } else {
            0nat
        }
    }
}

/// The number of committed oracles in `s` with fewer than `v` packed variables.
pub open spec fn count_below(s: Seq<OracleInfo>, top: int, v: int) -> nat
    decreases s.len(),
{
    if s.len() == 0 {
        0
    } else {
        count_below(s.drop_last(), top, v) + if s.last().committed && packed_vars(s.last(), top)
            < v {
            1nat
        } else {
            0nat
        }
    }
}

/// One more than the largest packed variable count of a committed oracle of
/// `s`; 0 when none is committed.
pub open spec fn bucket_count(s: Seq<OracleInfo>, top: int) -> nat
    decreases s.len(),
{
    if s.len() == 0 {
        0
    } else {
        let b = bucket_count(s.drop_last(), top);
        if s.last().committed && packed_vars(s.last(), top) + 1 > b {
            (packed_vars(s.last(), top) + 1) as nat
        } else {
            b
        }
    }
}

/// The commit index of oracle `i`: the committed oracles with fewer packed
/// variables, then those before it with as many.
pub open spec fn commit_index(s: Seq<OracleInfo>, top: int, i: int) -> int {
    count_below(s, top, packed_vars(s[i], top)) + count_pv(s.take(i), top, packed_vars(s[i], top)) as int
}

/// The sum of the first `v` entries of `c`.
pub open spec fn prefix_sum(c: Seq<usize>, v: int) -> int
    decreases v,
{
    if v <= 0 {
        0
    } else {
        prefix_sum(c, v - 1) + c[v - 1]
    }
}

/// Counts of committed polynomials by number of packed variables.
pub struct CommitMeta {
    n_multilins_by_vars: Vec<usize>,
    offsets: Vec<usize>,
}

impl CommitMeta {
    /// The counts, indexed by number of packed variables.
    pub closed spec fn counts(self) -> Seq<usize> {
        self.n_multilins_by_vars@
    }

    /// `offsets[v]` is the sum of the counts below `v`.
    pub closed spec fn wf(self) -> bool {
        &&& self.offsets@.len() == self.n_multilins_by_vars@.len() + 1
        &&& forall|v: int|
            0 <= v <= self.n_multilins_by_vars@.len() ==> #[trigger] self.offsets@[v] == prefix_sum(
                self.n_multilins_by_vars@,
                v,
            )
    }

    /// Metadata for the given counts, whose sum must fit in a `usize`.
    pub fn new(n_multilins_by_vars: Vec<usize>) -> (r: Self)
        requires
            prefix_sum(n_multilins_by_vars@, n_multilins_by_vars@.len() as int) <= usize::MAX,
        ensures
            r.wf(),
            r.counts() == n_multilins_by_vars@,
    {
        let n = n_multilins_by_vars.len();
        let mut offsets: Vec<usize> = Vec::new();
        offsets.push(0);
        let mut sum: usize = 0;
        let mut v: usize = 0;
        while v < n
            invariant
                n == n_multilins_by_vars@.len(),
                v <= n,
                offsets@.len() == v + 1,
                sum == prefix_sum(n_multilins_by_vars@, v as int),
                forall|u: int|
                    0 <= u <= v ==> #[trigger] offsets@[u] == prefix_sum(n_multilins_by_vars@, u),
                prefix_sum(n_multilins_by_vars@, n as int) <= usize::MAX,
            decreases n - v,
        {
            proof {
                lemma_prefix_sum_mono(n_multilins_by_vars@, v as int + 1, n as int);
            }
            sum = sum + n_multilins_by_vars[v];
            offsets.push(sum);
            v = v + 1;
        }
        CommitMeta { n_multilins_by_vars, offsets }
    }

    /// The counts, indexed by number of packed variables.
    pub fn n_multilins_by_vars(&self) -> (r: &Vec<usize>)
        ensures
            r@ == self.counts(),
    {
        &self.n_multilins_by_vars
    }

    /// The total number of committed polynomials.
    pub fn total_multilins(&self) -> (r: usize)
        requires
            self.wf(),
        ensures
            r == prefix_sum(self.counts(), self.counts().len() as int),
    {
        self.offsets[self.n_multilins_by_vars.len()]
    }

    /// The commit indices `[start, end)` of the polynomials with `n_vars`
    /// packed variables (empty beyond the last count).
    pub fn range_by_vars(&self, n_vars: usize) -> (r: (usize, usize))
        requires
            self.wf(),
        ensures
            n_vars < self.counts().len() ==> r.0 == prefix_sum(self.counts(), n_vars as int) && r.1
                == prefix_sum(self.counts(), n_vars + 1),
            n_vars >= self.counts().len() ==> r.0 == r.1 && r.0 == prefix_sum(
                self.counts(),
                self.counts().len() as int,
            ),
    {
        let n = self.n_multilins_by_vars.len();
        if n_vars < n {
            (self.offsets[n_vars], self.offsets[n_vars + 1])
        } else {
            (self.offsets[n], self.offsets[n])
        }
    }
}

/// Prefix sums grow with the prefix.
pub proof fn lemma_prefix_sum_mono(c: Seq<usize>, u: int, v: int)
    requires
        0 <= u <= v <= c.len(),
    ensures
        prefix_sum(c, u) <= prefix_sum(c, v),
    decreases v - u,
{
    if u < v {
        lemma_prefix_sum_mono(c, u, v - 1);
    }
}

/// Counting below `v + 1` counts below `v` and at `v`.
proof fn lemma_count_below_step(s: Seq<OracleInfo>, top: int, v: int)
    ensures
        count_below(s, top, v + 1) == count_below(s, top, v) + count_pv(s, top, v),
    decreases s.len(),
{
    if s.len() > 0 {
        lemma_count_below_step(s.drop_last(), top, v);
    }
}

/// Counts are bounded by the length.
proof fn lemma_count_bounds(s: Seq<OracleInfo>, top: int, v: int)
    ensures
        count_below(s, top, v) <= s.len(),
        count_pv(s, top, v) <= s.len(),
        count_below(s, top, v) + count_pv(s, top, v) <= s.len(),
    decreases s.len(),
{
    if s.len() > 0 {
        lemma_count_bounds(s.drop_last(), top, v);
    }
}

/// Without too small oracles, no committed oracle has a negative packed count.
proof fn lemma_count_below_zero(s: Seq<OracleInfo>, top: int)
    requires
        forall|j: int| 0 <= j < s.len() ==> !too_small(#[trigger] s[j], top),
    ensures
        count_below(s, top, 0) == 0,
    decreases s.len(),
{
    if s.len() > 0 {
        assert(!too_small(s[s.len() - 1], top));
        lemma_count_below_zero(s.drop_last(), top);
    }
}

/// No committed oracle has `bucket_count` or more packed variables.
proof fn lemma_count_above_buckets(s: Seq<OracleInfo>, top: int, v: int)
    requires
        v >= bucket_count(s, top),
    ensures
        count_pv(s, top, v) == 0,
    decreases s.len(),
{
    if s.len() > 0 {
        lemma_count_above_buckets(s.drop_last(), top, v);
    }
}

/// A committed oracle's packed count is below `bucket_count`.
proof fn lemma_in_bucket(s: Seq<OracleInfo>, top: int, j: int)
    requires
        0 <= j < s.len(),
        s[j].committed,
    ensures
        packed_vars(s[j], top) < bucket_count(s, top),
    decreases s.len(),
{
    if j < s.len() - 1 {
        lemma_in_bucket(s.drop_last(), top, j);
    }
}

/// Counting over a prefix counts no more.
proof fn lemma_count_prefix(s: Seq<OracleInfo>, top: int, j: int, v: int)
    requires
        0 <= j <= s.len(),
    ensures
        count_pv(s.take(j), top, v) <= count_pv(s, top, v),
    decreases s.len(),
{
    if j < s.len() {
        assert(s.drop_last().take(j) =~= s.take(j));
        lemma_count_prefix(s.drop_last(), top, j, v);
    } else {
        assert(s.take(j) =~= s);
    }
}

/// Prefix sums of the counts are the counts below.
proof fn lemma_prefix_is_count_below(c: Seq<usize>, s: Seq<OracleInfo>, top: int, v: int)
    requires
        0 <= v <= c.len(),
        forall|u: int| 0 <= u < c.len() ==> #[trigger] c[u] == count_pv(s, top, u),
        forall|j: int| 0 <= j < s.len() ==> !too_small(#[trigger] s[j], top),
    ensures
        prefix_sum(c, v) == count_below(s, top, v),
    decreases v,
{
    if v == 0 {
        lemma_count_below_zero(s, top);
    } else {
        lemma_prefix_is_count_below(c, s, top, v - 1);
        lemma_count_below_step(s, top, v - 1);
    }
}

/// Indexes the committed oracles of `oracles` (an oracle's id is its
/// position) for a top tower level `top_level`. Returns the counts of
/// committed oracles by number of packed variables, and for each oracle its
/// commit index, or `None` when it is not committed. Fails on the first
/// committed oracle with fewer variables than its tower-level deficit.
pub fn make_oracle_commit_meta(oracles: &Vec<OracleInfo>, top_level: usize) -> (r: Result<
    (CommitMeta, Vec<Option<usize>>),
    CommitMetaError,
>)
    requires
        forall|i: int| 0 <= i < oracles@.len() ==> #[trigger] oracles@[i].tower_level <= top_level,
    ensures
        r.is_err() <==> exists|i: int| 0 <= i < oracles@.len() && too_small(#[trigger] oracles@[i], top_level as int),
        r is Err ==> r matches Err(CommitMetaError::OracleTooSmall { .. }),
        r matches Err(CommitMetaError::OracleTooSmall { id, min_vars }) ==> {
            &&& id < oracles@.len()
            &&& too_small(oracles@[id as int], top_level as int)
            &&& forall|j: int| 0 <= j < id ==> !too_small(#[trigger] oracles@[j], top_level as int)
            &&& min_vars == top_level - oracles@[id as int].tower_level
        },
        r matches Ok((meta, index)) ==> {
            &&& meta.wf()
            &&& meta.counts().len() == bucket_count(oracles@, top_level as int)
            &&& forall|v: int| 0 <= v < meta.counts().len() ==> #[trigger] meta.counts()[v] == count_pv(oracles@, top_level as int, v)
            &&& index@.len() == oracles@.len()
            &&& forall|i: int| 0 <= i < oracles@.len() ==> (#[trigger] index@[i] is Some <==> oracles@[i].committed)
            &&& forall|i: int| 0 <= i < oracles@.len() && oracles@[i].committed ==> #[trigger] index@[i] == Some(commit_index(oracles@, top_level as int, i) as usize)
        },
{
    let ghost s = oracles@;
    let ghost top = top_level as int;
    let n = oracles.len();
    // First pass: count the oracles of each packed variable count, and note
    // each oracle's place in its bucket.
    let mut counts: Vec<usize> = Vec::new();
    let mut first_pass: Vec<Option<(usize, usize)>> = Vec::new();
    let mut i: usize = 0;
    while i < n
        invariant
            n == s.len(),
            s == oracles@,
            top == top_level as int,
            forall|j: int| 0 <= j < s.len() ==> #[trigger] s[j].tower_level <= top_level,
            i <= n,
            counts@.len() == bucket_count(s.take(i as int), top),
            forall|v: int| 0 <= v < counts@.len() ==> #[trigger] counts@[v] == count_pv(s.take(i as int), top, v),
            forall|v: int| 0 <= v < counts@.len() ==> #[trigger] counts@[v] <= i,
            first_pass@.len() == i,
            forall|j: int| 0 <= j < i ==> !too_small(#[trigger] s[j], top),
            forall|j: int|
                0 <= j < i ==> #[trigger] first_pass@[j] == (if s[j].committed {
                    Some((packed_vars(s[j], top) as usize, count_pv(s.take(j), top, packed_vars(s[j], top)) as usize))
                } else {
                    None
                }),
            forall|j: int| 0 <= j < i && s[j].committed ==> packed_vars(#[trigger] s[j], top) >= 0,
        decreases n - i,
    {
        let o = oracles[i];
        proof {
            assert(s.take(i + 1).drop_last() =~= s.take(i as int));
            assert(s.take(i + 1).last() == o);
        }
        if o.committed {
            let deficit = top_level - o.tower_level;
            if o.n_vars < deficit {
                return Err(CommitMetaError::OracleTooSmall { id: i, min_vars: deficit });
            }
            let pv = o.n_vars - deficit;
            let ghost old_len = counts@.len();
            while counts.len() <= pv
                invariant
                    old_len == bucket_count(s.take(i as int), top),
                    old_len <= counts@.len(),
                    counts@.len() <= pv + 1 || counts@.len() == old_len,
                    i < n,
                    forall|v: int| 0 <= v < counts@.len() ==> #[trigger] counts@[v] <= i,
                    forall|v: int| 0 <= v < old_len ==> #[trigger] counts@[v] == count_pv(s.take(i as int), top, v),
                    forall|v: int| old_len <= v < counts@.len() ==> #[trigger] counts@[v] == 0,
                decreases pv + 1 - counts@.len(),
            {
                counts.push(0);
            }
            proof {
                assert forall|v: int| 0 <= v < counts@.len() implies #[trigger] counts@[v] == count_pv(s.take(i as int), top, v) by {
                    if v >= old_len {
                        lemma_count_above_buckets(s.take(i as int), top, v);
                    }
                }
            }
            let idx = counts[pv];
            first_pass.push(Some((pv, idx)));
            counts.set(pv, idx + 1);
        } else {
            first_pass.push(None);
        }
        i = i + 1;
    }
    proof {
        assert(s.take(n as int) =~= s);
    }
    // Second pass: the counts are final; add each bucket's offset.
    proof {
        lemma_prefix_is_count_below(counts@, s, top, counts@.len() as int);
        lemma_count_bounds(s, top, counts@.len() as int);
    }
    let meta = CommitMeta::new(counts);
    let mut index: Vec<Option<usize>> = Vec::new();
    let mut i: usize = 0;
    while i < n
        invariant
            n == s.len(),
            s == oracles@,
            top == top_level as int,
            i <= n,
            meta.wf(),
            forall|j: int| 0 <= j < s.len() ==> #[trigger] s[j].tower_level <= top_level,
            meta.counts().len() == bucket_count(s, top),
            forall|v: int| 0 <= v < meta.counts().len() ==> #[trigger] meta.counts()[v] == count_pv(s, top, v),
            forall|j: int| 0 <= j < s.len() ==> !too_small(#[trigger] s[j], top),
            first_pass@.len() == n,
            forall|j: int|
                0 <= j < n ==> #[trigger] first_pass@[j] == (if s[j].committed {
                    Some((packed_vars(s[j], top) as usize, count_pv(s.take(j), top, packed_vars(s[j], top)) as usize))
                } else {
                    None
                }),
            forall|j: int| 0 <= j < n && s[j].committed ==> packed_vars(#[trigger] s[j], top) >= 0,
            index@.len() == i,
            forall|j: int| 0 <= j < i ==> (#[trigger] index@[j] is Some <==> s[j].committed),
            forall|j: int| 0 <= j < i && s[j].committed ==> #[trigger] index@[j] == Some(commit_index(s, top, j) as usize),
        decreases n - i,
    {
        match first_pass[i] {
            Some((pv, idx_in_bucket)) => {
                proof {
                    assert(s[i as int].committed);
                    lemma_in_bucket(s, top, i as int);
                    lemma_prefix_is_count_below(meta.counts(), s, top, pv as int);
                    lemma_count_prefix(s, top, i as int, pv as int);
                    lemma_count_bounds(s, top, pv as int);
                }
                let ghost pvi = packed_vars(s[i as int], top);
                assert(s[i as int].tower_level <= top_level);
                assert(pv as int == pvi);
                assert(idx_in_bucket as int == count_pv(s.take(i as int), top, pvi));
                let (start, _end) = meta.range_by_vars(pv);
                assert(start as int == count_below(s, top, pvi));
                index.push(Some(start + idx_in_bucket));
                assert(index@[i as int] == Some(commit_index(s, top, i as int) as usize));
            },
            None => {
                index.push(None);
            },
        }
        i = i + 1;
    }
    Ok((meta, index))
}

/// Counting up to and including oracle `i`.
proof fn lemma_count_take_step(s: Seq<OracleInfo>, top: int, i: int, v: int)
    requires
        0 <= i < s.len(),
    ensures
        count_pv(s.take(i + 1), top, v) == count_pv(s.take(i), top, v) + if s[i].committed
            && packed_vars(s[i], top) == v {
            1nat
        } else {
            0nat
        },
{
    assert(s.take(i + 1).drop_last() =~= s.take(i));
}

/// Counting below a larger bound counts no fewer.
proof fn lemma_count_below_mono(s: Seq<OracleInfo>, top: int, v: int, w: int)
    requires
        v <= w,
    ensures
        count_below(s, top, v) <= count_below(s, top, w),
    decreases s.len(),
{
    if s.len() > 0 {
        lemma_count_below_mono(s.drop_last(), top, v, w);
    }
}

/// The commit index of a committed oracle lies in the range of its bucket,
/// the buckets follow each other in ascending order of packed variable
/// count and end at the total, and distinct committed oracles get distinct
/// indices.
pub proof fn law_commit_indices_grouped(s: Seq<OracleInfo>, top: int, i: int, j: int)
    requires
        0 <= i < s.len(),
        0 <= j < s.len(),
        s[i].committed,
        s[j].committed,
    ensures
        count_below(s, top, packed_vars(s[i], top)) <= commit_index(s, top, i) < count_below(
            s,
            top,
            packed_vars(s[i], top) + 1,
        ),
        commit_index(s, top, i) < count_below(s, top, bucket_count(s, top) as int),
        packed_vars(s[i], top) < packed_vars(s[j], top) ==> commit_index(s, top, i)
            < commit_index(s, top, j),
        i != j ==> commit_index(s, top, i) != commit_index(s, top, j),
{
    let pi = packed_vars(s[i], top);
    let pj = packed_vars(s[j], top);
    lemma_count_take_step(s, top, i, pi);
    lemma_count_prefix(s, top, i + 1, pi);
    lemma_count_below_step(s, top, pi);
    lemma_in_bucket(s, top, i);
    lemma_count_below_mono(s, top, pi + 1, bucket_count(s, top) as int);
    lemma_count_take_step(s, top, j, pj);
    lemma_count_prefix(s, top, j + 1, pj);
    lemma_count_below_step(s, top, pj);
    if pi < pj {
        lemma_count_below_mono(s, top, pi + 1, pj);
    }
    if pj < pi {
        lemma_count_below_mono(s, top, pj + 1, pi);
    }
    if pi == pj && i < j {
        assert(s.take(j).take(i + 1) =~= s.take(i + 1));
        lemma_count_prefix(s.take(j), top, i + 1, pi);
    }
    if pi == pj && j < i {
        assert(s.take(i).take(j + 1) =~= s.take(j + 1));
        lemma_count_prefix(s.take(i), top, j + 1, pi);
    }
}

/// Some oracle has commit index `c`.
pub open spec fn reaches(index: Seq<Option<usize>>, c: int) -> bool {
    exists|i: int| 0 <= i < index.len() && #[trigger] index[i] == Some(c as usize)
}

/// Some oracle has commit index `c` and witness `w`.
pub open spec fn collected_from<W>(index: Seq<Option<usize>>, witnesses: Seq<Option<W>>, c: int, w: W) -> bool {
    exists|i: int|
        0 <= i < index.len() && i < witnesses.len() && #[trigger] index[i] == Some(c as usize)
            && witnesses[i] == Some(w)
}

/// Collects the witnesses of the committed oracles in commit order: entry `c`
/// of the result is the witness of an oracle whose commit index is `c`.
/// `witnesses[i]` is the witness of oracle `i`, if any; the map must reach
/// every index below the total. Fails on a committed oracle without witness.
pub fn collect_committed_witnesses<W: Copy>(
    commit_meta: &CommitMeta,
    oracle_to_commit_index: &Vec<Option<usize>>,
    witnesses: &Vec<Option<W>>,
) -> (r: Result<Vec<W>, CommitMetaError>)
    requires
        commit_meta.wf(),
        oracle_to_commit_index@.len() == witnesses@.len(),
        forall|i: int|
            0 <= i < oracle_to_commit_index@.len() && #[trigger] oracle_to_commit_index@[i] is Some
                ==> oracle_to_commit_index@[i]->Some_0 < prefix_sum(
                commit_meta.counts(),
                commit_meta.counts().len() as int,
            ),
        forall|c: int|
            0 <= c < prefix_sum(commit_meta.counts(), commit_meta.counts().len() as int)
                ==> #[trigger] reaches(oracle_to_commit_index@, c),
    ensures
        r is Err <==> exists|i: int|
            0 <= i < witnesses@.len() && #[trigger] oracle_to_commit_index@[i] is Some
                && witnesses@[i] is None,
        r is Err ==> r matches Err(CommitMetaError::MissingWitness { .. }),
        r matches Err(CommitMetaError::MissingWitness { id }) ==> id < witnesses@.len()
            && oracle_to_commit_index@[id as int] is Some && witnesses@[id as int] is None
            && forall|j: int|
            0 <= j < id ==> !(#[trigger] oracle_to_commit_index@[j] is Some && witnesses@[j] is None),
        r matches Ok(v) ==> {
            &&& v@.len() == prefix_sum(commit_meta.counts(), commit_meta.counts().len() as int)
            &&& forall|c: int|
                0 <= c < v@.len() ==> #[trigger] collected_from(
                    oracle_to_commit_index@,
                    witnesses@,
                    c,
                    v@[c],
                )
        },
{
    let total = commit_meta.total_multilins();
    let n = oracle_to_commit_index.len();
    let mut slots: Vec<Option<W>> = Vec::new();
    let mut c: usize = 0;
    while c < total
        invariant
            c <= total,
            slots@.len() == c,
            forall|d: int| 0 <= d < c ==> #[trigger] slots@[d] is None,
        decreases total - c,
    {
        slots.push(None);
        c = c + 1;
    }
    let mut i: usize = 0;
    while i < n
        invariant
            n == oracle_to_commit_index@.len(),
            n == witnesses@.len(),
            total == prefix_sum(commit_meta.counts(), commit_meta.counts().len() as int),
            forall|j: int|
                0 <= j < n && #[trigger] oracle_to_commit_index@[j] is Some
                    ==> oracle_to_commit_index@[j]->Some_0 < total,
            i <= n,
            slots@.len() == total,
            forall|j: int| 0 <= j < i ==> !(#[trigger] oracle_to_commit_index@[j] is Some && witnesses@[j] is None),
            forall|j: int| 0 <= j < i && #[trigger] oracle_to_commit_index@[j] is Some ==> slots@[oracle_to_commit_index@[j]->Some_0 as int] is Some,
            forall|d: int|
                0 <= d < total && #[trigger] slots@[d] is Some ==> exists|j: int|
                    0 <= j < n && #[trigger] oracle_to_commit_index@[j] == Some(d as usize)
                        && witnesses@[j] == slots@[d],
        decreases n - i,
    {
        match oracle_to_commit_index[i] {
            Some(ci) => {
                match witnesses[i] {
                    Some(w) => {
                        let ghost old_slots = slots@;
                        slots.set(ci, Some(w));
                        proof {
                            assert forall|d: int|
                                0 <= d < total && #[trigger] slots@[d] is Some implies exists|j: int|
                                    0 <= j < n && #[trigger] oracle_to_commit_index@[j] == Some(d as usize)
                                        && witnesses@[j] == slots@[d] by {
                                if d == ci as int {
                                    assert(oracle_to_commit_index@[i as int] == Some(d as usize));
                                } else {
                                    assert(old_slots[d] is Some);
                                }
                            }
                            assert forall|j: int| 0 <= j < i + 1 && #[trigger] oracle_to_commit_index@[j] is Some implies slots@[oracle_to_commit_index@[j]->Some_0 as int] is Some by {
                                if j < i {
                                    assert(old_slots[oracle_to_commit_index@[j]->Some_0 as int] is Some);
                                }
                            }
                        }
                    },
                    None => {
                        return Err(CommitMetaError::MissingWitness { id: i });
                    },
                }
            },
            None => {},
        }
        i = i + 1;
    }
    let mut out: Vec<W> = Vec::new();
    let mut c: usize = 0;
    while c < total
        invariant
            n == oracle_to_commit_index@.len(),
            n == witnesses@.len(),
            total == prefix_sum(commit_meta.counts(), commit_meta.counts().len() as int),
            forall|d: int| 0 <= d < total ==> #[trigger] reaches(oracle_to_commit_index@, d),
            forall|j: int| 0 <= j < n && #[trigger] oracle_to_commit_index@[j] is Some ==> slots@[oracle_to_commit_index@[j]->Some_0 as int] is Some,
            forall|d: int|
                0 <= d < total && #[trigger] slots@[d] is Some ==> exists|j: int|
                    0 <= j < n && #[trigger] oracle_to_commit_index@[j] == Some(d as usize)
                        && witnesses@[j] == slots@[d],
            slots@.len() == total,
            c <= total,
            out@.len() == c,
            forall|d: int| 0 <= d < c ==> slots@[d] == Some(#[trigger] out@[d]),
        decreases total - c,
    {
        proof {
            assert(reaches(oracle_to_commit_index@, c as int));
            let j = choose|j: int| 0 <= j < n && #[trigger] oracle_to_commit_index@[j] == Some(c as usize);
            assert(slots@[oracle_to_commit_index@[j]->Some_0 as int] is Some);
        }
        match slots[c] {
            Some(w) => {
                out.push(w);
            },
            None => {},
        }
        c = c + 1;
    }
    proof {
        assert forall|d: int| 0 <= d < out@.len() implies #[trigger] collected_from(
            oracle_to_commit_index@,
            witnesses@,
            d,
            out@[d],
        ) by {
            let w = out@[d];
            assert(slots@[d] == Some(w));
            assert(slots@[d] is Some);
        }
    }
    Ok(out)
}

/// Every rank below the size of bucket `v` is the rank of a committed oracle
/// of that bucket.
proof fn lemma_rank_exists(s: Seq<OracleInfo>, top: int, v: int, r: int)
    requires
        0 <= r < count_pv(s, top, v),
    ensures
        exists|i: int|
            0 <= i < s.len() && #[trigger] s[i].committed && packed_vars(s[i], top) == v && count_pv(
                s.take(i),
                top,
                v,
            ) == r,
    decreases s.len(),
{
    let t = s.drop_last();
    let i = s.len() - 1;
    assert(s.take(i) =~= t);
    if r < count_pv(t, top, v) {
        lemma_rank_exists(t, top, v, r);
        let k = choose|k: int|
            0 <= k < t.len() && #[trigger] t[k].committed && packed_vars(t[k], top) == v && count_pv(
                t.take(k),
                top,
                v,
            ) == r;
        assert(t.take(k) =~= s.take(k));
        assert(s[k] == t[k]);
    } else {
        assert(s[i].committed && packed_vars(s[i], top) == v);
    }
}

/// Each index below `count_below(w)` lies in the bucket of some `v < w`.
proof fn lemma_bucket_of_index(s: Seq<OracleInfo>, top: int, c: int, w: int)
    requires
        0 <= c < count_below(s, top, w),
        forall|j: int| 0 <= j < s.len() ==> !too_small(#[trigger] s[j], top),
    ensures
        exists|v: int|
            0 <= v < w && count_below(s, top, v) <= c < count_below(s, top, v) + #[trigger] count_pv(
                s,
                top,
                v,
            ),
    decreases w,
{
    lemma_count_below_zero(s, top);
    if w > 0 {
        lemma_count_below_step(s, top, w - 1);
        if c < count_below(s, top, w - 1) {
            lemma_bucket_of_index(s, top, c, w - 1);
        } else {
            assert(count_below(s, top, w - 1) <= c < count_below(s, top, w - 1) + count_pv(s, top, w - 1));
        }
    } else {
        lemma_count_below_mono(s, top, w, 0);
    }
}

/// The commit indices cover every index below the total: together with
/// `law_commit_indices_grouped`, the indices are a bijection from the
/// committed oracles onto `[0, total)`, and each bucket fills its range.
pub proof fn law_commit_indices_onto(s: Seq<OracleInfo>, top: int, c: int)
    requires
        forall|j: int| 0 <= j < s.len() ==> !too_small(#[trigger] s[j], top),
        0 <= c < count_below(s, top, bucket_count(s, top) as int),
    ensures
        exists|i: int| 0 <= i < s.len() && #[trigger] s[i].committed && commit_index(s, top, i) == c,
{
    lemma_bucket_of_index(s, top, c, bucket_count(s, top) as int);
    let v = choose|v: int|
        0 <= v < bucket_count(s, top) && count_below(s, top, v) <= c < count_below(s, top, v)
            + #[trigger] count_pv(s, top, v);
    law_bucket_fills(s, top, v, c);
}

/// Each index of bucket `v`'s range `[count_below(v), count_below(v + 1))`
/// is the commit index of a committed oracle with `v` packed variables.
pub proof fn law_bucket_fills(s: Seq<OracleInfo>, top: int, v: int, c: int)
    requires
        count_below(s, top, v) <= c < count_below(s, top, v) + count_pv(s, top, v),
    ensures
        exists|i: int|
            0 <= i < s.len() && #[trigger] s[i].committed && packed_vars(s[i], top) == v
                && commit_index(s, top, i) == c,
{
    lemma_rank_exists(s, top, v, c - count_below(s, top, v));
}

} // verus!
