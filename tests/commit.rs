use tensor_pcs::commit_meta::{
    collect_committed_witnesses, make_oracle_commit_meta, CommitMeta, CommitMetaError, OracleInfo,
};

fn committed(n_vars: usize, tower_level: usize) -> OracleInfo {
    OracleInfo { n_vars, tower_level, committed: true }
}

#[test]
fn test_make_oracle_commit_meta() {
    let mut oracles = Vec::new();
    let batch_0_0_ids = [0usize, 1];
    oracles.push(committed(8, 0));
    oracles.push(committed(8, 0));
    let batch_0_1_ids = [2usize, 3];
    oracles.push(committed(10, 0));
    oracles.push(committed(10, 0));
    let batch_0_2_ids = [4usize, 5];
    oracles.push(committed(12, 0));
    oracles.push(committed(12, 0));
    let repeat = 6usize;
    oracles.push(OracleInfo { n_vars: 17, tower_level: 0, committed: false });
    let batch_2_0_ids = [7usize, 8];
    oracles.push(committed(8, 2));
    oracles.push(committed(8, 2));
    let batch_2_1_ids = [9usize, 10];
    oracles.push(committed(10, 2));
    oracles.push(committed(10, 2));
    let batch_2_2_ids = [11usize, 12];
    oracles.push(committed(12, 2));
    oracles.push(committed(12, 2));

    let (commit_meta, index) = make_oracle_commit_meta(&oracles, 7).unwrap();
    assert_eq!(commit_meta.n_multilins_by_vars(), &vec![0, 2, 0, 4, 0, 4, 0, 2]);
    assert_eq!(index[batch_0_0_ids[0]], Some(0));
    assert_eq!(index[batch_0_0_ids[1]], Some(1));
    assert_eq!(index[batch_0_1_ids[0]], Some(2));
    assert_eq!(index[batch_0_1_ids[1]], Some(3));
    assert_eq!(index[batch_0_2_ids[0]], Some(6));
    assert_eq!(index[batch_0_2_ids[1]], Some(7));
    assert_eq!(index[batch_2_0_ids[0]], Some(4));
    assert_eq!(index[batch_2_0_ids[1]], Some(5));
    assert_eq!(index[batch_2_1_ids[0]], Some(8));
    assert_eq!(index[batch_2_1_ids[1]], Some(9));
    assert_eq!(index[batch_2_2_ids[0]], Some(10));
    assert_eq!(index[batch_2_2_ids[1]], Some(11));
    assert_eq!(index[repeat], None);
    assert_eq!(commit_meta.total_multilins(), 12);
    assert_eq!(commit_meta.range_by_vars(3), (2, 6));
    assert_eq!(commit_meta.range_by_vars(9), (12, 12));
}

#[test]
fn oracle_too_small_is_reported() {
    let oracles = vec![committed(9, 0), committed(3, 1), committed(2, 0)];
    let r = make_oracle_commit_meta(&oracles, 7);
    assert_eq!(r.err(), Some(CommitMetaError::OracleTooSmall { id: 1, min_vars: 6 }));
}

#[test]
fn no_committed_oracles() {
    let oracles = vec![OracleInfo { n_vars: 4, tower_level: 0, committed: false }];
    let (meta, index) = make_oracle_commit_meta(&oracles, 7).unwrap();
    assert_eq!(meta.total_multilins(), 0);
    assert_eq!(index, vec![None]);
}

#[test]
fn commit_meta_ranges() {
    let meta = CommitMeta::new(vec![3, 0, 2]);
    assert_eq!(meta.total_multilins(), 5);
    assert_eq!(meta.range_by_vars(0), (0, 3));
    assert_eq!(meta.range_by_vars(1), (3, 3));
    assert_eq!(meta.range_by_vars(2), (3, 5));
}

#[test]
fn witnesses_in_commit_order() {
    let oracles = vec![committed(12, 0), OracleInfo { n_vars: 3, tower_level: 0, committed: false }, committed(8, 0), committed(12, 0)];
    let (meta, index) = make_oracle_commit_meta(&oracles, 7).unwrap();
    assert_eq!(index, vec![Some(1), None, Some(0), Some(2)]);
    let witnesses = vec![Some('a'), None, Some('c'), Some('d')];
    let collected = collect_committed_witnesses(&meta, &index, &witnesses).unwrap();
    assert_eq!(collected, vec!['c', 'a', 'd']);
    let missing = vec![Some('a'), None, None, Some('d')];
    assert_eq!(
        collect_committed_witnesses(&meta, &index, &missing).err(),
        Some(CommitMetaError::MissingWitness { id: 2 })
    );
}
