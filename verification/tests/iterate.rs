use near_store::iterate::{iter_read_options, key_range, rocksdb_read_options, KeyRange, ReadOptions};

#[test]
fn reads_skip_checksums() {
    let all =
        ReadOptions { verify_checksums: false, prefix: None, lower_bound: None, upper_bound: None };
    assert_eq!(rocksdb_read_options(), all);
    assert_eq!(iter_read_options(None, None, None), all);
}

#[test]
fn iterations_keep_their_bounds() {
    let options = iter_read_options(None, Some(&[1, 2]), Some(&[3]));
    assert!(!options.verify_checksums);
    assert_eq!(options.prefix, None);
    assert_eq!(options.lower_bound, Some(vec![1, 2]));
    assert_eq!(options.upper_bound, Some(vec![3]));

    let options = iter_read_options(None, None, Some(&[]));
    assert_eq!(options.lower_bound, None);
    assert_eq!(options.upper_bound, Some(vec![]));
}

#[test]
fn iterations_keep_their_prefix() {
    let options = iter_read_options(Some(&[9, 9]), None, None);
    assert_eq!(options.prefix, Some(vec![9, 9]));
    assert_eq!(options.lower_bound, None);
    assert_eq!(options.upper_bound, None);
}

#[test]
fn a_range_has_both_ends_or_is_none() {
    assert_eq!(
        key_range(Some(vec![1]), Some(vec![7, 7])),
        Some(KeyRange { start: vec![1], end: vec![7, 7] })
    );
    assert_eq!(
        key_range(Some(vec![]), Some(vec![])),
        Some(KeyRange { start: vec![], end: vec![] })
    );
    assert_eq!(key_range(None, None), None);
}
