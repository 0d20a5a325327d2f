use duplicate_finder::grouping::{
    full_hash_candidates, group_files_by_full_hash, group_files_by_partial_hash, group_files_by_size,
};
use duplicate_finder::ranking::{size_order, sort_duplicates_by_size};

#[test]
fn size_groups_keep_shared_sizes_only() {
    let files = vec![
        ("a", Some(10u64)),
        ("b", Some(20)),
        ("c", Some(10)),
        ("d", None),
        ("e", Some(30)),
        ("f", Some(20)),
        ("g", Some(10)),
    ];
    let groups = group_files_by_size(files);
    assert_eq!(groups, vec![(10, vec!["a", "c", "g"]), (20, vec!["b", "f"])]);
}

#[test]
fn size_groups_of_distinct_sizes_are_empty() {
    let files = vec![("a", Some(1u64)), ("b", Some(2)), ("c", None), ("d", None)];
    assert!(group_files_by_size(files).is_empty());
}

#[test]
fn unreadable_sizes_are_skipped() {
    let files = vec![("a", None), ("b", Some(5u64)), ("c", None), ("d", Some(5))];
    assert_eq!(group_files_by_size(files), vec![(5, vec!["b", "d"])]);
}

#[test]
fn partial_groups_split_by_digest_and_keep_singletons() {
    let by_size = vec![
        (10u64, vec![("a", Some(1u128)), ("b", Some(2)), ("c", Some(1)), ("x", None)]),
        (20u64, vec![("d", Some(1u128)), ("e", Some(1))]),
    ];
    let groups = group_files_by_partial_hash(by_size);
    assert_eq!(
        groups,
        vec![((10, 1), vec!["a", "c"]), ((10, 2), vec!["b"]), ((20, 1), vec!["d", "e"])]
    );
}

#[test]
fn candidates_skip_singleton_groups() {
    let groups = vec![((10u64, 1u128), vec!["a", "c"]), ((10, 2), vec!["b"]), ((20, 1), vec!["d", "e"])];
    assert_eq!(full_hash_candidates(groups), vec!["a", "c", "d", "e"]);
}

#[test]
fn full_groups_keep_shared_digests_only() {
    let hashed = vec![("a", Some(7u128)), ("c", Some(8)), ("d", Some(7)), ("e", None), ("f", Some(7))];
    assert_eq!(group_files_by_full_hash(hashed), vec![(7, vec!["a", "d", "f"])]);
}

#[test]
fn sort_by_size_is_descending_and_stable() {
    let sizes = vec![5u64, 9, 5, 1, 9];
    assert_eq!(size_order(&sizes), vec![1, 4, 0, 2, 3]);
    let groups = vec!["g0", "g1", "g2", "g3", "g4"];
    assert_eq!(sort_duplicates_by_size(groups, &sizes), vec!["g1", "g4", "g0", "g2", "g3"]);
}

#[test]
fn sort_of_nothing_is_nothing() {
    let groups: Vec<&str> = Vec::new();
    assert!(sort_duplicates_by_size(groups, &Vec::new()).is_empty());
}

#[test]
fn files_of_equal_size_are_reported_together() {
    let files: Vec<(u32, Option<u64>)> = (0..20).map(|i| (i, Some((i % 3) as u64))).collect();
    let groups = group_files_by_size(files);
    assert_eq!(groups.len(), 3);
    for (size, members) in &groups {
        assert!(members.iter().all(|m| (*m % 3) as u64 == *size));
    }
    let total: usize = groups.iter().map(|g| g.1.len()).sum();
    assert_eq!(total, 20);
}
