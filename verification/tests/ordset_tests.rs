use merge_rs::Merge;
use merge_rs::MergeMut;
use merge_rs::ordset::OrdMergeSet;

fn ordset_of(items: &[u64]) -> OrdMergeSet<u64> {
    let mut s = OrdMergeSet::new();
    for x in items {
        s.insert(*x);
    }
    s
}

#[test]
fn test_ordset_merge_is_union_in_order() {
    let left = ordset_of(&[3, 1, 2]);
    let right = ordset_of(&[5, 3, 4]);
    let actual = left.merge(&right).unwrap();
    assert_eq!(actual.len(), 5);
    assert_eq!(actual.items(), &vec![1, 2, 3, 4, 5]);
}

#[test]
fn test_ordset_insert_keeps_order_and_dedups() {
    let s = ordset_of(&[4, 2, 4, 9, 2]);
    assert_eq!(s.items(), &vec![2, 4, 9]);
    assert!(s.contains(&9));
    assert!(!s.contains(&3));
}

#[test]
fn test_ordset_merge_mut_unions_in_place() {
    let mut left = ordset_of(&[1, 3]);
    let right = ordset_of(&[2, 3]);
    left.merge_mut(&right).unwrap();
    assert_eq!(left.items(), &vec![1, 2, 3]);
}

#[test]
fn test_ordset_merge_is_idempotent() {
    let s = ordset_of(&[7, 5]);
    let actual = s.merge(&s).unwrap();
    assert_eq!(actual.items(), &vec![5, 7]);
}
