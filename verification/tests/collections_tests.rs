use merge_rs::Merge;
use merge_rs::MergeMut;

#[test]
fn test_vec_merge_concatenates() {
    let left = vec![1usize, 2, 3];
    let right = vec![4usize, 5];
    let actual = left.merge(&right).unwrap();
    assert_eq!(actual, vec![1, 2, 3, 4, 5]);
}

#[test]
fn test_vec_merge_keeps_duplicates() {
    let left = vec![1usize, 2, 3, 4];
    let right = vec![3usize, 4, 5, 6];
    let actual = left.merge(&right).unwrap();
    assert_eq!(actual, vec![1, 2, 3, 4, 3, 4, 5, 6]);
}

#[test]
fn test_vec_merge_empty_sides() {
    let empty: Vec<usize> = Vec::new();
    assert_eq!(empty.merge(&vec![4usize, 5]).unwrap(), vec![4, 5]);
    assert_eq!(vec![1usize, 2].merge(&Vec::new()).unwrap(), vec![1, 2]);
    assert_eq!(empty.merge(&Vec::new()).unwrap(), Vec::<usize>::new());
}

#[test]
fn test_vec_merge_is_not_idempotent() {
    let v = vec![7usize];
    let actual = v.merge(&v).unwrap();
    assert_eq!(actual, vec![7, 7]);
    assert_ne!(actual, v);
}

#[test]
fn test_vec_merge_mut_appends_in_place() {
    let mut left = vec!["a".to_string(), "b".to_string()];
    let right = vec!["b".to_string(), "c".to_string()];
    left.merge_mut(&right).unwrap();
    assert_eq!(left, vec!["a", "b", "b", "c"]);
}
