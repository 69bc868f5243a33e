use merge_rs::Merge;
use merge_rs::MergeError;
use merge_rs::MergeMut;
use merge_rs::map::MergeMap;
use merge_rs::set::MergeSet;

#[derive(Clone, Debug, PartialEq)]
struct Count(u64);

impl Merge for Count {
    fn merge_req(&self, _: &Self) -> bool {
        true
    }

    fn merge_rel(&self, _: &Self, _: Result<Self, MergeError>) -> bool {
        true
    }

    fn merge(&self, other: &Self) -> Result<Self, MergeError> {
        Ok(Count(self.0 + other.0))
    }
}

impl MergeMut for Count {
    fn merge_mut_req(&self, _: &Self) -> bool {
        true
    }

    fn merge_mut_rel(&self, _: &Self, _: Self, _: Result<(), MergeError>) -> bool {
        true
    }

    fn merge_mut(&mut self, other: &Self) -> Result<(), MergeError> {
        self.0 += other.0;
        Ok(())
    }
}

#[derive(Clone, Debug, PartialEq)]
struct Explosive;

impl Merge for Explosive {
    fn merge_req(&self, _: &Self) -> bool {
        true
    }

    fn merge_rel(&self, _: &Self, _: Result<Self, MergeError>) -> bool {
        true
    }

    fn merge(&self, _: &Self) -> Result<Self, MergeError> {
        Err(MergeError::Strategy("explosive".to_string()))
    }
}

fn set_of(items: &[u64]) -> MergeSet<u64> {
    let mut s = MergeSet::new();
    for x in items {
        s.insert(*x);
    }
    s
}

#[test]
fn test_set_merge_is_union() {
    let left = set_of(&[1, 2, 3]);
    let right = set_of(&[3, 4, 5]);
    let actual = left.merge(&right).unwrap();
    assert_eq!(actual.len(), 5);
    for x in [1u64, 2, 3, 4, 5] {
        assert!(actual.contains(&x));
    }
    assert!(!actual.contains(&6));
}

#[test]
fn test_set_merge_empty_sides() {
    let empty: MergeSet<u64> = MergeSet::new();
    let some = set_of(&[4, 5]);
    let actual = empty.merge(&some).unwrap();
    assert_eq!(actual.len(), 2);
    assert!(actual.contains(&4) && actual.contains(&5));
    let actual = some.merge(&MergeSet::new()).unwrap();
    assert_eq!(actual.len(), 2);
    let actual = empty.merge(&MergeSet::new()).unwrap();
    assert_eq!(actual.len(), 0);
}

#[test]
fn test_set_merge_is_idempotent() {
    let s = set_of(&[1, 2, 3]);
    let actual = s.merge(&s).unwrap();
    assert_eq!(actual.len(), 3);
    for x in [1u64, 2, 3] {
        assert!(actual.contains(&x));
    }
}

#[test]
fn test_set_merge_mut_unions_in_place() {
    let mut left = set_of(&[1, 2, 3]);
    let right = set_of(&[2, 3, 4]);
    left.merge_mut(&right).unwrap();
    assert_eq!(left.len(), 4);
    for x in [1u64, 2, 3, 4] {
        assert!(left.contains(&x));
    }
}

fn map_of(entries: &[(u64, u64)]) -> MergeMap<u64, Count> {
    let mut m = MergeMap::new();
    for (k, v) in entries {
        m.insert(*k, Count(*v));
    }
    m
}

#[test]
fn test_map_merge_unions_keys_and_sums_shared_values() {
    let left = map_of(&[(1, 1), (2, 2), (3, 3)]);
    let right = map_of(&[(3, 10), (4, 20)]);
    let actual = left.merge(&right).unwrap();
    assert_eq!(actual.len(), 4);
    assert_eq!(actual.get(&1), Some(&Count(1)));
    assert_eq!(actual.get(&2), Some(&Count(2)));
    assert_eq!(actual.get(&3), Some(&Count(13)));
    assert_eq!(actual.get(&4), Some(&Count(20)));
    assert_eq!(actual.get(&5), None);
}

#[test]
fn test_map_merge_no_overlapping_keys() {
    let left = map_of(&[(1, 1), (2, 2)]);
    let right = map_of(&[(3, 1), (4, 2)]);
    let actual = left.merge(&right).unwrap();
    assert_eq!(actual.len(), 4);
    assert_eq!(actual.get(&1), Some(&Count(1)));
    assert_eq!(actual.get(&4), Some(&Count(2)));
}

#[test]
fn test_map_merge_empty_sides() {
    let empty: MergeMap<u64, Count> = MergeMap::new();
    let some = map_of(&[(7, 70)]);
    let actual = empty.merge(&some).unwrap();
    assert_eq!(actual.get(&7), Some(&Count(70)));
    let actual = some.merge(&MergeMap::new()).unwrap();
    assert_eq!(actual.get(&7), Some(&Count(70)));
    assert_eq!(actual.len(), 1);
}

#[test]
fn test_map_merge_mut_recursive_and_insert() {
    let mut left = map_of(&[(1, 1), (3, 3)]);
    let right = map_of(&[(3, 10), (4, 20)]);
    left.merge_mut(&right).unwrap();
    assert_eq!(left.len(), 3);
    assert_eq!(left.get(&1), Some(&Count(1)));
    assert_eq!(left.get(&3), Some(&Count(13)));
    assert_eq!(left.get(&4), Some(&Count(20)));
}

#[test]
fn test_map_merge_propagates_value_error() {
    let mut left: MergeMap<u64, Explosive> = MergeMap::new();
    left.insert(1, Explosive);
    let mut right: MergeMap<u64, Explosive> = MergeMap::new();
    right.insert(1, Explosive);
    let actual = left.merge(&right);
    assert!(matches!(actual, Err(MergeError::Strategy(s)) if s == "explosive"));
}

#[test]
fn test_map_insert_replaces_value() {
    let mut m: MergeMap<u64, Count> = MergeMap::new();
    m.insert(1, Count(1));
    m.insert(1, Count(5));
    assert_eq!(m.len(), 1);
    assert_eq!(m.get(&1), Some(&Count(5)));
}
