use merge_rs::Merge;
use merge_rs::MergeError;
use merge_rs::MergeMut;
use merge_rs::ordmap::OrdMergeMap;

#[derive(Clone, Debug, PartialEq)]
struct Count(u64);

impl Merge for Count {
    fn merge_req(&self, _: &Self) -> bool {
        true
    }

    fn merge_rel(&self, _: &Self, _: Result<Self, MergeError>) -> bool {
        true
    }

    fn merge(&self, other: &Self) -> Result<Self, MergeError> {
        Ok(Count(self.0 + other.0))
    }
}

impl MergeMut for Count {
    fn merge_mut_req(&self, _: &Self) -> bool {
        true
    }

    fn merge_mut_rel(&self, _: &Self, _: Self, _: Result<(), MergeError>) -> bool {
        true
    }

    fn merge_mut(&mut self, other: &Self) -> Result<(), MergeError> {
        self.0 += other.0;
        Ok(())
    }
}

fn ordmap_of(entries: &[(u64, u64)]) -> OrdMergeMap<u64, Count> {
    let mut m = OrdMergeMap::new();
    for (k, v) in entries {
        m.insert(*k, Count(*v));
    }
    m
}

fn keys_in_order(m: &OrdMergeMap<u64, Count>) -> Vec<u64> {
    m.items().iter().map(|e| e.0).collect()
}

#[test]
fn test_ordmap_merge_unions_keys_in_order() {
    let left = ordmap_of(&[(3, 3), (1, 1), (2, 2)]);
    let right = ordmap_of(&[(4, 20), (3, 10)]);
    let actual = left.merge(&right).unwrap();
    assert_eq!(keys_in_order(&actual), vec![1, 2, 3, 4]);
    assert_eq!(actual.get(&1), Some(&Count(1)));
    assert_eq!(actual.get(&2), Some(&Count(2)));
    assert_eq!(actual.get(&3), Some(&Count(13)));
    assert_eq!(actual.get(&4), Some(&Count(20)));
}

#[test]
fn test_ordmap_insert_keeps_order_and_replaces() {
    let m = ordmap_of(&[(9, 90), (2, 20), (9, 91), (4, 40)]);
    assert_eq!(m.len(), 3);
    assert_eq!(keys_in_order(&m), vec![2, 4, 9]);
    assert_eq!(m.get(&9), Some(&Count(91)));
    assert_eq!(m.get(&7), None);
}

#[test]
fn test_ordmap_merge_mut_recursive_and_insert_in_order() {
    let mut left = ordmap_of(&[(1, 1), (3, 3)]);
    let right = ordmap_of(&[(3, 10), (2, 20)]);
    left.merge_mut(&right).unwrap();
    assert_eq!(keys_in_order(&left), vec![1, 2, 3]);
    assert_eq!(left.get(&1), Some(&Count(1)));
    assert_eq!(left.get(&2), Some(&Count(20)));
    assert_eq!(left.get(&3), Some(&Count(13)));
}
