use merge_rs::Merge;
use merge_rs::MergeMut;
use merge_rs::config::AddStrategy;
use merge_rs::config::MaxStrategy;
use merge_rs::mergeable::Mergable;
use merge_rs::mergeable::MergeStrategy;

#[derive(Clone, Copy)]
struct KeepLeft;

impl MergeStrategy<u32> for KeepLeft {
    fn combine_req(&self, _: &u32, _: &u32) -> bool {
        true
    }

    fn combine_rel(&self, _: &u32, _: &u32, _: u32) -> bool {
        true
    }

    fn combine(&self, a: &u32, _: &u32) -> u32 {
        *a
    }
}

#[test]
fn test_mergable_merge_applies_the_strategy() {
    let left = Mergable::new(3u32, AddStrategy);
    let right = Mergable::new(9u32, AddStrategy);
    let merged = left.merge(&right).unwrap();
    assert_eq!(*merged.value(), 12);
}

#[test]
fn test_mergable_merge_keeps_the_left_strategy() {
    let left = Mergable::new(3u32, KeepLeft);
    let right = Mergable::new(9u32, KeepLeft);
    let merged = left.merge(&right).unwrap();
    let again = merged.merge(&Mergable::new(100u32, KeepLeft)).unwrap();
    assert_eq!(*again.value(), 3);
}

#[test]
fn test_mergable_merge_mut_overwrites_in_place() {
    let mut left = Mergable::new(30_000u32, MaxStrategy);
    let right = Mergable::new(90_000u32, MaxStrategy);
    left.merge_mut(&right).unwrap();
    assert_eq!(*left.value(), 90_000);
}

#[test]
fn test_mergable_max_is_idempotent() {
    let a = Mergable::new(42u32, MaxStrategy);
    let merged = a.merge(&a).unwrap();
    assert_eq!(*merged.value(), 42);
}

#[test]
fn test_mergable_forwards_arithmetic() {
    let a = Mergable::new(10u32, AddStrategy);
    let b = a.add(5);
    assert_eq!(*b.value(), 15);
    let c = b.sub(3);
    assert_eq!(*c.value(), 12);
    let d = c.mul(2);
    assert_eq!(*d.value(), 24);
    let e = d.div(5);
    assert_eq!(*e.value(), 4);
    let f = e.rem(3);
    assert_eq!(*f.value(), 1);
}

#[test]
fn test_mergable_forwards_bit_operations() {
    let a = Mergable::new(0b1100u32, AddStrategy);
    assert_eq!(*a.bit_and(0b1010).value(), 0b1000);
    let a = Mergable::new(0b1100u32, AddStrategy);
    assert_eq!(*a.bit_or(0b1010).value(), 0b1110);
    let a = Mergable::new(0b1100u32, AddStrategy);
    assert_eq!(*a.bit_xor(0b1010).value(), 0b0110);
    let a = Mergable::new(1u32, AddStrategy);
    assert_eq!(*a.shl(4).value(), 16);
    let a = Mergable::new(16u32, AddStrategy);
    assert_eq!(*a.shr(2).value(), 4);
    let a = Mergable::new(0u32, AddStrategy);
    assert_eq!(*a.bit_not().value(), u32::MAX);
}

#[test]
fn test_mergable_assign_forms_keep_the_strategy() {
    let mut a = Mergable::new(9u32, AddStrategy);
    a.sub_assign(6);
    assert_eq!(*a.value(), 3);
    a.add_assign(4);
    assert_eq!(*a.value(), 7);
    a.mul_assign(3);
    assert_eq!(*a.value(), 21);
    a.div_assign(2);
    assert_eq!(*a.value(), 10);
    a.rem_assign(4);
    assert_eq!(*a.value(), 2);
    a.shl_assign(3);
    assert_eq!(*a.value(), 16);
    a.shr_assign(1);
    assert_eq!(*a.value(), 8);
    a.bit_or_assign(0b11);
    assert_eq!(*a.value(), 0b1011);
    a.bit_and_assign(0b1001);
    assert_eq!(*a.value(), 0b1001);
    a.bit_xor_assign(0b1000);
    assert_eq!(*a.value(), 0b0001);
    let merged = a.merge(&Mergable::new(5u32, AddStrategy)).unwrap();
    assert_eq!(*merged.value(), 6);
}

#[test]
fn test_mergable_set_value_and_into_inner() {
    let mut a = Mergable::new(1u32, AddStrategy);
    a.set_value(41);
    assert_eq!(*a.value(), 41);
    let merged = a.merge(&Mergable::new(1u32, AddStrategy)).unwrap();
    assert_eq!(merged.into_inner(), 42);
}
