//! Keys for the set and map containers.
//!
//! A set element or a map key must offer two verified operations: an equality
//! test that decides spec-level equality, and an exact duplication
//! ([`MergeKey`]). The ordered containers additionally ask for a decidable
//! total order ([`SortedKey`]). The integer primitives get all of it for
//! free; a user type can join by implementing the traits with the same
//! contracts.

use vstd::prelude::*;

verus! {

/// A value that can serve as a set element or a map key: it can be compared
/// for equality and duplicated exactly.
pub trait MergeKey: Sized {
    /// Decide whether the two keys are equal.
    fn eq_key(&self, other: &Self) -> (r: bool)
        ensures
            r == (*self == *other),
    ;

    /// Produce a key equal to this one.
    fn dup_key(&self) -> (r: Self)
        ensures
            r == *self,
    ;
}

/// A key with a verified total order, for the sorted containers. The three
/// proof obligations make `le_spec` a total order that agrees with equality,
/// and `le_key` decides it.
pub trait SortedKey: MergeKey {
    /// The total order on keys.
    spec fn le_spec(self, other: Self) -> bool;

    /// The order relates every two keys.
    proof fn lemma_le_total(a: Self, b: Self)
        ensures
            a.le_spec(b) || b.le_spec(a),
    ;

    /// Two keys each below the other are one key.
    proof fn lemma_le_antisymmetric(a: Self, b: Self)
        requires
            a.le_spec(b),
            b.le_spec(a),
        ensures
            a == b,
    ;

    /// The order carries across a middle key.
    proof fn lemma_le_transitive(a: Self, b: Self, c: Self)
        requires
            a.le_spec(b),
            b.le_spec(c),
        ensures
            a.le_spec(c),
    ;

    /// Decide the order.
    fn le_key(&self, other: &Self) -> (r: bool)
        ensures
            r == self.le_spec(*other),
    ;
}

impl MergeKey for u8 {
    fn eq_key(&self, other: &Self) -> (r: bool)
        ensures
            r == (*self == *other),
    {
        *self == *other
    }

    fn dup_key(&self) -> (r: Self)
        ensures
            r == *self,
    {
        *self
    }
}

impl MergeKey for u32 {
    fn eq_key(&self, other: &Self) -> (r: bool)
        ensures
            r == (*self == *other),
    {
        *self == *other
    }

    fn dup_key(&self) -> (r: Self)
        ensures
            r == *self,
    {
        *self
    }
}

impl MergeKey for u64 {
    fn eq_key(&self, other: &Self) -> (r: bool)
        ensures
            r == (*self == *other),
    {
        *self == *other
    }

    fn dup_key(&self) -> (r: Self)
        ensures
            r == *self,
    {
        *self
    }
}

impl MergeKey for usize {
    fn eq_key(&self, other: &Self) -> (r: bool)
        ensures
            r == (*self == *other),
    {
        *self == *other
    }

    fn dup_key(&self) -> (r: Self)
        ensures
            r == *self,
    {
        *self
    }
}

impl MergeKey for i64 {
    fn eq_key(&self, other: &Self) -> (r: bool)
        ensures
            r == (*self == *other),
    {
        *self == *other
    }

    fn dup_key(&self) -> (r: Self)
        ensures
            r == *self,
    {
        *self
    }
}

impl SortedKey for u8 {
    open spec fn le_spec(self, other: Self) -> bool {
        self <= other
    }

    proof fn lemma_le_total(a: Self, b: Self) {
    }

    proof fn lemma_le_antisymmetric(a: Self, b: Self) {
    }

    proof fn lemma_le_transitive(a: Self, b: Self, c: Self) {
    }

    fn le_key(&self, other: &Self) -> (r: bool)
        ensures
            r == self.le_spec(*other),
    {
        *self <= *other
    }
}

impl SortedKey for u32 {
    open spec fn le_spec(self, other: Self) -> bool {
        self <= other
    }

    proof fn lemma_le_total(a: Self, b: Self) {
    }

    proof fn lemma_le_antisymmetric(a: Self, b: Self) {
    }

    proof fn lemma_le_transitive(a: Self, b: Self, c: Self) {
    }

    fn le_key(&self, other: &Self) -> (r: bool)
        ensures
            r == self.le_spec(*other),
    {
        *self <= *other
    }
}

impl SortedKey for u64 {
    open spec fn le_spec(self, other: Self) -> bool {
        self <= other
    }

    proof fn lemma_le_total(a: Self, b: Self) {
    }

    proof fn lemma_le_antisymmetric(a: Self, b: Self) {
    }

    proof fn lemma_le_transitive(a: Self, b: Self, c: Self) {
    }

    fn le_key(&self, other: &Self) -> (r: bool)
        ensures
            r == self.le_spec(*other),
    {
        *self <= *other
    }
}

impl SortedKey for usize {
    open spec fn le_spec(self, other: Self) -> bool {
        self <= other
    }

    proof fn lemma_le_total(a: Self, b: Self) {
    }

    proof fn lemma_le_antisymmetric(a: Self, b: Self) {
    }

    proof fn lemma_le_transitive(a: Self, b: Self, c: Self) {
    }

    fn le_key(&self, other: &Self) -> (r: bool)
        ensures
            r == self.le_spec(*other),
    {
        *self <= *other
    }
}

impl SortedKey for i64 {
    open spec fn le_spec(self, other: Self) -> bool {
        self <= other
    }

    proof fn lemma_le_total(a: Self, b: Self) {
    }

    proof fn lemma_le_antisymmetric(a: Self, b: Self) {
    }

    proof fn lemma_le_transitive(a: Self, b: Self, c: Self) {
    }

    fn le_key(&self, other: &Self) -> (r: bool)
        ensures
            r == self.le_spec(*other),
    {
        *self <= *other
    }
}

} // verus!
