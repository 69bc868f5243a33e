//! Merge semantics for the built-in containers.
//!
//! A sequence merges by concatenation: every element of the left-hand value,
//! in order, followed by every element of the right-hand value, in order,
//! duplicates retained. The set and map containers live in their own modules
//! ([`crate::set`], [`crate::map`]); a sequence never fails to merge.

use vstd::prelude::*;

use crate::Merge;
use crate::MergeError;
use crate::MergeMut;
use vstd::pervasive::cloned;

verus! {

/// What a merged sequence holds: the left-hand elements followed by the
/// right-hand elements, each fresh position holding a clone of the element it
/// stands for. For an element type whose `clone` is exact this pins the
/// merged sequence to the concatenation itself.
pub open spec fn seq_concat_cloned<T: Clone>(left: Seq<T>, right: Seq<T>, out: Seq<T>) -> bool {
    &&& out.len() == left.len() + right.len()
    &&& forall|i: int| 0 <= i < left.len() ==> cloned::<T>(left[i], #[trigger] out[i])
    &&& forall|i: int|
        left.len() <= i < out.len() ==> cloned::<T>(right[i - left.len()], #[trigger] out[i])
}

/// Merge for a sequence: concatenation, duplicates retained, never failing.
impl<T: Clone> Merge for Vec<T> {
    open spec fn merge_req(&self, other: &Self) -> bool {
        true
    }

    open spec fn merge_rel(&self, other: &Self, out: Result<Self, MergeError>) -> bool {
        match out {
            Ok(v) => seq_concat_cloned(self@, other@, v@),
            Err(_) => false,
        }
    }

    fn merge(&self, other: &Self) -> (r: Result<Self, MergeError>) {
        let mut res = self.clone();
        match res.merge_mut(other) {
            Ok(()) => Ok(res),
            Err(e) => Err(e),
        }
    }
}

/// In-place merge for a sequence: the right-hand elements are appended, and
/// the elements already present are left exactly as they were.
impl<T: Clone> MergeMut for Vec<T> {
    open spec fn merge_mut_req(&self, other: &Self) -> bool {
        true
    }

    open spec fn merge_mut_rel(&self, other: &Self, next: Self, r: Result<(), MergeError>) -> bool {
        &&& r is Ok
        &&& next@.len() == self@.len() + other@.len()
        &&& forall|i: int| 0 <= i < self@.len() ==> next@[i] == self@[i]
        &&& forall|i: int|
            self@.len() <= i < next@.len() ==> cloned::<T>(
                other@[i - self@.len()],
                #[trigger] next@[i],
            )
    }

    fn merge_mut(&mut self, other: &Self) -> (r: Result<(), MergeError>) {
        self.extend_from_slice(other.as_slice());
        Ok(())
    }
}

/// For all sequences, the merged sequence's length is the sum of the two
/// input lengths, and whenever the element type's `clone` is exact the merged
/// sequence is exactly the left-hand elements followed by the right-hand
/// elements, duplicates retained.
pub proof fn lemma_seq_merge_concat<T: Clone>(left: Seq<T>, right: Seq<T>, out: Seq<T>)
    requires
        seq_concat_cloned(left, right, out),
        forall|a: T, b: T| cloned::<T>(a, b) ==> a == b,
    ensures
        out.len() == left.len() + right.len(),
        out == left + right,
{
    assert(out =~= left + right);
}

/// Merging a sequence with itself doubles it; concatenation is not
/// idempotent as soon as the sequence is non-empty.
pub proof fn lemma_seq_merge_not_idempotent<T: Clone>(s: Seq<T>, out: Seq<T>)
    requires
        seq_concat_cloned(s, s, out),
        s.len() > 0,
    ensures
        out.len() != s.len(),
{
}

} // verus!
