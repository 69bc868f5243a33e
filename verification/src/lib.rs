//! A structural merge engine: two values of the same shape are combined by
//! recursively merging their corresponding parts.
//!
//! The crate is organised around two capability contracts. [`Merge`] produces
//! a fresh value out of two read-only inputs; [`MergeMut`] folds a read-only
//! right-hand value into a mutable left-hand value. The containers get both
//! contracts with fixed semantics: sequences concatenate ([`collections`]),
//! sets unite ([`set`], [`ordset`]), maps unite their keys and merge the
//! values of shared keys recursively ([`map`], [`ordmap`]), an optional value
//! follows the four-way presence table and a result value the right-biased
//! error precedence ([`monad`]). The [`mergeable::Mergable`] wrapper attaches
//! a caller-chosen strategy to an otherwise foreign value, the [`structural`]
//! module carries the descriptor-driven, field-by-field merge for aggregate
//! values, and [`config`] is a small configuration-resolution example built
//! on all of it.

use vstd::prelude::*;

pub mod collections;
pub mod config;
pub mod key;
pub mod map;
pub mod mergeable;
pub mod monad;
pub mod ordmap;
pub mod ordset;
pub mod set;
pub mod structural;

verus! {

/// Why a merge could not be completed. Errors travel unchanged through every
/// containing level: an aggregate, a map value, an optional payload.
#[derive(Debug, PartialEq, Eq)]
pub enum MergeError {
    /// A value offers no default merge and its field names no strategy.
    NotMergeable,
    /// A caller-supplied strategy reported a failure, with its message.
    Strategy(String),
}

impl Clone for MergeError {
    /// An error clones to an equal error, so propagation never changes it.
    fn clone(&self) -> (res: Self)
        ensures
            res == *self,
    {
        match self {
            MergeError::NotMergeable => MergeError::NotMergeable,
            MergeError::Strategy(s) => MergeError::Strategy(s.clone()),
        }
    }
}

/// Produce-new merge capability: combine two read-only values of one type
/// into a freshly constructed value of that type, or report an error.
///
/// Each implementation states its semantics through two spec functions:
/// `merge_req` says which pairs of values may be merged at all, and
/// `merge_rel` relates the two inputs to every outcome the implementation
/// may produce, the error outcomes included.
pub trait Merge: Sized {
    /// When the two values may be handed to `merge`.
    spec fn merge_req(&self, other: &Self) -> bool;

    /// Which outcomes `merge` may produce for the two values.
    spec fn merge_rel(&self, other: &Self, out: Result<Self, MergeError>) -> bool;

    /// Merge two read-only values into a new one. The inputs are unchanged.
    fn merge(&self, other: &Self) -> (r: Result<Self, MergeError>)
        requires
            self.merge_req(other),
        ensures
            self.merge_rel(other, r),
    ;
}

/// In-place merge capability: fold a read-only right-hand value into an
/// exclusively owned left-hand value, or report an error. On an error the
/// left-hand value may already be partly updated; nothing is rolled back.
pub trait MergeMut: Sized {
    /// When the right-hand value may be folded into the left-hand one.
    spec fn merge_mut_req(&self, other: &Self) -> bool;

    /// How the updated left-hand value and the outcome relate to the inputs.
    spec fn merge_mut_rel(&self, other: &Self, next: Self, r: Result<(), MergeError>) -> bool;

    /// Fold `other` into `self`. `other` is never changed.
    fn merge_mut(&mut self, other: &Self) -> (r: Result<(), MergeError>)
        requires
            old(self).merge_mut_req(other),
        ensures
            old(self).merge_mut_rel(other, *final(self), r),
    ;
}

} // verus!
