//! Merge semantics for the two standard sum types.
//!
//! An optional value merges by the four-way presence table; a result value
//! merges with right-biased error precedence. In both cases a present pair of
//! payloads is merged recursively, and a failure of that inner merge
//! propagates unchanged.

use vstd::prelude::*;

use crate::Merge;
use crate::MergeError;
use vstd::pervasive::cloned;

verus! {

/// Merge for an optional value:
///
/// | left    | right   | result                 |
/// |---------|---------|------------------------|
/// | None    | None    | None                   |
/// | Some(a) | None    | Some(a), a unchanged   |
/// | None    | Some(b) | Some(b), b unchanged   |
/// | Some(a) | Some(b) | Some(a merged with b)  |
///
/// Only in the last row is the payloads' own merge invoked, and its error is
/// the whole merge's error.
impl<T: Merge + Clone> Merge for Option<T> {
    open spec fn merge_req(&self, other: &Self) -> bool {
        match (*self, *other) {
            (Some(a), Some(b)) => a.merge_req(&b),
            _ => true,
        }
    }

    open spec fn merge_rel(&self, other: &Self, out: Result<Self, MergeError>) -> bool {
        match (*self, *other) {
            (Some(a), Some(b)) => match out {
                Ok(Some(c)) => a.merge_rel(&b, Ok(c)),
                Ok(None) => false,
                Err(e) => a.merge_rel(&b, Err(e)),
            },
            (Some(a), None) => match out {
                Ok(Some(c)) => cloned::<T>(a, c),
                _ => false,
            },
            (None, Some(b)) => match out {
                Ok(Some(c)) => cloned::<T>(b, c),
                _ => false,
            },
            (None, None) => out == Ok::<Option<T>, MergeError>(None),
        }
    }

    fn merge(&self, other: &Self) -> (r: Result<Self, MergeError>) {
        match (self, other) {
            (Some(a), Some(b)) => match a.merge(b) {
                Ok(c) => Ok(Some(c)),
                Err(e) => Err(e),
            },
            (Some(a), None) => Ok(Some(a.clone())),
            (None, Some(b)) => Ok(Some(b.clone())),
            (None, None) => Ok(None),
        }
    }
}

/// Merge for a result value, with right-biased error precedence: a right-hand
/// error wins over everything, even a left-hand error; otherwise a left-hand
/// error wins over a left-hand payload; only two ok payloads are merged
/// recursively, and that inner merge's failure propagates unchanged.
impl<T: Merge + Clone, E: Merge + Clone> Merge for Result<T, E> {
    open spec fn merge_req(&self, other: &Self) -> bool {
        match (*self, *other) {
            (Ok(a), Ok(b)) => a.merge_req(&b),
            _ => true,
        }
    }

    open spec fn merge_rel(&self, other: &Self, out: Result<Self, MergeError>) -> bool {
        match (*self, *other) {
            (_, Err(eb)) => match out {
                Ok(Err(e)) => cloned::<E>(eb, e),
                _ => false,
            },
            (Err(ea), _) => match out {
                Ok(Err(e)) => cloned::<E>(ea, e),
                _ => false,
            },
            (Ok(a), Ok(b)) => match out {
                Ok(Ok(c)) => a.merge_rel(&b, Ok(c)),
                Ok(Err(_)) => false,
                Err(e) => a.merge_rel(&b, Err(e)),
            },
        }
    }

    fn merge(&self, other: &Self) -> (r: Result<Self, MergeError>) {
        match (self, other) {
            (_, Err(eb)) => Ok(Err(eb.clone())),
            (Err(ea), _) => Ok(Err(ea.clone())),
            (Ok(a), Ok(b)) => match a.merge(b) {
                Ok(c) => Ok(Ok(c)),
                Err(e) => Err(e),
            },
        }
    }
}

} // verus!
