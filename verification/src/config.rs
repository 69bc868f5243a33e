//! A small configuration-resolution example built on the library.
//!
//! Two option records merge field by field: a replica count adds up, a
//! timeout takes the larger value, and an optional prefix block resolves by
//! the optional-value table with a right-biased record merge inside. It shows
//! the wrapper, the strategy trait and the optional-value semantics composing.

use vstd::prelude::*;

use crate::Merge;
use crate::MergeError;
use crate::mergeable::Mergable;
use crate::mergeable::MergeStrategy;

verus! {

/// The sum of the two values.
pub fn add(lhs: &u32, rhs: &u32) -> (r: u32)
    requires
        *lhs + *rhs <= u32::MAX,
    ensures
        r == *lhs + *rhs,
{
    *lhs + *rhs
}

/// The larger of the two values.
pub fn max(lhs: &u32, rhs: &u32) -> (r: u32)
    ensures
        r == (if *lhs < *rhs {
            *rhs
        } else {
            *lhs
        }),
{
    if *lhs < *rhs {
        *rhs
    } else {
        *lhs
    }
}

/// Strategy that resolves two counts by adding them.
#[derive(Clone, Copy)]
pub struct AddStrategy;

impl MergeStrategy<u32> for AddStrategy {
    open spec fn combine_req(&self, a: &u32, b: &u32) -> bool {
        *a + *b <= u32::MAX
    }

    open spec fn combine_rel(&self, a: &u32, b: &u32, out: u32) -> bool {
        out == *a + *b
    }

    fn combine(&self, a: &u32, b: &u32) -> (r: u32) {
        crate::config::add(a, b)
    }
}

/// Strategy that resolves two values by keeping the larger.
#[derive(Clone, Copy)]
pub struct MaxStrategy;

impl MergeStrategy<u32> for MaxStrategy {
    open spec fn combine_req(&self, a: &u32, b: &u32) -> bool {
        true
    }

    open spec fn combine_rel(&self, a: &u32, b: &u32, out: u32) -> bool {
        out == (if *a < *b {
            *b
        } else {
            *a
        })
    }

    fn combine(&self, a: &u32, b: &u32) -> (r: u32) {
        crate::config::max(a, b)
    }
}

/// A pair of prefixes; on a merge the right-hand pair wins whole.
pub struct PrefixOpts {
    pub v1: String,
    pub v2: String,
}

impl PrefixOpts {
    /// Build a prefix pair from its two parts.
    pub fn new(v1: String, v2: String) -> (r: PrefixOpts)
        ensures
            r.v1 == v1,
            r.v2 == v2,
    {
        PrefixOpts { v1, v2 }
    }
}

impl Clone for PrefixOpts {
    /// A prefix pair clones to an equal pair.
    fn clone(&self) -> (res: Self)
        ensures
            res == *self,
    {
        PrefixOpts { v1: self.v1.clone(), v2: self.v2.clone() }
    }
}

/// Merge for the prefix pair: right bias, the right-hand value wins whole.
impl Merge for PrefixOpts {
    open spec fn merge_req(&self, other: &Self) -> bool {
        true
    }

    open spec fn merge_rel(&self, other: &Self, out: Result<Self, MergeError>) -> bool {
        out == Ok::<PrefixOpts, MergeError>(*other)
    }

    fn merge(&self, other: &Self) -> (r: Result<Self, MergeError>) {
        Ok(other.clone())
    }
}

/// Merging a value wrapped with the larger-value strategy with itself gives
/// the same inner value back: a max-style strategy is idempotent.
pub proof fn lemma_max_merge_idempotent(
    a: Mergable<u32, MaxStrategy>,
    m: Mergable<u32, MaxStrategy>,
)
    requires
        a.merge_rel(&a, Ok(m)),
    ensures
        m.spec_inner() == a.spec_inner(),
{
}

/// One set of options: a replica count that adds up across sources, a
/// timeout that keeps its largest value, and an optional prefix block.
pub struct Opts {
    pub replicas: Mergable<u32, AddStrategy>,
    pub max_timeout: Mergable<u32, MaxStrategy>,
    pub prefixes: Option<PrefixOpts>,
}

impl Opts {
    /// Build one set of options from plain values.
    pub fn new(replicas: u32, max_timeout: u32, prefixes: Option<PrefixOpts>) -> (r: Opts)
        ensures
            r.replicas.spec_inner() == replicas,
            r.max_timeout.spec_inner() == max_timeout,
            r.prefixes == prefixes,
    {
        Opts {
            replicas: Mergable::new(replicas, AddStrategy),
            max_timeout: Mergable::new(max_timeout, MaxStrategy),
            prefixes,
        }
    }
}

/// Merge for the options record: every field is merged independently by its
/// own semantics — the counts add up, the timeouts keep the larger value, and
/// the prefixes follow the optional-value table.
impl Merge for Opts {
    open spec fn merge_req(&self, other: &Self) -> bool {
        &&& self.replicas.merge_req(&other.replicas)
        &&& self.max_timeout.merge_req(&other.max_timeout)
        &&& self.prefixes.merge_req(&other.prefixes)
    }

    open spec fn merge_rel(&self, other: &Self, out: Result<Self, MergeError>) -> bool {
        match out {
            Ok(o) => {
                &&& self.replicas.merge_rel(&other.replicas, Ok(o.replicas))
                &&& self.max_timeout.merge_rel(&other.max_timeout, Ok(o.max_timeout))
                &&& self.prefixes.merge_rel(&other.prefixes, Ok(o.prefixes))
            },
            Err(_) => false,
        }
    }

    fn merge(&self, other: &Self) -> (r: Result<Self, MergeError>) {
        let replicas = match self.replicas.merge(&other.replicas) {
            Ok(v) => v,
            Err(e) => {
                return Err(e);
            },
        };
        let max_timeout = match self.max_timeout.merge(&other.max_timeout) {
            Ok(v) => v,
            Err(e) => {
                return Err(e);
            },
        };
        let prefixes = match self.prefixes.merge(&other.prefixes) {
            Ok(v) => v,
            Err(e) => {
                return Err(e);
            },
        };
        Ok(Opts { replicas, max_timeout, prefixes })
    }
}

} // verus!
