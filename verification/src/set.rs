//! A set container whose merge is union.
//!
//! The set is stored as a duplicate-free list of elements and abstracts to a
//! mathematical `Set`. Merging two sets, in either contract, produces exactly
//! the union of their elements: an element present in both appears once, and
//! no iteration order is promised.

use vstd::prelude::*;

use crate::Merge;
use crate::MergeError;
use crate::MergeMut;
use crate::key::MergeKey;

verus! {

/// A set of keys; merging two sets takes their union and never fails.
pub struct MergeSet<T: MergeKey> {
    items: Vec<T>,
}

impl<T: MergeKey> View for MergeSet<T> {
    type V = Set<T>;

    closed spec fn view(&self) -> Set<T> {
        self.items@.to_set()
    }
}

/// Pushing a fresh element keeps a sequence duplicate-free.
proof fn lemma_push_keeps_no_duplicates<T>(s: Seq<T>, x: T)
    requires
        s.no_duplicates(),
        !s.contains(x),
    ensures
        s.push(x).no_duplicates(),
{
    let t = s.push(x);
    assert forall|i: int, j: int| 0 <= i < j < t.len() implies t[i] != t[j] by {
        if j == s.len() {
            assert(s[i] == t[i]);
            assert(!s.contains(x));
        }
    }
}

/// Scan a list for an element equal to `x`.
pub(crate) fn list_contains<T: MergeKey>(items: &Vec<T>, x: &T) -> (r: bool)
    ensures
        r == items@.contains(*x),
{
    let mut i: usize = 0;
    while i < items.len()
        invariant
            i <= items.len(),
            forall|j: int| 0 <= j < i ==> items@[j] != *x,
        decreases items.len() - i,
    {
        if items[i].eq_key(x) {
            return true;
        }
        i += 1;
    }
    false
}

/// Duplicate a list of keys exactly.
pub(crate) fn dup_list<T: MergeKey>(items: &Vec<T>) -> (r: Vec<T>)
    ensures
        r@ == items@,
{
    let mut out: Vec<T> = Vec::new();
    let mut i: usize = 0;
    while i < items.len()
        invariant
            i <= items.len(),
            out@ == items@.subrange(0, i as int),
        decreases items.len() - i,
    {
        out.push(items[i].dup_key());
        proof {
            assert(out@ =~= items@.subrange(0, i + 1 as int));
        }
        i += 1;
    }
    proof {
        assert(out@ =~= items@);
    }
    out
}

impl<T: MergeKey> MergeSet<T> {
    /// The elements hold no duplicate; constructors establish this and every
    /// operation preserves it.
    pub closed spec fn wf(self) -> bool {
        self.items@.no_duplicates()
    }

    /// An empty set.
    pub fn new() -> (s: Self)
        ensures
            s.wf(),
            s@ == Set::<T>::empty(),
    {
        let s = MergeSet { items: Vec::new() };
        proof {
            assert(s.items@.to_set() =~= Set::<T>::empty());
        }
        s
    }

    /// Add one element; adding an element already present changes nothing.
    pub fn insert(&mut self, x: T)
        requires
            old(self).wf(),
        ensures
            final(self).wf(),
            final(self)@ == old(self)@.insert(x),
    {
        let present = list_contains(&self.items, &x);
        if !present {
            proof {
                lemma_push_keeps_no_duplicates(self.items@, x);
                self.items@.lemma_push_to_set_commute(x);
            }
            self.items.push(x);
        } else {
            proof {
                assert(old(self)@.insert(x) =~= old(self)@);
            }
        }
    }

    /// Whether the set holds `x`.
    pub fn contains(&self, x: &T) -> (r: bool)
        ensures
            r == self@.contains(*x),
    {
        list_contains(&self.items, x)
    }

    /// How many elements the set holds.
    pub fn len(&self) -> (n: usize)
        requires
            self.wf(),
        ensures
            n == self@.len(),
    {
        proof {
            self.items@.unique_seq_to_set();
        }
        self.items.len()
    }

    /// The elements as a duplicate-free list; no order is promised.
    pub fn items(&self) -> (r: &Vec<T>)
        requires
            self.wf(),
        ensures
            r@.no_duplicates(),
            r@.to_set() == self@,
    {
        &self.items
    }
}

/// Merge for a set: the union of the two sets' elements, an element present
/// in both appearing once. Never fails; neither input is changed.
impl<T: MergeKey> Merge for MergeSet<T> {
    open spec fn merge_req(&self, other: &Self) -> bool {
        self.wf() && other.wf()
    }

    open spec fn merge_rel(&self, other: &Self, out: Result<Self, MergeError>) -> bool {
        match out {
            Ok(s) => s.wf() && s@ == self@.union(other@),
            Err(_) => false,
        }
    }

    fn merge(&self, other: &Self) -> (r: Result<Self, MergeError>) {
        let mut res = MergeSet { items: dup_list(&self.items) };
        match res.merge_mut(other) {
            Ok(()) => Ok(res),
            Err(e) => Err(e),
        }
    }
}

/// In-place merge for a set: every right-hand element missing on the left is
/// added; the left-hand set becomes the union. Never fails.
impl<T: MergeKey> MergeMut for MergeSet<T> {
    open spec fn merge_mut_req(&self, other: &Self) -> bool {
        self.wf() && other.wf()
    }

    open spec fn merge_mut_rel(&self, other: &Self, next: Self, r: Result<(), MergeError>) -> bool {
        &&& r is Ok
        &&& next.wf()
        &&& next@ == self@.union(other@)
    }

    fn merge_mut(&mut self, other: &Self) -> (r: Result<(), MergeError>) {
        let mut j: usize = 0;
        while j < other.items.len()
            invariant
                old(self).wf(),
                other.wf(),
                self.wf(),
                j <= other.items.len(),
                self@ == old(self)@.union(other.items@.subrange(0, j as int).to_set()),
            decreases other.items.len() - j,
        {
            let ghost prefix = other.items@.subrange(0, j as int);
            let ghost next_elt = other.items@[j as int];
            proof {
                assert(other.items@.subrange(0, j + 1 as int) =~= prefix.push(next_elt));
                prefix.lemma_push_to_set_commute(next_elt);
            }
            let present = list_contains(&self.items, &other.items[j]);
            if !present {
                proof {
                    lemma_push_keeps_no_duplicates(self.items@, other.items@[j as int]);
                    self.items@.lemma_push_to_set_commute(other.items@[j as int]);
                }
                self.items.push(other.items[j].dup_key());
                proof {
                    assert(self@ =~= old(self)@.union(
                        other.items@.subrange(0, j + 1 as int).to_set(),
                    ));
                }
            } else {
                proof {
                    assert(self@ =~= old(self)@.union(
                        other.items@.subrange(0, j + 1 as int).to_set(),
                    ));
                }
            }
            j += 1;
        }
        proof {
            assert(other.items@.subrange(0, other.items@.len() as int) =~= other.items@);
        }
        Ok(())
    }
}

/// For all sets, an element is in the merged set exactly when it is in one of
/// the two inputs: the merge is the union of their elements.
pub proof fn lemma_set_merge_members<T>(a: Set<T>, b: Set<T>, out: Set<T>)
    requires
        out == a.union(b),
    ensures
        forall|x: T| out.contains(x) <==> a.contains(x) || b.contains(x),
{
}

/// Merging a set with itself gives the set back: union is idempotent.
pub proof fn lemma_set_merge_idempotent<T>(a: Set<T>, out: Set<T>)
    requires
        out == a.union(a),
    ensures
        out == a,
{
    assert(a.union(a) =~= a);
}

} // verus!
