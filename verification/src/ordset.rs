//! The totally-ordered set variant.
//!
//! Like [`crate::set::MergeSet`], this set merges by union; in addition it
//! keeps its elements in strictly increasing key order, so an enumeration
//! always reads out sorted. It asks its element type for a verified total
//! order through [`crate::key::SortedKey`].

use vstd::prelude::*;

use crate::Merge;
use crate::MergeError;
use crate::MergeMut;
use crate::key::MergeKey;
use crate::key::SortedKey;
use crate::set::dup_list;

verus! {

/// A set of keys kept in strictly increasing order; merging two sets takes
/// their union and never fails.
pub struct OrdMergeSet<T: SortedKey> {
    items: Vec<T>,
}

/// Whether a sequence is strictly increasing: every earlier element is below
/// every later one, and no element repeats.
pub open spec fn strictly_sorted<T: SortedKey>(s: Seq<T>) -> bool {
    forall|i: int, j: int|
        #![trigger s[i], s[j]]
        0 <= i < j < s.len() ==> s[i].le_spec(s[j]) && s[i] != s[j]
}

/// A strictly increasing sequence holds no duplicate.
proof fn lemma_sorted_no_duplicates<T: SortedKey>(s: Seq<T>)
    requires
        strictly_sorted(s),
    ensures
        s.no_duplicates(),
{
    assert forall|i: int, j: int|
        0 <= i < s.len() && 0 <= j < s.len() && i != j implies s[i] != s[j] by {
        if i < j {
            assert(s[i].le_spec(s[j]) && s[i] != s[j]);
        } else {
            assert(s[j].le_spec(s[i]) && s[j] != s[i]);
        }
    }
}

impl<T: SortedKey> View for OrdMergeSet<T> {
    type V = Set<T>;

    closed spec fn view(&self) -> Set<T> {
        self.items@.to_set()
    }
}

impl<T: SortedKey> OrdMergeSet<T> {
    /// The elements are strictly increasing; constructors establish this and
    /// every operation preserves it.
    pub closed spec fn wf(self) -> bool {
        strictly_sorted(self.items@)
    }

    /// An empty set.
    pub fn new() -> (s: Self)
        ensures
            s.wf(),
            s@ == Set::<T>::empty(),
    {
        let s = OrdMergeSet { items: Vec::new() };
        proof {
            assert(s.items@.to_set() =~= Set::<T>::empty());
        }
        s
    }

    /// Add one element at its place in the order; adding an element already
    /// present changes nothing.
    pub fn insert(&mut self, x: T)
        requires
            old(self).wf(),
        ensures
            final(self).wf(),
            final(self)@ == old(self)@.insert(x),
    {
        let ghost s0 = self.items@;
        let mut p: usize = 0;
        while p < self.items.len() && self.items[p].le_key(&x) && !self.items[p].eq_key(&x)
            invariant
                self.items@ == s0,
                strictly_sorted(s0),
                p <= s0.len(),
                forall|i: int| 0 <= i < p ==> (#[trigger] s0[i]).le_spec(x) && s0[i] != x,
            decreases self.items.len() - p,
        {
            p += 1;
        }
        let present = p < self.items.len() && self.items[p].eq_key(&x);
        if present {
            proof {
                assert(s0.to_set().contains(x)) by {
                    assert(s0[p as int] == x);
                }
                assert(old(self)@.insert(x) =~= old(self)@);
            }
        } else {
            proof {
                if (p as int) < s0.len() {
                    assert(!(s0[p as int].le_spec(x) && s0[p as int] != x));
                    assert(s0[p as int] != x);
                    T::lemma_le_total(s0[p as int], x);
                    assert(x.le_spec(s0[p as int]));
                }
            }
            self.items.insert(p, x);
            proof {
                let s1 = self.items@;
                assert(s1 == s0.insert(p as int, x));
                assert(s1.len() == s0.len() + 1);
                assert forall|k: int| 0 <= k < s1.len() implies s1[k] == (if k < p {
                    s0[k]
                } else if k == p {
                    x
                } else {
                    s0[k - 1]
                }) by {}
                assert forall|i: int, j: int|
                    #![trigger s1[i], s1[j]]
                    0 <= i < j < s1.len() implies s1[i].le_spec(s1[j]) && s1[i] != s1[j] by {
                    if i < p && j < p {
                    } else if j == p {
                        assert(s1[i] == s0[i]);
                    } else if i == p {
                        assert(s1[j] == s0[j - 1]);
                        assert(j - 1 >= p);
                        if j - 1 > p {
                            T::lemma_le_transitive(x, s0[p as int], s0[j - 1]);
                            if x == s0[j - 1] {
                                T::lemma_le_antisymmetric(x, s0[p as int]);
                            }
                        }
                    } else if i > p && j > p {
                        assert(s1[i] == s0[i - 1]);
                        assert(s1[j] == s0[j - 1]);
                    } else {
                        assert(i < p && j > p);
                        assert(s1[i] == s0[i]);
                        assert(s1[j] == s0[j - 1]);
                        if i == j - 1 {
                            assert(false);
                        }
                    }
                }
                assert forall|a: T| #[trigger] s1.to_set().contains(a) implies s0.to_set().contains(
                    a,
                ) || a == x by {
                    let t = choose|t: int| 0 <= t < s1.len() && s1[t] == a;
                    if t != p {
                        if t < p {
                            assert(s0[t] == a);
                        } else {
                            assert(s0[t - 1] == a);
                        }
                    }
                }
                assert forall|a: T|
                    s0.to_set().contains(a) || a == x implies s1.to_set().contains(a) by {
                    if a == x {
                        assert(s1[p as int] == a);
                    } else {
                        let t = choose|t: int| 0 <= t < s0.len() && s0[t] == a;
                        if t < p {
                            assert(s1[t] == a);
                        } else {
                            assert(s1[t + 1] == a);
                        }
                    }
                }
                assert(final(self)@ =~= old(self)@.insert(x));
            }
        }
    }

    /// Whether the set holds `x`.
    pub fn contains(&self, x: &T) -> (r: bool)
        ensures
            r == self@.contains(*x),
    {
        crate::set::list_contains(&self.items, x)
    }

    /// How many elements the set holds.
    pub fn len(&self) -> (n: usize)
        requires
            self.wf(),
        ensures
            n == self@.len(),
    {
        proof {
            lemma_sorted_no_duplicates(self.items@);
            self.items@.unique_seq_to_set();
        }
        self.items.len()
    }

    /// The elements in strictly increasing order.
    pub fn items(&self) -> (r: &Vec<T>)
        requires
            self.wf(),
        ensures
            strictly_sorted(r@),
            r@.to_set() == self@,
    {
        &self.items
    }
}

/// Merge for the ordered set: the union of the two sets' elements, kept in
/// strictly increasing order. Never fails; neither input is changed.
impl<T: SortedKey> Merge for OrdMergeSet<T> {
    open spec fn merge_req(&self, other: &Self) -> bool {
        self.wf() && other.wf()
    }

    open spec fn merge_rel(&self, other: &Self, out: Result<Self, MergeError>) -> bool {
        match out {
            Ok(s) => s.wf() && s@ == self@.union(other@),
            Err(_) => false,
        }
    }

    fn merge(&self, other: &Self) -> (r: Result<Self, MergeError>) {
        let mut res = OrdMergeSet { items: dup_list(&self.items) };
        match res.merge_mut(other) {
            Ok(()) => Ok(res),
            Err(e) => Err(e),
        }
    }
}

/// In-place merge for the ordered set: every right-hand element missing on
/// the left is added at its place in the order. Never fails.
impl<T: SortedKey> MergeMut for OrdMergeSet<T> {
    open spec fn merge_mut_req(&self, other: &Self) -> bool {
        self.wf() && other.wf()
    }

    open spec fn merge_mut_rel(&self, other: &Self, next: Self, r: Result<(), MergeError>) -> bool {
        &&& r is Ok
        &&& next.wf()
        &&& next@ == self@.union(other@)
    }

    fn merge_mut(&mut self, other: &Self) -> (r: Result<(), MergeError>) {
        let mut j: usize = 0;
        while j < other.items.len()
            invariant
                old(self).wf(),
                other.wf(),
                self.wf(),
                j <= other.items.len(),
                self@ == old(self)@.union(other.items@.subrange(0, j as int).to_set()),
            decreases other.items.len() - j,
        {
            let ghost prefix = other.items@.subrange(0, j as int);
            let ghost next_elt = other.items@[j as int];
            proof {
                assert(other.items@.subrange(0, j + 1 as int) =~= prefix.push(next_elt));
                prefix.lemma_push_to_set_commute(next_elt);
            }
            self.insert(other.items[j].dup_key());
            proof {
                assert(self@ =~= old(self)@.union(
                    other.items@.subrange(0, j + 1 as int).to_set(),
                ));
            }
            j += 1;
        }
        proof {
            assert(other.items@.subrange(0, other.items@.len() as int) =~= other.items@);
        }
        Ok(())
    }
}

} // verus!
