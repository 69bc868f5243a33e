//! A map container whose merge is keyed union with recursive value merge.
//!
//! The map is stored as a list of key–value entries with pairwise distinct
//! keys and abstracts to a mathematical `Map`. Merging two maps takes the
//! union of their keys: a key present in only one map carries its value
//! through unchanged, and a key present in both holds the recursive merge of
//! the two values — whose failure aborts the whole merge and propagates
//! unchanged. No iteration order is promised.

use vstd::prelude::*;

use crate::Merge;
use crate::MergeError;
use crate::MergeMut;
use crate::key::MergeKey;
use vstd::pervasive::cloned;

verus! {

/// A map from keys to values; merging two maps unites their keys and merges
/// the values of shared keys recursively.
pub struct MergeMap<K: MergeKey, V> {
    entries: Vec<(K, V)>,
}

/// The keys of an entry list, in storage order.
pub(crate) open spec fn keys_of<K, V>(s: Seq<(K, V)>) -> Seq<K> {
    s.map_values(|e: (K, V)| e.0)
}

/// Whether some entry carries the key `k`.
pub(crate) open spec fn has_key<K, V>(s: Seq<(K, V)>, k: K) -> bool {
    exists|i: int| 0 <= i < s.len() && (#[trigger] s[i]).0 == k
}

/// The position of the entry carrying the key `k`.
pub(crate) open spec fn index_of<K, V>(s: Seq<(K, V)>, k: K) -> int {
    choose|i: int| 0 <= i < s.len() && (#[trigger] s[i]).0 == k
}

/// With pairwise distinct keys, the entry at `i` is the one its key finds.
pub(crate) proof fn lemma_key_at<K, V>(s: Seq<(K, V)>, i: int)
    requires
        keys_of(s).no_duplicates(),
        0 <= i < s.len(),
    ensures
        has_key(s, s[i].0),
        index_of(s, s[i].0) == i,
{
    assert(has_key(s, s[i].0));
    let j = index_of(s, s[i].0);
    assert(0 <= j < s.len() && s[j].0 == s[i].0);
    if i != j {
        assert(keys_of(s)[i] == s[i].0);
        assert(keys_of(s)[j] == s[j].0);
    }
}

impl<K: MergeKey, V> View for MergeMap<K, V> {
    type V = Map<K, V>;

    closed spec fn view(&self) -> Map<K, V> {
        Map::new(
            |k: K| has_key(self.entries@, k),
            |k: K| self.entries@[index_of(self.entries@, k)].1,
        )
    }
}

/// Scan an entry list for the key `k`.
pub(crate) fn find_entry<K: MergeKey, V>(entries: &Vec<(K, V)>, k: &K) -> (r: Option<usize>)
    ensures
        match r {
            Some(i) => i < entries@.len() && entries@[i as int].0 == *k,
            None => !has_key(entries@, *k),
        },
{
    let mut i: usize = 0;
    while i < entries.len()
        invariant
            i <= entries.len(),
            forall|j: int| 0 <= j < i ==> (#[trigger] entries@[j]).0 != *k,
        decreases entries.len() - i,
    {
        if entries[i].0.eq_key(k) {
            return Some(i);
        }
        i += 1;
    }
    None
}

impl<K: MergeKey, V> MergeMap<K, V> {
    /// The entries carry pairwise distinct keys; constructors establish this
    /// and every operation preserves it.
    pub closed spec fn wf(self) -> bool {
        keys_of(self.entries@).no_duplicates()
    }

    /// An empty map.
    pub fn new() -> (m: Self)
        ensures
            m.wf(),
            m@ == Map::<K, V>::empty(),
    {
        let m = MergeMap { entries: Vec::new() };
        proof {
            assert(m@ =~= Map::<K, V>::empty());
        }
        m
    }

    /// Bind `k` to `v`: a fresh key is added, a present key has its value
    /// replaced.
    pub fn insert(&mut self, k: K, v: V)
        requires
            old(self).wf(),
        ensures
            final(self).wf(),
            final(self)@ == old(self)@.insert(k, v),
    {
        match find_entry(&self.entries, &k) {
            Some(i) => {
                proof {
                    lemma_key_at(self.entries@, i as int);
                }
                self.entries.set(i, (k, v));
                proof {
                    let s0 = old(self).entries@;
                    let s1 = self.entries@;
                    assert(keys_of(s1) =~= keys_of(s0));
                    assert forall|k2: K| true implies #[trigger] has_key(s1, k2) == has_key(
                        s0,
                        k2,
                    ) by {
                        if has_key(s0, k2) {
                            let t = index_of(s0, k2);
                            assert(s1[t].0 == k2);
                        }
                        if has_key(s1, k2) {
                            let t = index_of(s1, k2);
                            assert(s0[t].0 == k2);
                        }
                    }
                    assert forall|k2: K| has_key(s1, k2) implies s1[index_of(s1, k2)].1 == old(
                        self,
                    )@.insert(k, v)[k2] by {
                        let t = index_of(s1, k2);
                        lemma_key_at(s1, t);
                        if k2 == k {
                            lemma_key_at(s1, i as int);
                        } else {
                            lemma_key_at(s0, t);
                        }
                    }
                    assert(final(self)@ =~= old(self)@.insert(k, v));
                }
            },
            None => {
                let ghost s0 = self.entries@;
                self.entries.push((k, v));
                proof {
                    let s1 = self.entries@;
                    assert(keys_of(s1) =~= keys_of(s0).push(k));
                    assert forall|i: int, j: int|
                        0 <= i < j < keys_of(s1).len() implies keys_of(s1)[i] != keys_of(
                        s1,
                    )[j] by {
                        if j == s0.len() {
                            assert(s0[i].0 == keys_of(s0)[i]);
                        }
                    }
                    assert forall|k2: K| has_key(s1, k2) implies s1[index_of(s1, k2)].1 == old(
                        self,
                    )@.insert(k, v)[k2] && (k2 == k || has_key(s0, k2)) by {
                        let t = index_of(s1, k2);
                        lemma_key_at(s1, t);
                        if t < s0.len() {
                            lemma_key_at(s0, t);
                        }
                    }
                    assert forall|k2: K| has_key(s0, k2) || k2 == k implies has_key(
                        s1,
                        k2,
                    ) by {
                        if k2 == k {
                            assert(s1[s0.len() as int].0 == k);
                        } else {
                            let t = index_of(s0, k2);
                            assert(s1[t].0 == k2);
                        }
                    }
                    assert(final(self)@ =~= old(self)@.insert(k, v));
                }
            },
        }
    }

    /// Look a key up; `None` exactly when the map does not hold it.
    pub fn get(&self, k: &K) -> (r: Option<&V>)
        requires
            self.wf(),
        ensures
            match r {
                Some(v) => self@.contains_key(*k) && *v == self@[*k],
                None => !self@.contains_key(*k),
            },
    {
        match find_entry(&self.entries, k) {
            Some(i) => {
                proof {
                    lemma_key_at(self.entries@, i as int);
                }
                Some(&self.entries[i].1)
            },
            None => None,
        }
    }

    /// How many keys the map holds.
    pub fn len(&self) -> (n: usize)
        requires
            self.wf(),
        ensures
            n == self@.dom().len(),
    {
        proof {
            let s = self.entries@;
            assert forall|k: K| true implies #[trigger] self@.dom().contains(k) == keys_of(
                s,
            ).to_set().contains(k) by {
                if has_key(s, k) {
                    let t = index_of(s, k);
                    assert(keys_of(s)[t] == k);
                }
                if keys_of(s).to_set().contains(k) {
                    let t = choose|t: int| 0 <= t < keys_of(s).len() && keys_of(s)[t] == k;
                    assert(s[t].0 == k);
                }
            }
            assert(self@.dom() =~= keys_of(s).to_set());
            keys_of(s).unique_seq_to_set();
        }
        self.entries.len()
    }

    /// The entries as a list of key–value pairs, one per key; no order is
    /// promised.
    pub fn items(&self) -> (r: &Vec<(K, V)>)
        requires
            self.wf(),
        ensures
            r@.len() == self@.dom().len(),
            forall|i: int|
                0 <= i < r@.len() ==> self@.contains_key((#[trigger] r@[i]).0) && self@[r@[i].0]
                    == r@[i].1,
    {
        proof {
            let s = self.entries@;
            assert forall|i: int| 0 <= i < s.len() implies self@.contains_key(
                (#[trigger] s[i]).0,
            ) && self@[s[i].0] == s[i].1 by {
                lemma_key_at(s, i);
            }
            assert forall|k: K| true implies #[trigger] self@.dom().contains(k) == keys_of(
                s,
            ).to_set().contains(k) by {
                if has_key(s, k) {
                    let t = index_of(s, k);
                    assert(keys_of(s)[t] == k);
                }
                if keys_of(s).to_set().contains(k) {
                    let t = choose|t: int| 0 <= t < keys_of(s).len() && keys_of(s)[t] == k;
                    assert(s[t].0 == k);
                }
            }
            assert(self@.dom() =~= keys_of(s).to_set());
            keys_of(s).unique_seq_to_set();
        }
        &self.entries
    }
}

/// Taking the entry at `i` out by swapping the last entry into its place
/// keeps the remaining keys distinct and drops exactly that entry's key.
proof fn lemma_take_entry_out<K, V>(s0: Seq<(K, V)>, i: int)
    requires
        keys_of(s0).no_duplicates(),
        0 <= i < s0.len(),
    ensures
        ({
            let mid = s0.update(i, s0.last()).drop_last();
            &&& keys_of(mid).no_duplicates()
            &&& !has_key(mid, s0[i].0)
            &&& forall|k: K| #[trigger] has_key(mid, k) <==> has_key(s0, k) && k != s0[i].0
            &&& forall|k: K|
                #[trigger] has_key(mid, k) ==> mid[index_of(mid, k)].1 == s0[index_of(s0, k)].1
        }),
{
    let mid = s0.update(i, s0.last()).drop_last();
    let last = s0.len() - 1;
    assert forall|t: int| 0 <= t < mid.len() implies mid[t] == (if t == i {
        s0[last]
    } else {
        s0[t]
    }) by {}
    assert forall|t1: int, t2: int|
        0 <= t1 < t2 < keys_of(mid).len() implies keys_of(mid)[t1] != keys_of(mid)[t2] by {
        assert(keys_of(mid)[t1] == mid[t1].0);
        assert(keys_of(mid)[t2] == mid[t2].0);
        let u1: int = if t1 == i {
            last
        } else {
            t1
        };
        let u2: int = if t2 == i {
            last
        } else {
            t2
        };
        assert(keys_of(s0)[u1] == s0[u1].0);
        assert(keys_of(s0)[u2] == s0[u2].0);
    }
    assert forall|t: int| 0 <= t < mid.len() implies mid[t].0 != s0[i].0 by {
        let u: int = if t == i {
            last
        } else {
            t
        };
        assert(keys_of(s0)[u] == s0[u].0);
        assert(keys_of(s0)[i] == s0[i].0);
    }
    assert forall|k: K| has_key(s0, k) && k != s0[i].0 implies has_key(mid, k) by {
        let u = index_of(s0, k);
        if u == last {
            if i < last {
                assert(mid[i].0 == k);
            }
        } else {
            assert(mid[u].0 == k);
        }
    }
    assert forall|k: K| #[trigger] has_key(mid, k) implies has_key(s0, k) && k != s0[i].0
        && mid[index_of(mid, k)].1 == s0[index_of(s0, k)].1 by {
        let t = index_of(mid, k);
        let u: int = if t == i {
            last
        } else {
            t
        };
        assert(mid[t] == s0[u]);
        assert(has_key(s0, k));
        lemma_key_at(s0, u);
    }
}

/// Appending an entry with a fresh key keeps the keys distinct, adds exactly
/// that key, and leaves every other binding in place.
proof fn lemma_append_entry<K, V>(s: Seq<(K, V)>, k: K, v: V)
    requires
        keys_of(s).no_duplicates(),
        !has_key(s, k),
    ensures
        ({
            let s1 = s.push((k, v));
            &&& keys_of(s1).no_duplicates()
            &&& forall|k2: K| #[trigger] has_key(s1, k2) <==> has_key(s, k2) || k2 == k
            &&& has_key(s1, k) && s1[index_of(s1, k)].1 == v
            &&& forall|k2: K|
                #[trigger] has_key(s, k2) ==> s1[index_of(s1, k2)].1 == s[index_of(s, k2)].1
        }),
{
    let s1 = s.push((k, v));
    assert forall|t1: int, t2: int|
        0 <= t1 < t2 < keys_of(s1).len() implies keys_of(s1)[t1] != keys_of(s1)[t2] by {
        assert(keys_of(s1)[t1] == s1[t1].0);
        assert(keys_of(s1)[t2] == s1[t2].0);
        if t2 == s.len() {
            assert(s[t1].0 == s1[t1].0);
        } else {
            assert(keys_of(s)[t1] == s[t1].0);
            assert(keys_of(s)[t2] == s[t2].0);
        }
    }
    assert(s1[s.len() as int].0 == k);
    assert forall|k2: K| #[trigger] has_key(s1, k2) implies has_key(s, k2) || k2 == k by {
        let t = index_of(s1, k2);
        if t < s.len() {
            assert(s[t].0 == k2);
        }
    }
    assert forall|k2: K| has_key(s, k2) implies has_key(s1, k2) && s1[index_of(s1, k2)].1
        == s[index_of(s, k2)].1 by {
        let u = index_of(s, k2);
        assert(s1[u].0 == k2);
        let t = index_of(s1, k2);
        if t < s.len() {
            assert(s[t].0 == k2);
            lemma_key_at(s, t);
        } else {
            assert(s1[t].0 == k);
        }
    }
    lemma_key_at(s1, s.len() as int);
}

/// Whether one of the first `n` entries carries the key `k`.
pub(crate) open spec fn has_key_upto<K, V>(s: Seq<(K, V)>, n: int, k: K) -> bool {
    exists|u: int| 0 <= u < n && (#[trigger] s[u]).0 == k
}

/// Merge for a map: the union of the two key sets; a key present in only one
/// map carries its value through unchanged, and a key present in both holds
/// the recursive merge of the left-hand and right-hand values. The first
/// failing value merge aborts the whole merge with its error unchanged.
/// Neither input is changed.
impl<K: MergeKey, V: Merge + Clone> Merge for MergeMap<K, V> {
    open spec fn merge_req(&self, other: &Self) -> bool {
        &&& self.wf()
        &&& other.wf()
        &&& forall|k: K|
            #![auto]
            self@.contains_key(k) && other@.contains_key(k) ==> self@[k].merge_req(&other@[k])
    }

    open spec fn merge_rel(&self, other: &Self, out: Result<Self, MergeError>) -> bool {
        match out {
            Ok(m) => {
                &&& m.wf()
                &&& m@.dom() == self@.dom().union(other@.dom())
                &&& forall|k: K|
                    #![auto]
                    self@.contains_key(k) && other@.contains_key(k) ==> self@[k].merge_rel(
                        &other@[k],
                        Ok(m@[k]),
                    )
                &&& forall|k: K|
                    #![auto]
                    self@.contains_key(k) && !other@.contains_key(k) ==> cloned::<V>(
                        self@[k],
                        m@[k],
                    )
                &&& forall|k: K|
                    #![auto]
                    !self@.contains_key(k) && other@.contains_key(k) ==> cloned::<V>(
                        other@[k],
                        m@[k],
                    )
            },
            Err(e) => exists|k: K|
                #![auto]
                self@.contains_key(k) && other@.contains_key(k) && self@[k].merge_rel(
                    &other@[k],
                    Err(e),
                ),
        }
    }

    fn merge(&self, other: &Self) -> (r: Result<Self, MergeError>) {
        let ghost sa = self.entries@;
        let ghost sb = other.entries@;
        let n1 = self.entries.len();
        let mut out: Vec<(K, V)> = Vec::new();
        let mut i: usize = 0;
        while i < n1
            invariant
                self.merge_req(other),
                sa == self.entries@,
                sb == other.entries@,
                n1 == sa.len(),
                i <= n1,
                out@.len() == i,
                forall|t: int|
                    0 <= t < i ==> (#[trigger] out@[t]).0 == sa[t].0 && (if has_key(
                        sb,
                        sa[t].0,
                    ) {
                        sa[t].1.merge_rel(&other@[sa[t].0], Ok::<V, MergeError>(out@[t].1))
                    } else {
                        cloned::<V>(sa[t].1, out@[t].1)
                    }),
            decreases n1 - i,
        {
            proof {
                lemma_key_at(sa, i as int);
            }
            match find_entry(&other.entries, &self.entries[i].0) {
                Some(j) => {
                    proof {
                        lemma_key_at(sb, j as int);
                        let k = sa[i as int].0;
                        assert(self@.contains_key(k));
                        assert(other@.contains_key(k));
                        assert(self@[k] == sa[i as int].1);
                        assert(other@[k] == sb[j as int].1);
                        assert(self@[k].merge_req(&other@[k]));
                    }
                    match self.entries[i].1.merge(&other.entries[j].1) {
                        Ok(nv) => {
                            out.push((self.entries[i].0.dup_key(), nv));
                        },
                        Err(e) => {
                            proof {
                                let k = sa[i as int].0;
                                assert(self@.contains_key(k) && other@.contains_key(k)
                                    && self@[k].merge_rel(&other@[k], Err::<V, MergeError>(e)));
                            }
                            return Err(e);
                        },
                    }
                },
                None => {
                    out.push((self.entries[i].0.dup_key(), self.entries[i].1.clone()));
                },
            }
            i += 1;
        }
        proof {
            assert forall|t1: int, t2: int|
                0 <= t1 < t2 < keys_of(out@).len() implies keys_of(out@)[t1] != keys_of(
                out@,
            )[t2] by {
                assert(keys_of(out@)[t1] == out@[t1].0);
                assert(keys_of(out@)[t2] == out@[t2].0);
                assert(keys_of(sa)[t1] == sa[t1].0);
                assert(keys_of(sa)[t2] == sa[t2].0);
            }
        }
        let mut j: usize = 0;
        while j < other.entries.len()
            invariant
                self.merge_req(other),
                sa == self.entries@,
                sb == other.entries@,
                n1 == sa.len(),
                j <= sb.len(),
                out@.len() >= n1,
                keys_of(out@).no_duplicates(),
                forall|t: int|
                    0 <= t < n1 ==> (#[trigger] out@[t]).0 == sa[t].0 && (if has_key(
                        sb,
                        sa[t].0,
                    ) {
                        sa[t].1.merge_rel(&other@[sa[t].0], Ok::<V, MergeError>(out@[t].1))
                    } else {
                        cloned::<V>(sa[t].1, out@[t].1)
                    }),
                forall|t: int|
                    n1 <= t < out@.len() ==> !has_key(sa, (#[trigger] out@[t]).0) && has_key(
                        sb,
                        out@[t].0,
                    ) && index_of(sb, out@[t].0) < j && cloned::<V>(other@[out@[t].0], out@[t].1),
                forall|u: int|
                    0 <= u < j && !has_key(sa, (#[trigger] sb[u]).0) ==> has_key(out@, sb[u].0),
            decreases sb.len() - j,
        {
            proof {
                lemma_key_at(sb, j as int);
            }
            let ghost out_before = out@;
            match find_entry(&self.entries, &other.entries[j].0) {
                Some(_) => {
                },
                None => {
                    proof {
                        assert(other@[sb[j as int].0] == sb[j as int].1);
                        let k = sb[j as int].0;
                        assert forall|t: int| 0 <= t < out@.len() implies (#[trigger] out@[t]).0
                            != k by {
                            if t < n1 {
                                assert(has_key(sa, sa[t].0));
                            }
                        }
                    }
                    out.push((other.entries[j].0.dup_key(), other.entries[j].1.clone()));
                    proof {
                        let so = out@;
                        assert forall|t1: int, t2: int|
                            0 <= t1 < t2 < keys_of(so).len() implies keys_of(so)[t1] != keys_of(
                            so,
                        )[t2] by {
                            assert(keys_of(so)[t1] == so[t1].0);
                            assert(keys_of(so)[t2] == so[t2].0);
                            assert(so[t1].0 == out_before[t1].0);
                            if t2 == so.len() - 1 {
                                assert(so[t2].0 == sb[j as int].0);
                            } else {
                                assert(so[t2].0 == out_before[t2].0);
                                assert(keys_of(out_before)[t1] == out_before[t1].0);
                                assert(keys_of(out_before)[t2] == out_before[t2].0);
                            }
                        }
                    }
                },
            }
            proof {
                assert forall|u: int|
                    0 <= u < j + 1 && !has_key(sa, (#[trigger] sb[u]).0) implies has_key(
                    out@,
                    sb[u].0,
                ) by {
                    if u < j {
                        let t = index_of(out_before, sb[u].0);
                        assert(out@[t].0 == sb[u].0);
                    } else {
                        assert(out@[out@.len() - 1].0 == sb[u].0);
                    }
                }
            }
            j += 1;
        }
        let m = MergeMap { entries: out };
        proof {
            let so = m.entries@;
            assert forall|k: K| #[trigger] has_key(so, k) implies has_key(sa, k) || has_key(
                sb,
                k,
            ) by {
                let t = index_of(so, k);
                if t < n1 {
                    assert(sa[t].0 == k);
                }
            }
            assert forall|k: K| has_key(sa, k) implies has_key(so, k) by {
                let t = index_of(sa, k);
                assert(so[t].0 == k);
            }
            assert(m@.dom() =~= self@.dom().union(other@.dom()));
            assert forall|k: K|
                #![auto]
                self@.contains_key(k) && other@.contains_key(k) implies self@[k].merge_rel(
                &other@[k],
                Ok(m@[k]),
            ) by {
                let t = index_of(sa, k);
                assert(sa[t].0 == k);
                lemma_key_at(sa, t);
                lemma_key_at(so, t);
                assert(has_key(sb, k));
            }
            assert forall|k: K|
                #![auto]
                self@.contains_key(k) && !other@.contains_key(k) implies cloned::<V>(
                self@[k],
                m@[k],
            ) by {
                let t = index_of(sa, k);
                assert(sa[t].0 == k);
                lemma_key_at(sa, t);
                lemma_key_at(so, t);
            }
            assert forall|k: K|
                #![auto]
                !self@.contains_key(k) && other@.contains_key(k) implies cloned::<V>(
                other@[k],
                m@[k],
            ) by {
                let u = index_of(sb, k);
                assert(sb[u].0 == k);
                assert(has_key(so, k));
                let t = index_of(so, k);
                lemma_key_at(so, t);
                assert(so[t].0 == k);
                if t < n1 {
                    assert(has_key(sa, sa[t].0));
                }
            }
        }
        Ok(m)
    }
}

/// In-place merge for a map: an existing entry's value receives the
/// right-hand value through its own in-place merge, and a missing key is
/// inserted with a clone of the right-hand value. The first failing value
/// merge aborts with its error unchanged; entries already merged are not
/// rolled back, and a key absent from the right-hand map is never touched.
/// The right-hand map is never changed.
impl<K: MergeKey, V: MergeMut + Clone> MergeMut for MergeMap<K, V> {
    open spec fn merge_mut_req(&self, other: &Self) -> bool {
        &&& self.wf()
        &&& other.wf()
        &&& forall|k: K|
            #![auto]
            self@.contains_key(k) && other@.contains_key(k) ==> self@[k].merge_mut_req(&other@[k])
    }

    open spec fn merge_mut_rel(&self, other: &Self, next: Self, r: Result<(), MergeError>) -> bool {
        match r {
            Ok(()) => {
                &&& next.wf()
                &&& next@.dom() == self@.dom().union(other@.dom())
                &&& forall|k: K|
                    #![auto]
                    self@.contains_key(k) && other@.contains_key(k) ==> self@[k].merge_mut_rel(
                        &other@[k],
                        next@[k],
                        Ok(()),
                    )
                &&& forall|k: K|
                    #![auto]
                    self@.contains_key(k) && !other@.contains_key(k) ==> next@[k] == self@[k]
                &&& forall|k: K|
                    #![auto]
                    !self@.contains_key(k) && other@.contains_key(k) ==> cloned::<V>(
                        other@[k],
                        next@[k],
                    )
            },
            Err(e) => {
                &&& next.wf()
                &&& self@.dom().subset_of(next@.dom())
                &&& next@.dom().subset_of(self@.dom().union(other@.dom()))
                &&& forall|k: K|
                    #![auto]
                    self@.contains_key(k) && !other@.contains_key(k) ==> next@[k] == self@[k]
                &&& exists|k: K|
                    #![auto]
                    self@.contains_key(k) && other@.contains_key(k) && self@[k].merge_mut_rel(
                        &other@[k],
                        next@[k],
                        Err(e),
                    )
            },
        }
    }

    fn merge_mut(&mut self, other: &Self) -> (r: Result<(), MergeError>) {
        let ghost sb = other.entries@;
        let mut j: usize = 0;
        while j < other.entries.len()
            invariant
                old(self).merge_mut_req(other),
                sb == other.entries@,
                j <= sb.len(),
                self.wf(),
                forall|k: K|
                    #![trigger self@.dom().contains(k)]
                    #![trigger old(self)@.dom().contains(k)]
                    #![trigger has_key_upto(sb, j as int, k)]
                    self@.contains_key(k) <==> old(self)@.contains_key(k) || has_key_upto(
                        sb,
                        j as int,
                        k,
                    ),
                forall|k: K|
                    #![trigger old(self)@.dom().contains(k), has_key_upto(sb, j as int, k)]
                    old(self)@.contains_key(k) && has_key_upto(sb, j as int, k) ==> old(
                        self,
                    )@[k].merge_mut_rel(&other@[k], self@[k], Ok(())),
                forall|k: K|
                    #![trigger old(self)@.dom().contains(k), has_key_upto(sb, j as int, k)]
                    old(self)@.contains_key(k) && !has_key_upto(sb, j as int, k) ==> self@[k]
                        == old(self)@[k],
                forall|k: K|
                    #![trigger old(self)@.dom().contains(k), has_key_upto(sb, j as int, k)]
                    !old(self)@.contains_key(k) && has_key_upto(sb, j as int, k) ==> cloned::<V>(
                        other@[k],
                        self@[k],
                    ),
            decreases sb.len() - j,
        {
            let ghost s0 = self.entries@;
            let ghost view_before = self@;
            let ghost k = sb[j as int].0;
            proof {
                assert forall|k2: K| #[trigger] view_before.dom().contains(k2) == has_key(
                    s0,
                    k2,
                ) by {}
                assert forall|k2: K| #[trigger] view_before.dom().contains(k2) implies
                    view_before[k2] == s0[index_of(s0, k2)].1 by {}
                lemma_key_at(sb, j as int);
                assert(other@.contains_key(k));
                assert(other@[k] == sb[j as int].1);
                assert forall|k2: K| #[trigger] has_key_upto(sb, j + 1 as int, k2) implies
                    has_key_upto(sb, j as int, k2) || k2 == k by {
                    let u = choose|u: int| 0 <= u < j + 1 && (#[trigger] sb[u]).0 == k2;
                    if u < j {
                        assert(has_key_upto(sb, j as int, k2));
                    }
                }
                assert forall|k2: K|
                    has_key_upto(sb, j as int, k2) implies has_key_upto(
                    sb,
                    j + 1 as int,
                    k2,
                ) by {
                    let u = choose|u: int| 0 <= u < j && (#[trigger] sb[u]).0 == k2;
                    assert(0 <= u < j + 1 && sb[u].0 == k2);
                }
                assert(has_key_upto(sb, j + 1 as int, k)) by {
                    assert(sb[j as int].0 == k);
                }
                assert(!has_key_upto(sb, j as int, k)) by {
                    if has_key_upto(sb, j as int, k) {
                        let u = choose|u: int| 0 <= u < j && (#[trigger] sb[u]).0 == k;
                        assert(keys_of(sb)[u] == sb[u].0);
                        assert(keys_of(sb)[j as int] == sb[j as int].0);
                        assert(false);
                    }
                }
                assert forall|k2: K|
                    has_key_upto(sb, j + 1 as int, k2) implies other@.contains_key(k2) by {
                    let u = choose|u: int| 0 <= u < j + 1 && (#[trigger] sb[u]).0 == k2;
                    assert(has_key(sb, k2));
                }
            }
            match find_entry(&self.entries, &other.entries[j].0) {
                Some(i) => {
                    proof {
                        lemma_key_at(s0, i as int);
                        assert(view_before.contains_key(k));
                        assert(view_before[k] == s0[i as int].1);
                        assert(old(self)@.contains_key(k));
                        assert(view_before[k] == old(self)@[k]);
                        lemma_take_entry_out(s0, i as int);
                    }
                    let taken = self.entries.swap_remove(i);
                    let (kk, mut vv) = taken;
                    proof {
                        assert(kk == k);
                        assert(vv == old(self)@[k]);
                        assert(old(self)@[k].merge_mut_req(&other@[k]));
                    }
                    let res = vv.merge_mut(&other.entries[j].1);
                    proof {
                        assert(!has_key(self.entries@, kk));
                        lemma_append_entry(self.entries@, kk, vv);
                    }
                    self.entries.push((kk, vv));
                    proof {
                        let s1 = self.entries@;
                        assert(self@[k] == vv);
                        assert forall|k2: K| #[trigger] self@.dom().contains(k2) implies
                            view_before.dom().contains(k2) by {
                            assert(has_key(s1, k2));
                        }
                        assert forall|k2: K| #[trigger] view_before.dom().contains(k2) implies
                            self@.dom().contains(k2) by {
                            assert(has_key(s0, k2));
                        }
                        assert forall|k2: K|
                            k2 != k && #[trigger] view_before.dom().contains(k2) implies self@[k2]
                            == view_before[k2] by {
                            assert(has_key(s0, k2));
                        }
                    }
                    match res {
                        Ok(_done) => {
                            proof {
                                assert(res == Ok::<(), MergeError>(_done));
                                assert(old(self)@[k].merge_mut_rel(&other@[k], self@[k], Ok(())));
                            }
                        },
                        Err(e) => {
                            proof {
                                assert(old(self)@.contains_key(k) && other@.contains_key(k)
                                    && old(self)@[k].merge_mut_rel(&other@[k], self@[k], Err(e)));
                                assert forall|k2: K| old(self)@.dom().contains(k2) implies self@
                                    .dom().contains(k2) by {
                                    assert(old(self)@.contains_key(k2));
                                    assert(view_before.contains_key(k2));
                                    assert(self@.contains_key(k2));
                                }
                                assert forall|k2: K| self@.dom().contains(k2) implies old(
                                    self,
                                )@.dom().contains(k2) || other@.dom().contains(k2) by {
                                    assert(self@.contains_key(k2));
                                    assert(view_before.contains_key(k2));
                                    if !old(self)@.contains_key(k2) {
                                        assert(has_key_upto(sb, j as int, k2));
                                        assert(other@.contains_key(k2));
                                    }
                                }
                                assert(old(self)@.dom().subset_of(self@.dom()));
                                assert(self@.dom().subset_of(old(self)@.dom().union(
                                    other@.dom(),
                                )));
                                assert forall|k2: K|
                                    #![auto]
                                    old(self)@.contains_key(k2) && !other@.contains_key(
                                        k2,
                                    ) implies self@[k2] == old(self)@[k2] by {
                                    assert(!has_key_upto(sb, j as int, k2));
                                    assert(view_before[k2] == old(self)@[k2]);
                                    assert(k2 != k);
                                    assert(view_before.contains_key(k2));
                                }
                            }
                            return Err(e);
                        },
                    }
                },
                None => {
                    proof {
                        assert(!view_before.contains_key(k));
                        assert(!old(self)@.contains_key(k));
                    }
                    let nk = other.entries[j].0.dup_key();
                    let nv = other.entries[j].1.clone();
                    proof {
                        assert(nk == k);
                        assert(!has_key(self.entries@, nk));
                        lemma_append_entry(self.entries@, nk, nv);
                    }
                    self.entries.push((nk, nv));
                    proof {
                        let s1 = self.entries@;
                        assert(self@[k] == nv);
                        assert(cloned::<V>(other@[k], self@[k]));
                        assert forall|k2: K| #[trigger] self@.dom().contains(k2) implies
                            view_before.dom().contains(k2) || k2 == k by {
                            assert(has_key(s1, k2));
                        }
                        assert forall|k2: K| #[trigger] view_before.dom().contains(k2) implies
                            self@.dom().contains(k2) by {
                            assert(has_key(s0, k2));
                        }
                        assert forall|k2: K|
                            k2 != k && #[trigger] view_before.dom().contains(k2) implies self@[k2]
                            == view_before[k2] by {
                            assert(has_key(s0, k2));
                        }
                    }
                },
            }
            proof {
                assert forall|k2: K|
                    #![auto]
                    self@.contains_key(k2) implies old(self)@.contains_key(k2) || has_key_upto(
                    sb,
                    j + 1 as int,
                    k2,
                ) by {
                    if k2 != k {
                        assert(view_before.contains_key(k2));
                        if !old(self)@.contains_key(k2) {
                            assert(has_key_upto(sb, j as int, k2));
                        }
                    }
                }
                assert forall|k2: K|
                    #![auto]
                    old(self)@.contains_key(k2) || has_key_upto(sb, j + 1 as int, k2) implies
                    self@.contains_key(k2) by {
                    if k2 != k {
                        if has_key_upto(sb, j + 1 as int, k2) && !old(self)@.contains_key(k2) {
                            assert(has_key_upto(sb, j as int, k2));
                        }
                        assert(view_before.contains_key(k2));
                    }
                }
                assert forall|k2: K|
                    #![auto]
                    old(self)@.contains_key(k2) && has_key_upto(sb, j + 1 as int, k2) implies old(
                    self,
                )@[k2].merge_mut_rel(&other@[k2], self@[k2], Ok(())) by {
                    if k2 != k {
                        assert(has_key_upto(sb, j as int, k2));
                        assert(view_before.contains_key(k2));
                        assert(self@[k2] == view_before[k2]);
                    }
                }
                assert forall|k2: K|
                    #![auto]
                    old(self)@.contains_key(k2) && !has_key_upto(sb, j + 1 as int, k2) implies
                    self@[k2] == old(self)@[k2] by {
                    assert(k2 != k);
                    assert(view_before.contains_key(k2));
                    assert(!has_key_upto(sb, j as int, k2));
                }
                assert forall|k2: K|
                    #![auto]
                    !old(self)@.contains_key(k2) && has_key_upto(sb, j + 1 as int, k2) implies
                    cloned::<V>(other@[k2], self@[k2]) by {
                    if k2 != k {
                        assert(has_key_upto(sb, j as int, k2));
                        assert(view_before.contains_key(k2));
                        assert(self@[k2] == view_before[k2]);
                    }
                }
            }
            j += 1;
        }
        proof {
            assert forall|k: K| #[trigger] other@.contains_key(k) implies has_key_upto(
                sb,
                sb.len() as int,
                k,
            ) by {
                let u = index_of(sb, k);
                assert(sb[u].0 == k);
            }
            assert forall|k2: K| #[trigger] has_key_upto(sb, sb.len() as int, k2) implies has_key(
                sb,
                k2,
            ) by {
                let u = choose|u: int|
                    0 <= u < sb.len() as int && (#[trigger] sb[u]).0 == k2;
                assert(0 <= u < sb.len() && sb[u].0 == k2);
            }
            assert forall|k2: K| self@.dom().contains(k2) implies old(self)@.dom().contains(k2)
                || other@.dom().contains(k2) by {
                assert(self@.contains_key(k2));
                if !old(self)@.contains_key(k2) {
                    assert(has_key_upto(sb, sb.len() as int, k2));
                    assert(has_key(sb, k2));
                    assert(other@.contains_key(k2));
                }
            }
            assert forall|k2: K|
                old(self)@.dom().contains(k2) || other@.dom().contains(k2) implies self@
                .dom().contains(k2) by {
                if old(self)@.contains_key(k2) {
                    assert(self@.contains_key(k2));
                } else {
                    assert(other@.contains_key(k2));
                    assert(has_key_upto(sb, sb.len() as int, k2));
                    assert(self@.contains_key(k2));
                }
            }
            assert(self@.dom() =~= old(self)@.dom().union(other@.dom()));
            assert forall|k2: K|
                #![auto]
                old(self)@.contains_key(k2) && other@.contains_key(k2) implies old(
                self,
            )@[k2].merge_mut_rel(&other@[k2], self@[k2], Ok(())) by {
                assert(has_key_upto(sb, j as int, k2));
            }
            assert forall|k2: K|
                #![auto]
                old(self)@.contains_key(k2) && !other@.contains_key(k2) implies self@[k2] == old(
                self,
            )@[k2] by {
                assert(!has_key_upto(sb, j as int, k2)) by {
                    if has_key_upto(sb, j as int, k2) {
                        assert(has_key(sb, k2));
                        assert(other@.contains_key(k2));
                    }
                }
            }
            assert forall|k2: K|
                #![auto]
                !old(self)@.contains_key(k2) && other@.contains_key(k2) implies cloned::<V>(
                other@[k2],
                self@[k2],
            ) by {
                assert(has_key_upto(sb, j as int, k2));
            }
        }
        Ok(())
    }
}

/// For all maps and every key: after a successful merge, a key is in the
/// result exactly when it is in one of the inputs; a key present in only the
/// right-hand map carries the right-hand value, one present in only the
/// left-hand map carries the left-hand value (each as a clone), and a key
/// present in both holds the recursive merge of the two values.
pub proof fn lemma_map_merge_lookup<K: MergeKey, V: Merge + Clone>(
    a: MergeMap<K, V>,
    b: MergeMap<K, V>,
    m: MergeMap<K, V>,
    k: K,
)
    requires
        a.merge_rel(&b, Ok(m)),
    ensures
        m@.contains_key(k) <==> a@.contains_key(k) || b@.contains_key(k),
        a@.contains_key(k) && b@.contains_key(k) ==> a@[k].merge_rel(&b@[k], Ok(m@[k])),
        a@.contains_key(k) && !b@.contains_key(k) ==> cloned::<V>(a@[k], m@[k]),
        !a@.contains_key(k) && b@.contains_key(k) ==> cloned::<V>(b@[k], m@[k]),
{
}

/// Merging a map with itself gives the map back whenever the value type's
/// own merge is idempotent: the key set is unchanged and every value merges
/// with itself to itself.
pub proof fn lemma_map_merge_idempotent<K: MergeKey, V: Merge + Clone>(
    a: MergeMap<K, V>,
    m: MergeMap<K, V>,
)
    requires
        a.merge_rel(&a, Ok(m)),
        forall|x: V, y: V| #[trigger] x.merge_rel(&x, Ok(y)) ==> y == x,
    ensures
        m@ == a@,
{
    assert(m@.dom() =~= a@.dom());
    assert forall|k: K| #[trigger] a@.dom().contains(k) implies m@[k] == a@[k] by {
        assert(a@[k].merge_rel(&a@[k], Ok(m@[k])));
    }
    assert(m@ =~= a@);
}

} // verus!
