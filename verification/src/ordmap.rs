//! The totally-ordered map variant.
//!
//! Like [`crate::map::MergeMap`], this map merges by keyed union with a
//! recursive merge of the values of shared keys; in addition it keeps its
//! entries in strictly increasing key order, so an enumeration always reads
//! out sorted. It asks its key type for a verified total order through
//! [`crate::key::SortedKey`].

use vstd::prelude::*;

use crate::Merge;
use crate::MergeError;
use crate::MergeMut;
use crate::key::MergeKey;
use crate::key::SortedKey;
use crate::map::find_entry;
use crate::map::has_key;
use crate::map::has_key_upto;
use crate::map::index_of;
use crate::map::keys_of;
use crate::map::lemma_key_at;
use vstd::pervasive::cloned;

verus! {

/// A map from keys to values, kept in strictly increasing key order; merging
/// two maps unites their keys and merges the values of shared keys
/// recursively.
pub struct OrdMergeMap<K: SortedKey, V> {
    entries: Vec<(K, V)>,
}

/// Whether an entry list is strictly increasing by key: every earlier key is
/// below every later one, and no key repeats.
pub open spec fn sorted_keys<K: SortedKey, V>(s: Seq<(K, V)>) -> bool {
    forall|i: int, j: int|
        #![trigger s[i], s[j]]
        0 <= i < j < s.len() ==> s[i].0.le_spec(s[j].0) && s[i].0 != s[j].0
}

/// Strictly increasing keys are pairwise distinct.
proof fn lemma_sorted_keys_no_duplicates<K: SortedKey, V>(s: Seq<(K, V)>)
    requires
        sorted_keys(s),
    ensures
        keys_of(s).no_duplicates(),
{
    assert forall|i: int, j: int|
        0 <= i < keys_of(s).len() && 0 <= j < keys_of(s).len() && i != j implies keys_of(s)[i]
        != keys_of(s)[j] by {
        assert(keys_of(s)[i] == s[i].0);
        assert(keys_of(s)[j] == s[j].0);
        if i < j {
            assert(s[i].0.le_spec(s[j].0) && s[i].0 != s[j].0);
        } else {
            assert(s[j].0.le_spec(s[i].0) && s[j].0 != s[i].0);
        }
    }
}

impl<K: SortedKey, V> View for OrdMergeMap<K, V> {
    type V = Map<K, V>;

    closed spec fn view(&self) -> Map<K, V> {
        Map::new(
            |k: K| has_key(self.entries@, k),
            |k: K| self.entries@[index_of(self.entries@, k)].1,
        )
    }
}

impl<K: SortedKey, V> OrdMergeMap<K, V> {
    /// The entries are strictly increasing by key; constructors establish
    /// this and every operation preserves it.
    pub closed spec fn wf(self) -> bool {
        sorted_keys(self.entries@)
    }

    /// An empty map.
    pub fn new() -> (m: Self)
        ensures
            m.wf(),
            m@ == Map::<K, V>::empty(),
    {
        let m = OrdMergeMap { entries: Vec::new() };
        proof {
            assert(m@ =~= Map::<K, V>::empty());
        }
        m
    }

    /// Bind `k` to `v` at its place in the order: a fresh key is added, a
    /// present key has its value replaced.
    pub fn insert(&mut self, k: K, v: V)
        requires
            old(self).wf(),
        ensures
            final(self).wf(),
            final(self)@ == old(self)@.insert(k, v),
    {
        let ghost s0 = self.entries@;
        proof {
            lemma_sorted_keys_no_duplicates(s0);
        }
        let mut p: usize = 0;
        while p < self.entries.len() && self.entries[p].0.le_key(&k) && !self.entries[p].0.eq_key(
            &k,
        )
            invariant
                self.entries@ == s0,
                sorted_keys(s0),
                p <= s0.len(),
                forall|i: int| 0 <= i < p ==> (#[trigger] s0[i]).0.le_spec(k) && s0[i].0 != k,
            decreases self.entries.len() - p,
        {
            p += 1;
        }
        let present = p < self.entries.len() && self.entries[p].0.eq_key(&k);
        if present {
            proof {
                lemma_key_at(s0, p as int);
            }
            self.entries.set(p, (k, v));
            proof {
                let s1 = self.entries@;
                assert forall|i: int, j: int|
                    #![trigger s1[i], s1[j]]
                    0 <= i < j < s1.len() implies s1[i].0.le_spec(s1[j].0) && s1[i].0
                    != s1[j].0 by {
                    assert(s1[i].0 == s0[i].0);
                    assert(s1[j].0 == s0[j].0);
                }
                lemma_sorted_keys_no_duplicates(s1);
                assert forall|k2: K| true implies #[trigger] has_key(s1, k2) == has_key(
                    s0,
                    k2,
                ) by {
                    if has_key(s0, k2) {
                        let t = index_of(s0, k2);
                        assert(s1[t].0 == k2);
                    }
                    if has_key(s1, k2) {
                        let t = index_of(s1, k2);
                        assert(s0[t].0 == k2);
                    }
                }
                assert forall|k2: K| has_key(s1, k2) implies s1[index_of(s1, k2)].1 == old(
                    self,
                )@.insert(k, v)[k2] by {
                    let t = index_of(s1, k2);
                    lemma_key_at(s1, t);
                    if k2 == k {
                        lemma_key_at(s1, p as int);
                    } else {
                        lemma_key_at(s0, t);
                    }
                }
                assert(final(self)@ =~= old(self)@.insert(k, v));
            }
        } else {
            proof {
                if (p as int) < s0.len() {
                    assert(!(s0[p as int].0.le_spec(k) && s0[p as int].0 != k));
                    assert(s0[p as int].0 != k);
                    K::lemma_le_total(s0[p as int].0, k);
                    assert(k.le_spec(s0[p as int].0));
                }
            }
            self.entries.insert(p, (k, v));
            proof {
                let s1 = self.entries@;
                assert(s1 == s0.insert(p as int, (k, v)));
                assert(s1.len() == s0.len() + 1);
                assert forall|t: int| 0 <= t < s1.len() implies s1[t] == (if t < p {
                    s0[t]
                } else if t == p {
                    (k, v)
                } else {
                    s0[t - 1]
                }) by {}
                assert forall|i: int, j: int|
                    #![trigger s1[i], s1[j]]
                    0 <= i < j < s1.len() implies s1[i].0.le_spec(s1[j].0) && s1[i].0
                    != s1[j].0 by {
                    if i < p && j < p {
                    } else if j == p {
                        assert(s1[i] == s0[i]);
                    } else if i == p {
                        assert(s1[j] == s0[j - 1]);
                        assert(j - 1 >= p);
                        if j - 1 > p {
                            K::lemma_le_transitive(k, s0[p as int].0, s0[j - 1].0);
                            if k == s0[j - 1].0 {
                                K::lemma_le_antisymmetric(k, s0[p as int].0);
                            }
                        }
                    } else if i > p && j > p {
                        assert(s1[i] == s0[i - 1]);
                        assert(s1[j] == s0[j - 1]);
                    } else {
                        assert(i < p && j > p);
                        assert(s1[i] == s0[i]);
                        assert(s1[j] == s0[j - 1]);
                        if i == j - 1 {
                            assert(false);
                        }
                    }
                }
                lemma_sorted_keys_no_duplicates(s1);
                assert forall|k2: K| #[trigger] has_key(s1, k2) implies has_key(s0, k2) || k2
                    == k by {
                    let t = index_of(s1, k2);
                    if t != p {
                        if t < p {
                            assert(s0[t].0 == k2);
                        } else {
                            assert(s0[t - 1].0 == k2);
                        }
                    }
                }
                assert forall|k2: K| has_key(s0, k2) || k2 == k implies has_key(s1, k2) by {
                    if k2 == k {
                        assert(s1[p as int].0 == k);
                    } else {
                        let t = index_of(s0, k2);
                        if t < p {
                            assert(s1[t].0 == k2);
                        } else {
                            assert(s1[t + 1].0 == k2);
                        }
                    }
                }
                assert forall|k2: K| has_key(s1, k2) implies s1[index_of(s1, k2)].1 == old(
                    self,
                )@.insert(k, v)[k2] by {
                    let t = index_of(s1, k2);
                    lemma_key_at(s1, t);
                    if k2 == k {
                        lemma_key_at(s1, p as int);
                    } else {
                        if t < p {
                            assert(s0[t].0 == k2);
                            lemma_key_at(s0, t);
                        } else {
                            assert(t > p);
                            assert(s0[t - 1].0 == k2);
                            lemma_key_at(s0, t - 1);
                        }
                    }
                }
                assert(final(self)@ =~= old(self)@.insert(k, v));
            }
        }
    }

    /// Look a key up; `None` exactly when the map does not hold it.
    pub fn get(&self, k: &K) -> (r: Option<&V>)
        requires
            self.wf(),
        ensures
            match r {
                Some(v) => self@.contains_key(*k) && *v == self@[*k],
                None => !self@.contains_key(*k),
            },
    {
        proof {
            lemma_sorted_keys_no_duplicates(self.entries@);
        }
        match find_entry(&self.entries, k) {
            Some(i) => {
                proof {
                    lemma_key_at(self.entries@, i as int);
                }
                Some(&self.entries[i].1)
            },
            None => None,
        }
    }

    /// How many keys the map holds.
    pub fn len(&self) -> (n: usize)
        requires
            self.wf(),
        ensures
            n == self@.dom().len(),
    {
        proof {
            let s = self.entries@;
            lemma_sorted_keys_no_duplicates(s);
            assert forall|k: K| true implies #[trigger] self@.dom().contains(k) == keys_of(
                s,
            ).to_set().contains(k) by {
                if has_key(s, k) {
                    let t = index_of(s, k);
                    assert(keys_of(s)[t] == k);
                }
                if keys_of(s).to_set().contains(k) {
                    let t = choose|t: int| 0 <= t < keys_of(s).len() && keys_of(s)[t] == k;
                    assert(s[t].0 == k);
                }
            }
            assert(self@.dom() =~= keys_of(s).to_set());
            keys_of(s).unique_seq_to_set();
        }
        self.entries.len()
    }

    /// The entries in strictly increasing key order, one per key.
    pub fn items(&self) -> (r: &Vec<(K, V)>)
        requires
            self.wf(),
        ensures
            sorted_keys(r@),
            r@.len() == self@.dom().len(),
            forall|i: int|
                0 <= i < r@.len() ==> self@.contains_key((#[trigger] r@[i]).0) && self@[r@[i].0]
                    == r@[i].1,
    {
        proof {
            let s = self.entries@;
            lemma_sorted_keys_no_duplicates(s);
            assert forall|i: int| 0 <= i < s.len() implies self@.contains_key(
                (#[trigger] s[i]).0,
            ) && self@[s[i].0] == s[i].1 by {
                lemma_key_at(s, i);
            }
            assert forall|k: K| true implies #[trigger] self@.dom().contains(k) == keys_of(
                s,
            ).to_set().contains(k) by {
                if has_key(s, k) {
                    let t = index_of(s, k);
                    assert(keys_of(s)[t] == k);
                }
                if keys_of(s).to_set().contains(k) {
                    let t = choose|t: int| 0 <= t < keys_of(s).len() && keys_of(s)[t] == k;
                    assert(s[t].0 == k);
                }
            }
            assert(self@.dom() =~= keys_of(s).to_set());
            keys_of(s).unique_seq_to_set();
        }
        &self.entries
    }
}

impl<K: SortedKey, V> OrdMergeMap<K, V> {
    /// Take the entry at `i` out, closing the gap; the remaining entries keep
    /// their order.
    fn take_out(&mut self, i: usize) -> (r: (K, V))
        requires
            old(self).wf(),
            i < old(self).entries@.len(),
        ensures
            final(self).wf(),
            r == old(self).entries@[i as int],
            old(self)@.contains_key(r.0),
            old(self)@[r.0] == r.1,
            final(self)@ == old(self)@.remove(r.0),
    {
        proof {
            lemma_sorted_keys_no_duplicates(self.entries@);
            lemma_key_at(self.entries@, i as int);
        }
        let e = self.entries.remove(i);
        proof {
            let s0 = old(self).entries@;
            let s1 = self.entries@;
            let k = s0[i as int].0;
            assert(s1 == s0.remove(i as int));
            assert(s1.len() == s0.len() - 1);
            assert forall|t: int| 0 <= t < s1.len() implies s1[t] == (if t < i {
                s0[t]
            } else {
                s0[t + 1]
            }) by {}
            assert forall|t1: int, t2: int|
                #![trigger s1[t1], s1[t2]]
                0 <= t1 < t2 < s1.len() implies s1[t1].0.le_spec(s1[t2].0) && s1[t1].0
                != s1[t2].0 by {
                let u1: int = if t1 < i {
                    t1
                } else {
                    t1 + 1
                };
                let u2: int = if t2 < i {
                    t2
                } else {
                    t2 + 1
                };
                assert(s1[t1] == s0[u1]);
                assert(s1[t2] == s0[u2]);
            }
            lemma_sorted_keys_no_duplicates(s1);
            assert forall|k2: K| #[trigger] has_key(s1, k2) implies has_key(s0, k2) && k2 != k
                && s1[index_of(s1, k2)].1 == s0[index_of(s0, k2)].1 by {
                let t = index_of(s1, k2);
                let u: int = if t < i {
                    t
                } else {
                    t + 1
                };
                assert(s1[t] == s0[u]);
                assert(has_key(s0, k2));
                lemma_key_at(s0, u);
                assert(keys_of(s0)[u] == s0[u].0);
                assert(keys_of(s0)[i as int] == s0[i as int].0);
            }
            assert forall|k2: K| has_key(s0, k2) && k2 != k implies has_key(s1, k2) by {
                let u = index_of(s0, k2);
                if u < i {
                    assert(s1[u].0 == k2);
                } else {
                    assert(u != i);
                    assert(s1[u - 1].0 == k2);
                }
            }
            assert(final(self)@ =~= old(self)@.remove(k));
        }
        e
    }
}

/// Merge for the ordered map: the union of the two key sets, kept in
/// strictly increasing key order; a key present in only one map carries its
/// value through unchanged, and a key present in both holds the recursive
/// merge of the left-hand and right-hand values. The first failing value
/// merge aborts the whole merge with its error unchanged. Neither input is
/// changed.
impl<K: SortedKey, V: Merge + Clone> Merge for OrdMergeMap<K, V> {
    open spec fn merge_req(&self, other: &Self) -> bool {
        &&& self.wf()
        &&& other.wf()
        &&& forall|k: K|
            #![auto]
            self@.contains_key(k) && other@.contains_key(k) ==> self@[k].merge_req(&other@[k])
    }

    open spec fn merge_rel(&self, other: &Self, out: Result<Self, MergeError>) -> bool {
        match out {
            Ok(m) => {
                &&& m.wf()
                &&& m@.dom() == self@.dom().union(other@.dom())
                &&& forall|k: K|
                    #![auto]
                    self@.contains_key(k) && other@.contains_key(k) ==> self@[k].merge_rel(
                        &other@[k],
                        Ok(m@[k]),
                    )
                &&& forall|k: K|
                    #![auto]
                    self@.contains_key(k) && !other@.contains_key(k) ==> cloned::<V>(
                        self@[k],
                        m@[k],
                    )
                &&& forall|k: K|
                    #![auto]
                    !self@.contains_key(k) && other@.contains_key(k) ==> cloned::<V>(
                        other@[k],
                        m@[k],
                    )
            },
            Err(e) => exists|k: K|
                #![auto]
                self@.contains_key(k) && other@.contains_key(k) && self@[k].merge_rel(
                    &other@[k],
                    Err(e),
                ),
        }
    }

    fn merge(&self, other: &Self) -> (r: Result<Self, MergeError>) {
        let ghost sa = self.entries@;
        let ghost sb = other.entries@;
        proof {
            lemma_sorted_keys_no_duplicates(sa);
            lemma_sorted_keys_no_duplicates(sb);
        }
        let n1 = self.entries.len();
        let mut res = OrdMergeMap::new();
        let mut i: usize = 0;
        while i < n1
            invariant
                self.merge_req(other),
                sa == self.entries@,
                sb == other.entries@,
                n1 == sa.len(),
                i <= n1,
                keys_of(sa).no_duplicates(),
                keys_of(sb).no_duplicates(),
                res.wf(),
                forall|k2: K|
                    #![trigger res@.dom().contains(k2)]
                    #![trigger has_key_upto(sa, i as int, k2)]
                    res@.contains_key(k2) <==> has_key_upto(sa, i as int, k2),
                forall|k2: K|
                    #![auto]
                    res@.contains_key(k2) && other@.contains_key(k2) ==> self@[k2].merge_rel(
                        &other@[k2],
                        Ok(res@[k2]),
                    ),
                forall|k2: K|
                    #![auto]
                    res@.contains_key(k2) && !other@.contains_key(k2) ==> cloned::<V>(
                        self@[k2],
                        res@[k2],
                    ),
            decreases n1 - i,
        {
            let ghost k = sa[i as int].0;
            proof {
                lemma_key_at(sa, i as int);
                assert(self@.contains_key(k));
                assert(self@[k] == sa[i as int].1);
                assert(!has_key_upto(sa, i as int, k)) by {
                    if has_key_upto(sa, i as int, k) {
                        let u = choose|u: int| 0 <= u < i && (#[trigger] sa[u]).0 == k;
                        assert(keys_of(sa)[u] == sa[u].0);
                        assert(keys_of(sa)[i as int] == sa[i as int].0);
                        assert(false);
                    }
                }
            }
            let v = match find_entry(&other.entries, &self.entries[i].0) {
                Some(j) => {
                    proof {
                        lemma_key_at(sb, j as int);
                        assert(other@.contains_key(k));
                        assert(other@[k] == sb[j as int].1);
                        assert(self@[k].merge_req(&other@[k]));
                    }
                    match self.entries[i].1.merge(&other.entries[j].1) {
                        Ok(nv) => nv,
                        Err(e) => {
                            proof {
                                assert(self@.contains_key(k) && other@.contains_key(k)
                                    && self@[k].merge_rel(&other@[k], Err::<V, MergeError>(e)));
                            }
                            return Err(e);
                        },
                    }
                },
                None => {
                    proof {
                        assert(!other@.contains_key(k));
                    }
                    self.entries[i].1.clone()
                },
            };
            res.insert(self.entries[i].0.dup_key(), v);
            proof {
                assert forall|k2: K| #[trigger] has_key_upto(sa, i + 1 as int, k2) implies
                    has_key_upto(sa, i as int, k2) || k2 == k by {
                    let u = choose|u: int| 0 <= u < i + 1 && (#[trigger] sa[u]).0 == k2;
                    if u < i {
                        assert(has_key_upto(sa, i as int, k2));
                    }
                }
                assert forall|k2: K|
                    has_key_upto(sa, i as int, k2) implies has_key_upto(
                    sa,
                    i + 1 as int,
                    k2,
                ) by {
                    let u = choose|u: int| 0 <= u < i && (#[trigger] sa[u]).0 == k2;
                    assert(0 <= u < i + 1 && sa[u].0 == k2);
                }
                assert(has_key_upto(sa, i + 1 as int, k)) by {
                    assert(sa[i as int].0 == k);
                }
            }
            i += 1;
        }
        proof {
            assert forall|k2: K| #[trigger] has_key_upto(sa, n1 as int, k2) == self@.contains_key(
                k2,
            ) by {
                if has_key_upto(sa, n1 as int, k2) {
                    let u = choose|u: int| 0 <= u < n1 && (#[trigger] sa[u]).0 == k2;
                    assert(has_key(sa, k2));
                }
                if has_key(sa, k2) {
                    let u = index_of(sa, k2);
                    assert(0 <= u < n1 && sa[u].0 == k2);
                    assert(has_key_upto(sa, n1 as int, k2));
                }
            }
        }
        let mut j: usize = 0;
        while j < other.entries.len()
            invariant
                self.merge_req(other),
                sa == self.entries@,
                sb == other.entries@,
                j <= sb.len(),
                keys_of(sa).no_duplicates(),
                keys_of(sb).no_duplicates(),
                res.wf(),
                forall|k2: K|
                    #![trigger res@.dom().contains(k2)]
                    #![trigger has_key_upto(sb, j as int, k2)]
                    res@.contains_key(k2) <==> self@.contains_key(k2) || has_key_upto(
                        sb,
                        j as int,
                        k2,
                    ),
                forall|k2: K|
                    #![auto]
                    self@.contains_key(k2) && other@.contains_key(k2) ==> self@[k2].merge_rel(
                        &other@[k2],
                        Ok(res@[k2]),
                    ),
                forall|k2: K|
                    #![auto]
                    self@.contains_key(k2) && !other@.contains_key(k2) ==> cloned::<V>(
                        self@[k2],
                        res@[k2],
                    ),
                forall|k2: K|
                    #![auto]
                    !self@.contains_key(k2) && has_key_upto(sb, j as int, k2) ==> cloned::<V>(
                        other@[k2],
                        res@[k2],
                    ),
            decreases sb.len() - j,
        {
            let ghost k = sb[j as int].0;
            proof {
                lemma_key_at(sb, j as int);
                assert(other@.contains_key(k));
                assert(other@[k] == sb[j as int].1);
                assert forall|k2: K| #[trigger] has_key_upto(sb, j + 1 as int, k2) implies
                    has_key_upto(sb, j as int, k2) || k2 == k by {
                    let u = choose|u: int| 0 <= u < j + 1 && (#[trigger] sb[u]).0 == k2;
                    if u < j {
                        assert(has_key_upto(sb, j as int, k2));
                    }
                }
                assert forall|k2: K|
                    has_key_upto(sb, j as int, k2) implies has_key_upto(
                    sb,
                    j + 1 as int,
                    k2,
                ) by {
                    let u = choose|u: int| 0 <= u < j && (#[trigger] sb[u]).0 == k2;
                    assert(0 <= u < j + 1 && sb[u].0 == k2);
                }
                assert(has_key_upto(sb, j + 1 as int, k)) by {
                    assert(sb[j as int].0 == k);
                }
            }
            match find_entry(&self.entries, &other.entries[j].0) {
                Some(i2) => {
                    proof {
                        assert(sa[i2 as int].0 == k);
                        assert(has_key(sa, k));
                        assert(self@.contains_key(k));
                    }
                },
                None => {
                    proof {
                        assert(!self@.contains_key(k));
                    }
                    res.insert(other.entries[j].0.dup_key(), other.entries[j].1.clone());
                },
            }
            j += 1;
        }
        proof {
            assert forall|k2: K| #[trigger] other@.contains_key(k2) implies has_key_upto(
                sb,
                sb.len() as int,
                k2,
            ) by {
                let u = index_of(sb, k2);
                assert(0 <= u < sb.len() && sb[u].0 == k2);
            }
            assert forall|k2: K| has_key_upto(sb, sb.len() as int, k2) implies other@.contains_key(
                k2,
            ) by {
                let u = choose|u: int| 0 <= u < sb.len() && (#[trigger] sb[u]).0 == k2;
                assert(has_key(sb, k2));
            }
            assert forall|k2: K| res@.dom().contains(k2) implies self@.dom().contains(k2)
                || other@.dom().contains(k2) by {
                assert(res@.contains_key(k2));
            }
            assert forall|k2: K|
                self@.dom().contains(k2) || other@.dom().contains(k2) implies res@.dom().contains(
                k2,
            ) by {
                if other@.contains_key(k2) {
                    assert(has_key_upto(sb, sb.len() as int, k2));
                }
                assert(res@.contains_key(k2));
            }
            assert(res@.dom() =~= self@.dom().union(other@.dom()));
            assert forall|k2: K|
                #![auto]
                !self@.contains_key(k2) && other@.contains_key(k2) implies cloned::<V>(
                other@[k2],
                res@[k2],
            ) by {
                assert(has_key_upto(sb, sb.len() as int, k2));
            }
        }
        Ok(res)
    }
}

/// In-place merge for the ordered map: an existing entry's value receives the
/// right-hand value through its own in-place merge at its place in the order,
/// and a missing key is inserted there with a clone of the right-hand value.
/// The first failing value merge aborts with its error unchanged; entries
/// already merged are not rolled back, and a key absent from the right-hand
/// map is never touched. The right-hand map is never changed.
impl<K: SortedKey, V: MergeMut + Clone> MergeMut for OrdMergeMap<K, V> {
    open spec fn merge_mut_req(&self, other: &Self) -> bool {
        &&& self.wf()
        &&& other.wf()
        &&& forall|k: K|
            #![auto]
            self@.contains_key(k) && other@.contains_key(k) ==> self@[k].merge_mut_req(&other@[k])
    }

    open spec fn merge_mut_rel(&self, other: &Self, next: Self, r: Result<(), MergeError>) -> bool {
        match r {
            Ok(()) => {
                &&& next.wf()
                &&& next@.dom() == self@.dom().union(other@.dom())
                &&& forall|k: K|
                    #![auto]
                    self@.contains_key(k) && other@.contains_key(k) ==> self@[k].merge_mut_rel(
                        &other@[k],
                        next@[k],
                        Ok(()),
                    )
                &&& forall|k: K|
                    #![auto]
                    self@.contains_key(k) && !other@.contains_key(k) ==> next@[k] == self@[k]
                &&& forall|k: K|
                    #![auto]
                    !self@.contains_key(k) && other@.contains_key(k) ==> cloned::<V>(
                        other@[k],
                        next@[k],
                    )
            },
            Err(e) => {
                &&& next.wf()
                &&& self@.dom().subset_of(next@.dom())
                &&& next@.dom().subset_of(self@.dom().union(other@.dom()))
                &&& forall|k: K|
                    #![auto]
                    self@.contains_key(k) && !other@.contains_key(k) ==> next@[k] == self@[k]
                &&& exists|k: K|
                    #![auto]
                    self@.contains_key(k) && other@.contains_key(k) && self@[k].merge_mut_rel(
                        &other@[k],
                        next@[k],
                        Err(e),
                    )
            },
        }
    }

    fn merge_mut(&mut self, other: &Self) -> (r: Result<(), MergeError>) {
        let ghost sb = other.entries@;
        proof {
            lemma_sorted_keys_no_duplicates(sb);
        }
        let mut j: usize = 0;
        while j < other.entries.len()
            invariant
                old(self).merge_mut_req(other),
                sb == other.entries@,
                j <= sb.len(),
                keys_of(sb).no_duplicates(),
                self.wf(),
                forall|k: K|
                    #![trigger self@.dom().contains(k)]
                    #![trigger old(self)@.dom().contains(k)]
                    #![trigger has_key_upto(sb, j as int, k)]
                    self@.contains_key(k) <==> old(self)@.contains_key(k) || has_key_upto(
                        sb,
                        j as int,
                        k,
                    ),
                forall|k: K|
                    #![trigger old(self)@.dom().contains(k), has_key_upto(sb, j as int, k)]
                    old(self)@.contains_key(k) && has_key_upto(sb, j as int, k) ==> old(
                        self,
                    )@[k].merge_mut_rel(&other@[k], self@[k], Ok(())),
                forall|k: K|
                    #![trigger old(self)@.dom().contains(k), has_key_upto(sb, j as int, k)]
                    old(self)@.contains_key(k) && !has_key_upto(sb, j as int, k) ==> self@[k]
                        == old(self)@[k],
                forall|k: K|
                    #![trigger old(self)@.dom().contains(k), has_key_upto(sb, j as int, k)]
                    !old(self)@.contains_key(k) && has_key_upto(sb, j as int, k) ==> cloned::<V>(
                        other@[k],
                        self@[k],
                    ),
            decreases sb.len() - j,
        {
            let ghost view_before = self@;
            let ghost k = sb[j as int].0;
            proof {
                lemma_key_at(sb, j as int);
                assert(other@.contains_key(k));
                assert(other@[k] == sb[j as int].1);
                assert forall|k2: K| #[trigger] has_key_upto(sb, j + 1 as int, k2) implies
                    has_key_upto(sb, j as int, k2) || k2 == k by {
                    let u = choose|u: int| 0 <= u < j + 1 && (#[trigger] sb[u]).0 == k2;
                    if u < j {
                        assert(has_key_upto(sb, j as int, k2));
                    }
                }
                assert forall|k2: K|
                    has_key_upto(sb, j as int, k2) implies has_key_upto(
                    sb,
                    j + 1 as int,
                    k2,
                ) by {
                    let u = choose|u: int| 0 <= u < j && (#[trigger] sb[u]).0 == k2;
                    assert(0 <= u < j + 1 && sb[u].0 == k2);
                }
                assert(has_key_upto(sb, j + 1 as int, k)) by {
                    assert(sb[j as int].0 == k);
                }
                assert(!has_key_upto(sb, j as int, k)) by {
                    if has_key_upto(sb, j as int, k) {
                        let u = choose|u: int| 0 <= u < j && (#[trigger] sb[u]).0 == k;
                        assert(keys_of(sb)[u] == sb[u].0);
                        assert(keys_of(sb)[j as int] == sb[j as int].0);
                        assert(false);
                    }
                }
                assert forall|k2: K|
                    has_key_upto(sb, j + 1 as int, k2) implies other@.contains_key(k2) by {
                    let u = choose|u: int| 0 <= u < j + 1 && (#[trigger] sb[u]).0 == k2;
                    assert(has_key(sb, k2));
                }
            }
            match find_entry(&self.entries, &other.entries[j].0) {
                Some(i) => {
                    proof {
                        assert(self.entries@[i as int].0 == k);
                        assert(has_key(self.entries@, k));
                        assert(view_before.contains_key(k));
                        assert(old(self)@.contains_key(k));
                        assert(view_before[k] == old(self)@[k]);
                    }
                    let taken = self.take_out(i);
                    let (kk, mut vv) = taken;
                    proof {
                        assert(kk == k);
                        assert(vv == old(self)@[k]);
                        assert(old(self)@[k].merge_mut_req(&other@[k]));
                    }
                    let res = vv.merge_mut(&other.entries[j].1);
                    self.insert(kk, vv);
                    proof {
                        assert(self@ == view_before.remove(k).insert(k, self@[k]));
                        assert forall|k2: K| #[trigger] self@.dom().contains(k2) implies
                            view_before.dom().contains(k2) by {}
                        assert forall|k2: K| #[trigger] view_before.dom().contains(k2) implies
                            self@.dom().contains(k2) by {}
                        assert forall|k2: K|
                            k2 != k && #[trigger] view_before.dom().contains(k2) implies self@[k2]
                            == view_before[k2] by {}
                    }
                    match res {
                        Ok(_done) => {
                            proof {
                                assert(res == Ok::<(), MergeError>(_done));
                                assert(old(self)@[k].merge_mut_rel(&other@[k], self@[k], Ok(())));
                            }
                        },
                        Err(e) => {
                            proof {
                                assert(old(self)@.contains_key(k) && other@.contains_key(k)
                                    && old(self)@[k].merge_mut_rel(&other@[k], self@[k], Err(e)));
                                assert forall|k2: K| old(self)@.dom().contains(k2) implies self@
                                    .dom().contains(k2) by {
                                    assert(old(self)@.contains_key(k2));
                                    assert(view_before.contains_key(k2));
                                    assert(self@.contains_key(k2));
                                }
                                assert forall|k2: K| self@.dom().contains(k2) implies old(
                                    self,
                                )@.dom().contains(k2) || other@.dom().contains(k2) by {
                                    assert(self@.contains_key(k2));
                                    assert(view_before.contains_key(k2));
                                    if !old(self)@.contains_key(k2) {
                                        assert(has_key_upto(sb, j as int, k2));
                                        assert(has_key(sb, k2));
                                        assert(other@.contains_key(k2));
                                    }
                                }
                                assert(old(self)@.dom().subset_of(self@.dom()));
                                assert(self@.dom().subset_of(old(self)@.dom().union(
                                    other@.dom(),
                                )));
                                assert forall|k2: K|
                                    #![auto]
                                    old(self)@.contains_key(k2) && !other@.contains_key(
                                        k2,
                                    ) implies self@[k2] == old(self)@[k2] by {
                                    assert(!has_key_upto(sb, j as int, k2));
                                    assert(view_before[k2] == old(self)@[k2]);
                                    assert(k2 != k);
                                    assert(view_before.contains_key(k2));
                                }
                            }
                            return Err(e);
                        },
                    }
                },
                None => {
                    proof {
                        assert(!has_key(self.entries@, k));
                        assert(!view_before.contains_key(k));
                        assert(!old(self)@.contains_key(k));
                    }
                    let nk = other.entries[j].0.dup_key();
                    let nv = other.entries[j].1.clone();
                    proof {
                        assert(nk == k);
                    }
                    self.insert(nk, nv);
                    proof {
                        assert(self@ == view_before.insert(k, self@[k]));
                        assert(cloned::<V>(other@[k], self@[k]));
                        assert forall|k2: K| #[trigger] self@.dom().contains(k2) implies
                            view_before.dom().contains(k2) || k2 == k by {}
                        assert forall|k2: K| #[trigger] view_before.dom().contains(k2) implies
                            self@.dom().contains(k2) by {}
                        assert forall|k2: K|
                            k2 != k && #[trigger] view_before.dom().contains(k2) implies self@[k2]
                            == view_before[k2] by {}
                    }
                },
            }
            proof {
                assert forall|k2: K|
                    #![auto]
                    self@.contains_key(k2) implies old(self)@.contains_key(k2) || has_key_upto(
                    sb,
                    j + 1 as int,
                    k2,
                ) by {
                    if k2 != k {
                        assert(view_before.contains_key(k2));
                        if !old(self)@.contains_key(k2) {
                            assert(has_key_upto(sb, j as int, k2));
                        }
                    }
                }
                assert forall|k2: K|
                    #![auto]
                    old(self)@.contains_key(k2) || has_key_upto(sb, j + 1 as int, k2) implies
                    self@.contains_key(k2) by {
                    if k2 != k {
                        if has_key_upto(sb, j + 1 as int, k2) && !old(self)@.contains_key(k2) {
                            assert(has_key_upto(sb, j as int, k2));
                        }
                        assert(view_before.contains_key(k2));
                    }
                }
                assert forall|k2: K|
                    #![auto]
                    old(self)@.contains_key(k2) && has_key_upto(sb, j + 1 as int, k2) implies old(
                    self,
                )@[k2].merge_mut_rel(&other@[k2], self@[k2], Ok(())) by {
                    if k2 != k {
                        assert(has_key_upto(sb, j as int, k2));
                        assert(view_before.contains_key(k2));
                        assert(self@[k2] == view_before[k2]);
                    }
                }
                assert forall|k2: K|
                    #![auto]
                    old(self)@.contains_key(k2) && !has_key_upto(sb, j + 1 as int, k2) implies
                    self@[k2] == old(self)@[k2] by {
                    assert(k2 != k);
                    assert(view_before.contains_key(k2));
                    assert(!has_key_upto(sb, j as int, k2));
                }
                assert forall|k2: K|
                    #![auto]
                    !old(self)@.contains_key(k2) && has_key_upto(sb, j + 1 as int, k2) implies
                    cloned::<V>(other@[k2], self@[k2]) by {
                    if k2 != k {
                        assert(has_key_upto(sb, j as int, k2));
                        assert(view_before.contains_key(k2));
                        assert(self@[k2] == view_before[k2]);
                    }
                }
            }
            j += 1;
        }
        proof {
            assert forall|k2: K| #[trigger] other@.contains_key(k2) implies has_key_upto(
                sb,
                sb.len() as int,
                k2,
            ) by {
                let u = index_of(sb, k2);
                assert(0 <= u < sb.len() && sb[u].0 == k2);
            }
            assert forall|k2: K| #[trigger] has_key_upto(sb, sb.len() as int, k2) implies has_key(
                sb,
                k2,
            ) by {
                let u = choose|u: int|
                    0 <= u < sb.len() as int && (#[trigger] sb[u]).0 == k2;
                assert(0 <= u < sb.len() && sb[u].0 == k2);
            }
            assert forall|k2: K| self@.dom().contains(k2) implies old(self)@.dom().contains(k2)
                || other@.dom().contains(k2) by {
                assert(self@.contains_key(k2));
                if !old(self)@.contains_key(k2) {
                    assert(has_key_upto(sb, sb.len() as int, k2));
                    assert(has_key(sb, k2));
                    assert(other@.contains_key(k2));
                }
            }
            assert forall|k2: K|
                old(self)@.dom().contains(k2) || other@.dom().contains(k2) implies self@
                .dom().contains(k2) by {
                if old(self)@.contains_key(k2) {
                    assert(self@.contains_key(k2));
                } else {
                    assert(other@.contains_key(k2));
                    assert(has_key_upto(sb, sb.len() as int, k2));
                    assert(self@.contains_key(k2));
                }
            }
            assert(self@.dom() =~= old(self)@.dom().union(other@.dom()));
            assert forall|k2: K|
                #![auto]
                old(self)@.contains_key(k2) && other@.contains_key(k2) implies old(
                self,
            )@[k2].merge_mut_rel(&other@[k2], self@[k2], Ok(())) by {
                assert(has_key_upto(sb, j as int, k2));
            }
            assert forall|k2: K|
                #![auto]
                old(self)@.contains_key(k2) && !other@.contains_key(k2) implies self@[k2] == old(
                self,
            )@[k2] by {
                assert(!has_key_upto(sb, j as int, k2)) by {
                    if has_key_upto(sb, j as int, k2) {
                        assert(has_key(sb, k2));
                        assert(other@.contains_key(k2));
                    }
                }
            }
            assert forall|k2: K|
                #![auto]
                !old(self)@.contains_key(k2) && other@.contains_key(k2) implies cloned::<V>(
                other@[k2],
                self@[k2],
            ) by {
                assert(has_key_upto(sb, j as int, k2));
            }
        }
        Ok(())
    }
}

} // verus!
