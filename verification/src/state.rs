//! Account state: a finite map from resource-path keys to raw resource
//! payloads, kept in canonical (strictly ascending) key order so that its
//! encoding is deterministic whatever order the entries were inserted in.

use vstd::prelude::*;

use crate::byteorder::bytes_eq;
use crate::byteorder::bytes_lt;
use crate::byteorder::lemma_lex_asym;
use crate::byteorder::lemma_lex_connected;
use crate::byteorder::lemma_lex_irrefl;
use crate::byteorder::lemma_lex_trans;
use crate::byteorder::lex_lt;

verus! {

/// Entries are pairwise strictly ascending by key; in particular keys are
/// distinct.
pub open spec fn sorted_strict(e: Seq<(Seq<u8>, Seq<u8>)>) -> bool {
    forall|i: int, j: int|
        #![trigger e[i], e[j]]
        0 <= i < j < e.len() ==> lex_lt(e[i].0, e[j].0)
}

/// Each adjacent pair of entries is strictly ascending by key.
pub open spec fn sorted_adjacent(e: Seq<(Seq<u8>, Seq<u8>)>) -> bool {
    forall|i: int| #![trigger e[i]] 0 <= i && i + 1 < e.len() ==> lex_lt(e[i].0, e[i + 1].0)
}

/// Key and entry counts fit the length fields of the canonical encoding.
pub open spec fn size_ok(e: Seq<(Seq<u8>, Seq<u8>)>) -> bool {
    &&& e.len() <= u64::MAX
    &&& forall|i: int|
        #![trigger e[i]]
        0 <= i < e.len() ==> e[i].0.len() <= u64::MAX && e[i].1.len() <= u64::MAX
}

/// The value bound to `key`, if any: the first entry with that key.
pub open spec fn spec_get(e: Seq<(Seq<u8>, Seq<u8>)>, key: Seq<u8>) -> Option<Seq<u8>>
    decreases e.len(),
{
    if e.len() == 0 {
        None
    } else if e[0].0 == key {
        Some(e[0].1)
    } else {
        spec_get(e.drop_first(), key)
    }
}

proof fn lemma_sorted_pair(e: Seq<(Seq<u8>, Seq<u8>)>, i: int, j: int)
    requires
        sorted_adjacent(e),
        0 <= i < j < e.len(),
    ensures
        lex_lt(e[i].0, e[j].0),
    decreases j - i,
{
    if j == i + 1 {
    } else {
        lemma_sorted_pair(e, i, j - 1);
        lemma_lex_trans(e[i].0, e[j - 1].0, e[j].0);
    }
}

/// Adjacent ascending order gives the pairwise order.
pub proof fn lemma_adjacent_implies_sorted(e: Seq<(Seq<u8>, Seq<u8>)>)
    requires
        sorted_adjacent(e),
    ensures
        sorted_strict(e),
{
    assert forall|i: int, j: int| 0 <= i < j < e.len() implies lex_lt(e[i].0, e[j].0) by {
        lemma_sorted_pair(e, i, j);
    }
}

/// Lookup distributes over concatenation: the left part wins when it has the
/// key.
pub proof fn lemma_get_concat(a: Seq<(Seq<u8>, Seq<u8>)>, b: Seq<(Seq<u8>, Seq<u8>)>, key: Seq<u8>)
    ensures
        spec_get(a + b, key) == (if spec_get(a, key) is Some {
            spec_get(a, key)
        } else {
            spec_get(b, key)
        }),
    decreases a.len(),
{
    if a.len() == 0 {
        assert(a + b =~= b);
    } else {
        assert((a + b)[0] == a[0]);
        assert((a + b).drop_first() =~= a.drop_first() + b);
        lemma_get_concat(a.drop_first(), b, key);
    }
}

/// A key that no entry holds is not found.
pub proof fn lemma_get_absent(e: Seq<(Seq<u8>, Seq<u8>)>, key: Seq<u8>)
    requires
        forall|i: int| #![trigger e[i]] 0 <= i < e.len() ==> e[i].0 != key,
    ensures
        spec_get(e, key) is None,
    decreases e.len(),
{
    if e.len() > 0 {
        assert(forall|i: int|
            #![trigger e.drop_first()[i]]
            0 <= i < e.drop_first().len() ==> e.drop_first()[i] == e[i + 1]);
        lemma_get_absent(e.drop_first(), key);
    }
}

/// The mathematical contents of an entry vector.
pub open spec fn entries_view(entries: Seq<(Vec<u8>, Vec<u8>)>) -> Seq<(Seq<u8>, Seq<u8>)> {
    Seq::new(entries.len(), |i: int| (entries[i].0@, entries[i].1@))
}

/// An account's state: resource payloads addressed by resource-path keys.
pub struct AccountState {
    entries: Vec<(Vec<u8>, Vec<u8>)>,
}

impl View for AccountState {
    type V = Seq<(Seq<u8>, Seq<u8>)>;

    closed spec fn view(&self) -> Seq<(Seq<u8>, Seq<u8>)> {
        entries_view(self.entries@)
    }
}

impl AccountState {
    /// Canonical form: strictly ascending keys, sizes within the encoding's
    /// length fields.
    pub open spec fn wf(self) -> bool {
        sorted_strict(self@) && size_ok(self@)
    }

    /// The empty account state.
    pub fn new() -> (r: AccountState)
        ensures
            r@ == Seq::<(Seq<u8>, Seq<u8>)>::empty(),
            r.wf(),
    {
        let r = AccountState { entries: Vec::new() };
        proof {
            assert(r@ =~= Seq::<(Seq<u8>, Seq<u8>)>::empty());
        }
        r
    }

    /// Wraps an entry vector already in canonical form: the decoder's
    /// constructor.
    pub(crate) fn from_sorted(entries: Vec<(Vec<u8>, Vec<u8>)>) -> (r: AccountState)
        requires
            sorted_strict(entries_view(entries@)),
            size_ok(entries_view(entries@)),
        ensures
            r@ == entries_view(entries@),
            r.wf(),
    {
        AccountState { entries }
    }

    /// The number of resources held.
    pub fn len(&self) -> (r: usize)
        ensures
            r == self@.len(),
    {
        self.entries.len()
    }

    /// The entry at a position, in canonical order.
    pub fn entry_at(&self, i: usize) -> (r: (&Vec<u8>, &Vec<u8>))
        requires
            i < self@.len(),
        ensures
            (r.0@, r.1@) == self@[i as int],
    {
        let e = &self.entries[i];
        (&e.0, &e.1)
    }

    /// Looks a resource up by its path key.
    pub fn get(&self, key: &Vec<u8>) -> (r: Option<&Vec<u8>>)
        ensures
            match r {
                Some(v) => spec_get(self@, key@) == Some(v@),
                None => spec_get(self@, key@) is None,
            },
    {
        let n = self.entries.len();
        let mut i: usize = 0;
        proof {
            assert(self@.skip(0) == self@);
        }
        loop
            invariant
                0 <= i <= n,
                n == self.entries@.len(),
                n == self@.len(),
                spec_get(self@, key@) == spec_get(self@.skip(i as int), key@),
            decreases n - i,
        {
            if i == n {
                proof {
                    assert(self@.skip(i as int).len() == 0);
                }
                return None;
            }
            let e = &self.entries[i];
            proof {
                assert(self@.skip(i as int)[0] == self@[i as int]);
            }
            if bytes_eq(&e.0, key) {
                return Some(&e.1);
            }
            proof {
                assert(self@.skip(i as int).drop_first() =~= self@.skip(i + 1));
            }
            i = i + 1;
        }
    }

    /// Binds `key` to `value`, replacing any earlier binding. The canonical
    /// order makes the result independent of the order in which distinct keys
    /// were inserted.
    pub fn insert(&mut self, key: Vec<u8>, value: Vec<u8>)
        requires
            old(self).wf(),
        ensures
            final(self).wf(),
            spec_get(final(self)@, key@) == Some(value@),
            forall|k2: Seq<u8>| k2 != key@ ==> spec_get(final(self)@, k2) == spec_get(old(self)@, k2),
    {
        let ghost o = self@;
        let n = self.entries.len();
        let mut idx: usize = 0;
        loop
            invariant
                0 <= idx <= n,
                n == self.entries@.len(),
                self@ == o,
                old(self).wf(),
                o == old(self)@,
                forall|j: int| #![trigger o[j]] 0 <= j < idx ==> lex_lt(o[j].0, key@),
            ensures
                0 <= idx <= n,
                n == self.entries@.len(),
                self@ == o,
                forall|j: int| #![trigger o[j]] 0 <= j < idx ==> lex_lt(o[j].0, key@),
                idx < n ==> !lex_lt(o[idx as int].0, key@),
            decreases n - idx,
        {
            if idx == n {
                break;
            }
            if bytes_lt(&self.entries[idx].0, &key) {
                proof {
                    assert(o[idx as int].0 == self.entries@[idx as int].0@);
                }
                idx = idx + 1;
            } else {
                proof {
                    assert(o[idx as int].0 == self.entries@[idx as int].0@);
                }
                break;
            }
        }
        let replace = idx < n && bytes_eq(&self.entries[idx].0, &key);
        let key_len = key.len();
        let value_len = value.len();
        proof {
            assert(usize::MAX <= u64::MAX);
            assert(key@.len() == key_len <= u64::MAX);
            assert(value@.len() == value_len <= u64::MAX);
        }
        if replace {
            self.entries.remove(idx);
            self.entries.insert(idx, (key, value));
            proof {
                assert(self@ =~= o.take(idx as int) + seq![(key@, value@)] + o.skip(idx + 1));
            }
        } else {
            self.entries.insert(idx, (key, value));
            proof {
                assert(self@ =~= o.take(idx as int) + seq![(key@, value@)] + o.skip(idx as int));
            }
        }
        let new_len = self.entries.len();
        proof {
            let f = self@;
            let head = o.take(idx as int);
            let tail = if replace {
                o.skip(idx + 1)
            } else {
                o.skip(idx as int)
            };
            let mid = seq![(key@, value@)];
            assert(f == head + mid + tail);
            // `key` sorts strictly above everything in `head` ...
            assert(forall|j: int| #![trigger head[j]] 0 <= j < head.len() ==> lex_lt(head[j].0, key@));
            // ... and strictly below everything in `tail`.
            assert forall|j: int| #![trigger tail[j]] 0 <= j < tail.len() implies lex_lt(key@, tail[j].0) by {
                if replace {
                    assert(tail[j] == o[idx + 1 + j]);
                    assert(key@ == o[idx as int].0);
                    assert(lex_lt(o[idx as int].0, o[idx + 1 + j].0));
                } else {
                    assert(tail[j] == o[idx + j]);
                    assert(!lex_lt(o[idx as int].0, key@));
                    if key@ == o[idx as int].0 {
                        assert(false);
                    }
                    lemma_lex_irrefl(key@);
                    if !lex_lt(key@, o[idx as int].0) {
                        lemma_lex_connected(key@, o[idx as int].0);
                        assert(false);
                    }
                    if j > 0 {
                        lemma_lex_trans(key@, o[idx as int].0, o[idx + j].0);
                    }
                }
            }
            // Well-formedness: the three segments interleave in order.
            assert forall|i: int, j: int| 0 <= i < j < f.len() implies lex_lt(f[i].0, f[j].0) by {
                let hl = head.len() as int;
                if j < hl {
                    assert(f[i] == o[i] && f[j] == o[j]);
                } else if i < hl && j == hl {
                    assert(f[i] == head[i]);
                } else if i < hl && j > hl {
                    assert(f[i] == head[i] && f[j] == tail[j - hl - 1]);
                    lemma_lex_trans(f[i].0, key@, f[j].0);
                } else if i == hl {
                    assert(f[j] == tail[j - hl - 1]);
                } else {
                    assert(f[i] == tail[i - hl - 1] && f[j] == tail[j - hl - 1]);
                    if replace {
                        assert(f[i] == o[idx + 1 + (i - hl - 1)]);
                        assert(f[j] == o[idx + 1 + (j - hl - 1)]);
                    } else {
                        assert(f[i] == o[idx + (i - hl - 1)]);
                        assert(f[j] == o[idx + (j - hl - 1)]);
                    }
                }
            }
            assert(sorted_strict(f));
            assert(size_ok(f)) by {
                assert(f.len() == new_len <= u64::MAX);
                assert forall|i: int| 0 <= i < f.len() implies (#[trigger] f[i]).0.len() <= u64::MAX
                    && f[i].1.len() <= u64::MAX by {
                    let hl = head.len() as int;
                    if i < hl {
                        assert(f[i] == o[i]);
                    } else if i == hl {
                        assert(f[i] == (key@, value@));
                    } else if replace {
                        assert(f[i] == o[idx + 1 + (i - hl - 1)]);
                    } else {
                        assert(f[i] == o[idx + (i - hl - 1)]);
                    }
                }
            }
            // The new key is found, with the new value.
            assert forall|i: int| #![trigger head[i]] 0 <= i < head.len() implies head[i].0 != key@ by {
                lemma_lex_irrefl(key@);
            }
            lemma_get_absent(head, key@);
            assert(f =~= head + (mid + tail));
            lemma_get_concat(head, mid + tail, key@);
            assert((mid + tail)[0] == (key@, value@));
            assert(spec_get(mid + tail, key@) == Some(value@));
            assert(spec_get(f, key@) == Some(value@));
            // Every other key is bound exactly as before.
            assert forall|k2: Seq<u8>| k2 != key@ implies spec_get(f, k2) == spec_get(o, k2) by {
                lemma_get_concat(head, mid + tail, k2);
                assert((mid + tail).drop_first() =~= tail);
                assert(spec_get(mid + tail, k2) == spec_get(tail, k2));
                assert(o =~= head + o.skip(idx as int));
                lemma_get_concat(head, o.skip(idx as int), k2);
                if replace {
                    assert(o.skip(idx as int).drop_first() =~= o.skip(idx + 1));
                    assert(o.skip(idx as int)[0] == o[idx as int]);
                    assert(o[idx as int].0 == key@);
                    assert(spec_get(o.skip(idx as int), k2) == spec_get(tail, k2));
                }
            }
        }
    }
}

/// Two canonical states that bind every key alike are the same state: the
/// canonical order leaves no freedom in the representation.
pub proof fn lemma_canonical_unique(e1: Seq<(Seq<u8>, Seq<u8>)>, e2: Seq<(Seq<u8>, Seq<u8>)>)
    requires
        sorted_strict(e1),
        sorted_strict(e2),
        forall|k: Seq<u8>| spec_get(e1, k) == spec_get(e2, k),
    ensures
        e1 == e2,
    decreases e1.len(),
{
    if e1.len() == 0 {
        if e2.len() > 0 {
            assert(spec_get(e2, e2[0].0) == Some(e2[0].1));
            assert(spec_get(e1, e2[0].0) is None);
        }
        assert(e1 =~= e2);
    } else if e2.len() == 0 {
        assert(spec_get(e1, e1[0].0) == Some(e1[0].1));
        assert(spec_get(e2, e1[0].0) is None);
    } else {
        // The heads agree: each head key is the strict minimum of its side,
        // and each is bound on the other side too.
        let k1 = e1[0].0;
        let k2 = e2[0].0;
        assert(spec_get(e1, k1) == Some(e1[0].1));
        assert(spec_get(e2, k2) == Some(e2[0].1));
        if k1 != k2 {
            assert(spec_get(e2, k1) == spec_get(e1, k1));
            assert(spec_get(e2, k1) is Some);
            lemma_get_some_index(e2, k1);
            let i1 = choose|i: int| 0 <= i < e2.len() && e2[i].0 == k1;
            assert(i1 > 0);
            assert(lex_lt(k2, k1));
            assert(spec_get(e1, k2) is Some);
            lemma_get_some_index(e1, k2);
            let i2 = choose|i: int| 0 <= i < e1.len() && e1[i].0 == k2;
            assert(i2 > 0);
            assert(lex_lt(k1, k2));
            lemma_lex_asym(k1, k2);
            assert(false);
        }
        assert(e1[0].1 == e2[0].1) by {
            assert(spec_get(e1, k1) == spec_get(e2, k1));
        }
        let t1 = e1.drop_first();
        let t2 = e2.drop_first();
        assert(forall|i: int|
            #![trigger t1[i]]
            0 <= i < t1.len() ==> t1[i] == e1[i + 1]);
        assert(forall|i: int|
            #![trigger t2[i]]
            0 <= i < t2.len() ==> t2[i] == e2[i + 1]);
        assert(sorted_strict(t1));
        assert(sorted_strict(t2));
        assert forall|k: Seq<u8>| spec_get(t1, k) == spec_get(t2, k) by {
            if k == k1 {
                // The head key never recurs below the head.
                assert forall|i: int| #![trigger t1[i]] 0 <= i < t1.len() implies t1[i].0 != k by {
                    assert(lex_lt(e1[0].0, e1[i + 1].0));
                    lemma_lex_irrefl(k);
                }
                assert forall|i: int| #![trigger t2[i]] 0 <= i < t2.len() implies t2[i].0 != k by {
                    assert(lex_lt(e2[0].0, e2[i + 1].0));
                    lemma_lex_irrefl(k);
                }
                lemma_get_absent(t1, k);
                lemma_get_absent(t2, k);
            } else {
                assert(spec_get(e1, k) == spec_get(t1, k));
                assert(spec_get(e2, k) == spec_get(t2, k));
            }
        }
        lemma_canonical_unique(t1, t2);
        assert forall|i: int| 0 <= i < e1.len() implies e1[i] == e2[i] by {
            if i > 0 {
                assert(e1[i] == t1[i - 1]);
                assert(e2[i] == t2[i - 1]);
            }
        }
        assert(e1 =~= e2);
    }
}

/// A found key is held by some entry.
pub proof fn lemma_get_some_index(e: Seq<(Seq<u8>, Seq<u8>)>, key: Seq<u8>)
    requires
        spec_get(e, key) is Some,
    ensures
        exists|i: int| 0 <= i < e.len() && (#[trigger] e[i]).0 == key,
    decreases e.len(),
{
    if e.len() > 0 {
        if e[0].0 == key {
            assert(e[0].0 == key);
        } else {
            lemma_get_some_index(e.drop_first(), key);
            let i = choose|i: int|
                0 <= i < e.drop_first().len() && (#[trigger] e.drop_first()[i]).0 == key;
            assert(e[i + 1] == e.drop_first()[i]);
        }
    }
}

} // verus!
