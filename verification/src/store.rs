//! The local durable document store: a key-value cache of notes on the
//! client device, keyed by storage key.
//!
//! A write either stores the full document or leaves the prior value in
//! place; partial writes are not observable.

use vstd::prelude::*;
use vstd::seq_lib::lemma_multiset_commutative;
use vstd::pervasive::VecAdditionalExecFns;
use crate::errors::StoreError;
use crate::note::{Note, NoteView};

verus! {

/// Whether the keys of `s` are pairwise distinct.
pub open spec fn keys_distinct(s: Seq<(Seq<char>, NoteView)>) -> bool {
    forall|i: int, j: int| 0 <= i < j < s.len() ==> s[i].0 != s[j].0
}

/// The index of the (unique) entry of `s` with key `k`.
pub open spec fn key_index(s: Seq<(Seq<char>, NoteView)>, k: Seq<char>) -> int {
    choose|i: int| 0 <= i < s.len() && s[i].0 == k
}

/// The notes of `s`, keys dropped.
pub open spec fn notes_of(s: Seq<(Seq<char>, NoteView)>) -> Seq<NoteView> {
    s.map_values(|p: (Seq<char>, NoteView)| p.1)
}

/// The key-value store of documents.
pub struct LocalPersistentStore {
    docs: Vec<(String, Note)>,
}

impl View for LocalPersistentStore {
    type V = Seq<(Seq<char>, NoteView)>;

    closed spec fn view(&self) -> Seq<(Seq<char>, NoteView)> {
        Seq::new(self.docs@.len(), |i: int| (self.docs@[i].0@, self.docs@[i].1@))
    }
}

impl LocalPersistentStore {
    /// Each key maps to at most one document.
    pub open spec fn wf(self) -> bool {
        keys_distinct(self@)
    }

    /// Whether some document is stored under `k`.
    pub open spec fn has_key(self, k: Seq<char>) -> bool {
        exists|i: int| 0 <= i < self@.len() && self@[i].0 == k
    }

    /// The document stored under `k`.
    pub open spec fn note_at(self, k: Seq<char>) -> NoteView
        recommends
            self.has_key(k),
    {
        self@[key_index(self@, k)].1
    }

    /// An empty store.
    pub fn new() -> (r: LocalPersistentStore)
        ensures
            r@ == Seq::<(Seq<char>, NoteView)>::empty(),
            r.wf(),
    {
        let r = LocalPersistentStore { docs: Vec::new() };
        proof {
            assert(r@ =~= Seq::<(Seq<char>, NoteView)>::empty());
        }
        r
    }

    /// The number of stored documents.
    pub fn len(&self) -> (r: usize)
        ensures
            r == self@.len(),
    {
        self.docs.len()
    }

    /// The position of the entry stored under `key`.
    fn find(&self, key: &String) -> (r: Option<usize>)
        ensures
            r is None ==> !self.has_key(key@),
            r is Some ==> 0 <= r.unwrap() < self@.len() && self@[r.unwrap() as int].0 == key@,
    {
        let mut i: usize = 0;
        while i < self.docs.len()
            invariant
                i <= self.docs.len(),
                forall|j: int| 0 <= j < i ==> self@[j].0 != key@,
            decreases self.docs.len() - i,
        {
            if self.docs[i].0.eq(key) {
                proof {
                    assert(self@[i as int].0 == key@);
                }
                return Some(i);
            }
            i = i + 1;
        }
        proof {
            assert(!self.has_key(key@)) by {
                if self.has_key(key@) {
                    let w = choose|w: int| 0 <= w < self@.len() && self@[w].0 == key@;
                    assert(self@[w].0 != key@);
                }
            }
        }
        None
    }

    /// Stores `note` under `key`, replacing any prior document under that
    /// key. Either the full document is stored or the store reports a
    /// failure and the prior value remains; in this in-memory model the
    /// write always succeeds.
    pub fn put(&mut self, key: String, note: Note) -> (r: Result<(), StoreError>)
        requires
            old(self).wf(),
        ensures
            r is Ok,
            final(self).wf(),
            final(self).has_key(key@),
            final(self).note_at(key@) == note@,
            forall|k: Seq<char>| k != key@ ==> final(self).has_key(k) == old(self).has_key(k),
            forall|k: Seq<char>|
                k != key@ && old(self).has_key(k) ==> final(self).note_at(k) == old(
                    self,
                ).note_at(k),
            old(self).has_key(key@) ==> final(self)@ == old(self)@.update(
                key_index(old(self)@, key@),
                (key@, note@),
            ),
            !old(self).has_key(key@) ==> final(self)@ == old(self)@.push((key@, note@)),
    {
        let found = self.find(&key);
        let ghost s = self@;
        match found {
            Some(i) => {
                self.docs.set(i, (key, note));
                proof {
                    let kv = self@[i as int];
                    assert(self@ =~= s.update(i as int, kv));
                    lemma_key_unique(s, i as int, kv.0);
                    assert forall|a: int, b: int|
                        0 <= a < b < self@.len() implies self@[a].0 != self@[b].0 by {
                        assert(s[a].0 != s[b].0);
                    }
                    lemma_key_unique(self@, i as int, kv.0);
                    assert forall|k: Seq<char>| k != kv.0 implies self.has_key(k) == old(
                        self,
                    ).has_key(k) by {
                        if old(self).has_key(k) {
                            let w = key_index(s, k);
                            assert(self@[w].0 == k);
                        }
                        if self.has_key(k) {
                            let w = key_index(self@, k);
                            assert(s[w].0 == k);
                        }
                    }
                    assert forall|k: Seq<char>|
                        k != kv.0 && old(self).has_key(k) implies self.note_at(k) == old(
                        self,
                    ).note_at(k) by {
                        let w = key_index(s, k);
                        assert(self@[w].0 == k);
                        lemma_key_unique(s, w, k);
                        lemma_key_unique(self@, w, k);
                    }
                }
            },
            None => {
                self.docs.push((key, note));
                proof {
                    let kv = self@[self@.len() - 1];
                    assert(self@ =~= s.push(kv));
                    assert forall|a: int, b: int|
                        0 <= a < b < self@.len() implies self@[a].0 != self@[b].0 by {
                        if b < self@.len() - 1 {
                            assert(s[a].0 != s[b].0);
                        } else {
                            assert(!old(self).has_key(self@[b].0));
                            assert(s[a].0 != self@[b].0);
                        }
                    }
                    lemma_key_unique(self@, self@.len() - 1, kv.0);
                    assert forall|k: Seq<char>| k != kv.0 implies self.has_key(k) == old(
                        self,
                    ).has_key(k) by {
                        if old(self).has_key(k) {
                            let w = key_index(s, k);
                            assert(self@[w].0 == k);
                        }
                        if self.has_key(k) {
                            let w = key_index(self@, k);
                            assert(w < s.len());
                            assert(s[w].0 == k);
                        }
                    }
                    assert forall|k: Seq<char>|
                        k != kv.0 && old(self).has_key(k) implies self.note_at(k) == old(
                        self,
                    ).note_at(k) by {
                        let w = key_index(s, k);
                        assert(self@[w].0 == k);
                        lemma_key_unique(s, w, k);
                        lemma_key_unique(self@, w, k);
                    }
                }
            },
        }
        Ok(())
    }

    /// Reads the document stored under `key`.
    pub fn get(&self, key: &String) -> (r: Option<Note>)
        requires
            self.wf(),
        ensures
            r is Some <==> self.has_key(key@),
            r is Some ==> r.unwrap()@ == self.note_at(key@),
    {
        match self.find(key) {
            Some(i) => {
                let n = self.docs[i].1.clone();
                proof {
                    assert(self@[i as int].1 == n@);
                    lemma_key_unique(self@, i as int, key@);
                }
                Some(n)
            },
            None => None,
        }
    }

    /// Removes the document stored under `key`, if any.
    pub fn remove(&mut self, key: &String)
        requires
            old(self).wf(),
        ensures
            final(self).wf(),
            !final(self).has_key(key@),
            forall|k: Seq<char>| k != key@ ==> final(self).has_key(k) == old(self).has_key(k),
            forall|k: Seq<char>|
                k != key@ && old(self).has_key(k) ==> final(self).note_at(k) == old(
                    self,
                ).note_at(k),
            old(self).has_key(key@) ==> final(self)@ == old(self)@.remove(
                key_index(old(self)@, key@),
            ),
            !old(self).has_key(key@) ==> final(self)@ == old(self)@,
    {
        let found = self.find(key);
        let ghost s = self@;
        match found {
            Some(i) => {
                self.docs.remove(i);
                proof {
                    lemma_key_unique(s, i as int, key@);
                    assert(self@ =~= s.remove(i as int));
                    let t = self@;
                    assert forall|a: int, b: int|
                        0 <= a < b < t.len() implies t[a].0 != t[b].0 by {
                        assert(t[a] == if a < i { s[a] } else { s[a + 1] });
                        assert(t[b] == if b < i { s[b] } else { s[b + 1] });
                    }
                    assert forall|k: Seq<char>| self.has_key(k) implies old(self).has_key(k)
                        && k != key@ by {
                        let w = key_index(t, k);
                        assert(t[w] == if w < i { s[w] } else { s[w + 1] });
                    }
                    assert forall|k: Seq<char>|
                        k != key@ && old(self).has_key(k) implies self.has_key(k) && self.note_at(
                        k,
                    ) == old(self).note_at(k) by {
                        let w = key_index(s, k);
                        lemma_key_unique(s, w, k);
                        if w < i {
                            assert(t[w] == s[w]);
                            lemma_key_unique(t, w, k);
                        } else {
                            assert(t[w - 1] == s[w]);
                            lemma_key_unique(t, w - 1, k);
                        }
                    }
                }
            },
            None => {
            },
        }
    }

    /// Lists every stored document, ordered by modification time, most
    /// recently updated first. The result holds exactly the stored
    /// documents.
    pub fn list_all(&self) -> (r: Vec<Note>)
        ensures
            r@.len() == self@.len(),
            forall|i: int, j: int|
                0 <= i < j < r@.len() ==> r@[i]@.updated_at >= r@[j]@.updated_at,
            r@.map_values(|n: Note| n@).to_multiset() == notes_of(self@).to_multiset(),
            forall|i: int| 0 <= i < r@.len() ==> notes_of(self@).contains(#[trigger] r@[i]@),
    {
        broadcast use vstd::seq_lib::group_to_multiset_ensures;

        let mut out: Vec<Note> = Vec::new();
        let mut i: usize = 0;
        while i < self.docs.len()
            invariant
                i <= self.docs.len(),
                out@.len() == i,
                forall|a: int, b: int|
                    0 <= a < b < out@.len() ==> out@[a]@.updated_at >= out@[b]@.updated_at,
                out@.map_values(|n: Note| n@).to_multiset() == notes_of(
                    self@.take(i as int),
                ).to_multiset(),
                forall|a: int| 0 <= a < out@.len() ==> notes_of(self@).contains(#[trigger] out@[a]@),
            decreases self.docs.len() - i,
        {
            let note = self.docs[i].1.clone();
            let ghost prev = out@;
            let mut j: usize = 0;
            while j < out.len() && out[j].updated_at >= note.updated_at
                invariant
                    j <= out.len(),
                    out@ == prev,
                    forall|a: int| 0 <= a < j ==> out@[a]@.updated_at >= note@.updated_at,
                decreases out.len() - j,
            {
                j = j + 1;
            }
            let ghost nv = note@;
            proof {
                assert(j == prev.len() || prev[j as int]@.updated_at < nv.updated_at);
            }
            out.insert(j, note);
            proof {
                assert(out@ =~= prev.insert(j as int, out@[j as int]));
                assert forall|a: int, b: int|
                    0 <= a < b < out@.len() implies out@[a]@.updated_at >= out@[b]@.updated_at by {
                    assert(a < j ==> out@[a] == prev[a]);
                    assert(a == j ==> out@[a]@ == nv);
                    assert(a > j ==> out@[a] == prev[a - 1]);
                    assert(b < j ==> out@[b] == prev[b]);
                    assert(b == j ==> out@[b]@ == nv);
                    assert(b > j ==> out@[b] == prev[b - 1]);
                }
                broadcast use vstd::seq_lib::group_to_multiset_ensures;

                let pm = prev.map_values(|n: Note| n@);
                assert(out@.map_values(|n: Note| n@) =~= pm.insert(j as int, nv));
                lemma_to_multiset_insert(pm, j as int, nv);
                assert(out@.map_values(|n: Note| n@).to_multiset() == pm.to_multiset().insert(nv));
                assert(notes_of(self@.take(i + 1)) =~= notes_of(self@.take(i as int)).push(
                    self@[i as int].1,
                ));
                assert(self@[i as int].1 == nv);
                assert(notes_of(self@.take(i as int)).push(nv).to_multiset() == notes_of(
                    self@.take(i as int),
                ).to_multiset().insert(nv));
                assert(out@.map_values(|n: Note| n@).to_multiset() == notes_of(
                    self@.take(i + 1),
                ).to_multiset());
                assert forall|a: int|
                    0 <= a < out@.len() implies notes_of(self@).contains(out@[a]@) by {
                    if a == j {
                        assert(notes_of(self@)[i as int] == nv);
                    } else if a < j {
                        assert(out@[a] == prev[a]);
                    } else {
                        assert(out@[a] == prev[a - 1]);
                    }
                }
            }
            i = i + 1;
        }
        proof {
            assert(self@.take(i as int) =~= self@);
        }
        out
    }
}

/// If the keys of `s` are distinct and `s[i]` has key `k`, then `i` is the
/// index that `key_index` picks.
pub proof fn lemma_key_unique(s: Seq<(Seq<char>, NoteView)>, i: int, k: Seq<char>)
    requires
        keys_distinct(s),
        0 <= i < s.len(),
        s[i].0 == k,
    ensures
        key_index(s, k) == i,
        exists|j: int| 0 <= j < s.len() && s[j].0 == k,
{
    assert(exists|j: int| 0 <= j < s.len() && s[j].0 == k) by {
        assert(s[i].0 == k);
    }
    let w = key_index(s, k);
    if w < i {
        assert(s[w].0 != s[i].0);
    }
    if w > i {
        assert(s[i].0 != s[w].0);
    }
}

/// Inserting an element anywhere adds exactly it to the multiset.
proof fn lemma_to_multiset_insert<A>(s: Seq<A>, i: int, x: A)
    requires
        0 <= i <= s.len(),
    ensures
        s.insert(i, x).to_multiset() == s.to_multiset().insert(x),
{
    broadcast use vstd::seq_lib::group_to_multiset_ensures;

    let a = s.take(i);
    let b = s.skip(i);
    assert(s.insert(i, x) =~= a.push(x) + b);
    lemma_multiset_commutative(a.push(x), b);
    assert(s =~= a + b);
    lemma_multiset_commutative(a, b);
    assert(s.insert(i, x).to_multiset() =~= s.to_multiset().insert(x));
}

} // verus!
