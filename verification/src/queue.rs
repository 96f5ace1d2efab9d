//! The pending-operation queue: an ordered, duplicate-free set of storage
//! keys referencing documents that await remote confirmation.

use vstd::prelude::*;
use crate::note::Note;
use crate::store::LocalPersistentStore;

verus! {

/// The queue of pending storage keys, oldest first.
pub struct SyncQueue {
    keys: Vec<String>,
}

impl View for SyncQueue {
    type V = Seq<Seq<char>>;

    closed spec fn view(&self) -> Seq<Seq<char>> {
        self.keys.deep_view()
    }
}

/// The predicate "some document is stored under this key in `store`".
pub open spec fn present_in(store: LocalPersistentStore) -> spec_fn(Seq<char>) -> bool {
    |k: Seq<char>| store.has_key(k)
}

/// Whether the drain pass confirmed the write for key `k`: some work item
/// carries `k`, its remote write succeeded, and the document stored under
/// `k` is still the attempted snapshot (same version) or is gone.
pub open spec fn spec_confirmed(
    work: Seq<(String, u64)>,
    outcomes: Seq<bool>,
    store: LocalPersistentStore,
    k: Seq<char>,
) -> bool {
    exists|i: int|
        0 <= i < work.len() && i < outcomes.len() && work[i].0@ == k && outcomes[i] && (
        !store.has_key(k) || store.note_at(k).version == work[i].1)
}

/// The predicate "the drain pass did not confirm this key".
pub open spec fn not_confirmed(
    work: Seq<(String, u64)>,
    outcomes: Seq<bool>,
    store: LocalPersistentStore,
) -> spec_fn(Seq<char>) -> bool {
    |k: Seq<char>| !spec_confirmed(work, outcomes, store, k)
}

/// The index of the (unique) occurrence of `k` in `s`.
pub open spec fn index_of(s: Seq<Seq<char>>, k: Seq<char>) -> int {
    choose|i: int| 0 <= i < s.len() && s[i] == k
}

/// `s` after queuing `k`: unchanged if already queued, else appended.
pub open spec fn spec_enqueue(s: Seq<Seq<char>>, k: Seq<char>) -> Seq<Seq<char>> {
    if s.contains(k) {
        s
    } else {
        s.push(k)
    }
}

/// `s` after removing the occurrence of `k`, if any.
pub open spec fn spec_dequeue(s: Seq<Seq<char>>, k: Seq<char>) -> Seq<Seq<char>> {
    if s.contains(k) {
        s.remove(index_of(s, k))
    } else {
        s
    }
}

impl SyncQueue {
    /// The queue holds at most one entry per key.
    pub open spec fn wf(self) -> bool {
        forall|i: int, j: int| 0 <= i < j < self@.len() ==> self@[i] != self@[j]
    }

    /// An empty queue.
    pub fn new() -> (r: SyncQueue)
        ensures
            r@ == Seq::<Seq<char>>::empty(),
            r.wf(),
    {
        let r = SyncQueue { keys: Vec::new() };
        proof {
            assert(r@ =~= Seq::<Seq<char>>::empty());
        }
        r
    }

    pub fn len(&self) -> (r: usize)
        ensures
            r == self@.len(),
    {
        self.keys.len()
    }

    /// Whether `key` is queued.
    pub fn contains(&self, key: &String) -> (r: bool)
        ensures
            r == self@.contains(key@),
    {
        let mut i: usize = 0;
        while i < self.keys.len()
            invariant
                i <= self.keys.len(),
                forall|j: int| 0 <= j < i ==> self@[j] != key@,
            decreases self.keys.len() - i,
        {
            if self.keys[i].eq(key) {
                proof {
                    assert(self@[i as int] == key@);
                }
                return true;
            }
            i = i + 1;
        }
        false
    }

    /// Queues `key` for remote confirmation. Idempotent: enqueuing an
    /// already-queued key leaves the queue unchanged.
    pub fn enqueue(&mut self, key: String)
        requires
            old(self).wf(),
        ensures
            final(self).wf(),
            final(self)@ == spec_enqueue(old(self)@, key@),
    {
        if !self.contains(&key) {
            self.keys.push(key);
            proof {
                assert(self@ =~= old(self)@.push(self.keys@.last()@));
            }
        }
    }

    /// The position of the first occurrence of `key`.
    fn find(&self, key: &String) -> (r: Option<usize>)
        ensures
            r is None ==> !self@.contains(key@),
            r is Some ==> 0 <= r.unwrap() < self@.len() && self@[r.unwrap() as int] == key@,
    {
        let mut i: usize = 0;
        while i < self.keys.len()
            invariant
                i <= self.keys.len(),
                forall|j: int| 0 <= j < i ==> self@[j] != key@,
            decreases self.keys.len() - i,
        {
            if self.keys[i].eq(key) {
                proof {
                    assert(self@[i as int] == key@);
                }
                return Some(i);
            }
            i = i + 1;
        }
        proof {
            assert(!self@.contains(key@)) by {
                if self@.contains(key@) {
                    let w = choose|w: int| 0 <= w < self@.len() && self@[w] == key@;
                    assert(self@[w] != key@);
                }
            }
        }
        None
    }

    /// Removes `key` from the queue; removing an absent key is a no-op.
    pub fn dequeue(&mut self, key: &String)
        requires
            old(self).wf(),
        ensures
            final(self).wf(),
            final(self)@ == spec_dequeue(old(self)@, key@),
    {
        let found = self.find(key);
        match found {
            None => {
            },
            Some(i) => {
                self.keys.remove(i);
                proof {
                    let s = old(self)@;
                    assert(s.contains(key@)) by {
                        assert(s[i as int] == key@);
                    }
                    assert(index_of(s, key@) == i) by {
                        let w = index_of(s, key@);
                        assert(exists|j: int| 0 <= j < s.len() && s[j] == key@) by {
                            assert(s[i as int] == key@);
                        }
                        if w < i {
                            assert(s[w] != s[i as int]);
                        }
                        if w > i {
                            assert(s[i as int] != s[w]);
                        }
                    }
                    assert(self@ =~= s.remove(i as int));
                    let t = s.remove(i as int);
                    assert forall|a: int, b: int| 0 <= a < b < t.len() implies t[a] != t[b] by {
                        assert(t[a] == if a < i { s[a] } else { s[a + 1] });
                        assert(t[b] == if b < i { s[b] } else { s[b + 1] });
                    }
                }
            },
        }
    }

    /// Collects the work of one drain pass: the queued keys that still
    /// have a document in `store`, oldest first, each with its document.
    /// Keys whose document is gone are dropped from the queue.
    pub fn take_work(&mut self, store: &LocalPersistentStore) -> (work: Vec<(String, Note)>)
        requires
            old(self).wf(),
            store.wf(),
        ensures
            final(self).wf(),
            final(self)@ == old(self)@.filter(present_in(*store)),
            work@.len() == final(self)@.len(),
            forall|i: int|
                0 <= i < work@.len() ==> work@[i].0@ == final(self)@[i] && work@[i].1@
                    == store.note_at(final(self)@[i]),
    {
        let ghost p = present_in(*store);
        let mut kept: Vec<String> = Vec::new();
        let mut work: Vec<(String, Note)> = Vec::new();
        let mut i: usize = 0;
        while i < self.keys.len()
            invariant
                i <= self.keys.len(),
                store.wf(),
                kept.deep_view() == self@.take(i as int).filter(p),
                p == present_in(*store),
                work@.len() == kept@.len(),
                forall|j: int| 0 <= j < kept@.len() ==> kept@[j]@ == kept.deep_view()[j],
                forall|j: int|
                    0 <= j < work@.len() ==> work@[j].0@ == kept.deep_view()[j] && work@[j].1@
                        == store.note_at(kept.deep_view()[j]),
            decreases self.keys.len() - i,
        {
            let key = &self.keys[i];
            let ghost pre = kept.deep_view();
            proof {
                lemma_filter_step(self@, p, i as int);
            }
            match store.get(key) {
                Some(n) => {
                    work.push((key.clone(), n));
                    kept.push(key.clone());
                    proof {
                        assert(kept.deep_view() =~= pre.push(key@));
                    }
                },
                None => {
                },
            }
            i = i + 1;
        }
        self.keys = kept;
        proof {
            assert(old(self)@.take(old(self)@.len() as int) =~= old(self)@);
            lemma_filter_distinct(old(self)@, p);
        }
        work
    }

    /// Applies the outcomes of one drain pass: a queued key is removed
    /// exactly when its remote write was confirmed and the stored document
    /// is still the attempted snapshot (or is gone); every other key is
    /// retained, in order, for the next pass.
    pub fn apply_outcomes(
        &mut self,
        store: &LocalPersistentStore,
        work: &Vec<(String, u64)>,
        outcomes: &Vec<bool>,
    )
        requires
            old(self).wf(),
            store.wf(),
        ensures
            final(self).wf(),
            final(self)@ == old(self)@.filter(not_confirmed(work@, outcomes@, *store)),
    {
        let ghost p = not_confirmed(work@, outcomes@, *store);
        let mut kept: Vec<String> = Vec::new();
        let mut i: usize = 0;
        while i < self.keys.len()
            invariant
                i <= self.keys.len(),
                store.wf(),
                kept.deep_view() == self@.take(i as int).filter(p),
                p == not_confirmed(work@, outcomes@, *store),
                forall|j: int| 0 <= j < kept@.len() ==> kept@[j]@ == kept.deep_view()[j],
            decreases self.keys.len() - i,
        {
            let key = &self.keys[i];
            let ghost pre = kept.deep_view();
            proof {
                lemma_filter_step(self@, p, i as int);
            }
            if !is_confirmed(store, work, outcomes, key) {
                kept.push(key.clone());
                proof {
                    assert(kept.deep_view() =~= pre.push(key@));
                }
            }
            i = i + 1;
        }
        self.keys = kept;
        proof {
            assert(old(self)@.take(old(self)@.len() as int) =~= old(self)@);
            lemma_filter_distinct(old(self)@, p);
        }
    }

    /// The queued keys, oldest first.
    pub fn list(&self) -> (r: Vec<String>)
        ensures
            r.deep_view() == self@,
    {
        let mut out: Vec<String> = Vec::new();
        let mut i: usize = 0;
        while i < self.keys.len()
            invariant
                i <= self.keys.len(),
                out@.len() == i,
                forall|j: int| 0 <= j < i ==> out@[j]@ == self@[j],
            decreases self.keys.len() - i,
        {
            out.push(self.keys[i].clone());
            i = i + 1;
        }
        proof {
            assert forall|j: int| 0 <= j < out@.len() implies out.deep_view()[j] == self@[j] by {
                assert(out.deep_view()[j] == out@[j]@);
            }
            assert(out.deep_view() =~= self@);
        }
        out
    }
}

/// Whether the drain pass confirmed the write for `key`, decided from the
/// attempted work items, their outcomes and the current store contents.
fn is_confirmed(
    store: &LocalPersistentStore,
    work: &Vec<(String, u64)>,
    outcomes: &Vec<bool>,
    key: &String,
) -> (r: bool)
    requires
        store.wf(),
    ensures
        r == spec_confirmed(work@, outcomes@, *store, key@),
{
    let mut i: usize = 0;
    while i < work.len()
        invariant
            i <= work@.len(),
            store.wf(),
            forall|j: int|
                0 <= j < i ==> !(j < outcomes@.len() && work@[j].0@ == key@ && outcomes@[j] && (
                !store.has_key(key@) || store.note_at(key@).version == work@[j].1)),
        decreases work@.len() - i,
    {
        if i < outcomes.len() && work[i].0.eq(key) && outcomes[i] {
            match store.get(key) {
                None => {
                    return true;
                },
                Some(n) => {
                    if n.version == work[i].1 {
                        return true;
                    }
                },
            }
        }
        i = i + 1;
    }
    false
}

/// One unfolding of `filter` along a growing prefix of `s`.
proof fn lemma_filter_step(s: Seq<Seq<char>>, p: spec_fn(Seq<char>) -> bool, i: int)
    requires
        0 <= i < s.len(),
    ensures
        p(s[i]) ==> s.take(i + 1).filter(p) == s.take(i).filter(p).push(s[i]),
        !p(s[i]) ==> s.take(i + 1).filter(p) == s.take(i).filter(p),
{
    reveal_with_fuel(Seq::<_>::filter, 2);
    let t = s.take(i + 1);
    assert(t.drop_last() =~= s.take(i));
    assert(t.last() == s[i]);
}

/// Every element of a filtered sequence comes from the sequence itself.
proof fn lemma_filter_subset(s: Seq<Seq<char>>, p: spec_fn(Seq<char>) -> bool)
    ensures
        forall|x: Seq<char>| #[trigger] s.filter(p).contains(x) ==> s.contains(x),
    decreases s.len(),
{
    reveal_with_fuel(Seq::<_>::filter, 2);
    if s.len() > 0 {
        let sub = s.drop_last();
        lemma_filter_subset(sub, p);
        assert forall|x: Seq<char>| #[trigger] s.filter(p).contains(x) implies s.contains(x) by {
            if sub.filter(p).contains(x) {
                let w = choose|w: int| 0 <= w < sub.len() && sub[w] == x;
                assert(s[w] == x);
            } else {
                assert(s.filter(p) == if p(s.last()) {
                    sub.filter(p).push(s.last())
                } else {
                    sub.filter(p)
                });
                assert(x == s.last());
                assert(s[s.len() - 1] == x);
            }
        }
    }
}

/// Filtering keeps pairwise-distinct elements pairwise distinct.
proof fn lemma_filter_distinct(s: Seq<Seq<char>>, p: spec_fn(Seq<char>) -> bool)
    requires
        forall|i: int, j: int| 0 <= i < j < s.len() ==> s[i] != s[j],
    ensures
        forall|i: int, j: int|
            0 <= i < j < s.filter(p).len() ==> s.filter(p)[i] != s.filter(p)[j],
    decreases s.len(),
{
    reveal_with_fuel(Seq::<_>::filter, 2);
    if s.len() > 0 {
        let sub = s.drop_last();
        lemma_filter_distinct(sub, p);
        lemma_filter_subset(sub, p);
        let f = s.filter(p);
        let fs = sub.filter(p);
        assert(f == if p(s.last()) {
            fs.push(s.last())
        } else {
            fs
        });
        assert forall|i: int, j: int| 0 <= i < j < f.len() implies f[i] != f[j] by {
            if j < fs.len() {
                assert(fs[i] != fs[j]);
            } else {
                assert(f[j] == s.last());
                assert(fs.contains(fs[i])) by {
                    assert(0 <= i < fs.len());
                }
                assert(sub.contains(fs[i]));
                let w = choose|w: int| 0 <= w < sub.len() && sub[w] == fs[i];
                assert(s[w] != s[s.len() - 1]);
            }
        }
    }
}

/// A drain pass over a queue of distinct keys, all handed out as work
/// with their current document versions, retains exactly the keys whose
/// remote write failed and removes exactly those whose write succeeded.
pub proof fn lemma_drain_partition(
    q: Seq<Seq<char>>,
    work: Seq<(String, u64)>,
    outcomes: Seq<bool>,
    store: LocalPersistentStore,
)
    requires
        forall|i: int, j: int| 0 <= i < j < q.len() ==> q[i] != q[j],
        work.len() == q.len(),
        outcomes.len() == q.len(),
        forall|i: int| 0 <= i < q.len() ==> #[trigger] work[i].0@ == q[i],
        forall|i: int|
            0 <= i < q.len() ==> store.has_key(#[trigger] q[i]) && store.note_at(q[i]).version
                == work[i].1,
    ensures
        forall|i: int|
            0 <= i < q.len() ==> (q.filter(not_confirmed(work, outcomes, store)).contains(
                #[trigger] q[i],
            ) <==> !outcomes[i]),
{
    broadcast use vstd::seq_lib::group_filter_ensures;

    let p = not_confirmed(work, outcomes, store);
    assert forall|i: int| 0 <= i < q.len() implies (q.filter(p).contains(q[i])
        <==> !outcomes[i]) by {
        assert(spec_confirmed(work, outcomes, store, q[i]) <==> outcomes[i]) by {
            if outcomes[i] {
                assert(work[i].0@ == q[i]);
            }
            if spec_confirmed(work, outcomes, store, q[i]) {
                let w = choose|w: int|
                    0 <= w < work.len() && w < outcomes.len() && work[w].0@ == q[i] && outcomes[w]
                        && (!store.has_key(q[i]) || store.note_at(q[i]).version == work[w].1);
                assert(work[w].0@ == q[w]);
                if w != i {
                    assert(q[w] != q[i]);
                }
            }
        }
        if p(q[i]) {
            assert(q.filter(p).contains(q[i]));
        }
        if q.filter(p).contains(q[i]) {
            let w = choose|w: int| 0 <= w < q.filter(p).len() && q.filter(p)[w] == q[i];
            assert(p(q.filter(p)[w]));
        }
    }
}

/// Enqueuing a key twice is the same as enqueuing it once, and either way
/// the queue holds exactly one entry for that key.
pub proof fn lemma_enqueue_idempotent(s: Seq<Seq<char>>, k: Seq<char>)
    requires
        forall|i: int, j: int| 0 <= i < j < s.len() ==> s[i] != s[j],
    ensures
        spec_enqueue(spec_enqueue(s, k), k) == spec_enqueue(s, k),
        spec_enqueue(s, k).to_multiset().count(k) == 1,
{
    broadcast use vstd::seq_lib::group_to_multiset_ensures;

    let s1 = spec_enqueue(s, k);
    if s.contains(k) {
        assert(s1 == s);
        assert(s.no_duplicates());
        s.lemma_multiset_has_no_duplicates();
        assert(s.to_multiset().count(k) > 0);
    } else {
        assert(s1 == s.push(k));
        assert(s1[s.len() as int] == k);
        assert(s1.contains(k));
        assert(s1.no_duplicates()) by {
            assert forall|i: int, j: int| 0 <= i < s1.len() && 0 <= j < s1.len() && i != j
                implies s1[i] != s1[j] by {
                if i < s.len() && j < s.len() {
                } else if j == s.len() {
                    assert(s1[j] == k);
                    assert(!s.contains(k));
                    if s1[i] == k {
                        assert(s[i] == k);
                    }
                } else {
                    assert(s1[i] == k);
                    assert(!s.contains(k));
                    if s1[j] == k {
                        assert(s[j] == k);
                    }
                }
            }
        }
        s1.lemma_multiset_has_no_duplicates();
        assert(s1.to_multiset().count(k) > 0);
    }
}

} // verus!
