//! The versioned note entity synchronized between local and remote stores.

use vstd::prelude::*;

verus! {

/// Mathematical model of a [`Note`]: every field as a plain spec value.
#[verifier::ext_equal]
pub struct NoteView {
    pub id: Option<Seq<char>>,
    pub title: Seq<char>,
    pub content: Seq<char>,
    pub created_at: u64,
    pub updated_at: u64,
    pub created_by: Seq<char>,
    pub is_shared: bool,
    pub shared_with: Seq<Seq<char>>,
    pub version: u64,
}

/// A note document.
///
/// A note without an identifier is a draft: it exists only in the local
/// store and is treated as new until the first confirmed remote create
/// assigns it an identifier. Timestamps are milliseconds since the Unix
/// epoch.
#[derive(Debug, PartialEq)]
pub struct Note {
    pub id: Option<String>,
    pub title: String,
    pub content: String,
    pub created_at: u64,
    pub updated_at: u64,
    pub created_by: String,
    pub is_shared: bool,
    pub shared_with: Vec<String>,
    pub version: u64,
}

impl View for Note {
    type V = NoteView;

    open spec fn view(&self) -> NoteView {
        NoteView {
            id: self.id.deep_view(),
            title: self.title@,
            content: self.content@,
            created_at: self.created_at,
            updated_at: self.updated_at,
            created_by: self.created_by@,
            is_shared: self.is_shared,
            shared_with: self.shared_with.deep_view(),
            version: self.version,
        }
    }
}

impl NoteView {
    /// Versions start at 1 and only ever grow; a note is never modified
    /// before it is created.
    pub open spec fn wf(self) -> bool {
        &&& self.version >= 1
        &&& self.updated_at >= self.created_at
    }

    /// The result of one content mutation at time `now`: the version is
    /// bumped by exactly 1 and the modification timestamp is replaced.
    pub open spec fn updated(self, title: Seq<char>, content: Seq<char>, now: u64) -> NoteView {
        NoteView { title, content, updated_at: now, version: (self.version + 1) as u64, ..self }
    }
}

impl Clone for Note {
    fn clone(&self) -> (r: Self)
        ensures
            r@ == self@,
    {
        let r = Note {
            id: self.id.clone(),
            title: self.title.clone(),
            content: self.content.clone(),
            created_at: self.created_at,
            updated_at: self.updated_at,
            created_by: self.created_by.clone(),
            is_shared: self.is_shared,
            shared_with: self.shared_with.clone(),
            version: self.version,
        };
        proof {
            assert(r.id.deep_view() == self.id.deep_view());
            assert(r.shared_with.deep_view() =~= self.shared_with.deep_view());
            assert(r@ =~= self@);
        }
        r
    }
}

impl Note {
    /// Builds a draft note created at time `now`: no identifier, version 1,
    /// not shared, creation and modification timestamps equal.
    pub fn new_at(title: String, content: String, user_id: String, now: u64) -> (r: Note)
        ensures
            r@.id is None,
            r@.title == title@,
            r@.content == content@,
            r@.created_by == user_id@,
            r@.created_at == now,
            r@.updated_at == now,
            !r@.is_shared,
            r@.shared_with == Seq::<Seq<char>>::empty(),
            r@.version == 1,
            r@.wf(),
    {
        let r = Note {
            id: None,
            title,
            content,
            created_at: now,
            updated_at: now,
            created_by: user_id,
            is_shared: false,
            shared_with: Vec::new(),
            version: 1,
        };
        proof {
            assert(r.shared_with.deep_view() =~= Seq::<Seq<char>>::empty());
        }
        r
    }

    /// Builds a draft note timestamped with the current wall clock.
    ///
    /// Whatever instant the clock reports, the creation and modification
    /// timestamps are equal and the version is 1. The clock call itself
    /// (chrono's `Utc::now`) panics on a system clock that reads before
    /// the Unix epoch; under any sane clock this constructor does not
    /// panic.
    pub fn new(title: String, content: String, user_id: String) -> (r: Note)
        ensures
            r@.id is None,
            r@.title == title@,
            r@.content == content@,
            r@.created_by == user_id@,
            r@.created_at == r@.updated_at,
            !r@.is_shared,
            r@.shared_with == Seq::<Seq<char>>::empty(),
            r@.version == 1,
            r@.wf(),
    {
        let t = now_millis();
        let now: u64 = if t < 0 {
            0
        } else {
            t as u64
        };
        Note::new_at(title, content, user_id, now)
    }

    /// One content mutation: replaces title and content, stamps the
    /// modification time with `now` and bumps the version by exactly 1.
    ///
    /// `now` models the current wall clock, which cannot precede the
    /// note's creation, so the mutation always leaves the note
    /// well-formed: `updated_at` never falls below `created_at`.
    pub fn update(&mut self, title: String, content: String, now: u64)
        requires
            old(self)@.version < u64::MAX,
            now >= old(self)@.created_at,
        ensures
            final(self)@ == old(self)@.updated(title@, content@, now),
            final(self)@.wf(),
    {
        self.title = title;
        self.content = content;
        self.updated_at = now;
        self.version = self.version + 1;
        proof {
            assert(self@ =~= old(self)@.updated(self.title@, self.content@, now));
        }
    }
}

/// Relies on chrono's `Utc::now` (via `timestamp_millis`) for the current
/// wall-clock time. The result depends on the machine clock, so nothing is
/// promised of it; `Utc::now` panics on a system clock before the Unix epoch.
#[verifier::external_body]
fn now_millis() -> i64 {
    chrono::Utc::now().timestamp_millis()
}

/// Two mutations in sequence bump the version by exactly 2, and with
/// strictly advancing mutation times the modification timestamp strictly
/// increases across the snapshots and each snapshot stays well-formed.
pub proof fn lemma_update_twice(
    d: NoteView,
    t1: Seq<char>,
    c1: Seq<char>,
    n1: u64,
    t2: Seq<char>,
    c2: Seq<char>,
    n2: u64,
)
    requires
        d.wf(),
        d.version + 2 <= u64::MAX,
        d.updated_at < n1,
        n1 < n2,
    ensures
        d.updated(t1, c1, n1).updated(t2, c2, n2).version == d.version + 2,
        d.updated_at < d.updated(t1, c1, n1).updated_at,
        d.updated(t1, c1, n1).updated_at < d.updated(t1, c1, n1).updated(t2, c2, n2).updated_at,
        d.updated(t1, c1, n1).wf(),
        d.updated(t1, c1, n1).updated(t2, c2, n2).wf(),
{
}

} // verus!
