//! The UI-facing controller: owns the visible document list and the
//! selection, reacts to load/save/sync events, and issues commands for the
//! outside world (remote store calls, connectivity probes) to perform.
//!
//! Events are consumed one at a time by [`ClientState::update`], a total
//! transition function over the closed event set [`AppMsg`]. The caller
//! performs each returned [`Command`] and feeds the completion back as a
//! new event; no event handler ever blocks.

use vstd::prelude::*;
use vstd::pervasive::VecAdditionalExecFns;
use crate::connectivity::ConnectivityMonitor;
use crate::coordinator::{SyncCoordinator, SyncState};
use crate::errors::SyncError;
use crate::keys::{draft_key, draft_key_view, note_key, note_key_view};
use crate::note::{Note, NoteView};
use crate::queue::{not_confirmed, present_in, spec_dequeue, spec_enqueue, SyncQueue};
use crate::store::{notes_of, LocalPersistentStore};

verus! {

/// The closed set of events the client reacts to.
pub enum AppMsg {
    /// Ask for the document list to be (re)loaded.
    LoadNotes,
    /// The remote fetch finished: the fetched documents, or the failure.
    NotesLoaded(Result<Vec<Note>, SyncError>),
    /// The user selected a document.
    SelectNote(Note),
    /// The user asked for a fresh draft.
    CreateNote,
    /// The user saved the selected document with this title and content.
    SaveNote(String, String),
    /// A remote create/update for the document stored under this key
    /// finished with this result.
    NoteSaved(String, Result<Note, SyncError>),
    /// Ask for a drain pass over the pending queue.
    SyncNotes,
    /// The drain pass finished: one outcome per handed-out work item.
    SyncCompleted(Vec<bool>),
    /// Ask for a connectivity probe.
    CheckOnline,
    /// A connectivity sample arrived.
    OnlineStatusChanged(bool),
    /// An operation failed in the outside world.
    Error(SyncError),
}

/// What the caller is asked to perform after an event was consumed.
pub enum Command {
    /// Fetch the document list from the remote store; answer with
    /// `NotesLoaded`.
    FetchRemote,
    /// Create this document remotely; answer with `NoteSaved`.
    RemoteCreate { key: String, note: Note },
    /// Update this document remotely; answer with `NoteSaved`.
    RemoteUpdate { key: String, note: Note },
    /// Apply each work item against the remote store (create if the note
    /// has no identifier, else update); answer with `SyncCompleted`.
    DrainQueue { work: Vec<(String, Note)> },
    /// Sample the connectivity probe; answer with `OnlineStatusChanged`.
    Probe,
}

/// The client controller state.
pub struct ClientState {
    /// The visible document list.
    pub notes: Vec<Note>,
    /// The currently selected document, if any.
    pub selected_note: Option<Note>,
    pub is_loading: bool,
    /// The last failure to surface, dismissible; never set by an offline
    /// fallback.
    pub error: Option<SyncError>,
    /// The owner recorded on documents this client creates.
    pub user_id: String,
    pub store: LocalPersistentStore,
    pub queue: SyncQueue,
    pub monitor: ConnectivityMonitor,
    pub coordinator: SyncCoordinator,
    /// The (key, version) snapshots handed to the running drain pass.
    pub in_flight: Vec<(String, u64)>,
}

/// Every document in a visible list is well-formed.
pub open spec fn notes_wf(s: Seq<Note>) -> bool {
    forall|i: int| 0 <= i < s.len() ==> (#[trigger] s[i]@).wf()
}

/// Every document held by a store is well-formed.
pub open spec fn store_docs_wf(s: LocalPersistentStore) -> bool {
    forall|i: int| 0 <= i < s@.len() ==> (#[trigger] s@[i]).1.wf()
}

/// Whether `a` and `v` carry the same (present) identifier: identity
/// matching uses the document identifier exclusively, so an
/// identifier-less draft never matches.
pub open spec fn id_matches(a: NoteView, id: Option<Seq<char>>) -> bool {
    a.id is Some && id is Some && a.id == id
}

pub open spec fn has_id_match(s: Seq<Note>, id: Option<Seq<char>>) -> bool {
    exists|i: int| 0 <= i < s.len() && id_matches(s[i]@, id)
}

/// The position of the first entry of `s` whose identifier is `id`.
pub open spec fn first_id_match(s: Seq<Note>, id: Option<Seq<char>>) -> int {
    choose|i: int|
        0 <= i < s.len() && id_matches(s[i]@, id) && (forall|j: int|
            0 <= j < i ==> !id_matches(s[j]@, id))
}

/// Last-writer-wins reconciliation of the visible list with `v`: the
/// first entry with the same identifier is replaced by `v`; without a
/// match, `v` is inserted at the front.
pub open spec fn upsert_rel(pre: Seq<Note>, post: Seq<Note>, v: NoteView) -> bool {
    if has_id_match(pre, v.id) {
        let i = first_id_match(pre, v.id);
        &&& post.len() == pre.len()
        &&& post[i]@ == v
        &&& (forall|j: int| 0 <= j < post.len() && j != i ==> post[j] == pre[j])
    } else {
        &&& post.len() == pre.len() + 1
        &&& post[0]@ == v
        &&& (forall|j: int| 1 <= j < post.len() ==> post[j] == pre[j - 1])
    }
}

/// The store after writing `v` under `k`: `k` now maps to `v` and every
/// other key is untouched.
pub open spec fn store_put_rel(
    s0: LocalPersistentStore,
    s1: LocalPersistentStore,
    k: Seq<char>,
    v: NoteView,
) -> bool {
    &&& s1.wf()
    &&& s1.has_key(k)
    &&& s1.note_at(k) == v
    &&& (forall|x: Seq<char>| x != k ==> s1.has_key(x) == s0.has_key(x))
    &&& (forall|x: Seq<char>| x != k && s0.has_key(x) ==> s1.note_at(x) == s0.note_at(x))
    &&& s1@.len() == s0@.len() + (if s0.has_key(k) {
        0int
    } else {
        1int
    })
}

/// The store after a confirmed remote write: the server document `v` now
/// sits under its confirmed key `nk`, the snapshot entry under `k` (the
/// draft, when the keys differ) is gone, and every other key is untouched.
pub open spec fn store_confirm_rel(
    s0: LocalPersistentStore,
    s1: LocalPersistentStore,
    k: Seq<char>,
    nk: Seq<char>,
    v: NoteView,
) -> bool {
    &&& s1.wf()
    &&& s1.has_key(nk)
    &&& s1.note_at(nk) == v
    &&& (k != nk ==> !s1.has_key(k))
    &&& (forall|x: Seq<char>| x != k && x != nk ==> s1.has_key(x) == s0.has_key(x))
    &&& (forall|x: Seq<char>|
        x != k && x != nk && s0.has_key(x) ==> s1.note_at(x) == s0.note_at(x))
}

/// One sync trigger: when online and idle, a drain pass starts — the
/// queue drops the keys whose document is gone, the remaining work is
/// handed out together with the attempted versions, and the coordinator
/// moves to `Syncing`; otherwise (offline, or a pass already running) the
/// trigger is coalesced and nothing happens.
pub open spec fn sync_trigger_rel(
    pre: ClientState,
    post: ClientState,
    cmds: Seq<Command>,
    online: bool,
) -> bool {
    if online && pre.coordinator.spec_state() == SyncState::Idle {
        &&& post.coordinator.spec_state() == SyncState::Syncing
        &&& post.queue@ == pre.queue@.filter(present_in(pre.store))
        &&& post.queue.wf()
        &&& post.in_flight@.len() == post.queue@.len()
        &&& (forall|i: int|
            0 <= i < post.in_flight@.len() ==> post.in_flight@[i].0@ == post.queue@[i]
                && post.in_flight@[i].1 == pre.store.note_at(post.queue@[i]).version)
        &&& cmds.len() == 1
        &&& (cmds[0] matches Command::DrainQueue { work } && work@.len() == post.queue@.len()
            && (forall|i: int|
            0 <= i < work@.len() ==> work@[i].0@ == post.queue@[i] && work@[i].1@
                == pre.store.note_at(post.queue@[i])))
        &&& post == (ClientState {
            queue: post.queue,
            coordinator: post.coordinator,
            in_flight: post.in_flight,
            ..pre
        })
    } else {
        &&& post == pre
        &&& cmds == Seq::<Command>::empty()
    }
}

/// When connectivity transitions from offline to online, exactly one
/// drain pass starts: the transition moves the coordinator from `Idle` to
/// `Syncing` and hands out one drain command; every further sync trigger
/// that arrives while the pass runs is coalesced, changing nothing; and
/// completion of the pass moves the coordinator back to `Idle`.
pub proof fn lemma_single_sync_pass(pre: ClientState, s1: ClientState, c1: Seq<Command>)
    requires
        !pre.monitor.spec_online(),
        pre.coordinator.spec_state() == SyncState::Idle,
        step_online_changed(pre, s1, c1, true),
    ensures
        s1.coordinator.spec_state() == SyncState::Syncing,
        c1.len() == 1 && c1[0] is DrainQueue,
        forall|s2: ClientState, c2: Seq<Command>, online: bool|
            #[trigger] sync_trigger_rel(s1, s2, c2, online) ==> s2 == s1 && c2
                == Seq::<Command>::empty(),
        forall|s3: ClientState, c3: Seq<Command>, o: Vec<bool>|
            #[trigger] step_sync_completed(s1, s3, c3, o) ==> s3.coordinator.spec_state()
                == SyncState::Idle,
{
}

/// Whether both identifiers are present and equal.
fn id_eq(a: &Option<String>, b: &Option<String>) -> (r: bool)
    ensures
        r == (a is Some && b is Some && a.deep_view() == b.deep_view()),
{
    match (a, b) {
        (Some(x), Some(y)) => {
            let e = x.eq(y);
            proof {
                assert(a.deep_view() == Some(x@));
                assert(b.deep_view() == Some(y@));
            }
            e
        },
        _ => false,
    }
}

/// The draft built by a create request at time `now` for this owner.
pub open spec fn fresh_draft(owner: Seq<char>, now: u64) -> NoteView {
    NoteView {
        id: None,
        title: "Untitled Note"@,
        content: ""@,
        created_at: now,
        updated_at: now,
        created_by: owner,
        is_shared: false,
        shared_with: Seq::<Seq<char>>::empty(),
        version: 1,
    }
}

/// The storage key a save at time `now` uses for a document: the
/// confirmed key when an identifier is present, else a fresh draft key.
pub open spec fn save_key(v: NoteView, now: u64) -> Seq<char> {
    match v.id {
        Some(id) => note_key_view(id),
        None => draft_key_view(now),
    }
}

/// A load request: the list is marked loading and a remote fetch is
/// commanded; nothing else changes.
pub open spec fn step_load(pre: ClientState, post: ClientState, cmds: Seq<Command>) -> bool {
    &&& post == (ClientState { is_loading: true, ..pre })
    &&& cmds == seq![Command::FetchRemote]
}

/// Arrival of a fetch result. On success the fetched list becomes the
/// visible list. On any remote failure the visible list falls back to the
/// local listing, most recently updated first, and no error is surfaced:
/// offline operation is a supported mode. Either way, loading ends and
/// the first document is selected if none was.
pub open spec fn step_loaded(
    pre: ClientState,
    post: ClientState,
    cmds: Seq<Command>,
    r: Result<Vec<Note>, SyncError>,
) -> bool {
    &&& match r {
        Ok(notes) => post.notes == notes,
        Err(_) => {
            &&& post.notes@.len() == pre.store@.len()
            &&& (forall|i: int, j: int|
                0 <= i < j < post.notes@.len() ==> post.notes@[i]@.updated_at
                    >= post.notes@[j]@.updated_at)
            &&& post.notes@.map_values(|n: Note| n@).to_multiset() == notes_of(
                pre.store@,
            ).to_multiset()
        },
    }
    &&& (pre.selected_note is None && post.notes@.len() > 0 ==> (post.selected_note matches Some(n)
        && n@ == post.notes@[0]@))
    &&& (!(pre.selected_note is None && post.notes@.len() > 0) ==> post.selected_note
        == pre.selected_note)
    &&& post == (ClientState {
        notes: post.notes,
        selected_note: post.selected_note,
        is_loading: false,
        ..pre
    })
    &&& cmds == Seq::<Command>::empty()
}

/// A selection: the chosen document becomes the selection.
pub open spec fn step_select(
    pre: ClientState,
    post: ClientState,
    cmds: Seq<Command>,
    n: Note,
) -> bool {
    &&& post == (ClientState { selected_note: Some(n), ..pre })
    &&& cmds == Seq::<Command>::empty()
}

/// A create request at time `now`: a fresh draft is persisted locally
/// under a draft key, queued for confirmation, inserted at the front of
/// the visible list and selected; when online, a remote create is also
/// commanded at once, when offline nothing else happens.
pub open spec fn step_create(
    pre: ClientState,
    post: ClientState,
    cmds: Seq<Command>,
    now: u64,
) -> bool {
    let d = fresh_draft(pre.user_id@, now);
    let key = draft_key_view(now);
    &&& store_put_rel(pre.store, post.store, key, d)
    &&& post.queue@ == spec_enqueue(pre.queue@, key)
    &&& post.queue.wf()
    &&& post.notes@.len() == pre.notes@.len() + 1
    &&& post.notes@[0]@ == d
    &&& (forall|j: int| 1 <= j < post.notes@.len() ==> post.notes@[j] == pre.notes@[j - 1])
    &&& (post.selected_note matches Some(n) && n@ == d)
    &&& (pre.monitor.spec_online() ==> cmds.len() == 1 && (cmds[0] matches Command::RemoteCreate {
        key: k,
        note: n,
    } && k@ == key && n@ == d))
    &&& (!pre.monitor.spec_online() ==> cmds == Seq::<Command>::empty())
    &&& post == (ClientState {
        notes: post.notes,
        selected_note: post.selected_note,
        store: post.store,
        queue: post.queue,
        ..pre
    })
}

/// A save of the selected document at time `now`: the mutation bumps the
/// version by exactly 1, the document is persisted locally first and
/// queued for confirmation, the visible list and the selection are
/// reconciled; when online, the matching remote operation (create without
/// an identifier, else update) is also commanded. Without a selection
/// nothing happens.
pub open spec fn step_save(
    pre: ClientState,
    post: ClientState,
    cmds: Seq<Command>,
    title: String,
    content: String,
    now: u64,
) -> bool {
    match pre.selected_note {
        None => post == pre && cmds == Seq::<Command>::empty(),
        Some(sel) => {
            let v = sel@.updated(title@, content@, now);
            let key = save_key(v, now);
            &&& store_put_rel(pre.store, post.store, key, v)
            &&& post.queue@ == spec_enqueue(pre.queue@, key)
            &&& post.queue.wf()
            &&& upsert_rel(pre.notes@, post.notes@, v)
            &&& (post.selected_note matches Some(n) && n@ == v)
            &&& (pre.monitor.spec_online() && v.id is Some ==> cmds.len() == 1 && (cmds[0] matches
                Command::RemoteUpdate { key: k, note: n } && k@ == key && n@ == v))
            &&& (pre.monitor.spec_online() && v.id is None ==> cmds.len() == 1 && (cmds[0] matches
                Command::RemoteCreate { key: k, note: n } && k@ == key && n@ == v))
            &&& (!pre.monitor.spec_online() ==> cmds == Seq::<Command>::empty())
            &&& post == (ClientState {
                notes: post.notes,
                selected_note: post.selected_note,
                store: post.store,
                queue: post.queue,
                ..pre
            })
        },
    }
}

/// Arrival of a remote create/update result for the snapshot stored under
/// `key`. On success the returned document is authoritative
/// (last-writer-wins): it replaces the matching visible entry (or is
/// inserted), becomes the selection, is stored under its confirmed key —
/// deterministically replacing the draft entry, never duplicating it —
/// and the snapshot's pending entry is dequeued. On failure the error is
/// surfaced and nothing else changes.
pub open spec fn step_note_saved(
    pre: ClientState,
    post: ClientState,
    cmds: Seq<Command>,
    key: String,
    r: Result<Note, SyncError>,
) -> bool {
    match r {
        Ok(n) => {
            &&& (match n@.id {
                Some(id) => store_confirm_rel(pre.store, post.store, key@, note_key_view(id), n@),
                None => post.store == pre.store,
            })
            &&& post.queue@ == spec_dequeue(pre.queue@, key@)
            &&& post.queue.wf()
            &&& upsert_rel(pre.notes@, post.notes@, n@)
            &&& (post.selected_note matches Some(m) && m@ == n@)
            &&& post == (ClientState {
                notes: post.notes,
                selected_note: post.selected_note,
                store: post.store,
                queue: post.queue,
                ..pre
            })
            &&& cmds == Seq::<Command>::empty()
        },
        Err(e) => {
            &&& post == (ClientState { error: Some(e), ..pre })
            &&& cmds == Seq::<Command>::empty()
        },
    }
}

/// Completion of the running drain pass: a queued key is removed exactly
/// when its write was confirmed for the still-current snapshot, the
/// others are retained in order for the next pass; the coordinator
/// returns to `Idle` and a full reload is commanded.
pub open spec fn step_sync_completed(
    pre: ClientState,
    post: ClientState,
    cmds: Seq<Command>,
    outcomes: Vec<bool>,
) -> bool {
    &&& post.queue@ == pre.queue@.filter(not_confirmed(pre.in_flight@, outcomes@, pre.store))
    &&& post.queue.wf()
    &&& post.coordinator.spec_state() == SyncState::Idle
    &&& post.in_flight@ == Seq::<(String, u64)>::empty()
    &&& post.is_loading
    &&& cmds == seq![Command::FetchRemote]
    &&& post == (ClientState {
        queue: post.queue,
        coordinator: post.coordinator,
        in_flight: post.in_flight,
        is_loading: true,
        ..pre
    })
}

/// A probe request: nothing changes, a connectivity sample is commanded.
pub open spec fn step_check_online(pre: ClientState, post: ClientState, cmds: Seq<Command>) -> bool {
    &&& post == pre
    &&& cmds == seq![Command::Probe]
}

/// Arrival of a connectivity sample: the monitor records it, and exactly
/// on an offline-to-online transition a sync trigger fires.
pub open spec fn step_online_changed(
    pre: ClientState,
    post: ClientState,
    cmds: Seq<Command>,
    sample: bool,
) -> bool {
    let mid = ClientState { monitor: post.monitor, ..pre };
    &&& post.monitor.spec_online() == sample
    &&& (sample && !pre.monitor.spec_online() ==> sync_trigger_rel(mid, post, cmds, true))
    &&& (!(sample && !pre.monitor.spec_online()) ==> post == mid && cmds
        == Seq::<Command>::empty())
}

/// An error report: the error is surfaced, nothing else changes.
pub open spec fn step_error(
    pre: ClientState,
    post: ClientState,
    cmds: Seq<Command>,
    e: SyncError,
) -> bool {
    &&& post == (ClientState { error: Some(e), ..pre })
    &&& cmds == Seq::<Command>::empty()
}

impl ClientState {
    /// Both owned collections keep their invariants, and every document
    /// the client holds — stored, visible or selected — is well-formed:
    /// its version is at least 1 and it was never modified before it was
    /// created.
    pub open spec fn wf(self) -> bool {
        &&& self.store.wf()
        &&& self.queue.wf()
        &&& store_docs_wf(self.store)
        &&& notes_wf(self.notes@)
        &&& (self.selected_note matches Some(n) ==> n@.wf())
    }

    /// A fresh client: nothing loaded, nothing pending, offline, idle.
    pub fn new(user_id: String) -> (r: ClientState)
        ensures
            r.wf(),
            r.notes@ == Seq::<Note>::empty(),
            r.selected_note is None,
            !r.is_loading,
            r.error is None,
            r.user_id == user_id,
            r.store@ == Seq::<(Seq<char>, NoteView)>::empty(),
            r.queue@ == Seq::<Seq<char>>::empty(),
            !r.monitor.spec_online(),
            r.coordinator.spec_state() == SyncState::Idle,
            r.in_flight@ == Seq::<(String, u64)>::empty(),
    {
        let r = ClientState {
            notes: Vec::new(),
            selected_note: None,
            is_loading: false,
            error: None,
            user_id,
            store: LocalPersistentStore::new(),
            queue: SyncQueue::new(),
            monitor: ConnectivityMonitor::new(),
            coordinator: SyncCoordinator::new(),
            in_flight: Vec::new(),
        };
        proof {
            assert(r.notes@ =~= Seq::<Note>::empty());
            assert(r.in_flight@ =~= Seq::<(String, u64)>::empty());
        }
        r
    }

    /// Replaces the first entry carrying the same identifier as `note`,
    /// or inserts `note` at the front when no entry matches.
    fn upsert_note(&mut self, note: Note)
        ensures
            upsert_rel(old(self).notes@, final(self).notes@, note@),
            *final(self) == (ClientState { notes: final(self).notes, ..*old(self) }),
    {
        let mut i: usize = 0;
        let n = self.notes.len();
        while i < n
            invariant
                n == self.notes@.len(),
                i <= n,
                *self == *old(self),
                forall|j: int| 0 <= j < i ==> !id_matches(self.notes@[j]@, note@.id),
            decreases n - i,
        {
            let matched = id_eq(&self.notes[i].id, &note.id);
            if matched {
                proof {
                    let pre = old(self).notes@;
                    let id = note@.id;
                    assert(id_matches(pre[i as int]@, id));
                    assert(has_id_match(pre, id)) by {
                        assert(id_matches(pre[i as int]@, id));
                    }
                    let w = first_id_match(pre, id);
                    assert(exists|x: int|
                        0 <= x < pre.len() && id_matches(pre[x]@, id) && (forall|j: int|
                            0 <= j < x ==> !id_matches(pre[j]@, id))) by {
                        assert(0 <= i < pre.len() && id_matches(pre[i as int]@, id) && (forall|
                            j: int,
                        |
                            0 <= j < i ==> !id_matches(pre[j]@, id)));
                    }
                    assert(id_matches(pre[w]@, id));
                    if w < i {
                        assert(!id_matches(pre[w]@, id));
                    }
                    if w > i {
                        assert(!id_matches(pre[i as int]@, id));
                    }
                    assert(w == i);
                }
                self.notes.set(i, note);
                return ;
            }
            i = i + 1;
        }
        proof {
            let pre = old(self).notes@;
            let id = note@.id;
            assert(!has_id_match(pre, id)) by {
                if has_id_match(pre, id) {
                    let w = choose|w: int| 0 <= w < pre.len() && id_matches(pre[w]@, id);
                    assert(!id_matches(pre[w]@, id));
                }
            }
        }
        self.notes.insert(0, note);
    }

    /// One sync trigger; see [`sync_trigger_rel`].
    fn trigger_sync(&mut self, online: bool) -> (cmds: Vec<Command>)
        requires
            old(self).wf(),
        ensures
            final(self).wf(),
            sync_trigger_rel(*old(self), *final(self), cmds@, online),
    {
        let started = self.coordinator.try_begin(online);
        let mut cmds: Vec<Command> = Vec::new();
        if started {
            let work = self.queue.take_work(&self.store);
            let mut inf: Vec<(String, u64)> = Vec::new();
            let mut i: usize = 0;
            while i < work.len()
                invariant
                    i <= work@.len(),
                    inf@.len() == i,
                    forall|j: int|
                        0 <= j < i ==> inf@[j].0@ == work@[j].0@ && inf@[j].1 == work@[j].1@.version,
                decreases work@.len() - i,
            {
                let k = work[i].0.clone();
                let v = work[i].1.version;
                inf.push((k, v));
                i = i + 1;
            }
            self.in_flight = inf;
            cmds.push(Command::DrainQueue { work });
            proof {
                assert(cmds@.len() == 1);
            }
        } else {
            proof {
                assert(cmds@ =~= Seq::<Command>::empty());
            }
        }
        cmds
    }

    /// Consumes one event, stamped with the current time `now`, and
    /// returns the commands the caller must perform. Total over the event
    /// set: every variant is handled.
    pub fn update(&mut self, msg: AppMsg, now: u64) -> (cmds: Vec<Command>)
        requires
            old(self).wf(),
            msg is SaveNote ==> (old(self).selected_note matches Some(n) ==> n@.version < u64::MAX
                && now >= n@.created_at),
            (msg matches AppMsg::NotesLoaded(r) ==> (r matches Ok(notes) ==> notes_wf(notes@))),
            (msg matches AppMsg::SelectNote(n) ==> n@.wf()),
            (msg matches AppMsg::NoteSaved(k, r) ==> (r matches Ok(n) ==> n@.wf())),
        ensures
            final(self).wf(),
            msg is LoadNotes ==> step_load(*old(self), *final(self), cmds@),
            (msg matches AppMsg::NotesLoaded(r) ==> step_loaded(
                *old(self),
                *final(self),
                cmds@,
                r,
            )),
            (msg matches AppMsg::SelectNote(n) ==> step_select(*old(self), *final(self), cmds@, n)),
            msg is CreateNote ==> step_create(*old(self), *final(self), cmds@, now),
            (msg matches AppMsg::SaveNote(t, c) ==> step_save(
                *old(self),
                *final(self),
                cmds@,
                t,
                c,
                now,
            )),
            (msg matches AppMsg::NoteSaved(k, r) ==> step_note_saved(
                *old(self),
                *final(self),
                cmds@,
                k,
                r,
            )),
            msg is SyncNotes ==> sync_trigger_rel(
                *old(self),
                *final(self),
                cmds@,
                old(self).monitor.spec_online(),
            ),
            (msg matches AppMsg::SyncCompleted(o) ==> step_sync_completed(
                *old(self),
                *final(self),
                cmds@,
                o,
            )),
            msg is CheckOnline ==> step_check_online(*old(self), *final(self), cmds@),
            (msg matches AppMsg::OnlineStatusChanged(b) ==> step_online_changed(
                *old(self),
                *final(self),
                cmds@,
                b,
            )),
            (msg matches AppMsg::Error(e) ==> step_error(*old(self), *final(self), cmds@, e)),
    {
        match msg {
            AppMsg::LoadNotes => {
                self.is_loading = true;
                let mut cmds: Vec<Command> = Vec::new();
                cmds.push(Command::FetchRemote);
                proof {
                    assert(cmds@ =~= seq![Command::FetchRemote]);
                }
                cmds
            },
            AppMsg::NotesLoaded(r) => {
                self.is_loading = false;
                match r {
                    Ok(notes) => {
                        self.notes = notes;
                    },
                    Err(_) => {
                        self.notes = self.store.list_all();
                    },
                }
                if self.selected_note.is_none() && self.notes.len() > 0 {
                    self.selected_note = Some(self.notes[0].clone());
                }
                let cmds: Vec<Command> = Vec::new();
                proof {
                    assert(cmds@ =~= Seq::<Command>::empty());
                }
                cmds
            },
            AppMsg::SelectNote(n) => {
                self.selected_note = Some(n);
                let cmds: Vec<Command> = Vec::new();
                proof {
                    assert(cmds@ =~= Seq::<Command>::empty());
                }
                cmds
            },
            AppMsg::CreateNote => {
                let note = Note::new_at(
                    "Untitled Note".to_owned(),
                    "".to_owned(),
                    self.user_id.clone(),
                    now,
                );
                proof {
                    assert(note@ =~= fresh_draft(old(self).user_id@, now));
                }
                let key = draft_key(now);
                let _ = self.store.put(key.clone(), note.clone());
                self.queue.enqueue(key.clone());
                self.notes.insert(0, note.clone());
                self.selected_note = Some(note.clone());
                let online = self.monitor.is_online();
                let mut cmds: Vec<Command> = Vec::new();
                if online {
                    cmds.push(Command::RemoteCreate { key, note });
                    proof {
                        assert(cmds@.len() == 1);
                    }
                } else {
                    proof {
                        assert(cmds@ =~= Seq::<Command>::empty());
                    }
                }
                cmds
            },
            AppMsg::SaveNote(title, content) => {
                let selc = self.selected_note.clone();
                match selc {
                    None => {
                        let cmds: Vec<Command> = Vec::new();
                        proof {
                            assert(cmds@ =~= Seq::<Command>::empty());
                        }
                        cmds
                    },
                    Some(mut note) => {
                        note.update(title, content, now);
                        let key = match &note.id {
                            Some(id) => note_key(id),
                            None => draft_key(now),
                        };
                        let _ = self.store.put(key.clone(), note.clone());
                        self.queue.enqueue(key.clone());
                        self.upsert_note(note.clone());
                        self.selected_note = Some(note.clone());
                        let online = self.monitor.is_online();
                        let mut cmds: Vec<Command> = Vec::new();
                        if online {
                            let has_id = note.id.is_some();
                            if has_id {
                                cmds.push(Command::RemoteUpdate { key, note });
                            } else {
                                cmds.push(Command::RemoteCreate { key, note });
                            }
                            proof {
                                assert(cmds@.len() == 1);
                            }
                        } else {
                            proof {
                                assert(cmds@ =~= Seq::<Command>::empty());
                            }
                        }
                        cmds
                    },
                }
            },
            AppMsg::NoteSaved(key, r) => {
                match r {
                    Ok(n) => {
                        match &n.id {
                            Some(id) => {
                                let nk = note_key(id);
                                self.store.remove(&key);
                                let _ = self.store.put(nk, n.clone());
                            },
                            None => {
                            },
                        }
                        self.queue.dequeue(&key);
                        self.upsert_note(n.clone());
                        self.selected_note = Some(n);
                        let cmds: Vec<Command> = Vec::new();
                        proof {
                            assert(cmds@ =~= Seq::<Command>::empty());
                        }
                        cmds
                    },
                    Err(e) => {
                        self.error = Some(e);
                        let cmds: Vec<Command> = Vec::new();
                        proof {
                            assert(cmds@ =~= Seq::<Command>::empty());
                        }
                        cmds
                    },
                }
            },
            AppMsg::SyncNotes => {
                let online = self.monitor.is_online();
                self.trigger_sync(online)
            },
            AppMsg::SyncCompleted(outcomes) => {
                self.queue.apply_outcomes(&self.store, &self.in_flight, &outcomes);
                self.coordinator.finish();
                self.in_flight = Vec::new();
                self.is_loading = true;
                let mut cmds: Vec<Command> = Vec::new();
                cmds.push(Command::FetchRemote);
                proof {
                    assert(self.in_flight@ =~= Seq::<(String, u64)>::empty());
                    assert(cmds@ =~= seq![Command::FetchRemote]);
                }
                cmds
            },
            AppMsg::CheckOnline => {
                let mut cmds: Vec<Command> = Vec::new();
                cmds.push(Command::Probe);
                proof {
                    assert(cmds@ =~= seq![Command::Probe]);
                }
                cmds
            },
            AppMsg::OnlineStatusChanged(sample) => {
                let transition = self.monitor.observe(sample);
                match transition {
                    Some(went_online) => {
                        if went_online {
                            self.trigger_sync(true)
                        } else {
                            let cmds: Vec<Command> = Vec::new();
                            proof {
                                assert(cmds@ =~= Seq::<Command>::empty());
                            }
                            cmds
                        }
                    },
                    None => {
                        let cmds: Vec<Command> = Vec::new();
                        proof {
                            assert(cmds@ =~= Seq::<Command>::empty());
                        }
                        cmds
                    },
                }
            },
            AppMsg::Error(e) => {
                self.error = Some(e);
                let cmds: Vec<Command> = Vec::new();
                proof {
                    assert(cmds@ =~= Seq::<Command>::empty());
                }
                cmds
            },
        }
    }
}

} // verus!
