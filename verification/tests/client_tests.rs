use cosmiqnotz::client::{AppMsg, ClientState, Command};
use cosmiqnotz::errors::SyncError;
use cosmiqnotz::note::Note;

fn server_note(id: &str, title: &str, version: u64, updated_at: u64) -> Note {
    let mut n = Note::new_at(
        title.to_string(),
        "body".to_string(),
        "user".to_string(),
        updated_at,
    );
    n.id = Some(id.to_string());
    n.version = version;
    n
}

#[test]
fn offline_create_then_online_drains_once() {
    // Create a draft titled "Untitled Note" while offline.
    let mut st = ClientState::new("current_user".to_string());
    let cmds = st.update(AppMsg::CreateNote, 1000);
    assert!(cmds.is_empty(), "no remote call while offline");
    assert_eq!(st.store.len(), 1, "one local entry");
    assert_eq!(st.queue.len(), 1, "one pending key");
    assert!(st.queue.contains(&"note_draft_1000".to_string()));
    assert_eq!(st.notes.len(), 1);
    assert_eq!(st.notes[0].title, "Untitled Note");
    assert_eq!(st.notes[0].id, None);

    // Flip connectivity to online: the drain pass starts once.
    let cmds = st.update(AppMsg::OnlineStatusChanged(true), 1001);
    assert!(st.coordinator.is_syncing());
    assert_eq!(cmds.len(), 1);
    let work = match cmds.into_iter().next().unwrap() {
        Command::DrainQueue { work } => work,
        other => panic!("expected a drain command, got {:?}", discriminant_name(&other)),
    };
    // The remote store receives exactly one call, a create (no identifier).
    assert_eq!(work.len(), 1);
    assert_eq!(work[0].0, "note_draft_1000");
    assert_eq!(work[0].1.id, None);

    // The remote create succeeds.
    let cmds = st.update(AppMsg::SyncCompleted(vec![true]), 1002);
    assert!(!st.coordinator.is_syncing());
    assert_eq!(st.queue.len(), 0, "queue becomes empty");
    assert_eq!(cmds.len(), 1, "completion triggers a reload");
    assert!(matches!(cmds[0], Command::FetchRemote));

    // The reload returns the server-confirmed document.
    let confirmed = server_note("n1", "Untitled Note", 2, 2000);
    st.update(AppMsg::NotesLoaded(Ok(vec![confirmed])), 1003);
    assert_eq!(st.notes.len(), 1);
    assert_eq!(st.notes[0].id, Some("n1".to_string()));
    assert_eq!(st.notes[0].version, 2);
}

fn discriminant_name(c: &Command) -> &'static str {
    match c {
        Command::FetchRemote => "FetchRemote",
        Command::RemoteCreate { .. } => "RemoteCreate",
        Command::RemoteUpdate { .. } => "RemoteUpdate",
        Command::DrainQueue { .. } => "DrainQueue",
        Command::Probe => "Probe",
    }
}

#[test]
fn load_falls_back_to_sorted_local_listing() {
    let mut st = ClientState::new("current_user".to_string());
    // Two local saves while offline, at different instants.
    st.update(AppMsg::CreateNote, 100);
    st.update(AppMsg::SaveNote("older".to_string(), "x".to_string()), 150);
    st.update(AppMsg::CreateNote, 200);
    st.update(AppMsg::SaveNote("newer".to_string(), "y".to_string()), 250);

    let cmds = st.update(AppMsg::LoadNotes, 300);
    assert_eq!(cmds.len(), 1);
    assert!(matches!(cmds[0], Command::FetchRemote));
    assert!(st.is_loading);

    // The remote fetch fails: the visible list equals the local listing,
    // most recently updated first, and no error is raised.
    st.update(AppMsg::NotesLoaded(Err(SyncError::Network)), 301);
    assert!(!st.is_loading);
    assert_eq!(st.error, None);
    let stamps: Vec<u64> = st.notes.iter().map(|n| n.updated_at).collect();
    let mut sorted = stamps.clone();
    sorted.sort_by(|a, b| b.cmp(a));
    assert_eq!(stamps, sorted);
    assert_eq!(st.notes.len(), st.store.len());
}

#[test]
fn sync_requests_while_syncing_are_coalesced() {
    let mut st = ClientState::new("u".to_string());
    st.update(AppMsg::CreateNote, 10);
    let cmds = st.update(AppMsg::OnlineStatusChanged(true), 11);
    assert!(st.coordinator.is_syncing());
    assert_eq!(cmds.len(), 1);

    // Further sync requests while the pass runs change nothing.
    let c1 = st.update(AppMsg::SyncNotes, 12);
    let c2 = st.update(AppMsg::SyncNotes, 13);
    assert!(c1.is_empty() && c2.is_empty());
    assert!(st.coordinator.is_syncing());

    // A repeated online sample is no transition and starts nothing.
    let c3 = st.update(AppMsg::OnlineStatusChanged(true), 14);
    assert!(c3.is_empty());

    // Completion returns to idle exactly once.
    let cmds = st.update(AppMsg::SyncCompleted(vec![true]), 15);
    assert!(!st.coordinator.is_syncing());
    assert_eq!(cmds.len(), 1);
}

#[test]
fn drain_retains_exactly_the_failed_keys() {
    let mut st = ClientState::new("u".to_string());
    st.update(AppMsg::CreateNote, 1);
    st.update(AppMsg::CreateNote, 2);
    st.update(AppMsg::CreateNote, 3);
    assert_eq!(st.queue.len(), 3);

    let cmds = st.update(AppMsg::OnlineStatusChanged(true), 4);
    let work = match &cmds[0] {
        Command::DrainQueue { work } => work,
        _ => panic!("expected a drain command"),
    };
    assert_eq!(work.len(), 3);

    // The middle write fails; the first and last succeed.
    st.update(AppMsg::SyncCompleted(vec![true, false, true]), 5);
    let left = st.queue.list();
    assert_eq!(left, vec!["note_draft_2".to_string()]);
}

#[test]
fn save_while_online_commands_the_matching_remote_operation() {
    let mut st = ClientState::new("u".to_string());
    st.update(AppMsg::OnlineStatusChanged(true), 1);
    let n = server_note("abc", "t", 3, 50);
    st.update(AppMsg::SelectNote(n), 60);
    let cmds = st.update(AppMsg::SaveNote("t2".to_string(), "c2".to_string()), 70);
    assert_eq!(cmds.len(), 1);
    match &cmds[0] {
        Command::RemoteUpdate { key, note } => {
            assert_eq!(key, "note_abc");
            assert_eq!(note.version, 4);
            assert_eq!(note.title, "t2");
            assert_eq!(note.updated_at, 70);
        }
        _ => panic!("an identified note must be updated, not created"),
    }
    // Durability first: the save is already local and queued.
    assert!(st.queue.contains(&"note_abc".to_string()));
    assert!(st.store.get(&"note_abc".to_string()).is_some());
}

#[test]
fn confirmed_create_replaces_the_draft_entry() {
    let mut st = ClientState::new("u".to_string());
    st.update(AppMsg::OnlineStatusChanged(true), 100);
    let cmds = st.update(AppMsg::CreateNote, 100);
    assert_eq!(cmds.len(), 1);
    let key = match &cmds[0] {
        Command::RemoteCreate { key, .. } => key.clone(),
        _ => panic!("a draft must be created remotely"),
    };
    assert_eq!(key, "note_draft_100");

    let confirmed = server_note("n9", "Untitled Note", 2, 150);
    st.update(AppMsg::NoteSaved(key, Ok(confirmed)), 151);
    // The draft's local entry is replaced, not duplicated.
    assert_eq!(st.store.len(), 1);
    assert!(st.store.get(&"note_draft_100".to_string()).is_none());
    assert!(st.store.get(&"note_n9".to_string()).is_some());
    assert!(!st.queue.contains(&"note_draft_100".to_string()));
    // The server document enters the visible list and is selected with
    // the server version (last-writer-wins). The stale draft entry cannot
    // be matched by identifier and lingers until the next reload: local
    // drafts are matched by identifier exclusively.
    assert_eq!(st.notes.len(), 2);
    assert_eq!(st.notes[0].id, Some("n9".to_string()));
    assert_eq!(st.selected_note.as_ref().unwrap().version, 2);

    // The reload that follows a sync converges the visible list.
    let listing = vec![server_note("n9", "Untitled Note", 2, 150)];
    st.update(AppMsg::NotesLoaded(Ok(listing)), 152);
    assert_eq!(st.notes.len(), 1);
    assert_eq!(st.notes[0].id, Some("n9".to_string()));
}

#[test]
fn failed_remote_save_surfaces_a_dismissible_error() {
    let mut st = ClientState::new("u".to_string());
    let cmds = st.update(
        AppMsg::NoteSaved("note_x".to_string(), Err(SyncError::Network)),
        10,
    );
    assert!(cmds.is_empty());
    assert_eq!(st.error, Some(SyncError::Network));
}

#[test]
fn saving_the_same_note_twice_keeps_one_pending_entry() {
    let mut st = ClientState::new("u".to_string());
    let n = server_note("abc", "t", 1, 10);
    st.update(AppMsg::SelectNote(n), 20);
    st.update(AppMsg::SaveNote("a".to_string(), "1".to_string()), 30);
    st.update(AppMsg::SaveNote("b".to_string(), "2".to_string()), 40);
    assert_eq!(st.queue.len(), 1);
    assert!(st.queue.contains(&"note_abc".to_string()));
    // The stored snapshot is the newest save.
    let stored = st.store.get(&"note_abc".to_string()).unwrap();
    assert_eq!(stored.title, "b");
    assert_eq!(stored.version, 3);
}

#[test]
fn reported_errors_are_surfaced() {
    let mut st = ClientState::new("u".to_string());
    let cmds = st.update(AppMsg::Error(SyncError::Serialization), 1);
    assert!(cmds.is_empty());
    assert_eq!(st.error, Some(SyncError::Serialization));
}

#[test]
fn select_note_changes_only_the_selection() {
    let mut st = ClientState::new("u".to_string());
    let n = server_note("s1", "picked", 1, 5);
    let cmds = st.update(AppMsg::SelectNote(n), 6);
    assert!(cmds.is_empty());
    assert_eq!(st.selected_note.as_ref().unwrap().title, "picked");
    assert_eq!(st.notes.len(), 0);
}

#[test]
fn check_online_commands_a_probe() {
    let mut st = ClientState::new("u".to_string());
    let cmds = st.update(AppMsg::CheckOnline, 1);
    assert_eq!(cmds.len(), 1);
    assert!(matches!(cmds[0], Command::Probe));
}
