use cosmiqnotz::note::Note;

fn draft(now: u64) -> Note {
    Note::new_at(
        "title".to_string(),
        "body".to_string(),
        "user".to_string(),
        now,
    )
}

#[test]
fn new_at_builds_a_draft() {
    let n = draft(100);
    assert_eq!(n.id, None);
    assert_eq!(n.title, "title");
    assert_eq!(n.content, "body");
    assert_eq!(n.created_by, "user");
    assert_eq!(n.created_at, 100);
    assert_eq!(n.updated_at, 100);
    assert!(!n.is_shared);
    assert!(n.shared_with.is_empty());
    assert_eq!(n.version, 1);
}

#[test]
fn new_uses_one_instant_for_both_timestamps() {
    let n = Note::new("t".to_string(), "c".to_string(), "u".to_string());
    assert_eq!(n.created_at, n.updated_at);
    assert_eq!(n.version, 1);
    assert_eq!(n.id, None);
}

#[test]
fn update_bumps_version_and_timestamp() {
    let mut n = draft(100);
    n.update("t2".to_string(), "c2".to_string(), 150);
    assert_eq!(n.version, 2);
    assert_eq!(n.updated_at, 150);
    assert_eq!(n.created_at, 100);
    assert_eq!(n.title, "t2");
    assert_eq!(n.content, "c2");
}

#[test]
fn update_twice_adds_exactly_two_versions() {
    let mut n = draft(100);
    let v0 = n.version;
    let u0 = n.updated_at;
    n.update("a".to_string(), "1".to_string(), 200);
    let u1 = n.updated_at;
    n.update("b".to_string(), "2".to_string(), 300);
    let u2 = n.updated_at;
    assert_eq!(n.version, v0 + 2);
    assert!(u0 < u1 && u1 < u2);
}

#[test]
fn clone_preserves_every_field() {
    let mut n = draft(7);
    n.id = Some("abc".to_string());
    n.shared_with = vec!["x".to_string(), "y".to_string()];
    let c = n.clone();
    assert_eq!(c, n);
}
