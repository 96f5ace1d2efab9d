use cosmiqnotz::note::Note;
use cosmiqnotz::store::LocalPersistentStore;

fn note(title: &str, now: u64) -> Note {
    Note::new_at(
        title.to_string(),
        "body".to_string(),
        "user".to_string(),
        now,
    )
}

#[test]
fn put_then_get_returns_the_document() {
    let mut st = LocalPersistentStore::new();
    let r = st.put("note_1".to_string(), note("a", 10));
    assert!(r.is_ok());
    let got = st.get(&"note_1".to_string()).expect("stored");
    assert_eq!(got.title, "a");
    assert_eq!(st.get(&"note_2".to_string()), None);
}

#[test]
fn put_overwrites_the_same_key_without_duplicating() {
    let mut st = LocalPersistentStore::new();
    st.put("k".to_string(), note("first", 1)).unwrap();
    st.put("k".to_string(), note("second", 2)).unwrap();
    assert_eq!(st.len(), 1);
    assert_eq!(st.get(&"k".to_string()).unwrap().title, "second");
}

#[test]
fn remove_deletes_only_the_given_key() {
    let mut st = LocalPersistentStore::new();
    st.put("a".to_string(), note("a", 1)).unwrap();
    st.put("b".to_string(), note("b", 2)).unwrap();
    st.remove(&"a".to_string());
    assert_eq!(st.len(), 1);
    assert_eq!(st.get(&"a".to_string()), None);
    assert!(st.get(&"b".to_string()).is_some());
}

#[test]
fn list_all_orders_by_updated_at_descending() {
    let mut st = LocalPersistentStore::new();
    st.put("a".to_string(), note("oldest", 10)).unwrap();
    st.put("b".to_string(), note("newest", 30)).unwrap();
    st.put("c".to_string(), note("middle", 20)).unwrap();
    let all = st.list_all();
    let titles: Vec<&str> = all.iter().map(|n| n.title.as_str()).collect();
    assert_eq!(titles, vec!["newest", "middle", "oldest"]);
    assert_eq!(all.len(), 3);
}

#[test]
fn list_all_keeps_ties_together() {
    let mut st = LocalPersistentStore::new();
    st.put("a".to_string(), note("x", 5)).unwrap();
    st.put("b".to_string(), note("y", 5)).unwrap();
    let all = st.list_all();
    assert_eq!(all.len(), 2);
    assert_eq!(all[0].updated_at, 5);
    assert_eq!(all[1].updated_at, 5);
}
