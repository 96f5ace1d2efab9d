use cosmiqnotz::queue::SyncQueue;

#[test]
fn enqueue_same_key_twice_keeps_one_entry() {
    let mut q = SyncQueue::new();
    q.enqueue("note_1".to_string());
    q.enqueue("note_1".to_string());
    assert_eq!(q.len(), 1);
    let keys = q.list();
    assert_eq!(keys, vec!["note_1".to_string()]);
}

#[test]
fn enqueue_keeps_insertion_order() {
    let mut q = SyncQueue::new();
    q.enqueue("a".to_string());
    q.enqueue("b".to_string());
    q.enqueue("a".to_string());
    q.enqueue("c".to_string());
    assert_eq!(
        q.list(),
        vec!["a".to_string(), "b".to_string(), "c".to_string()]
    );
}

#[test]
fn dequeue_removes_only_the_given_key() {
    let mut q = SyncQueue::new();
    q.enqueue("a".to_string());
    q.enqueue("b".to_string());
    q.enqueue("c".to_string());
    q.dequeue(&"b".to_string());
    assert_eq!(q.list(), vec!["a".to_string(), "c".to_string()]);
    assert!(!q.contains(&"b".to_string()));
    assert!(q.contains(&"a".to_string()));
}

#[test]
fn dequeue_of_absent_key_is_a_no_op() {
    let mut q = SyncQueue::new();
    q.enqueue("a".to_string());
    q.dequeue(&"missing".to_string());
    assert_eq!(q.len(), 1);
}
