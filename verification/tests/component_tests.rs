use cosmiqnotz::connectivity::ConnectivityMonitor;
use cosmiqnotz::console::{ConsoleConsumer, Consumer, Message};
use cosmiqnotz::coordinator::SyncCoordinator;
use cosmiqnotz::keys::{draft_key, note_key, u64_to_string};

#[test]
fn monitor_reports_only_transitions() {
    let mut m = ConnectivityMonitor::new();
    assert!(!m.is_online());
    assert_eq!(m.observe(false), None);
    assert_eq!(m.observe(true), Some(true));
    assert_eq!(m.observe(true), None);
    assert_eq!(m.observe(false), Some(false));
    assert_eq!(m.observe(false), None);
    assert!(!m.is_online());
}

#[test]
fn coordinator_runs_one_pass_at_a_time() {
    let mut c = SyncCoordinator::new();
    assert!(!c.is_syncing());
    assert!(!c.try_begin(false), "no pass while offline");
    assert!(c.try_begin(true), "first online trigger starts the pass");
    assert!(!c.try_begin(true), "triggers while syncing are coalesced");
    assert!(c.is_syncing());
    c.finish();
    assert!(!c.is_syncing());
    assert!(c.try_begin(true), "a new pass may start after completion");
}

#[test]
fn storage_keys_have_the_documented_shape() {
    assert_eq!(note_key(&"abc123".to_string()), "note_abc123");
    assert_eq!(draft_key(0), "note_draft_0");
    assert_eq!(draft_key(1700000000000), "note_draft_1700000000000");
}

#[test]
fn decimal_rendering_is_exact() {
    assert_eq!(u64_to_string(0), "0");
    assert_eq!(u64_to_string(9), "9");
    assert_eq!(u64_to_string(10), "10");
    assert_eq!(u64_to_string(90210), "90210");
    assert_eq!(u64_to_string(u64::MAX), "18446744073709551615");
}

#[test]
fn console_consumer_accepts_a_message() {
    let c = ConsoleConsumer::new();
    let m = Message {
        role: "assistant".to_string(),
        content: "hello".to_string(),
    };
    c.consume_message(&m);
}
