use gibberish::clipboard::{ClipboardManager, ECHO_SUPPRESSION_WINDOW_MS};
use gibberish::secrecy::Secret;

#[test]
fn test_echo_suppression_window() {
    let mut mgr = ClipboardManager::new();
    let remote_text = "RemoteSecretPayload-42";

    // Arm suppression for remote text
    mgr.arm_suppression_at(1_000, remote_text);

    // Within suppression window: identical text is suppressed
    assert!(mgr.is_suppressed_at(1_000, remote_text));

    // Within suppression window: different user text is NOT suppressed
    assert!(!mgr.is_suppressed_at(1_000, "NewLocalUserCopy"));

    // After window expires
    assert!(!mgr.is_suppressed_at(1_000 + ECHO_SUPPRESSION_WINDOW_MS, remote_text));
}

#[test]
fn echo_suppression_on_the_manager_clock() {
    let mut mgr = ClipboardManager::new();
    mgr.arm_suppression("payload");
    assert!(mgr.is_suppressed("payload"));
    assert!(!mgr.is_suppressed("other"));
}

#[test]
fn local_copies_are_taken_once_and_remote_echoes_dropped() {
    let mut mgr = ClipboardManager::new();
    let first = mgr.accept_local_copy_at(0, "hello".to_string());
    assert_eq!(first.unwrap().expose_secret(), "hello");
    // The same content again is no change.
    assert!(mgr.accept_local_copy_at(10, "hello".to_string()).is_none());
    // A remote write counts as seen and its echo is suppressed.
    mgr.note_remote_write_at(100, &Secret::new("from peer".to_string()));
    assert!(mgr.accept_local_copy_at(200, "from peer".to_string()).is_none());
    assert!(mgr.accept_local_copy_at(700, "from peer".to_string()).is_none());
    // New local content is taken.
    assert_eq!(mgr.accept_local_copy_at(800, "mine".to_string()).unwrap().expose_secret(), "mine");
}
