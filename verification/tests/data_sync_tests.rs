use multisync::data_sync_manager::{
    sync_target, DataSyncEvent, DataSyncManager, SyncTarget, SYNC_QUEUE_THRESHOLD,
};
use multisync::strutil::hex_string;
use multisync::strutil::str_lt;

fn event(event_type: &str, ts: u64) -> DataSyncEvent {
    DataSyncEvent {
        event_type: event_type.to_string(),
        table_name: "users".to_string(),
        record_id: "1".to_string(),
        data: "{}".to_string(),
        timestamp: ts,
    }
}

#[test]
fn events_route_to_an_explicit_target() {
    assert_eq!(sync_target(&event("user_update", 1)), SyncTarget::ChatDatabase);
    assert_eq!(sync_target(&event("session_create", 1)), SyncTarget::MainDatabase);
    assert_eq!(sync_target(&event("file_upload", 1)), SyncTarget::MainDatabase);
    assert_eq!(sync_target(&event("unknown_kind", 1)), SyncTarget::NoTarget);
}

#[test]
fn recording_past_the_threshold_asks_for_a_drain() {
    let mut m = DataSyncManager::new();
    for i in 0..SYNC_QUEUE_THRESHOLD {
        assert!(!m.record_change(event("user_update", i as u64)));
    }
    assert!(m.record_change(event("user_update", 999)));
}

#[test]
fn drained_events_come_out_complete_and_oldest_first() {
    let mut m = DataSyncManager::new();
    m.record_change(event("user_update", 300));
    m.record_change(event("file_upload", 100));
    m.record_change(event("session_create", 200));
    let events = m.drain_events().unwrap();
    let stamps: Vec<u64> = events.iter().map(|e| e.timestamp).collect();
    assert_eq!(stamps, vec![100, 200, 300]);
    // The queue is empty afterwards: a second drain yields nothing.
    assert!(m.drain_events().unwrap().is_empty());
}

#[test]
fn hex_rendering_matches_known_bytes() {
    assert_eq!(hex_string(&vec![]), "");
    assert_eq!(hex_string(&vec![0x00, 0x0f, 0xa5, 0xff]), "000fa5ff");
}

#[test]
fn string_order_is_bytewise_lexicographic() {
    assert!(str_lt("abc", "abd"));
    assert!(str_lt("ab", "abc"));
    assert!(!str_lt("abc", "abc"));
    assert!(!str_lt("b", "abc"));
    assert!(str_lt("", "a"));
}

#[test]
fn consistency_check_finds_unknown_chat_users() {
    let m = DataSyncManager::new();
    let main_ids = vec!["1".to_string(), "2".to_string()];
    let chat_ids = vec!["2".to_string(), "3".to_string(), "4".to_string()];
    let missing = m.check_consistency(&main_ids, &chat_ids);
    assert_eq!(missing, vec!["3".to_string(), "4".to_string()]);
    // Consistent stores report nothing.
    assert!(m.check_consistency(&main_ids, &main_ids).is_empty());
}
