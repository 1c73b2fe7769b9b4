use multisync::realtime_sync::{
    make_sync_response, should_forward_message, RealtimeSyncManager, RealtimeSyncMessage,
    HEARTBEAT_WINDOW_MS,
};
use multisync::sync_service::{
    DeviceInfo, DeviceType, MultiDeviceSyncService, SyncDataType, SyncOperation, SyncRecord,
};

fn device(device_id: &str, user_id: &str) -> DeviceInfo {
    DeviceInfo {
        device_id: device_id.to_string(),
        user_id: user_id.to_string(),
        device_type: DeviceType::Desktop,
        device_name: device_id.to_string(),
        platform: "linux".to_string(),
        app_version: "1.0.0".to_string(),
        last_sync: 0,
        is_online: true,
    }
}

fn update_record(user: &str, dev: &str) -> SyncRecord {
    SyncRecord {
        id: "r1".to_string(),
        user_id: user.to_string(),
        device_id: dev.to_string(),
        data_type: SyncDataType::Settings,
        operation: SyncOperation::Update,
        data_id: "doc".to_string(),
        data_hash: "h".to_string(),
        timestamp: 1,
        version: 1,
        conflict_resolution: None,
    }
}

#[test]
fn fanout_reaches_only_the_users_other_devices() {
    let mut m = RealtimeSyncManager::new();
    m.register_connection("a1", "u1", 0);
    m.register_connection("a2", "u1", 0);
    m.register_connection("b1", "u2", 0);
    let targets = m.broadcast_targets("u1", "a1");
    assert_eq!(targets, vec!["a2".to_string()]);
    // The other user's device is never a target, even while connected.
    assert!(!targets.contains(&"b1".to_string()));
}

#[test]
fn fanout_excludes_the_sender_with_no_other_devices() {
    let mut m = RealtimeSyncManager::new();
    m.register_connection("a1", "u1", 0);
    assert!(m.broadcast_targets("u1", "a1").is_empty());
}

#[test]
fn chat_messages_are_gated_to_the_sending_user() {
    let msg = RealtimeSyncMessage::ChatMessage {
        message_id: "m1".to_string(),
        session_id: "s1".to_string(),
        sender_id: "u1".to_string(),
        content: "hi".to_string(),
        timestamp: 1,
    };
    let same_user = (Some("a2".to_string()), Some("u1".to_string()));
    let other_user = (Some("b1".to_string()), Some("u2".to_string()));
    let anonymous = (None, None);
    assert!(should_forward_message(&msg, &same_user.0, &same_user.1));
    assert!(!should_forward_message(&msg, &other_user.0, &other_user.1));
    assert!(!should_forward_message(&msg, &anonymous.0, &anonymous.1));
}

#[test]
fn data_updates_skip_the_authoring_device() {
    let msg = RealtimeSyncMessage::DataUpdate { sync_record: update_record("u1", "a1") };
    assert!(should_forward_message(&msg, &Some("a2".to_string()), &Some("u1".to_string())));
    assert!(!should_forward_message(&msg, &Some("a1".to_string()), &Some("u1".to_string())));
    assert!(!should_forward_message(&msg, &Some("b1".to_string()), &Some("u2".to_string())));
}

#[test]
fn presence_events_stay_within_the_user() {
    let online = RealtimeSyncMessage::DeviceOnline {
        device_id: "a1".to_string(),
        user_id: "u1".to_string(),
    };
    let offline = RealtimeSyncMessage::DeviceOffline {
        device_id: "a1".to_string(),
        user_id: "u1".to_string(),
    };
    assert!(should_forward_message(&online, &Some("a2".to_string()), &Some("u1".to_string())));
    assert!(!should_forward_message(&online, &Some("b1".to_string()), &Some("u2".to_string())));
    assert!(should_forward_message(&offline, &Some("a2".to_string()), &Some("u1".to_string())));
    assert!(!should_forward_message(&offline, &Some("b1".to_string()), &Some("u2".to_string())));
}

#[test]
fn point_to_point_messages_are_never_fanned_out() {
    let conn_dev = Some("a2".to_string());
    let conn_user = Some("u1".to_string());
    let req = RealtimeSyncMessage::SyncRequest { device_id: "a1".to_string(), last_sync: 0 };
    let resp = RealtimeSyncMessage::SyncResponse {
        records: Vec::new(),
        next_sync_token: "t".to_string(),
    };
    let hb = RealtimeSyncMessage::Heartbeat { device_id: "a1".to_string(), timestamp: 1 };
    assert!(!should_forward_message(&req, &conn_dev, &conn_user));
    assert!(!should_forward_message(&resp, &conn_dev, &conn_user));
    assert!(!should_forward_message(&hb, &conn_dev, &conn_user));
}

#[test]
fn friend_status_updates_reach_identified_connections_only() {
    let msg = RealtimeSyncMessage::FriendStatusUpdate {
        friend_id: "f1".to_string(),
        status: "online".to_string(),
        last_seen: 1,
    };
    // Friends' devices belong to other users, so any identified connection
    // may receive the update — but an unidentified one never does.
    assert!(should_forward_message(&msg, &Some("a2".to_string()), &Some("u1".to_string())));
    assert!(should_forward_message(&msg, &Some("b1".to_string()), &Some("u2".to_string())));
    assert!(!should_forward_message(&msg, &None, &None));
}

#[test]
fn a_device_is_online_only_within_the_heartbeat_window() {
    let mut conns = RealtimeSyncManager::new();
    let mut service = MultiDeviceSyncService::new();
    service.register_device(device("a1", "u1"));
    service.register_device(device("a2", "u1"));
    conns.register_connection("a1", "u1", 0);
    conns.register_connection("a2", "u1", 0);
    conns.heartbeat("a2", 100_000);
    // Just inside the window for a2, outside for a1.
    let now = HEARTBEAT_WINDOW_MS + 50_000;
    let online = conns.get_online_devices(&service, "u1", now);
    let ids: Vec<&str> = online.iter().map(|d| d.device_id.as_str()).collect();
    assert_eq!(ids, vec!["a2"]);
}

#[test]
fn deregistering_removes_the_connection() {
    let mut conns = RealtimeSyncManager::new();
    let mut service = MultiDeviceSyncService::new();
    service.register_device(device("a1", "u1"));
    conns.register_connection("a1", "u1", 0);
    assert_eq!(conns.get_online_devices(&service, "u1", 0).len(), 1);
    conns.deregister_connection("a1");
    assert!(conns.get_online_devices(&service, "u1", 0).is_empty());
    assert!(conns.broadcast_targets("u1", "none").is_empty());
    // Deregistering an unknown device is harmless.
    conns.deregister_connection("a1");
}

#[test]
fn reconnecting_replaces_the_previous_connection() {
    let mut conns = RealtimeSyncManager::new();
    conns.register_connection("a1", "u1", 0);
    conns.register_connection("a1", "u1", 10);
    // Still a single connection: no duplicate fan-out target for a sibling.
    conns.register_connection("a2", "u1", 0);
    let targets = conns.broadcast_targets("u1", "a2");
    assert_eq!(targets, vec!["a1".to_string()]);
}

#[test]
fn sync_requests_are_answered_with_the_missing_records() {
    let mut service = MultiDeviceSyncService::new();
    service.record_change_at("u1", "d2", SyncDataType::Settings, SyncOperation::Update, "k", "h".to_string(), "r1".to_string(), 500);
    let resp = make_sync_response(&service, "u1", "d1", 0);
    match resp {
        RealtimeSyncMessage::SyncResponse { records, next_sync_token } => {
            assert_eq!(records.len(), 1);
            assert_eq!(records[0].id, "r1");
            assert_eq!(next_sync_token.len(), 36);
        }
        _ => panic!("a sync request must be answered with a sync response"),
    }
}
