use multisync::sync_service::{
    ConflictResolution, DeviceInfo, DeviceType, MultiDeviceSyncService, SyncDataType,
    SyncOperation, SyncRecord,
};

fn device(device_id: &str, user_id: &str, device_type: DeviceType) -> DeviceInfo {
    DeviceInfo {
        device_id: device_id.to_string(),
        user_id: user_id.to_string(),
        device_type,
        device_name: format!("{} device", device_id),
        platform: "linux".to_string(),
        app_version: "1.0.0".to_string(),
        last_sync: 0,
        is_online: true,
    }
}

fn record(id: &str, user: &str, dev: &str, data_id: &str, ts: u64, version: u64) -> SyncRecord {
    SyncRecord {
        id: id.to_string(),
        user_id: user.to_string(),
        device_id: dev.to_string(),
        data_type: SyncDataType::Settings,
        operation: SyncOperation::Update,
        data_id: data_id.to_string(),
        data_hash: "h".to_string(),
        timestamp: ts,
        version,
        conflict_resolution: None,
    }
}

#[test]
fn versions_increase_without_gaps() {
    let mut s = MultiDeviceSyncService::new();
    let r1 = s.create_sync_record("u1", "d1", SyncDataType::Settings, SyncOperation::Create, "doc1", "a");
    let r2 = s.create_sync_record("u1", "d2", SyncDataType::Settings, SyncOperation::Update, "doc1", "b");
    let r3 = s.create_sync_record("u1", "d1", SyncDataType::Settings, SyncOperation::Update, "doc1", "c");
    assert_eq!(r1.version, 1);
    assert_eq!(r2.version, 2);
    assert_eq!(r3.version, 3);
}

#[test]
fn versions_are_per_entity_and_per_user() {
    let mut s = MultiDeviceSyncService::new();
    let a1 = s.create_sync_record("u1", "d1", SyncDataType::File, SyncOperation::Create, "f1", "x");
    let b1 = s.create_sync_record("u1", "d1", SyncDataType::File, SyncOperation::Create, "f2", "y");
    let a2 = s.create_sync_record("u1", "d1", SyncDataType::File, SyncOperation::Update, "f1", "z");
    let c1 = s.create_sync_record("u2", "d9", SyncDataType::File, SyncOperation::Create, "f1", "w");
    assert_eq!(a1.version, 1);
    assert_eq!(b1.version, 1);
    assert_eq!(a2.version, 2);
    assert_eq!(c1.version, 1);
}

#[test]
fn record_ids_are_uuid_sized_and_distinct() {
    let mut s = MultiDeviceSyncService::new();
    let r1 = s.create_sync_record("u", "d", SyncDataType::Settings, SyncOperation::Create, "k", "p");
    let r2 = s.create_sync_record("u", "d", SyncDataType::Settings, SyncOperation::Update, "k", "q");
    assert_eq!(r1.id.len(), 36);
    assert_eq!(r2.id.len(), 36);
    assert_ne!(r1.id, r2.id);
}

#[test]
fn payload_fingerprint_is_sha256_hex() {
    let mut s = MultiDeviceSyncService::new();
    let r = s.create_sync_record("u", "d", SyncDataType::Settings, SyncOperation::Create, "k", "abc");
    assert_eq!(
        r.data_hash,
        "ba7816bf8f01cfea414140de5dae2223b00361a396177a9cb410ff61f20015ad"
    );
    let e = s.create_sync_record("u", "d", SyncDataType::Settings, SyncOperation::Update, "k", "");
    assert_eq!(
        e.data_hash,
        "e3b0c44298fc1c149afbf4c8996fb92427ae41e4649b934ca495991b7852b855"
    );
}

#[test]
fn incremental_sync_is_exact_and_ordered() {
    let mut s = MultiDeviceSyncService::new();
    // Authored by the requesting device: never returned.
    s.record_change_at("u1", "d1", SyncDataType::Settings, SyncOperation::Update, "k1", "h1".into(), "r1".into(), 500);
    // Another user's record: never returned.
    s.record_change_at("u2", "d2", SyncDataType::Settings, SyncOperation::Update, "k1", "h2".into(), "r2".into(), 600);
    // At the watermark, not after it: not returned.
    s.record_change_at("u1", "d2", SyncDataType::Settings, SyncOperation::Update, "k2", "h3".into(), "r3".into(), 100);
    // Owed, deliberately journaled out of timestamp order.
    s.record_change_at("u1", "d2", SyncDataType::Settings, SyncOperation::Update, "k3", "h4".into(), "r4".into(), 900);
    s.record_change_at("u1", "d3", SyncDataType::Settings, SyncOperation::Update, "k4", "h5".into(), "r5".into(), 300);
    let delta = s.get_incremental_sync("u1", "d1", 100);
    let ids: Vec<&str> = delta.iter().map(|r| r.id.as_str()).collect();
    assert_eq!(ids, vec!["r5", "r4"]);
    assert!(delta.windows(2).all(|w| w[0].timestamp <= w[1].timestamp));
}

#[test]
fn incremental_sync_empty_watermark_returns_everything_foreign() {
    let mut s = MultiDeviceSyncService::new();
    s.record_change_at("u1", "d2", SyncDataType::Friend, SyncOperation::Create, "k", "h".into(), "r1".into(), 1);
    let delta = s.get_incremental_sync("u1", "d1", 0);
    assert_eq!(delta.len(), 1);
    assert_eq!(delta[0].id, "r1");
}

#[test]
fn register_device_is_idempotent_upsert() {
    let mut s = MultiDeviceSyncService::new();
    s.register_device(device("d1", "u1", DeviceType::Desktop));
    s.register_device(device("d2", "u1", DeviceType::Mobile));
    let mut updated = device("d1", "u1", DeviceType::Tablet);
    updated.last_sync = 42;
    s.register_device(updated);
    let devs = s.get_user_devices("u1");
    assert_eq!(devs.len(), 2);
    assert_eq!(devs[0].device_id, "d1");
    assert_eq!(devs[0].device_type, DeviceType::Tablet);
    assert_eq!(devs[0].last_sync, 42);
}

#[test]
fn user_devices_come_most_recently_synced_first() {
    let mut s = MultiDeviceSyncService::new();
    let mut stale = device("d-stale", "u1", DeviceType::Desktop);
    stale.last_sync = 10;
    let mut fresh = device("d-fresh", "u1", DeviceType::Mobile);
    fresh.last_sync = 900;
    let mut middle = device("d-middle", "u1", DeviceType::Tablet);
    middle.last_sync = 500;
    s.register_device(stale);
    s.register_device(fresh);
    s.register_device(middle);
    let devs = s.get_user_devices("u1");
    let ids: Vec<&str> = devs.iter().map(|d| d.device_id.as_str()).collect();
    assert_eq!(ids, vec!["d-fresh", "d-middle", "d-stale"]);
}

#[test]
fn get_user_devices_filters_by_user() {
    let mut s = MultiDeviceSyncService::new();
    s.register_device(device("d1", "u1", DeviceType::Desktop));
    s.register_device(device("d2", "u2", DeviceType::Mobile));
    let devs = s.get_user_devices("u1");
    assert_eq!(devs.len(), 1);
    assert_eq!(devs[0].device_id, "d1");
    assert!(s.get_user_devices("u3").is_empty());
}

#[test]
fn last_write_wins_picks_greater_timestamp() {
    let s = MultiDeviceSyncService::new();
    let a = record("ra", "u", "da", "doc", 100, 1);
    let b = record("rb", "u", "db", "doc", 200, 2);
    let w = s.resolve_conflict(&a, &b).unwrap();
    assert_eq!(w.id, "rb");
    let w2 = s.resolve_conflict(&b, &a).unwrap();
    assert_eq!(w2.id, "rb");
}

#[test]
fn last_write_wins_tie_is_symmetric_and_deterministic() {
    let s = MultiDeviceSyncService::new();
    let a = record("ra", "u", "da", "doc", 100, 1);
    let b = record("rb", "u", "db", "doc", 100, 2);
    let w1 = s.resolve_conflict(&a, &b).unwrap();
    let w2 = s.resolve_conflict(&b, &a).unwrap();
    assert_eq!(w1.id, w2.id);
    let w3 = s.resolve_conflict(&a, &b).unwrap();
    assert_eq!(w1.id, w3.id);
}

#[test]
fn first_write_wins_picks_smaller_timestamp() {
    let mut s = MultiDeviceSyncService::new();
    s.set_conflict_policy(ConflictResolution::FirstWriteWins);
    let a = record("ra", "u", "da", "doc", 100, 1);
    let b = record("rb", "u", "db", "doc", 200, 2);
    assert_eq!(s.resolve_conflict(&a, &b).unwrap().id, "ra");
    assert_eq!(s.resolve_conflict(&b, &a).unwrap().id, "ra");
}

#[test]
fn manual_policy_picks_no_winner() {
    let mut s = MultiDeviceSyncService::new();
    s.set_conflict_policy(ConflictResolution::UserChoice);
    let a = record("ra", "u", "da", "doc", 100, 1);
    let b = record("rb", "u", "db", "doc", 200, 2);
    assert!(s.resolve_conflict(&a, &b).is_none());
}

#[test]
fn merge_policy_falls_back_to_last_write_wins() {
    let mut s = MultiDeviceSyncService::new();
    s.set_conflict_policy(ConflictResolution::MergeChanges);
    let a = record("ra", "u", "da", "doc", 100, 1);
    let b = record("rb", "u", "db", "doc", 200, 2);
    assert_eq!(s.resolve_conflict(&a, &b).unwrap().id, "rb");
}

#[test]
fn device_priority_beats_timestamps() {
    let mut s = MultiDeviceSyncService::new();
    s.register_device(device("da", "u", DeviceType::Watch));
    s.register_device(device("db", "u", DeviceType::Desktop));
    s.set_conflict_policy(ConflictResolution::DevicePriority(DeviceType::Watch));
    let a = record("ra", "u", "da", "doc", 100, 1);
    let b = record("rb", "u", "db", "doc", 200, 2);
    assert_eq!(s.resolve_conflict(&a, &b).unwrap().id, "ra");
    assert_eq!(s.resolve_conflict(&b, &a).unwrap().id, "ra");
}

#[test]
fn device_priority_falls_back_when_neither_matches() {
    let mut s = MultiDeviceSyncService::new();
    s.register_device(device("da", "u", DeviceType::Desktop));
    s.register_device(device("db", "u", DeviceType::Mobile));
    s.set_conflict_policy(ConflictResolution::DevicePriority(DeviceType::Watch));
    let a = record("ra", "u", "da", "doc", 100, 1);
    let b = record("rb", "u", "db", "doc", 200, 2);
    assert_eq!(s.resolve_conflict(&a, &b).unwrap().id, "rb");
}

#[test]
fn batch_chat_sync_journals_each_message() {
    let mut s = MultiDeviceSyncService::new();
    let items = vec![
        ("m1".to_string(), "payload-one".to_string()),
        ("m2".to_string(), "payload-two".to_string()),
    ];
    s.sync_chat_messages("u1", "d1", items);
    let delta = s.get_incremental_sync("u1", "other", 0);
    assert_eq!(delta.len(), 2);
    assert!(delta.iter().all(|r| r.user_id == "u1" && r.device_id == "d1"));
    assert!(delta.iter().any(|r| r.data_id == "m1"));
    assert!(delta.iter().any(|r| r.data_id == "m2"));
}

#[test]
fn batch_friend_sync_versions_per_entity() {
    let mut s = MultiDeviceSyncService::new();
    s.sync_friend_data("u1", "d1", vec![("f1".to_string(), "p".to_string())]);
    s.sync_friend_data("u1", "d1", vec![("f1".to_string(), "q".to_string())]);
    let delta = s.sync_incremental("u1", "other", 0);
    let mut versions: Vec<u64> = delta.iter().filter(|r| r.data_id == "f1").map(|r| r.version).collect();
    versions.sort();
    assert_eq!(versions, vec![1, 2]);
}

#[test]
fn last_sync_watermark_only_moves_forward() {
    let mut s = MultiDeviceSyncService::new();
    s.register_device(device("d1", "u1", DeviceType::Desktop));
    s.update_last_sync("d1", 500);
    assert_eq!(s.get_user_devices("u1")[0].last_sync, 500);
    // An earlier clock reading never rewinds the watermark.
    s.update_last_sync("d1", 200);
    assert_eq!(s.get_user_devices("u1")[0].last_sync, 500);
    s.update_last_sync("d1", 900);
    assert_eq!(s.get_user_devices("u1")[0].last_sync, 900);
    // An unregistered device changes nothing.
    s.update_last_sync("ghost-device", 999);
    assert_eq!(s.get_user_devices("u1").len(), 1);
}
