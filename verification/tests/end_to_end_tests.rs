use multisync::offline_manager::{
    ConflictType, OfflineDataManager, OfflineOperation, OperationPriority,
};
use multisync::sync_service::{MultiDeviceSyncService, SyncDataType, SyncOperation};

/// Device A, offline, queues an update to `doc1` with payload `P1`; device B,
/// online, records a later update with payload `P2`. When A reconnects and
/// drains its queue, last-write-wins must leave `doc1` at `P2`, with the
/// conflict recorded as an audit trail and auto-resolved.
#[test]
fn offline_update_loses_to_newer_remote_write() {
    let mut service = MultiDeviceSyncService::new();
    let mut offline = OfflineDataManager::new();

    // Device A queues its local update while offline.
    offline
        .enqueue_operation(OfflineOperation {
            id: "op-a".to_string(),
            user_id: "u1".to_string(),
            device_id: "dev-a".to_string(),
            operation_type: SyncOperation::Update,
            data_type: SyncDataType::File,
            data_id: "doc1".to_string(),
            data_payload: "P1".to_string(),
            created_at: 1_000,
            retry_count: 0,
            max_retries: 3,
            priority: OperationPriority::Normal,
        })
        .unwrap();

    // Device B records its update directly, at a later timestamp.
    let remote = service.record_change_at(
        "u1",
        "dev-b",
        SyncDataType::File,
        SyncOperation::Update,
        "doc1",
        "hash-P2".to_string(),
        "rec-b".to_string(),
        2_000,
    );

    // Device A reconnects and drains its queue; applying the queued write
    // journals it, then the concurrent edit is detected and resolved.
    let op = offline.next_operation().unwrap();
    assert_eq!(op.id, "op-a");
    let local = service.record_change_at(
        &op.user_id,
        &op.device_id,
        op.data_type,
        op.operation_type,
        &op.data_id,
        "hash-P1".to_string(),
        "rec-a".to_string(),
        op.created_at,
    );
    assert_eq!(local.version, 2);

    let winner = service.resolve_conflict(&local, &remote).unwrap();
    // Last-write-wins: the later remote write stays.
    assert_eq!(winner.id, "rec-b");
    assert_eq!(winner.data_hash, "hash-P2");

    // The conflict is recorded as an audit trail and auto-resolved.
    let conflict_id = offline.record_conflict(
        "u1",
        "doc1",
        local,
        remote,
        ConflictType::DataModified,
    );
    assert_eq!(offline.get_unresolved_conflicts("u1").len(), 1);
    offline.resolve_conflict(&conflict_id, winner);
    assert!(offline.get_unresolved_conflicts("u1").is_empty());

    // A third device catching up sees both records, oldest first, so the
    // later update is applied last and wins on every replica.
    let delta = service.get_incremental_sync("u1", "dev-c", 0);
    let ids: Vec<&str> = delta.iter().map(|r| r.id.as_str()).collect();
    assert_eq!(ids, vec!["rec-a", "rec-b"]);
}
