use multisync::offline_manager::{
    apply_action, ApplyAction, OfflineDataManager, OfflineError, OfflineOperation,
    OperationPriority, ConflictType, DEFAULT_MAX_RETRIES, RESOLVED_CONFLICT_RETENTION_MS,
};
use multisync::offline_manager::OfflineCache;
use multisync::sync_service::{SyncDataType, SyncOperation, SyncRecord};

fn op(id: &str, priority: OperationPriority, created_at: u64, retry_count: u32, max_retries: u32) -> OfflineOperation {
    OfflineOperation {
        id: id.to_string(),
        user_id: "u1".to_string(),
        device_id: "d1".to_string(),
        operation_type: SyncOperation::Update,
        data_type: SyncDataType::Settings,
        data_id: format!("entity-{}", id),
        data_payload: "payload".to_string(),
        created_at,
        retry_count,
        max_retries,
        priority,
    }
}

fn rec(id: &str, ts: u64) -> SyncRecord {
    SyncRecord {
        id: id.to_string(),
        user_id: "u1".to_string(),
        device_id: "d1".to_string(),
        data_type: SyncDataType::Settings,
        operation: SyncOperation::Update,
        data_id: "doc".to_string(),
        data_hash: "h".to_string(),
        timestamp: ts,
        version: 1,
        conflict_resolution: None,
    }
}

#[test]
fn queue_serves_critical_then_normal_then_low() {
    let mut m = OfflineDataManager::new();
    m.enqueue_operation(op("low", OperationPriority::Low, 10, 0, 3)).unwrap();
    m.enqueue_operation(op("critical", OperationPriority::Critical, 30, 0, 3)).unwrap();
    m.enqueue_operation(op("normal", OperationPriority::Normal, 20, 0, 3)).unwrap();
    let outcomes = vec![true, true, true];
    let report = m.process_offline_queue(&outcomes);
    assert_eq!(report.processed, vec!["critical", "normal", "low"]);
    assert!(report.failed.is_empty());
    assert!(m.next_operation().is_none());
}

#[test]
fn ties_within_a_priority_go_to_the_older_operation() {
    let mut m = OfflineDataManager::new();
    m.enqueue_operation(op("younger", OperationPriority::Normal, 200, 0, 3)).unwrap();
    m.enqueue_operation(op("older", OperationPriority::Normal, 100, 0, 3)).unwrap();
    let first = m.next_operation().unwrap();
    assert_eq!(first.id, "older");
    let second = m.next_operation().unwrap();
    assert_eq!(second.id, "younger");
}

#[test]
fn equal_priority_and_age_is_served_in_queue_order() {
    let mut m = OfflineDataManager::new();
    m.enqueue_operation(op("first", OperationPriority::High, 100, 0, 3)).unwrap();
    m.enqueue_operation(op("second", OperationPriority::High, 100, 0, 3)).unwrap();
    assert_eq!(m.next_operation().unwrap().id, "first");
    assert_eq!(m.next_operation().unwrap().id, "second");
}

#[test]
fn always_failing_operation_is_retried_exactly_max_retries_times() {
    let mut m = OfflineDataManager::new();
    m.enqueue_operation(op("doomed", OperationPriority::Normal, 1, 0, 3)).unwrap();
    // Three failing attempts exhaust a budget of three.
    let outcomes = vec![false, false, false, true, true];
    let report = m.process_offline_queue(&outcomes);
    assert!(report.processed.is_empty());
    assert_eq!(report.failed, vec!["doomed"]);
    // The queue is empty: no fourth attempt is possible.
    assert!(m.next_operation().is_none());
}

#[test]
fn failures_below_the_budget_keep_the_operation_queued() {
    let mut m = OfflineDataManager::new();
    m.enqueue_operation(op("wounded", OperationPriority::Normal, 7, 0, 3)).unwrap();
    let outcomes = vec![false, false];
    let report = m.process_offline_queue(&outcomes);
    assert!(report.processed.is_empty());
    assert!(report.failed.is_empty());
    let survivor = m.next_operation().unwrap();
    assert_eq!(survivor.id, "wounded");
    assert_eq!(survivor.retry_count, 2);
    // The original creation time is preserved across re-queues.
    assert_eq!(survivor.created_at, 7);
}

#[test]
fn retry_then_success_removes_the_operation() {
    let mut m = OfflineDataManager::new();
    m.enqueue_operation(op("flaky", OperationPriority::Normal, 1, 0, 3)).unwrap();
    let outcomes = vec![false, true];
    let report = m.process_offline_queue(&outcomes);
    assert_eq!(report.processed, vec!["flaky"]);
    assert!(report.failed.is_empty());
    assert!(m.next_operation().is_none());
}

#[test]
fn full_queue_rejects_new_operations() {
    let mut m = OfflineDataManager::with_limits(1024, 1);
    assert!(m.enqueue_operation(op("kept", OperationPriority::Low, 1, 0, 3)).is_ok());
    let err = m.enqueue_operation(op("rejected", OperationPriority::Critical, 2, 0, 3));
    assert_eq!(err, Err(OfflineError::QueueFull));
    // The queued operation was not displaced.
    assert_eq!(m.next_operation().unwrap().id, "kept");
}

#[test]
fn add_offline_operation_fills_defaults() {
    let mut m = OfflineDataManager::new();
    let id = m
        .add_offline_operation(
            "u1",
            "d1",
            SyncOperation::Create,
            SyncDataType::ChatMessage,
            "msg-1",
            "hello",
            OperationPriority::High,
        )
        .unwrap();
    assert_eq!(id.len(), 36);
    let queued = m.next_operation().unwrap();
    assert_eq!(queued.id, id);
    assert_eq!(queued.retry_count, 0);
    assert_eq!(queued.max_retries, DEFAULT_MAX_RETRIES);
    assert_eq!(queued.priority, OperationPriority::High);
}

#[test]
fn cache_entry_expires_and_is_removed_from_the_store() {
    let mut m = OfflineDataManager::new();
    m.cache_data_at("k", "v", SyncDataType::Settings, Some(1000), 1000);
    // Within the lifetime the value is served.
    assert_eq!(m.get_cached_data_at("k", 1500), Some("v".to_string()));
    // Two seconds later it is expired: reported absent and evicted.
    assert_eq!(m.get_cached_data_at("k", 3000), None);
    // Gone from the store, not merely masked: even an early clock sees nothing.
    assert_eq!(m.get_cached_data_at("k", 0), None);
}

#[test]
fn cache_entry_without_ttl_never_expires() {
    let mut m = OfflineDataManager::new();
    m.cache_data_at("k", "v", SyncDataType::Settings, None, 0);
    assert_eq!(m.get_cached_data_at("k", u64::MAX), Some("v".to_string()));
}

#[test]
fn cache_data_replaces_the_previous_entry() {
    let mut m = OfflineDataManager::new();
    m.cache_data_at("k", "old", SyncDataType::Settings, None, 10);
    m.cache_data_at("k", "new", SyncDataType::Settings, None, 20);
    assert_eq!(m.get_cached_data_at("k", 30), Some("new".to_string()));
}

#[test]
fn remove_cached_data_deletes_the_key() {
    let mut m = OfflineDataManager::new();
    m.cache_data_at("k", "v", SyncDataType::Settings, None, 10);
    m.remove_cached_data("k");
    assert_eq!(m.get_cached_data_at("k", 10), None);
    // Removing an absent key is harmless.
    m.remove_cached_data("k");
}

#[test]
fn over_budget_insert_evicts_oldest_first() {
    // Budget of 10 bytes; each value is 4 bytes.
    let mut m = OfflineDataManager::with_limits(10, 100);
    m.cache_data_at("oldest", "aaaa", SyncDataType::Settings, None, 100);
    m.cache_data_at("middle", "bbbb", SyncDataType::Settings, None, 200);
    // 4 + 4 + 4 > 10: the oldest entries give way, never the new one.
    m.cache_data_at("newest", "cccc", SyncDataType::Settings, None, 300);
    assert_eq!(m.get_cached_data_at("newest", 300), Some("cccc".to_string()));
    assert_eq!(m.get_cached_data_at("oldest", 300), None);
}

#[test]
fn eviction_repeats_until_a_large_item_fits() {
    let mut m = OfflineDataManager::with_limits(16, 100);
    m.cache_data_at("a", "aa", SyncDataType::Settings, None, 1);
    m.cache_data_at("b", "bb", SyncDataType::Settings, None, 2);
    m.cache_data_at("c", "cc", SyncDataType::Settings, None, 3);
    m.cache_data_at("d", "dd", SyncDataType::Settings, None, 4);
    // A 15-byte value forces several eviction passes.
    m.cache_data_at("big", "xxxxxxxxxxxxxxx", SyncDataType::Settings, None, 5);
    assert_eq!(m.get_cached_data_at("big", 5), Some("xxxxxxxxxxxxxxx".to_string()));
    assert_eq!(m.get_cached_data_at("a", 5), None);
}

#[test]
fn cleanup_sweeps_expired_entries_and_old_resolved_conflicts() {
    let mut m = OfflineDataManager::new();
    m.cache_data_at("stale", "v", SyncDataType::Settings, Some(10), 0);
    m.cache_data_at("fresh", "w", SyncDataType::Settings, None, 0);
    m.record_conflict_at("u1", "doc", rec("l1", 1), rec("r1", 2), ConflictType::DataModified, "c-old".to_string(), 0);
    m.record_conflict_at("u1", "doc", rec("l2", 3), rec("r2", 4), ConflictType::DataModified, "c-new".to_string(), 500);
    m.resolve_conflict("c-old", rec("r1", 2));
    m.resolve_conflict("c-new", rec("r2", 4));
    let now = RESOLVED_CONFLICT_RETENTION_MS + 100;
    m.cleanup_expired_data_at(now);
    assert_eq!(m.get_cached_data_at("stale", 0), None);
    assert_eq!(m.get_cached_data_at("fresh", now), Some("w".to_string()));
    // The conflict resolved within the window is retained; the old one purged.
    assert!(m.get_unresolved_conflicts("u1").is_empty());
}

#[test]
fn conflict_inbox_reports_only_open_conflicts_of_the_user() {
    let mut m = OfflineDataManager::new();
    let id = m.record_conflict("u1", "doc", rec("l", 1), rec("r", 2), ConflictType::VersionMismatch);
    assert_eq!(id.len(), 36);
    m.record_conflict_at("u2", "doc", rec("l2", 1), rec("r2", 2), ConflictType::DataDeleted, "other-user".to_string(), 5);
    let open = m.get_unresolved_conflicts("u1");
    assert_eq!(open.len(), 1);
    assert_eq!(open[0].id, id);
    assert!(!open[0].resolved);
    m.resolve_conflict(&id, rec("r", 2));
    assert!(m.get_unresolved_conflicts("u1").is_empty());
    // The other user's conflict is untouched.
    assert_eq!(m.get_unresolved_conflicts("u2").len(), 1);
}

#[test]
fn resolving_an_unknown_conflict_changes_nothing() {
    let mut m = OfflineDataManager::new();
    m.record_conflict_at("u1", "doc", rec("l", 1), rec("r", 2), ConflictType::SchemaChange, "c1".to_string(), 5);
    m.resolve_conflict("missing", rec("r", 2));
    assert_eq!(m.get_unresolved_conflicts("u1").len(), 1);
}

#[test]
fn get_offline_queue_is_sorted_and_filtered_by_user() {
    let mut m = OfflineDataManager::new();
    m.enqueue_operation(op("a-low", OperationPriority::Low, 10, 0, 3)).unwrap();
    m.enqueue_operation(op("a-crit", OperationPriority::Critical, 20, 0, 3)).unwrap();
    let mut foreign = op("b-crit", OperationPriority::Critical, 5, 0, 3);
    foreign.user_id = "u2".to_string();
    m.enqueue_operation(foreign).unwrap();
    let q = m.get_offline_queue("u1");
    let ids: Vec<&str> = q.iter().map(|o| o.id.as_str()).collect();
    assert_eq!(ids, vec!["a-crit", "a-low"]);
}

#[test]
fn apply_action_routes_by_operation_and_data_kind() {
    let create_msg = op("x", OperationPriority::Normal, 1, 0, 3);
    let mut create_msg = create_msg;
    create_msg.operation_type = SyncOperation::Create;
    create_msg.data_type = SyncDataType::ChatMessage;
    assert_eq!(apply_action(&create_msg), ApplyAction::CreateChatMessage);
    create_msg.operation_type = SyncOperation::Update;
    create_msg.data_type = SyncDataType::UserProfile;
    assert_eq!(apply_action(&create_msg), ApplyAction::UpdateUserProfile);
    create_msg.operation_type = SyncOperation::Delete;
    create_msg.data_type = SyncDataType::Friend;
    assert_eq!(apply_action(&create_msg), ApplyAction::DeleteFriend);
    create_msg.operation_type = SyncOperation::Read;
    assert_eq!(apply_action(&create_msg), ApplyAction::NoAction);
}

#[test]
fn restored_operations_are_served_like_fresh_ones() {
    let mut m = OfflineDataManager::new();
    m.enqueue_operation(op("fresh", OperationPriority::Low, 50, 0, 3)).unwrap();
    m.load_pending_operations(vec![
        op("restored-normal", OperationPriority::Normal, 10, 1, 3),
        op("restored-critical", OperationPriority::Critical, 20, 2, 3),
    ]);
    assert_eq!(m.next_operation().unwrap().id, "restored-critical");
    assert_eq!(m.next_operation().unwrap().id, "restored-normal");
    assert_eq!(m.next_operation().unwrap().id, "fresh");
}

#[test]
fn restored_cache_entries_are_readable_and_expire() {
    let mut m = OfflineDataManager::new();
    m.load_cache_data(vec![
        OfflineCache {
            key: "a".to_string(),
            data: "va".to_string(),
            data_type: SyncDataType::Settings,
            created_at: 10,
            expires_at: Some(100),
            size_bytes: 2,
        },
        OfflineCache {
            key: "b".to_string(),
            data: "vb".to_string(),
            data_type: SyncDataType::Settings,
            created_at: 20,
            expires_at: None,
            size_bytes: 2,
        },
    ]);
    assert_eq!(m.get_cached_data_at("a", 50), Some("va".to_string()));
    assert_eq!(m.get_cached_data_at("a", 200), None);
    assert_eq!(m.get_cached_data_at("b", 200), Some("vb".to_string()));
}
