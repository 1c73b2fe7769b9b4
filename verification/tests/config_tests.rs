use multisync::module_manager::ModuleManager;
use multisync::sync_config::{ConfigError, ConflictResolutionStrategy, SyncConfig};

#[test]
fn defaults_match_the_documented_knobs() {
    let c = SyncConfig::new();
    assert_eq!(c.websocket_port, 8080);
    assert_eq!(c.heartbeat_interval, 30);
    assert_eq!(c.connection_timeout, 60);
    assert_eq!(c.max_reconnect_attempts, 5);
    assert_eq!(c.reconnect_interval, 5);
    assert_eq!(c.max_operation_retries, 3);
    assert_eq!(c.cache_expiry_days, 30);
    assert_eq!(c.sync_batch_size, 100);
    assert!(c.enable_realtime_sync);
    assert!(c.enable_offline_mode);
    assert_eq!(c.default_conflict_resolution, ConflictResolutionStrategy::UseLatest);
    assert_eq!(c, SyncConfig::default());
}

#[test]
fn validation_accepts_the_defaults() {
    assert_eq!(SyncConfig::new().validate(), Ok(()));
}

#[test]
fn validation_rejects_each_zero_field() {
    let mut c = SyncConfig::new();
    c.set_websocket_port(0);
    assert_eq!(c.validate(), Err(ConfigError::ZeroWebsocketPort));

    let mut c = SyncConfig::new();
    c.set_heartbeat_interval(0);
    assert_eq!(c.validate(), Err(ConfigError::ZeroHeartbeatInterval));

    let mut c = SyncConfig::new();
    c.set_connection_timeout(0);
    assert_eq!(c.validate(), Err(ConfigError::ZeroConnectionTimeout));

    let mut c = SyncConfig::new();
    c.set_sync_batch_size(0);
    assert_eq!(c.validate(), Err(ConfigError::ZeroSyncBatchSize));
}

#[test]
fn setters_change_exactly_one_knob() {
    let mut c = SyncConfig::new();
    c.set_max_reconnect_attempts(9);
    assert_eq!(c.max_reconnect_attempts, 9);
    c.set_reconnect_interval(11);
    assert_eq!(c.reconnect_interval, 11);
    c.set_max_operation_retries(4);
    assert_eq!(c.max_operation_retries, 4);
    c.set_cache_expiry_days(7);
    assert_eq!(c.cache_expiry_days, 7);
    c.set_realtime_sync(false);
    assert!(!c.enable_realtime_sync);
    c.set_offline_mode(false);
    assert!(!c.enable_offline_mode);
    c.set_conflict_resolution(ConflictResolutionStrategy::Manual);
    assert_eq!(c.default_conflict_resolution, ConflictResolutionStrategy::Manual);
    // The knobs set earlier are untouched.
    assert_eq!(c.max_reconnect_attempts, 9);
    assert_eq!(c.websocket_port, 8080);
}

#[test]
fn durations_are_reported_in_milliseconds() {
    let mut c = SyncConfig::new();
    assert_eq!(c.heartbeat_duration(), 30_000);
    assert_eq!(c.connection_timeout_duration(), 60_000);
    assert_eq!(c.reconnect_duration(), 5_000);
    c.set_heartbeat_interval(u64::MAX);
    // A widening that would wrap saturates instead.
    assert_eq!(c.heartbeat_duration(), u64::MAX);
}

#[test]
fn role_checks_have_no_default_allow() {
    let m = ModuleManager::new();
    assert!(m.has_permission("ADMIN", "USER"));
    assert!(m.has_permission("ADMIN", "ADMIN"));
    assert!(m.has_permission("USER", "USER"));
    assert!(!m.has_permission("USER", "ADMIN"));
    assert!(m.has_permission("GUEST", "GUEST"));
    assert!(!m.has_permission("GUEST", "USER"));
    assert!(!m.has_permission("VISITOR", "USER"));
}

#[test]
fn users_see_user_modules_and_admins_see_all() {
    let m = ModuleManager::new();
    let user = m.get_user_modules("USER");
    assert_eq!(user.modules.len(), 4);
    assert!(user.modules.iter().all(|module| module.required_role == "USER"));
    assert_eq!(user.user_permissions.len(), 4);
    assert!(user.user_permissions.iter().all(|(_, allowed)| *allowed));

    let admin = m.get_user_modules("ADMIN");
    assert_eq!(admin.modules.len(), 5);
    assert!(admin.modules.iter().any(|module| module.id == "app_manager"));

    let guest = m.get_user_modules("GUEST");
    assert!(guest.modules.is_empty());

    let unknown = m.get_user_modules("VISITOR");
    assert!(unknown.modules.is_empty());
}
