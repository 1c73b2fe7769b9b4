//! Typed, validated knobs controlling timing, retry, eviction and
//! conflict-policy parameters for the synchronization engine.

use vstd::prelude::*;

verus! {

/// How the resolver should pick a winner between two concurrent edits.
#[derive(Clone, Copy, Debug, PartialEq, Eq, Structural)]
pub enum ConflictResolutionStrategy {
    /// Use the record with the latest timestamp.
    UseLatest,
    /// Keep the local record.
    UseLocal,
    /// Take the remote record.
    UseRemote,
    /// Do not pick automatically; a caller must resolve.
    Manual,
    /// Merge field-by-field where the data type supports it.
    Merge,
}

/// A configuration field that failed validation.
#[derive(Clone, Copy, Debug, PartialEq, Eq, Structural)]
pub enum ConfigError {
    ZeroWebsocketPort,
    ZeroHeartbeatInterval,
    ZeroConnectionTimeout,
    ZeroSyncBatchSize,
}

/// Synchronization engine configuration.
#[derive(Clone, Copy, Debug, PartialEq, Eq, Structural)]
pub struct SyncConfig {
    /// Port for the realtime connection endpoint.
    pub websocket_port: u16,
    /// Heartbeat interval, in seconds.
    pub heartbeat_interval: u64,
    /// Connection timeout, in seconds.
    pub connection_timeout: u64,
    /// Maximum reconnect attempts.
    pub max_reconnect_attempts: u32,
    /// Interval between reconnect attempts, in seconds.
    pub reconnect_interval: u64,
    /// Maximum retries for a queued offline operation.
    pub max_operation_retries: u32,
    /// Cache entry lifetime, in days.
    pub cache_expiry_days: i64,
    /// Number of records shipped per incremental sync batch.
    pub sync_batch_size: usize,
    /// Whether live fan-out over persistent connections is enabled.
    pub enable_realtime_sync: bool,
    /// Whether offline queuing and caching are enabled.
    pub enable_offline_mode: bool,
    /// Conflict policy used when no explicit policy is supplied.
    pub default_conflict_resolution: ConflictResolutionStrategy,
}

/// The configuration every component starts from.
pub open spec fn default_config() -> SyncConfig {
    SyncConfig {
        websocket_port: 8080,
        heartbeat_interval: 30,
        connection_timeout: 60,
        max_reconnect_attempts: 5,
        reconnect_interval: 5,
        max_operation_retries: 3,
        cache_expiry_days: 30,
        sync_batch_size: 100,
        enable_realtime_sync: true,
        enable_offline_mode: true,
        default_conflict_resolution: ConflictResolutionStrategy::UseLatest,
    }
}

/// The validation outcome for a configuration: the first field that is zero
/// but must not be, or success.
pub open spec fn validate_spec(c: SyncConfig) -> Result<(), ConfigError> {
    if c.websocket_port == 0 {
        Err(ConfigError::ZeroWebsocketPort)
    } else if c.heartbeat_interval == 0 {
        Err(ConfigError::ZeroHeartbeatInterval)
    } else if c.connection_timeout == 0 {
        Err(ConfigError::ZeroConnectionTimeout)
    } else if c.sync_batch_size == 0 {
        Err(ConfigError::ZeroSyncBatchSize)
    } else {
        Ok(())
    }
}

/// Seconds widened to milliseconds, saturating at the largest representable
/// value instead of wrapping.
pub open spec fn secs_to_ms(secs: u64) -> u64 {
    if secs <= u64::MAX / 1000 {
        (secs * 1000) as u64
    } else {
        u64::MAX
    }
}

impl Default for SyncConfig {
    fn default() -> (c: Self)
        ensures
            c == default_config(),
    {
        SyncConfig {
            websocket_port: 8080,
            heartbeat_interval: 30,
            connection_timeout: 60,
            max_reconnect_attempts: 5,
            reconnect_interval: 5,
            max_operation_retries: 3,
            cache_expiry_days: 30,
            sync_batch_size: 100,
            enable_realtime_sync: true,
            enable_offline_mode: true,
            default_conflict_resolution: ConflictResolutionStrategy::UseLatest,
        }
    }
}

impl SyncConfig {
    /// A fresh configuration with every knob at its default.
    pub fn new() -> (c: Self)
        ensures
            c == default_config(),
    {
        Self::default()
    }

    /// Checks every field that must not be zero, failing fast on the first
    /// offender rather than silently defaulting.
    pub fn validate(&self) -> (r: Result<(), ConfigError>)
        ensures
            r == validate_spec(*self),
            r is Ok <==> (self.websocket_port != 0 && self.heartbeat_interval != 0
                && self.connection_timeout != 0 && self.sync_batch_size != 0),
    {
        if self.websocket_port == 0 {
            Err(ConfigError::ZeroWebsocketPort)
        } else if self.heartbeat_interval == 0 {
            Err(ConfigError::ZeroHeartbeatInterval)
        } else if self.connection_timeout == 0 {
            Err(ConfigError::ZeroConnectionTimeout)
        } else if self.sync_batch_size == 0 {
            Err(ConfigError::ZeroSyncBatchSize)
        } else {
            Ok(())
        }
    }

    /// The heartbeat interval in milliseconds.
    pub fn heartbeat_duration(&self) -> (ms: u64)
        ensures
            ms == secs_to_ms(self.heartbeat_interval),
    {
        saturating_secs_to_ms(self.heartbeat_interval)
    }

    /// The connection timeout in milliseconds.
    pub fn connection_timeout_duration(&self) -> (ms: u64)
        ensures
            ms == secs_to_ms(self.connection_timeout),
    {
        saturating_secs_to_ms(self.connection_timeout)
    }

    /// The reconnect interval in milliseconds.
    pub fn reconnect_duration(&self) -> (ms: u64)
        ensures
            ms == secs_to_ms(self.reconnect_interval),
    {
        saturating_secs_to_ms(self.reconnect_interval)
    }

    pub fn set_websocket_port(&mut self, port: u16)
        ensures
            *final(self) == (SyncConfig { websocket_port: port, ..*old(self) }),
    {
        self.websocket_port = port;
    }

    pub fn set_heartbeat_interval(&mut self, interval: u64)
        ensures
            *final(self) == (SyncConfig { heartbeat_interval: interval, ..*old(self) }),
    {
        self.heartbeat_interval = interval;
    }

    pub fn set_connection_timeout(&mut self, timeout: u64)
        ensures
            *final(self) == (SyncConfig { connection_timeout: timeout, ..*old(self) }),
    {
        self.connection_timeout = timeout;
    }

    pub fn set_max_reconnect_attempts(&mut self, attempts: u32)
        ensures
            *final(self) == (SyncConfig { max_reconnect_attempts: attempts, ..*old(self) }),
    {
        self.max_reconnect_attempts = attempts;
    }

    pub fn set_reconnect_interval(&mut self, interval: u64)
        ensures
            *final(self) == (SyncConfig { reconnect_interval: interval, ..*old(self) }),
    {
        self.reconnect_interval = interval;
    }

    pub fn set_max_operation_retries(&mut self, retries: u32)
        ensures
            *final(self) == (SyncConfig { max_operation_retries: retries, ..*old(self) }),
    {
        self.max_operation_retries = retries;
    }

    pub fn set_cache_expiry_days(&mut self, days: i64)
        ensures
            *final(self) == (SyncConfig { cache_expiry_days: days, ..*old(self) }),
    {
        self.cache_expiry_days = days;
    }

    pub fn set_sync_batch_size(&mut self, size: usize)
        ensures
            *final(self) == (SyncConfig { sync_batch_size: size, ..*old(self) }),
    {
        self.sync_batch_size = size;
    }

    pub fn set_realtime_sync(&mut self, enabled: bool)
        ensures
            *final(self) == (SyncConfig { enable_realtime_sync: enabled, ..*old(self) }),
    {
        self.enable_realtime_sync = enabled;
    }

    pub fn set_offline_mode(&mut self, enabled: bool)
        ensures
            *final(self) == (SyncConfig { enable_offline_mode: enabled, ..*old(self) }),
    {
        self.enable_offline_mode = enabled;
    }

    pub fn set_conflict_resolution(&mut self, strategy: ConflictResolutionStrategy)
        ensures
            *final(self) == (SyncConfig { default_conflict_resolution: strategy, ..*old(self) }),
    {
        self.default_conflict_resolution = strategy;
    }
}

/// Widens a second count to milliseconds without wrapping.
fn saturating_secs_to_ms(secs: u64) -> (ms: u64)
    ensures
        ms == secs_to_ms(secs),
{
    if secs <= u64::MAX / 1000 {
        secs * 1000
    } else {
        u64::MAX
    }
}

} // verus!
