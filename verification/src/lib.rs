//! Multi-device synchronization and offline-reconciliation engine.
//!
//! The library tracks the devices that belong to a user, converts local data
//! mutations into an ordered, replicated change journal, computes incremental
//! deltas for reconnecting devices, resolves conflicting concurrent edits,
//! routes live updates between a user's devices, and lets a device operate
//! offline through a priority operation queue with bounded retries and an
//! expiring, size-bounded cache.

pub mod chat_manager;
pub mod data_sync_manager;
pub mod file_transfer;
pub mod friend_manager;
pub mod module_manager;
pub mod offline_manager;
pub mod platform;
pub mod realtime_sync;
pub mod strutil;
pub mod sync_config;
pub mod sync_service;
pub mod transfer_security;
