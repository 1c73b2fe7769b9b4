//! The file-transfer data model: the shapes device-to-device transfers put
//! on the wire.

use vstd::prelude::*;

verus! {

/// The channel a device-to-device transfer runs over.
#[derive(Clone, Copy, Debug, PartialEq, Eq, Structural)]
pub enum TransferProtocol {
    DirectWiFi,
    Bluetooth,
    LocalNetwork,
    CloudRelay,
}

/// State of one transfer task.
#[derive(Clone, Copy, Debug, PartialEq, Eq, Structural)]
pub enum TransferStatus {
    Pending,
    Connecting,
    Transferring,
    Paused,
    Completed,
    Failed,
    Cancelled,
}

/// One piece of a file in flight.
#[derive(Debug)]
pub struct FileChunk {
    pub chunk_id: u32,
    pub offset: u64,
    pub size: u32,
    pub hash: String,
    pub data: Vec<u8>,
}

/// Identity and fingerprint of a transferred file.
#[derive(Debug)]
pub struct FileInfo {
    pub name: String,
    pub size: u64,
    pub hash: String,
    pub mime_type: String,
    pub created_at: String,
}

/// One account a device may act for.
#[derive(Debug)]
pub struct AccountInfo {
    pub id: String,
    pub username: String,
    pub display_name: String,
    pub avatar_url: Option<String>,
    pub is_active: bool,
    pub permissions: Vec<String>,
}

} // verus!
