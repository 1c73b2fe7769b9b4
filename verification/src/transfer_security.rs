//! Shapes of the pluggable transport-security capability: key material,
//! session tokens, and the framed secure-transfer protocol. The cryptography
//! itself is an external collaborator.

use vstd::prelude::*;
use crate::file_transfer::FileInfo;

verus! {

/// Parameters of the transfer cipher.
#[derive(Debug)]
pub struct EncryptionConfig {
    pub algorithm: String,
    pub key_size: usize,
    pub block_size: usize,
}

impl Default for EncryptionConfig {
    /// 256-bit AES-GCM with a 128-bit block.
    fn default() -> (c: Self)
        ensures
            c.algorithm@ == "AES-256-GCM"@,
            c.key_size == 32,
            c.block_size == 16,
    {
        EncryptionConfig { algorithm: "AES-256-GCM".to_owned(), key_size: 32, block_size: 16 }
    }
}

/// A device's long-lived key pair.
#[derive(Debug)]
pub struct DeviceKeyPair {
    pub device_id: String,
    pub public_key: Vec<u8>,
    pub private_key: Vec<u8>,
    pub created_at: String,
    pub expires_at: Option<String>,
}

/// A short-lived key agreed for one transfer session.
#[derive(Debug)]
pub struct SessionKey {
    pub session_id: String,
    pub key: Vec<u8>,
    pub nonce: Vec<u8>,
    pub created_at: String,
    pub expires_at: String,
}

/// A signed capability a device presents on each transfer.
#[derive(Debug)]
pub struct AuthToken {
    pub token_id: String,
    pub device_id: String,
    pub account_id: String,
    pub permissions: Vec<String>,
    pub issued_at: String,
    pub expires_at: String,
    pub signature: String,
}

/// One frame of the secure-transfer protocol.
#[derive(Debug)]
pub enum SecureMessage {
    HandshakeRequest { device_id: String, public_key: Vec<u8>, timestamp: String },
    HandshakeResponse {
        device_id: String,
        public_key: Vec<u8>,
        session_key: Vec<u8>,
        timestamp: String,
    },
    TransferRequest { session_id: String, file_info: FileInfo, auth_token: String },
    TransferResponse { session_id: String, accepted: bool, reason: Option<String> },
    FileChunk { session_id: String, chunk_id: u32, encrypted_data: Vec<u8>, hash: String },
    ChunkAck { session_id: String, chunk_id: u32, success: bool },
    TransferComplete { session_id: String, file_hash: String },
    Error { session_id: String, error_code: u32, message: String },
}

} // verus!
