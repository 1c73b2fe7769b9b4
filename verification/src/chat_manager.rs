//! The chat data model the engine synchronizes and fans out: messages,
//! chats, and the local chat state.

use vstd::prelude::*;

verus! {

/// What a chat message carries.
#[derive(Clone, Copy, Debug, PartialEq, Eq, Structural)]
pub enum MessageType {
    Text,
    Image,
    File,
    System,
    Emoji,
}

/// Whether a chat is one-to-one or a group.
#[derive(Clone, Copy, Debug, PartialEq, Eq, Structural)]
pub enum ChatType {
    Private,
    Group,
}

/// Delivery state of one message.
#[derive(Clone, Copy, Debug, PartialEq, Eq, Structural)]
pub enum MessageStatus {
    Sending,
    Sent,
    Delivered,
    Read,
    Failed,
}

/// One chat message.
#[derive(Debug)]
pub struct Message {
    pub id: String,
    pub chat_id: String,
    pub sender_id: String,
    pub sender_username: String,
    pub content: String,
    pub message_type: MessageType,
    pub status: MessageStatus,
    pub timestamp: String,
    pub created_at: String,
    pub updated_at: String,
    pub file_name: Option<String>,
    pub file_url: Option<String>,
    pub file_size: Option<u64>,
    pub reply_to_message_id: Option<String>,
    pub reply_to_content: Option<String>,
}

/// One chat and its display summary.
#[derive(Debug)]
pub struct Chat {
    pub id: String,
    pub name: String,
    pub chat_type: ChatType,
    pub avatar_url: Option<String>,
    pub last_message: Option<String>,
    pub last_message_time: Option<String>,
    pub unread_count: i32,
    pub participants: Vec<String>,
    pub created_at: String,
    pub updated_at: String,
}

/// A caller's request to send one message.
#[derive(Debug)]
pub struct SendMessageRequest {
    pub chat_id: String,
    pub content: String,
    pub message_type: MessageType,
    pub reply_to_message_id: Option<String>,
}

/// A caller's request to open a chat.
#[derive(Debug)]
pub struct CreateChatRequest {
    pub chat_type: ChatType,
    pub name: String,
    pub participants: Vec<String>,
}

/// What a chat operation hands back to its caller.
#[derive(Debug)]
pub struct ChatResponse {
    pub success: bool,
    pub message: String,
    pub chats: Option<Vec<Chat>>,
    pub messages: Option<Vec<Message>>,
    pub chat: Option<Chat>,
}

/// This device's local chat state: chats by identifier and messages by chat.
#[derive(Debug)]
pub struct ChatManagerState {
    pub chats: Vec<(String, Chat)>,
    pub messages: Vec<(String, Vec<Message>)>,
    pub connected: bool,
    pub current_user_id: Option<String>,
}

impl Default for ChatManagerState {
    /// The state before anything is loaded: nothing known, not connected.
    fn default() -> (s: Self)
        ensures
            s.chats@.len() == 0,
            s.messages@.len() == 0,
            !s.connected,
            s.current_user_id is None,
    {
        ChatManagerState {
            chats: Vec::new(),
            messages: Vec::new(),
            connected: false,
            current_user_id: None,
        }
    }
}

} // verus!
