//! The friend data model whose status updates the engine fans out.

use vstd::prelude::*;

verus! {

/// State of a friendship.
#[derive(Clone, Copy, Debug, PartialEq, Eq, Structural)]
pub enum FriendStatus {
    Pending,
    Accepted,
    Blocked,
    Declined,
}

/// Presence of a friend.
#[derive(Clone, Copy, Debug, PartialEq, Eq, Structural)]
pub enum OnlineStatus {
    Online,
    Offline,
    Away,
    Busy,
}

/// One pending or answered friend request.
#[derive(Debug)]
pub struct FriendRequest {
    pub id: String,
    pub from_user_id: String,
    pub to_user_id: String,
    pub from_username: String,
    pub to_username: String,
    pub message: Option<String>,
    pub status: FriendStatus,
    pub created_at: String,
    pub updated_at: String,
}

/// A caller's request to add a friend.
#[derive(Debug)]
pub struct AddFriendRequest {
    pub username: String,
    pub message: Option<String>,
}

} // verus!
