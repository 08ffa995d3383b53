//! Request and answer bodies, and the rows of the tables the services read.
//! Identifiers are UUIDs held as their 128-bit value; instants are
//! microseconds since the Unix epoch.

use vstd::prelude::*;

verus! {

/// A user, as the `users` table holds it and as answers show it.
#[derive(Debug, PartialEq, Eq)]
pub struct UserDto {
    pub id: u128,
    pub name: String,
    pub email: String,
    pub nickname: String,
    pub avatar_url: Option<String>,
    pub created_at: i64,
}

#[derive(Clone, Debug, PartialEq, Eq)]
pub struct RegisterRequest {
    pub name: String,
    pub email: String,
    pub nickname: String,
}

#[derive(Clone, Debug, PartialEq, Eq)]
pub struct LoginRequest {
    pub email: String,
}

#[derive(Clone, Debug, PartialEq, Eq)]
pub struct VerifyCodeRequest {
    pub email: String,
    pub code: String,
}

#[derive(Clone, Debug, PartialEq, Eq)]
pub struct VerifyCodeResponse {
    pub access_token: String,
    pub refresh_token: String,
    pub expires_in: usize,
    pub user: UserDto,
}

#[derive(Clone, Debug, PartialEq, Eq)]
pub struct RefreshRequest {
    pub refresh_token: String,
}

#[derive(Clone, Debug, PartialEq, Eq)]
pub struct RefreshResponse {
    pub access_token: String,
    pub refresh_token: String,
    pub expires_in: usize,
}

/// One line of a user's chat list: the chat and the other member it is with.
#[derive(Clone, Debug, PartialEq, Eq)]
pub struct ChatResponse {
    pub id: u128,
    pub user_id: u128,
    pub name: String,
    pub nickname: String,
    pub last_message: Option<String>,
    pub last_message_time: Option<i64>,
    pub unread: i64,
    pub avatar_url: Option<String>,
}

#[derive(Clone, Debug, PartialEq, Eq)]
pub struct FileVersionResponse {
    pub version: String,
}

/// A message, as the `messages` table holds it and as answers show it.
#[derive(Debug, PartialEq, Eq)]
pub struct MessageDto {
    pub id: u128,
    pub chat_id: u128,
    pub sender_id: u128,
    pub text: String,
    pub device_id: Option<String>,
    pub created_at: i64,
}

/// Paging of a chat's messages: those strictly before `before`, at most `limit`.
#[derive(Clone, Debug, PartialEq, Eq)]
pub struct MessageQuery {
    pub before: Option<i64>,
    pub limit: Option<u64>,
}

/// A new message, either into an existing chat (`chat_id`) or into a new
/// chat with another user (`user_id`).
#[derive(Clone, Debug, PartialEq, Eq)]
pub struct SendMessageRequest {
    pub chat_id: Option<u128>,
    pub user_id: Option<u128>,
    pub id: u128,
    pub text: String,
    pub device_id: Option<String>,
}

/// An event pushed to connected clients.
#[derive(Clone, Debug, PartialEq, Eq)]
pub enum WsEvent {
    NewMessage { message: MessageDto },
    PresenceSnapshot { user_ids: Vec<u128> },
    UserPresence { user_id: u128, online: bool },
    Typing { chat_id: u128, user_id: u128, typing: bool },
    Read { chat_id: u128, user_id: u128, read_at: i64 },
}

/// An event a connected client sends.
#[derive(Clone, Debug, PartialEq, Eq)]
pub enum WsClientEvent {
    Typing { chat_id: u128, typing: bool },
    MarkRead { chat_id: u128 },
}

/// An event with the users it is for (`None`: everyone connected).
#[derive(Clone, Debug, PartialEq, Eq)]
pub struct WsEnvelope {
    pub recipients: Option<Vec<u128>>,
    pub event: WsEvent,
}

#[derive(Clone, Debug, PartialEq, Eq)]
pub struct RegisterPushTokenRequest {
    pub device_id: String,
    pub platform: String,
    pub fcm_token: String,
    pub app_version: Option<String>,
}

#[derive(Clone, Debug, PartialEq, Eq)]
pub struct UnregisterPushTokenRequest {
    pub device_id: String,
}

/// What the verification-code mail template shows.
#[derive(Clone, Debug, PartialEq, Eq)]
pub struct CodeEmailContext {
    pub code: String,
    pub email: String,
    pub subject: String,
    pub text: String,
}

/// What the notification mail template shows.
#[derive(Clone, Debug, PartialEq, Eq)]
pub struct Notification {
    pub email: String,
    pub title: String,
    pub message: String,
    pub link: String,
    pub button_name: String,
}

/// A row of `chat_members`: `user_id` belongs to `chat_id` and has read it up
/// to `last_read_at`.
#[derive(Clone, Copy, Debug, PartialEq, Eq)]
pub struct MemberRow {
    pub chat_id: u128,
    pub user_id: u128,
    pub last_read_at: Option<i64>,
}

/// A row of `verification_codes`; `code` is the Argon2 hash of the code.
#[derive(Clone, Debug, PartialEq, Eq)]
pub struct CodeRow {
    pub id: u128,
    pub email: String,
    pub code: String,
    pub expires_at: i64,
    pub attempt_count: i32,
    pub created_at: i64,
}

/// A row of `push_devices`.
#[derive(Clone, Debug, PartialEq, Eq)]
pub struct DeviceRow {
    pub id: u128,
    pub user_id: u128,
    pub device_id: String,
    pub platform: String,
    pub fcm_token: String,
    pub app_version: Option<String>,
    pub is_active: bool,
    pub updated_at: i64,
    pub last_seen_at: i64,
}

/// A copy of an optional string.
pub fn clone_opt_string(o: &Option<String>) -> (r: Option<String>)
    ensures
        r == *o,
{
    match o {
        Some(s) => Some(s.clone()),
        None => None,
    }
}

impl Clone for UserDto {
    fn clone(&self) -> (res: Self)
        ensures
            res == *self,
    {
        UserDto {
            id: self.id,
            name: self.name.clone(),
            email: self.email.clone(),
            nickname: self.nickname.clone(),
            avatar_url: clone_opt_string(&self.avatar_url),
            created_at: self.created_at,
        }
    }
}

impl Clone for MessageDto {
    fn clone(&self) -> (res: Self)
        ensures
            res == *self,
    {
        MessageDto {
            id: self.id,
            chat_id: self.chat_id,
            sender_id: self.sender_id,
            text: self.text.clone(),
            device_id: clone_opt_string(&self.device_id),
            created_at: self.created_at,
        }
    }
}

} // verus!
