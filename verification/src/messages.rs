//! Messages with per-member unread counters: validating and storing a new
//! message, and listing a chat from its first message.

use vstd::prelude::*;
use crate::chats::{check_member, is_member, message_range, page_filter, sorted_by_time, sorted_chat_messages};
use crate::dtos::{MemberRow, MessageDto};
use crate::error::AppError;
use crate::clock::{utc_now, Instant};
use crate::text::{string_from_chars, trim_chars, trimmed};

verus! {

/// A message text may hold at most this many characters once trimmed.
pub const MAX_TEXT_CHARS: usize = 4000;

/// A page holds this many messages unless asked otherwise.
pub const DEFAULT_LIST_LIMIT: u32 = 50;

/// A page holds at most this many messages.
pub const MAX_LIST_LIMIT: u32 = 200;

/// The page size asked for, between 1 and 200, fifty by default.
pub open spec fn list_limit(limit: Option<u32>) -> int {
    let asked = match limit {
        Some(l) => l as int,
        None => DEFAULT_LIST_LIMIT as int,
    };
    if asked < 1 { 1 } else if asked > MAX_LIST_LIMIT { MAX_LIST_LIMIT as int } else { asked }
}

/// A page of messages, and where the next one starts (never given yet).
#[derive(Debug)]
pub struct MessageListResponse {
    pub items: Vec<MessageDto>,
    pub next_cursor: Option<String>,
}

/// A member's read state with its unread counter.
#[derive(Debug)]
pub struct MemberCounter {
    pub chat_id: u128,
    pub user_id: u128,
    pub unread_count: i32,
    pub last_read_message_id: Option<u128>,
    pub last_read_at: Option<i64>,
}

/// What sending a message stores: the message, the chat's new last-message
/// fields, and the counters of the chat's members.
#[derive(Debug)]
pub struct SendMessageResponse {
    pub message: MessageDto,
    pub last_message_id: u128,
    pub last_message_text: String,
    pub last_message_time: i64,
    pub counters: Vec<MemberCounter>,
}

/// A member's counter after `sender` sent message `message_id` at `at` in
/// `chat`: in that chat the sender has read everything and everyone else has
/// one more unread message; counters of other chats stay as they were.
pub open spec fn counter_after(c: MemberCounter, chat: u128, sender: u128, message_id: u128, at: i64) -> MemberCounter {
    if c.chat_id != chat {
        c
    } else if c.user_id == sender {
        MemberCounter { unread_count: 0, last_read_message_id: Some(message_id), last_read_at: Some(at), ..c }
    } else {
        MemberCounter { unread_count: (c.unread_count + 1) as i32, ..c }
    }
}

/// Every counter that a message from `sender` in `chat` raises can count one
/// more unread message.
pub open spec fn counters_can_grow(counters: Seq<MemberCounter>, chat: u128, sender: u128) -> bool {
    forall|i: int|
        0 <= i < counters.len() && (#[trigger] counters[i]).chat_id == chat && counters[i].user_id != sender
            ==> counters[i].unread_count < i32::MAX
}

/// The text is refused: empty once trimmed, or over 4000 characters.
pub open spec fn text_refused(text: Seq<char>) -> bool {
    trimmed(text).len() == 0 || trimmed(text).len() > MAX_TEXT_CHARS
}

/// What storing `text` from `user_id` in `chat_id` under `message_id` at
/// `now_micros` gives: `BadRequest` for a refused text, else `Forbidden` for
/// a non-member, else the stored message (trimmed text), the chat's new last
/// message, and every counter updated by `counter_after`.
pub open spec fn message_stored(
    members: Seq<MemberRow>,
    counters: Seq<MemberCounter>,
    user_id: u128,
    chat_id: u128,
    text: Seq<char>,
    message_id: u128,
    now_micros: i64,
    res: Result<SendMessageResponse, AppError>,
) -> bool {
    if text_refused(text) {
        res matches Err(e) && e is BadRequest
    } else if !is_member(members, chat_id, user_id) {
        res matches Err(e) && e is Forbidden
    } else {
        res matches Ok(r) && {
            &&& r.message == (MessageDto {
                id: message_id,
                chat_id,
                sender_id: user_id,
                text: r.message.text,
                device_id: None,
                created_at: now_micros,
            })
            &&& r.message.text@ == trimmed(text)
            &&& r.last_message_id == message_id
            &&& r.last_message_text@ == trimmed(text)
            &&& r.last_message_time == now_micros
            &&& r.counters@.len() == counters.len()
            &&& forall|i: int|
                0 <= i < counters.len() ==> (#[trigger] r.counters@[i]) == counter_after(
                    counters[i],
                    chat_id,
                    user_id,
                    message_id,
                    now_micros,
                )
        }
    }
}

/// `uuid::Uuid::new_v4`, as its 128-bit value. Claimed: the version nibble
/// is 4 and the variant bits are `10`, which the source sets on the random
/// bits; the rest is random.
#[verifier::external_body]
fn new_v4_id() -> (id: u128)
    ensures
        id & 0xF000_C000_0000_0000_0000u128 == 0x4000_8000_0000_0000_0000u128,
{
    uuid::Uuid::new_v4().as_u128()
}

pub struct MessageService;

impl MessageService {
    /// `user_id` must be a member of the chat, else `Forbidden`.
    pub fn ensure_membership(members: &Vec<MemberRow>, user_id: u128, chat_id: u128) -> (res: Result<(), AppError>)
        ensures
            res is Ok <==> is_member(members@, chat_id, user_id),
            res matches Err(e) ==> e is Forbidden,
    {
        if check_member(members, chat_id, user_id) {
            Ok(())
        } else {
            Err(AppError::Forbidden)
        }
    }

    /// A message's text, trimmed; empty texts and texts over 4000 characters are
    /// `BadRequest`.
    pub fn validate_text(text: &str) -> (res: Result<String, AppError>)
        ensures
            match res {
                Ok(t) => t@ == trimmed(text@) && !text_refused(text@),
                Err(e) => e is BadRequest && text_refused(text@),
            },
    {
        let chars = trim_chars(text);
        if chars.len() == 0 || chars.len() > MAX_TEXT_CHARS {
            return Err(AppError::BadRequest);
        }
        Ok(string_from_chars(&chars))
    }

    /// The first messages of a chat, oldest first, at most `list_limit(limit)`
    /// of them; `Forbidden` unless `user_id` is a member.
    pub fn list_messages(
        members: &Vec<MemberRow>,
        messages: &Vec<MessageDto>,
        user_id: u128,
        chat_id: u128,
        limit: Option<u32>,
    ) -> (res: Result<MessageListResponse, AppError>)
        ensures
            !is_member(members@, chat_id, user_id) ==> (res matches Err(e) && e is Forbidden),
            is_member(members@, chat_id, user_id) ==> (res matches Ok(r) && r.next_cursor is None && exists|s: Seq<
                MessageDto,
            >|
                #[trigger] sorted_by_time(s) && s.to_multiset() == messages@.filter(page_filter(chat_id, None)).to_multiset()
                    && r.items@ == s.subrange(
                    0,
                    if list_limit(limit) < s.len() { list_limit(limit) } else { s.len() as int },
                )),
    {
        Self::ensure_membership(members, user_id, chat_id)?;
        let asked: u32 = match limit {
            Some(l) => l,
            None => DEFAULT_LIST_LIMIT,
        };
        let limit_n: u32 = if asked < 1 { 1 } else if asked > MAX_LIST_LIMIT { MAX_LIST_LIMIT } else { asked };
        let sorted = sorted_chat_messages(messages, chat_id, None);
        let n = sorted.len();
        let k: usize = if (limit_n as usize) < n { limit_n as usize } else { n };
        let items = message_range(&sorted, 0, k);
        assert(sorted_by_time(sorted@));
        Ok(MessageListResponse { items, next_cursor: None })
    }

    /// Stores a message from `user_id` in `chat_id` at `now_micros` under the
    /// fresh id `message_id`: the text is validated first (`BadRequest`),
    /// then membership (`Forbidden`); the chat's last message becomes this
    /// one, and the counters of the chat's members are updated by
    /// `counter_after` (counters of other chats are left as they are).
    pub fn send_message_at(
        members: &Vec<MemberRow>,
        counters: &Vec<MemberCounter>,
        user_id: u128,
        chat_id: u128,
        text: &str,
        message_id: u128,
        now_micros: i64,
    ) -> (res: Result<SendMessageResponse, AppError>)
        requires
            counters_can_grow(counters@, chat_id, user_id),
        ensures
            message_stored(members@, counters@, user_id, chat_id, text@, message_id, now_micros, res),
    {
        let text = Self::validate_text(text)?;
        Self::ensure_membership(members, user_id, chat_id)?;
        let message = MessageDto {
            id: message_id,
            chat_id,
            sender_id: user_id,
            text: text.clone(),
            device_id: None,
            created_at: now_micros,
        };
        let mut updated: Vec<MemberCounter> = Vec::new();
        for i in 0..counters.len()
            invariant
                counters_can_grow(counters@, chat_id, user_id),
                updated@.len() == i,
                forall|j: int|
                    0 <= j < i ==> (#[trigger] updated@[j]) == counter_after(
                        counters@[j],
                        chat_id,
                        user_id,
                        message_id,
                        now_micros,
                    ),
        {
            let c = &counters[i];
            let next = if c.chat_id != chat_id {
                MemberCounter {
                    chat_id: c.chat_id,
                    user_id: c.user_id,
                    unread_count: c.unread_count,
                    last_read_message_id: c.last_read_message_id,
                    last_read_at: c.last_read_at,
                }
            } else if c.user_id == user_id {
                MemberCounter {
                    chat_id: c.chat_id,
                    user_id: c.user_id,
                    unread_count: 0,
                    last_read_message_id: Some(message_id),
                    last_read_at: Some(now_micros),
                }
            } else {
                MemberCounter {
                    chat_id: c.chat_id,
                    user_id: c.user_id,
                    unread_count: c.unread_count + 1,
                    last_read_message_id: c.last_read_message_id,
                    last_read_at: c.last_read_at,
                }
            };
            updated.push(next);
        }
        Ok(SendMessageResponse {
            message,
            last_message_id: message_id,
            last_message_text: text,
            last_message_time: now_micros,
            counters: updated,
        })
    }

    /// Stores a message from `user_id` in `chat_id` now, under a fresh random
    /// id; the id and the instant used are returned beside the outcome.
    pub fn send_message(
        members: &Vec<MemberRow>,
        counters: &Vec<MemberCounter>,
        user_id: u128,
        chat_id: u128,
        text: &str,
    ) -> (res: (u128, Instant, Result<SendMessageResponse, AppError>))
        requires
            counters_can_grow(counters@, chat_id, user_id),
        ensures
            message_stored(members@, counters@, user_id, chat_id, text@, res.0, res.1.micros, res.2),
    {
        let message_id = new_v4_id();
        let now = utc_now();
        let res = Self::send_message_at(members, counters, user_id, chat_id, text, message_id, now.micros);
        (message_id, now, res)
    }
}

} // verus!
