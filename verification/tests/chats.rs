use telegramka_api::chats::{ChatService, ChatTarget};
use telegramka_api::dtos::{MemberRow, MessageDto, MessageQuery, SendMessageRequest, UserDto, WsEvent};
use telegramka_api::error::AppError;

const ME: u128 = 1;
const ALICE: u128 = 2;
const BOB: u128 = 3;
const CHAT_A: u128 = 100;
const CHAT_B: u128 = 200;
const CHAT_EMPTY: u128 = 300;

fn user(id: u128, name: &str) -> UserDto {
    UserDto {
        id,
        name: name.to_string(),
        email: format!("{name}@example.com"),
        nickname: format!("@{name}"),
        avatar_url: if id == ALICE { Some("/avatars/a.webp".to_string()) } else { None },
        created_at: 0,
    }
}

fn member(chat: u128, user: u128, read: Option<i64>) -> MemberRow {
    MemberRow { chat_id: chat, user_id: user, last_read_at: read }
}

fn msg(id: u128, chat: u128, sender: u128, text: &str, at: i64) -> MessageDto {
    MessageDto { id, chat_id: chat, sender_id: sender, text: text.to_string(), device_id: None, created_at: at }
}

fn world() -> (Vec<MemberRow>, Vec<UserDto>, Vec<MessageDto>) {
    let members = vec![
        member(CHAT_A, ME, Some(15)),
        member(CHAT_A, ALICE, None),
        member(CHAT_B, ME, None),
        member(CHAT_B, BOB, Some(0)),
        member(CHAT_EMPTY, ME, None),
        member(CHAT_EMPTY, BOB, None),
        member(400, ALICE, None),
        member(400, BOB, None),
    ];
    let users = vec![user(ME, "me"), user(ALICE, "alice"), user(BOB, "bob")];
    let messages = vec![
        msg(1, CHAT_A, ALICE, "hi", 10),
        msg(2, CHAT_A, ME, "hello", 20),
        msg(3, CHAT_A, ALICE, "how are you?", 30),
        msg(4, CHAT_B, BOB, "yo", 5),
        msg(5, 400, BOB, "not mine", 50),
    ];
    (members, users, messages)
}

#[test]
fn chat_list_lines_order_and_unread() {
    let (members, users, messages) = world();
    let list = ChatService::list_chats(&members, &users, &messages, ME);
    assert_eq!(list.len(), 3);
    // chats without messages first, then newest last message first
    assert_eq!(list[0].id, CHAT_EMPTY);
    assert_eq!(list[0].user_id, BOB);
    assert_eq!(list[0].last_message, None);
    assert_eq!(list[0].last_message_time, None);
    assert_eq!(list[0].unread, 0);
    assert_eq!(list[1].id, CHAT_A);
    assert_eq!(list[1].user_id, ALICE);
    assert_eq!(list[1].name, "alice");
    assert_eq!(list[1].nickname, "@alice");
    assert_eq!(list[1].avatar_url, Some("/avatars/a.webp".to_string()));
    assert_eq!(list[1].last_message, Some("how are you?".to_string()));
    assert_eq!(list[1].last_message_time, Some(30));
    assert_eq!(list[1].unread, 2);
    assert_eq!(list[2].id, CHAT_B);
    assert_eq!(list[2].last_message, Some("yo".to_string()));
    assert_eq!(list[2].unread, 1);
}

#[test]
fn chat_list_of_a_stranger_is_empty() {
    let (members, users, messages) = world();
    assert!(ChatService::list_chats(&members, &users, &messages, 999).is_empty());
}

#[test]
fn reading_up_to_the_latest_message_clears_unread() {
    let (mut members, users, messages) = world();
    members[0].last_read_at = Some(30);
    let list = ChatService::list_chats(&members, &users, &messages, ME);
    let a = list.iter().find(|l| l.id == CHAT_A).unwrap();
    assert_eq!(a.unread, 0);
}

fn query(before: Option<i64>, limit: Option<u64>) -> MessageQuery {
    MessageQuery { before, limit }
}

#[test]
fn newest_page_oldest_first_and_read_receipt() {
    let (members, _, messages) = world();
    let page = ChatService::list_messages(&members, &messages, ME, CHAT_A, &query(None, Some(2)), 99);
    let ids: Vec<u128> = page.messages.iter().map(|m| m.id).collect();
    assert_eq!(ids, vec![2, 3]);
    let env = page.read.unwrap();
    assert_eq!(env.recipients, Some(vec![ME, ALICE]));
    assert_eq!(env.event, WsEvent::Read { chat_id: CHAT_A, user_id: ME, read_at: 99 });
}

#[test]
fn paging_back_does_not_mark_read() {
    let (members, _, messages) = world();
    let page = ChatService::list_messages(&members, &messages, ME, CHAT_A, &query(Some(30), None), 99);
    let ids: Vec<u128> = page.messages.iter().map(|m| m.id).collect();
    assert_eq!(ids, vec![1, 2]);
    assert!(page.read.is_none());
}

#[test]
fn page_size_defaults_and_caps() {
    let members = vec![member(CHAT_A, ME, None)];
    let messages: Vec<MessageDto> = (0..150).map(|i| msg(i as u128, CHAT_A, ME, "x", i)).collect();
    let page = ChatService::list_messages(&members, &messages, ME, CHAT_A, &query(None, None), 0);
    assert_eq!(page.messages.len(), 50);
    assert_eq!(page.messages[0].created_at, 100);
    assert_eq!(page.messages[49].created_at, 149);
    let page = ChatService::list_messages(&members, &messages, ME, CHAT_A, &query(None, Some(1000)), 0);
    assert_eq!(page.messages.len(), 100);
    let page = ChatService::list_messages(&members, &messages, ME, CHAT_A, &query(None, Some(0)), 0);
    assert!(page.messages.is_empty());
    assert!(page.read.is_none());
}

#[test]
fn non_members_get_nothing() {
    let (members, _, messages) = world();
    let page = ChatService::list_messages(&members, &messages, ME, 400, &query(None, None), 0);
    assert!(page.messages.is_empty());
    assert!(page.read.is_none());
    assert!(ChatService::mark_read(&members, ME, 400, 5).is_none());
}

#[test]
fn mark_read_notifies_members() {
    let (members, _, _) = world();
    let env = ChatService::mark_read(&members, ME, CHAT_B, 77).unwrap();
    assert_eq!(env.recipients, Some(vec![ME, BOB]));
    assert_eq!(env.event, WsEvent::Read { chat_id: CHAT_B, user_id: ME, read_at: 77 });
}

fn send(chat: Option<u128>, to: Option<u128>) -> SendMessageRequest {
    SendMessageRequest { chat_id: chat, user_id: to, id: 55, text: "hey".to_string(), device_id: Some("dev-1".to_string()) }
}

#[test]
fn choosing_the_chat_of_a_message() {
    let (members, mut users, _) = world();
    users.push(user(4, "carol"));
    let r = |req: &SendMessageRequest| ChatService::resolve_chat(&members, &users, ME, req);
    assert_eq!(r(&send(Some(CHAT_A), None)).unwrap(), ChatTarget::Existing(CHAT_A));
    assert!(matches!(r(&send(Some(400), None)), Err(AppError::NotFound)));
    // the private chat of the pair is reused
    assert_eq!(r(&send(None, Some(BOB))).unwrap(), ChatTarget::Existing(CHAT_B));
    assert_eq!(r(&send(None, Some(ALICE))).unwrap(), ChatTarget::Existing(CHAT_A));
    assert_eq!(r(&send(None, Some(4))).unwrap(), ChatTarget::NewWith(4));
    assert!(matches!(r(&send(None, Some(ME))), Err(AppError::BadRequest)));
    assert!(matches!(r(&send(None, Some(77))), Err(AppError::NotFound)));
    assert!(matches!(r(&send(None, None)), Err(AppError::BadRequest)));
    assert_eq!(r(&send(Some(CHAT_A), Some(BOB))).unwrap(), ChatTarget::Existing(CHAT_A));
    let mut blank = send(Some(CHAT_A), None);
    blank.text = "   ".to_string();
    assert!(matches!(r(&blank), Err(AppError::BadRequest)));
    blank.text = "x".repeat(4001);
    assert!(matches!(r(&blank), Err(AppError::BadRequest)));
}

#[test]
fn sent_message_reaches_members_and_marks_sender_read() {
    let rows = ChatService::new_chat_members(900, ME, BOB);
    assert_eq!(rows, vec![member(900, ME, None), member(900, BOB, None)]);
    let mut req = send(None, Some(BOB));
    req.text = "  hey \n".to_string();
    let sent = ChatService::message_sent(&rows, 900, ME, req, 1234);
    assert_eq!(sent.message, MessageDto {
        id: 55,
        chat_id: 900,
        sender_id: ME,
        text: "hey".to_string(),
        device_id: None,
        created_at: 1234,
    });
    assert_eq!(sent.sender_read, member(900, ME, Some(1234)));
    assert_eq!(sent.notify.recipients, Some(vec![ME, BOB]));
    assert_eq!(sent.notify.event, WsEvent::NewMessage { message: sent.message.clone() });
    let mut messages = world().2;
    messages.push(sent.message.clone());
    let page = ChatService::list_messages(&rows, &messages, BOB, 900, &query(None, None), 2000);
    assert_eq!(page.messages.last().unwrap().id, 55);
}

#[test]
fn marking_read_then_listing_shows_nothing_unread() {
    let (mut members, users, messages) = world();
    let env = ChatService::mark_read(&members, ME, CHAT_A, 31).unwrap();
    match env.event {
        WsEvent::Read { chat_id, user_id, read_at } => {
            for m in members.iter_mut() {
                if m.chat_id == chat_id && m.user_id == user_id {
                    m.last_read_at = Some(read_at);
                }
            }
        }
        _ => panic!("expected a read receipt"),
    }
    let list = ChatService::list_chats(&members, &users, &messages, ME);
    assert_eq!(list.iter().find(|l| l.id == CHAT_A).unwrap().unread, 0);
}

#[test]
fn sent_preview_matches_the_chat_list() {
    let (mut members, users, mut messages) = world();
    let sent = ChatService::message_sent(&members, CHAT_A, ME, send(Some(CHAT_A), None), 40);
    let preview = ChatService::sent_chat_preview(&members, &users, ME, &sent.message).unwrap();
    assert_eq!(preview.id, CHAT_A);
    assert_eq!(preview.user_id, ALICE);
    assert_eq!(preview.name, "alice");
    assert_eq!(preview.nickname, "@alice");
    assert_eq!(preview.avatar_url, Some("/avatars/a.webp".to_string()));
    assert_eq!(preview.last_message, Some(sent.message.text.clone()));
    assert_eq!(preview.last_message_time, Some(40));
    assert_eq!(preview.unread, 0);
    // store the message and the sender's read mark, then list
    messages.push(sent.message.clone());
    for m in members.iter_mut() {
        if m.chat_id == CHAT_A && m.user_id == ME {
            *m = sent.sender_read;
        }
    }
    let list = ChatService::list_chats(&members, &users, &messages, ME);
    assert!(list.contains(&preview));
    // a chat whose other member is unknown has no preview
    let alone = ChatService::message_sent(&members, CHAT_B, ME, send(Some(CHAT_B), None), 41);
    assert!(ChatService::sent_chat_preview(&members, &users[..2].to_vec(), ME, &alone.message).is_none());
    let none = ChatService::sent_chat_preview(&vec![member(CHAT_A, ME, None)], &users, ME, &sent.message);
    assert!(none.is_none());
}
