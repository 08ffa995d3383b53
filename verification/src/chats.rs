//! Chats: the chat list of a user, paging through a chat's messages, read
//! receipts, and sending a message.

use vstd::prelude::*;
use crate::dtos::{ChatResponse, MemberRow, MessageDto, MessageQuery, SendMessageRequest, UserDto, WsEnvelope, WsEvent};
use crate::error::AppError;
use crate::dtos::clone_opt_string;
use crate::messages::{text_refused, MessageService};
use crate::text::{string_from_chars, trim_chars, trimmed};
use crate::users::{find_user, user_has_key, UserKey};

verus! {

/// The latest instant at which a message was sent in `chat`, if any.
pub open spec fn latest_time(ms: Seq<MessageDto>, chat: u128) -> Option<i64>
    decreases ms.len(),
{
    if ms.len() == 0 {
        None
    } else {
        let prev = latest_time(ms.drop_last(), chat);
        let m = ms.last();
        if m.chat_id != chat {
            prev
        } else {
            match prev {
                None => Some(m.created_at),
                Some(t) => if m.created_at > t {
                    Some(m.created_at)
                } else {
                    Some(t)
                },
            }
        }
    }
}

/// A message counts as unread if nothing was read yet or it came after the
/// last read.
pub open spec fn is_unread(m: MessageDto, last_read: Option<i64>) -> bool {
    match last_read {
        None => true,
        Some(t) => m.created_at > t,
    }
}

/// The number of unread messages of `chat`.
pub open spec fn unread_in(ms: Seq<MessageDto>, chat: u128, last_read: Option<i64>) -> nat
    decreases ms.len(),
{
    if ms.len() == 0 {
        0
    } else {
        unread_in(ms.drop_last(), chat, last_read) + if ms.last().chat_id == chat && is_unread(
            ms.last(),
            last_read,
        ) {
            1nat
        } else {
            0nat
        }
    }
}

/// The unread counter shown for a chat: its messages sent after the last
/// read (all of them if it was never read); none for a chat without messages.
pub open spec fn unread_count(ms: Seq<MessageDto>, chat: u128, last_read: Option<i64>) -> int {
    unread_in(ms, chat, last_read) as int
}

/// `text` is the text of a latest message of `chat` (any one of them when
/// several were sent at the same instant), or nothing for a chat without
/// messages.
pub open spec fn is_last_message(ms: Seq<MessageDto>, chat: u128, text: Option<String>) -> bool {
    match latest_time(ms, chat) {
        None => text is None,
        Some(t) => exists|k: int|
            0 <= k < ms.len() && (#[trigger] ms[k]).chat_id == chat && ms[k].created_at == t && text == Some(
                ms[k].text,
            ),
    }
}

/// `members[a]` makes `me` a member of a chat in which `members[b]` makes
/// `users[u]`, another user, a member.
pub open spec fn joined(members: Seq<MemberRow>, users: Seq<UserDto>, me: u128, a: int, b: int, u: int) -> bool {
    &&& 0 <= a < members.len()
    &&& 0 <= b < members.len()
    &&& 0 <= u < users.len()
    &&& members[a].user_id == me
    &&& members[b].chat_id == members[a].chat_id
    &&& users[u].id == members[b].user_id
    &&& users[u].id != me
}

/// `e` is the chat-list line for the chat and other member that
/// `joined(members, users, me, a, b, u)` names.
pub open spec fn is_chat_line(
    members: Seq<MemberRow>,
    users: Seq<UserDto>,
    ms: Seq<MessageDto>,
    me: u128,
    a: int,
    b: int,
    u: int,
    e: ChatResponse,
) -> bool {
    &&& joined(members, users, me, a, b, u)
    &&& e.id == members[a].chat_id
    &&& e.user_id == users[u].id
    &&& e.name == users[u].name
    &&& e.nickname == users[u].nickname
    &&& e.avatar_url == users[u].avatar_url
    &&& e.last_message_time == latest_time(ms, e.id)
    &&& is_last_message(ms, e.id, e.last_message)
    &&& e.unread == unread_count(ms, e.id, members[a].last_read_at)
}

/// `a` comes before `b` in the chat list: newest last message first, chats
/// without messages before all others (descending order, nulls first).
pub open spec fn listed_before(a: Option<i64>, b: Option<i64>) -> bool {
    match (a, b) {
        (None, _) => true,
        (Some(_), None) => false,
        (Some(x), Some(y)) => x >= y,
    }
}

/// `e` is the chat-list line for some chat of `me` and other member of it.
pub open spec fn is_valid_line(
    members: Seq<MemberRow>,
    users: Seq<UserDto>,
    ms: Seq<MessageDto>,
    me: u128,
    e: ChatResponse,
) -> bool {
    exists|a: int, b: int, u: int| #[trigger] is_chat_line(members, users, ms, me, a, b, u, e)
}

/// `res` has a line for chat `chat` with user `user`.
pub open spec fn has_line(res: Seq<ChatResponse>, chat: u128, user: u128) -> bool {
    exists|x: int| 0 <= x < res.len() && (#[trigger] res[x]).id == chat && res[x].user_id == user
}

/// No two lines of `res` are for the same chat and user.
pub open spec fn lines_distinct(res: Seq<ChatResponse>) -> bool {
    forall|x: int, y: int|
        0 <= x < y < res.len() ==> !((#[trigger] res[x]).id == (#[trigger] res[y]).id && res[x].user_id == res[y].user_id)
}

/// The lines of `res` are in chat-list order.
pub open spec fn lines_ordered(res: Seq<ChatResponse>) -> bool {
    forall|x: int, y: int|
        0 <= x < y < res.len() ==> listed_before((#[trigger] res[x]).last_message_time, (#[trigger] res[y]).last_message_time)
}

/// `res` is the chat list of `me`: one line per chat of `me` and other member
/// of it, each line as `is_chat_line` describes it, ordered by
/// `listed_before`. For tables whose primary keys hold (one membership per
/// chat and user, one user per id) this is what the chat-list query returns.
pub open spec fn is_chat_list(
    members: Seq<MemberRow>,
    users: Seq<UserDto>,
    ms: Seq<MessageDto>,
    me: u128,
    res: Seq<ChatResponse>,
) -> bool {
    &&& forall|x: int| 0 <= x < res.len() ==> is_valid_line(members, users, ms, me, #[trigger] res[x])
    &&& forall|a: int, b: int, u: int|
        #[trigger] joined(members, users, me, a, b, u) ==> has_line(res, members[a].chat_id, users[u].id)
    &&& lines_distinct(res)
    &&& lines_ordered(res)
}

fn find_line(res: &Vec<ChatResponse>, chat: u128, user: u128) -> (found: bool)
    ensures
        found == has_line(res@, chat, user),
{
    let mut i: usize = 0;
    while i < res.len()
        invariant
            i <= res@.len(),
            forall|x: int| 0 <= x < i ==> !((#[trigger] res@[x]).id == chat && res@[x].user_id == user),
        decreases res@.len() - i,
    {
        if res[i].id == chat && res[i].user_id == user {
            return true;
        }
        i = i + 1;
    }
    false
}

fn time_listed_before(a: Option<i64>, b: Option<i64>) -> (r: bool)
    ensures
        r == listed_before(a, b),
{
    match (a, b) {
        (None, _) => true,
        (Some(_), None) => false,
        (Some(x), Some(y)) => x >= y,
    }
}

/// Adds `line` in order unless a line for its chat and user is already there.
fn add_line(res: &mut Vec<ChatResponse>, line: ChatResponse)
    requires
        lines_distinct(old(res)@),
        lines_ordered(old(res)@),
    ensures
        lines_distinct(final(res)@),
        lines_ordered(final(res)@),
        has_line(final(res)@, line.id, line.user_id),
        forall|x: int| 0 <= x < final(res)@.len() ==> (#[trigger] final(res)@[x] == line || old(res)@.contains(final(res)@[x])),
        forall|x: int| 0 <= x < old(res)@.len() ==> final(res)@.contains(#[trigger] old(res)@[x]),
{
    if find_line(res, line.id, line.user_id) {
        return;
    }
    let mut p: usize = 0;
    while p < res.len() && !time_listed_before(line.last_message_time, res[p].last_message_time)
        invariant
            p <= res@.len(),
            forall|x: int| 0 <= x < p ==> !listed_before(line.last_message_time, (#[trigger] res@[x]).last_message_time),
        decreases res@.len() - p,
    {
        p = p + 1;
    }
    let ghost before = res@;
    let ghost l = line;
    res.insert(p, line);
    assert(res@ == before.insert(p as int, l));
    assert forall|x: int, y: int| 0 <= x < y < res@.len() implies listed_before(
        (#[trigger] res@[x]).last_message_time,
        (#[trigger] res@[y]).last_message_time,
    ) by {
        if y < p {
        } else if y == p {
            assert(!listed_before(l.last_message_time, before[x].last_message_time));
        } else if x < p {
            assert(!listed_before(l.last_message_time, before[x].last_message_time));
            assert(listed_before(before[x].last_message_time, before[y - 1].last_message_time));
        } else if x == p {
            assert(listed_before(l.last_message_time, before[p as int].last_message_time));
            if y - 1 > p {
                assert(listed_before(before[p as int].last_message_time, before[y - 1].last_message_time));
            }
        } else {
            assert(listed_before(before[x - 1].last_message_time, before[y - 1].last_message_time));
        }
    }
    assert forall|x: int, y: int| 0 <= x < y < res@.len() implies !((#[trigger] res@[x]).id == (#[trigger] res@[y]).id
        && res@[x].user_id == res@[y].user_id) by {
        if x == p {
            assert(!(before[y - 1].id == l.id && before[y - 1].user_id == l.user_id));
        } else if y == p {
            assert(!(before[x].id == l.id && before[x].user_id == l.user_id));
        } else if x < p && y < p {
        } else if x < p {
            assert(!(before[x].id == before[y - 1].id && before[x].user_id == before[y - 1].user_id));
        } else {
            assert(!(before[x - 1].id == before[y - 1].id && before[x - 1].user_id == before[y - 1].user_id));
        }
    }
    assert(res@[p as int] == l);
    assert forall|x: int| 0 <= x < res@.len() implies (#[trigger] res@[x] == l || before.contains(res@[x])) by {
        if x < p {
            assert(res@[x] == before[x]);
        } else if x > p {
            assert(res@[x] == before[x - 1]);
        }
    }
    assert forall|x: int| 0 <= x < before.len() implies res@.contains(#[trigger] before[x]) by {
        if x < p {
            assert(res@[x] == before[x]);
        } else {
            assert(res@[x + 1] == before[x]);
        }
    }
}

impl ChatService {
    /// The chat list of `me`, given the memberships, users and messages to
    /// consider (those of `me`'s chats suffice).
    pub fn list_chats(members: &Vec<MemberRow>, users: &Vec<UserDto>, messages: &Vec<MessageDto>, me: u128) -> (res: Vec<
        ChatResponse,
    >)
        requires
            messages@.len() <= i64::MAX,
        ensures
            is_chat_list(members@, users@, messages@, me, res@),
    {
        let ghost mm = members@;
        let ghost us = users@;
        let ghost ms = messages@;
        let mut res: Vec<ChatResponse> = Vec::new();
        for a in 0..members.len()
            invariant
                mm == members@,
                us == users@,
                ms == messages@,
                messages@.len() <= i64::MAX,
                forall|x: int| 0 <= x < res@.len() ==> is_valid_line(mm, us, ms, me, #[trigger] res@[x]),
                forall|a2: int, b: int, u: int|
                    #[trigger] joined(mm, us, me, a2, b, u) && a2 < a ==> has_line(res@, mm[a2].chat_id, us[u].id),
                lines_distinct(res@),
                lines_ordered(res@),
        {
            let ma = members[a];
            if ma.user_id == me {
                let chat = ma.chat_id;
                let summary = chat_summary(messages, chat, ma.last_read_at);
                for b in 0..members.len()
                    invariant
                        mm == members@,
                        us == users@,
                        ms == messages@,
                        ma == mm[a as int],
                        a < mm.len(),
                        chat == ma.chat_id,
                        ma.user_id == me,
                        summary.0 == latest_time(ms, chat),
                        is_last_message(ms, chat, summary.1),
                        summary.2 == unread_count(ms, chat, ma.last_read_at),
                        forall|x: int| 0 <= x < res@.len() ==> is_valid_line(mm, us, ms, me, #[trigger] res@[x]),
                        forall|a2: int, b2: int, u: int|
                            #[trigger] joined(mm, us, me, a2, b2, u) && (a2 < a || (a2 == a && b2 < b)) ==> has_line(
                                res@,
                                mm[a2].chat_id,
                                us[u].id,
                            ),
                        lines_distinct(res@),
                        lines_ordered(res@),
                {
                    let mb = members[b];
                    if mb.chat_id == chat {
                        for u in 0..users.len()
                            invariant
                                mm == members@,
                                us == users@,
                                ms == messages@,
                                ma == mm[a as int],
                                mb == mm[b as int],
                                a < mm.len(),
                                b < mm.len(),
                                chat == ma.chat_id,
                                mb.chat_id == chat,
                                ma.user_id == me,
                                summary.0 == latest_time(ms, chat),
                                is_last_message(ms, chat, summary.1),
                                summary.2 == unread_count(ms, chat, ma.last_read_at),
                                forall|x: int| 0 <= x < res@.len() ==> is_valid_line(mm, us, ms, me, #[trigger] res@[x]),
                                forall|a2: int, b2: int, u2: int|
                                    #[trigger] joined(mm, us, me, a2, b2, u2) && (a2 < a || (a2 == a && b2 < b) || (a2 == a
                                        && b2 == b && u2 < u)) ==> has_line(res@, mm[a2].chat_id, us[u2].id),
                                lines_distinct(res@),
                                lines_ordered(res@),
                        {
                            let user = &users[u];
                            if user.id == mb.user_id && user.id != me {
                                let line = ChatResponse {
                                    id: chat,
                                    user_id: user.id,
                                    name: user.name.clone(),
                                    nickname: user.nickname.clone(),
                                    last_message: clone_opt_string(&summary.1),
                                    last_message_time: summary.0,
                                    unread: summary.2,
                                    avatar_url: clone_opt_string(&user.avatar_url),
                                };
                                assert(is_chat_line(mm, us, ms, me, a as int, b as int, u as int, line));
                                let ghost old_res = res@;
                                add_line(&mut res, line);
                                assert forall|x: int| 0 <= x < res@.len() implies is_valid_line(mm, us, ms, me, #[trigger] res@[x]) by {
                                    if res@[x] != line {
                                        let y = choose|y: int| 0 <= y < old_res.len() && old_res[y] == res@[x];
                                        assert(is_valid_line(mm, us, ms, me, old_res[y]));
                                    }
                                }
                                assert forall|a2: int, b2: int, u2: int|
                                    #[trigger] joined(mm, us, me, a2, b2, u2) && (a2 < a || (a2 == a && b2 < b) || (a2 == a
                                        && b2 == b && u2 < u + 1)) implies has_line(res@, mm[a2].chat_id, us[u2].id) by {
                                    if a2 == a && b2 == b && u2 == u {
                                    } else {
                                        let x = choose|x: int| 0 <= x < old_res.len() && (#[trigger] old_res[x]).id == mm[a2].chat_id
                                            && old_res[x].user_id == us[u2].id;
                                        let z = choose|z: int| 0 <= z < res@.len() && res@[z] == old_res[x];
                                        assert(res@[z].id == mm[a2].chat_id && res@[z].user_id == us[u2].id);
                                    }
                                }
                            }
                        }
                    } else {
                        assert forall|a2: int, b2: int, u: int|
                            #[trigger] joined(mm, us, me, a2, b2, u) && (a2 < a || (a2 == a && b2 < b + 1)) implies has_line(
                                res@,
                                mm[a2].chat_id,
                                us[u].id,
                            ) by {
                        }
                    }
                }
            } else {
                assert forall|a2: int, b: int, u: int|
                    #[trigger] joined(mm, us, me, a2, b, u) && a2 < a + 1 implies has_line(res@, mm[a2].chat_id, us[u].id) by {
                }
            }
        }
        res
    }
}

/// The latest time, a message sent then, and the unread counter of a chat.
fn chat_summary(ms: &Vec<MessageDto>, chat: u128, last_read: Option<i64>) -> (res: (Option<i64>, Option<String>, i64))
    requires
        ms@.len() <= i64::MAX,
    ensures
        res.0 == latest_time(ms@, chat),
        is_last_message(ms@, chat, res.1),
        res.2 == unread_count(ms@, chat, last_read),
{
    let mut latest: Option<i64> = None;
    let mut best: usize = 0;
    let mut unread: u64 = 0;
    let mut i: usize = 0;
    while i < ms.len()
        invariant
            i <= ms@.len(),
            latest == latest_time(ms@.take(i as int), chat),
            latest matches Some(t) ==> best < i && ms@[best as int].chat_id == chat && ms@[best as int].created_at == t,
            unread == unread_in(ms@.take(i as int), chat, last_read),
            unread <= i,
        decreases ms@.len() - i,
    {
        let m = &ms[i];
        assert(ms@.take(i + 1).drop_last() == ms@.take(i as int));
        assert(ms@.take(i + 1).last() == ms@[i as int]);
        if m.chat_id == chat {
            match latest {
                None => {
                    latest = Some(m.created_at);
                    best = i;
                },
                Some(t) => {
                    if m.created_at > t {
                        latest = Some(m.created_at);
                        best = i;
                    }
                },
            }
            let unread_now = match last_read {
                None => true,
                Some(t) => m.created_at > t,
            };
            if unread_now {
                unread = unread + 1;
            }
        }
        i = i + 1;
    }
    assert(ms@.take(ms@.len() as int) == ms@);
    let text = match latest {
        None => None,
        Some(_) => {
            let t = ms[best].text.clone();
            assert(ms@[best as int].text == t);
            Some(t)
        },
    };
    let count: i64 = unread as i64;
    (latest, text, count)
}

/// The users of the membership rows of `chat`, in row order.
pub open spec fn member_ids(members: Seq<MemberRow>, chat: u128) -> Seq<u128>
    decreases members.len(),
{
    if members.len() == 0 {
        Seq::empty()
    } else {
        let prev = member_ids(members.drop_last(), chat);
        if members.last().chat_id == chat {
            prev.push(members.last().user_id)
        } else {
            prev
        }
    }
}

/// `user` is a member of `chat`.
pub open spec fn is_member(members: Seq<MemberRow>, chat: u128, user: u128) -> bool {
    exists|i: int| 0 <= i < members.len() && (#[trigger] members[i]).chat_id == chat && members[i].user_id == user
}

/// The users listed for a chat are exactly its members.
pub proof fn lemma_member_ids_contains(members: Seq<MemberRow>, chat: u128, user: u128)
    ensures
        member_ids(members, chat).contains(user) <==> is_member(members, chat, user),
    decreases members.len(),
{
    if members.len() > 0 {
        let init = members.drop_last();
        let last = members.last();
        lemma_member_ids_contains(init, chat, user);
        let prev = member_ids(init, chat);
        assert(is_member(members, chat, user) <==> (is_member(init, chat, user) || (last.chat_id == chat
            && last.user_id == user))) by {
            if is_member(members, chat, user) {
                let i = choose|i: int|
                    0 <= i < members.len() && (#[trigger] members[i]).chat_id == chat && members[i].user_id == user;
                if i < members.len() - 1 {
                    assert(init[i] == members[i]);
                }
            }
            if is_member(init, chat, user) {
                let i = choose|i: int| 0 <= i < init.len() && (#[trigger] init[i]).chat_id == chat && init[i].user_id == user;
                assert(members[i] == init[i]);
            }
            if last.chat_id == chat && last.user_id == user {
                assert(members[members.len() - 1] == last);
            }
        }
        if last.chat_id == chat {
            assert(member_ids(members, chat) == prev.push(last.user_id));
            assert(prev.push(last.user_id).contains(user) <==> (prev.contains(user) || last.user_id == user)) by {
                if prev.push(last.user_id).contains(user) {
                    let k = choose|k: int| 0 <= k < prev.len() + 1 && prev.push(last.user_id)[k] == user;
                    if k < prev.len() {
                        assert(prev[k] == user);
                    }
                }
                if prev.contains(user) {
                    let k = choose|k: int| 0 <= k < prev.len() && prev[k] == user;
                    assert(prev.push(last.user_id)[k] == user);
                }
                if last.user_id == user {
                    assert(prev.push(last.user_id)[prev.len() as int] == user);
                }
            }
        }
    } else {
        assert(member_ids(members, chat) =~= Seq::<u128>::empty());
    }
}

/// The users of `chat`, in row order.
pub fn chat_member_ids(members: &Vec<MemberRow>, chat: u128) -> (res: Vec<u128>)
    ensures
        res@ == member_ids(members@, chat),
        forall|u: u128| res@.contains(u) <==> is_member(members@, chat, u),
{
    let mut res: Vec<u128> = Vec::new();
    for i in 0..members.len()
        invariant
            res@ == member_ids(members@.take(i as int), chat),
    {
        assert(members@.take(i + 1).drop_last() == members@.take(i as int));
        if members[i].chat_id == chat {
            res.push(members[i].user_id);
        }
    }
    assert(members@.take(members@.len() as int) == members@);
    proof {
        assert forall|u: u128| res@.contains(u) <==> is_member(members@, chat, u) by {
            lemma_member_ids_contains(members@, chat, u);
        }
    }
    res
}

/// Whether `user` is a member of `chat`.
pub fn check_member(members: &Vec<MemberRow>, chat: u128, user: u128) -> (res: bool)
    ensures
        res == is_member(members@, chat, user),
{
    let mut i: usize = 0;
    while i < members.len()
        invariant
            i <= members@.len(),
            forall|k: int| 0 <= k < i ==> !((#[trigger] members@[k]).chat_id == chat && members@[k].user_id == user),
        decreases members@.len() - i,
    {
        if members[i].chat_id == chat && members[i].user_id == user {
            return true;
        }
        i = i + 1;
    }
    false
}

/// A page holds this many messages unless asked for fewer or more.
pub const DEFAULT_PAGE_SIZE: u64 = 50;

/// A page never holds more than this many messages.
pub const MAX_PAGE_SIZE: u64 = 100;

/// The size of the page asked for: fifty by default, at most a hundred.
pub open spec fn page_size(q: MessageQuery) -> int {
    let asked = match q.limit {
        Some(l) => l as int,
        None => DEFAULT_PAGE_SIZE as int,
    };
    if asked < MAX_PAGE_SIZE { asked } else { MAX_PAGE_SIZE as int }
}

/// `m` is in `chat` and, if paging back, sent strictly before `before`.
pub open spec fn in_page(m: MessageDto, chat: u128, before: Option<i64>) -> bool {
    m.chat_id == chat && match before {
        None => true,
        Some(b) => m.created_at < b,
    }
}

/// The filter of the messages a page is taken from.
pub open spec fn page_filter(chat: u128, before: Option<i64>) -> spec_fn(MessageDto) -> bool {
    |m: MessageDto| in_page(m, chat, before)
}

/// Oldest first.
pub open spec fn sorted_by_time(s: Seq<MessageDto>) -> bool {
    forall|i: int, j: int| 0 <= i < j < s.len() ==> (#[trigger] s[i]).created_at <= (#[trigger] s[j]).created_at
}

/// `res` is a page of `chat`'s messages before `before`: the newest `limit`
/// of them (all, if fewer), oldest first. Messages sent at the same instant
/// may come in any order, and at the page's edge any of them may be taken.
pub open spec fn is_page(ms: Seq<MessageDto>, chat: u128, before: Option<i64>, limit: int, res: Seq<MessageDto>) -> bool {
    exists|s: Seq<MessageDto>|
        #[trigger] sorted_by_time(s) && s.to_multiset() == ms.filter(page_filter(chat, before)).to_multiset()
            && res == s.subrange(
            s.len() - (if limit < s.len() { limit } else { s.len() as int }),
            s.len() as int,
        )
}

/// Inserts `m` after every message not newer than it.
fn insert_by_time(s: &mut Vec<MessageDto>, m: MessageDto)
    requires
        sorted_by_time(old(s)@),
    ensures
        sorted_by_time(final(s)@),
        final(s)@.to_multiset() == old(s)@.to_multiset().insert(m),
{
    let mut p: usize = s.len();
    while p > 0 && s[p - 1].created_at > m.created_at
        invariant
            p <= s@.len(),
            forall|x: int| p <= x < s@.len() ==> (#[trigger] s@[x]).created_at > m.created_at,
        decreases p,
    {
        p = p - 1;
    }
    let ghost before = s@;
    let ghost mm = m;
    s.insert(p, m);
    proof {
        vstd::seq_lib::to_multiset_insert(before, p as int, mm);
        assert forall|i: int, j: int| 0 <= i < j < s@.len() implies (#[trigger] s@[i]).created_at <= (
        #[trigger] s@[j]).created_at by {
            if j < p {
            } else if j == p {
                if p > 0 {
                    assert(before[p - 1].created_at <= mm.created_at);
                    if i < p - 1 {
                        assert(before[i].created_at <= before[p - 1].created_at);
                    }
                }
            } else if i < p {
                assert(before[i].created_at <= before[j - 1].created_at);
            } else if i == p {
                assert(before[j - 1].created_at > mm.created_at);
            } else {
                assert(before[i - 1].created_at <= before[j - 1].created_at);
            }
        }
    }
}

/// The messages of `chat` sent before `before` (all of them if `None`),
/// oldest first; messages sent at the same instant keep their row order.
pub fn sorted_chat_messages(ms: &Vec<MessageDto>, chat: u128, before: Option<i64>) -> (sorted: Vec<MessageDto>)
    ensures
        sorted_by_time(sorted@),
        sorted@.to_multiset() == ms@.filter(page_filter(chat, before)).to_multiset(),
{
    let ghost pred = page_filter(chat, before);
    let mut sorted: Vec<MessageDto> = Vec::new();
    proof {
        assert(ms@.take(0).filter(pred) =~= Seq::<MessageDto>::empty());
        assert(sorted@ =~= Seq::<MessageDto>::empty());
    }
    for i in 0..ms.len()
        invariant
            pred == page_filter(chat, before),
            sorted_by_time(sorted@),
            sorted@.to_multiset() == ms@.take(i as int).filter(pred).to_multiset(),
    {
        let m = &ms[i];
        proof {
            assert(ms@.take(i + 1) == ms@.take(i as int).push(ms@[i as int]));
            ms@.take(i as int).lemma_filter_push(ms@[i as int], pred);
            vstd::seq_lib::to_multiset_build(ms@.take(i as int).filter(pred), ms@[i as int]);
        }
        let keep = m.chat_id == chat && match before {
            None => true,
            Some(b) => m.created_at < b,
        };
        if keep {
            let c = m.clone();
            insert_by_time(&mut sorted, c);
        }
    }
    assert(ms@.take(ms@.len() as int) == ms@);
    sorted
}

/// The messages `s[from..to]`.
pub fn message_range(s: &Vec<MessageDto>, from: usize, to: usize) -> (res: Vec<MessageDto>)
    requires
        from <= to <= s@.len(),
    ensures
        res@ == s@.subrange(from as int, to as int),
{
    let mut res: Vec<MessageDto> = Vec::new();
    let mut j: usize = from;
    while j < to
        invariant
            from <= j <= to <= s@.len(),
            res@ == s@.subrange(from as int, j as int),
        decreases to - j,
    {
        let c = s[j].clone();
        res.push(c);
        assert(s@.subrange(from as int, j + 1) == s@.subrange(from as int, j as int).push(s@[j as int]));
        j = j + 1;
    }
    res
}

/// The newest `limit` messages of `chat` sent before `before` (all, if
/// fewer), oldest first.
pub fn message_page(ms: &Vec<MessageDto>, chat: u128, before: Option<i64>, limit: u64) -> (res: Vec<MessageDto>)
    ensures
        is_page(ms@, chat, before, limit as int, res@),
{
    let sorted = sorted_chat_messages(ms, chat, before);
    let n = sorted.len();
    let k: usize = if (limit as u128) < (n as u128) { limit as usize } else { n };
    let res = message_range(&sorted, n - k, n);
    assert(sorted_by_time(sorted@));
    res
}

/// A page of messages, and the read receipt it causes, if any.
#[derive(Debug)]
pub struct MessagesPage {
    pub messages: Vec<MessageDto>,
    /// Reading the newest page marks the chat read at that instant: the
    /// event to send to the chat's members. Its `Read` fields say which
    /// membership to update.
    pub read: Option<WsEnvelope>,
}

/// The read receipt for `user` reading `chat` at `at`: sent to all of the
/// chat's members.
pub open spec fn is_read_receipt(members: Seq<MemberRow>, chat: u128, user: u128, at: i64, env: WsEnvelope) -> bool {
    &&& env.recipients matches Some(r) && r@ == member_ids(members, chat)
    &&& env.event == (WsEvent::Read { chat_id: chat, user_id: user, read_at: at })
}

fn read_receipt(members: &Vec<MemberRow>, chat: u128, user: u128, at: i64) -> (env: WsEnvelope)
    ensures
        is_read_receipt(members@, chat, user, at, env),
{
    WsEnvelope {
        recipients: Some(chat_member_ids(members, chat)),
        event: WsEvent::Read { chat_id: chat, user_id: user, read_at: at },
    }
}

pub struct ChatService;

impl ChatService {
    /// A page of a chat's messages for `user`: nothing unless `user` is a
    /// member; the newest messages (before `params.before`, if given), at
    /// most `page_size(params)`, oldest first. Reading the newest page, when
    /// it is not empty, marks the chat read at `now_micros`.
    pub fn list_messages(
        members: &Vec<MemberRow>,
        messages: &Vec<MessageDto>,
        user_id: u128,
        chat_id: u128,
        params: &MessageQuery,
        now_micros: i64,
    ) -> (res: MessagesPage)
        ensures
            !is_member(members@, chat_id, user_id) ==> (res.messages@.len() == 0 && res.read is None),
            is_member(members@, chat_id, user_id) ==> is_page(
                messages@,
                chat_id,
                params.before,
                page_size(*params),
                res.messages@,
            ),
            is_member(members@, chat_id, user_id) && params.before is None && res.messages@.len() > 0
                ==> (res.read matches Some(env) && is_read_receipt(members@, chat_id, user_id, now_micros, env)),
            !(params.before is None && res.messages@.len() > 0) ==> res.read is None,
    {
        if !check_member(members, chat_id, user_id) {
            return MessagesPage { messages: Vec::new(), read: None };
        }
        let asked: u64 = match params.limit {
            Some(l) => l,
            None => DEFAULT_PAGE_SIZE,
        };
        let limit: u64 = if asked < MAX_PAGE_SIZE { asked } else { MAX_PAGE_SIZE };
        let page = message_page(messages, chat_id, params.before, limit);
        let read = if params.before.is_none() && page.len() > 0 {
            Some(read_receipt(members, chat_id, user_id, now_micros))
        } else {
            None
        };
        MessagesPage { messages: page, read }
    }

    /// Marks a chat read by `user` at `now_micros`: `None` (nothing to do)
    /// unless `user` is a member; else the read receipt for the chat's members.
    pub fn mark_read(members: &Vec<MemberRow>, user_id: u128, chat_id: u128, now_micros: i64) -> (res: Option<
        WsEnvelope,
    >)
        ensures
            res is None <==> !is_member(members@, chat_id, user_id),
            res matches Some(env) ==> is_read_receipt(members@, chat_id, user_id, now_micros, env),
    {
        if !check_member(members, chat_id, user_id) {
            return None;
        }
        Some(read_receipt(members, chat_id, user_id, now_micros))
    }
}

/// Where a new message goes.
#[derive(Clone, Copy, Debug, PartialEq, Eq)]
pub enum ChatTarget {
    /// An existing chat of the sender.
    Existing(u128),
    /// A new chat of the sender and this user, to be created first.
    NewWith(u128),
}

/// A message that was stored: the message as answered, the sender's read
/// mark to store (the chat is read up to the message), and the event for the
/// chat's members.
#[derive(Debug)]
pub struct MessageSent {
    pub message: MessageDto,
    pub sender_read: MemberRow,
    pub notify: WsEnvelope,
}

impl ChatService {
    /// Where a message goes. A text that is empty once trimmed or over 4000
    /// characters is `BadRequest` before anything else. With `payload.chat_id`,
    /// that chat if the sender is a member of it, else `NotFound`. Else, with
    /// `payload.user_id`: writing to oneself is `BadRequest`, an unknown user
    /// `NotFound`; the private chat of the two is reused when there is one,
    /// else a new one is to be made. With neither, `BadRequest`. `members`
    /// must hold every membership of the sender's chats, and `users` the
    /// addressee if it exists.
    pub fn resolve_chat(
        members: &Vec<MemberRow>,
        users: &Vec<UserDto>,
        sender_id: u128,
        payload: &SendMessageRequest,
    ) -> (res: Result<ChatTarget, AppError>)
        ensures
            chat_resolved(members@, users@, sender_id, *payload, res),
    {
        if MessageService::validate_text(payload.text.as_str()).is_err() {
            return Err(AppError::BadRequest);
        }
        match payload.chat_id {
            Some(c) => {
                if check_member(members, c, sender_id) {
                    Ok(ChatTarget::Existing(c))
                } else {
                    Err(AppError::NotFound)
                }
            },
            None => match payload.user_id {
                Some(u) => {
                    if u == sender_id {
                        return Err(AppError::BadRequest);
                    }
                    let key = UserKey::Id(u);
                    match find_user(users, &key) {
                        None => {
                            assert forall|j: int| 0 <= j < users@.len() implies (#[trigger] users@[j]).id != u by {
                                assert(!user_has_key(users@[j], key));
                            }
                            Err(AppError::NotFound)
                        },
                        Some(i) => {
                            assert(user_has_key(users@[i as int], key));
                            match find_private_chat(members, sender_id, u) {
                                Some(c) => Ok(ChatTarget::Existing(c)),
                                None => Ok(ChatTarget::NewWith(u)),
                            }
                        },
                    }
                },
                None => Err(AppError::BadRequest),
            },
        }
    }

    /// The memberships of a new chat of `sender_id` and `other`, in the order
    /// they are stored.
    pub fn new_chat_members(chat_id: u128, sender_id: u128, other: u128) -> (res: Vec<MemberRow>)
        ensures
            res@ == seq![
                MemberRow { chat_id, user_id: sender_id, last_read_at: None },
                MemberRow { chat_id, user_id: other, last_read_at: None },
            ],
    {
        let mut v: Vec<MemberRow> = Vec::new();
        v.push(MemberRow { chat_id, user_id: sender_id, last_read_at: None });
        v.push(MemberRow { chat_id, user_id: other, last_read_at: None });
        v
    }

    /// What storing a message at `created_at` in `chat_id` leads to, given the
    /// chat's memberships after it was (possibly) created: the message with
    /// its text trimmed, the sender's read mark, and the event for the
    /// members.
    pub fn message_sent(
        members: &Vec<MemberRow>,
        chat_id: u128,
        sender_id: u128,
        payload: SendMessageRequest,
        created_at: i64,
    ) -> (res: MessageSent)
        ensures
            res.message.id == payload.id,
            res.message.chat_id == chat_id,
            res.message.sender_id == sender_id,
            res.message.text@ == trimmed(payload.text@),
            res.message.device_id is None,
            res.message.created_at == created_at,
            res.sender_read == (MemberRow { chat_id, user_id: sender_id, last_read_at: Some(created_at) }),
            res.notify.recipients matches Some(r) && r@ == member_ids(members@, chat_id),
            res.notify.event == (WsEvent::NewMessage { message: res.message }),
    {
        let text = string_from_chars(&trim_chars(payload.text.as_str()));
        let message = MessageDto { id: payload.id, chat_id, sender_id, text, device_id: None, created_at };
        let copy = message.clone();
        MessageSent {
            message,
            sender_read: MemberRow { chat_id, user_id: sender_id, last_read_at: Some(created_at) },
            notify: WsEnvelope {
                recipients: Some(chat_member_ids(members, chat_id)),
                event: WsEvent::NewMessage { message: copy },
            },
        }
    }
}

/// `members[b]` makes `users[u]`, a user other than `sender`, a member of
/// `chat`.
pub open spec fn other_member(members: Seq<MemberRow>, users: Seq<UserDto>, chat: u128, sender: u128, b: int, u: int) -> bool {
    &&& 0 <= b < members.len()
    &&& 0 <= u < users.len()
    &&& members[b].chat_id == chat
    &&& users[u].id == members[b].user_id
    &&& users[u].id != sender
}

/// `(b, u)` is the first pair, by membership and then by user, that
/// `other_member` names.
pub open spec fn first_other_member(
    members: Seq<MemberRow>,
    users: Seq<UserDto>,
    chat: u128,
    sender: u128,
    b: int,
    u: int,
) -> bool {
    &&& other_member(members, users, chat, sender, b, u)
    &&& forall|b2: int, u2: int|
        #[trigger] other_member(members, users, chat, sender, b2, u2) ==> b < b2 || (b == b2 && u <= u2)
}

/// The chat-list line of the chat of `m` with `user`, right after `m` was
/// sent there: `m` is its last message and its sender has nothing unread.
pub open spec fn sent_line(m: MessageDto, user: UserDto) -> ChatResponse {
    ChatResponse {
        id: m.chat_id,
        user_id: user.id,
        name: user.name,
        nickname: user.nickname,
        last_message: Some(m.text),
        last_message_time: Some(m.created_at),
        unread: 0,
        avatar_url: user.avatar_url,
    }
}

impl ChatService {
    /// The preview of the chat that `sender_id` just sent `message` in, as
    /// their chat list shows it: the chat with its other member (the first
    /// one `members` and `users` give), the message as its last one, nothing
    /// unread. `None` when the chat has no other member among `users`.
    pub fn sent_chat_preview(
        members: &Vec<MemberRow>,
        users: &Vec<UserDto>,
        sender_id: u128,
        message: &MessageDto,
    ) -> (res: Option<ChatResponse>)
        ensures
            res matches Some(e) ==> exists|b: int, u: int|
                first_other_member(members@, users@, message.chat_id, sender_id, b, u) && e == sent_line(
                    *message,
                    users@[u],
                ),
            res is None <==> !exists|b: int, u: int| other_member(members@, users@, message.chat_id, sender_id, b, u),
    {
        let chat = message.chat_id;
        for b in 0..members.len()
            invariant
                chat == message.chat_id,
                forall|b2: int, u2: int| #[trigger] other_member(members@, users@, chat, sender_id, b2, u2) ==> b2 >= b,
        {
            let mb = members[b];
            if mb.chat_id == chat {
                for u in 0..users.len()
                    invariant
                        chat == message.chat_id,
                        mb == members@[b as int],
                        b < members@.len(),
                        mb.chat_id == chat,
                        forall|b2: int, u2: int| #[trigger] other_member(members@, users@, chat, sender_id, b2, u2) ==> b2 >= b,
                        forall|u2: int| 0 <= u2 < u ==> !other_member(members@, users@, chat, sender_id, b as int, u2),
                {
                    let user = &users[u];
                    if user.id == mb.user_id && user.id != sender_id {
                        let line = ChatResponse {
                            id: chat,
                            user_id: user.id,
                            name: user.name.clone(),
                            nickname: user.nickname.clone(),
                            last_message: Some(message.text.clone()),
                            last_message_time: Some(message.created_at),
                            unread: 0,
                            avatar_url: clone_opt_string(&user.avatar_url),
                        };
                        assert(first_other_member(members@, users@, chat, sender_id, b as int, u as int));
                        return Some(line);
                    }
                }
            }
        }
        None
    }
}

/// Chat `c` is the private chat of `a` and `b`: both are members and nobody
/// else is.
pub open spec fn is_private_chat(members: Seq<MemberRow>, c: u128, a: u128, b: u128) -> bool {
    &&& is_member(members, c, a)
    &&& is_member(members, c, b)
    &&& only_members(members, c, a, b)
}

/// Every membership of `c` is of `a` or `b`.
pub open spec fn only_members(members: Seq<MemberRow>, c: u128, a: u128, b: u128) -> bool {
    forall|i: int| 0 <= i < members.len() && (#[trigger] members[i]).chat_id == c ==> members[i].user_id == a
        || members[i].user_id == b
}

/// Where a message of `sender` for `payload` goes (see `resolve_chat`).
pub open spec fn chat_resolved(
    members: Seq<MemberRow>,
    users: Seq<UserDto>,
    sender: u128,
    payload: SendMessageRequest,
    res: Result<ChatTarget, AppError>,
) -> bool {
    if text_refused(payload.text@) {
        res matches Err(e) && e is BadRequest
    } else {
        match payload.chat_id {
            Some(c) => if is_member(members, c, sender) {
                res == Ok::<ChatTarget, AppError>(ChatTarget::Existing(c))
            } else {
                res matches Err(e) && e is NotFound
            },
            None => match payload.user_id {
                None => res matches Err(e) && e is BadRequest,
                Some(u) => if u == sender {
                    res matches Err(e) && e is BadRequest
                } else if forall|j: int| 0 <= j < users.len() ==> (#[trigger] users[j]).id != u {
                    res matches Err(e) && e is NotFound
                } else if exists|c: u128| #[trigger] is_private_chat(members, c, sender, u) {
                    res matches Ok(ChatTarget::Existing(c)) && is_private_chat(members, c, sender, u)
                } else {
                    res == Ok::<ChatTarget, AppError>(ChatTarget::NewWith(u))
                },
            },
        }
    }
}

fn only_members_exec(members: &Vec<MemberRow>, c: u128, a: u128, b: u128) -> (res: bool)
    ensures
        res == only_members(members@, c, a, b),
{
    let mut i: usize = 0;
    while i < members.len()
        invariant
            i <= members@.len(),
            forall|k: int| 0 <= k < i && (#[trigger] members@[k]).chat_id == c ==> members@[k].user_id == a
                || members@[k].user_id == b,
        decreases members@.len() - i,
    {
        let m = &members[i];
        if m.chat_id == c && m.user_id != a && m.user_id != b {
            return false;
        }
        i = i + 1;
    }
    true
}

/// The private chat of `a` and `b`, if there is one.
fn find_private_chat(members: &Vec<MemberRow>, a: u128, b: u128) -> (res: Option<u128>)
    ensures
        res matches Some(c) ==> is_private_chat(members@, c, a, b),
        res is None ==> forall|c: u128| !#[trigger] is_private_chat(members@, c, a, b),
{
    let mut i: usize = 0;
    while i < members.len()
        invariant
            i <= members@.len(),
            forall|k: int|
                0 <= k < i && (#[trigger] members@[k]).user_id == a ==> !is_private_chat(
                    members@,
                    members@[k].chat_id,
                    a,
                    b,
                ),
        decreases members@.len() - i,
    {
        let m = &members[i];
        if m.user_id == a {
            let c = m.chat_id;
            assert(is_member(members@, c, a)) by {
                assert(members@[i as int].chat_id == c && members@[i as int].user_id == a);
            }
            if check_member(members, c, b) && only_members_exec(members, c, a, b) {
                return Some(c);
            }
        }
        i = i + 1;
    }
    assert forall|c: u128| !#[trigger] is_private_chat(members@, c, a, b) by {
        if is_private_chat(members@, c, a, b) {
            let k = choose|k: int| 0 <= k < members@.len() && (#[trigger] members@[k]).chat_id == c && members@[k].user_id == a;
            assert(members@[k].user_id == a);
        }
    }
    None
}

} // verus!
