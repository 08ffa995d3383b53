//! Properties that hold across the service's operations.

use vstd::prelude::*;
use crate::auth::{fields_text, validation_failures, name_valid, nickname_char, nickname_core, nickname_ok, registration, stored_nickname, taken_by, at_from, alnum, domain_ok, email_valid, local_char, run_len, login_answer, NewUser, code_checked, code_is_live, code_issued, code_value, is_newest_live_code, signed_in, IssuedCode,
    VerifyCodeOutcome};
use crate::chats::{
    is_chat_line, is_chat_list, is_valid_line, in_page, is_member, is_page, is_read_receipt, latest_time, lemma_member_ids_contains, page_filter, sorted_by_time,
    unread_count, unread_in, page_size, first_other_member, joined, sent_line,
};
use crate::clock::Instant;
use crate::messages::{counter_after, counters_can_grow, text_refused, message_stored, MemberCounter, SendMessageResponse};
use crate::dtos::{MessageQuery, RegisterRequest, ChatResponse, RegisterPushTokenRequest, CodeRow, DeviceRow, MemberRow, MessageDto, UserDto, WsEnvelope};
use crate::presence::{after_connect, after_disconnect, delivers_to, not_user, other_members};
use crate::push::{device_registered, is_planned_push, push_target, DeviceWrite, PushRequest};
use crate::security::{argon2_accepts, token_verdict, TokenType};
use crate::text::{decimal, hex32, hex_digit, lowercase, nibble, uuid_text};
use crate::error::AppError;

verus! {

/// A code issued for an address signs the user in, with no failed attempt
/// counted, as long as it is the newest live code of that address.
pub proof fn law_issued_code_signs_in(
    codes: Seq<CodeRow>,
    users: Seq<UserDto>,
    email: Seq<char>,
    issued: IssuedCode,
    random: u32,
    issued_at: i64,
    now: Instant,
    secret: Seq<u8>,
    out: VerifyCodeOutcome,
)
    requires
        code_issued(email, random, issued_at, Ok(issued)),
        exists|i: int| is_newest_live_code(codes, email, now.micros, i),
        forall|i: int| is_newest_live_code(codes, email, now.micros, i) ==> issued.row_matches(#[trigger] codes[i]),
        code_checked(codes, users, email, issued.code@, now, secret, out),
    ensures
        out.failed_attempt is None,
        signed_in(users, email, now.secs, secret, out.result),
{
    let i = choose|i: int| is_newest_live_code(codes, email, now.micros, i);
    assert(code_is_live(codes[i], email, now.micros));
    let k = choose|k: int|
        #[trigger] is_newest_live_code(codes, email, now.micros, k) && if !argon2_accepts(codes[k].code@, issued.code@) {
            &&& out.result matches Err(AppError::Custom(m)) && m@ == crate::auth::wrong_code_text()
            &&& out.failed_attempt == Some((codes[k].id, (codes[k].attempt_count + 1) as i32))
        } else {
            &&& out.failed_attempt is None
            &&& signed_in(users, email, now.secs, secret, out.result)
        };
    assert(issued.row_matches(codes[k]));
}

/// Signing in with the address a user registered with finds that user: the
/// stored address is the lower-case form the sign-in looks up.
pub proof fn law_registered_address_signs_in(
    users: Seq<UserDto>,
    registered: Seq<char>,
    stored: NewUser,
    j: int,
    res: Result<String, AppError>,
)
    requires
        stored.email@ == lowercase(registered),
        0 <= j < users.len(),
        users[j].email == stored.email,
        login_answer(users, registered, res),
    ensures
        res matches Ok(e) && e@ == stored.email@,
{
    assert(users[j].email@ == lowercase(registered));
}

/// Only a live code decides: one that has expired, or failed more than three
/// times, never does.
pub proof fn law_dead_codes_never_decide(codes: Seq<CodeRow>, email: Seq<char>, now_micros: i64, i: int)
    requires
        0 <= i < codes.len(),
        codes[i].expires_at <= now_micros || codes[i].attempt_count > 3,
    ensures
        !is_newest_live_code(codes, email, now_micros, i),
{
}

/// Every sign-in code has exactly six digits.
pub proof fn law_code_has_six_digits(random: u32)
    ensures
        decimal(code_value(random)).len() == 6,
        100_000 <= code_value(random) <= 999_999,
{
    let n0 = code_value(random);
    let n1 = n0 / 10;
    let n2 = n1 / 10;
    let n3 = n2 / 10;
    let n4 = n3 / 10;
    let n5 = n4 / 10;
    assert(1 <= n5 <= 9);
    assert(decimal(n5).len() == 1);
    assert(10 <= n4 && decimal(n4).len() == 2);
    assert(10 <= n3 && decimal(n3).len() == 3);
    assert(10 <= n2 && decimal(n2).len() == 4);
    assert(10 <= n1 && decimal(n1).len() == 5);
    assert(10 <= n0 && decimal(n0).len() == 6);
}

/// An access token is never accepted where a refresh token is expected, nor
/// the other way round.
pub proof fn law_token_types_not_interchangeable(token: Seq<char>, secret: Seq<u8>, now_secs: i64)
    ensures
        token_verdict(token, secret, TokenType::Refresh, now_secs) matches Some(f) ==> f.6 == TokenType::Refresh,
        token_verdict(token, secret, TokenType::Access, now_secs) matches Some(f) ==> f.6 == TokenType::Access,
        !(token_verdict(token, secret, TokenType::Refresh, now_secs) is Some && token_verdict(
            token,
            secret,
            TokenType::Access,
            now_secs,
        ) is Some),
{
}

proof fn lemma_latest_is_max(ms: Seq<MessageDto>, chat: u128, l: i64, j: int)
    requires
        latest_time(ms, chat) == Some(l),
        0 <= j < ms.len(),
        ms[j].chat_id == chat,
    ensures
        ms[j].created_at <= l,
    decreases ms.len(),
{
    if j < ms.len() - 1 {
        let init = ms.drop_last();
        assert(init[j] == ms[j]);
        match latest_time(init, chat) {
            Some(p) => lemma_latest_is_max(init, chat, p, j),
            None => {
                lemma_latest_none(init, chat, j);
            },
        }
    }
}

proof fn lemma_latest_none(ms: Seq<MessageDto>, chat: u128, j: int)
    requires
        latest_time(ms, chat) is None,
        0 <= j < ms.len(),
    ensures
        ms[j].chat_id != chat,
    decreases ms.len(),
{
    if j < ms.len() - 1 {
        assert(ms.drop_last()[j] == ms[j]);
        lemma_latest_none(ms.drop_last(), chat, j);
    }
}

proof fn lemma_nothing_unread(ms: Seq<MessageDto>, chat: u128, t: i64)
    requires
        forall|j: int| 0 <= j < ms.len() && (#[trigger] ms[j]).chat_id == chat ==> ms[j].created_at <= t,
    ensures
        unread_in(ms, chat, Some(t)) == 0,
    decreases ms.len(),
{
    if ms.len() > 0 {
        let init = ms.drop_last();
        assert forall|j: int| 0 <= j < init.len() && (#[trigger] init[j]).chat_id == chat implies init[j].created_at <= t by {
            assert(init[j] == ms[j]);
        }
        lemma_nothing_unread(init, chat, t);
        assert(ms[ms.len() - 1] == ms.last());
    }
}

/// Reading a chat at or after its latest message (at any time, if it has
/// none) leaves nothing unread in it.
pub proof fn law_read_clears_unread(ms: Seq<MessageDto>, chat: u128, read_at: i64)
    requires
        latest_time(ms, chat) matches Some(latest) ==> latest <= read_at,
    ensures
        unread_count(ms, chat, Some(read_at)) == 0,
{
    assert forall|j: int| 0 <= j < ms.len() && (#[trigger] ms[j]).chat_id == chat implies ms[j].created_at <= read_at by {
        match latest_time(ms, chat) {
            Some(latest) => lemma_latest_is_max(ms, chat, latest, j),
            None => lemma_latest_none(ms, chat, j),
        }
    }
    lemma_nothing_unread(ms, chat, read_at);
}

/// The newest message of a chat is the last message of the chat's newest
/// page (of at least one message).
pub proof fn law_newest_message_ends_first_page(
    ms: Seq<MessageDto>,
    chat: u128,
    limit: int,
    page: Seq<MessageDto>,
    i: int,
)
    requires
        is_page(ms, chat, None, limit, page),
        limit >= 1,
        0 <= i < ms.len(),
        ms[i].chat_id == chat,
        forall|j: int| 0 <= j < ms.len() && j != i && (#[trigger] ms[j]).chat_id == chat ==> ms[j].created_at < ms[i].created_at,
    ensures
        page.len() > 0,
        page.last() == ms[i],
{
    let pred = page_filter(chat, None);
    let s = choose|s: Seq<MessageDto>|
        #[trigger] sorted_by_time(s) && s.to_multiset() == ms.filter(pred).to_multiset() && page == s.subrange(
            s.len() - (if limit < s.len() { limit } else { s.len() as int }),
            s.len() as int,
        );
    assert(in_page(ms[i], chat, None));
    ms.lemma_filter_contains(pred, i);
    vstd::seq_lib::to_multiset_contains(ms.filter(pred), ms[i]);
    vstd::seq_lib::to_multiset_contains(s, ms[i]);
    let k = choose|k: int| 0 <= k < s.len() && s[k] == ms[i];
    let last = s[s.len() - 1];
    assert(s.contains(last));
    vstd::seq_lib::to_multiset_contains(s, last);
    vstd::seq_lib::to_multiset_contains(ms.filter(pred), last);
    ms.lemma_filter_contains_rev(pred, last);
    let fi = choose|fi: int| 0 <= fi < ms.filter(pred).len() && ms.filter(pred)[fi] == last;
    ms.lemma_filter_pred(pred, fi);
    let j = choose|j: int| 0 <= j < ms.len() && ms[j] == last;
    if last != ms[i] {
        assert(j != i);
        assert(ms[j].created_at < ms[i].created_at);
        if k < s.len() - 1 {
            assert(s[k].created_at <= s[s.len() - 1].created_at);
        }
    }
    assert(page.last() == last);
}

/// A page never holds more messages than asked for.
pub proof fn law_page_within_limit(ms: Seq<MessageDto>, chat: u128, before: Option<i64>, limit: int, page: Seq<MessageDto>)
    requires
        is_page(ms, chat, before, limit, page),
        limit >= 0,
    ensures
        page.len() <= limit,
{
    let s = choose|s: Seq<MessageDto>|
        #[trigger] sorted_by_time(s) && s.to_multiset() == ms.filter(page_filter(chat, before)).to_multiset() && page
            == s.subrange(s.len() - (if limit < s.len() { limit } else { s.len() as int }), s.len() as int);
}

/// A read receipt reaches exactly the members of the chat.
pub proof fn law_read_receipt_reaches_members(
    members: Seq<MemberRow>,
    chat: u128,
    reader: u128,
    at: i64,
    env: WsEnvelope,
    user: u128,
)
    requires
        is_read_receipt(members, chat, reader, at, env),
    ensures
        delivers_to(env, user) <==> is_member(members, chat, user),
{
    lemma_member_ids_contains(members, chat, user);
}

/// The online counts: every online user has at least one connection.
pub open spec fn counts_positive(m: Map<u128, usize>) -> bool {
    forall|u: u128| #[trigger] m.contains_key(u) ==> m[u] >= 1
}

/// Opening and then closing a connection leaves presence as it was.
pub proof fn law_connect_then_disconnect(m: Map<u128, usize>, user: u128)
    requires
        counts_positive(m),
        m.contains_key(user) ==> m[user] < usize::MAX,
    ensures
        after_disconnect(after_connect(m, user), user) == m,
{
    if m.contains_key(user) {
        assert(after_disconnect(after_connect(m, user), user) =~= m);
    } else {
        assert(after_disconnect(after_connect(m, user), user) =~= m);
    }
}

/// A user with another open connection stays online when one closes.
pub proof fn law_stays_online_while_connected(m: Map<u128, usize>, user: u128)
    requires
        m.contains_key(user),
        m[user] >= 2,
    ensures
        after_disconnect(m, user).contains_key(user),
{
}

/// The memberships after `user` marked `chat` read at `at`, as the read
/// receipt of `mark_read` asks the caller to store.
pub open spec fn read_marked(members: Seq<MemberRow>, chat: u128, user: u128, at: i64) -> Seq<MemberRow> {
    members.map_values(
        |r: MemberRow|
            if r.chat_id == chat && r.user_id == user {
                MemberRow { last_read_at: Some(at), ..r }
            } else {
                r
            },
    )
}

/// Once a user has marked a chat read (the receipt `mark_read` gave is
/// stored) and no message of the chat came later, the user's chat list shows
/// nothing unread in that chat.
pub proof fn law_mark_read_clears_chat_list(
    members: Seq<MemberRow>,
    users: Seq<UserDto>,
    ms: Seq<MessageDto>,
    me: u128,
    chat: u128,
    read_at: i64,
    receipt: WsEnvelope,
    list: Seq<ChatResponse>,
)
    requires
        is_read_receipt(members, chat, me, read_at, receipt),
        latest_time(ms, chat) matches Some(l) ==> l <= read_at,
        is_chat_list(read_marked(members, chat, me, read_at), users, ms, me, list),
    ensures
        forall|x: int| 0 <= x < list.len() && (#[trigger] list[x]).id == chat ==> list[x].unread == 0,
{
    let marked = read_marked(members, chat, me, read_at);
    assert forall|x: int| 0 <= x < list.len() && (#[trigger] list[x]).id == chat implies list[x].unread == 0 by {
        assert(is_valid_line(marked, users, ms, me, list[x]));
        let (a, b, u) = choose|a: int, b: int, u: int| #[trigger] is_chat_line(marked, users, ms, me, a, b, u, list[x]);
        assert(marked[a].last_read_at == Some(read_at));
        law_read_clears_unread(ms, chat, read_at);
    }
}

/// The online counts after a run of connection events, each a user opening
/// (`true`) or closing (`false`) a connection.
pub open spec fn apply_events(m: Map<u128, usize>, events: Seq<(u128, bool)>) -> Map<u128, usize>
    decreases events.len(),
{
    if events.len() == 0 {
        m
    } else {
        let prev = apply_events(m, events.drop_last());
        let (u, open) = events.last();
        if open {
            after_connect(prev, u)
        } else {
            after_disconnect(prev, u)
        }
    }
}

/// The connections of `u` opened and not yet closed in `events`.
pub open spec fn open_sessions(events: Seq<(u128, bool)>, u: u128) -> int
    decreases events.len(),
{
    if events.len() == 0 {
        0
    } else {
        open_sessions(events.drop_last(), u) + if events.last().0 == u {
            if events.last().1 { 1int } else { -1int }
        } else {
            0int
        }
    }
}

/// Every connection closed was opened before, and no user holds `usize::MAX`
/// connections at once.
pub open spec fn sessions_well_nested(events: Seq<(u128, bool)>) -> bool {
    forall|k: int, u: u128| 0 <= k <= events.len() ==> 0 <= #[trigger] open_sessions(events.take(k), u) < usize::MAX
}

/// Over any run of sessions starting from nobody online, a user is online
/// exactly when some of their connections are open, and the stored count is
/// the number of open connections.
pub proof fn law_presence_counts_sessions(events: Seq<(u128, bool)>, u: u128)
    requires
        sessions_well_nested(events),
    ensures
        apply_events(Map::empty(), events).contains_key(u) <==> open_sessions(events, u) > 0,
        apply_events(Map::empty(), events).contains_key(u) ==> apply_events(Map::empty(), events)[u] == open_sessions(
            events,
            u,
        ),
    decreases events.len(),
{
    if events.len() > 0 {
        let init = events.drop_last();
        assert forall|k: int, v: u128| 0 <= k <= init.len() implies 0 <= #[trigger] open_sessions(init.take(k), v)
            < usize::MAX by {
            assert(init.take(k) =~= events.take(k));
        }
        law_presence_counts_sessions(init, u);
        let (w, open) = events.last();
        assert(events.take(events.len() as int) =~= events);
        assert(0 <= open_sessions(events, w) < usize::MAX);
        assert(0 <= open_sessions(events, u) < usize::MAX);
        law_presence_counts_sessions(init, w);
        assert(events.take(init.len() as int) =~= init);
    }
}

/// The device rows after a registration is stored; an inserted row gets the
/// id `new_id`.
pub open spec fn apply_device_write(devices: Seq<DeviceRow>, w: DeviceWrite, new_id: u128) -> Seq<DeviceRow> {
    match w {
        DeviceWrite::Update(row) => devices.map_values(|d: DeviceRow| if d.id == row.id { row } else { d }),
        DeviceWrite::Insert(n) => devices.push(
            DeviceRow {
                id: new_id,
                user_id: n.user_id,
                device_id: n.device_id,
                platform: n.platform,
                fcm_token: n.fcm_token,
                app_version: n.app_version,
                is_active: n.is_active,
                updated_at: n.updated_at,
                last_seen_at: n.last_seen_at,
            },
        ),
    }
}

/// No two device rows share an id or a device id (the table's keys).
pub open spec fn rows_keyed(devices: Seq<DeviceRow>) -> bool {
    forall|i: int, j: int|
        0 <= i < j < devices.len() ==> (#[trigger] devices[i]).id != (#[trigger] devices[j]).id && devices[i].device_id@
            != devices[j].device_id@
}

/// `b` is `a` with only its update and last-seen times changed.
pub open spec fn same_but_times(a: DeviceRow, b: DeviceRow) -> bool {
    b == (DeviceRow { updated_at: b.updated_at, last_seen_at: b.last_seen_at, ..a })
}

/// Registering the same device for the same user a second time changes no
/// row but for its update and last-seen times.
pub proof fn law_register_device_twice(
    d0: Seq<DeviceRow>,
    user: u128,
    payload: RegisterPushTokenRequest,
    t1: i64,
    t2: i64,
    w1: DeviceWrite,
    w2: DeviceWrite,
    new_id: u128,
)
    requires
        rows_keyed(d0),
        forall|i: int| 0 <= i < d0.len() ==> (#[trigger] d0[i]).id != new_id,
        device_registered(d0, user, payload, t1, w1),
        device_registered(apply_device_write(d0, w1, new_id), user, payload, t2, w2),
    ensures
        w2 is Update,
        apply_device_write(apply_device_write(d0, w1, new_id), w2, new_id).len() == apply_device_write(
            d0,
            w1,
            new_id,
        ).len(),
        forall|i: int|
            0 <= i < apply_device_write(d0, w1, new_id).len() ==> same_but_times(
                #[trigger] apply_device_write(d0, w1, new_id)[i],
                apply_device_write(apply_device_write(d0, w1, new_id), w2, new_id)[i],
            ),
{
    let d1 = apply_device_write(d0, w1, new_id);
    // the row of the device in `d1`, and the ids of `d1` being those of `d0` plus maybe `new_id`
    let k: int = match w1 {
        DeviceWrite::Update(r1) => choose|j: int|
            0 <= j < d0.len() && (#[trigger] d0[j]).device_id@ == payload.device_id@ && r1 == (DeviceRow {
                id: d0[j].id,
                user_id: user,
                device_id: d0[j].device_id,
                platform: payload.platform,
                fcm_token: payload.fcm_token,
                app_version: payload.app_version,
                is_active: true,
                updated_at: t1,
                last_seen_at: t1,
            }),
        DeviceWrite::Insert(_) => d0.len() as int,
    };
    assert(0 <= k < d1.len());
    assert(d1[k].device_id@ == payload.device_id@);
    assert forall|i: int| 0 <= i < d1.len() && i != k implies (#[trigger] d1[i]).id != d1[k].id && d1[i].device_id@
        != payload.device_id@ by {
        match w1 {
            DeviceWrite::Update(r1) => {
                assert(d1[i] == d0[i]);
                if i < k {
                    assert(d0[i].id != d0[k].id && d0[i].device_id@ != d0[k].device_id@);
                } else {
                    assert(d0[k].id != d0[i].id && d0[k].device_id@ != d0[i].device_id@);
                }
            },
            DeviceWrite::Insert(_) => {
                assert(d1[i] == d0[i]);
            },
        }
    }
    match w2 {
        DeviceWrite::Insert(_) => {
            assert(d1[k].device_id@ != payload.device_id@);
        },
        DeviceWrite::Update(r2) => {
            let j = choose|j: int|
                0 <= j < d1.len() && (#[trigger] d1[j]).device_id@ == payload.device_id@ && r2 == (DeviceRow {
                    id: d1[j].id,
                    user_id: user,
                    device_id: d1[j].device_id,
                    platform: payload.platform,
                    fcm_token: payload.fcm_token,
                    app_version: payload.app_version,
                    is_active: true,
                    updated_at: t2,
                    last_seen_at: t2,
                });
            assert(j == k);
            let d2 = apply_device_write(d1, w2, new_id);
            assert forall|i: int| 0 <= i < d1.len() implies same_but_times(#[trigger] d1[i], d2[i]) by {
                if i == k {
                    assert(d2[i] == r2);
                } else {
                    assert(d2[i] == d1[i]);
                }
            }
        },
    }
}

/// Typing notices go to the other members of the chat, never back to the
/// typist.
pub proof fn law_typing_not_echoed(members: Seq<MemberRow>, chat: u128, user: u128)
    ensures
        other_members(members, chat, user) matches Some(o) ==> !o.contains(user),
{
    if other_members(members, chat, user) is Some {
        let ids = crate::chats::member_ids(members, chat);
        if ids.filter(not_user(user)).contains(user) {
            let x = choose|x: int| 0 <= x < ids.filter(not_user(user)).len() && ids.filter(not_user(user))[x] == user;
            ids.lemma_filter_pred(not_user(user), x);
        }
    }
}

/// Notifications of a message go only to active devices of members other
/// than the sender, and never to the device it was sent from.
pub proof fn law_push_never_to_sender(
    members: Seq<MemberRow>,
    devices: Seq<DeviceRow>,
    message: MessageDto,
    sender_device: Option<Seq<char>>,
    sender: UserDto,
    req: PushRequest,
)
    requires
        is_planned_push(members, devices, message, sender_device, sender, req),
    ensures
        exists|k: int|
            0 <= k < devices.len() && (#[trigger] devices[k]).id == req.device_row_id && devices[k].user_id
                != message.sender_id && devices[k].is_active && !(sender_device matches Some(s) && s
                == devices[k].device_id@),
{
    let (r, k) = choose|r: int, k: int|
        #[trigger] push_target(members, devices, message, sender_device, r, k) && crate::push::is_push_for(
            req,
            devices[k],
            message,
            sender,
        );
    assert(devices[k].id == req.device_row_id);
}


/// The chat-list times of `chat` are no later than `at` when none of its
/// messages is.
proof fn lemma_latest_at_most(ms: Seq<MessageDto>, chat: u128, at: i64)
    requires
        forall|k: int| 0 <= k < ms.len() && (#[trigger] ms[k]).chat_id == chat ==> ms[k].created_at <= at,
    ensures
        latest_time(ms, chat) matches Some(t) ==> t <= at,
    decreases ms.len(),
{
    if ms.len() > 0 {
        let init = ms.drop_last();
        assert forall|k: int| 0 <= k < init.len() && (#[trigger] init[k]).chat_id == chat implies init[k].created_at <= at by {
            assert(init[k] == ms[k]);
        }
        lemma_latest_at_most(init, chat, at);
        assert(ms.last() == ms[ms.len() - 1]);
    }
}

/// Nothing of `chat` is unread at `at` when none of its messages is later.
proof fn lemma_none_unread(ms: Seq<MessageDto>, chat: u128, at: i64)
    requires
        forall|k: int| 0 <= k < ms.len() && (#[trigger] ms[k]).chat_id == chat ==> ms[k].created_at <= at,
    ensures
        unread_in(ms, chat, Some(at)) == 0,
    decreases ms.len(),
{
    if ms.len() > 0 {
        let init = ms.drop_last();
        assert forall|k: int| 0 <= k < init.len() && (#[trigger] init[k]).chat_id == chat implies init[k].created_at <= at by {
            assert(init[k] == ms[k]);
        }
        lemma_none_unread(init, chat, at);
        assert(ms.last() == ms[ms.len() - 1]);
    }
}

/// Once a message is stored as the newest of its chat and the sender's read
/// mark is set to it, the preview the sender is answered with is exactly the
/// line their chat list shows for that chat and its other member.
pub proof fn law_sent_preview_is_chat_list_line(
    members: Seq<MemberRow>,
    users: Seq<UserDto>,
    ms: Seq<MessageDto>,
    m: MessageDto,
    sender: u128,
    a: int,
    b: int,
    u: int,
)
    requires
        0 <= a < members.len(),
        members[a].user_id == sender,
        members[a].chat_id == m.chat_id,
        members[a].last_read_at == Some(m.created_at),
        first_other_member(members, users, m.chat_id, sender, b, u),
        forall|k: int| 0 <= k < ms.len() && (#[trigger] ms[k]).chat_id == m.chat_id ==> ms[k].created_at <= m.created_at,
    ensures
        is_chat_line(members, users, ms.push(m), sender, a, b, u, sent_line(m, users[u])),
{
    let all = ms.push(m);
    let chat = m.chat_id;
    assert(all.drop_last() =~= ms);
    lemma_latest_at_most(ms, chat, m.created_at);
    assert(latest_time(all, chat) == Some(m.created_at));
    assert(all[ms.len() as int] == m);
    assert(forall|k: int| 0 <= k < all.len() && (#[trigger] all[k]).chat_id == chat ==> all[k].created_at <= m.created_at) by {
        assert forall|k: int| 0 <= k < all.len() && (#[trigger] all[k]).chat_id == chat implies all[k].created_at <= m.created_at by {
            if k < ms.len() {
                assert(all[k] == ms[k]);
            }
        }
    }
    lemma_none_unread(all, chat, m.created_at);
    assert(joined(members, users, sender, a, b, u));
}


/// A lower-case hexadecimal digit: `0`-`9` or `a`-`f`.
pub open spec fn lower_hex_char(c: char) -> bool {
    ('0' <= c && c <= '9') || ('a' <= c && c <= 'f')
}

proof fn lemma_nibble_range(u: u128, i: int)
    ensures
        0 <= nibble(u, i) < 16,
{
    let s = (124 - 4 * i) as u128;
    assert((u >> s) & 0xf < 16) by (bit_vector);
}

/// The digit written for each value below sixteen: `0`-`9`, then the
/// lower-case letters `a`-`f`.
pub proof fn law_hex_digits_lower_case(d: int)
    requires
        0 <= d < 16,
    ensures
        d < 10 ==> hex_digit(d) as u32 == '0' as u32 + d,
        d >= 10 ==> hex_digit(d) as u32 == 'a' as u32 + (d - 10),
        lower_hex_char(hex_digit(d)),
{
}

/// A UUID's text, as chat ids, notification keys and avatar file names carry
/// it, is its lower-case hyphenated form: 36 characters, hyphens at 8, 13,
/// 18 and 23, lower-case hexadecimal digits everywhere else.
pub proof fn law_uuid_text_lower_case(u: u128)
    ensures
        uuid_text(u).len() == 36,
        forall|k: int| 0 <= k < 36 ==> (#[trigger] uuid_text(u)[k] == '-') == (k == 8 || k == 13 || k == 18 || k == 23),
        forall|k: int|
            0 <= k < 36 && k != 8 && k != 13 && k != 18 && k != 23 ==> lower_hex_char(#[trigger] uuid_text(u)[k]),
{
    let h = hex32(u);
    let t = uuid_text(u);
    assert forall|k: int| 0 <= k < 32 implies lower_hex_char(#[trigger] h[k]) by {
        lemma_nibble_range(u, k);
        law_hex_digits_lower_case(nibble(u, k));
    }
    assert forall|k: int| 0 <= k < 36 implies (#[trigger] t[k] == '-') == (k == 8 || k == 13 || k == 18 || k == 23)
        && (k != 8 && k != 13 && k != 18 && k != 23 ==> lower_hex_char(t[k])) by {
        if k < 8 {
            assert(t[k] == h[k]);
        } else if k == 8 {
        } else if k < 13 {
            assert(t[k] == h[k - 1]);
        } else if k == 13 {
        } else if k < 18 {
            assert(t[k] == h[k - 2]);
        } else if k == 18 {
        } else if k < 23 {
            assert(t[k] == h[k - 3]);
        } else if k == 23 {
        } else {
            assert(t[k] == h[k - 4]);
        }
    }
}


/// An ASCII letter or digit.
pub open spec fn ascii_alnum(c: char) -> bool {
    ('a' <= c && c <= 'z') || ('A' <= c && c <= 'Z') || ('0' <= c && c <= '9')
}

proof fn lemma_first_at(e: Seq<char>, i: int, n: int)
    requires
        0 <= i <= n < e.len(),
        e[n] == '@',
        forall|k: int| i <= k < n ==> e[k] != '@',
    ensures
        at_from(e, i) == n,
    decreases n - i,
{
    if i < n {
        lemma_first_at(e, i + 1, n);
    }
}

proof fn lemma_run_from_start(d: Seq<char>, k: int)
    requires
        0 <= k < d.len(),
        forall|j: int| 0 <= j <= k ==> d[j] != '.',
    ensures
        run_len(d, k) == k + 1,
    decreases k,
{
    if k > 0 {
        lemma_run_from_start(d, k - 1);
    }
    assert(run_len(d, k - 1) == k) by {
        if k == 0 {
        }
    }
}

proof fn lemma_run_after_dot(d: Seq<char>, p: int, k: int)
    requires
        0 <= p < k < d.len(),
        d[p] == '.',
        forall|j: int| p < j <= k ==> d[j] != '.',
    ensures
        run_len(d, k) == k - p,
    decreases k,
{
    assert(d[k] != '.');
    if k > p + 1 {
        lemma_run_after_dot(d, p, k - 1);
    } else {
        assert(run_len(d, p) == 0);
    }
}

/// Labels of one to 63 ASCII letters or digits joined by a dot form a
/// domain; so does one such label alone.
proof fn lemma_plain_domain(d1: Seq<char>, d2: Seq<char>)
    requires
        1 <= d1.len() <= 63,
        1 <= d2.len() <= 63,
        forall|k: int| 0 <= k < d1.len() ==> ascii_alnum(#[trigger] d1[k]),
        forall|k: int| 0 <= k < d2.len() ==> ascii_alnum(#[trigger] d2[k]),
    ensures
        domain_ok(d1),
        domain_ok(d1 + seq!['.'] + d2),
{
    let n1 = d1.len() as int;
    assert forall|k: int| 0 <= k < n1 implies #[trigger] run_len(d1, k) <= 63 by {
        assert(ascii_alnum(d1[k]));
        lemma_run_from_start(d1, k);
    }
    assert(ascii_alnum(d1[0]) && ascii_alnum(d1[n1 - 1]));
    let d = d1 + seq!['.'] + d2;
    assert(d[n1] == '.');
    assert forall|k: int| 0 <= k < d.len() implies alnum(#[trigger] d[k]) || d[k] == '-' || d[k] == '.' by {
        if k < n1 {
            assert(d[k] == d1[k] && ascii_alnum(d1[k]));
        } else if k > n1 {
            assert(d[k] == d2[k - n1 - 1] && ascii_alnum(d2[k - n1 - 1]));
        }
    }
    assert forall|k: int| 0 < k < d.len() - 1 && #[trigger] d[k] == '.' implies alnum(d[k - 1]) && alnum(d[k + 1]) by {
        if k < n1 {
            assert(d[k] == d1[k] && ascii_alnum(d1[k]));
        } else if k > n1 {
            assert(d[k] == d2[k - n1 - 1] && ascii_alnum(d2[k - n1 - 1]));
        } else {
            assert(d[k - 1] == d1[n1 - 1] && ascii_alnum(d1[n1 - 1]));
            assert(d[k + 1] == d2[0] && ascii_alnum(d2[0]));
        }
    }
    assert forall|k: int| 0 <= k < d.len() implies #[trigger] run_len(d, k) <= 63 by {
        if k < n1 {
            assert forall|j: int| 0 <= j <= k implies d[j] != '.' by {
                assert(d[j] == d1[j] && ascii_alnum(d1[j]));
            }
            lemma_run_from_start(d, k);
        } else if k > n1 {
            assert forall|j: int| n1 < j <= k implies d[j] != '.' by {
                assert(d[j] == d2[j - n1 - 1] && ascii_alnum(d2[j - n1 - 1]));
            }
            lemma_run_after_dot(d, n1, k);
        }
    }
    assert(d[0] == d1[0]);
    assert(d[d.len() - 1] == d2[d2.len() - 1] && ascii_alnum(d2[d2.len() - 1]));
}

/// An address made of ASCII letters or digits, an `@`, and one or two
/// labels of one to 63 ASCII letters or digits (joined by a dot) is a valid
/// e-mail address, whatever letters it holds.
pub proof fn law_plain_addresses_are_valid(local: Seq<char>, d1: Seq<char>, d2: Seq<char>)
    requires
        local.len() >= 1,
        forall|k: int| 0 <= k < local.len() ==> ascii_alnum(#[trigger] local[k]),
        1 <= d1.len() <= 63,
        1 <= d2.len() <= 63,
        forall|k: int| 0 <= k < d1.len() ==> ascii_alnum(#[trigger] d1[k]),
        forall|k: int| 0 <= k < d2.len() ==> ascii_alnum(#[trigger] d2[k]),
    ensures
        email_valid(local + seq!['@'] + d1),
        email_valid(local + seq!['@'] + (d1 + seq!['.'] + d2)),
{
    lemma_plain_domain(d1, d2);
    let n = local.len() as int;
    let d = d1 + seq!['.'] + d2;
    let e1 = local + seq!['@'] + d1;
    let e2 = local + seq!['@'] + d;
    assert forall|k: int| 0 <= k < n implies e1[k] != '@' && e2[k] != '@' && local_char(#[trigger] e1[k])
        && local_char(e2[k]) by {
        assert(e1[k] == local[k] && e2[k] == local[k] && ascii_alnum(local[k]));
    }
    lemma_first_at(e1, 0, n);
    lemma_first_at(e2, 0, n);
    assert(e1.subrange(n + 1, e1.len() as int) =~= d1);
    assert(e2.subrange(n + 1, e2.len() as int) =~= d);
}


/// A registration whose address and name pass and whose nickname is 3 to 32
/// ASCII letters, digits or underscores (with or without a leading `@`),
/// taken by nobody, creates the user, whatever letters the nickname holds.
pub proof fn law_latin_nicknames_register(
    existing: Seq<UserDto>,
    payload: RegisterRequest,
    core: Seq<char>,
    res: Result<NewUser, AppError>,
)
    requires
        registration(existing, payload, res),
        email_valid(payload.email@),
        name_valid(payload.name@),
        payload.nickname@ == core || payload.nickname@ == seq!['@'] + core,
        3 <= core.len() <= 32,
        forall|k: int| 0 <= k < core.len() ==> ascii_alnum(#[trigger] core[k]) || core[k] == '_',
        forall|j: int|
            0 <= j < existing.len() ==> (#[trigger] existing[j]).email@ != lowercase(payload.email@)
                && existing[j].nickname@ != seq!['@'] + core,
    ensures
        res matches Ok(u) && u.nickname@ == seq!['@'] + core && u.email@ == lowercase(payload.email@),
{
    let n = payload.nickname@;
    if n == core {
        assert(ascii_alnum(core[0]) || core[0] == '_');
    } else {
        assert((seq!['@'] + core).drop_first() =~= core);
    }
    assert(nickname_core(n) == core);
    assert forall|i: int| 0 <= i < core.len() implies nickname_char(#[trigger] core[i]) by {
        assert(ascii_alnum(core[i]) || core[i] == '_');
    }
    assert(nickname_ok(n));
    assert(stored_nickname(n) == seq!['@'] + core);
    assert(!exists|j: int| 0 <= j < existing.len() && taken_by(#[trigger] existing[j], lowercase(payload.email@), seq!['@'] + core));
}

/// Sending a message moves only the sender's read mark: in the chat, every
/// other member keeps its last read message and time and counts one more
/// unread message, while the sender has read up to the new message; counters
/// of other chats are left as they were.
pub proof fn law_sending_moves_only_the_senders_read_mark(
    members: Seq<MemberRow>,
    counters: Seq<MemberCounter>,
    sender: u128,
    chat: u128,
    text: Seq<char>,
    id: u128,
    now: i64,
    res: Result<SendMessageResponse, AppError>,
)
    requires
        counters_can_grow(counters, chat, sender),
        message_stored(members, counters, sender, chat, text, id, now, res),
        res is Ok,
    ensures
        res matches Ok(r) ==> r.counters@.len() == counters.len(),
        res matches Ok(r) ==> forall|i: int|
            0 <= i < counters.len() ==> {
                let (was, now_c) = (counters[i], #[trigger] r.counters@[i]);
                &&& now_c.chat_id == was.chat_id && now_c.user_id == was.user_id
                &&& ((was.chat_id != chat || was.user_id != sender) ==> (now_c.last_read_at == was.last_read_at
                    && now_c.last_read_message_id == was.last_read_message_id))
                &&& ((was.chat_id == chat && was.user_id != sender) ==> now_c.unread_count == was.unread_count + 1)
                &&& (was.chat_id != chat ==> now_c.unread_count == was.unread_count)
                &&& ((was.chat_id == chat && was.user_id == sender) ==> (now_c.unread_count == 0 && now_c.last_read_at
                    == Some(now) && now_c.last_read_message_id == Some(id)))
            },
{
    if let Ok(r) = res {
        assert(!text_refused(text) && is_member(members, chat, sender));
        assert forall|i: int| 0 <= i < counters.len() implies #[trigger] r.counters@[i] == counter_after(
            counters[i],
            chat,
            sender,
            id,
            now,
        ) && (counters[i].chat_id == chat && counters[i].user_id != sender ==> counters[i].unread_count < i32::MAX) by {
        }
    }
}

/// A page holds as many messages as asked for, up to a hundred, or fifty
/// when nothing was asked, and fewer only when the chat has fewer.
pub proof fn law_page_holds_what_was_asked(ms: Seq<MessageDto>, chat: u128, q: MessageQuery, page: Seq<MessageDto>)
    requires
        is_page(ms, chat, q.before, page_size(q), page),
    ensures
        ({
            let n = ms.filter(page_filter(chat, q.before)).len();
            match q.limit {
                Some(l) => if l <= 100 {
                    page.len() == (if l < n { l as int } else { n as int })
                } else {
                    page.len() == (if 100 < n { 100 } else { n as int })
                },
                None => page.len() == (if 50 < n { 50 } else { n as int }),
            }
        }),
{
    let limit = page_size(q);
    let s = choose|s: Seq<MessageDto>|
        #[trigger] sorted_by_time(s) && s.to_multiset() == ms.filter(page_filter(chat, q.before)).to_multiset() && page
            == s.subrange(s.len() - (if limit < s.len() { limit } else { s.len() as int }), s.len() as int);
    vstd::seq_lib::to_multiset_len(s);
    vstd::seq_lib::to_multiset_len(ms.filter(page_filter(chat, q.before)));
}


/// A character HTML allows before the `@` of an address besides letters and
/// digits.
pub open spec fn address_punct(c: char) -> bool {
    c == '.' || c == '!' || c == '#' || c == '$' || c == '%' || c == '&' || c == '\'' || c == '*' || c == '+' || c == '/'
        || c == '=' || c == '?' || c == '^' || c == '_' || c == '`' || c == '{' || c == '|' || c == '}' || c == '~'
        || c == '-'
}

proof fn lemma_at_from_found(e: Seq<char>, i: int)
    requires
        0 <= i,
        at_from(e, i) >= 0,
    ensures
        i <= at_from(e, i) < e.len(),
        e[at_from(e, i)] == '@',
        forall|k: int| i <= k < at_from(e, i) ==> e[k] != '@',
    decreases e.len() - i,
{
    if i < e.len() && e[i] != '@' {
        lemma_at_from_found(e, i + 1);
    }
}

/// A valid address has exactly one `@`, with something before it; before it
/// only ASCII letters, digits and HTML's allowed punctuation; after it only
/// ASCII letters, digits, hyphens and dots, starting and ending with a
/// letter or digit.
pub proof fn law_valid_address_shape(e: Seq<char>)
    requires
        email_valid(e),
    ensures
        exists|a: int|
            0 < a < e.len() - 1 && #[trigger] e[a] == '@' && (forall|k: int| 0 <= k < e.len() && k != a ==> e[k] != '@')
                && (forall|k: int| 0 <= k < a ==> ascii_alnum(#[trigger] e[k]) || address_punct(e[k])) && (forall|k: int|
                a < k < e.len() ==> ascii_alnum(#[trigger] e[k]) || e[k] == '-' || e[k] == '.') && ascii_alnum(e[a + 1])
                && ascii_alnum(e[e.len() - 1]),
{
    let a = at_from(e, 0);
    lemma_at_from_found(e, 0);
    let d = e.subrange(a + 1, e.len() as int);
    assert forall|k: int| 0 <= k < e.len() && k != a implies e[k] != '@' by {
        if k > a {
            assert(d[k - a - 1] == e[k]);
            assert(alnum(d[k - a - 1]) || d[k - a - 1] == '-' || d[k - a - 1] == '.');
        }
    }
    assert forall|k: int| 0 <= k < a implies ascii_alnum(#[trigger] e[k]) || address_punct(e[k]) by {
        assert(local_char(e[k]));
    }
    assert forall|k: int| a < k < e.len() implies ascii_alnum(#[trigger] e[k]) || e[k] == '-' || e[k] == '.' by {
        assert(d[k - a - 1] == e[k]);
        assert(alnum(d[k - a - 1]) || d[k - a - 1] == '-' || d[k - a - 1] == '.');
    }
    assert(d[0] == e[a + 1]);
    assert(d[d.len() - 1] == e[e.len() - 1]);
    assert(e[a] == '@');
}

/// A nickname that, without one leading `@`, is shorter than 3, longer than
/// 32, or holds anything but ASCII letters, digits and underscores is refused
/// with a validation error on the nickname field.
pub proof fn law_other_nicknames_refused(
    existing: Seq<UserDto>,
    payload: RegisterRequest,
    core: Seq<char>,
    k: int,
    res: Result<NewUser, AppError>,
)
    requires
        registration(existing, payload, res),
        payload.nickname@ == seq!['@'] + core || (payload.nickname@ == core && (core.len() == 0 || core[0] != '@')),
        core.len() < 3 || core.len() > 32 || (0 <= k < core.len() && !(ascii_alnum(core[k]) || core[k] == '_')),
    ensures
        res matches Err(AppError::ValidationError(fs)) && exists|j: int| 0 <= j < fs@.len() && (#[trigger] fs@[j]).field@ == "nickname"@,
{
    let n = payload.nickname@;
    if n == seq!['@'] + core {
        assert((seq!['@'] + core).drop_first() =~= core);
    }
    assert(nickname_core(n) == core);
    if 3 <= core.len() <= 32 {
        assert(!nickname_char(core[k]));
    }
    assert(!nickname_ok(n));
    if let Err(AppError::ValidationError(fs)) = res {
        let f = validation_failures(payload.email@, payload.name@, n);
        assert(f.len() >= 1 && f[f.len() - 1].0 == "nickname"@);
        assert(fields_text(fs@).len() == fs@.len());
        assert(fields_text(fs@)[fs@.len() - 1] == f[f.len() - 1]);
        assert(fs@[fs@.len() - 1].field@ == "nickname"@);
    }
}

} // verus!
