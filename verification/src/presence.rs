//! Live connections: who is online, which events reach whom, and what a
//! client's own events lead to.

use vstd::prelude::*;
use std::collections::HashMap;
use vstd::std_specs::iter::IteratorSpec;
use crate::chats::{chat_member_ids, is_member, is_read_receipt, member_ids, ChatService};
use crate::dtos::{MemberRow, WsClientEvent, WsEnvelope, WsEvent};

verus! {

broadcast use vstd::std_specs::hash::group_hash_axioms;

/// The number of open connections of each online user.
pub struct Presence {
    online: HashMap<u128, usize>,
}

/// The counts after `user` opens a connection.
pub open spec fn after_connect(m: Map<u128, usize>, user: u128) -> Map<u128, usize> {
    m.insert(user, if m.contains_key(user) { (m[user] + 1) as usize } else { 1usize })
}

/// The counts after `user` closes a connection.
pub open spec fn after_disconnect(m: Map<u128, usize>, user: u128) -> Map<u128, usize> {
    if !m.contains_key(user) {
        m
    } else if m[user] > 1 {
        m.insert(user, (m[user] - 1) as usize)
    } else {
        m.remove(user)
    }
}

impl View for Presence {
    type V = Map<u128, usize>;

    closed spec fn view(&self) -> Map<u128, usize> {
        self.online@
    }
}

impl Presence {
    /// Every online user has at least one connection.
    pub open spec fn wf(self) -> bool {
        forall|u: u128| #[trigger] self@.contains_key(u) ==> self@[u] >= 1
    }

    /// Nobody online.
    pub fn new() -> (p: Presence)
        ensures
            p@ == Map::<u128, usize>::empty(),
            p.wf(),
    {
        Presence { online: HashMap::new() }
    }

    /// `user` opens a connection; `true` when it is the user's first, which
    /// makes the user online.
    pub fn connect(&mut self, user: u128) -> (became_online: bool)
        requires
            old(self).wf(),
            old(self)@.contains_key(user) ==> old(self)@[user] < usize::MAX,
        ensures
            final(self).wf(),
            final(self)@ == after_connect(old(self)@, user),
            became_online == !old(self)@.contains_key(user),
    {
        let count: usize = match self.online.get(&user) {
            Some(c) => *c,
            None => 0,
        };
        self.online.insert(user, count + 1);
        count == 0
    }

    /// `user` closes a connection; `true` when it was the user's last, which
    /// makes the user offline.
    pub fn disconnect(&mut self, user: u128) -> (became_offline: bool)
        requires
            old(self).wf(),
        ensures
            final(self).wf(),
            final(self)@ == after_disconnect(old(self)@, user),
            became_offline == (old(self)@.contains_key(user) && old(self)@[user] <= 1),
    {
        match self.online.get(&user) {
            Some(c) => {
                let c = *c;
                let ghost before = self@;
                if c > 1 {
                    self.online.insert(user, c - 1);
                    false
                } else {
                    self.online.remove(&user);
                    assert forall|u: u128| #[trigger] self@.contains_key(u) implies self@[u] >= 1 by {
                        assert(before.contains_key(u));
                    }
                    true
                }
            },
            None => false,
        }
    }

    /// The number of open connections of `user`.
    pub fn connections(&self, user: u128) -> (n: usize)
        ensures
            n == (if self@.contains_key(user) { self@[user] } else { 0 }),
    {
        match self.online.get(&user) {
            Some(c) => *c,
            None => 0,
        }
    }

    /// Whether `user` is online.
    pub fn is_online(&self, user: u128) -> (res: bool)
        ensures
            res == self@.contains_key(user),
    {
        self.online.contains_key(&user)
    }

    /// The users online, each once, in no particular order.
    pub fn snapshot(&self) -> (res: Vec<u128>)
        ensures
            res@.to_set() == self@.dom(),
            res@.no_duplicates(),
    {
        let mut res: Vec<u128> = Vec::new();
        let ghost ks = vstd::std_specs::hash::spec_keys_iter(&self.online).remaining();
        for k in it: self.online.keys()
            invariant
                it.seq() == ks,
                res@ == it.seq().take(it.index()).map_values(|r: &u128| *r),
                it.index() == it.seq().len() ==> res@ == ks.map_values(|r: &u128| *r),
        {
            res.push(*k);
        }
        proof {
            assert(ks.take(ks.len() as int) == ks);
            if ks.len() == 0 {
                assert(res@ =~= ks.map_values(|r: &u128| *r));
            }
            assert(ks.unref() =~= ks.map_values(|r: &u128| *r));
        }
        res
    }
}

/// The event telling everyone that `user` came online or went offline.
pub fn presence_event(user: u128, online: bool) -> (env: WsEnvelope)
    ensures
        env.recipients is None,
        env.event == (WsEvent::UserPresence { user_id: user, online }),
{
    WsEnvelope { recipients: None, event: WsEvent::UserPresence { user_id: user, online } }
}

/// The first event a new connection gets: who is online.
pub fn presence_snapshot_event(p: &Presence) -> (event: WsEvent)
    ensures
        event matches WsEvent::PresenceSnapshot { user_ids } && user_ids@.to_set() == p@.dom() && user_ids@.no_duplicates(),
{
    WsEvent::PresenceSnapshot { user_ids: p.snapshot() }
}

/// An event reaches `user` when it is for everyone or `user` is a recipient.
pub open spec fn delivers_to(env: WsEnvelope, user: u128) -> bool {
    match env.recipients {
        None => true,
        Some(r) => r@.contains(user),
    }
}

/// Whether the event is to be sent to the connection of `user`.
pub fn should_deliver(env: &WsEnvelope, user: u128) -> (res: bool)
    ensures
        res == delivers_to(*env, user),
{
    match &env.recipients {
        None => true,
        Some(r) => {
            let mut i: usize = 0;
            while i < r.len()
                invariant
                    env.recipients == Some(*r),
                    i <= r@.len(),
                    forall|k: int| 0 <= k < i ==> r@[k] != user,
                decreases r@.len() - i,
            {
                if r[i] == user {
                    assert(r@[i as int] == user);
                    return true;
                }
                i = i + 1;
            }
            false
        },
    }
}

/// Ids other than `user`.
pub open spec fn not_user(user: u128) -> spec_fn(u128) -> bool {
    |id: u128| id != user
}

/// The members of `chat` other than `user`, in row order; `None` unless
/// `user` is a member.
pub open spec fn other_members(members: Seq<MemberRow>, chat: u128, user: u128) -> Option<Seq<u128>> {
    if member_ids(members, chat).contains(user) {
        Some(member_ids(members, chat).filter(not_user(user)))
    } else {
        None
    }
}

/// The members of `chat` other than `user`, or `None` unless `user` is a member.
pub fn load_other_chat_members(members: &Vec<MemberRow>, chat: u128, user: u128) -> (res: Option<Vec<u128>>)
    ensures
        match other_members(members@, chat, user) {
            None => res is None,
            Some(o) => res matches Some(v) && v@ == o,
        },
{
    let ids = chat_member_ids(members, chat);
    let ghost pred = not_user(user);
    let mut found = false;
    let mut others: Vec<u128> = Vec::new();
    for i in 0..ids.len()
        invariant
            pred == not_user(user),
            others@ == ids@.take(i as int).filter(pred),
            found == ids@.take(i as int).contains(user),
    {
        proof {
            assert(ids@.take(i + 1) == ids@.take(i as int).push(ids@[i as int]));
            ids@.take(i as int).lemma_filter_push(ids@[i as int], pred);
            let next = ids@.take(i + 1);
            let prev = ids@.take(i as int);
            if next.contains(user) && !prev.contains(user) {
                let k = choose|k: int| 0 <= k < next.len() && #[trigger] next[k] == user;
                if k < i {
                    assert(prev[k] == user);
                }
            }
            if prev.contains(user) {
                let k = choose|k: int| 0 <= k < prev.len() && #[trigger] prev[k] == user;
                assert(next[k] == user);
            }
            if ids@[i as int] == user {
                assert(ids@.take(i + 1)[i as int] == user);
            }
        }
        if ids[i] == user {
            found = true;
        } else {
            others.push(ids[i]);
        }
    }
    assert(ids@.take(ids@.len() as int) == ids@);
    if found {
        Some(others)
    } else {
        None
    }
}

/// What a client's event leads to: an event to send, if any.
pub fn handle_client_event(members: &Vec<MemberRow>, user: u128, event: WsClientEvent, now_micros: i64) -> (res: Option<
    WsEnvelope,
>)
    ensures
        match event {
            WsClientEvent::Typing { chat_id, typing } => match other_members(members@, chat_id, user) {
                None => res is None,
                Some(o) => res matches Some(env) && env.recipients matches Some(r) && r@ == o && env.event
                    == (WsEvent::Typing { chat_id, user_id: user, typing }),
            },
            WsClientEvent::MarkRead { chat_id } => {
                &&& res is None <==> !is_member(members@, chat_id, user)
                &&& res matches Some(env) ==> is_read_receipt(members@, chat_id, user, now_micros, env)
            },
        },
{
    match event {
        WsClientEvent::Typing { chat_id, typing } => match load_other_chat_members(members, chat_id, user) {
            None => None,
            Some(r) => Some(
                WsEnvelope { recipients: Some(r), event: WsEvent::Typing { chat_id, user_id: user, typing } },
            ),
        },
        WsClientEvent::MarkRead { chat_id } => ChatService::mark_read(members, user, chat_id, now_micros),
    }
}

} // verus!
