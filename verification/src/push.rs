//! Push devices: registering and unregistering them, and planning the push
//! notifications for a new message.

use vstd::prelude::*;
use crate::dtos::{
    clone_opt_string, DeviceRow, MemberRow, MessageDto, RegisterPushTokenRequest, UnregisterPushTokenRequest,
    UserDto,
};
use crate::text::{chars_of, contains_chars, contains_text, format_uuid, string_from_chars, uuid_text};
use crate::users::{find_user, text_eq, user_has_key, UserKey};

verus! {

/// A device to store for the first time (its id is assigned on insert).
#[derive(Debug)]
pub struct NewDevice {
    pub user_id: u128,
    pub device_id: String,
    pub platform: String,
    pub fcm_token: String,
    pub app_version: Option<String>,
    pub is_active: bool,
    pub last_seen_at: i64,
    pub updated_at: i64,
}

/// How a device registration is stored.
#[derive(Debug)]
pub enum DeviceWrite {
    /// The device was known (by its device id): the row as updated.
    Update(DeviceRow),
    /// The device is new.
    Insert(NewDevice),
}

/// The position of the device row with the given device id, if any.
fn find_device(devices: &Vec<DeviceRow>, device_id: &String) -> (res: Option<usize>)
    ensures
        res matches Some(i) ==> i < devices@.len() && devices@[i as int].device_id@ == device_id@,
        res is None ==> forall|j: int| 0 <= j < devices@.len() ==> (#[trigger] devices@[j]).device_id@ != device_id@,
{
    let mut i: usize = 0;
    while i < devices.len()
        invariant
            i <= devices@.len(),
            forall|j: int| 0 <= j < i ==> (#[trigger] devices@[j]).device_id@ != device_id@,
        decreases devices@.len() - i,
    {
        if text_eq(&devices[i].device_id, device_id) {
            return Some(i);
        }
        i = i + 1;
    }
    None
}

/// How registering the device of `payload` for `user` at `now_micros` is
/// stored, given the device rows: a device known by its device id (to
/// whichever user) is taken over, reactivated and refreshed; an unknown one is
/// inserted, active.
pub open spec fn device_registered(
    devices: Seq<DeviceRow>,
    user_id: u128,
    payload: RegisterPushTokenRequest,
    now_micros: i64,
    res: DeviceWrite,
) -> bool {
    match res {
        DeviceWrite::Update(row) => exists|j: int|
            0 <= j < devices.len() && (#[trigger] devices[j]).device_id@ == payload.device_id@ && row == (
            DeviceRow {
                id: devices[j].id,
                user_id,
                device_id: devices[j].device_id,
                platform: payload.platform,
                fcm_token: payload.fcm_token,
                app_version: payload.app_version,
                is_active: true,
                updated_at: now_micros,
                last_seen_at: now_micros,
            }),
        DeviceWrite::Insert(d) => {
            &&& forall|j: int| 0 <= j < devices.len() ==> (#[trigger] devices[j]).device_id@ != payload.device_id@
            &&& d == (NewDevice {
                user_id,
                device_id: payload.device_id,
                platform: payload.platform,
                fcm_token: payload.fcm_token,
                app_version: payload.app_version,
                is_active: true,
                last_seen_at: now_micros,
                updated_at: now_micros,
            })
        },
    }
}

pub struct PushService;

impl PushService {
    /// Registers the device of `payload` for `user_id` at `now_micros`: a
    /// device already known by its device id (to whichever user) is taken
    /// over, reactivated and refreshed; an unknown one is inserted, active.
    pub fn register_device(
        devices: &Vec<DeviceRow>,
        user_id: u128,
        payload: RegisterPushTokenRequest,
        now_micros: i64,
    ) -> (res: DeviceWrite)
        ensures
            device_registered(devices@, user_id, payload, now_micros, res),
    {
        match find_device(devices, &payload.device_id) {
            Some(i) => {
                let existing = &devices[i];
                DeviceWrite::Update(DeviceRow {
                    id: existing.id,
                    user_id,
                    device_id: existing.device_id.clone(),
                    platform: payload.platform,
                    fcm_token: payload.fcm_token,
                    app_version: payload.app_version,
                    is_active: true,
                    updated_at: now_micros,
                    last_seen_at: now_micros,
                })
            },
            None => DeviceWrite::Insert(NewDevice {
                user_id,
                device_id: payload.device_id,
                platform: payload.platform,
                fcm_token: payload.fcm_token,
                app_version: payload.app_version,
                is_active: true,
                last_seen_at: now_micros,
                updated_at: now_micros,
            }),
        }
    }

    /// Unregisters a device of `user_id`: the device row of that user with
    /// that device id, deactivated at `now_micros`, or `None` (nothing to do).
    pub fn unregister_device(
        devices: &Vec<DeviceRow>,
        user_id: u128,
        payload: &UnregisterPushTokenRequest,
        now_micros: i64,
    ) -> (res: Option<DeviceRow>)
        ensures
            match res {
                Some(row) => exists|j: int|
                    0 <= j < devices@.len() && (#[trigger] devices@[j]).user_id == user_id && devices@[j].device_id@
                        == payload.device_id@ && row == deactivated(devices@[j], now_micros),
                None => forall|j: int|
                    0 <= j < devices@.len() ==> !((#[trigger] devices@[j]).user_id == user_id && devices@[j].device_id@
                        == payload.device_id@),
            },
    {
        let mut i: usize = 0;
        while i < devices.len()
            invariant
                i <= devices@.len(),
                forall|j: int|
                    0 <= j < i ==> !((#[trigger] devices@[j]).user_id == user_id && devices@[j].device_id@
                        == payload.device_id@),
            decreases devices@.len() - i,
        {
            let d = &devices[i];
            if d.user_id == user_id && text_eq(&d.device_id, &payload.device_id) {
                return Some(deactivate(d, now_micros));
            }
            i = i + 1;
        }
        None
    }
}

/// A device row switched off at `at`.
pub open spec fn deactivated(d: DeviceRow, at: i64) -> DeviceRow {
    DeviceRow { is_active: false, updated_at: at, ..d }
}

/// The device row switched off at `at`.
pub fn deactivate(d: &DeviceRow, at: i64) -> (res: DeviceRow)
    ensures
        res == deactivated(*d, at),
{
    DeviceRow {
        id: d.id,
        user_id: d.user_id,
        device_id: d.device_id.clone(),
        platform: d.platform.clone(),
        fcm_token: d.fcm_token.clone(),
        app_version: clone_opt_string(&d.app_version),
        is_active: false,
        updated_at: at,
        last_seen_at: d.last_seen_at,
    }
}

/// One notification to send: to the device `device_row_id` with token
/// `token`, carrying `data`, collapsed per chat, at high priority.
#[derive(Debug)]
pub struct PushRequest {
    pub device_row_id: u128,
    pub token: String,
    pub data: Vec<(String, String)>,
    pub collapse_key: String,
    pub priority: String,
}

/// The data of a new-message notification, as key and value texts.
pub open spec fn push_data(message: MessageDto, sender: UserDto) -> Seq<(Seq<char>, Seq<char>)> {
    seq![
        ("chat_id"@, uuid_text(message.chat_id)),
        ("user_id"@, uuid_text(message.sender_id)),
        ("sender_name"@, sender.name@),
        ("sender_nickname"@, sender.nickname@),
        ("avatar_url"@, match sender.avatar_url { Some(a) => a@, None => Seq::empty() }),
        ("text"@, message.text@),
    ]
}

/// The texts of a list of pairs.
pub open spec fn pairs_text(v: Seq<(String, String)>) -> Seq<(Seq<char>, Seq<char>)> {
    v.map_values(|p: (String, String)| (p.0@, p.1@))
}

/// `req` is the notification of `message` from `sender` to device `d`.
pub open spec fn is_push_for(req: PushRequest, d: DeviceRow, message: MessageDto, sender: UserDto) -> bool {
    &&& req.device_row_id == d.id
    &&& req.token == d.fcm_token
    &&& pairs_text(req.data@) == push_data(message, sender)
    &&& req.collapse_key@ == uuid_text(message.chat_id)
    &&& req.priority@ == "high"@
}

/// Device `d` is to be notified of `message`: it belongs to a member of the
/// chat other than the sender (membership row `r`), is an active Android
/// device, and is not the device the message was sent from.
pub open spec fn push_target(
    members: Seq<MemberRow>,
    devices: Seq<DeviceRow>,
    message: MessageDto,
    sender_device: Option<Seq<char>>,
    r: int,
    k: int,
) -> bool {
    &&& 0 <= r < members.len()
    &&& 0 <= k < devices.len()
    &&& members[r].chat_id == message.chat_id
    &&& members[r].user_id != message.sender_id
    &&& devices[k].user_id == members[r].user_id
    &&& devices[k].platform@ == "android"@
    &&& devices[k].is_active
    &&& !(sender_device matches Some(s) && s == devices[k].device_id@)
}

/// `req` is the notification of `message` from `sender` to some
/// `push_target` device.
pub open spec fn is_planned_push(
    members: Seq<MemberRow>,
    devices: Seq<DeviceRow>,
    message: MessageDto,
    sender_device: Option<Seq<char>>,
    sender: UserDto,
    req: PushRequest,
) -> bool {
    exists|r: int, k: int|
        #[trigger] push_target(members, devices, message, sender_device, r, k) && is_push_for(req, devices[k], message, sender)
}

fn push_data_of(message: &MessageDto, sender: &UserDto) -> (res: Vec<(String, String)>)
    ensures
        pairs_text(res@) == push_data(*message, *sender),
{
    let mut v: Vec<(String, String)> = Vec::new();
    v.push((String::from_str("chat_id"), format_uuid(message.chat_id)));
    v.push((String::from_str("user_id"), format_uuid(message.sender_id)));
    v.push((String::from_str("sender_name"), sender.name.clone()));
    v.push((String::from_str("sender_nickname"), sender.nickname.clone()));
    let avatar = match &sender.avatar_url {
        Some(a) => a.clone(),
        None => String::new(),
    };
    v.push((String::from_str("avatar_url"), avatar));
    v.push((String::from_str("text"), message.text.clone()));
    assert(pairs_text(v@) =~= push_data(*message, *sender));
    v
}

/// The notifications for a new message: one per `push_target` device, none
/// when the sender is unknown. `sender_device` is the device id the message
/// was sent from, if known.
pub fn plan_message_push(
    members: &Vec<MemberRow>,
    devices: &Vec<DeviceRow>,
    users: &Vec<UserDto>,
    message: &MessageDto,
    sender_device: Option<&str>,
) -> (res: Vec<PushRequest>)
    ensures
        (forall|j: int| 0 <= j < users@.len() ==> (#[trigger] users@[j]).id != message.sender_id) ==> res@.len() == 0,
        forall|x: int|
            0 <= x < res@.len() ==> exists|s: int|
                0 <= s < users@.len() && (#[trigger] users@[s]).id == message.sender_id && is_planned_push(
                    members@,
                    devices@,
                    *message,
                    opt_text(sender_device),
                    users@[s],
                    #[trigger] res@[x],
                ),
        (exists|j: int| 0 <= j < users@.len() && (#[trigger] users@[j]).id == message.sender_id) ==> forall|r: int, k: int|
            #[trigger] push_target(members@, devices@, *message, opt_text(sender_device), r, k) ==> exists|x: int|
                0 <= x < res@.len() && (#[trigger] res@[x]).device_row_id == devices@[k].id,
        requests_distinct(res@),
{
    let mut res: Vec<PushRequest> = Vec::new();
    let sender_key = UserKey::Id(message.sender_id);
    let si = match find_user(users, &sender_key) {
        Some(i) => i,
        None => {
            assert forall|j: int| 0 <= j < users@.len() implies (#[trigger] users@[j]).id != message.sender_id by {
                assert(!user_has_key(users@[j], sender_key));
            }
            return res;
        },
    };
    let sender = &users[si];
    let android = String::from_str("android");
    let data = push_data_of(message, sender);
    let ghost sd = opt_text(sender_device);
    for r in 0..members.len()
        invariant
            sd == opt_text(sender_device),
            si < users@.len(),
            *sender == users@[si as int],
            sender.id == message.sender_id,
            android@ == "android"@,
            pairs_text(data@) == push_data(*message, *sender),
            forall|x: int| 0 <= x < res@.len() ==> is_planned_push(members@, devices@, *message, sd, *sender, #[trigger] res@[x]),
            requests_distinct(res@),
            forall|r2: int, k: int|
                #[trigger] push_target(members@, devices@, *message, sd, r2, k) && r2 < r ==> exists|x: int|
                    0 <= x < res@.len() && (#[trigger] res@[x]).device_row_id == devices@[k].id,
    {
        let m = members[r];
        if m.chat_id == message.chat_id && m.user_id != message.sender_id {
            for k in 0..devices.len()
                invariant
                    sd == opt_text(sender_device),
                    si < users@.len(),
                    *sender == users@[si as int],
                    sender.id == message.sender_id,
                    android@ == "android"@,
                    pairs_text(data@) == push_data(*message, *sender),
                    m == members@[r as int],
                    r < members@.len(),
                    m.chat_id == message.chat_id,
                    m.user_id != message.sender_id,
                forall|x: int| 0 <= x < res@.len() ==> is_planned_push(members@, devices@, *message, sd, *sender, #[trigger] res@[x]),
                    requests_distinct(res@),
                    forall|r2: int, k2: int|
                        #[trigger] push_target(members@, devices@, *message, sd, r2, k2) && (r2 < r || (r2 == r && k2 < k))
                            ==> exists|x: int| 0 <= x < res@.len() && (#[trigger] res@[x]).device_row_id == devices@[k2].id,
            {
                let d = &devices[k];
                let from_sender = match sender_device {
                    Some(s) => text_eq(&String::from_str(s), &d.device_id),
                    None => false,
                };
                if d.user_id == m.user_id && text_eq(&d.platform, &android) && d.is_active && !from_sender && planned_for(
                    &res,
                    d.id,
                ) {
                    assert forall|r2: int, k2: int|
                        #[trigger] push_target(members@, devices@, *message, sd, r2, k2) && (r2 < r || (r2 == r && k2 < k + 1))
                            implies exists|x: int| 0 <= x < res@.len() && (#[trigger] res@[x]).device_row_id == devices@[k2].id by {
                    }
                } else if d.user_id == m.user_id && text_eq(&d.platform, &android) && d.is_active && !from_sender {
                    let req = PushRequest {
                        device_row_id: d.id,
                        token: d.fcm_token.clone(),
                        data: clone_pairs(&data),
                        collapse_key: format_uuid(message.chat_id),
                        priority: String::from_str("high"),
                    };
                    assert(push_target(members@, devices@, *message, sd, r as int, k as int));
                    let ghost old_res = res@;
                    res.push(req);
                    assert(res@[old_res.len() as int] == req);
                    assert forall|x: int, y: int| 0 <= x < y < res@.len() implies (#[trigger] res@[x]).device_row_id
                        != (#[trigger] res@[y]).device_row_id by {
                        if y < old_res.len() {
                            assert(res@[x] == old_res[x] && res@[y] == old_res[y]);
                        } else {
                            assert(res@[x] == old_res[x]);
                        }
                    }
                    assert forall|x: int| 0 <= x < res@.len() implies is_planned_push(
                        members@,
                        devices@,
                        *message,
                        sd,
                        *sender,
                        #[trigger] res@[x],
                    ) by {
                        if x < old_res.len() {
                            assert(res@[x] == old_res[x]);
                        } else {
                            assert(is_push_for(res@[x], devices@[k as int], *message, *sender));
                        }
                    }
                    assert forall|r2: int, k2: int|
                        #[trigger] push_target(members@, devices@, *message, sd, r2, k2) && (r2 < r || (r2 == r && k2 < k + 1))
                            implies exists|x: int| 0 <= x < res@.len() && (#[trigger] res@[x]).device_row_id == devices@[k2].id by {
                        if r2 == r && k2 == k {
                            assert(res@[old_res.len() as int].device_row_id == devices@[k2].id);
                        } else {
                            let x = choose|x: int| 0 <= x < old_res.len() && (#[trigger] old_res[x]).device_row_id == devices@[k2].id;
                            assert(res@[x] == old_res[x]);
                        }
                    }
                } else {
                    assert forall|r2: int, k2: int|
                        #[trigger] push_target(members@, devices@, *message, sd, r2, k2) && (r2 < r || (r2 == r && k2 < k + 1))
                            implies exists|x: int| 0 <= x < res@.len() && (#[trigger] res@[x]).device_row_id == devices@[k2].id by {
                        if r2 == r && k2 == k {
                            assert(!push_target(members@, devices@, *message, sd, r2, k2));
                        }
                    }
                }
            }
        } else {
            assert forall|r2: int, k2: int|
                #[trigger] push_target(members@, devices@, *message, sd, r2, k2) && r2 < r + 1 implies exists|x: int|
                    0 <= x < res@.len() && (#[trigger] res@[x]).device_row_id == devices@[k2].id by {
                if r2 == r {
                    assert(!push_target(members@, devices@, *message, sd, r2, k2));
                }
            }
        }
    }
    assert forall|x: int| 0 <= x < res@.len() implies exists|s: int|
        0 <= s < users@.len() && (#[trigger] users@[s]).id == message.sender_id && is_planned_push(
            members@,
            devices@,
            *message,
            opt_text(sender_device),
            users@[s],
            #[trigger] res@[x],
        ) by {
        assert(is_planned_push(members@, devices@, *message, sd, users@[si as int], res@[x]));
    }
    res
}

/// No two requests are for the same device.
pub open spec fn requests_distinct(res: Seq<PushRequest>) -> bool {
    forall|x: int, y: int| 0 <= x < y < res.len() ==> (#[trigger] res[x]).device_row_id != (#[trigger] res[y]).device_row_id
}

/// Whether a request for device `id` is already planned.
fn planned_for(res: &Vec<PushRequest>, id: u128) -> (b: bool)
    ensures
        b == exists|x: int| 0 <= x < res@.len() && (#[trigger] res@[x]).device_row_id == id,
{
    let mut i: usize = 0;
    while i < res.len()
        invariant
            i <= res@.len(),
            forall|x: int| 0 <= x < i ==> (#[trigger] res@[x]).device_row_id != id,
        decreases res@.len() - i,
    {
        if res[i].device_row_id == id {
            return true;
        }
        i = i + 1;
    }
    false
}

/// The text of an optional string.
pub open spec fn opt_text(s: Option<&str>) -> Option<Seq<char>> {
    match s {
        Some(t) => Some(t@),
        None => None,
    }
}

fn clone_pairs(v: &Vec<(String, String)>) -> (res: Vec<(String, String)>)
    ensures
        res@ == v@,
{
    let mut res: Vec<(String, String)> = Vec::new();
    for i in 0..v.len()
        invariant
            res@ == v@.take(i as int),
    {
        let p = (v[i].0.clone(), v[i].1.clone());
        res.push(p);
        assert(v@.take(i + 1) == v@.take(i as int).push(v@[i as int]));
    }
    assert(v@.take(v@.len() as int) == v@);
    res
}

/// A send failure whose report names `UNREGISTERED` or `INVALID_ARGUMENT`
/// means the device's token is dead.
pub open spec fn token_is_dead(report: Seq<char>) -> bool {
    contains_text(report, "UNREGISTERED"@) || contains_text(report, "INVALID_ARGUMENT"@)
}

/// Whether a send failure, given as its debug report, calls for deactivating
/// the device.
pub fn should_deactivate(report: &str) -> (res: bool)
    ensures
        res == token_is_dead(report@),
{
    let r = chars_of(report);
    contains_chars(&r, &chars_of("UNREGISTERED")) || contains_chars(&r, &chars_of("INVALID_ARGUMENT"))
}

/// The resource name notifications are sent under.
pub fn fcm_parent(project_id: &str) -> (res: String)
    ensures
        res@ == "projects/"@ + project_id@,
{
    let mut v = chars_of("projects/");
    let mut p = chars_of(project_id);
    v.append(&mut p);
    string_from_chars(&v)
}

} // verus!
