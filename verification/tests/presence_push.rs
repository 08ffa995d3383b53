use telegramka_api::dtos::{
    DeviceRow, MemberRow, MessageDto, RegisterPushTokenRequest, UnregisterPushTokenRequest, UserDto, WsClientEvent,
    WsEnvelope, WsEvent,
};
use telegramka_api::presence::{
    handle_client_event, load_other_chat_members, presence_event, presence_snapshot_event, should_deliver, Presence,
};
use telegramka_api::push::{deactivate, fcm_parent, plan_message_push, should_deactivate, DeviceWrite, PushService};

#[test]
fn presence_counts_connections() {
    let mut p = Presence::new();
    assert!(p.connect(7));
    assert!(!p.connect(7));
    assert!(p.connect(8));
    assert!(!p.disconnect(7));
    assert!(p.is_online(7));
    assert!(p.disconnect(7));
    assert!(!p.is_online(7));
    assert!(!p.disconnect(7));
    let mut snap = p.snapshot();
    snap.sort();
    assert_eq!(snap, vec![8]);
    match presence_snapshot_event(&p) {
        WsEvent::PresenceSnapshot { user_ids } => assert_eq!(user_ids, vec![8]),
        _ => panic!("expected a snapshot"),
    }
    let e = presence_event(8, false);
    assert_eq!(e.recipients, None);
    assert_eq!(e.event, WsEvent::UserPresence { user_id: 8, online: false });
}

#[test]
fn delivery_follows_recipients() {
    let everyone = WsEnvelope { recipients: None, event: WsEvent::UserPresence { user_id: 1, online: true } };
    assert!(should_deliver(&everyone, 42));
    let some = WsEnvelope { recipients: Some(vec![1, 2]), event: WsEvent::UserPresence { user_id: 1, online: true } };
    assert!(should_deliver(&some, 2));
    assert!(!should_deliver(&some, 3));
    let none = WsEnvelope { recipients: Some(vec![]), event: WsEvent::UserPresence { user_id: 1, online: true } };
    assert!(!should_deliver(&none, 1));
}

fn members() -> Vec<MemberRow> {
    vec![
        MemberRow { chat_id: 10, user_id: 1, last_read_at: None },
        MemberRow { chat_id: 10, user_id: 2, last_read_at: None },
        MemberRow { chat_id: 10, user_id: 3, last_read_at: Some(4) },
        MemberRow { chat_id: 11, user_id: 4, last_read_at: None },
    ]
}

#[test]
fn typing_goes_to_the_other_members() {
    assert_eq!(load_other_chat_members(&members(), 10, 2), Some(vec![1, 3]));
    assert_eq!(load_other_chat_members(&members(), 10, 4), None);
    let env = handle_client_event(&members(), 1, WsClientEvent::Typing { chat_id: 10, typing: true }, 0).unwrap();
    assert_eq!(env.recipients, Some(vec![2, 3]));
    assert_eq!(env.event, WsEvent::Typing { chat_id: 10, user_id: 1, typing: true });
    assert!(handle_client_event(&members(), 4, WsClientEvent::Typing { chat_id: 10, typing: true }, 0).is_none());
    let read = handle_client_event(&members(), 3, WsClientEvent::MarkRead { chat_id: 10 }, 9).unwrap();
    assert_eq!(read.recipients, Some(vec![1, 2, 3]));
    assert_eq!(read.event, WsEvent::Read { chat_id: 10, user_id: 3, read_at: 9 });
    assert!(handle_client_event(&members(), 4, WsClientEvent::MarkRead { chat_id: 10 }, 9).is_none());
}

fn device(id: u128, user: u128, device_id: &str, platform: &str, active: bool) -> DeviceRow {
    DeviceRow {
        id,
        user_id: user,
        device_id: device_id.to_string(),
        platform: platform.to_string(),
        fcm_token: format!("token-{id}"),
        app_version: None,
        is_active: active,
        updated_at: 0,
        last_seen_at: 0,
    }
}

#[test]
fn device_registration_takes_over_known_devices() {
    let devices = vec![device(1, 5, "phone", "android", false)];
    let req = RegisterPushTokenRequest {
        device_id: "phone".to_string(),
        platform: "android".to_string(),
        fcm_token: "new".to_string(),
        app_version: Some("1.2".to_string()),
    };
    match PushService::register_device(&devices, 6, req.clone(), 77) {
        DeviceWrite::Update(row) => {
            assert_eq!(row.id, 1);
            assert_eq!(row.user_id, 6);
            assert_eq!(row.fcm_token, "new");
            assert_eq!(row.app_version, Some("1.2".to_string()));
            assert!(row.is_active);
            assert_eq!(row.updated_at, 77);
            assert_eq!(row.last_seen_at, 77);
        }
        DeviceWrite::Insert(_) => panic!("device is known"),
    }
    match PushService::register_device(&vec![], 6, req, 77) {
        DeviceWrite::Insert(d) => {
            assert_eq!(d.user_id, 6);
            assert_eq!(d.device_id, "phone");
            assert!(d.is_active);
            assert_eq!(d.last_seen_at, 77);
        }
        DeviceWrite::Update(_) => panic!("device is new"),
    }
}

#[test]
fn unregistering_deactivates_only_own_devices() {
    let devices = vec![device(1, 5, "phone", "android", true), device(2, 6, "tablet", "android", true)];
    let row = PushService::unregister_device(&devices, 5, &UnregisterPushTokenRequest { device_id: "phone".to_string() }, 9)
        .unwrap();
    assert_eq!(row.id, 1);
    assert!(!row.is_active);
    assert_eq!(row.updated_at, 9);
    assert!(PushService::unregister_device(&devices, 5, &UnregisterPushTokenRequest { device_id: "tablet".to_string() }, 9)
        .is_none());
    let d = deactivate(&devices[1], 3);
    assert!(!d.is_active);
    assert_eq!(d.fcm_token, "token-2");
}

#[test]
fn pushes_go_to_other_members_active_android_devices() {
    let users = vec![UserDto {
        id: 1,
        name: "Lex".to_string(),
        email: "lex@example.com".to_string(),
        nickname: "@lex".to_string(),
        avatar_url: None,
        created_at: 0,
    }];
    let devices = vec![
        device(1, 1, "lex-phone", "android", true),
        device(2, 2, "two-phone", "android", true),
        device(3, 2, "two-ios", "ios", true),
        device(4, 3, "three-old", "android", false),
        device(5, 3, "three-new", "android", true),
        device(6, 4, "stranger", "android", true),
    ];
    let message = MessageDto { id: 9, chat_id: 10, sender_id: 1, text: "hi".to_string(), device_id: None, created_at: 0 };
    let plan = plan_message_push(&members(), &devices, &users, &message, Some("lex-phone"));
    let ids: Vec<u128> = plan.iter().map(|p| p.device_row_id).collect();
    assert_eq!(ids, vec![2, 5]);
    let p = &plan[0];
    assert_eq!(p.token, "token-2");
    assert_eq!(p.priority, "high");
    assert_eq!(p.collapse_key, "00000000-0000-0000-0000-00000000000a");
    assert_eq!(p.data, vec![
        ("chat_id".to_string(), "00000000-0000-0000-0000-00000000000a".to_string()),
        ("user_id".to_string(), "00000000-0000-0000-0000-000000000001".to_string()),
        ("sender_name".to_string(), "Lex".to_string()),
        ("sender_nickname".to_string(), "@lex".to_string()),
        ("avatar_url".to_string(), "".to_string()),
        ("text".to_string(), "hi".to_string()),
    ]);
    assert!(plan_message_push(&members(), &devices, &vec![], &message, None).is_empty());
}

#[test]
fn dead_tokens_are_recognised() {
    assert!(should_deactivate("Failure(Response { status: 404, error: UNREGISTERED })"));
    assert!(should_deactivate("BadRequest(INVALID_ARGUMENT)"));
    assert!(!should_deactivate("Timeout"));
    assert_eq!(fcm_parent("my-project"), "projects/my-project");
}

#[test]
fn registering_a_device_twice_only_refreshes_it() {
    let req = RegisterPushTokenRequest {
        device_id: "tab".to_string(),
        platform: "android".to_string(),
        fcm_token: "tok".to_string(),
        app_version: None,
    };
    let inserted = match PushService::register_device(&vec![], 6, req.clone(), 10) {
        DeviceWrite::Insert(d) => DeviceRow {
            id: 1,
            user_id: d.user_id,
            device_id: d.device_id,
            platform: d.platform,
            fcm_token: d.fcm_token,
            app_version: d.app_version,
            is_active: d.is_active,
            updated_at: d.updated_at,
            last_seen_at: d.last_seen_at,
        },
        DeviceWrite::Update(_) => panic!("expected an insert"),
    };
    match PushService::register_device(&vec![inserted.clone()], 6, req, 20) {
        DeviceWrite::Update(row) => {
            assert_eq!(row, DeviceRow { updated_at: 20, last_seen_at: 20, ..inserted });
        }
        DeviceWrite::Insert(_) => panic!("expected an update"),
    }
}

#[test]
fn presence_follows_a_run_of_sessions() {
    let mut p = Presence::new();
    for (u, open) in [(1u128, true), (2, true), (1, true), (1, false), (2, false), (1, true), (1, false)] {
        if open {
            p.connect(u);
        } else {
            p.disconnect(u);
        }
    }
    assert_eq!(p.connections(1), 1);
    assert!(p.is_online(1));
    assert_eq!(p.connections(2), 0);
    assert!(!p.is_online(2));
}
