use telegramka_api::dtos::{MemberRow, MessageDto, UserDto};
use telegramka_api::error::AppError;
use telegramka_api::files::{stem_of, DirEntry, FilesService};
use telegramka_api::messages::{MemberCounter, MessageService};
use telegramka_api::profile::{avatar_file_path, save_failed, ProfileService};
use telegramka_api::smtp::{email_change_code_email, invitation, password_code_email, smtp_disabled, team_invitation};
use telegramka_api::users::UserService;

fn entry(name: &[u8], is_file: bool) -> DirEntry {
    DirEntry { name: name.to_vec(), is_file }
}

#[test]
fn release_version_is_the_single_file_stem() {
    assert_eq!(FilesService::get_version(&vec![entry(b"app-1.4.2.apk", true)]).unwrap(), "app-1.4.2");
    assert_eq!(
        FilesService::get_version(&vec![entry(b"old", false), entry(b"1.0.0.tar.gz", true)]).unwrap(),
        "1.0.0.tar"
    );
    assert_eq!(FilesService::get_version(&vec![entry(b"noext", true)]).unwrap(), "noext");
    assert_eq!(FilesService::get_version(&vec![entry(b".hidden", true)]).unwrap(), ".hidden");
    assert_eq!(FilesService::get_version(&vec![entry(b"v2.", true)]).unwrap(), "v2");
    assert!(matches!(FilesService::get_version(&vec![]), Err(AppError::NotFound)));
    assert!(matches!(FilesService::get_version(&vec![entry(b"dir", false)]), Err(AppError::NotFound)));
    match FilesService::get_version(&vec![entry(b"a.apk", true), entry(b"b.apk", true)]) {
        Err(AppError::Custom(m)) => assert_eq!(m, "Expected exactly one release file in RELEASE_PATH"),
        _ => panic!("two files must be refused"),
    }
    assert!(matches!(FilesService::get_version(&vec![entry(b"\xff\xfe.apk", true)]), Err(AppError::BadRequest)));
    assert_eq!(FilesService::get_version(&vec![entry(b"ok.\xff", true)]).unwrap(), "ok");
    assert!(matches!(FilesService::get_version(&vec![entry(b"", true)]), Err(AppError::BadRequest)));
}

#[test]
fn stems_follow_path_rules() {
    assert_eq!(stem_of(&b"..".to_vec()), b"..".to_vec());
    assert_eq!(stem_of(&b".".to_vec()), b".".to_vec());
    for name in ["a.b.c", ".x", "x.", "plain", "a..b", "..x", "x..", "...a.b"] {
        let expected = std::path::Path::new(name).file_stem().unwrap().to_str().unwrap().as_bytes().to_vec();
        assert_eq!(stem_of(&name.as_bytes().to_vec()), expected, "stem of {name}");
    }
}

fn user(id: u128, nickname: &str) -> UserDto {
    UserDto {
        id,
        name: "N".to_string(),
        email: format!("{id}@example.com"),
        nickname: nickname.to_string(),
        avatar_url: None,
        created_at: 3,
    }
}

#[test]
fn users_by_nickname_and_profile() {
    let users = vec![user(1, "@lex"), user(2, "@alice")];
    assert_eq!(UserService::find_by_nickname(&users, "@alice").unwrap(), users[1]);
    assert!(matches!(UserService::find_by_nickname(&users, "@bob"), Err(AppError::NotFound)));
    assert_eq!(ProfileService::get_my(&users, 1).unwrap(), users[0]);
    assert!(matches!(ProfileService::get_my(&users, 3), Err(AppError::NotFound)));
}

fn png_bytes() -> Vec<u8> {
    let img = image::RgbImage::new(2, 2);
    let mut out = std::io::Cursor::new(Vec::new());
    img.write_to(&mut out, image::ImageFormat::Png).unwrap();
    out.into_inner()
}

#[test]
fn avatars() {
    let id: u128 = 0x67e55044_10b1_426f_9247_bb680e5fe0c8;
    assert_eq!(avatar_file_path("/data/avatars", id), "/data/avatars/67e55044-10b1-426f-9247-bb680e5fe0c8.webp");
    assert_eq!(avatar_file_path("/data/avatars/", id), "/data/avatars/67e55044-10b1-426f-9247-bb680e5fe0c8.webp");
    assert_eq!(avatar_file_path("", id), "67e55044-10b1-426f-9247-bb680e5fe0c8.webp");
    let p = std::path::PathBuf::from("/data/avatars").join(format!("{}.webp", uuid::Uuid::from_u128(id)));
    assert_eq!(avatar_file_path("/data/avatars", id), p.to_str().unwrap());
    let (webp, path) = ProfileService::upload_avatar("/a", id, &png_bytes()).unwrap();
    assert_eq!(&webp[..4], b"RIFF");
    assert_eq!(&webp[8..12], b"WEBP");
    let back = image::load_from_memory(&webp).unwrap();
    assert_eq!((back.width(), back.height()), (2, 2));
    let mut expected = std::io::Cursor::new(Vec::new());
    image::load_from_memory(&png_bytes()).unwrap().write_to(&mut expected, image::ImageFormat::WebP).unwrap();
    assert_eq!(webp, expected.into_inner());
    let other = {
        let img = image::RgbImage::from_pixel(3, 1, image::Rgb([200, 10, 10]));
        let mut out = std::io::Cursor::new(Vec::new());
        img.write_to(&mut out, image::ImageFormat::Png).unwrap();
        out.into_inner()
    };
    let (webp3, _) = ProfileService::upload_avatar("/a", id, &other).unwrap();
    let back3 = image::load_from_memory(&webp3).unwrap().to_rgb8();
    assert_eq!((back3.width(), back3.height()), (3, 1));
    assert_eq!(back3.get_pixel(0, 0), &image::Rgb([200, 10, 10]));
    assert_eq!(path, "/a/67e55044-10b1-426f-9247-bb680e5fe0c8.webp");
    match ProfileService::upload_avatar("/a", id, b"not an image") {
        Err(AppError::Custom(m)) => assert_eq!(m, "Ошибка при загрузке изображения"),
        _ => panic!("garbage must be refused"),
    }
    match save_failed() {
        AppError::Custom(m) => assert_eq!(m, "Ошибка при сохранении аватара"),
        _ => panic!("expected a custom error"),
    }
}

#[test]
fn mail_switch_and_contents() {
    assert!(smtp_disabled(Some("true")));
    assert!(smtp_disabled(Some("1")));
    assert!(!smtp_disabled(Some("TRUE")));
    assert!(!smtp_disabled(Some("0")));
    assert!(!smtp_disabled(None));
    let c = password_code_email("123456".to_string(), "a@b.c".to_string());
    assert_eq!(c.subject, "Код для изменения пароля");
    assert_eq!(c.code, "123456");
    let c = email_change_code_email("654321".to_string(), "a@b.c".to_string());
    assert_eq!(c.subject, "Код для изменения почты");
    let n = invitation("inv-1", "Иван", "Петров", "x@y.z".to_string(), "https://hits.example");
    assert_eq!(n.link, "https://hits.example/auth/registration?code=inv-1");
    assert_eq!(
        n.message,
        "Вас пригласил(-а) зарегистрироваться на портал HITS Иван Петров в качестве пользователя. Для регистрации на сервисе перейдите по данной ссылке и заполните все поля."
    );
    assert_eq!(n.button_name, "Зарегистрироваться");
    let t = team_invitation("t-9", "Команда", "Иван", "Петров", "x@y.z".to_string(), "https://hits.example");
    assert_eq!(t.link, "https://hits.example/team/list/t-9");
    assert_eq!(t.message, "Вас пригласил(-а) Иван Петров в команду \"Команда\" в качестве участника.");
    assert_eq!(t.title, "Приглашение в команду");
}

#[test]
fn message_texts_are_trimmed_and_bounded() {
    assert_eq!(MessageService::validate_text("  hi  ").unwrap(), "hi");
    assert!(matches!(MessageService::validate_text("   "), Err(AppError::BadRequest)));
    assert!(matches!(MessageService::validate_text(""), Err(AppError::BadRequest)));
    let max = "a".repeat(4000);
    assert_eq!(MessageService::validate_text(&format!(" {max} ")).unwrap(), max);
    assert!(matches!(MessageService::validate_text(&"a".repeat(4001)), Err(AppError::BadRequest)));
    assert!(MessageService::validate_text(&"ж".repeat(4000)).is_ok());
    assert!(matches!(MessageService::validate_text(&"ж".repeat(4001)), Err(AppError::BadRequest)));
}

fn members() -> Vec<MemberRow> {
    vec![MemberRow { chat_id: 5, user_id: 1, last_read_at: None }, MemberRow { chat_id: 5, user_id: 2, last_read_at: None }]
}

#[test]
fn message_service_lists_from_the_first_message() {
    let messages: Vec<MessageDto> = (0..300)
        .map(|i| MessageDto { id: i, chat_id: 5, sender_id: 1, text: "t".to_string(), device_id: None, created_at: (300 - i) as i64 })
        .collect();
    let r = MessageService::list_messages(&members(), &messages, 1, 5, None).unwrap();
    assert_eq!(r.items.len(), 50);
    assert_eq!(r.items[0].created_at, 1);
    assert_eq!(r.items[49].created_at, 50);
    assert!(r.next_cursor.is_none());
    assert_eq!(MessageService::list_messages(&members(), &messages, 1, 5, Some(0)).unwrap().items.len(), 1);
    assert_eq!(MessageService::list_messages(&members(), &messages, 1, 5, Some(500)).unwrap().items.len(), 200);
    assert!(matches!(MessageService::list_messages(&members(), &messages, 3, 5, None), Err(AppError::Forbidden)));
    assert!(MessageService::ensure_membership(&members(), 2, 5).is_ok());
}

#[test]
fn sending_updates_counters() {
    let counters = vec![
        MemberCounter { chat_id: 5, user_id: 1, unread_count: 4, last_read_message_id: None, last_read_at: None },
        MemberCounter { chat_id: 5, user_id: 2, unread_count: 1, last_read_message_id: Some(3), last_read_at: Some(2) },
    ];
    let r = MessageService::send_message_at(&members(), &counters, 1, 5, "  hello ", 77, 1000).unwrap();
    assert_eq!(r.message.text, "hello");
    assert_eq!(r.message.id, 77);
    assert_eq!(r.message.created_at, 1000);
    assert_eq!(r.last_message_text, "hello");
    assert_eq!(r.counters[0].unread_count, 0);
    assert_eq!(r.counters[0].last_read_message_id, Some(77));
    assert_eq!(r.counters[0].last_read_at, Some(1000));
    assert_eq!(r.counters[1].unread_count, 2);
    assert_eq!(r.counters[1].last_read_message_id, Some(3));
    assert!(matches!(MessageService::send_message_at(&members(), &counters, 1, 5, " ", 77, 1000), Err(AppError::BadRequest)));
    assert!(matches!(MessageService::send_message_at(&members(), &counters, 9, 5, "x", 77, 1000), Err(AppError::Forbidden)));
}

#[test]
fn sending_now_uses_a_fresh_random_id() {
    let counters = vec![MemberCounter { chat_id: 5, user_id: 2, unread_count: 0, last_read_message_id: None, last_read_at: None }];
    let (id1, now1, r1) = MessageService::send_message(&members(), &counters, 1, 5, "hi");
    let (id2, _, r2) = MessageService::send_message(&members(), &counters, 1, 5, "hi");
    let r1 = r1.unwrap();
    assert_eq!(r1.message.id, id1);
    assert_eq!(r1.message.created_at, now1.micros);
    assert_eq!(r2.unwrap().message.id, id2);
    assert_ne!(id1, id2);
    assert_eq!((id1 >> 76) & 0xf, 4);
    assert_eq!((id1 >> 62) & 0x3, 2);
    assert!(now1.micros > 1_700_000_000_000_000);
}

#[test]
fn sending_leaves_other_chats_counters_alone() {
    let counters = vec![
        MemberCounter { chat_id: 5, user_id: 1, unread_count: i32::MAX, last_read_message_id: None, last_read_at: None },
        MemberCounter { chat_id: 5, user_id: 2, unread_count: 1, last_read_message_id: None, last_read_at: None },
        MemberCounter { chat_id: 6, user_id: 2, unread_count: i32::MAX, last_read_message_id: Some(9), last_read_at: Some(3) },
    ];
    let r = MessageService::send_message_at(&members(), &counters, 1, 5, "hi", 77, 1000).unwrap();
    assert_eq!(r.counters[0].unread_count, 0);
    assert_eq!(r.counters[1].unread_count, 2);
    assert_eq!(r.counters[2].unread_count, i32::MAX);
    assert_eq!(r.counters[2].last_read_message_id, Some(9));
}
