use telegramka_api::auth::AuthService;
use telegramka_api::files::{DirEntry, FilesService};
use telegramka_api::error::{AppError, FieldErrors};
use telegramka_api::text::{
    chars_of, contains_chars, format_u64, format_uuid, string_from_chars, trim_chars,
};

fn body_message(e: AppError) -> (u16, String) {
    let r = e.into_response();
    assert!(r.body.details.is_none());
    (r.status, r.body.message)
}

fn body_code(e: AppError) -> String {
    e.into_response().body.code
}

#[test]
fn error_messages_match_display_texts() {
    assert_eq!(AppError::WrongCredentials.message(), "Wrong credentials");
    assert_eq!(AppError::TokenCreation.message(), "Token creation error");
    assert_eq!(AppError::InvalidToken.message(), "Invalid token");
    assert_eq!(AppError::NotFound.message(), "Not Found");
    assert_eq!(AppError::BadRequest.message(), "Bad Request");
    assert_eq!(AppError::Forbidden.message(), "Forbidden");
    assert_eq!(AppError::Custom("boom".to_string()).message(), "boom");
    assert_eq!(AppError::InternalServerError.message(), "Internal Server Error");
    assert_eq!(AppError::ValidationError(vec![]).message(), "Validation error");
    assert_eq!(AppError::DbErr("x".to_string()).message(), "Database error");
    assert_eq!(AppError::RedisErr("x".to_string()).message(), "An error occurred with Redis");
}

#[test]
fn error_responses_have_statuses_and_bodies() {
    assert_eq!(body_message(AppError::WrongCredentials), (401, "Wrong credentials".to_string()));
    assert_eq!(body_message(AppError::InvalidToken), (401, "Invalid token".to_string()));
    assert_eq!(body_message(AppError::TokenCreation), (500, "Token creation error".to_string()));
    assert_eq!(body_message(AppError::InternalServerError), (500, "Internal Server Error".to_string()));
    assert_eq!(body_message(AppError::NotFound), (404, "Not Found".to_string()));
    assert_eq!(body_message(AppError::BadRequest), (400, "Bad Request".to_string()));
    assert_eq!(body_message(AppError::Forbidden), (403, "Forbidden".to_string()));
    assert_eq!(body_message(AppError::Custom("Неправильно".to_string())), (400, "Неправильно".to_string()));
    assert_eq!(body_message(AppError::DbErr("connection reset".to_string())), (500, "A database error occurred".to_string()));
    assert_eq!(
        body_message(AppError::RedisErr("timeout".to_string())),
        (500, "An internal service error occurred".to_string())
    );
}

#[test]
fn error_codes() {
    assert_eq!(body_code(AppError::WrongCredentials), "UNAUTHORIZED");
    assert_eq!(body_code(AppError::InvalidToken), "UNAUTHORIZED");
    assert_eq!(body_code(AppError::TokenCreation), "INTERNAL_ERROR");
    assert_eq!(body_code(AppError::DbErr("x".to_string())), "INTERNAL_ERROR");
    assert_eq!(body_code(AppError::NotFound), "NOT_FOUND");
    assert_eq!(body_code(AppError::Custom("x".to_string())), "BAD_REQUEST");
    assert_eq!(body_code(AppError::Forbidden), "FORBIDDEN");
    assert_eq!(body_message(AppError::UserAlreadyExists), (409, "User already exists".to_string()));
    assert_eq!(body_code(AppError::UserAlreadyExists), "USER_ALREADY_EXISTS");
}

#[test]
fn validation_errors_list_fields() {
    let fields = vec![FieldErrors { field: "email".to_string(), messages: vec!["invalid".to_string()] }];
    let r = AppError::ValidationError(fields).into_response();
    assert_eq!(r.status, 422);
    assert_eq!(r.body.code, "VALIDATION_ERROR");
    assert_eq!(r.body.message, "Validation error");
    let f = r.body.details.unwrap();
    assert_eq!(f.len(), 1);
    assert_eq!(f[0].field, "email");
    assert_eq!(f[0].messages, vec!["invalid".to_string()]);
}

#[test]
fn decimal_and_uuid_rendering() {
    assert_eq!(format_u64(0), "0");
    assert_eq!(format_u64(7), "7");
    assert_eq!(format_u64(1760000000), "1760000000");
    assert_eq!(format_u64(u64::MAX), u64::MAX.to_string());
    let id: u128 = 0x67e55044_10b1_426f_9247_bb680e5fe0c8;
    assert_eq!(format_uuid(id), "67e55044-10b1-426f-9247-bb680e5fe0c8");
    assert_eq!(format_uuid(0), "00000000-0000-0000-0000-000000000000");
    assert_eq!(format_uuid(u128::MAX), "ffffffff-ffff-ffff-ffff-ffffffffffff");
    assert_eq!(format_uuid(id), uuid::Uuid::from_u128(id).to_string());
}

#[test]
fn trimming_follows_unicode_white_space() {
    let t = trim_chars("  \t hello world \n");
    assert_eq!(string_from_chars(&t), "hello world");
    let t = trim_chars("\u{3000}\u{a0}текст\u{2028}");
    assert_eq!(string_from_chars(&t), "текст");
    assert!(trim_chars(" \r\n ").is_empty());
    assert_eq!(string_from_chars(&trim_chars("x")), "x");
    for s in ["", "  a  b ", "\u{85}z\u{205f}", "\u{200b}q"] {
        assert_eq!(string_from_chars(&trim_chars(s)), s.trim());
    }
}

#[test]
fn substring_search() {
    let hay = chars_of("status: UNREGISTERED token");
    assert!(contains_chars(&hay, &chars_of("UNREGISTERED")));
    assert!(!contains_chars(&hay, &chars_of("INVALID_ARGUMENT")));
    assert!(contains_chars(&hay, &chars_of("")));
    assert!(!contains_chars(&chars_of("ab"), &chars_of("abc")));
    assert!(contains_chars(&chars_of("abc"), &chars_of("abc")));
}

#[test]
fn lowercase_and_utf8() {
    assert_eq!(AuthService::normalize_email("Lex@Example.COM"), "lex@example.com");
    assert_eq!(AuthService::normalize_email("ПРИВЕТ"), "привет");
    let one = |name: &[u8]| vec![DirEntry { name: name.to_vec(), is_file: true }];
    assert_eq!(FilesService::get_version(&one("héllo.apk".as_bytes())).unwrap(), "héllo");
    assert!(matches!(FilesService::get_version(&one(&[0x66, 0xff, 0x67, 0x2e, 0x61])), Err(AppError::BadRequest)));
}
