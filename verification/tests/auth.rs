use telegramka_api::auth::{email_format_ok, verification_code, AuthService, CODE_TTL_MICROS};
use telegramka_api::clock::Instant;
use telegramka_api::dtos::{CodeRow, RegisterRequest, UserDto, VerifyCodeRequest};
use telegramka_api::error::AppError;
use telegramka_api::security::{build_token_pair_at, decode_token_at, hash_password, verify_password, TokenType};

fn user(id: u128, email: &str) -> UserDto {
    UserDto {
        id,
        name: "Lex".to_string(),
        email: email.to_string(),
        nickname: "@lex".to_string(),
        avatar_url: None,
        created_at: 1,
    }
}

fn code_row(id: u128, email: &str, code: &str, expires_at: i64, attempts: i32, created_at: i64) -> CodeRow {
    CodeRow {
        id,
        email: email.to_string(),
        code: hash_password(code).unwrap(),
        expires_at,
        attempt_count: attempts,
        created_at,
    }
}

const NOW: Instant = Instant { secs: 1_760_000_000, micros: 1_760_000_000_000_000 };

#[test]
fn codes_have_six_digits() {
    assert_eq!(verification_code(0), "100000");
    assert_eq!(verification_code(899_999), "999999");
    assert_eq!(verification_code(900_000), "100000");
    assert_eq!(verification_code(123), "100123");
    assert_eq!(verification_code(u32::MAX), "267295");
    for r in [1u32, 77, 450_000, 4_000_000_000] {
        assert_eq!(verification_code(r).len(), 6);
    }
}

#[test]
fn issued_code_is_hashed_and_expires_in_ten_minutes() {
    let issued = AuthService::issue_verification_code_at("lex@example.com".to_string(), 5, 1_000).unwrap();
    assert_eq!(issued.code, "100005");
    assert_eq!(issued.email, "lex@example.com");
    assert_eq!(issued.expires_at, 1_000 + CODE_TTL_MICROS);
    assert_ne!(issued.code_hash, issued.code);
    assert!(verify_password(&issued.code_hash, "100005"));
    let (r, at, fresh) = AuthService::issue_verification_code("a@b.c".to_string());
    let fresh = fresh.unwrap();
    assert_eq!(fresh.code, verification_code(r));
    assert_eq!(fresh.expires_at, at.micros + CODE_TTL_MICROS);
}

#[test]
fn login_needs_a_known_address() {
    let users = vec![user(1, "lex@example.com")];
    assert_eq!(AuthService::login(&users, "Lex@Example.com").unwrap(), "lex@example.com");
    assert!(matches!(AuthService::login(&users, "other@example.com"), Err(AppError::NotFound)));
    assert!(matches!(AuthService::login(&vec![], "lex@example.com"), Err(AppError::NotFound)));
}

fn registration(name: &str, email: &str, nickname: &str) -> RegisterRequest {
    RegisterRequest { name: name.to_string(), email: email.to_string(), nickname: nickname.to_string() }
}

#[test]
fn registration_lowercases_the_address() {
    let u = AuthService::register(&vec![], registration("  Lex ", "LEX@Example.com", "@Lex")).unwrap();
    assert_eq!(u.email, "lex@example.com");
    assert_eq!(u.name, "Lex");
    assert_eq!(u.nickname, "@Lex");
    let users = vec![user(9, &u.email)];
    assert!(AuthService::login(&users, "lex@EXAMPLE.com").is_ok());
    let v = AuthService::register(&vec![], registration("Al", "al@b.c", "al_9")).unwrap();
    assert_eq!(v.nickname, "@al_9");
    assert_eq!(AuthService::normalize_nickname("@@x"), "@@x");
    assert_eq!(AuthService::normalize_nickname("x"), "@x");
}

#[test]
fn registration_checks_name_and_nickname() {
    match AuthService::register(&vec![], registration(" L ", "a@b.c", "good_nick")) {
        Err(AppError::ValidationError(f)) => {
            assert_eq!(f.len(), 1);
            assert_eq!(f[0].field, "name");
            assert_eq!(f[0].messages, vec!["Name must be 2 to 64 characters long".to_string()]);
        }
        _ => panic!("expected a validation error"),
    }
    match AuthService::register(&vec![], registration(&"n".repeat(65), "a@b.c", "@a-b")) {
        Err(AppError::ValidationError(f)) => {
            let names: Vec<&str> = f.iter().map(|e| e.field.as_str()).collect();
            assert_eq!(names, vec!["name", "nickname"]);
            assert_eq!(f[1].messages, vec!["Nickname must be 3 to 32 latin letters, digits or underscores".to_string()]);
        }
        _ => panic!("expected a validation error"),
    }
    assert!(matches!(AuthService::register(&vec![], registration("Lex", "a@b.c", "ab")), Err(AppError::ValidationError(_))));
    assert!(AuthService::register(&vec![], registration("Lex", "a@b.c", &"a".repeat(32))).is_ok());
    assert!(matches!(
        AuthService::register(&vec![], registration("Lex", "a@b.c", &"a".repeat(33))),
        Err(AppError::ValidationError(_))
    ));
}

#[test]
fn registration_refuses_taken_address_or_nickname() {
    let mut existing = user(9, "lex@example.com");
    existing.nickname = "@other".to_string();
    let taken = vec![existing];
    assert!(matches!(
        AuthService::register(&taken, registration("Lex", "LEX@example.com", "lex")),
        Err(AppError::UserAlreadyExists)
    ));
    assert!(matches!(
        AuthService::register(&taken, registration("Lex", "new@example.com", "other")),
        Err(AppError::UserAlreadyExists)
    ));
    assert!(AuthService::register(&taken, registration("Lex", "new@example.com", "fresh")).is_ok());
}

fn request(email: &str, code: &str) -> VerifyCodeRequest {
    VerifyCodeRequest { email: email.to_string(), code: code.to_string() }
}

#[test]
fn right_code_signs_in() {
    let users = vec![user(1, "lex@example.com")];
    let codes = vec![code_row(10, "lex@example.com", "123456", NOW.micros + 1, 0, 5)];
    let out = AuthService::verify_code_checked(&codes, &users, &request("LEX@example.com", "123456"), NOW, b"s").unwrap();
    assert!(out.failed_attempt.is_none());
    let r = out.result.unwrap();
    assert_eq!(r.user, users[0]);
    assert_eq!(r.expires_in, 900);
    assert!(!r.access_token.is_empty());
}

#[test]
fn wrong_code_counts_an_attempt() {
    let users = vec![user(1, "lex@example.com")];
    let codes = vec![code_row(10, "lex@example.com", "123456", NOW.micros + 1, 2, 5)];
    let out = AuthService::verify_code_checked(&codes, &users, &request("lex@example.com", "111111"), NOW, b"s").unwrap();
    assert_eq!(out.failed_attempt, Some((10, 3)));
    match out.result {
        Err(AppError::Custom(m)) => assert_eq!(m, "Неправильно введен код!"),
        _ => panic!("expected the wrong-code answer"),
    }
}

#[test]
fn dead_codes_are_ignored() {
    let users = vec![user(1, "lex@example.com")];
    let expired = vec![code_row(10, "lex@example.com", "123456", NOW.micros, 0, 5)];
    let out = AuthService::verify_code_checked(&expired, &users, &request("lex@example.com", "123456"), NOW, b"s").unwrap();
    assert!(matches!(out.result, Err(AppError::WrongCredentials)));
    assert!(out.failed_attempt.is_none());
    let exhausted = vec![code_row(10, "lex@example.com", "123456", NOW.micros + 1, 4, 5)];
    let out = AuthService::verify_code_checked(&exhausted, &users, &request("lex@example.com", "123456"), NOW, b"s").unwrap();
    assert!(matches!(out.result, Err(AppError::WrongCredentials)));
    let other = vec![code_row(10, "other@example.com", "123456", NOW.micros + 1, 0, 5)];
    let out = AuthService::verify_code_checked(&other, &users, &request("lex@example.com", "123456"), NOW, b"s").unwrap();
    assert!(matches!(out.result, Err(AppError::WrongCredentials)));
    let third_failure_allowed = vec![code_row(10, "lex@example.com", "123456", NOW.micros + 1, 3, 5)];
    let out = AuthService::verify_code_checked(&third_failure_allowed, &users, &request("lex@example.com", "123456"), NOW, b"s").unwrap();
    assert!(out.result.is_ok());
}

#[test]
fn newest_code_decides() {
    let users = vec![user(1, "lex@example.com")];
    let codes = vec![
        code_row(10, "lex@example.com", "111111", NOW.micros + 1, 0, 5),
        code_row(11, "lex@example.com", "222222", NOW.micros + 1, 0, 9),
        code_row(12, "lex@example.com", "333333", NOW.micros + 1, 0, 7),
    ];
    let out = AuthService::verify_code_checked(&codes, &users, &request("lex@example.com", "111111"), NOW, b"s").unwrap();
    assert_eq!(out.failed_attempt, Some((11, 1)));
    let out = AuthService::verify_code_checked(&codes, &users, &request("lex@example.com", "222222"), NOW, b"s").unwrap();
    assert!(out.result.is_ok());
}

#[test]
fn verified_code_without_user_is_not_found() {
    let codes = vec![code_row(10, "lex@example.com", "123456", NOW.micros + 1, 0, 5)];
    let out = AuthService::verify_code_checked(&codes, &vec![], &request("lex@example.com", "123456"), NOW, b"s").unwrap();
    assert!(matches!(out.result, Err(AppError::NotFound)));
    assert!(out.failed_attempt.is_none());
}

#[test]
fn unreadable_stored_code_is_refused_by_the_checked_entry() {
    let mut row = code_row(10, "lex@example.com", "123456", NOW.micros + 1, 0, 5);
    row.code = "plain".to_string();
    let users = vec![user(1, "lex@example.com")];
    assert!(AuthService::verify_code_checked(&vec![row.clone()], &users, &request("lex@example.com", "123456"), NOW, b"s").is_none());
    // only the newest live code is read: an older unreadable one does not matter
    let newer = code_row(11, "lex@example.com", "123456", NOW.micros + 1, 0, 9);
    let out = AuthService::verify_code_checked(&vec![row.clone(), newer.clone()], &users, &request("lex@example.com", "123456"), NOW, b"s")
        .unwrap();
    assert!(out.result.is_ok());
    let out = AuthService::verify_code_checked(&vec![row, newer], &users, &request("lex@example.com", "000000"), NOW, b"s").unwrap();
    assert_eq!(out.failed_attempt, Some((11, 1)));
    let good = vec![code_row(10, "lex@example.com", "123456", NOW.micros + 1, 0, 5)];
    let out = AuthService::verify_code_checked(&good, &users, &request("lex@example.com", "123456"), NOW, b"s").unwrap();
    assert!(out.result.is_ok());
    let later = vec![code_row(10, "lex@example.com", "123456", i64::MAX, 0, 5)];
    let (_, out) = AuthService::verify_code(&later, &users, &request("lex@example.com", "123456"), b"s");
    assert!(out.unwrap().result.is_ok());
}

fn token_for(sub: u128, t: TokenType, now_secs: i64) -> String {
    let pair = build_token_pair_at(sub, "Lex".to_string(), "lex@example.com".to_string(), "@lex".to_string(), now_secs, b"s")
        .unwrap();
    match t {
        TokenType::Access => pair.access_token,
        TokenType::Refresh => pair.refresh_token,
    }
}

#[test]
fn refresh_issues_a_new_pair() {
    let users = vec![user(1, "lex@example.com")];
    let token = token_for(1, TokenType::Refresh, NOW.secs);
    let r = AuthService::refresh_at(&token, &users, NOW.secs, b"s").unwrap();
    assert_eq!(r.expires_in, 900);
    assert_eq!(decode_token_at(&r.access_token, b"s", TokenType::Access, NOW.secs).unwrap().sub, 1);
    assert!(matches!(
        AuthService::refresh_at(&token_for(2, TokenType::Refresh, NOW.secs), &users, NOW.secs, b"s"),
        Err(AppError::NotFound)
    ));
    assert!(matches!(
        AuthService::refresh_at(&token_for(1, TokenType::Access, NOW.secs), &users, NOW.secs, b"s"),
        Err(AppError::InvalidToken)
    ));
    assert!(matches!(AuthService::refresh_at("not.a.token", &users, NOW.secs, b"s"), Err(AppError::InvalidToken)));
    assert!(matches!(AuthService::refresh_at(&token, &users, NOW.secs, b"other"), Err(AppError::InvalidToken)));
    // seven days and a minute later the refresh token has expired
    assert!(matches!(
        AuthService::refresh_at(&token, &users, NOW.secs + 604_800 + 61, b"s"),
        Err(AppError::InvalidToken)
    ));
    assert!(AuthService::refresh_at(&token, &users, NOW.secs + 604_800 + 60, b"s").is_ok());
}

#[test]
fn registration_checks_the_address_format() {
    for good in [
        "a@b",
        "lex@example.com",
        "Lex.Tester+tag@mail-1.example.co",
        "!#$%&'*+/=?^_`{|}~-@x9.y",
    ] {
        assert!(email_format_ok(good), "{good}");
    }
    let long_label = format!("a@{}.com", "b".repeat(63));
    assert!(email_format_ok(&long_label));
    let too_long = format!("a@{}.com", "b".repeat(64));
    assert!(!email_format_ok(&too_long));
    for bad in [
        "",
        "@example.com",
        "lex",
        "lex@",
        "lex@@example.com",
        "lex@exa@mple.com",
        "lex@.example.com",
        "lex@example.com.",
        "lex@example..com",
        "lex@-example.com",
        "lex@example-.com",
        "lex@exa_mple.com",
        "le x@example.com",
        "lex@example.com ",
        "лекс@example.com",
        "lex(a)@example.com",
    ] {
        assert!(!email_format_ok(bad), "{bad}");
    }
    match AuthService::register(&vec![], registration("L", "not-an-address", "ab")) {
        Err(AppError::ValidationError(f)) => {
            let names: Vec<&str> = f.iter().map(|e| e.field.as_str()).collect();
            assert_eq!(names, vec!["email", "name", "nickname"]);
            assert_eq!(f[0].messages, vec!["Email must be a valid address".to_string()]);
        }
        _ => panic!("expected a validation error"),
    }
    match AuthService::register(&vec![], registration("Lex", "lex@example", "lex")) {
        Ok(u) => assert_eq!(u.email, "lex@example"),
        _ => panic!("a one-label domain is an address"),
    }
}
