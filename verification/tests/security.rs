use telegramka_api::error::AppError;
use telegramka_api::jwt::claims_from_json;
use telegramka_api::security::{
    bearer_token, build_token_pair, build_token_pair_at, claims_to_json, decode_refresh_token, decode_token_at,
    hash_password, try_verify_password, verify_password, Claims, TokenType, ACCESS_TTL_SECS, REFRESH_TTL_SECS,
};

fn claims(t: TokenType) -> Claims {
    Claims {
        sub: 0x67e55044_10b1_426f_9247_bb680e5fe0c8,
        email: "lex@example.com".to_string(),
        name: "Lex \"the\" \\ Tester\n".to_string(),
        nickname: "@lex".to_string(),
        exp: 1760000900,
        iat: 1760000000,
        token_type: t,
    }
}

#[test]
fn claims_json_is_serde_shaped() {
    let json = claims_to_json(&claims(TokenType::Access));
    assert_eq!(
        json,
        "{\"sub\":\"67e55044-10b1-426f-9247-bb680e5fe0c8\",\"email\":\"lex@example.com\",\"name\":\"Lex \\\"the\\\" \\\\ Tester\\n\",\"nickname\":\"@lex\",\"exp\":1760000900,\"iat\":1760000000,\"token_type\":\"Access\"}"
    );
    let v: serde_json::Value = serde_json::from_str(&json).unwrap();
    assert_eq!(v["name"], "Lex \"the\" \\ Tester\n");
    let r = claims_to_json(&claims(TokenType::Refresh));
    assert!(r.ends_with("\"token_type\":\"Refresh\"}"));
    let ctl = Claims { name: "a\u{1}b\u{7f}".to_string(), ..claims(TokenType::Access) };
    let j = claims_to_json(&ctl);
    assert!(j.contains("\"name\":\"a\\u0001b\u{7f}\""));
    let v: serde_json::Value = serde_json::from_str(&j).unwrap();
    assert_eq!(v["name"], "a\u{1}b\u{7f}");
}

fn decode_value(token: &str, secret: &[u8]) -> serde_json::Value {
    let key = jsonwebtoken::DecodingKey::from_secret(secret);
    jsonwebtoken::decode::<serde_json::Value>(token, &key, &jsonwebtoken::Validation::new(jsonwebtoken::Algorithm::HS256))
        .unwrap()
        .claims
}

#[test]
fn token_pair_carries_the_user_and_expiries() {
    let now_secs: i64 = 4_000_000_000;
    let secret = b"test-secret";
    let pair = build_token_pair_at(42, "Lex".to_string(), "lex@example.com".to_string(), "@lex".to_string(), now_secs, secret)
        .unwrap();
    assert_eq!(pair.expires_in, ACCESS_TTL_SECS as usize);
    let access = decode_value(&pair.access_token, secret);
    assert_eq!(access["sub"], "00000000-0000-0000-0000-00000000002a");
    assert_eq!(access["email"], "lex@example.com");
    assert_eq!(access["name"], "Lex");
    assert_eq!(access["nickname"], "@lex");
    assert_eq!(access["iat"], now_secs);
    assert_eq!(access["exp"], now_secs + ACCESS_TTL_SECS);
    assert_eq!(access["token_type"], "Access");
    let refresh = decode_value(&pair.refresh_token, secret);
    assert_eq!(refresh["exp"], now_secs + REFRESH_TTL_SECS);
    assert_eq!(refresh["token_type"], "Refresh");
    assert_ne!(pair.access_token, pair.refresh_token);
    let wrong_key = jsonwebtoken::DecodingKey::from_secret(b"other");
    assert!(jsonwebtoken::decode::<serde_json::Value>(
        &pair.access_token,
        &wrong_key,
        &jsonwebtoken::Validation::new(jsonwebtoken::Algorithm::HS256)
    )
    .is_err());
}

#[test]
fn token_pair_now_uses_the_clock() {
    let (now, pair) = build_token_pair(7, "A".to_string(), "a@b.c".to_string(), "@a".to_string(), b"k");
    let pair = pair.unwrap();
    assert_eq!(pair.expires_in, 900);
    let v = decode_value(&pair.refresh_token, b"k");
    assert_eq!(v["iat"], now.secs);
}

#[test]
fn token_types_are_checked() {
    let now: i64 = 4_000_000_000;
    let pair = build_token_pair_at(42, "Lex".to_string(), "lex@example.com".to_string(), "@lex".to_string(), now, b"k").unwrap();
    let access = decode_token_at(&pair.access_token, b"k", TokenType::Access, now).unwrap();
    assert_eq!(access.sub, 42);
    assert_eq!(access.email, "lex@example.com");
    assert_eq!(access.name, "Lex");
    assert_eq!(access.nickname, "@lex");
    assert_eq!(access.iat, now as usize);
    assert_eq!(access.exp, (now + 900) as usize);
    assert_eq!(access.token_type, TokenType::Access);
    assert!(matches!(decode_token_at(&pair.access_token, b"k", TokenType::Refresh, now), Err(AppError::InvalidToken)));
    assert!(matches!(decode_token_at(&pair.refresh_token, b"k", TokenType::Access, now), Err(AppError::InvalidToken)));
    assert_eq!(decode_token_at(&pair.refresh_token, b"k", TokenType::Refresh, now).unwrap().exp, (now + 604_800) as usize);
    assert!(matches!(decode_token_at(&pair.access_token, b"x", TokenType::Access, now), Err(AppError::InvalidToken)));
    assert!(matches!(decode_token_at("garbage", b"k", TokenType::Access, now), Err(AppError::InvalidToken)));
    // one minute of leeway past the expiry
    assert!(decode_token_at(&pair.access_token, b"k", TokenType::Access, now + 960).is_ok());
    assert!(matches!(decode_token_at(&pair.access_token, b"k", TokenType::Access, now + 961), Err(AppError::InvalidToken)));
    let (_, r) = decode_refresh_token(&pair.refresh_token, b"k");
    assert_eq!(r.unwrap().sub, 42);
}

#[test]
fn claims_text_reads_back() {
    for name in ["Lex \"the\" \\ Tester\n", "a\u{1}b\u{7f}\u{8}\u{c}\r\t", "Живая Легенда 😀", ""] {
        let c = Claims { name: name.to_string(), ..claims(TokenType::Refresh) };
        let back = claims_from_json(&claims_to_json(&c)).unwrap();
        assert_eq!(back, c);
    }
    let text = claims_to_json(&claims(TokenType::Access));
    assert!(claims_from_json(&text[..text.len() - 1]).is_none());
    assert!(claims_from_json("{}").is_none());
}

#[test]
fn claims_read_in_any_order_and_spacing() {
    let want = Claims { name: "Lex".to_string(), ..claims(TokenType::Refresh) };
    let spaced = " {\n  \"token_type\" : \"Refresh\",\r\n\t\"iat\":1760000000 , \"exp\": 1760000900,\
        \"nickname\":\"@lex\", \"name\":\"L\\u0065\\/x\"\n, \"email\":\"lex@example.com\",\
        \"sub\":\"67E55044-10B1-426F-9247-BB680E5FE0C8\" }\n";
    let v: serde_json::Value = serde_json::from_str(spaced).unwrap();
    assert_eq!(v["name"], "Le/x");
    let got = claims_from_json(spaced).unwrap();
    assert_eq!(got, Claims { name: "Le/x".to_string(), ..want.clone() });
    let text = claims_to_json(&want);
    assert_eq!(claims_from_json(&text.replace(",", " , ").replace(":", ": ")).unwrap(), want);
}

#[test]
fn claims_text_refusals() {
    let text = claims_to_json(&claims(TokenType::Access));
    let dup = text.replace("}", ",\"iat\":1}");
    assert!(claims_from_json(&dup).is_none());
    let missing = text.replace(",\"iat\":1760000000", "");
    assert!(claims_from_json(&missing).is_none());
    assert!(claims_from_json(&text.replace("1760000000", "01760000000")).is_none());
    assert!(claims_from_json(&text.replace("1760000000", "-1")).is_none());
    assert!(claims_from_json(&text.replace("1760000000", "1.5")).is_none());
    assert!(claims_from_json(&text.replace("\"Access\"", "\"access\"")).is_none());
    assert!(claims_from_json(&format!("{} x", text)).is_none());
    assert!(claims_from_json(&format!("[{}]", text)).is_none());
    assert!(claims_from_json(&text.replace("{", "{,")).is_none());
    assert!(claims_from_json(&text.replace("}", ",}")).is_none());
    assert!(claims_from_json(&text.replace("lex@example.com", "a\u{1}b")).is_none());
}

#[test]
fn bearer_headers() {
    assert_eq!(bearer_token(Some("Bearer abc.def")).unwrap(), "abc.def");
    assert_eq!(bearer_token(Some("Bearer ")).unwrap(), "");
    assert!(matches!(bearer_token(Some("bearer abc")), Err(AppError::WrongCredentials)));
    assert!(matches!(bearer_token(Some("Bearer")), Err(AppError::WrongCredentials)));
    assert!(matches!(bearer_token(Some("Basic abc")), Err(AppError::WrongCredentials)));
    assert!(matches!(bearer_token(None), Err(AppError::WrongCredentials)));
}

#[test]
fn hashed_password_verifies() {
    let h = hash_password("123456").unwrap();
    assert!(h.starts_with("$argon2id$"));
    assert!(verify_password(&h, "123456"));
    assert!(!verify_password(&h, "654321"));
    let h2 = hash_password("123456").unwrap();
    assert_ne!(h, h2);
    assert_eq!(try_verify_password(&h, "123456"), Some(true));
    assert_eq!(try_verify_password("not a hash", "123456"), None);
}

#[test]
fn token_with_sorted_members_decodes() {
    let mut m = serde_json::Map::new();
    m.insert("token_type".to_string(), serde_json::Value::from("Access"));
    m.insert("sub".to_string(), serde_json::Value::from("67e55044-10b1-426f-9247-bb680e5fe0c8"));
    m.insert("nickname".to_string(), serde_json::Value::from("@lex"));
    m.insert("name".to_string(), serde_json::Value::from("Lex"));
    m.insert("iat".to_string(), serde_json::Value::from(1760000000u64));
    m.insert("exp".to_string(), serde_json::Value::from(1760000900u64));
    m.insert("email".to_string(), serde_json::Value::from("lex@example.com"));
    let payload = serde_json::Value::Object(m);
    let token = jsonwebtoken::encode(
        &jsonwebtoken::Header::default(),
        &payload,
        &jsonwebtoken::EncodingKey::from_secret(b"k"),
    )
    .unwrap();
    let got = decode_token_at(&token, b"k", TokenType::Access, 1760000100).unwrap();
    assert_eq!(got, Claims { name: "Lex".to_string(), ..claims(TokenType::Access) });
    assert!(matches!(decode_token_at(&token, b"k", TokenType::Refresh, 1760000100), Err(AppError::InvalidToken)));
}

#[test]
fn claims_subject_in_each_uuid_form() {
    let want = claims(TokenType::Access);
    let text = claims_to_json(&want);
    let hyphenated = "67e55044-10b1-426f-9247-bb680e5fe0c8";
    for form in [
        "67e5504410b1426f9247bb680e5fe0c8",
        "67E55044-10B1-426F-9247-BB680E5FE0C8",
        "{67e55044-10b1-426f-9247-bb680e5fe0c8}",
        "urn:uuid:67e55044-10b1-426f-9247-bb680e5fe0c8",
        "URN:Uuid:67e55044-10b1-426f-9247-bb680e5fe0c8",
    ] {
        assert_eq!(uuid::Uuid::parse_str(form).unwrap().as_u128(), want.sub);
        assert_eq!(claims_from_json(&text.replace(hyphenated, form)).unwrap(), want);
    }
    for bad in [
        "67e55044-10b1-426f-9247-bb680e5fe0c",
        "67e55044_10b1-426f-9247-bb680e5fe0c8",
        "67e55044-10b1-426f-9247-bb680e5fe0cg",
        "(67e55044-10b1-426f-9247-bb680e5fe0c8)",
        "urn:uid::67e55044-10b1-426f-9247-bb680e5fe0c8",
    ] {
        assert!(uuid::Uuid::parse_str(bad).is_err());
        assert!(claims_from_json(&text.replace(hyphenated, bad)).is_none());
    }
}

#[test]
fn claims_pass_over_other_members() {
    let want = claims(TokenType::Access);
    let text = claims_to_json(&want);
    for extra in [
        "\"jti\":\"a\\\"b\"",
        "\"n\":null,\"t\":true,\"f\":false",
        "\"nums\":[0,-1,2.5,-0.0e+3,7E-2,10]",
        "\"deep\":{\"a\":[[],{},{\"b\":[1,{\"c\":\"}\"}]}],\"d\" : { }}",
        "\"empty\":[ ]",
    ] {
        let with = text.replacen("{", &format!("{{{},", extra), 1);
        assert!(serde_json::from_str::<serde_json::Value>(&with).is_ok());
        assert_eq!(claims_from_json(&with).unwrap(), want);
        let at_end = format!("{},{}}}", &text[..text.len() - 1], extra);
        assert_eq!(claims_from_json(&at_end).unwrap(), want);
    }
    for bad in [
        "\"x\":tru",
        "\"x\":01",
        "\"x\":1.",
        "\"x\":1e",
        "\"x\":-",
        "\"x\":[1,]",
        "\"x\":{\"a\" 1}",
        "\"x\":{\"a\":1,}",
        "\"x\":[1 2]",
        "\"x\":'a'",
        "\"x\"",
    ] {
        let with = text.replacen("{", &format!("{{{},", bad), 1);
        assert!(serde_json::from_str::<serde_json::Value>(&with).is_err());
        assert!(claims_from_json(&with).is_none());
    }
}

#[test]
fn claims_read_unicode_escapes() {
    let want = claims(TokenType::Access);
    let text = claims_to_json(&want);
    let escaped = text.replace("@lex", "\\u0416\\u00e9\\ud83d\\ude00\\u001f");
    let v: serde_json::Value = serde_json::from_str(&escaped).unwrap();
    assert_eq!(v["nickname"], "Жé😀\u{1f}");
    let got = claims_from_json(&escaped).unwrap();
    assert_eq!(got, Claims { nickname: "Жé😀\u{1f}".to_string(), ..want.clone() });
    for lone in ["\\ud83d", "\\ude00", "\\ud83dx", "\\ud83d\\u0041", "\\u12g4"] {
        let bad = text.replace("@lex", lone);
        assert!(serde_json::from_str::<serde_json::Value>(&bad).is_err());
        assert!(claims_from_json(&bad).is_none());
    }
    let passed_over = text.replacen("{", "{\"x\":\"\\ud83d \\ude00\",", 1);
    assert!(serde_json::from_str::<serde::de::IgnoredAny>(&passed_over).is_ok());
    assert_eq!(claims_from_json(&passed_over).unwrap(), want);
}
