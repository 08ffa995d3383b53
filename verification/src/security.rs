//! Access and refresh tokens, bearer headers, and password (code) hashing.

use vstd::prelude::*;
use crate::clock::{utc_now, Instant};
use crate::error::AppError;
use argon2::password_hash::{PasswordHasher, PasswordVerifier};
use crate::jwt::{claims_fields, claims_from_json, lemma_parse_claims, parse_claims};
use crate::text::{decimal, format_u64, format_uuid, json_string, push_json_string, uuid_text, chars_of};

verus! {

/// Access tokens are valid for fifteen minutes.
pub const ACCESS_TTL_SECS: i64 = 900;

/// Refresh tokens are valid for seven days.
pub const REFRESH_TTL_SECS: i64 = 604800;

#[derive(Clone, Copy, Debug, PartialEq, Eq, Structural)]
pub enum TokenType {
    Access,
    Refresh,
}

/// What a token says about its holder.
#[derive(Clone, Debug, PartialEq, Eq)]
pub struct Claims {
    pub sub: u128,
    pub email: String,
    pub name: String,
    pub nickname: String,
    pub exp: usize,
    pub iat: usize,
    pub token_type: TokenType,
}

#[derive(Clone, Debug, PartialEq, Eq)]
pub struct TokenPair {
    pub access_token: String,
    pub refresh_token: String,
    pub expires_in: usize,
}

/// The name a token type is written with in a token.
pub open spec fn token_type_name(t: TokenType) -> Seq<char> {
    match t {
        TokenType::Access => "Access"@,
        TokenType::Refresh => "Refresh"@,
    }
}

/// The JSON text of a token's claims, fields in declaration order.
pub open spec fn claims_json(c: Claims) -> Seq<char> {
    "{\"sub\":"@ + json_string(uuid_text(c.sub)) + ",\"email\":"@ + json_string(c.email@)
        + ",\"name\":"@ + json_string(c.name@) + ",\"nickname\":"@ + json_string(c.nickname@)
        + ",\"exp\":"@ + decimal(c.exp as nat) + ",\"iat\":"@ + decimal(c.iat as nat)
        + ",\"token_type\":"@ + json_string(token_type_name(c.token_type)) + "}"@
}

/// The token that `jsonwebtoken::encode` makes with an HS256 header, over the
/// claims whose JSON text is `payload`, signed with `secret`.
pub uninterp spec fn jwt_hs256(payload: Seq<char>, secret: Seq<u8>) -> Seq<char>;

/// `jsonwebtoken::encode` with `Header::new(Algorithm::HS256)` and
/// `EncodingKey::from_secret(secret)`, over claims handed over as JSON text
/// (`serde_json::value::RawValue`, which is written out unchanged). Claimed:
/// a token it returns is a function of the text and the secret alone, named
/// `jwt_hs256` (the HMAC-SHA256 signing itself is left unstated); and it
/// succeeds on the JSON text of claims: that text is valid JSON, which is all
/// `RawValue::from_string` checks, writing a `RawValue` cannot fail, and
/// HMAC-SHA256 signing (the `rust_crypto` provider) accepts any key.
#[verifier::external_body]
fn encode_hs256(payload: String, secret: &[u8]) -> (res: Option<String>)
    ensures
        res matches Some(t) ==> t@ == jwt_hs256(payload@, secret@),
        (exists|c: Claims| payload@ == #[trigger] claims_json(c)) ==> res is Some,
{
    let raw = match serde_json::value::RawValue::from_string(payload) {
        Ok(raw) => raw,
        Err(_) => return None,
    };
    let header = jsonwebtoken::Header::new(jsonwebtoken::Algorithm::HS256);
    jsonwebtoken::encode(&header, &raw, &jsonwebtoken::EncodingKey::from_secret(secret)).ok()
}

fn push_str(out: &mut Vec<char>, s: &str)
    ensures
        final(out)@ == old(out)@ + s@,
{
    let mut cs = chars_of(s);
    out.append(&mut cs);
}

/// The JSON text of the claims.
pub fn claims_to_json(c: &Claims) -> (s: String)
    ensures
        s@ == claims_json(*c),
{
    let mut out: Vec<char> = Vec::new();
    push_str(&mut out, "{\"sub\":");
    push_json_string(&mut out, format_uuid(c.sub).as_str());
    push_str(&mut out, ",\"email\":");
    push_json_string(&mut out, c.email.as_str());
    push_str(&mut out, ",\"name\":");
    push_json_string(&mut out, c.name.as_str());
    push_str(&mut out, ",\"nickname\":");
    push_json_string(&mut out, c.nickname.as_str());
    push_str(&mut out, ",\"exp\":");
    push_str(&mut out, format_u64(c.exp as u64).as_str());
    push_str(&mut out, ",\"iat\":");
    push_str(&mut out, format_u64(c.iat as u64).as_str());
    push_str(&mut out, ",\"token_type\":");
    match c.token_type {
        TokenType::Access => push_json_string(&mut out, "Access"),
        TokenType::Refresh => push_json_string(&mut out, "Refresh"),
    }
    push_str(&mut out, "}");
    crate::text::string_from_chars(&out)
}

/// The claims of the token pair issued at `now_secs` for a user.
pub open spec fn token_claims(
    id: u128,
    name: Seq<char>,
    email: Seq<char>,
    nickname: Seq<char>,
    c: Claims,
    now_secs: i64,
    token_type: TokenType,
) -> bool {
    &&& c.sub == id
    &&& c.name@ == name
    &&& c.email@ == email
    &&& c.nickname@ == nickname
    &&& c.iat == now_secs as usize
    &&& c.exp == (now_secs + match token_type {
        TokenType::Access => ACCESS_TTL_SECS,
        TokenType::Refresh => REFRESH_TTL_SECS,
    }) as usize
    &&& c.token_type == token_type
}

/// The token of the given type issued at `now_secs` for a user.
pub open spec fn issued_token(
    id: u128,
    name: Seq<char>,
    email: Seq<char>,
    nickname: Seq<char>,
    now_secs: i64,
    token_type: TokenType,
    secret: Seq<u8>,
    token: Seq<char>,
) -> bool {
    exists|c: Claims|
        token_claims(id, name, email, nickname, c, now_secs, token_type) && token == jwt_hs256(
            #[trigger] claims_json(c),
            secret,
        )
}

/// What `build_token_pair_at` promises of its result: both tokens carry the
/// user and the issue time, the access token expires after fifteen minutes and
/// the refresh token after seven days, and `expires_in` is the access token's
/// lifetime in seconds. (`build_token_pair_at` always succeeds; the `Err`
/// case is kept for the clock's out-of-range instants.)
pub open spec fn token_pair_issued(
    id: u128,
    name: Seq<char>,
    email: Seq<char>,
    nickname: Seq<char>,
    now_secs: i64,
    secret: Seq<u8>,
    res: Result<TokenPair, AppError>,
) -> bool {
    match res {
        Ok(p) => {
            &&& issued_token(id, name, email, nickname, now_secs, TokenType::Access, secret, p.access_token@)
            &&& issued_token(id, name, email, nickname, now_secs, TokenType::Refresh, secret, p.refresh_token@)
            &&& p.expires_in == ACCESS_TTL_SECS as usize
        },
        Err(e) => e is TokenCreation,
    }
}

/// Issues an access and a refresh token for a user at the instant `now_secs`.
pub fn build_token_pair_at(
    id: u128,
    name: String,
    email: String,
    nickname: String,
    now_secs: i64,
    secret: &[u8],
) -> (res: Result<TokenPair, AppError>)
    requires
        now_secs + REFRESH_TTL_SECS <= i64::MAX,
    ensures
        res is Ok,
        token_pair_issued(id, name@, email@, nickname@, now_secs, secret@, res),
{
    let iat = now_secs as usize;
    let access_exp = (now_secs + ACCESS_TTL_SECS) as usize;
    let refresh_exp = (now_secs + REFRESH_TTL_SECS) as usize;
    let access_claims = Claims {
        sub: id,
        email: email.clone(),
        name: name.clone(),
        nickname: nickname.clone(),
        exp: access_exp,
        iat,
        token_type: TokenType::Access,
    };
    let refresh_claims = Claims {
        sub: id,
        email,
        name,
        nickname,
        exp: refresh_exp,
        iat,
        token_type: TokenType::Refresh,
    };
    let access_json = claims_to_json(&access_claims);
    assert(access_json@ == claims_json(access_claims));
    let access_token = match encode_hs256(access_json, secret) {
        Some(t) => t,
        None => return Err(AppError::TokenCreation),
    };
    let refresh_json = claims_to_json(&refresh_claims);
    assert(refresh_json@ == claims_json(refresh_claims));
    let refresh_token = match encode_hs256(refresh_json, secret) {
        Some(t) => t,
        None => return Err(AppError::TokenCreation),
    };
    Ok(TokenPair { access_token, refresh_token, expires_in: ACCESS_TTL_SECS as usize })
}

/// Issues an access and a refresh token for a user, now.
pub fn build_token_pair(id: u128, name: String, email: String, nickname: String, secret: &[u8]) -> (res: (
    Instant,
    Result<TokenPair, AppError>,
))
    ensures
        res.0.secs + REFRESH_TTL_SECS <= i64::MAX ==> res.1 is Ok,
        res.0.secs + REFRESH_TTL_SECS <= i64::MAX ==> token_pair_issued(
            id,
            name@,
            email@,
            nickname@,
            res.0.secs,
            secret@,
            res.1,
        ),
        res.0.secs + REFRESH_TTL_SECS > i64::MAX ==> res.1 == Err::<TokenPair, AppError>(AppError::TokenCreation),
{
    let now = utc_now();
    if now.secs > i64::MAX - REFRESH_TTL_SECS {
        return (now, Err(AppError::TokenCreation));
    }
    (now, build_token_pair_at(id, name, email, nickname, now.secs, secret))
}

/// The claims text that `jsonwebtoken::decode` reads from `token` when the
/// token is well formed and its HS256 signature checks against `secret`
/// (expiry aside).
pub uninterp spec fn jwt_payload(token: Seq<char>, secret: Seq<u8>) -> Option<Seq<char>>;

/// `jsonwebtoken::decode` with `Validation::new(Algorithm::HS256)` but its
/// expiry check switched off (that check reads the clock and is made by the
/// caller), into a `serde_json::value::RawValue` that keeps the claims text
/// as it was signed. Claimed: the text is a function of the token and the
/// secret alone, named `jwt_payload`; and a token that `encode_hs256` made
/// from the JSON text of claims with the same secret gives that text back:
/// its header is `{"typ":"JWT","alg":"HS256"}`, the signature recomputes,
/// the payload is the base64 of the text, whose `exp` claim is present.
#[verifier::external_body]
fn decode_hs256(token: &str, secret: &[u8]) -> (res: Option<String>)
    ensures
        res matches Some(p) ==> jwt_payload(token@, secret@) == Some(p@),
        res is None ==> jwt_payload(token@, secret@) is None,
        res is None ==> forall|c: Claims| token@ != #[trigger] jwt_hs256(claims_json(c), secret@),
        res matches Some(p) ==> forall|c: Claims| token@ == #[trigger] jwt_hs256(claims_json(c), secret@) ==> p@ == claims_json(c),
{
    let mut validation = jsonwebtoken::Validation::new(jsonwebtoken::Algorithm::HS256);
    validation.validate_exp = false;
    let key = jsonwebtoken::DecodingKey::from_secret(secret);
    match jsonwebtoken::decode::<Box<serde_json::value::RawValue>>(token, &key, &validation) {
        Ok(data) => Some(data.claims.get().to_string()),
        Err(_) => None,
    }
}

/// Seconds of leeway on a token's expiry.
pub const EXPIRY_LEEWAY_SECS: i64 = 60;

/// What a token is accepted as at `now_secs` when a token of type
/// `expected` is asked for: the fields of its claims when its signature and
/// format check, it is of that type and it expired no more than a minute
/// ago; else nothing.
pub open spec fn token_verdict(
    token: Seq<char>,
    secret: Seq<u8>,
    expected: TokenType,
    now_secs: i64,
) -> Option<(u128, Seq<char>, Seq<char>, Seq<char>, usize, usize, TokenType)> {
    match jwt_payload(token, secret) {
        None => None,
        Some(p) => match parse_claims(p) {
            None => None,
            Some(f) => if f.6 == expected && f.4 >= now_secs - EXPIRY_LEEWAY_SECS {
                Some(f)
            } else {
                None
            },
        },
    }
}

/// The claims of a token of type `expected` at `now_secs`; a token whose
/// signature, format, type or expiry does not check is `InvalidToken`. A
/// token issued for claims `c` with the same secret reads back as `c`.
pub fn decode_token_at(token: &str, secret: &[u8], expected: TokenType, now_secs: i64) -> (res: Result<Claims, AppError>)
    ensures
        match token_verdict(token@, secret@, expected, now_secs) {
            Some(f) => res matches Ok(c) && claims_fields(c) == f,
            None => res matches Err(e) && e is InvalidToken,
        },
        forall|c: Claims|
            token@ == #[trigger] jwt_hs256(claims_json(c), secret@) && c.token_type == expected && c.exp
                >= now_secs - EXPIRY_LEEWAY_SECS ==> (res matches Ok(d) && claims_fields(d) == claims_fields(c)),
        forall|c: Claims|
            token@ == #[trigger] jwt_hs256(claims_json(c), secret@) && c.token_type != expected ==> (res matches Err(
                e,
            ) && e is InvalidToken),
{
    let payload = match decode_hs256(token, secret) {
        Some(p) => p,
        None => return Err(AppError::InvalidToken),
    };
    proof {
        assert forall|c: Claims| token@ == #[trigger] jwt_hs256(claims_json(c), secret@) implies parse_claims(payload@)
            == Some(claims_fields(c)) by {
            lemma_parse_claims(c);
        }
    }
    match claims_from_json(payload.as_str()) {
        None => Err(AppError::InvalidToken),
        Some(c) => {
            if c.token_type == expected && (c.exp as i128) >= (now_secs as i128) - (EXPIRY_LEEWAY_SECS as i128) {
                Ok(c)
            } else {
                Err(AppError::InvalidToken)
            }
        },
    }
}

/// The claims of a token of type `expected`, now; the instant used is
/// returned beside them. A token issued for claims `c` with the same secret
/// reads back as `c` while unexpired, and is refused if of the other type.
pub fn decode_token(token: &str, secret: &[u8], expected: TokenType) -> (res: (Instant, Result<Claims, AppError>))
    ensures
        match token_verdict(token@, secret@, expected, res.0.secs) {
            Some(f) => res.1 matches Ok(c) && claims_fields(c) == f,
            None => res.1 matches Err(e) && e is InvalidToken,
        },
        forall|c: Claims|
            token@ == #[trigger] jwt_hs256(claims_json(c), secret@) && c.token_type == expected && c.exp
                >= res.0.secs - EXPIRY_LEEWAY_SECS ==> (res.1 matches Ok(d) && claims_fields(d) == claims_fields(c)),
        forall|c: Claims|
            token@ == #[trigger] jwt_hs256(claims_json(c), secret@) && c.token_type != expected ==> (res.1 matches Err(
                e,
            ) && e is InvalidToken),
{
    let now = utc_now();
    (now, decode_token_at(token, secret, expected, now.secs))
}

/// The claims of a refresh token, now. A refresh token issued for claims
/// `c` with the same secret reads back as `c` until a minute after it
/// expires; an access token is refused.
pub fn decode_refresh_token(token: &str, secret: &[u8]) -> (res: (Instant, Result<Claims, AppError>))
    ensures
        match token_verdict(token@, secret@, TokenType::Refresh, res.0.secs) {
            Some(f) => res.1 matches Ok(c) && claims_fields(c) == f,
            None => res.1 matches Err(e) && e is InvalidToken,
        },
        forall|c: Claims|
            token@ == #[trigger] jwt_hs256(claims_json(c), secret@) && c.token_type == TokenType::Refresh && c.exp
                >= res.0.secs - EXPIRY_LEEWAY_SECS ==> (res.1 matches Ok(d) && claims_fields(d) == claims_fields(c)),
        forall|c: Claims|
            token@ == #[trigger] jwt_hs256(claims_json(c), secret@) && c.token_type != TokenType::Refresh ==> (res.1 matches Err(
                e,
            ) && e is InvalidToken),
{
    decode_token(token, secret, TokenType::Refresh)
}

/// The token of an `Authorization` header: what follows `"Bearer "`.
pub open spec fn bearer_of(header: Option<Seq<char>>) -> Option<Seq<char>> {
    match header {
        None => None,
        Some(h) => {
            let p = "Bearer "@;
            if p.len() <= h.len() && h.subrange(0, p.len() as int) == p {
                Some(h.subrange(p.len() as int, h.len() as int))
            } else {
                None
            }
        },
    }
}

/// The text of a header, if present.
pub open spec fn header_text(header: Option<&str>) -> Option<Seq<char>> {
    match header {
        Some(h) => Some(h@),
        None => None,
    }
}

/// The bearer token of a request: missing or malformed headers are
/// `WrongCredentials`.
pub fn bearer_token(header: Option<&str>) -> (res: Result<String, AppError>)
    ensures
        bearer_of(header_text(header)) matches Some(t) ==> (res matches Ok(s) && s@ == t),
        bearer_of(header_text(header)) is None ==> (res matches Err(e) && e is WrongCredentials),
{
    match header {
        None => Err(AppError::WrongCredentials),
        Some(h) => {
            let hs = chars_of(h);
            let p = chars_of("Bearer ");
            if p.len() > hs.len() {
                assert(p@ == "Bearer "@);
                assert(bearer_of(header_text(header)) is None);
                return Err(AppError::WrongCredentials);
            }
            let mut i: usize = 0;
            while i < p.len()
                invariant
                    p@ == "Bearer "@,
                    hs@ == h@,
                    header_text(header) == Some(h@),
                    p@.len() <= hs@.len(),
                    i <= p@.len(),
                    forall|k: int| 0 <= k < i ==> hs@[k] == p@[k],
                decreases p@.len() - i,
            {
                if hs[i] != p[i] {
                    assert(hs@.subrange(0, p@.len() as int)[i as int] != p@[i as int]);
                    return Err(AppError::WrongCredentials);
                }
                i = i + 1;
            }
            assert(hs@.subrange(0, p@.len() as int) =~= p@);
            let mut rest: Vec<char> = Vec::new();
            let mut j = p.len();
            while j < hs.len()
                invariant
                    p@ == "Bearer "@,
                    hs@ == h@,
                    p@.len() <= j <= hs@.len(),
                    rest@ == hs@.subrange(p@.len() as int, j as int),
                decreases hs@.len() - j,
            {
                rest.push(hs[j]);
                assert(hs@.subrange(p@.len() as int, j + 1) == hs@.subrange(p@.len() as int, j as int).push(hs@[j as int]));
                j = j + 1;
            }
            Ok(crate::text::string_from_chars(&rest))
        },
    }
}

/// `PasswordHash::new` accepts `hash` as a PHC string.
pub uninterp spec fn phc_parses(hash: Seq<char>) -> bool;

/// `Argon2::default().verify_password` accepts `password` against the parsed `hash`.
pub uninterp spec fn argon2_accepts(hash: Seq<char>, password: Seq<char>) -> bool;

/// `SaltString::generate(&mut OsRng)` and `Argon2::default().hash_password`,
/// written as a PHC string. Claimed: the salt is random, so nothing fixes the
/// string; a string it returns parses back (`PasswordHash`'s `Display` and
/// `new` are inverse) and the same hasher accepts the password against it,
/// since `verify_password` recomputes the hash with the stored salt and
/// parameters. It succeeds whenever the password's UTF-8 form is at most
/// `MAX_PWD_LEN` (2^32 - 1) bytes, which a text of fewer than 2^30
/// characters is: the generated salt and the default parameters and output
/// length are all within Argon2's bounds.
#[verifier::external_body]
fn argon2_hash(password: &str) -> (res: Option<String>)
    ensures
        res matches Some(h) ==> phc_parses(h@) && argon2_accepts(h@, password@),
        password@.len() < 0x4000_0000 ==> res is Some,
{
    let salt = argon2::password_hash::SaltString::generate(&mut argon2::password_hash::rand_core::OsRng);
    match argon2::Argon2::default().hash_password(password.as_bytes(), &salt) {
        Ok(h) => Some(h.to_string()),
        Err(_) => None,
    }
}

/// `argon2::PasswordHash::new(hash).is_ok()`, named `phc_parses`.
#[verifier::external_body]
fn phc_hash_parses(hash: &str) -> (res: bool)
    ensures
        res == phc_parses(hash@),
{
    argon2::PasswordHash::new(hash).is_ok()
}

/// `Argon2::default().verify_password` of `password` against the parsed
/// `hash`, named `argon2_accepts`.
#[verifier::external_body]
fn argon2_verify(hash: &str, password: &str) -> (res: bool)
    requires
        phc_parses(hash@),
    ensures
        res == argon2_accepts(hash@, password@),
{
    match argon2::PasswordHash::new(hash) {
        Ok(parsed) => argon2::Argon2::default().verify_password(password.as_bytes(), &parsed).is_ok(),
        Err(_) => false,
    }
}

/// Whether a stored hash is a PHC string that `verify_password` can check.
pub fn stored_hash_parses(hash: &str) -> (res: bool)
    ensures
        res == phc_parses(hash@),
{
    phc_hash_parses(hash)
}

/// Hashes a password (or verification code) with Argon2 and a fresh salt. A
/// hash it returns verifies the same password; a hashing failure (only for
/// texts of 2^30 characters or more) is `InternalServerError`.
pub fn hash_password(password: &str) -> (res: Result<String, AppError>)
    ensures
        res matches Ok(h) ==> phc_parses(h@) && argon2_accepts(h@, password@),
        res matches Err(e) ==> e is InternalServerError,
        password@.len() < 0x4000_0000 ==> res is Ok,
{
    match argon2_hash(password) {
        Some(h) => Ok(h),
        None => Err(AppError::InternalServerError),
    }
}

/// Whether `password` matches the stored hash.
pub fn verify_password(hash: &str, password: &str) -> (res: bool)
    requires
        phc_parses(hash@),
    ensures
        res == argon2_accepts(hash@, password@),
{
    argon2_verify(hash, password)
}

/// Whether `password` matches the stored hash, or `None` when the stored
/// hash is not a PHC string.
pub fn try_verify_password(hash: &str, password: &str) -> (res: Option<bool>)
    ensures
        res is None <==> !phc_parses(hash@),
        res matches Some(b) ==> b == argon2_accepts(hash@, password@),
{
    if phc_hash_parses(hash) {
        Some(verify_password(hash, password))
    } else {
        None
    }
}

} // verus!
