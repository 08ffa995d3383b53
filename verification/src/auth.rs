//! Sign-in by e-mail code: issuing codes, checking them, and refreshing tokens.

use vstd::prelude::*;
use argon2::password_hash::rand_core::RngCore;
use crate::clock::{utc_now, Instant};
use crate::dtos::{CodeRow, RefreshResponse, RegisterRequest, UserDto, VerifyCodeRequest, VerifyCodeResponse};
use crate::error::{AppError, FieldErrors};
use crate::security::{
    argon2_accepts, build_token_pair_at, hash_password, phc_parses,
    token_pair_issued, try_verify_password, verify_password, token_verdict, decode_token_at, Claims, TokenPair, TokenType,
    REFRESH_TTL_SECS,
};
use crate::text::{chars_of, decimal, format_u64, lowercase, string_from_chars, to_lowercase, trim_chars, trimmed};
use crate::users::{find_user, text_eq, user_has_key, UserKey};
use crate::jwt::sub_chars;
use crate::security::stored_hash_parses;

verus! {

/// A verification code stays valid for ten minutes.
pub const CODE_TTL_MICROS: i64 = 600_000_000;

/// A code is refused once it has failed more than this many times.
pub const MAX_FAILED_ATTEMPTS: i32 = 3;

/// The code made of a random number: six decimal digits, 100000 to 999999.
pub open spec fn code_value(random: u32) -> nat {
    (100_000 + random % 900_000) as nat
}

/// The six-digit code for a random number.
pub fn verification_code(random: u32) -> (code: String)
    ensures
        code@ == decimal(code_value(random)),
{
    let n: u32 = 100_000 + random % 900_000;
    format_u64(n as u64)
}

/// `OsRng::next_u32`: a random number from the operating system. Nothing is
/// claimed of it.
#[verifier::external_body]
fn random_u32() -> u32 {
    argon2::password_hash::rand_core::OsRng.next_u32()
}

/// A code that was just issued: the code to mail, and the row to store.
#[derive(Debug)]
pub struct IssuedCode {
    /// The plain code, for the mail.
    pub code: String,
    /// The address it was issued for.
    pub email: String,
    /// The Argon2 hash of the code, which is what is stored.
    pub code_hash: String,
    pub expires_at: i64,
}

/// What issuing a code from `random` at `now_micros` for `email` gives.
pub open spec fn code_issued(email: Seq<char>, random: u32, now_micros: i64, res: Result<IssuedCode, AppError>) -> bool {
    match res {
        Ok(c) => {
            &&& c.code@ == decimal(code_value(random))
            &&& c.email@ == email
            &&& phc_parses(c.code_hash@)
            &&& argon2_accepts(c.code_hash@, c.code@)
            &&& c.expires_at == now_micros + CODE_TTL_MICROS
        },
        Err(e) => e is InternalServerError,
    }
}

impl IssuedCode {
    /// The row that stores this code.
    pub open spec fn row_matches(self, row: CodeRow) -> bool {
        row.email@ == self.email@ && row.code@ == self.code_hash@ && row.expires_at == self.expires_at
    }
}

pub struct AuthService;

/// The answer to a sign-in request for `email`: the address in lower case
/// when a user has it, else `NotFound`.
pub open spec fn login_answer(users: Seq<UserDto>, email: Seq<char>, res: Result<String, AppError>) -> bool {
    match res {
        Ok(e) => e@ == lowercase(email) && exists|j: int| 0 <= j < users.len() && #[trigger] users[j].email@ == lowercase(email),
        Err(e) => e is NotFound && forall|j: int| 0 <= j < users.len() ==> #[trigger] users[j].email@ != lowercase(email),
    }
}

impl AuthService {
    /// E-mail addresses are compared in lower case.
    pub fn normalize_email(email: &str) -> (res: String)
        ensures
            res@ == lowercase(email@),
    {
        to_lowercase(email)
    }

    /// Issues a code for `email` from the random number `random` at
    /// `now_micros`: the code, and its hash valid for ten minutes.
    pub fn issue_verification_code_at(email: String, random: u32, now_micros: i64) -> (res: Result<IssuedCode, AppError>)
        requires
            now_micros + CODE_TTL_MICROS <= i64::MAX,
        ensures
            res is Ok,
            code_issued(email@, random, now_micros, res),
    {
        let code = verification_code(random);
        proof {
            crate::laws::law_code_has_six_digits(random);
        }
        let code_hash = hash_password(code.as_str())?;
        Ok(IssuedCode { code, email, code_hash, expires_at: now_micros + CODE_TTL_MICROS })
    }

    /// Issues a fresh code for `email`, now; the random number and the instant
    /// it used are returned beside it.
    pub fn issue_verification_code(email: String) -> (res: (u32, Instant, Result<IssuedCode, AppError>))
        ensures
            res.1.micros + CODE_TTL_MICROS <= i64::MAX ==> res.2 is Ok,
            res.1.micros + CODE_TTL_MICROS <= i64::MAX ==> code_issued(email@, res.0, res.1.micros, res.2),
            res.1.micros + CODE_TTL_MICROS > i64::MAX ==> (res.2 matches Err(e) && e is InternalServerError),
    {
        let random = random_u32();
        let now = utc_now();
        if now.micros > i64::MAX - CODE_TTL_MICROS {
            return (random, now, Err(AppError::InternalServerError));
        }
        (random, now, Self::issue_verification_code_at(email, random, now.micros))
    }

    /// Sign-in step one: the address must belong to a user (compared in
    /// lower case), else `NotFound`; the address is returned normalized, for
    /// a code to be issued to it.
    pub fn login(users: &Vec<UserDto>, email: &str) -> (res: Result<String, AppError>)
        ensures
            login_answer(users@, email@, res),
    {
        let normalized = Self::normalize_email(email);
        let key = UserKey::Email(normalized);
        match find_user(users, &key) {
            Some(i) => {
                assert(user_has_key(users@[i as int], key));
                match key {
                    UserKey::Email(e) => Ok(e),
                    _ => Err(AppError::NotFound),
                }
            },
            None => {
                assert forall|j: int| 0 <= j < users@.len() implies #[trigger] users@[j].email@ != lowercase(email@) by {
                    assert(!user_has_key(users@[j], key));
                }
                Err(AppError::NotFound)
            },
        }
    }

    /// The nickname as stored: with one leading `@`.
    pub fn normalize_nickname(nickname: &str) -> (res: String)
        ensures
            res@ == stored_nickname(nickname@),
    {
        let cs = chars_of(nickname);
        let mut out: Vec<char> = Vec::new();
        out.push('@');
        let start: usize = if cs.len() > 0 && cs[0] == '@' { 1 } else { 0 };
        let mut i = start;
        while i < cs.len()
            invariant
                start <= i <= cs@.len(),
                out@ == seq!['@'] + cs@.subrange(start as int, i as int),
            decreases cs@.len() - i,
        {
            out.push(cs[i]);
            assert(cs@.subrange(start as int, i + 1) == cs@.subrange(start as int, i as int).push(cs@[i as int]));
            i = i + 1;
        }
        assert(nickname_core(cs@) == cs@.subrange(start as int, cs@.len() as int));
        string_from_chars(&out)
    }

    /// The user to create for a registration: the address in lower case, the
    /// name trimmed, the nickname with one leading `@`. An address that is not
    /// a valid e-mail address, a name outside 2 to 64 characters or a nickname
    /// that is not 3 to 32 latin letters, digits or underscores is a
    /// `ValidationError` naming the fields; an address or
    /// nickname that a user in `existing` already has is `UserAlreadyExists`.
    /// `existing` must hold every user with that address or nickname.
    pub fn register(existing: &Vec<UserDto>, payload: RegisterRequest) -> (res: Result<NewUser, AppError>)
        ensures
            registration(existing@, payload, res),
    {
        let email_ok = email_format_ok(payload.email.as_str());
        let name = trim_chars(payload.name.as_str());
        let name_ok = 2 <= name.len() && name.len() <= 64;
        let nick_ok = nickname_valid(payload.nickname.as_str());
        if !email_ok || !name_ok || !nick_ok {
            let mut fields: Vec<FieldErrors> = Vec::new();
            proof {
                reveal_strlit("email");
                reveal_strlit("Email must be a valid address");
                reveal_strlit("name");
                reveal_strlit("nickname");
                reveal_strlit("Name must be 2 to 64 characters long");
                reveal_strlit("Nickname must be 3 to 32 latin letters, digits or underscores");
            }
            let ghost failures = validation_failures(payload.email@, payload.name@, payload.nickname@);
            if !email_ok {
                fields.push(field_error("email", "Email must be a valid address"));
            }
            if !name_ok {
                fields.push(field_error("name", "Name must be 2 to 64 characters long"));
            }
            if !nick_ok {
                fields.push(field_error("nickname", "Nickname must be 3 to 32 latin letters, digits or underscores"));
            }
            assert(fields_text(fields@) =~= failures);
            return Err(AppError::ValidationError(fields));
        }
        let email = Self::normalize_email(payload.email.as_str());
        let nickname = Self::normalize_nickname(payload.nickname.as_str());
        let mut i: usize = 0;
        while i < existing.len()
            invariant
                i <= existing@.len(),
                email_valid(payload.email@),
                name_valid(payload.name@),
                nickname_ok(payload.nickname@),
                email@ == lowercase(payload.email@),
                nickname@ == stored_nickname(payload.nickname@),
                forall|j: int| 0 <= j < i ==> !taken_by(#[trigger] existing@[j], email@, nickname@),
            decreases existing@.len() - i,
        {
            if text_eq(&existing[i].email, &email) || text_eq(&existing[i].nickname, &nickname) {
                return Err(AppError::UserAlreadyExists);
            }
            i = i + 1;
        }
        Ok(NewUser { name: string_from_chars(&name), email, nickname })
    }
}

/// What a name must be.
pub open spec fn name_rule() -> Seq<char> {
    "Name must be 2 to 64 characters long"@
}

/// What a nickname must be.
pub open spec fn nickname_rule() -> Seq<char> {
    "Nickname must be 3 to 32 latin letters, digits or underscores"@
}

/// A nickname without its leading `@`, if any.
pub open spec fn nickname_core(n: Seq<char>) -> Seq<char> {
    if n.len() > 0 && n[0] == '@' {
        n.drop_first()
    } else {
        n
    }
}

/// The nickname as stored: one leading `@` and the rest.
pub open spec fn stored_nickname(n: Seq<char>) -> Seq<char> {
    seq!['@'] + nickname_core(n)
}

/// A latin letter, a digit or an underscore.
pub open spec fn nickname_char(c: char) -> bool {
    ('a' <= c && c <= 'z') || ('A' <= c && c <= 'Z') || ('0' <= c && c <= '9') || c == '_'
}

/// A latin letter or a digit.
pub open spec fn alnum(c: char) -> bool {
    ('a' <= c && c <= 'z') || ('A' <= c && c <= 'Z') || ('0' <= c && c <= '9')
}

/// A character allowed before the `@` of an address.
pub open spec fn local_char(c: char) -> bool {
    alnum(c) || c == '.' || c == '!' || c == '#' || c == '$' || c == '%' || c == '&' || c == '\'' || c == '*'
        || c == '+' || c == '/' || c == '=' || c == '?' || c == '^' || c == '_' || c == '`' || c == '{' || c == '|'
        || c == '}' || c == '~' || c == '-'
}

/// The position of the first `@` at or after `i`, or -1.
pub open spec fn at_from(e: Seq<char>, i: int) -> int
    decreases e.len() - i,
{
    if i < 0 || i >= e.len() {
        -1
    } else if e[i] == '@' {
        i
    } else {
        at_from(e, i + 1)
    }
}

/// How many characters other than `.` end at `d[k]`.
pub open spec fn run_len(d: Seq<char>, k: int) -> int
    decreases k + 1,
{
    if k < 0 || k >= d.len() || d[k] == '.' {
        0
    } else {
        1 + run_len(d, k - 1)
    }
}

/// A domain: labels separated by dots, each 1 to 63 latin letters, digits or
/// hyphens, neither starting nor ending with a hyphen.
pub open spec fn domain_ok(d: Seq<char>) -> bool {
    &&& d.len() >= 1
    &&& alnum(d[0])
    &&& alnum(d[d.len() - 1])
    &&& forall|k: int| 0 <= k < d.len() ==> alnum(#[trigger] d[k]) || d[k] == '-' || d[k] == '.'
    &&& forall|k: int| 0 < k < d.len() - 1 && #[trigger] d[k] == '.' ==> alnum(d[k - 1]) && alnum(d[k + 1])
    &&& forall|k: int| 0 <= k < d.len() ==> #[trigger] run_len(d, k) <= 63
}

/// A valid e-mail address, as HTML defines one: one or more of the allowed
/// characters, an `@`, and a domain.
pub open spec fn email_valid(e: Seq<char>) -> bool {
    let a = at_from(e, 0);
    &&& a > 0
    &&& forall|k: int| 0 <= k < a ==> local_char(#[trigger] e[k])
    &&& domain_ok(e.subrange(a + 1, e.len() as int))
}

/// What an e-mail address must be.
pub open spec fn email_rule() -> Seq<char> {
    "Email must be a valid address"@
}

fn alnum_exec(c: char) -> (r: bool)
    ensures
        r == alnum(c),
{
    ('a' <= c && c <= 'z') || ('A' <= c && c <= 'Z') || ('0' <= c && c <= '9')
}

/// Whether `d` is a domain.
fn domain_valid(d: &Vec<char>) -> (res: bool)
    ensures
        res == domain_ok(d@),
{
    let n = d.len();
    if n == 0 || !alnum_exec(d[0]) || !alnum_exec(d[n - 1]) {
        return false;
    }
    let mut run: usize = 0;
    let mut i: usize = 0;
    while i < n
        invariant
            i <= n,
            n == d@.len(),
            n >= 1,
            alnum(d@[0]),
            alnum(d@[n - 1]),
            forall|k: int| 0 <= k < i ==> alnum(#[trigger] d@[k]) || d@[k] == '-' || d@[k] == '.',
            forall|k: int| 0 < k < n - 1 && k < i && #[trigger] d@[k] == '.' ==> alnum(d@[k - 1]) && alnum(d@[k + 1]),
            forall|k: int| 0 <= k < i ==> #[trigger] run_len(d@, k) <= 63,
            run == run_len(d@, i - 1),
            run <= 63,
        decreases n - i,
    {
        let c = d[i];
        if !(alnum_exec(c) || c == '-' || c == '.') {
            assert(!(alnum(d@[i as int]) || d@[i as int] == '-' || d@[i as int] == '.'));
            return false;
        }
        if c == '.' {
            if i > 0 && i < n - 1 && !(alnum_exec(d[i - 1]) && alnum_exec(d[i + 1])) {
                assert(d@[i as int] == '.');
                return false;
            }
            run = 0;
        } else {
            if run == 63 {
                assert(run_len(d@, i as int) == 64);
                return false;
            }
            run = run + 1;
        }
        assert(run == run_len(d@, i as int));
        i = i + 1;
    }
    true
}

/// Whether `email` is a valid address.
pub fn email_format_ok(email: &str) -> (res: bool)
    ensures
        res == email_valid(email@),
{
    let cs = chars_of(email);
    let mut a: usize = 0;
    while a < cs.len() && cs[a] != '@'
        invariant
            a <= cs@.len(),
            at_from(cs@, 0) == at_from(cs@, a as int),
            forall|k: int| 0 <= k < a ==> cs@[k] != '@',
        decreases cs@.len() - a,
    {
        a = a + 1;
    }
    if a >= cs.len() || a == 0 {
        assert(at_from(cs@, a as int) == -1 || at_from(cs@, a as int) == 0);
        return false;
    }
    assert(at_from(cs@, a as int) == a);
    let mut i: usize = 0;
    while i < a
        invariant
            i <= a < cs@.len(),
            cs@ == email@,
            at_from(cs@, 0) == a,
            forall|k: int| 0 <= k < i ==> local_char(#[trigger] cs@[k]),
        decreases a - i,
    {
        let c = cs[i];
        if !(alnum_exec(c) || c == '.' || c == '!' || c == '#' || c == '$' || c == '%' || c == '&' || c == '\''
            || c == '*' || c == '+' || c == '/' || c == '=' || c == '?' || c == '^' || c == '_' || c == '`' || c == '{'
            || c == '|' || c == '}' || c == '~' || c == '-') {
            assert(!local_char(cs@[i as int]));
            return false;
        }
        i = i + 1;
    }
    let d = sub_chars(&cs, a + 1, cs.len());
    domain_valid(&d)
}

/// A name is 2 to 64 characters long once trimmed.
pub open spec fn name_valid(name: Seq<char>) -> bool {
    2 <= trimmed(name).len() <= 64
}

/// Without its leading `@`, a nickname is 3 to 32 latin letters, digits or
/// underscores.
pub open spec fn nickname_ok(n: Seq<char>) -> bool {
    let c = nickname_core(n);
    3 <= c.len() <= 32 && forall|i: int| 0 <= i < c.len() ==> nickname_char(#[trigger] c[i])
}

/// The failing fields of a registration, each with the rule it breaks.
pub open spec fn validation_failures(email: Seq<char>, name: Seq<char>, nickname: Seq<char>) -> Seq<
    (Seq<char>, Seq<Seq<char>>),
> {
    (if email_valid(email) {
        Seq::empty()
    } else {
        seq![("email"@, seq![email_rule()])]
    }) + (if name_valid(name) {
        Seq::empty()
    } else {
        seq![("name"@, seq![name_rule()])]
    }) + (if nickname_ok(nickname) {
        Seq::empty()
    } else {
        seq![("nickname"@, seq![nickname_rule()])]
    })
}

/// The texts of a list of field errors.
pub open spec fn fields_text(fs: Seq<FieldErrors>) -> Seq<(Seq<char>, Seq<Seq<char>>)> {
    fs.map_values(|f: FieldErrors| (f.field@, f.messages@.map_values(|m: String| m@)))
}

/// User `u` already has the address or the nickname.
pub open spec fn taken_by(u: UserDto, email: Seq<char>, nickname: Seq<char>) -> bool {
    u.email@ == email || u.nickname@ == nickname
}

/// What registering `payload` gives, given the users that may hold its
/// address or nickname.
pub open spec fn registration(existing: Seq<UserDto>, payload: RegisterRequest, res: Result<NewUser, AppError>) -> bool {
    let email = lowercase(payload.email@);
    let nickname = stored_nickname(payload.nickname@);
    if !email_valid(payload.email@) || !name_valid(payload.name@) || !nickname_ok(payload.nickname@) {
        res matches Err(AppError::ValidationError(fs)) && fields_text(fs@) == validation_failures(
            payload.email@,
            payload.name@,
            payload.nickname@,
        )
    } else if exists|j: int| 0 <= j < existing.len() && taken_by(#[trigger] existing[j], email, nickname) {
        res matches Err(e) && e is UserAlreadyExists
    } else {
        res matches Ok(u) && u.email@ == email && u.name@ == trimmed(payload.name@) && u.nickname@ == nickname
    }
}

/// A field error with one message.
fn field_error(field: &str, message: &str) -> (f: FieldErrors)
    ensures
        f.field@ == field@,
        f.messages@.map_values(|m: String| m@) == seq![message@],
{
    let mut messages: Vec<String> = Vec::new();
    messages.push(String::from_str(message));
    assert(messages@.map_values(|m: String| m@) =~= seq![message@]);
    FieldErrors { field: String::from_str(field), messages }
}

/// Whether a nickname is valid.
fn nickname_valid(nickname: &str) -> (res: bool)
    ensures
        res == nickname_ok(nickname@),
{
    let cs = chars_of(nickname);
    let start: usize = if cs.len() > 0 && cs[0] == '@' { 1 } else { 0 };
    let ghost core = nickname_core(cs@);
    assert(core == cs@.subrange(start as int, cs@.len() as int));
    let n = cs.len() - start;
    assert(core.len() == n);
    if n < 3 || n > 32 {
        return false;
    }
    let mut i = start;
    while i < cs.len()
        invariant
            start <= i <= cs@.len(),
            cs@ == nickname@,
            core == nickname_core(nickname@),
            3 <= core.len() <= 32,
            core == cs@.subrange(start as int, cs@.len() as int),
            forall|k: int| 0 <= k < i - start ==> nickname_char(#[trigger] core[k]),
        decreases cs@.len() - i,
    {
        let c = cs[i];
        if !(('a' <= c && c <= 'z') || ('A' <= c && c <= 'Z') || ('0' <= c && c <= '9') || c == '_') {
            assert(core[i - start] == c);
            assert(!nickname_char(core[i - start]));
            return false;
        }
        assert(core[i - start] == c);
        i = i + 1;
    }
    assert forall|k: int| 0 <= k < core.len() implies nickname_char(#[trigger] core[k]) by {
        assert(k < i - start);
    }
    true
}

/// A stored code that can still be used for `email` at `now_micros`: not
/// expired, and failed at most three times.
pub open spec fn code_is_live(r: CodeRow, email: Seq<char>, now_micros: i64) -> bool {
    r.email@ == email && r.expires_at > now_micros && r.attempt_count <= MAX_FAILED_ATTEMPTS
}

/// `codes[i]` is a live code for `email` and no live code was created later.
pub open spec fn is_newest_live_code(codes: Seq<CodeRow>, email: Seq<char>, now_micros: i64, i: int) -> bool {
    &&& 0 <= i < codes.len()
    &&& code_is_live(codes[i], email, now_micros)
    &&& forall|j: int|
        0 <= j < codes.len() && code_is_live(#[trigger] codes[j], email, now_micros) ==> codes[j].created_at
            <= codes[i].created_at
}

/// The newest live code for `email`, if there is one; among codes created at
/// the same instant any may be returned.
pub fn newest_live_code(codes: &Vec<CodeRow>, email: &String, now_micros: i64) -> (res: Option<usize>)
    ensures
        res matches Some(i) ==> is_newest_live_code(codes@, email@, now_micros, i as int),
        res is None ==> forall|j: int| 0 <= j < codes@.len() ==> !code_is_live(#[trigger] codes@[j], email@, now_micros),
{
    let mut best: Option<usize> = None;
    let mut i: usize = 0;
    while i < codes.len()
        invariant
            i <= codes@.len(),
            best matches Some(b) ==> b < i && code_is_live(codes@[b as int], email@, now_micros),
            best matches Some(b) ==> forall|j: int|
                0 <= j < i && code_is_live(#[trigger] codes@[j], email@, now_micros) ==> codes@[j].created_at
                    <= codes@[b as int].created_at,
            best is None ==> forall|j: int| 0 <= j < i ==> !code_is_live(#[trigger] codes@[j], email@, now_micros),
        decreases codes@.len() - i,
    {
        let r = &codes[i];
        if text_eq(&r.email, email) && r.expires_at > now_micros && r.attempt_count <= MAX_FAILED_ATTEMPTS {
            match best {
                None => {
                    best = Some(i);
                },
                Some(b) => {
                    if r.created_at > codes[b].created_at {
                        best = Some(i);
                    }
                },
            }
        }
        i = i + 1;
    }
    best
}

/// The answer to a wrong code.
pub open spec fn wrong_code_text() -> Seq<char> {
    "Неправильно введен код!"@
}

/// The outcome of checking a code: the answer, and the failed-attempt count
/// to store for the code that was tried, if it was wrong.
#[derive(Debug)]
pub struct VerifyCodeOutcome {
    pub result: Result<VerifyCodeResponse, AppError>,
    pub failed_attempt: Option<(u128, i32)>,
}

/// Signing in the user with address `email` at `now_secs`: the user's
/// tokens, or `NotFound` when no user has that address.
pub open spec fn signed_in(
    users: Seq<UserDto>,
    email: Seq<char>,
    now_secs: i64,
    secret: Seq<u8>,
    result: Result<VerifyCodeResponse, AppError>,
) -> bool {
    match result {
        Ok(r) => {
            &&& users.contains(r.user)
            &&& r.user.email@ == email
            &&& token_pair_issued(
                r.user.id,
                r.user.name@,
                r.user.email@,
                r.user.nickname@,
                now_secs,
                secret,
                Ok(TokenPair { access_token: r.access_token, refresh_token: r.refresh_token, expires_in: r.expires_in }),
            )
        },
        Err(e) => e is NotFound && forall|j: int| 0 <= j < users.len() ==> (#[trigger] users[j]).email@ != email,
    }
}

/// What checking `code` for `email` (already in lower case) at `now` gives:
/// with no live code, `WrongCredentials`; the newest live code decides, and a
/// wrong code counts one more failed attempt on it and is answered with a
/// message; a right code signs the user in.
pub open spec fn code_checked(
    codes: Seq<CodeRow>,
    users: Seq<UserDto>,
    email: Seq<char>,
    code: Seq<char>,
    now: Instant,
    secret: Seq<u8>,
    out: VerifyCodeOutcome,
) -> bool {
    if forall|j: int| 0 <= j < codes.len() ==> !code_is_live(#[trigger] codes[j], email, now.micros) {
        out.result matches Err(e) && e is WrongCredentials && out.failed_attempt is None
    } else {
        exists|i: int|
            #[trigger] is_newest_live_code(codes, email, now.micros, i) && if !argon2_accepts(codes[i].code@, code) {
                &&& out.result matches Err(AppError::Custom(m)) && m@ == wrong_code_text()
                &&& out.failed_attempt == Some((codes[i].id, (codes[i].attempt_count + 1) as i32))
            } else {
                &&& out.failed_attempt is None
                &&& signed_in(users, email, now.secs, secret, out.result)
            }
    }
}

/// A newest live code for `email` is not stored as a PHC string.
pub open spec fn newest_code_unreadable(codes: Seq<CodeRow>, email: Seq<char>, now_micros: i64) -> bool {
    exists|j: int| #[trigger] is_newest_live_code(codes, email, now_micros, j) && !phc_parses(codes[j].code@)
}

/// Every newest live code for `email` (the one that decides) is stored as a
/// PHC string.
pub open spec fn newest_codes_parse(codes: Seq<CodeRow>, email: Seq<char>, now_micros: i64) -> bool {
    forall|j: int| #[trigger] is_newest_live_code(codes, email, now_micros, j) ==> phc_parses(codes[j].code@)
}

fn sign_in(users: &Vec<UserDto>, email: &String, now_secs: i64, secret: &[u8]) -> (res: Result<VerifyCodeResponse, AppError>)
    requires
        now_secs + REFRESH_TTL_SECS <= i64::MAX,
    ensures
        signed_in(users@, email@, now_secs, secret@, res),
{
    let key = UserKey::Email(email.clone());
    match find_user(users, &key) {
        None => {
            assert forall|j: int| 0 <= j < users@.len() implies (#[trigger] users@[j]).email@ != email@ by {
                assert(!user_has_key(users@[j], key));
            }
            Err(AppError::NotFound)
        },
        Some(i) => {
            let user = users[i].clone();
            assert(users@.contains(user));
            let tokens = build_token_pair_at(
                user.id,
                user.name.clone(),
                user.email.clone(),
                user.nickname.clone(),
                now_secs,
                secret,
            );
            match tokens {
                Ok(t) => Ok(VerifyCodeResponse {
                    access_token: t.access_token,
                    refresh_token: t.refresh_token,
                    expires_in: t.expires_in,
                    user,
                }),
                Err(e) => {
                    assert(users@[i as int].email@ == email@);
                    Err(e)
                },
            }
        },
    }
}

/// The outcome of checking `code` for `email` given the newest live code
/// `newest` (or that there is none).
fn decide_code(
    codes: &Vec<CodeRow>,
    users: &Vec<UserDto>,
    email: &String,
    code: &str,
    newest: Option<usize>,
    now: Instant,
    secret: &[u8],
) -> (out: VerifyCodeOutcome)
    requires
        now.secs + REFRESH_TTL_SECS <= i64::MAX,
        newest matches Some(i) ==> is_newest_live_code(codes@, email@, now.micros, i as int) && phc_parses(
            codes@[i as int].code@,
        ),
        newest is None ==> forall|j: int| 0 <= j < codes@.len() ==> !code_is_live(#[trigger] codes@[j], email@, now.micros),
    ensures
        code_checked(codes@, users@, email@, code@, now, secret@, out),
{
    match newest {
        None => VerifyCodeOutcome { result: Err(AppError::WrongCredentials), failed_attempt: None },
        Some(i) => {
            let row = &codes[i];
            assert(is_newest_live_code(codes@, email@, now.micros, i as int));
            if !verify_password(row.code.as_str(), code) {
                VerifyCodeOutcome {
                    result: Err(AppError::Custom(String::from_str("Неправильно введен код!"))),
                    failed_attempt: Some((row.id, row.attempt_count + 1)),
                }
            } else {
                let result = sign_in(users, email, now.secs, secret);
                VerifyCodeOutcome { result, failed_attempt: None }
            }
        },
    }
}

impl AuthService {
    /// Checks a sign-in code at `now`; `None` when the newest live code of the
    /// address is stored as something other than a PHC string, which the
    /// check cannot read.
    pub fn verify_code_checked(
        codes: &Vec<CodeRow>,
        users: &Vec<UserDto>,
        payload: &VerifyCodeRequest,
        now: Instant,
        secret: &[u8],
    ) -> (out: Option<VerifyCodeOutcome>)
        requires
            now.secs + REFRESH_TTL_SECS <= i64::MAX,
        ensures
            newest_codes_parse(codes@, lowercase(payload.email@), now.micros) ==> out is Some,
            out is None ==> newest_code_unreadable(codes@, lowercase(payload.email@), now.micros),
            out matches Some(o) ==> code_checked(codes@, users@, lowercase(payload.email@), payload.code@, now, secret@, o),
    {
        let email = Self::normalize_email(payload.email.as_str());
        let newest = newest_live_code(codes, &email, now.micros);
        if let Some(i) = newest {
            if !stored_hash_parses(codes[i].code.as_str()) {
                assert(is_newest_live_code(codes@, email@, now.micros, i as int));
                return None;
            }
        }
        Some(decide_code(codes, users, &email, payload.code.as_str(), newest, now, secret))
    }

    /// Checks a sign-in code now; the instant used is returned beside the
    /// outcome.
    pub fn verify_code(
        codes: &Vec<CodeRow>,
        users: &Vec<UserDto>,
        payload: &VerifyCodeRequest,
        secret: &[u8],
    ) -> (res: (Instant, Option<VerifyCodeOutcome>))
        ensures
            res.0.secs + REFRESH_TTL_SECS <= i64::MAX && newest_codes_parse(
                codes@,
                lowercase(payload.email@),
                res.0.micros,
            ) ==> res.1 is Some,
            res.1 is None ==> newest_code_unreadable(codes@, lowercase(payload.email@), res.0.micros),
            res.0.secs + REFRESH_TTL_SECS <= i64::MAX ==> (res.1 matches Some(o) ==> code_checked(
                codes@,
                users@,
                lowercase(payload.email@),
                payload.code@,
                res.0,
                secret@,
                o,
            )),
            res.0.secs + REFRESH_TTL_SECS > i64::MAX ==> (res.1 matches Some(o) && o.result matches Err(e)
                && e is TokenCreation),
    {
        let now = utc_now();
        if now.secs > i64::MAX - REFRESH_TTL_SECS {
            return (now, Some(VerifyCodeOutcome { result: Err(AppError::TokenCreation), failed_attempt: None }));
        }
        let out = Self::verify_code_checked(codes, users, payload, now, secret);
        (now, out)
    }

    /// Exchanges a refresh token for a new pair at `now_secs`: a token that
    /// is not a valid, unexpired refresh token is `InvalidToken`; its subject
    /// must still exist, else `NotFound`.
    pub fn refresh_at(token: &str, users: &Vec<UserDto>, now_secs: i64, secret: &[u8]) -> (res: Result<
        RefreshResponse,
        AppError,
    >)
        requires
            now_secs + REFRESH_TTL_SECS <= i64::MAX,
        ensures
            match token_verdict(token@, secret@, TokenType::Refresh, now_secs) {
                None => res matches Err(e) && e is InvalidToken,
                Some(f) => refreshed(users@, f.0, now_secs, secret@, res),
            },
    {
        let claims = decode_token_at(token, secret, TokenType::Refresh, now_secs)?;
        let key = UserKey::Id(claims.sub);
        match find_user(users, &key) {
            None => {
                assert forall|j: int| 0 <= j < users@.len() implies (#[trigger] users@[j]).id != claims.sub by {
                    assert(!user_has_key(users@[j], key));
                }
                Err(AppError::NotFound)
            },
            Some(i) => {
                let user = &users[i];
                let tokens = build_token_pair_at(
                    user.id,
                    user.name.clone(),
                    user.email.clone(),
                    user.nickname.clone(),
                    now_secs,
                    secret,
                );
                match tokens {
                    Ok(t) => Ok(RefreshResponse {
                        access_token: t.access_token,
                        refresh_token: t.refresh_token,
                        expires_in: t.expires_in,
                    }),
                    Err(e) => Err(e),
                }
            },
        }
    }
}

impl AuthService {
    /// Exchanges a refresh token for a new pair, now; the instant used is
    /// returned beside the answer.
    pub fn refresh(token: &str, users: &Vec<UserDto>, secret: &[u8]) -> (res: (Instant, Result<
        RefreshResponse,
        AppError,
    >))
        ensures
            res.0.secs + REFRESH_TTL_SECS <= i64::MAX ==> match token_verdict(
                token@,
                secret@,
                TokenType::Refresh,
                res.0.secs,
            ) {
                None => res.1 matches Err(e) && e is InvalidToken,
                Some(f) => refreshed(users@, f.0, res.0.secs, secret@, res.1),
            },
            res.0.secs + REFRESH_TTL_SECS > i64::MAX ==> res.1 is Err,
    {
        let now = utc_now();
        if now.secs > i64::MAX - REFRESH_TTL_SECS {
            return (now, Err(AppError::TokenCreation));
        }
        (now, Self::refresh_at(token, users, now.secs, secret))
    }
}

/// What refreshing for subject `sub` at `now_secs` gives: a new pair for
/// the user with that id, or `NotFound` when there is none.
pub open spec fn refreshed(
    users: Seq<UserDto>,
    sub: u128,
    now_secs: i64,
    secret: Seq<u8>,
    res: Result<RefreshResponse, AppError>,
) -> bool {
    match res {
        Ok(r) => exists|j: int|
            0 <= j < users.len() && (#[trigger] users[j]).id == sub && token_pair_issued(
                users[j].id,
                users[j].name@,
                users[j].email@,
                users[j].nickname@,
                now_secs,
                secret,
                Ok(TokenPair { access_token: r.access_token, refresh_token: r.refresh_token, expires_in: r.expires_in }),
            ),
        Err(e) => e is NotFound && forall|j: int| 0 <= j < users.len() ==> (#[trigger] users[j]).id != sub,
    }
}

/// A user to insert.
#[derive(Debug)]
pub struct NewUser {
    pub name: String,
    pub email: String,
    pub nickname: String,
}

} // verus!
