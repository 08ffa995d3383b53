//! Looking users up: by id, e-mail and nickname.

use vstd::prelude::*;
use crate::dtos::UserDto;
use crate::error::AppError;
use crate::text::chars_of;

verus! {

/// Which user column a lookup compares.
pub enum UserKey {
    Id(u128),
    Email(String),
    Nickname(String),
}

/// The user row `u` has the looked-up key.
pub open spec fn user_has_key(u: UserDto, key: UserKey) -> bool {
    match key {
        UserKey::Id(id) => u.id == id,
        UserKey::Email(e) => u.email@ == e@,
        UserKey::Nickname(n) => u.nickname@ == n@,
    }
}

fn same_text(a: &String, b: &String) -> (r: bool)
    ensures
        r == (a@ == b@),
{
    let x = chars_of(a.as_str());
    let y = chars_of(b.as_str());
    if x.len() != y.len() {
        return false;
    }
    let mut i: usize = 0;
    while i < x.len()
        invariant
            x@ == a@,
            y@ == b@,
            x@.len() == y@.len(),
            i <= x@.len(),
            forall|k: int| 0 <= k < i ==> x@[k] == y@[k],
        decreases x@.len() - i,
    {
        if x[i] != y[i] {
            return false;
        }
        i = i + 1;
    }
    assert(x@ =~= y@);
    true
}

/// Whether two strings hold the same text.
pub fn text_eq(a: &String, b: &String) -> (r: bool)
    ensures
        r == (a@ == b@),
{
    same_text(a, b)
}

fn has_key(u: &UserDto, key: &UserKey) -> (r: bool)
    ensures
        r == user_has_key(*u, *key),
{
    match key {
        UserKey::Id(id) => u.id == *id,
        UserKey::Email(e) => same_text(&u.email, e),
        UserKey::Nickname(n) => same_text(&u.nickname, n),
    }
}

/// The position of a user row with the given key, if any; which one is
/// returned when several match is not promised (a query without order).
pub fn find_user(users: &Vec<UserDto>, key: &UserKey) -> (res: Option<usize>)
    ensures
        res matches Some(i) ==> i < users@.len() && user_has_key(users@[i as int], *key),
        res is None ==> forall|j: int| 0 <= j < users@.len() ==> !user_has_key(#[trigger] users@[j], *key),
{
    let mut i: usize = 0;
    while i < users.len()
        invariant
            i <= users@.len(),
            forall|j: int| 0 <= j < i ==> !user_has_key(#[trigger] users@[j], *key),
        decreases users@.len() - i,
    {
        if has_key(&users[i], key) {
            return Some(i);
        }
        i = i + 1;
    }
    None
}

/// A user row satisfying `p`, or `NotFound` when no row does.
pub open spec fn found_user(users: Seq<UserDto>, p: spec_fn(UserDto) -> bool, res: Result<UserDto, AppError>) -> bool {
    match res {
        Ok(u) => users.contains(u) && p(u),
        Err(e) => e is NotFound && forall|j: int| 0 <= j < users.len() ==> !p(#[trigger] users[j]),
    }
}

/// A copy of a user row with the given key, or `NotFound`.
pub fn lookup_user(users: &Vec<UserDto>, key: &UserKey) -> (res: Result<UserDto, AppError>)
    ensures
        found_user(users@, |u: UserDto| user_has_key(u, *key), res),
{
    match find_user(users, key) {
        Some(i) => {
            let u = users[i].clone();
            assert(users@[i as int] == u);
            assert(users@.contains(u));
            Ok(u)
        },
        None => Err(AppError::NotFound),
    }
}

pub struct UserService;

impl UserService {
    /// The user with the given nickname, or `NotFound`.
    pub fn find_by_nickname(users: &Vec<UserDto>, nickname: &str) -> (res: Result<UserDto, AppError>)
        ensures
            found_user(users@, |u: UserDto| u.nickname@ == nickname@, res),
    {
        let key = UserKey::Nickname(String::from_str(nickname));
        let res = lookup_user(users, &key);
        assert((|u: UserDto| user_has_key(u, key)) =~= (|u: UserDto| u.nickname@ == nickname@));
        res
    }
}

} // verus!
