//! The signed-in user's profile and avatar.

use vstd::prelude::*;
use crate::dtos::UserDto;
use crate::error::AppError;
use crate::text::{chars_of, format_uuid, string_from_chars, uuid_text};
use crate::users::{found_user, lookup_user, user_has_key, UserKey};

verus! {

/// `image::load_from_memory` decodes `bytes` (format guessed from the content).
pub uninterp spec fn image_decodes(bytes: Seq<u8>) -> bool;

/// The WebP file that `DynamicImage::write_to` with `ImageFormat::WebP`
/// writes for the picture `image::load_from_memory` decodes from `bytes`;
/// `None` when that picture cannot be written as WebP.
pub uninterp spec fn avatar_webp(bytes: Seq<u8>) -> Option<Seq<u8>>;

/// `image::load_from_memory`, then `DynamicImage::write_to` into memory as
/// WebP (the encoding `save_with_format` writes to a file). Claimed: the
/// outer `None` exactly when the bytes do not decode, named `image_decodes`;
/// otherwise the WebP bytes, or `None` when encoding fails, named
/// `avatar_webp`. Both depend on the bytes alone.
#[verifier::external_body]
fn encode_avatar(bytes: &[u8]) -> (res: Option<Option<Vec<u8>>>)
    ensures
        res is Some <==> image_decodes(bytes@),
        res matches Some(Some(v)) ==> avatar_webp(bytes@) == Some(v@),
        res matches Some(None) ==> avatar_webp(bytes@) is None,
{
    match image::load_from_memory(bytes) {
        Err(_) => None,
        Ok(img) => {
            let mut out = std::io::Cursor::new(Vec::new());
            match img.write_to(&mut out, image::ImageFormat::WebP) {
                Ok(()) => Some(Some(out.into_inner())),
                Err(_) => Some(None),
            }
        },
    }
}

/// Where a user's avatar is stored: `<avatar_dir>/<user id>.webp`, with a
/// `/` between unless the directory is empty or already ends with one (as
/// `Path::join` puts it).
pub open spec fn avatar_path(avatar_dir: Seq<char>, user_id: u128) -> Seq<char> {
    let sep = if avatar_dir.len() > 0 && avatar_dir.last() != '/' {
        seq!['/']
    } else {
        Seq::<char>::empty()
    };
    avatar_dir + sep + uuid_text(user_id) + ".webp"@
}

/// The path a user's avatar is stored at.
pub fn avatar_file_path(avatar_dir: &str, user_id: u128) -> (res: String)
    ensures
        res@ == avatar_path(avatar_dir@, user_id),
{
    let mut v = chars_of(avatar_dir);
    if v.len() > 0 && v[v.len() - 1] != '/' {
        v.push('/');
    }
    let mut id = chars_of(format_uuid(user_id).as_str());
    v.append(&mut id);
    let mut ext = chars_of(".webp");
    v.append(&mut ext);
    string_from_chars(&v)
}

/// The answer to an upload that is not a picture.
pub open spec fn bad_image_text() -> Seq<char> {
    "Ошибка при загрузке изображения"@
}

/// The answer when the avatar cannot be written.
pub open spec fn save_failed_text() -> Seq<char> {
    "Ошибка при сохранении аватара"@
}

/// The error for an avatar that could not be written.
pub fn save_failed() -> (e: AppError)
    ensures
        e matches AppError::Custom(m) && m@ == save_failed_text(),
{
    AppError::Custom(String::from_str("Ошибка при сохранении аватара"))
}

pub struct ProfileService;

impl ProfileService {
    /// The profile of the signed-in user, or `NotFound`.
    pub fn get_my(users: &Vec<UserDto>, user_id: u128) -> (res: Result<UserDto, AppError>)
        ensures
            found_user(users@, |u: UserDto| u.id == user_id, res),
    {
        let key = UserKey::Id(user_id);
        let res = lookup_user(users, &key);
        assert((|u: UserDto| user_has_key(u, key)) =~= (|u: UserDto| u.id == user_id));
        res
    }

    /// Reads an uploaded avatar: its WebP file and the path to store it at
    /// (which also becomes the user's avatar URL). Bytes that are not a
    /// picture, and a picture that cannot be written as WebP, are `Custom`
    /// errors.
    pub fn upload_avatar(avatar_dir: &str, user_id: u128, bytes: &[u8]) -> (res: Result<(Vec<u8>, String), AppError>)
        ensures
            image_decodes(bytes@) ==> match avatar_webp(bytes@) {
                Some(w) => res matches Ok((v, p)) && v@ == w && p@ == avatar_path(avatar_dir@, user_id),
                None => res matches Err(AppError::Custom(m)) && m@ == save_failed_text(),
            },
            !image_decodes(bytes@) ==> (res matches Err(AppError::Custom(m)) && m@ == bad_image_text()),
    {
        match encode_avatar(bytes) {
            Some(Some(webp)) => Ok((webp, avatar_file_path(avatar_dir, user_id))),
            Some(None) => Err(save_failed()),
            None => Err(AppError::Custom(String::from_str("Ошибка при загрузке изображения"))),
        }
    }
}

} // verus!
