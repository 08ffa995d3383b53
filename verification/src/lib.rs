//! Verified core of the telegramka chat backend: request validation, token
//! issuing, verification codes, chat listings, message paging, presence and
//! push planning. Storage, HTTP and mail delivery live outside this crate and
//! hand the rows they read to the functions here.

pub mod error;
pub mod text;
pub mod dtos;
pub mod clock;
pub mod security;
pub mod users;
pub mod auth;
pub mod chats;
pub mod presence;
pub mod push;
pub mod messages;
pub mod files;
pub mod profile;
pub mod smtp;
pub mod jwt;
pub mod laws;
