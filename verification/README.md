# telegramka_api

The backend of the telegramka chat service, split in two:

- `src/` is a Verus-verified library holding the service's decisions: which
  verification code is live and whether it signs a user in, the claims and
  expiries of issued tokens and the reading of a token's claims, the chat list with its ordering and unread
  counters, message paging, read receipts, presence counting, which devices a
  push notification goes to, message validation, error answers, and the
  contents of the service's mails. Each public function states its result in
  its `ensures`; `src/laws.rs` proves properties that span several functions.
- `app/` is the unverified server around it: configuration, the axum routes
  and WebSocket loop, PostgreSQL access, writing files and SMTP delivery. It
  reads rows, hands them to the library, and stores or sends what the library
  decided.

Calls into outside crates that the library makes (Argon2 hashing, HS256
signing, decoding an uploaded picture and writing it as WebP, the clock, random numbers, lower-casing) go through
small trusted wrappers whose contracts are written next to them.
