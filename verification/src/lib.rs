//! Credential and session-authentication core for a small photo-sharing
//! backend: password hashing with per-user salts, session-token issuance,
//! hashed-token storage, and cookie-based session validation, all working
//! against an in-memory credential/session store.

pub mod crypto;
pub mod hex;
pub mod laws;
pub mod login;
pub mod queries;
pub mod sessions;
pub mod store;
pub mod users;
