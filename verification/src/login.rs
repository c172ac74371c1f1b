//! Login: checking a claimed email/password identity against the stored
//! credentials, and turning a successful check into a fresh session.

use crate::crypto::{derive_password_hash, password_matches};
use crate::sessions::{issue_session, session_appended};
use crate::store::{email_index, find_email_index, has_email, AuthStore, UserCredential};
use vstd::prelude::*;

verus! {

/// The outcome of an authentication check.
pub enum AuthResult {
    /// The password matched; carries the username the email belongs to.
    Authenticated(String),
    /// No credential row carries the email.
    EmailNotFound,
    /// The row exists, but the password's hash differs from the stored one.
    PasswordIncorrect,
}

/// The wire-facing login outcome, as the response layer consumes it.
#[derive(Clone, Copy, Debug, PartialEq, Eq, Structural)]
pub enum LoginStatus {
    LoginOk,
    EmailIncorrect,
    PasswordIncorrect,
}

/// What authenticating an email/password pair against a user table
/// returns: the row is found by email, the presented password is hashed
/// under the row's salt, and the hashes are compared.
pub open spec fn auth_decision(
    cost: u32,
    users: Seq<UserCredential>,
    email: Seq<char>,
    password: Seq<char>,
) -> AuthResult {
    if !has_email(users, email) {
        AuthResult::EmailNotFound
    } else {
        let u = users[email_index(users, email)];
        if password_matches(cost, u.salt@, u.password_hash@, password) {
            AuthResult::Authenticated(u.username)
        } else {
            AuthResult::PasswordIncorrect
        }
    }
}

/// Check an email/password pair against the store.
///
/// Reads only; the three outcomes follow [`auth_decision`] exactly, so a
/// caller knows success is returned if and only if the email has a row
/// and the password hashes to the stored digest.
pub fn authenticate(store: &AuthStore, email: &str, password: &str) -> (r: AuthResult)
    requires
        store.wf(),
    ensures
        r == auth_decision(store.cost, store.users@, email@, password@),
{
    let email_key = email.to_owned();
    match find_email_index(&store.users, &email_key) {
        None => AuthResult::EmailNotFound,
        Some(i) => {
            let user = &store.users[i];
            match derive_password_hash(store.cost, &user.salt, password) {
                None => AuthResult::PasswordIncorrect,
                Some(candidate) => {
                    if candidate == user.password_hash {
                        AuthResult::Authenticated(user.username.clone())
                    } else {
                        AuthResult::PasswordIncorrect
                    }
                },
            }
        },
    }
}

/// Log in: authenticate the email/password pair and, on success, issue a
/// session whose raw token travels back for the response's cookie.
///
/// On either failure the store is untouched and no token leaves.
pub fn login(store: &mut AuthStore, email: &str, password: &str, now: u64) -> (r: (
    LoginStatus,
    Option<String>,
))
    requires
        old(store).wf(),
    ensures
        final(store).wf(),
        match auth_decision(old(store).cost, old(store).users@, email@, password@) {
            AuthResult::Authenticated(u) => {
                &&& r.0 is LoginOk
                &&& (r.1 matches Some(tok) && tok@.len() == 64 && session_appended(
                    *old(store),
                    *final(store),
                    u@,
                    tok@,
                    now,
                ))
            },
            AuthResult::EmailNotFound => {
                &&& r.0 is EmailIncorrect
                &&& r.1 is None
                &&& *final(store) == *old(store)
            },
            AuthResult::PasswordIncorrect => {
                &&& r.0 is PasswordIncorrect
                &&& r.1 is None
                &&& *final(store) == *old(store)
            },
        },
{
    match authenticate(store, email, password) {
        AuthResult::Authenticated(username) => {
            let token = issue_session(store, username.as_str(), now);
            (LoginStatus::LoginOk, Some(token))
        },
        AuthResult::EmailNotFound => (LoginStatus::EmailIncorrect, None),
        AuthResult::PasswordIncorrect => (LoginStatus::PasswordIncorrect, None),
    }
}

/// The uniform response code for a login outcome: success is named, and
/// both failure kinds collapse into one word, so a response never
/// reveals whether the email or the password was wrong.
pub fn login_response_code(status: &LoginStatus) -> (r: &'static str)
    ensures
        *status is LoginOk ==> r@ == "LoginOk"@,
        !(*status is LoginOk) ==> r@ == "LoginRejected"@,
{
    match status {
        LoginStatus::LoginOk => "LoginOk",
        LoginStatus::EmailIncorrect => "LoginRejected",
        LoginStatus::PasswordIncorrect => "LoginRejected",
    }
}

} // verus!
