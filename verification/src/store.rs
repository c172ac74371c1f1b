//! The credential and session store.
//!
//! All authentication state lives in one store value that the handlers
//! receive explicitly: user credential rows with per-user salts and
//! password hashes, and session rows that keep only a hash of each issued
//! token. Usernames and emails are unique, as the relational store's
//! constraints would enforce; the bcrypt cost factor is fixed when the
//! store is created.

use crate::crypto::SALT_LEN;
use vstd::prelude::*;

verus! {

/// One user row: identity, display nick, password digest under the
/// per-user salt, and the feed counters every fresh row starts with.
pub struct UserCredential {
    pub username: String,
    pub nick: String,
    pub email: String,
    pub password_hash: String,
    pub salt: Vec<u8>,
    pub nb_pictures: u32,
    pub hypes: u32,
}

/// One session row: who the session authenticates as, the SHA-256 digest
/// of the issued token in hex, and when it was issued. The raw token is
/// never stored.
pub struct Session {
    pub owner: String,
    pub token_hash: String,
    pub created_at: u64,
}

/// The store handle the credential manager and the session authority work
/// against.
pub struct AuthStore {
    pub cost: u32,
    pub users: Vec<UserCredential>,
    pub sessions: Vec<Session>,
}

/// No two rows share a username.
pub open spec fn distinct_usernames(users: Seq<UserCredential>) -> bool {
    forall|i: int, j: int|
        #![trigger users[i], users[j]]
        0 <= i < j < users.len() ==> users[i].username@ != users[j].username@
}

/// No two rows share an email.
pub open spec fn distinct_emails(users: Seq<UserCredential>) -> bool {
    forall|i: int, j: int|
        #![trigger users[i], users[j]]
        0 <= i < j < users.len() ==> users[i].email@ != users[j].email@
}

/// Some row carries this email.
pub open spec fn has_email(users: Seq<UserCredential>, email: Seq<char>) -> bool {
    exists|i: int| 0 <= i < users.len() && #[trigger] users[i].email@ == email
}

/// The row carrying this email; meaningful under [`has_email`], and unique
/// under [`distinct_emails`].
pub open spec fn email_index(users: Seq<UserCredential>, email: Seq<char>) -> int {
    choose|i: int| 0 <= i < users.len() && #[trigger] users[i].email@ == email
}

/// Some row carries this username.
pub open spec fn has_username(users: Seq<UserCredential>, username: Seq<char>) -> bool {
    exists|i: int| 0 <= i < users.len() && #[trigger] users[i].username@ == username
}

/// The row carrying this username; meaningful under [`has_username`], and
/// unique under [`distinct_usernames`].
pub open spec fn username_index(users: Seq<UserCredential>, username: Seq<char>) -> int {
    choose|i: int| 0 <= i < users.len() && #[trigger] users[i].username@ == username
}

/// The smallest cost factor the store accepts: below it the slow hash is
/// no barrier to offline brute force.
pub const MIN_BCRYPT_COST: u32 = 4;

/// The largest cost factor the store accepts, bcrypt's classic ceiling.
pub const MAX_BCRYPT_COST: u32 = 31;

impl AuthStore {
    /// Well-formedness: the cost factor is in bcrypt's range, identities
    /// are unique and every salt has its fixed length.
    pub open spec fn wf(&self) -> bool {
        &&& MIN_BCRYPT_COST <= self.cost <= MAX_BCRYPT_COST
        &&& distinct_usernames(self.users@)
        &&& distinct_emails(self.users@)
        &&& forall|i: int|
            0 <= i < self.users@.len() ==> (#[trigger] self.users@[i]).salt@.len() == SALT_LEN
    }

    /// An empty store with the deployment's cost factor, which is fixed
    /// here once and for all.
    pub fn new(cost: u32) -> (s: AuthStore)
        requires
            MIN_BCRYPT_COST <= cost <= MAX_BCRYPT_COST,
        ensures
            s.wf(),
            s.cost == cost,
            s.users@.len() == 0,
            s.sessions@.len() == 0,
    {
        AuthStore { cost, users: Vec::new(), sessions: Vec::new() }
    }
}

/// The row index of the user with this email, scanning as the store's
/// `WHERE email = $1` lookup does.
pub(crate) fn find_email_index(users: &Vec<UserCredential>, email: &String) -> (r: Option<usize>)
    requires
        distinct_emails(users@),
    ensures
        match r {
            Some(i) => has_email(users@, email@) && i == email_index(users@, email@),
            None => !has_email(users@, email@),
        },
{
    let mut i: usize = 0;
    while i < users.len()
        invariant
            i <= users.len(),
            distinct_emails(users@),
            forall|j: int| 0 <= j < i ==> (#[trigger] users@[j]).email@ != email@,
        decreases users.len() - i,
    {
        if users[i].email == *email {
            proof {
                let k = email_index(users@, email@);
                assert(0 <= k < users@.len() && users@[k].email@ == email@);
                assert(k == i);
            }
            return Some(i);
        }
        i = i + 1;
    }
    None
}

/// The row index of the user with this username, scanning as the store's
/// `WHERE username = $1` lookup does.
pub(crate) fn find_username_index(users: &Vec<UserCredential>, username: &String) -> (r: Option<
    usize,
>)
    requires
        distinct_usernames(users@),
    ensures
        match r {
            Some(i) => has_username(users@, username@) && i == username_index(users@, username@),
            None => !has_username(users@, username@),
        },
{
    let mut i: usize = 0;
    while i < users.len()
        invariant
            i <= users.len(),
            distinct_usernames(users@),
            forall|j: int| 0 <= j < i ==> (#[trigger] users@[j]).username@ != username@,
        decreases users.len() - i,
    {
        if users[i].username == *username {
            proof {
                let k = username_index(users@, username@);
                assert(0 <= k < users@.len() && users@[k].username@ == username@);
                assert(k == i);
            }
            return Some(i);
        }
        i = i + 1;
    }
    None
}

} // verus!
