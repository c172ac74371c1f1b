//! System-level properties of the credential manager and the session
//! authority, proved once over the decision and transition functions the
//! executable operations are specified by.

use crate::crypto::{password_in_range, stored_hash};
use crate::login::{auth_decision, AuthResult};
use crate::sessions::{
    first_live_session, session_appended, session_fresh, token_hash_of, validate_decision,
    without_token_hash, SessionStatus,
};
use crate::store::{
    distinct_emails, email_index, has_email, has_username, username_index, AuthStore, Session,
    UserCredential,
};
use crate::users::{
    delete_outcome, password_outcome, register_outcome, RegisterResult, UpdateResult,
};
use crate::hex::{hex_decode, hex_of, lemma_hex_round_trip};
use vstd::prelude::*;
use vstd::utf8::encode_utf8;

verus! {

/// Authenticating with the correct password succeeds: a row whose stored
/// hash is the password's digest under its own salt authenticates as its
/// username.
pub proof fn lemma_correct_password_authenticates(
    cost: u32,
    users: Seq<UserCredential>,
    k: int,
    password: Seq<char>,
)
    requires
        distinct_emails(users),
        0 <= k < users.len(),
        password_in_range(encode_utf8(password)),
        users[k].password_hash@ == stored_hash(cost, users[k].salt@, password),
    ensures
        auth_decision(cost, users, users[k].email@, password) == AuthResult::Authenticated(
            users[k].username,
        ),
{
    let email = users[k].email@;
    assert(has_email(users, email));
    let w = email_index(users, email);
    assert(0 <= w < users.len() && users[w].email@ == email);
    assert(w == k);
}

/// Authenticating with any other password fails: one whose digest under
/// the row's salt differs from the stored one — as any password other
/// than the right one does, barring a bcrypt collision — or one outside
/// the hashable range, is rejected as incorrect.
pub proof fn lemma_wrong_password_fails(
    cost: u32,
    users: Seq<UserCredential>,
    k: int,
    correct: Seq<char>,
    wrong: Seq<char>,
)
    requires
        distinct_emails(users),
        0 <= k < users.len(),
        users[k].password_hash@ == stored_hash(cost, users[k].salt@, correct),
        stored_hash(cost, users[k].salt@, wrong) != stored_hash(cost, users[k].salt@, correct)
            || !password_in_range(encode_utf8(wrong)),
    ensures
        auth_decision(cost, users, users[k].email@, wrong) == AuthResult::PasswordIncorrect,
{
    let email = users[k].email@;
    assert(has_email(users, email));
    let w = email_index(users, email);
    assert(0 <= w < users.len() && users[w].email@ == email);
    assert(w == k);
}

/// A freshly registered user authenticates at once with the password
/// they registered.
pub proof fn lemma_registered_user_authenticates(
    pre: AuthStore,
    post: AuthStore,
    r: RegisterResult,
    username: Seq<char>,
    email: Seq<char>,
    password: Seq<char>,
)
    requires
        post.wf(),
        post.cost == pre.cost,
        register_outcome(pre, post, r, username, email, password),
        r is Created,
    ensures
        auth_decision(post.cost, post.users@, email, password) matches AuthResult::Authenticated(u)
            && u@ == username,
{
    let k = post.users@.len() - 1;
    assert(post.users@[k] == post.users@.last());
    lemma_correct_password_authenticates(post.cost, post.users@, k, password);
}

/// Registering the same email twice yields a conflict on the second call
/// and leaves every row, the first user's included, exactly as it was.
pub proof fn lemma_duplicate_email_conflicts(
    pre: AuthStore,
    mid: AuthStore,
    post: AuthStore,
    r1: RegisterResult,
    r2: RegisterResult,
    username1: Seq<char>,
    username2: Seq<char>,
    email: Seq<char>,
    password1: Seq<char>,
    password2: Seq<char>,
)
    requires
        register_outcome(pre, mid, r1, username1, email, password1),
        r1 is Created,
        register_outcome(mid, post, r2, username2, email, password2),
        password_in_range(encode_utf8(password2)),
    ensures
        r2 is Conflict,
        post.users@ == mid.users@,
{
    let last = mid.users@.len() - 1;
    assert(mid.users@[last].email@ == email);
    assert(has_email(mid.users@, email));
}

/// Scanning a sequence that was just extended by one row: the new row is
/// found exactly when nothing before it matched.
proof fn lemma_first_live_push(s: Seq<Session>, x: Session, h: Seq<char>, now: u64)
    ensures
        first_live_session(s.push(x), h, now) == match first_live_session(s, h, now) {
            Some(y) => Some(y),
            None => if x.token_hash@ == h && session_fresh(x.created_at, now) {
                Some(x)
            } else {
                None::<Session>
            },
        },
    decreases s.len(),
{
    if s.len() == 0 {
        assert(s.push(x)[0] == x);
        assert(s.push(x).drop_first() =~= Seq::<Session>::empty());
    } else {
        assert(s.push(x)[0] == s[0]);
        assert(s.push(x).drop_first() =~= s.drop_first().push(x));
        lemma_first_live_push(s.drop_first(), x, h, now);
    }
}

/// A hash no stored row carries is never found.
proof fn lemma_first_live_none(s: Seq<Session>, h: Seq<char>, now: u64)
    requires
        forall|i: int| 0 <= i < s.len() ==> (#[trigger] s[i]).token_hash@ != h,
    ensures
        first_live_session(s, h, now) is None,
    decreases s.len(),
{
    if s.len() > 0 {
        assert(forall|i: int|
            0 <= i < s.drop_first().len() ==> (#[trigger] s.drop_first()[i]).token_hash@ != h);
        lemma_first_live_none(s.drop_first(), h, now);
    }
}

/// A token validated in the same instant it was issued yields the owner
/// it was issued for — unless an earlier live row happens to carry the
/// same digest (a SHA-256 collision between distinct tokens), which the
/// precondition rules out.
pub proof fn lemma_issued_token_validates(
    pre: AuthStore,
    post: AuthStore,
    owner: Seq<char>,
    token: Seq<char>,
    now: u64,
)
    requires
        session_appended(pre, post, owner, token, now),
        first_live_session(pre.sessions@, post.sessions@.last().token_hash@, now) is None,
    ensures
        validate_decision(post.sessions@, token, now) == SessionStatus::Valid(
            post.sessions@.last().owner,
        ),
        post.sessions@.last().owner@ == owner,
{
    let s = post.sessions@.last();
    let t = choose|t: Seq<u8>|
        #![trigger hex_of(t)]
        t.len() == 32 && token == hex_of(t) && s.token_hash@ == token_hash_of(t);
    lemma_hex_round_trip(t);
    assert(hex_decode(token) == Some(t));
    assert(post.sessions@ =~= pre.sessions@.push(s));
    lemma_first_live_push(pre.sessions@, s, s.token_hash@, now);
    assert(session_fresh(s.created_at, now));
    assert(first_live_session(post.sessions@, token_hash_of(t), now) == Some(s));
}

/// A token that does not even decode as hex is invalid — the check
/// rejects it instead of failing.
pub proof fn lemma_undecodable_token_invalid(sessions: Seq<Session>, token: Seq<char>, now: u64)
    requires
        hex_decode(token) is None,
    ensures
        validate_decision(sessions, token, now) is Invalid,
{
}

/// A token whose digest no stored row carries — as with one that was
/// never issued — is invalid.
pub proof fn lemma_unissued_token_invalid(sessions: Seq<Session>, token: Seq<char>, now: u64)
    requires
        hex_decode(token) matches Some(b) ==> forall|i: int|
            0 <= i < sessions.len() ==> (#[trigger] sessions[i]).token_hash@ != token_hash_of(b),
    ensures
        validate_decision(sessions, token, now) is Invalid,
{
    if hex_decode(token) is Some {
        let b = hex_decode(token)->Some_0;
        lemma_first_live_none(sessions, token_hash_of(b), now);
    }
}

/// Removing a token hash removes every row that carried it.
proof fn lemma_without_removes_all(s: Seq<Session>, h: Seq<char>)
    ensures
        forall|i: int|
            0 <= i < without_token_hash(s, h).len() ==> (#[trigger] without_token_hash(
                s,
                h,
            )[i]).token_hash@ != h,
    decreases s.len(),
{
    if s.len() > 0 {
        lemma_without_removes_all(s.drop_first(), h);
        let w = without_token_hash(s, h);
        let wr = without_token_hash(s.drop_first(), h);
        if s[0].token_hash@ != h {
            assert forall|i: int| 0 <= i < w.len() implies (#[trigger] w[i]).token_hash@ != h by {
                if i == 0 {
                    assert(w[0] == s[0]);
                } else {
                    assert(w[i] == wr[i - 1]);
                }
            }
        }
    }
}

/// After logging a token out, validating that token fails, whenever it
/// is tried.
pub proof fn lemma_logged_out_token_invalid(
    sessions0: Seq<Session>,
    sessions1: Seq<Session>,
    token: Seq<char>,
    now: u64,
)
    requires
        hex_decode(token) matches Some(b) && sessions1 == without_token_hash(
            sessions0,
            token_hash_of(b),
        ),
    ensures
        validate_decision(sessions1, token, now) is Invalid,
{
    let b = hex_decode(token)->Some_0;
    lemma_without_removes_all(sessions0, token_hash_of(b));
    lemma_unissued_token_invalid(sessions1, token, now);
}

/// Changing a password re-derives the hash under the row's unchanged
/// salt, after which the new password authenticates and the old one —
/// its digest differing, barring a bcrypt collision — no longer does.
pub proof fn lemma_password_change_switches_authentication(
    pre: AuthStore,
    post: AuthStore,
    r: UpdateResult,
    username: Seq<char>,
    old_password: Seq<char>,
    new_password: Seq<char>,
)
    requires
        pre.wf(),
        post.wf(),
        post.cost == pre.cost,
        password_outcome(pre, post, r, username, new_password),
        has_username(pre.users@, username),
        password_in_range(encode_utf8(new_password)),
        ({
            let k = username_index(pre.users@, username);
            stored_hash(pre.cost, pre.users@[k].salt@, new_password) != stored_hash(
                pre.cost,
                pre.users@[k].salt@,
                old_password,
            )
        }),
    ensures
        ({
            let k = username_index(pre.users@, username);
            &&& post.users@[k].salt == pre.users@[k].salt
            &&& auth_decision(post.cost, post.users@, pre.users@[k].email@, new_password)
                == AuthResult::Authenticated(post.users@[k].username)
            &&& auth_decision(post.cost, post.users@, pre.users@[k].email@, old_password)
                == AuthResult::PasswordIncorrect
        }),
{
    let k = username_index(pre.users@, username);
    assert(0 <= k < pre.users@.len() && pre.users@[k].username@ == username);
    assert(post.users@[k].email == pre.users@[k].email);
    lemma_correct_password_authenticates(post.cost, post.users@, k, new_password);
    lemma_wrong_password_fails(post.cost, post.users@, k, new_password, old_password);
}

/// After a user is deleted, their email has no row: authentication with
/// the former credentials reports the email as not found, whatever the
/// password.
pub proof fn lemma_deleted_user_not_found(
    pre: AuthStore,
    post: AuthStore,
    r: UpdateResult,
    username: Seq<char>,
)
    requires
        pre.wf(),
        delete_outcome(pre, post, r, username),
        has_username(pre.users@, username),
    ensures
        ({
            let email = pre.users@[username_index(pre.users@, username)].email@;
            &&& !has_email(post.users@, email)
            &&& forall|cost: u32, password: Seq<char>|
                #[trigger] auth_decision(cost, post.users@, email, password)
                    == AuthResult::EmailNotFound
        }),
{
    let k = username_index(pre.users@, username);
    assert(0 <= k < pre.users@.len() && pre.users@[k].username@ == username);
    let email = pre.users@[k].email@;
    let u0 = pre.users@;
    let u1 = post.users@;
    assert(u1 == u0.remove(k));
    assert forall|j: int| 0 <= j < u1.len() implies (#[trigger] u1[j]).email@ != email by {
        let j0 = if j < k {
            j
        } else {
            j + 1
        };
        assert(u1[j] == u0[j0]);
        assert(u0[j0].email@ != u0[k].email@);
    }
    assert(!has_email(u1, email));
}

} // verus!
