//! User management: registration with a fresh random salt, updates of the
//! mutable fields (nick, email, password) and account deletion.

use crate::crypto::{
    derive_password_hash, password_in_range, random_bytes, stored_hash, SALT_LEN,
};
use crate::store::{
    distinct_emails, distinct_usernames, email_index, find_email_index, find_username_index,
    has_email, has_username, username_index, AuthStore, UserCredential, MAX_BCRYPT_COST,
    MIN_BCRYPT_COST,
};
use vstd::prelude::*;
use vstd::string::StringExecFns;
use vstd::utf8::encode_utf8;

verus! {

/// A registration request: the identity the caller claims and the
/// plaintext password, which is hashed here and never stored.
pub struct User {
    pub username: String,
    pub email: String,
    pub password: String,
}

/// The identifier handed back for a freshly created row.
#[derive(Clone, Copy, Debug, PartialEq, Eq, Structural)]
pub struct ReturnId {
    pub id: i32,
}

/// The outcome of a registration.
#[derive(Clone, Copy, Debug, PartialEq, Eq, Structural)]
pub enum RegisterResult {
    /// A row was created; carries its identifier.
    Created(ReturnId),
    /// Username or email is already taken; nothing changed.
    Conflict,
    /// The password cannot be hashed (empty or over 72 UTF-8 bytes);
    /// nothing changed.
    Malformed,
}

/// The outcome of a field update or deletion.
#[derive(Clone, Copy, Debug, PartialEq, Eq, Structural)]
pub enum UpdateResult {
    /// The field was written (or, for `delete`, the row removed).
    Updated,
    /// No row carries the username; nothing changed.
    NotFound,
    /// The new email is already another user's; nothing changed.
    Conflict,
    /// The new password cannot be hashed; nothing changed.
    Malformed,
    /// The field name is none of the mutable ones; nothing changed.
    Ignored,
}

/// Username or email already belongs to a row.
pub open spec fn identity_taken(
    users: Seq<UserCredential>,
    username: Seq<char>,
    email: Seq<char>,
) -> bool {
    has_username(users, username) || has_email(users, email)
}

/// Some row other than `k` carries this email.
pub open spec fn email_taken_by_other(
    users: Seq<UserCredential>,
    k: int,
    email: Seq<char>,
) -> bool {
    exists|j: int| 0 <= j < users.len() && j != k && (#[trigger] users[j]).email@ == email
}

/// What a freshly registered row holds: the claimed identity, the nick
/// defaulted to the username, a salt of the fixed length, the password's
/// digest under that salt, and zeroed feed counters.
pub open spec fn new_row_for(
    u: UserCredential,
    cost: u32,
    username: Seq<char>,
    email: Seq<char>,
    password: Seq<char>,
) -> bool {
    &&& u.username@ == username
    &&& u.nick@ == username
    &&& u.email@ == email
    &&& u.salt@.len() == SALT_LEN
    &&& u.password_hash@ == stored_hash(cost, u.salt@, password)
    &&& u.nb_pictures == 0
    &&& u.hypes == 0
}

/// All rows but `k` are exactly the old ones.
pub open spec fn rows_match_except(
    users0: Seq<UserCredential>,
    users1: Seq<UserCredential>,
    k: int,
) -> bool {
    &&& users1.len() == users0.len()
    &&& forall|j: int|
        #![trigger users1[j]]
        0 <= j < users0.len() && j != k ==> users1[j] == users0[j]
}

/// Row `k` with only the nick rewritten.
pub open spec fn nick_updated(
    users0: Seq<UserCredential>,
    users1: Seq<UserCredential>,
    k: int,
    nick: Seq<char>,
) -> bool {
    &&& rows_match_except(users0, users1, k)
    &&& users1[k].nick@ == nick
    &&& users1[k].username == users0[k].username
    &&& users1[k].email == users0[k].email
    &&& users1[k].password_hash == users0[k].password_hash
    &&& users1[k].salt == users0[k].salt
    &&& users1[k].nb_pictures == users0[k].nb_pictures
    &&& users1[k].hypes == users0[k].hypes
}

/// Row `k` with only the email rewritten.
pub open spec fn email_updated(
    users0: Seq<UserCredential>,
    users1: Seq<UserCredential>,
    k: int,
    email: Seq<char>,
) -> bool {
    &&& rows_match_except(users0, users1, k)
    &&& users1[k].email@ == email
    &&& users1[k].username == users0[k].username
    &&& users1[k].nick == users0[k].nick
    &&& users1[k].password_hash == users0[k].password_hash
    &&& users1[k].salt == users0[k].salt
    &&& users1[k].nb_pictures == users0[k].nb_pictures
    &&& users1[k].hypes == users0[k].hypes
}

/// Row `k` with only the password hash rewritten: the new password's
/// digest under the row's existing salt.
pub open spec fn password_rehashed(
    users0: Seq<UserCredential>,
    users1: Seq<UserCredential>,
    k: int,
    cost: u32,
    password: Seq<char>,
) -> bool {
    &&& rows_match_except(users0, users1, k)
    &&& users1[k].password_hash@ == stored_hash(cost, users0[k].salt@, password)
    &&& users1[k].username == users0[k].username
    &&& users1[k].nick == users0[k].nick
    &&& users1[k].email == users0[k].email
    &&& users1[k].salt == users0[k].salt
    &&& users1[k].nb_pictures == users0[k].nb_pictures
    &&& users1[k].hypes == users0[k].hypes
}

/// What registering yields: a malformed password is rejected first, then
/// a taken identity, and otherwise exactly one new row is appended.
pub open spec fn register_outcome(
    pre: AuthStore,
    post: AuthStore,
    r: RegisterResult,
    username: Seq<char>,
    email: Seq<char>,
    password: Seq<char>,
) -> bool {
    if !password_in_range(encode_utf8(password)) {
        &&& r is Malformed
        &&& post.users@ == pre.users@
    } else if identity_taken(pre.users@, username, email) {
        &&& r is Conflict
        &&& post.users@ == pre.users@
    } else {
        &&& (r matches RegisterResult::Created(rid) && rid.id == pre.users@.len() + 1)
        &&& post.users@.len() == pre.users@.len() + 1
        &&& post.users@.take(pre.users@.len() as int) == pre.users@
        &&& new_row_for(post.users@.last(), pre.cost, username, email, password)
    }
}

/// What a nick update yields.
pub open spec fn nick_outcome(
    pre: AuthStore,
    post: AuthStore,
    r: UpdateResult,
    username: Seq<char>,
    nick: Seq<char>,
) -> bool {
    if !has_username(pre.users@, username) {
        &&& r is NotFound
        &&& post.users@ == pre.users@
    } else {
        &&& r is Updated
        &&& nick_updated(pre.users@, post.users@, username_index(pre.users@, username), nick)
    }
}

/// What an email update yields: a conflict with any other row's email
/// leaves the store untouched.
pub open spec fn email_outcome(
    pre: AuthStore,
    post: AuthStore,
    r: UpdateResult,
    username: Seq<char>,
    email: Seq<char>,
) -> bool {
    if !has_username(pre.users@, username) {
        &&& r is NotFound
        &&& post.users@ == pre.users@
    } else if email_taken_by_other(
        pre.users@,
        username_index(pre.users@, username),
        email,
    ) {
        &&& r is Conflict
        &&& post.users@ == pre.users@
    } else {
        &&& r is Updated
        &&& email_updated(pre.users@, post.users@, username_index(pre.users@, username), email)
    }
}

/// What a password update yields: the hash is re-derived under the row's
/// existing salt.
pub open spec fn password_outcome(
    pre: AuthStore,
    post: AuthStore,
    r: UpdateResult,
    username: Seq<char>,
    password: Seq<char>,
) -> bool {
    if !has_username(pre.users@, username) {
        &&& r is NotFound
        &&& post.users@ == pre.users@
    } else if !password_in_range(encode_utf8(password)) {
        &&& r is Malformed
        &&& post.users@ == pre.users@
    } else {
        &&& r is Updated
        &&& password_rehashed(
            pre.users@,
            post.users@,
            username_index(pre.users@, username),
            pre.cost,
            password,
        )
    }
}

/// What a deletion yields: the row is removed; sessions are not cascaded.
pub open spec fn delete_outcome(
    pre: AuthStore,
    post: AuthStore,
    r: UpdateResult,
    username: Seq<char>,
) -> bool {
    if !has_username(pre.users@, username) {
        &&& r is NotFound
        &&& post.users@ == pre.users@
    } else {
        &&& r is Updated
        &&& post.users@ == pre.users@.remove(username_index(pre.users@, username))
    }
}

/// What one update of a named field yields: the dispatcher's case split
/// over the four mutable operations, with every other name ignored.
pub open spec fn field_outcome(
    pre: AuthStore,
    post: AuthStore,
    r: UpdateResult,
    username: Seq<char>,
    field: Seq<char>,
    value: Seq<char>,
) -> bool {
    &&& post.cost == pre.cost
    &&& post.sessions@ == pre.sessions@
    &&& if field == "nick"@ {
        nick_outcome(pre, post, r, username, value)
    } else if field == "email"@ {
        email_outcome(pre, post, r, username, value)
    } else if field == "password"@ {
        password_outcome(pre, post, r, username, value)
    } else if field == "delete"@ {
        delete_outcome(pre, post, r, username)
    } else {
        r is Ignored && post.users@ == pre.users@
    }
}

/// A whole update request applied field by field: between consecutive
/// store states the matching single-field outcome holds, in the order
/// the pairs are listed.
pub open spec fn updates_applied(
    pre: AuthStore,
    post: AuthStore,
    username: Seq<char>,
    updates: Seq<(String, String)>,
    results: Seq<UpdateResult>,
) -> bool
    decreases updates.len(),
{
    if updates.len() == 0 {
        &&& post == pre
        &&& results.len() == 0
    } else {
        &&& results.len() == updates.len()
        &&& exists|mid: AuthStore|
            #[trigger] field_outcome(pre, mid, results[0], username, updates[0].0@, updates[0].1@)
                && updates_applied(
                mid,
                post,
                username,
                updates.drop_first(),
                results.drop_first(),
            )
    }
}

/// Applying one more update extends the applied chain.
proof fn lemma_updates_applied_snoc(
    pre: AuthStore,
    mid: AuthStore,
    post: AuthStore,
    username: Seq<char>,
    updates: Seq<(String, String)>,
    results: Seq<UpdateResult>,
    u: (String, String),
    r: UpdateResult,
)
    requires
        updates_applied(pre, mid, username, updates, results),
        field_outcome(mid, post, r, username, u.0@, u.1@),
    ensures
        updates_applied(pre, post, username, updates.push(u), results.push(r)),
    decreases updates.len(),
{
    if updates.len() == 0 {
        assert(updates.push(u)[0] == u);
        assert(results.push(r)[0] == r);
        assert(updates.push(u).drop_first() =~= Seq::<(String, String)>::empty());
        assert(results.push(r).drop_first() =~= Seq::<UpdateResult>::empty());
        assert(field_outcome(pre, post, r, username, u.0@, u.1@) && updates_applied(
            post,
            post,
            username,
            updates.push(u).drop_first(),
            results.push(r).drop_first(),
        ));
    } else {
        let mid1 = choose|mid1: AuthStore|
            #[trigger] field_outcome(pre, mid1, results[0], username, updates[0].0@, updates[0].1@)
                && updates_applied(
                mid1,
                mid,
                username,
                updates.drop_first(),
                results.drop_first(),
            );
        lemma_updates_applied_snoc(
            mid1,
            mid,
            post,
            username,
            updates.drop_first(),
            results.drop_first(),
            u,
            r,
        );
        assert(updates.push(u)[0] == updates[0]);
        assert(results.push(r)[0] == results[0]);
        assert(updates.push(u).drop_first() =~= updates.drop_first().push(u));
        assert(results.push(r).drop_first() =~= results.drop_first().push(r));
        assert(field_outcome(
            pre,
            mid1,
            results.push(r)[0],
            username,
            updates.push(u)[0].0@,
            updates.push(u)[0].1@,
        ) && updates_applied(
            mid1,
            post,
            username,
            updates.push(u).drop_first(),
            results.push(r).drop_first(),
        ));
    }
}

/// Well-formedness survives a change of one row that keeps its username,
/// email and salt.
proof fn lemma_wf_after_row_change(pre: AuthStore, post: AuthStore, k: int)
    requires
        pre.wf(),
        post.cost == pre.cost,
        0 <= k < pre.users@.len(),
        rows_match_except(pre.users@, post.users@, k),
        post.users@[k].username == pre.users@[k].username,
        post.users@[k].email == pre.users@[k].email,
        post.users@[k].salt == pre.users@[k].salt,
    ensures
        post.wf(),
{
    let u0 = pre.users@;
    let u1 = post.users@;
    assert forall|j: int| 0 <= j < u1.len() implies (#[trigger] u1[j]).username == u0[j].username
        && u1[j].email == u0[j].email && u1[j].salt == u0[j].salt by {
        if j != k {
            assert(u1[j] == u0[j]);
        }
    }
    assert forall|a: int, b: int|
        #![trigger u1[a], u1[b]]
        0 <= a < b < u1.len() implies u1[a].username@ != u1[b].username@ && u1[a].email@
        != u1[b].email@ by {
        assert(u0[a].username@ != u0[b].username@);
        assert(u0[a].email@ != u0[b].email@);
    }
    assert forall|j: int| 0 <= j < u1.len() implies (#[trigger] u1[j]).salt@.len() == SALT_LEN by {
        assert(u0[j].salt@.len() == SALT_LEN);
    }
}

/// Well-formedness survives a change of one row's email to one no other
/// row carries.
proof fn lemma_wf_after_email_change(pre: AuthStore, post: AuthStore, k: int, email: Seq<char>)
    requires
        pre.wf(),
        post.cost == pre.cost,
        0 <= k < pre.users@.len(),
        rows_match_except(pre.users@, post.users@, k),
        post.users@[k].username == pre.users@[k].username,
        post.users@[k].salt == pre.users@[k].salt,
        post.users@[k].email@ == email,
        !email_taken_by_other(pre.users@, k, email),
    ensures
        post.wf(),
{
    let u0 = pre.users@;
    let u1 = post.users@;
    assert forall|j: int| 0 <= j < u1.len() implies (#[trigger] u1[j]).username == u0[j].username
        && u1[j].salt == u0[j].salt by {
        if j != k {
            assert(u1[j] == u0[j]);
        }
    }
    assert forall|a: int, b: int|
        #![trigger u1[a], u1[b]]
        0 <= a < b < u1.len() implies u1[a].username@ != u1[b].username@ && u1[a].email@
        != u1[b].email@ by {
        assert(u0[a].username@ != u0[b].username@);
        assert(u0[a].email@ != u0[b].email@);
        if a == k {
            assert(u1[b] == u0[b]);
            assert(u0[b].email@ != email);
        } else if b == k {
            assert(u1[a] == u0[a]);
            assert(u0[a].email@ != email);
        } else {
            assert(u1[a] == u0[a]);
            assert(u1[b] == u0[b]);
        }
    }
    assert forall|j: int| 0 <= j < u1.len() implies (#[trigger] u1[j]).salt@.len() == SALT_LEN by {
        assert(u0[j].salt@.len() == SALT_LEN);
    }
}

/// Well-formedness survives removing a row.
proof fn lemma_wf_after_remove(pre: AuthStore, post: AuthStore, k: int)
    requires
        pre.wf(),
        post.cost == pre.cost,
        0 <= k < pre.users@.len(),
        post.users@ == pre.users@.remove(k),
    ensures
        post.wf(),
{
    let u0 = pre.users@;
    let u1 = post.users@;
    assert forall|j: int| 0 <= j < u1.len() implies #[trigger] u1[j] == u0[if j < k {
        j
    } else {
        j + 1
    }] by {}
    assert forall|a: int, b: int|
        #![trigger u1[a], u1[b]]
        0 <= a < b < u1.len() implies u1[a].username@ != u1[b].username@ && u1[a].email@
        != u1[b].email@ by {
        let a0 = if a < k { a } else { a + 1 };
        let b0 = if b < k { b } else { b + 1 };
        assert(u0[a0].username@ != u0[b0].username@);
        assert(u0[a0].email@ != u0[b0].email@);
    }
    assert forall|j: int| 0 <= j < u1.len() implies (#[trigger] u1[j]).salt@.len() == SALT_LEN by {
        let j0 = if j < k { j } else { j + 1 };
        assert(u0[j0].salt@.len() == SALT_LEN);
    }
}

/// Create a new user: generate a fresh random salt, hash the password
/// under it, and append the row unless the identity is already taken.
///
/// Success is owed exactly when the password's UTF-8 form is 1 to 72
/// bytes and neither username nor email has a row yet.
pub fn create_user(store: &mut AuthStore, user: &User) -> (r: RegisterResult)
    requires
        old(store).wf(),
        old(store).users@.len() < 0x7fff_ffff,
    ensures
        final(store).wf(),
        final(store).cost == old(store).cost,
        final(store).sessions@ == old(store).sessions@,
        register_outcome(
            *old(store),
            *final(store),
            r,
            user.username@,
            user.email@,
            user.password@,
        ),
{
    let salt = random_bytes(SALT_LEN);
    let hash = match derive_password_hash(store.cost, &salt, user.password.as_str()) {
        None => {
            return RegisterResult::Malformed;
        },
        Some(h) => h,
    };
    let username_taken = find_username_index(&store.users, &user.username).is_some();
    let email_taken = find_email_index(&store.users, &user.email).is_some();
    if username_taken || email_taken {
        return RegisterResult::Conflict;
    }
    let id = (store.users.len() + 1) as i32;
    let row = UserCredential {
        username: user.username.clone(),
        nick: user.username.clone(),
        email: user.email.clone(),
        password_hash: hash,
        salt,
        nb_pictures: 0,
        hypes: 0,
    };
    store.users.push(row);
    proof {
        let u0 = old(store).users@;
        let u1 = store.users@;
        assert(u1.take(u0.len() as int) =~= u0);
        assert forall|a: int, b: int|
            #![trigger u1[a], u1[b]]
            0 <= a < b < u1.len() implies u1[a].username@ != u1[b].username@ && u1[a].email@
            != u1[b].email@ by {
            if b < u0.len() {
                assert(u0[a].username@ != u0[b].username@);
                assert(u0[a].email@ != u0[b].email@);
            } else {
                assert(u1[a] == u0[a]);
                assert(!(0 <= a < u0.len() && u0[a].username@ == user.username@));
                assert(!(0 <= a < u0.len() && u0[a].email@ == user.email@));
            }
        }
        assert forall|j: int| 0 <= j < u1.len() implies (#[trigger] u1[j]).salt@.len()
            == SALT_LEN by {
            if j < u0.len() {
                assert(u0[j].salt@.len() == SALT_LEN);
            }
        }
    }
    RegisterResult::Created(ReturnId { id })
}

/// Rewrite a user's nick.
pub fn update_nick(store: &mut AuthStore, username: &str, nick: &str) -> (r: UpdateResult)
    requires
        old(store).wf(),
    ensures
        final(store).wf(),
        final(store).cost == old(store).cost,
        final(store).sessions@ == old(store).sessions@,
        nick_outcome(*old(store), *final(store), r, username@, nick@),
{
    let username_key = username.to_owned();
    match find_username_index(&store.users, &username_key) {
        None => UpdateResult::NotFound,
        Some(i) => {
            let new_nick = nick.to_owned();
            let row = &mut store.users[i];
            row.nick = new_nick;
            proof {
                lemma_wf_after_row_change(*old(store), *store, i as int);
            }
            UpdateResult::Updated
        },
    }
}

/// Rewrite a user's email, unless another row already carries the new
/// one: the store's uniqueness constraint is checked, not violated.
pub fn update_email(store: &mut AuthStore, username: &str, email: &str) -> (r: UpdateResult)
    requires
        old(store).wf(),
    ensures
        final(store).wf(),
        final(store).cost == old(store).cost,
        final(store).sessions@ == old(store).sessions@,
        email_outcome(*old(store), *final(store), r, username@, email@),
{
    let username_key = username.to_owned();
    match find_username_index(&store.users, &username_key) {
        None => UpdateResult::NotFound,
        Some(i) => {
            let email_key = email.to_owned();
            let conflict = match find_email_index(&store.users, &email_key) {
                Some(j) => j != i,
                None => false,
            };
            proof {
                let u0 = store.users@;
                if conflict {
                    assert(email_taken_by_other(u0, i as int, email@));
                } else {
                    assert forall|j: int|
                        0 <= j < u0.len() && j != i implies (#[trigger] u0[j]).email@
                        != email@ by {
                        if has_email(u0, email@) {
                            let w = email_index(u0, email@);
                            assert(u0[w].email@ == email@);
                        }
                    }
                }
            }
            if conflict {
                return UpdateResult::Conflict;
            }
            let new_email = email.to_owned();
            let row = &mut store.users[i];
            row.email = new_email;
            proof {
                lemma_wf_after_email_change(*old(store), *store, i as int, email@);
            }
            UpdateResult::Updated
        },
    }
}

/// Rewrite a user's password hash: the new password is hashed under the
/// row's existing salt, so the salt stays fixed for the row's lifetime.
pub fn update_password(store: &mut AuthStore, username: &str, password: &str) -> (r: UpdateResult)
    requires
        old(store).wf(),
    ensures
        final(store).wf(),
        final(store).cost == old(store).cost,
        final(store).sessions@ == old(store).sessions@,
        password_outcome(*old(store), *final(store), r, username@, password@),
{
    let username_key = username.to_owned();
    match find_username_index(&store.users, &username_key) {
        None => UpdateResult::NotFound,
        Some(i) => {
            let new_hash = match derive_password_hash(
                store.cost,
                &store.users[i].salt,
                password,
            ) {
                None => {
                    return UpdateResult::Malformed;
                },
                Some(h) => h,
            };
            let row = &mut store.users[i];
            row.password_hash = new_hash;
            proof {
                lemma_wf_after_row_change(*old(store), *store, i as int);
            }
            UpdateResult::Updated
        },
    }
}

/// Delete a user's row. Any sessions the user still holds are not
/// cascaded here; the session authority's pruning and logout cover them.
pub fn delete_user(store: &mut AuthStore, username: &str) -> (r: UpdateResult)
    requires
        old(store).wf(),
    ensures
        final(store).wf(),
        final(store).cost == old(store).cost,
        final(store).sessions@ == old(store).sessions@,
        delete_outcome(*old(store), *final(store), r, username@),
{
    let username_key = username.to_owned();
    match find_username_index(&store.users, &username_key) {
        None => UpdateResult::NotFound,
        Some(i) => {
            store.users.remove(i);
            proof {
                lemma_wf_after_remove(*old(store), *store, i as int);
            }
            UpdateResult::Updated
        },
    }
}

/// Apply one update to the named user, dispatching on the field name as
/// the update handler's key match does; unrecognized names are ignored,
/// so an unknown key in a request never fails the whole update.
pub fn update_field(store: &mut AuthStore, username: &str, field: &str, value: &str) -> (r:
    UpdateResult)
    requires
        old(store).wf(),
    ensures
        final(store).wf(),
        field_outcome(*old(store), *final(store), r, username@, field@, value@),
{
    let f = field.to_owned();
    if f == "nick".to_owned() {
        update_nick(store, username, value)
    } else if f == "email".to_owned() {
        update_email(store, username, value)
    } else if f == "password".to_owned() {
        update_password(store, username, value)
    } else if f == "delete".to_owned() {
        delete_user(store, username)
    } else {
        UpdateResult::Ignored
    }
}

/// Apply a whole update request to the named user: every (field, value)
/// pair in order, as the update handler walks the request's keys, with
/// one outcome reported per pair.
pub fn update_user(store: &mut AuthStore, username: &str, updates: &Vec<(String, String)>) -> (results:
    Vec<UpdateResult>)
    requires
        old(store).wf(),
    ensures
        final(store).wf(),
        results@.len() == updates@.len(),
        updates_applied(*old(store), *final(store), username@, updates@, results@),
{
    let mut results: Vec<UpdateResult> = Vec::new();
    let mut i: usize = 0;
    proof {
        assert(updates@.take(0) =~= Seq::<(String, String)>::empty());
    }
    while i < updates.len()
        invariant
            i <= updates@.len(),
            store.wf(),
            results@.len() == i,
            updates_applied(*old(store), *store, username@, updates@.take(i as int), results@),
        decreases updates@.len() - i,
    {
        let ghost pre_store = *store;
        let ghost results0 = results@;
        let r = update_field(store, username, updates[i].0.as_str(), updates[i].1.as_str());
        results.push(r);
        proof {
            lemma_updates_applied_snoc(
                *old(store),
                pre_store,
                *store,
                username@,
                updates@.take(i as int),
                results0,
                updates@[i as int],
                r,
            );
            assert(updates@.take(i as int).push(updates@[i as int]) =~= updates@.take(
                i as int + 1,
            ));
        }
        i = i + 1;
    }
    proof {
        assert(updates@.take(updates@.len() as int) =~= updates@);
    }
    results
}

} // verus!
