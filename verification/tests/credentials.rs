use hypest::crypto::to_base64;
use hypest::login::{authenticate, AuthResult};
use hypest::store::AuthStore;
use hypest::users::{
    create_user, update_field, update_user, RegisterResult, ReturnId, UpdateResult, User,
};

// A low cost keeps the slow hash fast enough for tests; the range check
// is the same as in production.
const TEST_COST: u32 = 5;

fn ada() -> User {
    User {
        username: String::from("ada"),
        email: String::from("ada@x.com"),
        password: String::from("p@ss1"),
    }
}

#[test]
fn register_and_authenticate_scenario() {
    let mut store = AuthStore::new(TEST_COST);
    let r = create_user(&mut store, &ada());
    assert_eq!(r, RegisterResult::Created(ReturnId { id: 1 }));

    let ok = authenticate(&store, "ada@x.com", "p@ss1");
    assert!(matches!(ok, AuthResult::Authenticated(ref u) if u == "ada"));

    let wrong = authenticate(&store, "ada@x.com", "wrong");
    assert!(matches!(wrong, AuthResult::PasswordIncorrect));

    let missing = authenticate(&store, "bab@x.com", "p@ss1");
    assert!(matches!(missing, AuthResult::EmailNotFound));
}

#[test]
fn wrong_passwords_of_any_length_fail() {
    let mut store = AuthStore::new(TEST_COST);
    create_user(&mut store, &ada());
    for wrong in ["p@ss2", "x", "p@ss11", "", &"a".repeat(100)] {
        let r = authenticate(&store, "ada@x.com", wrong);
        assert!(matches!(r, AuthResult::PasswordIncorrect));
    }
}

#[test]
fn duplicate_identity_conflicts_and_mutates_nothing() {
    let mut store = AuthStore::new(TEST_COST);
    create_user(&mut store, &ada());
    let hash_before = store.users[0].password_hash.clone();

    let same_email = User {
        username: String::from("adb"),
        email: String::from("ada@x.com"),
        password: String::from("other"),
    };
    assert_eq!(create_user(&mut store, &same_email), RegisterResult::Conflict);

    let same_username = User {
        username: String::from("ada"),
        email: String::from("adb@x.com"),
        password: String::from("other"),
    };
    assert_eq!(create_user(&mut store, &same_username), RegisterResult::Conflict);

    assert_eq!(store.users.len(), 1);
    assert_eq!(store.users[0].password_hash, hash_before);
    let ok = authenticate(&store, "ada@x.com", "p@ss1");
    assert!(matches!(ok, AuthResult::Authenticated(_)));
}

#[test]
fn unusable_passwords_are_rejected() {
    let mut store = AuthStore::new(TEST_COST);
    let empty = User {
        username: String::from("ada"),
        email: String::from("ada@x.com"),
        password: String::new(),
    };
    assert_eq!(create_user(&mut store, &empty), RegisterResult::Malformed);

    let long = User {
        username: String::from("ada"),
        email: String::from("ada@x.com"),
        password: "a".repeat(73),
    };
    assert_eq!(create_user(&mut store, &long), RegisterResult::Malformed);

    let longest = User {
        username: String::from("ada"),
        email: String::from("ada@x.com"),
        password: "a".repeat(72),
    };
    assert!(matches!(create_user(&mut store, &longest), RegisterResult::Created(_)));
}

#[test]
fn fresh_rows_store_a_salted_digest() {
    let mut store = AuthStore::new(TEST_COST);
    create_user(&mut store, &ada());
    let row = &store.users[0];
    assert_eq!(row.username, "ada");
    assert_eq!(row.nick, "ada");
    assert_eq!(row.salt.len(), 16);
    assert_eq!(row.nb_pictures, 0);
    assert_eq!(row.hypes, 0);
    // Base64 of the 24-byte bcrypt digest, unpadded: 32 characters, and
    // never the encoded password itself.
    assert_eq!(row.password_hash.len(), 32);
    assert_ne!(row.password_hash, to_base64("p@ss1".as_bytes()));
}

#[test]
fn distinct_users_get_distinct_salts() {
    let mut store = AuthStore::new(TEST_COST);
    create_user(&mut store, &ada());
    let second = User {
        username: String::from("bob"),
        email: String::from("bob@x.com"),
        password: String::from("p@ss1"),
    };
    create_user(&mut store, &second);
    assert_ne!(store.users[0].salt, store.users[1].salt);
    assert_ne!(store.users[0].password_hash, store.users[1].password_hash);
}

#[test]
fn password_change_switches_authentication_under_same_salt() {
    let mut store = AuthStore::new(TEST_COST);
    create_user(&mut store, &ada());
    let salt_before = store.users[0].salt.clone();

    let r = update_field(&mut store, "ada", "password", "n3w-p@ss");
    assert_eq!(r, UpdateResult::Updated);

    assert_eq!(store.users[0].salt, salt_before);
    let old = authenticate(&store, "ada@x.com", "p@ss1");
    assert!(matches!(old, AuthResult::PasswordIncorrect));
    let new = authenticate(&store, "ada@x.com", "n3w-p@ss");
    assert!(matches!(new, AuthResult::Authenticated(ref u) if u == "ada"));
}

#[test]
fn deleted_user_is_not_found() {
    let mut store = AuthStore::new(TEST_COST);
    create_user(&mut store, &ada());
    let r = update_field(&mut store, "ada", "delete", "");
    assert_eq!(r, UpdateResult::Updated);
    assert_eq!(store.users.len(), 0);
    let gone = authenticate(&store, "ada@x.com", "p@ss1");
    assert!(matches!(gone, AuthResult::EmailNotFound));
}

#[test]
fn nick_and_email_updates() {
    let mut store = AuthStore::new(TEST_COST);
    create_user(&mut store, &ada());
    let second = User {
        username: String::from("bob"),
        email: String::from("bob@x.com"),
        password: String::from("hunter2"),
    };
    create_user(&mut store, &second);

    assert_eq!(update_field(&mut store, "ada", "nick", "countess"), UpdateResult::Updated);
    assert_eq!(store.users[0].nick, "countess");

    // Another user's email is refused; a fresh one is applied.
    assert_eq!(update_field(&mut store, "ada", "email", "bob@x.com"), UpdateResult::Conflict);
    assert_eq!(store.users[0].email, "ada@x.com");
    assert_eq!(update_field(&mut store, "ada", "email", "lovelace@x.com"), UpdateResult::Updated);
    let moved = authenticate(&store, "lovelace@x.com", "p@ss1");
    assert!(matches!(moved, AuthResult::Authenticated(ref u) if u == "ada"));
    let old_email = authenticate(&store, "ada@x.com", "p@ss1");
    assert!(matches!(old_email, AuthResult::EmailNotFound));

    // Re-claiming one's own email is no conflict.
    assert_eq!(
        update_field(&mut store, "ada", "email", "lovelace@x.com"),
        UpdateResult::Updated
    );
}

#[test]
fn whole_requests_apply_in_order() {
    let mut store = AuthStore::new(TEST_COST);
    create_user(&mut store, &ada());
    let updates = vec![
        (String::from("nick"), String::from("countess")),
        (String::from("shoe_size"), String::from("7")),
        (String::from("password"), String::from("n3w-p@ss")),
        (String::from("delete"), String::new()),
        (String::from("nick"), String::from("ghost")),
    ];
    let results = update_user(&mut store, "ada", &updates);
    assert_eq!(
        results,
        vec![
            UpdateResult::Updated,
            UpdateResult::Ignored,
            UpdateResult::Updated,
            UpdateResult::Updated,
            UpdateResult::NotFound,
        ]
    );
    assert_eq!(store.users.len(), 0);
}

#[test]
fn unknown_fields_are_ignored_and_missing_users_reported() {
    let mut store = AuthStore::new(TEST_COST);
    create_user(&mut store, &ada());
    assert_eq!(update_field(&mut store, "ada", "likes", "9000"), UpdateResult::Ignored);
    assert_eq!(store.users.len(), 1);
    assert_eq!(update_field(&mut store, "ghost", "nick", "boo"), UpdateResult::NotFound);
    assert_eq!(update_field(&mut store, "ghost", "password", "pw"), UpdateResult::NotFound);
    assert_eq!(update_field(&mut store, "ghost", "delete", ""), UpdateResult::NotFound);
    assert_eq!(update_field(&mut store, "ada", "password", ""), UpdateResult::Malformed);
}
