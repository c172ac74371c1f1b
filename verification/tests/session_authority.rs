use hypest::login::{login, login_response_code, LoginStatus};
use hypest::sessions::{
    check_session, issue_session, logout, prune_expired, validate_session, Cookie, SessionStatus,
    SESSION_TTL_SECS,
};
use hypest::store::AuthStore;
use hypest::users::{create_user, User};

const TEST_COST: u32 = 5;

fn store_with_ada() -> AuthStore {
    let mut store = AuthStore::new(TEST_COST);
    create_user(
        &mut store,
        &User {
            username: String::from("ada"),
            email: String::from("ada@x.com"),
            password: String::from("p@ss1"),
        },
    );
    store
}

#[test]
fn issued_token_validates_for_its_owner() {
    let mut store = store_with_ada();
    let token = issue_session(&mut store, "ada", 1000);
    let status = validate_session(&store, &token, 1000);
    assert!(matches!(status, SessionStatus::Valid(ref u) if u == "ada"));
}

#[test]
fn token_is_hex_and_only_its_digest_is_stored() {
    let mut store = store_with_ada();
    let token = issue_session(&mut store, "ada", 1000);
    assert_eq!(token.len(), 64);
    assert!(token.chars().all(|c| c.is_ascii_hexdigit()));
    let row = &store.sessions[0];
    assert_eq!(row.owner, "ada");
    assert_eq!(row.created_at, 1000);
    assert_eq!(row.token_hash.len(), 64);
    assert_ne!(row.token_hash, token);
}

#[test]
fn two_sessions_get_distinct_tokens() {
    let mut store = store_with_ada();
    let t1 = issue_session(&mut store, "ada", 1000);
    let t2 = issue_session(&mut store, "ada", 1000);
    assert_ne!(t1, t2);
    assert_ne!(store.sessions[0].token_hash, store.sessions[1].token_hash);
}

#[test]
fn unissued_or_garbage_tokens_are_invalid() {
    let mut store = store_with_ada();
    issue_session(&mut store, "ada", 1000);
    for garbage in ["deadbeef", "", "abc", "zzzz", "not hex at all", "00ff"] {
        let status = validate_session(&store, garbage, 1000);
        assert!(matches!(status, SessionStatus::Invalid));
    }
}

#[test]
fn sessions_expire_after_the_ttl() {
    let mut store = store_with_ada();
    let token = issue_session(&mut store, "ada", 1000);
    let last_good = 1000 + SESSION_TTL_SECS;
    assert!(matches!(validate_session(&store, &token, last_good), SessionStatus::Valid(_)));
    assert!(matches!(
        validate_session(&store, &token, last_good + 1),
        SessionStatus::Invalid
    ));
}

#[test]
fn logout_invalidates_only_that_session() {
    let mut store = store_with_ada();
    let t1 = issue_session(&mut store, "ada", 1000);
    let t2 = issue_session(&mut store, "ada", 1000);
    logout(&mut store, &t1);
    assert_eq!(store.sessions.len(), 1);
    assert!(matches!(validate_session(&store, &t1, 1000), SessionStatus::Invalid));
    assert!(matches!(validate_session(&store, &t2, 1000), SessionStatus::Valid(_)));
    // A token that does not decode removes nothing.
    logout(&mut store, "zzz");
    assert_eq!(store.sessions.len(), 1);
}

#[test]
fn pruning_drops_expired_rows_only() {
    let mut store = store_with_ada();
    let stale = issue_session(&mut store, "ada", 0);
    let live = issue_session(&mut store, "ada", 1000);
    let now = SESSION_TTL_SECS + 500;
    prune_expired(&mut store, now);
    assert_eq!(store.sessions.len(), 1);
    assert!(matches!(validate_session(&store, &stale, now), SessionStatus::Invalid));
    assert!(matches!(validate_session(&store, &live, now), SessionStatus::Valid(_)));
}

#[test]
fn check_session_reads_the_sessid_cookie() {
    let mut store = store_with_ada();
    let token = issue_session(&mut store, "ada", 1000);

    let cookies = vec![
        Cookie { name: String::from("theme"), value: String::from("dark") },
        Cookie { name: String::from("SESSID"), value: token.clone() },
    ];
    assert!(matches!(
        check_session(&store, &cookies, 1000),
        SessionStatus::Valid(ref u) if u == "ada"
    ));

    let no_sessid = vec![Cookie { name: String::from("theme"), value: token.clone() }];
    assert!(matches!(check_session(&store, &no_sessid, 1000), SessionStatus::Invalid));
    assert!(matches!(check_session(&store, &vec![], 1000), SessionStatus::Invalid));

    // The first SESSID cookie decides.
    let two = vec![
        Cookie { name: String::from("SESSID"), value: String::from("deadbeef") },
        Cookie { name: String::from("SESSID"), value: token.clone() },
    ];
    assert!(matches!(check_session(&store, &two, 1000), SessionStatus::Invalid));
}

#[test]
fn login_issues_a_session_only_on_success() {
    let mut store = store_with_ada();

    let (status, token) = login(&mut store, "ada@x.com", "wrong", 1000);
    assert_eq!(status, LoginStatus::PasswordIncorrect);
    assert!(token.is_none());
    assert_eq!(store.sessions.len(), 0);

    let (status, token) = login(&mut store, "who@x.com", "p@ss1", 1000);
    assert_eq!(status, LoginStatus::EmailIncorrect);
    assert!(token.is_none());
    assert_eq!(store.sessions.len(), 0);

    let (status, token) = login(&mut store, "ada@x.com", "p@ss1", 1000);
    assert_eq!(status, LoginStatus::LoginOk);
    let token = token.unwrap();
    assert_eq!(store.sessions.len(), 1);
    assert!(matches!(
        validate_session(&store, &token, 1000),
        SessionStatus::Valid(ref u) if u == "ada"
    ));
}

#[test]
fn response_codes_collapse_the_failure_reason() {
    assert_eq!(login_response_code(&LoginStatus::LoginOk), "LoginOk");
    assert_eq!(login_response_code(&LoginStatus::EmailIncorrect), "LoginRejected");
    assert_eq!(login_response_code(&LoginStatus::PasswordIncorrect), "LoginRejected");
}
