//! The session authority: issuing opaque session tokens, validating the
//! token a request presents, and invalidating sessions.
//!
//! A token is 32 random bytes, handed to the client hex-encoded exactly
//! once; only its SHA-256 digest (hex-encoded) is stored. Validation
//! decodes the presented token, digests it the same way, and looks the
//! digest up among the stored rows; sessions older than the TTL count as
//! invalid.

use crate::crypto::{random_bytes, sha256_digest, sha256_of};
use crate::hex::{bytes_to_hex, hex_decode, hex_of, hex_to_bytes, lemma_hex_of_len};
use crate::store::{AuthStore, Session};
use vstd::prelude::*;

verus! {

/// How long an issued session stays valid, in seconds: a security
/// parameter fixed here for the deployment.
pub const SESSION_TTL_SECS: u64 = 86400;

/// The outcome of a session check.
pub enum SessionStatus {
    /// A live session matched; carries the username it authenticates as.
    Valid(String),
    /// No cookie, an undecodable token, no matching row, or an expired
    /// one.
    Invalid,
}

/// The stored form of a token: the hex encoding of its SHA-256 digest.
pub open spec fn token_hash_of(t: Seq<u8>) -> Seq<char> {
    hex_of(sha256_of(t))
}

/// A session issued at `created_at` is still live at `now`.
pub open spec fn session_fresh(created_at: u64, now: u64) -> bool {
    now <= created_at + SESSION_TTL_SECS
}

/// The first stored session carrying this token hash and still live, in
/// row order.
pub open spec fn first_live_session(sessions: Seq<Session>, h: Seq<char>, now: u64) -> Option<
    Session,
>
    decreases sessions.len(),
{
    if sessions.len() == 0 {
        None
    } else if sessions[0].token_hash@ == h && session_fresh(sessions[0].created_at, now) {
        Some(sessions[0])
    } else {
        first_live_session(sessions.drop_first(), h, now)
    }
}

/// What validating a presented token returns: an undecodable token is
/// invalid, otherwise the token's digest is looked up among the live
/// rows.
pub open spec fn validate_decision(sessions: Seq<Session>, token: Seq<char>, now: u64) -> SessionStatus {
    match hex_decode(token) {
        None => SessionStatus::Invalid,
        Some(bytes) => match first_live_session(sessions, token_hash_of(bytes), now) {
            Some(s) => SessionStatus::Valid(s.owner),
            None => SessionStatus::Invalid,
        },
    }
}

/// The row appended for a fresh session: issued now, owned by `owner`,
/// storing only the digest of the 32 random bytes the returned token
/// encodes.
pub open spec fn fresh_session_for(s: Session, owner: Seq<char>, token: Seq<char>, now: u64) -> bool {
    &&& s.owner@ == owner
    &&& s.created_at == now
    &&& exists|t: Seq<u8>|
        #![trigger hex_of(t)]
        t.len() == 32 && token == hex_of(t) && s.token_hash@ == token_hash_of(t)
}

/// Issuing a session appends exactly one fresh row and touches nothing
/// else.
pub open spec fn session_appended(
    pre: AuthStore,
    post: AuthStore,
    owner: Seq<char>,
    token: Seq<char>,
    now: u64,
) -> bool {
    &&& post.cost == pre.cost
    &&& post.users@ == pre.users@
    &&& post.sessions@.len() == pre.sessions@.len() + 1
    &&& post.sessions@.take(pre.sessions@.len() as int) == pre.sessions@
    &&& fresh_session_for(post.sessions@.last(), owner, token, now)
}

/// Issue a session for a username: draw 32 random bytes, store their
/// digest with the owner and the issue time, and return the raw token
/// hex-encoded — the only time it ever leaves.
pub fn issue_session(store: &mut AuthStore, username: &str, now: u64) -> (token: String)
    requires
        old(store).wf(),
    ensures
        final(store).wf(),
        token@.len() == 64,
        session_appended(*old(store), *final(store), username@, token@, now),
{
    let t = random_bytes(32);
    let token_hash_bin = sha256_digest(&t);
    let token_hash_hex = bytes_to_hex(&token_hash_bin);
    let token_hex = bytes_to_hex(&t);
    let session = Session {
        owner: username.to_owned(),
        token_hash: token_hash_hex,
        created_at: now,
    };
    store.sessions.push(session);
    proof {
        lemma_hex_of_len(t@);
        assert(store.sessions@.take(old(store).sessions@.len() as int) =~= old(store).sessions@);
        assert(store.sessions@.last().token_hash@ == token_hash_of(t@));
    }
    token_hex
}

/// Validate a presented token against the store: decode, digest, look
/// up. Reads only, and never fails on garbage input.
pub fn validate_session(store: &AuthStore, token: &str, now: u64) -> (r: SessionStatus)
    ensures
        r == validate_decision(store.sessions@, token@, now),
{
    let bytes = match hex_to_bytes(token) {
        None => {
            return SessionStatus::Invalid;
        },
        Some(b) => b,
    };
    let digest = sha256_digest(&bytes);
    let h = bytes_to_hex(&digest);
    let ghost target = token_hash_of(hex_decode(token@)->Some_0);
    let mut i: usize = 0;
    proof {
        assert(store.sessions@.skip(0) =~= store.sessions@);
    }
    while i < store.sessions.len()
        invariant
            i <= store.sessions@.len(),
            hex_decode(token@) == Some(bytes@),
            h@ == target,
            target == token_hash_of(bytes@),
            first_live_session(store.sessions@, target, now) == first_live_session(
                store.sessions@.skip(i as int),
                target,
                now,
            ),
        decreases store.sessions@.len() - i,
    {
        let s = &store.sessions[i];
        let fresh = now <= s.created_at || now - s.created_at <= SESSION_TTL_SECS;
        proof {
            assert(store.sessions@.skip(i as int)[0] == store.sessions@[i as int]);
        }
        if s.token_hash == h && fresh {
            proof {
                assert(first_live_session(store.sessions@.skip(i as int), target, now) == Some(
                    store.sessions@[i as int],
                ));
            }
            return SessionStatus::Valid(s.owner.clone());
        }
        proof {
            assert(store.sessions@.skip(i as int).drop_first() =~= store.sessions@.skip(
                i as int + 1,
            ));
        }
        i = i + 1;
    }
    proof {
        assert(store.sessions@.skip(store.sessions@.len() as int) =~= Seq::<Session>::empty());
    }
    SessionStatus::Invalid
}

/// One cookie of a request, as the HTTP layer hands them over.
pub struct Cookie {
    pub name: String,
    pub value: String,
}

/// The first cookie carrying this name, in header order.
pub open spec fn first_cookie_named(cookies: Seq<Cookie>, name: Seq<char>) -> Option<Cookie>
    decreases cookies.len(),
{
    if cookies.len() == 0 {
        None
    } else if cookies[0].name@ == name {
        Some(cookies[0])
    } else {
        first_cookie_named(cookies.drop_first(), name)
    }
}

/// What checking a request's cookies returns: without a session cookie
/// the request is rejected, otherwise its value is validated as a token.
pub open spec fn check_decision(sessions: Seq<Session>, cookies: Seq<Cookie>, now: u64) -> SessionStatus {
    match first_cookie_named(cookies, "SESSID"@) {
        None => SessionStatus::Invalid,
        Some(c) => validate_decision(sessions, c.value@, now),
    }
}

/// Check the validity of a request's session cookie: find the first
/// cookie named `SESSID` and validate its value; a request without one
/// is invalid.
pub fn check_session(store: &AuthStore, cookies: &Vec<Cookie>, now: u64) -> (r: SessionStatus)
    ensures
        r == check_decision(store.sessions@, cookies@, now),
{
    let key = "SESSID".to_owned();
    let mut i: usize = 0;
    proof {
        assert(cookies@.skip(0) =~= cookies@);
    }
    while i < cookies.len()
        invariant
            i <= cookies@.len(),
            key@ == "SESSID"@,
            first_cookie_named(cookies@, "SESSID"@) == first_cookie_named(
                cookies@.skip(i as int),
                "SESSID"@,
            ),
        decreases cookies@.len() - i,
    {
        proof {
            assert(cookies@.skip(i as int)[0] == cookies@[i as int]);
        }
        if cookies[i].name == key {
            return validate_session(store, cookies[i].value.as_str(), now);
        }
        proof {
            assert(cookies@.skip(i as int).drop_first() =~= cookies@.skip(i as int + 1));
        }
        i = i + 1;
    }
    proof {
        assert(cookies@.skip(cookies@.len() as int) =~= Seq::<Cookie>::empty());
    }
    SessionStatus::Invalid
}

/// The sessions left after removing every row with this token hash.
pub open spec fn without_token_hash(sessions: Seq<Session>, h: Seq<char>) -> Seq<Session>
    decreases sessions.len(),
{
    if sessions.len() == 0 {
        Seq::empty()
    } else if sessions[0].token_hash@ == h {
        without_token_hash(sessions.drop_first(), h)
    } else {
        seq![sessions[0]] + without_token_hash(sessions.drop_first(), h)
    }
}

/// The sessions still live at `now`, in row order.
pub open spec fn live_sessions(sessions: Seq<Session>, now: u64) -> Seq<Session>
    decreases sessions.len(),
{
    if sessions.len() == 0 {
        Seq::empty()
    } else if session_fresh(sessions[0].created_at, now) {
        seq![sessions[0]] + live_sessions(sessions.drop_first(), now)
    } else {
        live_sessions(sessions.drop_first(), now)
    }
}

/// A field-for-field copy of a session row.
fn copy_session(s: &Session) -> (r: Session)
    ensures
        r == *s,
{
    Session { owner: s.owner.clone(), token_hash: s.token_hash.clone(), created_at: s.created_at }
}

/// Explicit invalidation: drop every session row whose stored hash is
/// the presented token's digest. A token that does not decode matches no
/// row and changes nothing.
pub fn logout(store: &mut AuthStore, token: &str)
    requires
        old(store).wf(),
    ensures
        final(store).wf(),
        final(store).cost == old(store).cost,
        final(store).users@ == old(store).users@,
        match hex_decode(token@) {
            Some(b) => final(store).sessions@ == without_token_hash(
                old(store).sessions@,
                token_hash_of(b),
            ),
            None => final(store).sessions@ == old(store).sessions@,
        },
{
    let bytes = match hex_to_bytes(token) {
        None => {
            return;
        },
        Some(b) => b,
    };
    let digest = sha256_digest(&bytes);
    let h = bytes_to_hex(&digest);
    let ghost target = token_hash_of(hex_decode(token@)->Some_0);
    let mut kept: Vec<Session> = Vec::new();
    let mut i: usize = 0;
    proof {
        assert(store.sessions@.skip(0) =~= store.sessions@);
        assert(kept@ + without_token_hash(store.sessions@, target) =~= without_token_hash(
            store.sessions@,
            target,
        ));
    }
    while i < store.sessions.len()
        invariant
            i <= store.sessions@.len(),
            h@ == target,
            without_token_hash(store.sessions@, target) == kept@ + without_token_hash(
                store.sessions@.skip(i as int),
                target,
            ),
        decreases store.sessions@.len() - i,
    {
        proof {
            assert(store.sessions@.skip(i as int)[0] == store.sessions@[i as int]);
            assert(store.sessions@.skip(i as int).drop_first() =~= store.sessions@.skip(
                i as int + 1,
            ));
        }
        let s = &store.sessions[i];
        if !(s.token_hash == h) {
            let ghost kept0 = kept@;
            kept.push(copy_session(s));
            proof {
                assert(kept@ + without_token_hash(store.sessions@.skip(i as int + 1), target)
                    =~= kept0 + (seq![store.sessions@[i as int]] + without_token_hash(
                    store.sessions@.skip(i as int + 1),
                    target,
                )));
            }
        }
        i = i + 1;
    }
    proof {
        assert(store.sessions@.skip(store.sessions@.len() as int) =~= Seq::<Session>::empty());
        assert(kept@ + Seq::<Session>::empty() =~= kept@);
    }
    store.sessions = kept;
}

/// Remove every expired session row, keeping the live ones in order.
pub fn prune_expired(store: &mut AuthStore, now: u64)
    requires
        old(store).wf(),
    ensures
        final(store).wf(),
        final(store).cost == old(store).cost,
        final(store).users@ == old(store).users@,
        final(store).sessions@ == live_sessions(old(store).sessions@, now),
{
    let mut kept: Vec<Session> = Vec::new();
    let mut i: usize = 0;
    proof {
        assert(store.sessions@.skip(0) =~= store.sessions@);
        assert(kept@ + live_sessions(store.sessions@, now) =~= live_sessions(
            store.sessions@,
            now,
        ));
    }
    while i < store.sessions.len()
        invariant
            i <= store.sessions@.len(),
            live_sessions(store.sessions@, now) == kept@ + live_sessions(
                store.sessions@.skip(i as int),
                now,
            ),
        decreases store.sessions@.len() - i,
    {
        proof {
            assert(store.sessions@.skip(i as int)[0] == store.sessions@[i as int]);
            assert(store.sessions@.skip(i as int).drop_first() =~= store.sessions@.skip(
                i as int + 1,
            ));
        }
        let s = &store.sessions[i];
        if now <= s.created_at || now - s.created_at <= SESSION_TTL_SECS {
            let ghost kept0 = kept@;
            kept.push(copy_session(s));
            proof {
                assert(kept@ + live_sessions(store.sessions@.skip(i as int + 1), now) =~= kept0
                    + (seq![store.sessions@[i as int]] + live_sessions(
                    store.sessions@.skip(i as int + 1),
                    now,
                )));
            }
        }
        i = i + 1;
    }
    proof {
        assert(store.sessions@.skip(store.sessions@.len() as int) =~= Seq::<Session>::empty());
        assert(kept@ + Seq::<Session>::empty() =~= kept@);
    }
    store.sessions = kept;
}

} // verus!
