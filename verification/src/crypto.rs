//! Trusted boundary to the outside cryptographic primitives.
//!
//! The password digest, the token digest and the base64 encoding are
//! computed by outside crates; their results are functions of their inputs
//! alone and are only given names here, never spelled out. The random
//! source promises nothing beyond the number of bytes it yields.

use rustc_serialize::base64::ToBase64;
use vstd::prelude::*;
use vstd::utf8::encode_utf8;

verus! {

/// The number of random salt bytes generated for each new credential.
pub const SALT_LEN: usize = 16;

/// The 24-byte bcrypt digest of a password under a salt and a cost factor.
pub uninterp spec fn bcrypt_of(cost: u32, salt: Seq<u8>, password: Seq<u8>) -> Seq<u8>;

/// The 32-byte SHA-256 digest of a byte string.
pub uninterp spec fn sha256_of(data: Seq<u8>) -> Seq<u8>;

/// The unpadded standard-alphabet base64 encoding of a byte string.
pub uninterp spec fn base64_of(data: Seq<u8>) -> Seq<char>;

/// Relies on octavo's `kdf::bcrypt::bcrypt`: the digest depends on the
/// cost, the salt and the password alone, and fills the whole 24-byte
/// output buffer. That function asserts a 16-byte salt and a password of
/// 1 to 72 bytes, and runs `1 << cost` key expansions; the preconditions
/// keep both in range.
#[verifier::external_body]
pub(crate) fn bcrypt_digest(cost: u32, salt: &Vec<u8>, password: &[u8]) -> (r: Vec<u8>)
    requires
        cost <= 31,
        salt@.len() == SALT_LEN,
        0 < password@.len() <= 72,
    ensures
        r@ == bcrypt_of(cost, salt@, password@),
        r@.len() == 24,
{
    let mut out: Vec<u8> = vec![0; 24];
    octavo::kdf::bcrypt::bcrypt(cost as usize, salt, password, &mut out);
    out
}

/// Relies on octavo's `digest::sha2::Sha256`: the digest depends on the
/// input bytes alone and is 32 bytes long.
#[verifier::external_body]
pub(crate) fn sha256_digest(data: &Vec<u8>) -> (r: Vec<u8>)
    ensures
        r@ == sha256_of(data@),
        r@.len() == 32,
{
    let mut out: Vec<u8> = vec![0; 32];
    let mut sha = <octavo::digest::sha2::Sha256 as Default>::default();
    octavo::digest::Digest::update(&mut sha, data);
    octavo::digest::Digest::result(sha, &mut out);
    out
}

/// Relies on rustc-serialize's `ToBase64` for `[u8]`: standard alphabet,
/// no padding, no line breaks; the encoding depends on the input bytes
/// alone.
#[verifier::external_body]
pub fn to_base64(input: &[u8]) -> (r: String)
    ensures
        r@ == base64_of(input@),
{
    let config = rustc_serialize::base64::Config {
        char_set: rustc_serialize::base64::CharacterSet::Standard,
        newline: rustc_serialize::base64::Newline::LF,
        pad: false,
        line_length: None,
    };
    input.to_base64(config)
}

/// Relies on `rand::rng()`, a generator rand marks cryptographically
/// secure (`TryCryptoRng`) and reseeds from OS entropy; nothing is
/// promised of the bytes beyond their number. Its error type is
/// `Infallible`, so the unwrap never fires.
#[verifier::external_body]
pub(crate) fn random_bytes(n: usize) -> (r: Vec<u8>)
    ensures
        r@.len() == n,
{
    let mut buf: Vec<u8> = vec![0; n];
    rand::TryRng::try_fill_bytes(&mut rand::rng(), &mut buf).unwrap();
    buf
}

/// The password lengths, in UTF-8 bytes, that the slow hash accepts:
/// octavo's bcrypt asserts a non-empty input of at most 72 bytes, so
/// anything outside is rejected before it reaches the hash.
pub open spec fn password_in_range(bytes: Seq<u8>) -> bool {
    1 <= bytes.len() <= 72
}

/// The stored form of a password: the base64 encoding of its bcrypt
/// digest under the user's salt and the deployment's cost factor.
pub open spec fn stored_hash(cost: u32, salt: Seq<u8>, password: Seq<char>) -> Seq<char> {
    base64_of(bcrypt_of(cost, salt, encode_utf8(password)))
}

/// Whether a presented password matches a stored hash: its UTF-8 form is
/// in the range the slow hash accepts and hashes under the stored salt to
/// exactly the stored digest.
pub open spec fn password_matches(
    cost: u32,
    salt: Seq<u8>,
    stored: Seq<char>,
    password: Seq<char>,
) -> bool {
    &&& password_in_range(encode_utf8(password))
    &&& stored == stored_hash(cost, salt, password)
}

/// Derive the stored hash of a password, or nothing when the password's
/// UTF-8 form falls outside the range the slow hash accepts.
pub fn derive_password_hash(cost: u32, salt: &Vec<u8>, password: &str) -> (r: Option<String>)
    requires
        cost <= 31,
        salt@.len() == SALT_LEN,
    ensures
        match r {
            Some(h) => password_in_range(encode_utf8(password@)) && h@ == stored_hash(
                cost,
                salt@,
                password@,
            ),
            None => !password_in_range(encode_utf8(password@)),
        },
{
    let bytes = password.as_bytes();
    if bytes.len() == 0 || bytes.len() > 72 {
        None
    } else {
        let digest = bcrypt_digest(cost, salt, bytes);
        Some(to_base64(digest.as_slice()))
    }
}

} // verus!
