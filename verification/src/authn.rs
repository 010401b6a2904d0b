//! Constant-time shared-secret bearer-token checks, shared by the workers.
use vstd::prelude::*;
use hmac::{Hmac, Mac};
use sha2::Sha256;

use crate::text::{chars_of, has_prefix, starts_with};

verus! {

/// HMAC-SHA256 of `message` under `key`.
pub uninterp spec fn hmac_sha256(key: Seq<u8>, message: Seq<u8>) -> Seq<u8>;

/// `Hmac::<Sha256>::new_from_slice`, `chain_update` and `finalize`: the
/// HMAC-SHA256 tag of `message` under `key`. `new_from_slice` accepts keys
/// of every length for HMAC, so the error arm is never taken.
#[verifier::external_body]
fn hmac_tag(key: &[u8], message: &[u8]) -> (r: Vec<u8>)
    ensures
        r@ == hmac_sha256(key@, message@),
{
    match Hmac::<Sha256>::new_from_slice(key) {
        Ok(mac) => mac.chain_update(message).finalize().into_bytes().to_vec(),
        Err(_) => Vec::new(),
    }
}

/// `Mac::verify_slice` on an HMAC-SHA256 of `message` under `key`: true
/// exactly when `tag` equals that HMAC (compared in constant time).
#[verifier::external_body]
fn hmac_verify(key: &[u8], message: &[u8], tag: &[u8]) -> (r: bool)
    ensures
        r == (hmac_sha256(key@, message@) == tag@),
{
    match Hmac::<Sha256>::new_from_slice(key) {
        Ok(mac) => mac.chain_update(message).verify_slice(tag).is_ok(),
        Err(_) => false,
    }
}

/// The token a header carries after `Bearer `, if it has that prefix.
pub open spec fn bearer_token(header: Option<Seq<char>>) -> Option<Seq<char>> {
    match header {
        Some(h) => if has_prefix(h, "Bearer "@) {
            Some(h.skip("Bearer "@.len() as int))
        } else {
            None
        },
        None => None,
    }
}

/// The bearer check under a fixed HMAC key: the header carries a token, and
/// the token's HMAC equals the secret's.
pub open spec fn spec_bearer_matches(key: Seq<u8>, secret: Seq<char>, header: Option<Seq<char>>) -> bool {
    match bearer_token(header) {
        Some(token) => hmac_sha256(key, vstd::utf8::encode_utf8(token)) == hmac_sha256(
            key,
            vstd::utf8::encode_utf8(secret),
        ),
        None => false,
    }
}

/// `Bearer <secret>` check: both sides go through an HMAC under `key` so the
/// comparison is constant-time with no length oracle.
pub fn bearer_matches(key: &[u8], secret: &str, header: Option<&str>) -> (r: bool)
    ensures
        r == spec_bearer_matches(key@, secret@, crate::content::routes::opt_view(header)),
{
    let h = match header {
        Some(h) => h,
        None => return false,
    };
    let hc = chars_of(h);
    let prefix = chars_of("Bearer ");
    if !starts_with(&hc, &prefix) {
        return false;
    }
    let token = h.substring_char(prefix.len(), hc.len());
    let expected = hmac_tag(key, secret.as_bytes());
    hmac_verify(key, token.as_bytes(), &expected)
}

/// The fixed HMAC key of the publish endpoints' bearer check.
pub open spec fn authn_key() -> Seq<u8> {
    seq![98u8, 101, 97, 114, 101, 114, 45, 97, 117, 116, 104]
}

/// Exact `Bearer <secret>` match for the publish endpoints.
pub fn verify_bearer(secret: &str, header: Option<&str>) -> (r: bool)
    ensures
        r == spec_bearer_matches(authn_key(), secret@, crate::content::routes::opt_view(header)),
{
    let key: [u8; 11] = [98, 101, 97, 114, 101, 114, 45, 97, 117, 116, 104];
    assert(key@ =~= authn_key());
    bearer_matches(&key, secret, header)
}

/// The exact token always verifies: a header of `Bearer ` followed by the
/// secret passes the check, under any HMAC key.
pub proof fn law_exact_bearer_token_verifies(key: Seq<u8>, secret: Seq<char>)
    ensures
        spec_bearer_matches(key, secret, Some("Bearer "@ + secret)),
{
    let h = "Bearer "@ + secret;
    assert(h.take("Bearer "@.len() as int) =~= "Bearer "@);
    assert(h.skip("Bearer "@.len() as int) =~= secret);
}

/// A header without the `Bearer ` prefix, or no header, never verifies.
pub proof fn law_missing_bearer_prefix_is_rejected(key: Seq<u8>, secret: Seq<char>, header: Option<Seq<char>>)
    requires
        header matches Some(h) ==> !has_prefix(h, "Bearer "@),
    ensures
        !spec_bearer_matches(key, secret, header),
{
}

} // verus!
