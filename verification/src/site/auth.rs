//! Bearer check for the purge endpoint.
use vstd::prelude::*;

use crate::authn::{bearer_matches, spec_bearer_matches};

verus! {

/// The fixed HMAC key of the purge endpoint's bearer check.
pub open spec fn purge_key() -> Seq<u8> {
    seq![112u8, 117, 114, 103, 101, 45, 97, 117, 116, 104]
}

/// Only the pipeline may purge: exact `Bearer <secret>` match, compared in
/// constant time through an HMAC.
pub fn verify_bearer(secret: &str, header: Option<&str>) -> (r: bool)
    ensures
        r == spec_bearer_matches(purge_key(), secret@, crate::content::routes::opt_view(header)),
{
    let key: [u8; 10] = [112, 117, 114, 103, 101, 45, 97, 117, 116, 104];
    assert(key@ =~= purge_key());
    bearer_matches(&key, secret, header)
}

} // verus!
