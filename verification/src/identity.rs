//! Request identity: presence and credential checks, passed before any
//! registry access.

use vstd::prelude::*;

use crate::registry::DispatchError;
use vstd::string::StrSliceExecFns;

verus! {

/// A validated request identity: who is asking, and for which build.
pub struct Identity {
    pub build_id: String,
    pub instance_id: String,
}

pub open spec fn present_non_empty(v: Option<String>) -> bool {
    match v {
        Some(s) => s@.len() > 0,
        None => false,
    }
}

/// All three values present and non-empty, and the credential equal to the
/// configured secret.
pub open spec fn identity_valid(
    build_id: Option<String>,
    instance_id: Option<String>,
    token: Option<String>,
    secret: Seq<char>,
) -> bool {
    &&& present_non_empty(build_id)
    &&& present_non_empty(instance_id)
    &&& match token {
        Some(t) => t@.len() > 0 && t@ == secret,
        None => false,
    }
}

/// Accepts exactly the identities that carry all three values, none empty,
/// with the right credential; anything else is an invalid request, reported
/// before any state is touched.
pub fn validate_identity(
    build_id: Option<String>,
    instance_id: Option<String>,
    token: Option<String>,
    secret: &String,
) -> (r: Result<Identity, DispatchError>)
    ensures
        match r {
            Ok(id) => identity_valid(build_id, instance_id, token, secret@) && (build_id matches Some(b)
                && id.build_id@ == b@) && (instance_id matches Some(i) && id.instance_id@ == i@),
            Err(e) => e == DispatchError::InvalidRequest && !identity_valid(
                build_id,
                instance_id,
                token,
                secret@,
            ),
        },
{
    match (build_id, instance_id, token) {
        (Some(b), Some(i), Some(t)) => {
            if b.as_str().unicode_len() > 0 && i.as_str().unicode_len() > 0
                && t.as_str().unicode_len() > 0 && t == *secret {
                Ok(Identity { build_id: b, instance_id: i })
            } else {
                Err(DispatchError::InvalidRequest)
            }
        },
        _ => Err(DispatchError::InvalidRequest),
    }
}

} // verus!
