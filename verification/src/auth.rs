//! Shared-secret authorization of incoming requests.

use crate::result::Rendered;
use crate::result::STATUS_UNAUTHORIZED;
use vstd::prelude::*;
use vstd::string::StringExecFns;

verus! {

/// What the authorization check decided for one request.
#[derive(Clone, Copy, Debug, PartialEq, Eq, Structural)]
pub enum AuthOutcome {
    /// The request carried the shared secret.
    Granted,
    /// The request carried a value that is not the shared secret.
    Mismatch,
    /// The request carried no authorization value at all.
    Missing,
}

/// The decision for a request that carries `header`, under the shared
/// secret `secret`.
pub open spec fn decision(header: Option<Seq<char>>, secret: Seq<char>) -> AuthOutcome {
    match header {
        None => AuthOutcome::Missing,
        Some(value) => if value == secret {
            AuthOutcome::Granted
        } else {
            AuthOutcome::Mismatch
        },
    }
}

/// Decides whether a request may pass: only one whose authorization value
/// is the shared secret.
pub fn authorize(header: Option<&String>, secret: &String) -> (outcome: AuthOutcome)
    ensures
        outcome == decision(
            match header {
                Some(value) => Some(value@),
                None => None,
            },
            secret@,
        ),
{
    match header {
        None => AuthOutcome::Missing,
        Some(value) => if *value == *secret {
            AuthOutcome::Granted
        } else {
            AuthOutcome::Mismatch
        },
    }
}

impl AuthOutcome {
    /// The response that turns the request away, or `None` where the
    /// request may pass.
    pub fn rejection(&self) -> (response: Option<Rendered>)
        ensures
            match self {
                AuthOutcome::Granted => response is None,
                AuthOutcome::Mismatch => response matches Some(r) && r@ == (
                    STATUS_UNAUTHORIZED,
                    "Unauthorized"@,
                ),
                AuthOutcome::Missing => response matches Some(r) && r@ == (
                    STATUS_UNAUTHORIZED,
                    "Missing Authorization header"@,
                ),
            },
    {
        match self {
            AuthOutcome::Granted => None,
            AuthOutcome::Mismatch => Some(
                Rendered { status: STATUS_UNAUTHORIZED, body: String::from_str("Unauthorized") },
            ),
            AuthOutcome::Missing => Some(
                Rendered {
                    status: STATUS_UNAUTHORIZED,
                    body: String::from_str("Missing Authorization header"),
                },
            ),
        }
    }
}

} // verus!
