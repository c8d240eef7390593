//! Fresh entity identifiers, drawn from the process's random source. Nothing
//! is assumed of the draw beyond its rendered shape: the store's contracts
//! state what holds whatever identifier comes back.

use vstd::prelude::*;

verus! {

/// Relies on uuid::Uuid::new_v4 and its Display form: a random version-4
/// UUID rendered as the 36-character hyphenated string.
#[verifier::external_body]
pub fn fresh_uuid() -> (r: String)
    ensures
        r@.len() == 36,
{
    uuid::Uuid::new_v4().to_string()
}

} // verus!
