//! Fresh identities for newly created records.

use vstd::prelude::*;

verus! {

/// Relies on uuid's `Uuid::new_v4`: a random identity whose hyphenated
/// text form is always 36 characters.  Nothing more is promised of a
/// random value.
#[verifier::external_body]
pub fn new_uuid() -> (r: String)
    ensures
        r@.len() == 36,
{
    uuid::Uuid::new_v4().to_string()
}

} // verus!
