//! The one place the crate draws fresh identifiers.

use vstd::prelude::*;

verus! {

/// Relies on `uuid::Uuid::new_v4` and its `ToString` form: 36 characters of
/// hexadecimal digits and hyphens, so never a line break. The value is
/// random; nothing else is assumed of it.
#[verifier::external_body]
pub fn new_uuid_string() -> (r: String)
    ensures
        r@.len() == 36,
        forall|i: int| 0 <= i < r@.len() ==> r@[i] != '\n',
{
    uuid::Uuid::new_v4().to_string()
}

} // verus!
