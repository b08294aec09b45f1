//! Fresh identifiers for lobbies and players.
use vstd::prelude::*;

verus! {

/// Calls `uuid::Uuid::new_v4` and formats the result with `to_string`: a
/// random version-4 UUID in its hyphenated form, which `uuid`'s `Display`
/// implementation writes as 36 characters. Which UUID comes back is chance.
#[verifier::external_body]
pub fn new_id() -> (id: String)
    ensures
        id@.len() == 36,
{
    uuid::Uuid::new_v4().to_string()
}

} // verus!
