//! The access gate: a single shared secret gates the write path.

use vstd::prelude::*;

verus! {

/// Decides whether a presented bearer credential authorizes a write:
/// the credential must equal the configured secret character for character.
pub fn token_matches(presented: &String, secret: &String) -> (r: bool)
    ensures
        r == (presented@ == secret@),
{
    presented.eq(secret)
}

} // verus!
