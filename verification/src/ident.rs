//! Viewer ids.

use vstd::prelude::*;

verus! {

/// The number of characters in a viewer id.
pub const VIEWER_ID_LEN: usize = 36;

/// Whether `id` has the shape of an id that the relay hands out.
pub open spec fn is_viewer_id(id: Seq<char>) -> bool {
    id.len() == VIEWER_ID_LEN
}

/// A new random viewer id.
///
/// Calls `uuid::Uuid::new_v4` and formats the result with its `Display`
/// impl. The contract claims only the length: `Display` writes the
/// hyphenated form, 32 hexadecimal digits and 4 hyphens. Which digits come
/// out is a matter of the operating system's random source, so nothing is
/// claimed of them, and two calls may or may not differ. `new_v4` panics
/// where that source fails.
#[verifier::external_body]
pub(crate) fn fresh_viewer_id() -> (id: String)
    ensures
        is_viewer_id(id@),
{
    uuid::Uuid::new_v4().to_string()
}

} // verus!
