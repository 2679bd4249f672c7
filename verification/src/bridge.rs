//! Databases that an older tool has migrated.

use vstd::prelude::*;

use crate::text::str_equal;

verus! {

/// Whether a database with the table of the older tool still has to be marked as taken
/// over, by the mark that it has.
pub fn needs_bridge(has_legacy: bool, marker: &Option<String>) -> (r: bool)
    ensures
        r == (has_legacy && marker.deep_view() != Some("1"@)),
{
    match marker {
        Some(m) => has_legacy && !str_equal(m.as_str(), "1"),
        None => has_legacy,
    }
}

} // verus!
