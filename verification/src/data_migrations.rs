//! The version of the data.

use vstd::prelude::*;

use crate::format::parse_signed;
#[allow(unused_imports)]
use crate::format::parsed_signed;
use crate::text::Text;

verus! {

/// The version of the data that this library leaves behind.
pub const DATA_VERSION: i64 = 0;

/// The version of the data that this library leaves behind.
pub fn current_data_version() -> (r: i64)
    ensures
        r == DATA_VERSION,
{
    DATA_VERSION
}

/// The version in a stored text; 0 where there is none, or none that can be read.
pub open spec fn version_said(stored: Option<Text>) -> int {
    match stored {
        Some(t) => match parsed_signed(t) {
            Some(n) => n,
            None => 0,
        },
        None => 0,
    }
}

/// The version in a stored text; 0 where there is none, or none that can be read.
pub fn data_version_of(stored: &Option<String>) -> (r: i64)
    ensures
        r == version_said(stored.deep_view()),
{
    match stored {
        Some(t) => match parse_signed(t.as_str()) {
            Some(n) => n,
            None => 0,
        },
        None => 0,
    }
}

/// The version to store, where the stored one is behind.
pub fn data_version_to_store(stored: &Option<String>) -> (r: Option<i64>)
    ensures
        r == (if version_said(stored.deep_view()) < DATA_VERSION {
            Some(DATA_VERSION)
        } else {
            None::<i64>
        }),
{
    if data_version_of(stored) < DATA_VERSION {
        Some(DATA_VERSION)
    } else {
        None
    }
}

} // verus!
