//! Well-known `iroh.sync.sync.type` values.

use vstd::prelude::*;

verus! {

/// Full state snapshot sync.
pub const SNAPSHOT: &'static str = "snapshot";

/// Incremental change sync.
pub const INCREMENTAL: &'static str = "incremental";

}
