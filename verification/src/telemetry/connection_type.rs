//! Well-known `iroh.sync.connection.type` values.

use vstd::prelude::*;

verus! {

/// Direct peer-to-peer connection (no relay).
pub const DIRECT: &'static str = "direct";

/// Connection via relay server.
pub const RELAY: &'static str = "relay";

/// Hole-punched connection (initially relay, then direct).
pub const HOLE_PUNCHED: &'static str = "hole_punched";

}
