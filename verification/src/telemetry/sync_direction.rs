//! Well-known `iroh.sync.sync.direction` values.

use vstd::prelude::*;

verus! {

/// Push changes to peer.
pub const PUSH: &'static str = "push";

/// Pull changes from peer.
pub const PULL: &'static str = "pull";

/// Bidirectional sync (push and pull).
pub const BIDIRECTIONAL: &'static str = "bidirectional";

}
