//! Peer-to-peer replication of a change log between database instances.
//!
//! Changes to a database are recorded in a log, framed for the wire, exchanged with
//! peers in sessions, batched, compressed, kept in files and put into snapshots. What
//! each of these does is stated in contracts and proved; networking and file access are
//! left to the program around the library.

use vstd::prelude::*;

pub mod assoc;
pub mod batch;
pub mod change;
pub mod codec;
pub mod common;
pub mod compress;
pub mod config;
pub mod discovery;
pub mod error;
pub mod ext;
pub mod hook;
pub mod notify;
pub mod peer;
pub mod persist;
pub mod pool;
pub mod protocol;
pub mod replicator;
pub mod reputation;
pub mod retry;
pub mod snapshot;
pub mod sync;
pub mod telemetry;

pub use batch::{BatchConfig, BatchingSyncManager, ChangeBatch};
pub use change::Change;
pub use compress::{CompressedData, CompressionConfig, CompressionError};
pub use config::ReplicatorConfig;
pub use discovery::DiscoveryManager;
pub use error::{Error, Result};
pub use hook::{LoggingStorageHook, NoOpStorageHook, QueryHook, StorageHook};
pub use notify::{ChangeEvent, ChangeEventType, ChangeNotifier, ChangeObserver, SubscriptionFilter};
pub use peer::EndpointId;
pub use persist::store::{ChangeStore, FileChangeStore, MemoryChangeStore};
pub use pool::{ConnectionPool, ConnectionPoolConfig, ConnectionPoolStats};
pub use replicator::Replicator;
pub use reputation::{PeerReputation, ReputationFilter, ReputationManager};
pub use retry::{RetryBudget, RetryConfig, RetryError, RetryOperation, RetryPolicy};
pub use snapshot::{
    DatabaseSnapshot, SnapshotChunk, SnapshotConfig, SnapshotExporter, SnapshotImporter,
};
pub use sync::{SyncManager, SyncSnapshot, SyncState};

verus! {

/// ALPN protocol identifier for replication sync, `surrealdb/iroh-sync/1`
pub const SYNC_ALPN: [u8; 21] = protocol::ALPN;

/// Current protocol version
pub const PROTOCOL_VERSION: u32 = 1;

}
