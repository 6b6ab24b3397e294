//! Integration points for connecting replication to a database.

use bytes::Bytes;
use crate::change::{Change, ChangeOperation};
use crate::peer::EndpointId;
use vstd::prelude::*;

verus! {

/// Trait for integration with database storage backends.
///
/// Implement this trait to receive notifications when database changes occur and when
/// sync operations complete.
pub trait StorageHook: Send + Sync {
    /// Called when a change occurs in the database.
    fn on_change(&self, change: Change);

    /// Called when a sync is requested.
    fn on_sync_request(&self, peer_id: &EndpointId);

    /// Called when sync completes.
    fn on_sync_complete(&self, peer_id: &EndpointId, changes_applied: usize);
}

/// Trait for integration with database query engine.
pub trait QueryHook: Send + Sync {
    /// Called before a query is executed.
    fn on_query_start(&self, query: &str);

    /// Called after a query completes.
    fn on_query_complete(&self, query: &str, duration_ms: u64);
}

/// A no-op storage hook that does nothing.
pub struct NoOpStorageHook;

impl StorageHook for NoOpStorageHook {
    fn on_change(&self, _change: Change) {
    }

    fn on_sync_request(&self, _peer_id: &EndpointId) {
    }

    fn on_sync_complete(&self, _peer_id: &EndpointId, _changes_applied: usize) {
    }
}

/// What a storage hook that logs all events logs them for.
pub struct LoggingStorageHook {
    namespace: String,
    database: String,
}

impl LoggingStorageHook {
    /// The namespace whose events are logged.
    pub closed spec fn of_namespace(self) -> Seq<char> {
        self.namespace@
    }

    /// The database whose events are logged.
    pub closed spec fn of_database(self) -> Seq<char> {
        self.database@
    }

    /// Create a hook for a namespace and a database.
    pub fn new(namespace: &str, database: &str) -> (h: Self)
        ensures
            h.of_namespace() == namespace@,
            h.of_database() == database@,
    {
        LoggingStorageHook { namespace: namespace.to_owned(), database: database.to_owned() }
    }

    /// The namespace whose events are logged.
    pub fn namespace(&self) -> (s: &String)
        ensures
            s@ == self.of_namespace(),
    {
        &self.namespace
    }

    /// The database whose events are logged.
    pub fn database(&self) -> (s: &String)
        ensures
            s@ == self.of_database(),
    {
        &self.database
    }
}

/// The change that stands for a write in a database: a set, where the key has a value
/// after the write, and a deletion where it has none.
pub fn db_change(namespace: &str, database: &str, key: Bytes, value: Option<Bytes>) -> (c: Change)
    ensures
        c.is_new(),
        c.wf(),
        c.namespace@ == namespace@,
        c.database@ == database@,
        c.table is None,
        c.operation == (if value is Some {
            ChangeOperation::SetValue
        } else {
            ChangeOperation::Delete
        }),
        c.key == Some(key),
        c.value == value,
{
    match value {
        Some(v) => Change::set(namespace, database, key, v),
        None => Change::delete(namespace, database, key),
    }
}

/// A write in a database becomes a change of its key: to its value, where it has one, and a
/// deletion where it has none.
pub proof fn write_becomes_a_change(
    namespace: &str,
    database: &str,
    key: Bytes,
    value: Option<Bytes>,
    c: Change,
)
    requires
        call_ensures(db_change, (namespace, database, key, value), c),
    ensures
        c.namespace@ == namespace@,
        c.database@ == database@,
        c.key == Some(key),
        c.value == value,
        value is Some <==> c.operation is SetValue,
        value is None <==> c.operation is Delete,
        c.table is None,
        c.metadata@.len() == 0,
{
}

}
