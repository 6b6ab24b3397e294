//! Database changes and the messages that carry them between peers.

use bytes::Bytes;
use crate::assoc;
use crate::common;
use crate::common::current_timestamp_nanos;
use crate::ext::byte_buf;
use crate::ext::ids;
use crate::ext::ids::new_uuid;
use std::time::SystemTime;
use vstd::prelude::*;

verus! {

/// Type of change operation.
#[derive(Debug, Clone, Copy, PartialEq, Eq, Structural)]
pub enum ChangeOperation {
    /// A query was executed
    Query,
    /// A key-value pair was set
    SetValue,
    /// A key was deleted
    Delete,
    /// A transaction was committed
    Commit,
    /// Schema change (DEFINE statement)
    Schema,
    /// Authentication change
    Auth,
    /// Live query notification
    LiveNotify,
}

/// Represents a single change to the database.
#[derive(Debug)]
pub struct Change {
    /// Unique identifier for this change, the bytes of a UUID
    pub id: [u8; 16],
    /// Timestamp when the change was made
    pub timestamp: u64,
    /// The namespace affected
    pub namespace: String,
    /// The database affected
    pub database: String,
    /// The table affected (if applicable)
    pub table: Option<String>,
    /// The type of operation
    pub operation: ChangeOperation,
    /// The key affected (for low-level key-value operations)
    pub key: Option<Bytes>,
    /// The serialized value (for set operations)
    pub value: Option<Bytes>,
    /// Additional metadata, one value for each key
    pub metadata: Vec<(String, String)>,
}

/// What a change says, free of how it is held.
#[verifier::ext_equal]
pub struct ChangeModel {
    pub id: Seq<u8>,
    pub timestamp: u64,
    pub namespace: Seq<char>,
    pub database: Seq<char>,
    pub table: Option<Seq<char>>,
    pub operation: ChangeOperation,
    pub key: Option<Seq<u8>>,
    pub value: Option<Seq<u8>>,
    pub metadata: Seq<(Seq<char>, Seq<char>)>,
}

/// The characters of an optional text.
pub open spec fn opt_text(s: Option<String>) -> Option<Seq<char>> {
    match s {
        Some(t) => Some(t@),
        None => None,
    }
}

/// The bytes of an optional `Bytes`.
pub open spec fn opt_bytes(b: Option<Bytes>) -> Option<Seq<u8>> {
    match b {
        Some(x) => Some(byte_buf::bytes_of(x)),
        None => None,
    }
}

impl View for Change {
    type V = ChangeModel;

    open spec fn view(&self) -> ChangeModel {
        ChangeModel {
            id: self.id@,
            timestamp: self.timestamp,
            namespace: self.namespace@,
            database: self.database@,
            table: opt_text(self.table),
            operation: self.operation,
            key: opt_bytes(self.key),
            value: opt_bytes(self.value),
            metadata: assoc::keyed(self.metadata@),
        }
    }
}

/// What the changes of a list say, in order.
pub open spec fn changes_view(changes: Seq<Change>) -> Seq<ChangeModel> {
    Seq::new(changes.len(), |i: int| changes[i]@)
}

pub(crate) fn clone_opt_text(s: &Option<String>) -> (r: Option<String>)
    ensures
        opt_text(r) == opt_text(*s),
{
    match s {
        Some(t) => Some(t.clone()),
        None => None,
    }
}

pub(crate) fn clone_opt_bytes(b: &Option<Bytes>) -> (r: Option<Bytes>)
    ensures
        opt_bytes(r) == opt_bytes(*b),
{
    match b {
        Some(x) => Some(x.clone()),
        None => None,
    }
}

fn clone_pairs(pairs: &Vec<(String, String)>) -> (r: Vec<(String, String)>)
    ensures
        assoc::keyed(r@) == assoc::keyed(pairs@),
{
    let mut r: Vec<(String, String)> = Vec::new();
    let mut i: usize = 0;
    while i < pairs.len()
        invariant
            i <= pairs.len(),
            r.len() == i,
            forall|k: int|
                0 <= k < i ==> (#[trigger] r@[k]).0@ == pairs@[k].0@ && r@[k].1@ == pairs@[k].1@,
        decreases pairs.len() - i,
    {
        r.push((pairs[i].0.clone(), pairs[i].1.clone()));
        i = i + 1;
    }
    assert(assoc::keyed(r@) =~= assoc::keyed(pairs@));
    r
}

impl Clone for Change {
    fn clone(&self) -> (c: Self)
        ensures
            c@ == self@,
    {
        Change {
            id: self.id,
            timestamp: self.timestamp,
            namespace: self.namespace.clone(),
            database: self.database.clone(),
            table: clone_opt_text(&self.table),
            operation: self.operation,
            key: clone_opt_bytes(&self.key),
            value: clone_opt_bytes(&self.value),
            metadata: clone_pairs(&self.metadata),
        }
    }
}

impl Change {
    /// Whether no metadata key occurs twice.
    pub open spec fn wf(self) -> bool {
        assoc::distinct_keys(self@.metadata)
    }

    /// Whether the change is new: a random identifier, a reading of the clock and no
    /// metadata.
    pub open spec fn is_new(self) -> bool {
        &&& ids::is_random_uuid(self.id@)
        &&& exists|t: SystemTime| self.timestamp == common::epoch_nanos(t)
        &&& self.metadata@.len() == 0
    }

    /// Create a new change for a query execution.
    pub fn query(namespace: &str, database: &str, table: Option<String>) -> (c: Self)
        ensures
            c.is_new(),
            c.wf(),
            c.namespace@ == namespace@,
            c.database@ == database@,
            c.table == table,
            c.operation == ChangeOperation::Query,
            c.key is None,
            c.value is None,
    {
        Change {
            id: new_uuid(),
            timestamp: current_timestamp_nanos(),
            namespace: namespace.to_owned(),
            database: database.to_owned(),
            table,
            operation: ChangeOperation::Query,
            key: None,
            value: None,
            metadata: Vec::new(),
        }
    }

    /// Create a new key-value set change.
    pub fn set(namespace: &str, database: &str, key: Bytes, value: Bytes) -> (c: Self)
        ensures
            c.is_new(),
            c.wf(),
            c.namespace@ == namespace@,
            c.database@ == database@,
            c.table is None,
            c.operation == ChangeOperation::SetValue,
            c.key == Some(key),
            c.value == Some(value),
    {
        Change {
            id: new_uuid(),
            timestamp: current_timestamp_nanos(),
            namespace: namespace.to_owned(),
            database: database.to_owned(),
            table: None,
            operation: ChangeOperation::SetValue,
            key: Some(key),
            value: Some(value),
            metadata: Vec::new(),
        }
    }

    /// Create a new delete change.
    pub fn delete(namespace: &str, database: &str, key: Bytes) -> (c: Self)
        ensures
            c.is_new(),
            c.wf(),
            c.namespace@ == namespace@,
            c.database@ == database@,
            c.table is None,
            c.operation == ChangeOperation::Delete,
            c.key == Some(key),
            c.value is None,
    {
        Change {
            id: new_uuid(),
            timestamp: current_timestamp_nanos(),
            namespace: namespace.to_owned(),
            database: database.to_owned(),
            table: None,
            operation: ChangeOperation::Delete,
            key: Some(key),
            value: None,
            metadata: Vec::new(),
        }
    }
}

/// Copy a list of changes.
pub(crate) fn clone_changes(changes: &Vec<Change>) -> (r: Vec<Change>)
    ensures
        changes_view(r@) == changes_view(changes@),
{
    let mut r: Vec<Change> = Vec::new();
    let mut i: usize = 0;
    while i < changes.len()
        invariant
            i <= changes.len(),
            r.len() == i,
            forall|k: int| 0 <= k < i ==> (#[trigger] r@[k])@ == changes@[k]@,
        decreases changes.len() - i,
    {
        r.push(changes[i].clone());
        i = i + 1;
    }
    assert(changes_view(r@) =~= changes_view(changes@));
    r
}

/// A batch of changes for efficient sync.
#[derive(Debug)]
pub struct ChangeBatch {
    /// Offset in the change log (for resumable sync)
    pub offset: u64,
    /// The changes in this batch
    pub changes: Vec<Change>,
    /// Whether this is the final batch
    pub is_final: bool,
}

impl Clone for ChangeBatch {
    fn clone(&self) -> (b: Self)
        ensures
            b@ == self@,
    {
        ChangeBatch {
            offset: self.offset,
            changes: clone_changes(&self.changes),
            is_final: self.is_final,
        }
    }
}

impl ChangeBatch {
    /// Create a new change batch.
    pub fn new(offset: u64, changes: Vec<Change>) -> (b: Self)
        ensures
            b == (ChangeBatch { offset, changes, is_final: false }),
    {
        ChangeBatch { offset, changes, is_final: false }
    }

    /// Mark this batch as final.
    pub fn with_final(self) -> (b: Self)
        ensures
            b == (ChangeBatch { offset: self.offset, changes: self.changes, is_final: true }),
    {
        ChangeBatch { offset: self.offset, changes: self.changes, is_final: true }
    }

    /// Get the total number of changes.
    pub fn len(&self) -> (n: usize)
        ensures
            n == self.changes@.len(),
    {
        self.changes.len()
    }

    /// Check if the batch is empty.
    pub fn is_empty(&self) -> (r: bool)
        ensures
            r == (self.changes@.len() == 0),
    {
        self.changes.is_empty()
    }
}

/// Message types for the sync protocol.
#[derive(Debug)]
pub enum SyncMessage {
    /// Request changes since a given offset
    Request { offset: u64, limit: Option<usize> },
    /// Response containing changes
    Response(ChangeBatch),
    /// Acknowledgment of received changes
    Ack { offset: u64 },
    /// Ping for keepalive
    Ping,
    /// Pong response
    Pong,
}

/// What a batch holds.
#[verifier::ext_equal]
pub struct BatchModel {
    pub offset: u64,
    pub changes: Seq<ChangeModel>,
    pub is_final: bool,
}

impl View for ChangeBatch {
    type V = BatchModel;

    open spec fn view(&self) -> BatchModel {
        BatchModel {
            offset: self.offset,
            changes: changes_view(self.changes@),
            is_final: self.is_final,
        }
    }
}

/// What a message says.
#[verifier::ext_equal]
pub enum MessageModel {
    Request { offset: u64, limit: Option<usize> },
    Response(BatchModel),
    Ack { offset: u64 },
    Ping,
    Pong,
}

impl View for SyncMessage {
    type V = MessageModel;

    open spec fn view(&self) -> MessageModel {
        match self {
            SyncMessage::Request { offset, limit } => MessageModel::Request {
                offset: *offset,
                limit: *limit,
            },
            SyncMessage::Response(batch) => MessageModel::Response(batch@),
            SyncMessage::Ack { offset } => MessageModel::Ack { offset: *offset },
            SyncMessage::Ping => MessageModel::Ping,
            SyncMessage::Pong => MessageModel::Pong,
        }
    }
}

impl Clone for SyncMessage {
    fn clone(&self) -> (m: Self)
        ensures
            m@ == self@,
    {
        match self {
            SyncMessage::Request { offset, limit } => SyncMessage::Request {
                offset: *offset,
                limit: *limit,
            },
            SyncMessage::Response(batch) => SyncMessage::Response(batch.clone()),
            SyncMessage::Ack { offset } => SyncMessage::Ack { offset: *offset },
            SyncMessage::Ping => SyncMessage::Ping,
            SyncMessage::Pong => SyncMessage::Pong,
        }
    }
}

/// What the changes that are made say: a query names its table, if it has one, and no key;
/// a set has its key and its value; a deletion has its key and no value. All are new, and
/// name the namespace and the database they are made for.
pub proof fn new_changes_say_what_they_are_made_for(
    namespace: &str,
    database: &str,
    table: Option<String>,
    key: Bytes,
    value: Bytes,
    query: Change,
    set: Change,
    delete: Change,
)
    requires
        call_ensures(Change::query, (namespace, database, table), query),
        call_ensures(Change::set, (namespace, database, key, value), set),
        call_ensures(Change::delete, (namespace, database, key), delete),
    ensures
        query.operation is Query && query.table == table && query.key is None
            && query.value is None,
        set.operation is SetValue && set.key == Some(key) && set.value == Some(value)
            && set.table is None,
        delete.operation is Delete && delete.key == Some(key) && delete.value is None
            && delete.table is None,
        query.namespace@ == namespace@ && query.database@ == database@,
        set.namespace@ == namespace@ && set.database@ == database@,
        delete.namespace@ == namespace@ && delete.database@ == database@,
        query.metadata@.len() == 0 && set.metadata@.len() == 0 && delete.metadata@.len() == 0,
        query.id[6] / 16 == 4 && query.id[8] / 64 == 2,
        set.id[6] / 16 == 4 && set.id[8] / 64 == 2,
        delete.id[6] / 16 == 4 && delete.id[8] / 64 == 2,
{
}

/// A copy of a change has all that the change has.
pub proof fn copy_of_a_change_is_the_change(c: Change, copy: Change, i: int)
    requires
        call_ensures(Change::clone, (&c,), copy),
    ensures
        copy.id@ == c.id@,
        copy.timestamp == c.timestamp,
        copy.namespace@ == c.namespace@,
        copy.database@ == c.database@,
        copy.operation == c.operation,
        copy.table is Some <==> c.table is Some,
        c.table is Some ==> copy.table->0@ == c.table->0@,
        copy.key is Some <==> c.key is Some,
        c.key is Some ==> byte_buf::bytes_of(copy.key->0) == byte_buf::bytes_of(c.key->0),
        copy.value is Some <==> c.value is Some,
        c.value is Some ==> byte_buf::bytes_of(copy.value->0) == byte_buf::bytes_of(c.value->0),
        copy.metadata@.len() == c.metadata@.len(),
        0 <= i < c.metadata@.len() ==> copy.metadata@[i].0@ == c.metadata@[i].0@
            && copy.metadata@[i].1@ == c.metadata@[i].1@,
{
    let a = assoc::keyed(copy.metadata@);
    let b = assoc::keyed(c.metadata@);
    assert(copy@.metadata == c@.metadata);
    assert(a.len() == copy.metadata@.len() && b.len() == c.metadata@.len());
    if 0 <= i < b.len() {
        assert(a[i] == b[i]);
    }
    assert(copy@.table == c@.table);
    assert(copy@.key == c@.key);
    assert(copy@.value == c@.value);
}

/// A batch holds the offset and the changes it is made of, and is final only once it is
/// marked as such.
pub proof fn batch_holds_what_it_is_made_of(
    offset: u64,
    changes: Vec<Change>,
    batch: ChangeBatch,
    last: ChangeBatch,
)
    requires
        call_ensures(ChangeBatch::new, (offset, changes), batch),
        call_ensures(ChangeBatch::with_final, (batch,), last),
    ensures
        batch.offset == offset && batch.changes == changes && !batch.is_final,
        last.offset == offset && last.changes == changes && last.is_final,
{
}

}
