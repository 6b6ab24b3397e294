//! Contracts for `bincode`.
//!
//! `bincode` writes a tuple as its fields one after another, as it writes a struct
//! with these fields; a unit variant of an enum as its index in 32 bits; and a map
//! as it writes a list of key-value pairs. A tuple in a tuple adds nothing. So the calls
//! here take tuples.
//!
//! Fields are read one after another, up to the first that cannot be read. A length is
//! read as 64 bits and has to fit in a word of the machine, so the text of an error goes
//! by the size of a word as well as by the data.

use bytes::Bytes;
use crate::assoc;
use crate::change;
use crate::change::{Change, ChangeModel};
use crate::ext::{byte_buf, Outcome};
use crate::snapshot::{DbModel, EntryModel, NamespaceModel, SchemaModel, SnapshotData};
use uuid::Uuid;
use vstd::prelude::*;

verus! {

/// The fields of a change as `bincode` sees them.
#[verifier::ext_equal]
pub struct ChangeFields {
    pub id: Seq<u8>,
    pub timestamp: u64,
    pub namespace: Seq<char>,
    pub database: Seq<char>,
    pub table: Option<Seq<char>>,
    pub operation: u32,
    pub key: Option<Seq<u8>>,
    pub value: Option<Seq<u8>>,
    pub metadata: Seq<(Seq<char>, Seq<char>)>,
}

/// The fields of a change in the order in which they are written.
pub type RawChange = (
    [u8; 16],
    u64,
    String,
    String,
    Option<String>,
    u32,
    Option<Bytes>,
    Option<Bytes>,
    Vec<(String, String)>,
);

/// The fields of a change after the identifier.
type RawRest = (
    u64,
    String,
    String,
    Option<String>,
    u32,
    Option<Bytes>,
    Option<Bytes>,
    Vec<(String, String)>,
);

/// What the fields of a change hold.
pub open spec fn raw_fields(raw: RawChange) -> ChangeFields {
    ChangeFields {
        id: raw.0@,
        timestamp: raw.1,
        namespace: raw.2@,
        database: raw.3@,
        table: change::opt_text(raw.4),
        operation: raw.5,
        key: change::opt_bytes(raw.6),
        value: change::opt_bytes(raw.7),
        metadata: assoc::keyed(raw.8@),
    }
}

/// The bytes that `bincode::serialize` writes for the fields of a change.
pub uninterp spec fn bincode_of_change(fields: ChangeFields) -> Seq<u8>;

/// The fields that `bincode::deserialize` reads from the start of a run of bytes, or the
/// text of the error, on a machine with words of so many bits.
pub uninterp spec fn bincode_reads_change(data: Seq<u8>, word_bits: int) -> Outcome<ChangeFields>;

/// The number of the operation that `bincode::deserialize` reads after the fields before
/// it, from the start of a run of bytes, or the text of the error, on a machine with words
/// of so many bits.
pub uninterp spec fn bincode_reads_operation(data: Seq<u8>, word_bits: int) -> Outcome<u32>;

/// What `bincode` sees of a change whose operation has the given number.
pub open spec fn numbered_fields(c: ChangeModel, operation: u32) -> ChangeFields {
    ChangeFields {
        id: c.id,
        timestamp: c.timestamp,
        namespace: c.namespace,
        database: c.database,
        table: c.table,
        operation,
        key: c.key,
        value: c.value,
        metadata: c.metadata,
    }
}

/// `bincode::serialize` writes the fields of a change, with the operation as a
/// number. It has no size limit and all lengths are known, so it succeeds; and
/// `bincode::deserialize` reads from the bytes what was written. The identifier
/// alone takes 24 bytes: its length in eight bytes, then sixteen bytes.
#[verifier::external_body]
pub(crate) fn serialize_change(
    c: &Change,
    operation: u32,
) -> (r: std::result::Result<Vec<u8>, String>)
    ensures
        r is Ok,
        r->Ok_0@ == bincode_of_change(numbered_fields(c@, operation)),
        bincode_reads_change(r->Ok_0@, usize::BITS as int) == Outcome::Value(
            numbered_fields(c@, operation),
        ),
        bincode_reads_operation(r->Ok_0@, usize::BITS as int) == Outcome::Value(operation),
        r->Ok_0@.len() >= 24,
{
    let id = Uuid::from_bytes(c.id);
    let names = (&c.namespace, &c.database, &c.table);
    let fields = (id, c.timestamp, names, operation, &c.key, &c.value, &c.metadata);
    match bincode::serialize(&fields) {
        Ok(bytes) => Ok(bytes),
        Err(e) => Err(e.to_string()),
    }
}

/// `bincode::deserialize` reads the fields of a change from the start of the data;
/// bytes after them are allowed. Where all fields can be read, so can those up to the
/// operation. An error is handed on as `ErrorKind`'s `Display` writes it.
#[verifier::external_body]
pub(crate) fn deserialize_change(data: &[u8]) -> (r: std::result::Result<RawChange, String>)
    ensures
        match r {
            Ok(raw) => {
                &&& bincode_reads_change(data@, usize::BITS as int) == Outcome::Value(raw_fields(raw))
                &&& bincode_reads_operation(data@, usize::BITS as int) == Outcome::Value(
                    raw.5,
                )
            },
            Err(text) => bincode_reads_change(data@, usize::BITS as int) == Outcome::<ChangeFields>::Failure(
                text@,
            ),
        },
{
    match bincode::deserialize::<(Uuid, RawRest)>(data) {
        Ok((id, (ts, ns, db, table, op, key, value, meta))) => {
            Ok((id.into_bytes(), ts, ns, db, table, op, key, value, meta))
        },
        Err(e) => Err(e.to_string()),
    }
}

/// `bincode::deserialize` reads the fields of a change up to the operation, of which the
/// number is handed on. An error is handed on as `ErrorKind`'s `Display` writes it.
#[verifier::external_body]
pub(crate) fn deserialize_operation(data: &[u8]) -> (r: std::result::Result<u32, String>)
    ensures
        match r {
            Ok(number) => bincode_reads_operation(data@, usize::BITS as int) == Outcome::Value(
                number,
            ),
            Err(text) => bincode_reads_operation(data@, usize::BITS as int) == Outcome::<u32>::Failure(
                text@,
            ),
        },
{
    match bincode::deserialize::<(Uuid, u64, String, String, Option<String>, u32)>(data) {
        Ok((_, _, _, _, _, operation)) => Ok(operation),
        Err(e) => Err(e.to_string()),
    }
}

/// The fields of a snapshot's entry: key, value and timestamp.
pub type RawEntry = (Option<Bytes>, Option<Bytes>, u64);

/// The fields of a database: its name, its entries, and its schemas by type.
pub type RawDb = (String, Vec<RawEntry>, Vec<(String, Bytes)>);

/// The fields of a snapshot: version, timestamp, namespaces and checksum.
pub type RawSnapshot = (u32, u64, Vec<(String, Vec<RawDb>)>, u64);

/// What the fields of an entry hold.
pub open spec fn raw_entry(raw: RawEntry) -> EntryModel {
    EntryModel { key: change::opt_bytes(raw.0), value: change::opt_bytes(raw.1), timestamp_secs: raw.2 }
}

/// What the fields of a database hold.
pub open spec fn raw_db(raw: RawDb) -> DbModel {
    DbModel {
        name: raw.0@,
        entries: Seq::new(raw.1@.len(), |i: int| raw_entry(raw.1@[i])),
        schemas: Seq::new(
            raw.2@.len(),
            |i: int|
                SchemaModel { schema_type: raw.2@[i].0@, definition: byte_buf::bytes_of(raw.2@[i].1) },
        ),
    }
}

/// What the fields of a namespace hold.
pub open spec fn raw_namespace(raw: (String, Vec<RawDb>)) -> NamespaceModel {
    NamespaceModel {
        name: raw.0@,
        databases: Seq::new(raw.1@.len(), |i: int| raw_db(raw.1@[i])),
    }
}

/// What the fields of a snapshot hold.
pub open spec fn raw_snapshot(raw: RawSnapshot) -> SnapshotData {
    SnapshotData {
        version: raw.0,
        timestamp_secs: raw.1,
        namespaces: Seq::new(raw.2@.len(), |i: int| raw_namespace(raw.2@[i])),
        checksum: raw.3,
    }
}

/// The bytes that `bincode::serialize` writes for a snapshot.
pub uninterp spec fn bincode_of_snapshot(s: SnapshotData) -> Seq<u8>;

/// The snapshot that `bincode::deserialize` reads from the start of a run of bytes, or the
/// text of the error, on a machine with words of so many bits.
pub uninterp spec fn bincode_reads_snapshot(data: Seq<u8>, word_bits: int) -> Outcome<SnapshotData>;

/// The snapshot that can be read from a run of bytes, if there is one.
pub open spec fn snapshot_of_bincode(data: Seq<u8>) -> Option<SnapshotData> {
    match bincode_reads_snapshot(data, usize::BITS as int) {
        Outcome::Value(s) => Some(s),
        Outcome::Failure(_) => None,
    }
}

/// Why no snapshot can be read from a run of bytes.
pub open spec fn snapshot_failure(data: Seq<u8>) -> Seq<char> {
    bincode_reads_snapshot(data, usize::BITS as int)->Failure_0
}

/// `bincode::serialize` writes a snapshot. It has no size limit and all lengths are
/// known, so it succeeds; and `bincode::deserialize` reads from the bytes what was
/// written. The numbers outside the namespaces and the number of namespaces alone take
/// 28 bytes.
#[verifier::external_body]
pub(crate) fn serialize_snapshot(raw: &RawSnapshot) -> (r: std::result::Result<Vec<u8>, String>)
    ensures
        r is Ok,
        r->Ok_0@ == bincode_of_snapshot(raw_snapshot(*raw)),
        bincode_reads_snapshot(r->Ok_0@, usize::BITS as int) == Outcome::Value(
            raw_snapshot(*raw),
        ),
        r->Ok_0@.len() >= 28,
{
    match bincode::serialize(raw) {
        Ok(bytes) => Ok(bytes),
        Err(e) => Err(e.to_string()),
    }
}

/// `bincode::deserialize` reads a snapshot from the start of the data; bytes after it
/// are allowed. An error is handed on as `ErrorKind`'s `Display` writes it.
#[verifier::external_body]
pub(crate) fn deserialize_snapshot(data: &[u8]) -> (r: std::result::Result<RawSnapshot, String>)
    ensures
        match r {
            Ok(raw) => bincode_reads_snapshot(data@, usize::BITS as int) == Outcome::Value(raw_snapshot(raw)),
            Err(text) => bincode_reads_snapshot(data@, usize::BITS as int) == Outcome::<SnapshotData>::Failure(
                text@,
            ),
        },
{
    match bincode::deserialize(data) {
        Ok(raw) => Ok(raw),
        Err(e) => Err(e.to_string()),
    }
}

}
