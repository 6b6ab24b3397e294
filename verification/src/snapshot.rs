//! Snapshot sync for full state transfer.

use bytes::Bytes;
use crate::assoc;
use crate::change;
use crate::change::{clone_opt_bytes, Change, ChangeModel};
use crate::common;
use crate::common::current_timestamp_secs;
use crate::ext::byte_buf;
use crate::ext::byte_buf::bytes_from_vec;
use crate::ext::codec;
use crate::ext::codec::{
    deserialize_snapshot, serialize_snapshot, RawDb, RawEntry, RawSnapshot,
};
use std::collections::hash_map::DefaultHasher;
use std::hash::Hasher;
use std::time::SystemTime;
use vstd::bytes::*;
use vstd::prelude::*;
use vstd::std_specs::hash::*;
use vstd::utf8::*;

verus! {

/// Configuration for snapshot sync.
#[derive(Debug, Clone, Copy, PartialEq, Eq, Structural)]
pub struct SnapshotConfig {
    pub compress: bool,
    pub compression_level: i32,
    pub max_size: usize,
    pub chunk_size: usize,
}

/// The default configuration: compressed at level 3, up to 100MB, in chunks of 64KB.
pub open spec fn default_snapshot_config() -> SnapshotConfig {
    SnapshotConfig {
        compress: true,
        compression_level: 3,
        max_size: 104_857_600,
        chunk_size: 65_536,
    }
}

impl Default for SnapshotConfig {
    fn default() -> (c: Self)
        ensures
            c == default_snapshot_config(),
    {
        SnapshotConfig {
            compress: true,
            compression_level: 3,
            max_size: 100 * 1024 * 1024,
            chunk_size: 64 * 1024,
        }
    }
}

impl SnapshotConfig {
    /// Create a new config with default values.
    pub fn new() -> (c: Self)
        ensures
            c == default_snapshot_config(),
    {
        SnapshotConfig::default()
    }

    /// Turn compression on or off.
    pub fn with_compress(self, compress: bool) -> (c: Self)
        ensures
            c == (SnapshotConfig { compress, ..self }),
    {
        SnapshotConfig { compress, ..self }
    }

    /// Set the maximum size.
    pub fn with_max_size(self, size: usize) -> (c: Self)
        ensures
            c == (SnapshotConfig { max_size: size, ..self }),
    {
        SnapshotConfig { max_size: size, ..self }
    }

    /// Set the chunk size.
    pub fn with_chunk_size(self, size: usize) -> (c: Self)
        ensures
            c == (SnapshotConfig { chunk_size: size, ..self }),
    {
        SnapshotConfig { chunk_size: size, ..self }
    }
}

/// An entry of a database.
#[derive(Debug)]
pub struct KeyValueEntry {
    pub key: Option<Bytes>,
    pub value: Option<Bytes>,
    pub timestamp_secs: u64,
}

/// A schema of a database.
#[derive(Debug)]
pub struct SchemaEntry {
    pub schema_type: String,
    pub definition: Bytes,
}

/// A database in a snapshot.
#[derive(Debug)]
pub struct DbSnapshot {
    pub name: String,
    pub entries: Vec<KeyValueEntry>,
    pub schemas: Vec<SchemaEntry>,
}

/// A namespace in a snapshot.
#[derive(Debug)]
pub struct NamespaceSnapshot {
    pub name: String,
    pub databases: Vec<DbSnapshot>,
}

/// A complete database snapshot for initial sync.
#[derive(Debug)]
pub struct DatabaseSnapshot {
    pub version: u32,
    pub timestamp_secs: u64,
    pub namespaces: Vec<NamespaceSnapshot>,
    pub checksum: u64,
}

/// What an entry holds.
#[verifier::ext_equal]
pub struct EntryModel {
    pub key: Option<Seq<u8>>,
    pub value: Option<Seq<u8>>,
    pub timestamp_secs: u64,
}

/// What a schema holds.
#[verifier::ext_equal]
pub struct SchemaModel {
    pub schema_type: Seq<char>,
    pub definition: Seq<u8>,
}

/// What a database holds.
#[verifier::ext_equal]
pub struct DbModel {
    pub name: Seq<char>,
    pub entries: Seq<EntryModel>,
    pub schemas: Seq<SchemaModel>,
}

/// What a namespace holds.
#[verifier::ext_equal]
pub struct NamespaceModel {
    pub name: Seq<char>,
    pub databases: Seq<DbModel>,
}

/// What a snapshot holds.
#[verifier::ext_equal]
pub struct SnapshotData {
    pub version: u32,
    pub timestamp_secs: u64,
    pub namespaces: Seq<NamespaceModel>,
    pub checksum: u64,
}

impl View for KeyValueEntry {
    type V = EntryModel;

    open spec fn view(&self) -> EntryModel {
        EntryModel {
            key: change::opt_bytes(self.key),
            value: change::opt_bytes(self.value),
            timestamp_secs: self.timestamp_secs,
        }
    }
}

impl View for SchemaEntry {
    type V = SchemaModel;

    open spec fn view(&self) -> SchemaModel {
        SchemaModel { schema_type: self.schema_type@, definition: byte_buf::bytes_of(self.definition) }
    }
}

impl View for DbSnapshot {
    type V = DbModel;

    open spec fn view(&self) -> DbModel {
        DbModel {
            name: self.name@,
            entries: Seq::new(self.entries@.len(), |i: int| self.entries@[i]@),
            schemas: Seq::new(self.schemas@.len(), |i: int| self.schemas@[i]@),
        }
    }
}

impl View for NamespaceSnapshot {
    type V = NamespaceModel;

    open spec fn view(&self) -> NamespaceModel {
        NamespaceModel {
            name: self.name@,
            databases: Seq::new(self.databases@.len(), |i: int| self.databases@[i]@),
        }
    }
}

/// What the namespaces of a list hold, in order.
pub open spec fn namespaces_view(namespaces: Seq<NamespaceSnapshot>) -> Seq<NamespaceModel> {
    Seq::new(namespaces.len(), |i: int| namespaces[i]@)
}

impl View for DatabaseSnapshot {
    type V = SnapshotData;

    open spec fn view(&self) -> SnapshotData {
        SnapshotData {
            version: self.version,
            timestamp_secs: self.timestamp_secs,
            namespaces: namespaces_view(self.namespaces@),
            checksum: self.checksum,
        }
    }
}

impl Clone for KeyValueEntry {
    fn clone(&self) -> (e: Self)
        ensures
            e@ == self@,
    {
        KeyValueEntry {
            key: clone_opt_bytes(&self.key),
            value: clone_opt_bytes(&self.value),
            timestamp_secs: self.timestamp_secs,
        }
    }
}

impl Clone for SchemaEntry {
    fn clone(&self) -> (e: Self)
        ensures
            e@ == self@,
    {
        SchemaEntry { schema_type: self.schema_type.clone(), definition: self.definition.clone() }
    }
}

impl Clone for DbSnapshot {
    fn clone(&self) -> (db: Self)
        ensures
            db@ == self@,
    {
        let mut entries: Vec<KeyValueEntry> = Vec::new();
        let mut i: usize = 0;
        while i < self.entries.len()
            invariant
                i <= self.entries.len(),
                entries.len() == i,
                forall|k: int| 0 <= k < i ==> (#[trigger] entries@[k])@ == self.entries@[k]@,
            decreases self.entries.len() - i,
        {
            entries.push(self.entries[i].clone());
            i = i + 1;
        }
        let mut schemas: Vec<SchemaEntry> = Vec::new();
        let mut j: usize = 0;
        while j < self.schemas.len()
            invariant
                j <= self.schemas.len(),
                schemas.len() == j,
                forall|k: int| 0 <= k < j ==> (#[trigger] schemas@[k])@ == self.schemas@[k]@,
            decreases self.schemas.len() - j,
        {
            schemas.push(self.schemas[j].clone());
            j = j + 1;
        }
        let db = DbSnapshot { name: self.name.clone(), entries, schemas };
        assert(db@.entries =~= self@.entries);
        assert(db@.schemas =~= self@.schemas);
        db
    }
}

impl Clone for NamespaceSnapshot {
    fn clone(&self) -> (ns: Self)
        ensures
            ns@ == self@,
    {
        let mut databases: Vec<DbSnapshot> = Vec::new();
        let mut i: usize = 0;
        while i < self.databases.len()
            invariant
                i <= self.databases.len(),
                databases.len() == i,
                forall|k: int| 0 <= k < i ==> (#[trigger] databases@[k])@ == self.databases@[k]@,
            decreases self.databases.len() - i,
        {
            databases.push(self.databases[i].clone());
            i = i + 1;
        }
        let ns = NamespaceSnapshot { name: self.name.clone(), databases };
        assert(ns@.databases =~= self@.databases);
        ns
    }
}

impl Clone for DatabaseSnapshot {
    fn clone(&self) -> (s: Self)
        ensures
            s@ == self@,
    {
        let mut namespaces: Vec<NamespaceSnapshot> = Vec::new();
        let mut i: usize = 0;
        while i < self.namespaces.len()
            invariant
                i <= self.namespaces.len(),
                namespaces.len() == i,
                forall|k: int| 0 <= k < i ==> (#[trigger] namespaces@[k])@ == self.namespaces@[k]@,
            decreases self.namespaces.len() - i,
        {
            namespaces.push(self.namespaces[i].clone());
            i = i + 1;
        }
        let s = DatabaseSnapshot {
            version: self.version,
            timestamp_secs: self.timestamp_secs,
            namespaces,
            checksum: self.checksum,
        };
        assert(s@.namespaces =~= self@.namespaces);
        s
    }
}

/// The bytes of a count for the checksum: as many as a word of the machine has, lowest
/// byte first, also where the machine itself keeps the highest byte first.
pub open spec fn count_bytes(n: usize) -> Seq<u8> {
    if usize::BITS == 64 {
        spec_u64_to_le_bytes(n as u64)
    } else {
        spec_u32_to_le_bytes(n as u32)
    }
}

fn count_to_bytes(n: usize) -> (bytes: Vec<u8>)
    ensures
        bytes@ == count_bytes(n),
{
    if usize::BITS == 64 {
        u64_to_le_bytes(n as u64)
    } else {
        u32_to_le_bytes(n as u32)
    }
}

/// What the checksum of the databases of a namespace is taken over: for each, its name
/// and the number of its entries.
pub open spec fn hashed_databases(databases: Seq<DbModel>) -> Seq<Seq<u8>>
    decreases databases.len(),
{
    if databases.len() == 0 {
        Seq::empty()
    } else {
        let db = databases.last();
        hashed_databases(databases.drop_last()).push(encode_utf8(db.name)).push(
            count_bytes(db.entries.len() as usize),
        )
    }
}

/// What the checksum of namespaces is taken over: for each, its name and its
/// databases.
pub open spec fn hashed_namespaces(namespaces: Seq<NamespaceModel>) -> Seq<Seq<u8>>
    decreases namespaces.len(),
{
    if namespaces.len() == 0 {
        Seq::empty()
    } else {
        let ns = namespaces.last();
        hashed_namespaces(namespaces.drop_last()).push(encode_utf8(ns.name)) + hashed_databases(
            ns.databases,
        )
    }
}

/// The checksum of namespaces.
pub open spec fn checksum_of(namespaces: Seq<NamespaceModel>) -> u64 {
    DefaultHasher::spec_finish(hashed_namespaces(namespaces))
}

/// The number of entries in databases.
pub open spec fn db_entry_count(databases: Seq<DbModel>) -> nat
    decreases databases.len(),
{
    if databases.len() == 0 {
        0
    } else {
        db_entry_count(databases.drop_last()) + databases.last().entries.len()
    }
}

/// The number of entries in namespaces.
pub open spec fn entry_count(namespaces: Seq<NamespaceModel>) -> nat
    decreases namespaces.len(),
{
    if namespaces.len() == 0 {
        0
    } else {
        entry_count(namespaces.drop_last()) + db_entry_count(namespaces.last().databases)
    }
}

impl DbSnapshot {
    /// The number of entries.
    pub fn total_entries(&self) -> (n: usize)
        ensures
            n == self@.entries.len(),
    {
        self.entries.len()
    }
}

/// Fewer databases have no more entries.
proof fn lemma_db_count_grows(databases: Seq<DbModel>, k: int)
    requires
        0 <= k <= databases.len(),
    ensures
        db_entry_count(databases.take(k)) <= db_entry_count(databases),
    decreases databases.len(),
{
    if k == databases.len() {
        assert(databases.take(k) =~= databases);
    } else {
        lemma_db_count_grows(databases.drop_last(), k);
        assert(databases.drop_last().take(k) =~= databases.take(k));
    }
}

/// Fewer namespaces have no more entries.
proof fn lemma_count_grows(namespaces: Seq<NamespaceModel>, k: int)
    requires
        0 <= k <= namespaces.len(),
    ensures
        entry_count(namespaces.take(k)) <= entry_count(namespaces),
    decreases namespaces.len(),
{
    if k == namespaces.len() {
        assert(namespaces.take(k) =~= namespaces);
    } else {
        lemma_count_grows(namespaces.drop_last(), k);
        assert(namespaces.drop_last().take(k) =~= namespaces.take(k));
    }
}

impl NamespaceSnapshot {
    /// The number of entries in all databases.
    pub fn total_entries(&self) -> (n: usize)
        requires
            db_entry_count(self@.databases) <= usize::MAX,
        ensures
            n == db_entry_count(self@.databases),
    {
        let mut n: usize = 0;
        let mut i: usize = 0;
        let ghost dbs = self@.databases;
        assert(dbs.take(0) =~= Seq::<DbModel>::empty());
        while i < self.databases.len()
            invariant
                i <= self.databases.len(),
                dbs == self@.databases,
                db_entry_count(dbs) <= usize::MAX,
                n == db_entry_count(dbs.take(i as int)),
            decreases self.databases.len() - i,
        {
            proof {
                assert(dbs.take(i + 1).drop_last() =~= dbs.take(i as int));
                lemma_db_count_grows(dbs, i + 1);
            }
            n = n + self.databases[i].total_entries();
            i = i + 1;
        }
        assert(dbs.take(i as int) =~= dbs);
        n
    }
}

impl DatabaseSnapshot {
    /// Make a snapshot of namespaces, as of now.
    pub fn new(namespaces: Vec<NamespaceSnapshot>) -> (s: Self)
        ensures
            s.version == 1,
            exists|t: SystemTime| s.timestamp_secs == common::epoch_secs(t),
            s.namespaces == namespaces,
            s.checksum == checksum_of(namespaces_view(namespaces@)),
    {
        let checksum: u64 = DatabaseSnapshot::calculate_checksum(&namespaces);
        DatabaseSnapshot {
            version: 1,
            timestamp_secs: current_timestamp_secs(),
            namespaces,
            checksum,
        }
    }

    fn calculate_checksum(ns: &Vec<NamespaceSnapshot>) -> (r: u64)
        ensures
            r == checksum_of(namespaces_view(ns@)),
    {
        let mut hasher = DefaultHasher::new();
        let ghost all = namespaces_view(ns@);
        let mut i: usize = 0;
        assert(all.take(0) =~= Seq::<NamespaceModel>::empty());
        while i < ns.len()
            invariant
                i <= ns.len(),
                all == namespaces_view(ns@),
                hasher@ == hashed_namespaces(all.take(i as int)),
            decreases ns.len() - i,
        {
            hasher.write(ns[i].name.as_str().as_bytes());
            let ghost before = hasher@;
            let ghost dbs = ns@[i as int]@.databases;
            let mut j: usize = 0;
            assert(dbs.take(0) =~= Seq::<DbModel>::empty());
            assert(before + Seq::<Seq<u8>>::empty() =~= before);
            while j < ns[i as usize].databases.len()
                invariant
                    i < ns.len(),
                    j <= ns@[i as int].databases@.len(),
                    dbs == ns@[i as int]@.databases,
                    hasher@ == before + hashed_databases(dbs.take(j as int)),
                decreases ns@[i as int].databases@.len() - j,
            {
                let ghost so_far = hashed_databases(dbs.take(j as int));
                hasher.write(ns[i].databases[j].name.as_str().as_bytes());
                hasher.write(count_to_bytes(ns[i].databases[j].entries.len()).as_slice());
                proof {
                    let db = dbs[j as int];
                    assert(dbs.take(j + 1).drop_last() =~= dbs.take(j as int));
                    assert(hasher@ =~= before + so_far.push(encode_utf8(db.name)).push(
                        count_bytes(db.entries.len() as usize),
                    ));
                }
                j = j + 1;
            }
            proof {
                assert(dbs.take(j as int) =~= dbs);
                assert(all.take(i + 1).drop_last() =~= all.take(i as int));
            }
            i = i + 1;
        }
        assert(all.take(i as int) =~= all);
        hasher.finish()
    }

    /// The number of entries in all namespaces.
    pub fn total_entries(&self) -> (n: usize)
        requires
            entry_count(self@.namespaces) <= usize::MAX,
        ensures
            n == entry_count(self@.namespaces),
    {
        let mut n: usize = 0;
        let mut i: usize = 0;
        let ghost all = self@.namespaces;
        assert(all.take(0) =~= Seq::<NamespaceModel>::empty());
        while i < self.namespaces.len()
            invariant
                i <= self.namespaces.len(),
                all == self@.namespaces,
                entry_count(all) <= usize::MAX,
                n == entry_count(all.take(i as int)),
            decreases self.namespaces.len() - i,
        {
            proof {
                assert(all.take(i + 1).drop_last() =~= all.take(i as int));
                lemma_count_grows(all, i + 1);
            }
            n = n + self.namespaces[i].total_entries();
            i = i + 1;
        }
        assert(all.take(i as int) =~= all);
        n
    }

    /// Whether the checksum is that of the namespaces.
    pub fn validate(&self) -> (r: bool)
        ensures
            r == (self.checksum == checksum_of(self@.namespaces)),
    {
        self.checksum == DatabaseSnapshot::calculate_checksum(&self.namespaces)
    }
}

/// Why a snapshot could not be handled.
#[derive(Debug)]
pub enum SnapshotError {
    /// The data is not a snapshot
    InvalidData(String),
    /// A chunk does not belong to the snapshot
    InvalidInput(String),
    /// Chunks are missing
    UnexpectedEof(String),
}

impl SnapshotError {
    /// The text of the error.
    pub open spec fn text(self) -> Seq<char> {
        match self {
            SnapshotError::InvalidData(s) => s@,
            SnapshotError::InvalidInput(s) => s@,
            SnapshotError::UnexpectedEof(s) => s@,
        }
    }

    /// Write the error out for a reader.
    pub fn message(&self) -> (s: String)
        ensures
            s@ == self.text(),
    {
        match self {
            SnapshotError::InvalidData(s) => s.clone(),
            SnapshotError::InvalidInput(s) => s.clone(),
            SnapshotError::UnexpectedEof(s) => s.clone(),
        }
    }
}

/// The names of databases, as a list of keys.
pub open spec fn db_names(databases: Seq<DbModel>) -> Seq<(Seq<char>, ())> {
    Seq::new(databases.len(), |i: int| (databases[i].name, ()))
}

/// The names of namespaces, as a list of keys.
pub open spec fn namespace_names(namespaces: Seq<NamespaceModel>) -> Seq<(Seq<char>, ())> {
    Seq::new(namespaces.len(), |i: int| (namespaces[i].name, ()))
}

/// Databases after an entry was added to the one with a name: last of its entries, in
/// a new database if there is none with the name.
pub open spec fn added_to_db(
    databases: Seq<DbModel>,
    name: Seq<char>,
    entry: EntryModel,
) -> Seq<DbModel> {
    let i = assoc::key_index(db_names(databases), name);
    if i < databases.len() {
        databases.update(i, DbModel { entries: databases[i].entries.push(entry), ..databases[i] })
    } else {
        databases.push(DbModel { name, entries: seq![entry], schemas: Seq::empty() })
    }
}

/// Namespaces after an entry was added to a database of the one with a name: to a new
/// namespace if there is none with the name.
pub open spec fn added_to_namespace(
    namespaces: Seq<NamespaceModel>,
    name: Seq<char>,
    database: Seq<char>,
    entry: EntryModel,
) -> Seq<NamespaceModel> {
    let i = assoc::key_index(namespace_names(namespaces), name);
    if i < namespaces.len() {
        namespaces.update(
            i,
            NamespaceModel {
                databases: added_to_db(namespaces[i].databases, database, entry),
                ..namespaces[i]
            },
        )
    } else {
        namespaces.push(
            NamespaceModel { name, databases: added_to_db(Seq::empty(), database, entry) },
        )
    }
}

/// The entry of a change at a time.
pub open spec fn entry_of(change: ChangeModel, timestamp_secs: u64) -> EntryModel {
    EntryModel { key: change.key, value: change.value, timestamp_secs }
}

/// The namespaces that changes make up, each taken in at a time: a change's entry is
/// in its database of its namespace, in the order of the changes.
pub open spec fn grouped(changes: Seq<ChangeModel>, times: Seq<u64>) -> Seq<NamespaceModel>
    decreases changes.len(),
{
    if changes.len() == 0 {
        Seq::empty()
    } else {
        let c = changes.last();
        added_to_namespace(
            grouped(changes.drop_last(), times.drop_last()),
            c.namespace,
            c.database,
            entry_of(c, times.last()),
        )
    }
}

/// Add an entry to the database with a name.
fn add_to_db(databases: &mut Vec<DbSnapshot>, name: String, entry: KeyValueEntry)
    ensures
        Seq::new(final(databases)@.len(), |i: int| final(databases)@[i]@) == added_to_db(
            Seq::new(old(databases)@.len(), |i: int| old(databases)@[i]@),
            name@,
            entry@,
        ),
{
    let ghost before = Seq::new(databases@.len(), |i: int| databases@[i]@);
    let mut i: usize = 0;
    while i < databases.len()
        invariant
            i <= databases.len(),
            *databases == *old(databases),
            before == Seq::new(databases@.len(), |i: int| databases@[i]@),
            forall|j: int| 0 <= j < i ==> (#[trigger] db_names(before)[j]).0 != name@,
        decreases databases.len() - i,
    {
        if databases[i].name == name {
            proof {
                assoc::lemma_key_index_at(db_names(before), name@, i as int);
            }
            let ghost n = name@;
            let ghost e = entry@;
            databases[i].entries.push(entry);
            proof {
                let after = Seq::new(databases@.len(), |i: int| databases@[i]@);
                assert(after[i as int].entries =~= before[i as int].entries.push(e));
                assert(after[i as int].schemas =~= before[i as int].schemas);
                assert(after =~= added_to_db(before, n, e));
            }
            return;
        }
        i = i + 1;
    }
    proof {
        assoc::lemma_key_index_at(db_names(before), name@, i as int);
    }
    let ghost n = name@;
    let ghost e = entry@;
    let mut entries: Vec<KeyValueEntry> = Vec::new();
    entries.push(entry);
    let db = DbSnapshot { name, entries, schemas: Vec::new() };
    assert(db@.entries =~= seq![e]);
    assert(db@.schemas =~= Seq::<SchemaModel>::empty());
    databases.push(db);
    assert(Seq::new(databases@.len(), |i: int| databases@[i]@) =~= added_to_db(before, n, e));
}

/// Add an entry to a database of the namespace with a name.
fn add_to_namespace(
    namespaces: &mut Vec<NamespaceSnapshot>,
    name: String,
    database: String,
    entry: KeyValueEntry,
)
    ensures
        namespaces_view(final(namespaces)@) == added_to_namespace(
            namespaces_view(old(namespaces)@),
            name@,
            database@,
            entry@,
        ),
{
    let ghost before = namespaces_view(namespaces@);
    let mut i: usize = 0;
    while i < namespaces.len()
        invariant
            i <= namespaces.len(),
            *namespaces == *old(namespaces),
            before == namespaces_view(namespaces@),
            forall|j: int| 0 <= j < i ==> (#[trigger] namespace_names(before)[j]).0 != name@,
        decreases namespaces.len() - i,
    {
        if namespaces[i].name == name {
            proof {
                assoc::lemma_key_index_at(namespace_names(before), name@, i as int);
            }
            let ghost d = database@;
            let ghost e = entry@;
            add_to_db(&mut namespaces[i].databases, database, entry);
            proof {
                let after = namespaces_view(namespaces@);
                assert(after[i as int].databases =~= added_to_db(before[i as int].databases, d, e));
                assert(after =~= added_to_namespace(before, name@, d, e));
            }
            return;
        }
        i = i + 1;
    }
    proof {
        assoc::lemma_key_index_at(namespace_names(before), name@, i as int);
    }
    let ghost n = name@;
    let ghost d = database@;
    let ghost e = entry@;
    let mut databases: Vec<DbSnapshot> = Vec::new();
    assert(Seq::new(databases@.len(), |i: int| databases@[i]@) =~= Seq::<DbModel>::empty());
    add_to_db(&mut databases, database, entry);
    let ns = NamespaceSnapshot { name, databases };
    assert(ns@.databases =~= added_to_db(Seq::empty(), d, e));
    namespaces.push(ns);
    assert(namespaces_view(namespaces@) =~= added_to_namespace(before, n, d, e));
}

/// Snapshot serializer for converting changes to snapshots.
#[derive(Debug)]
pub struct SnapshotSerializer {
    config: SnapshotConfig,
    pending_changes: Vec<Change>,
}

impl View for SnapshotSerializer {
    type V = Seq<ChangeModel>;

    closed spec fn view(&self) -> Seq<ChangeModel> {
        change::changes_view(self.pending_changes@)
    }
}

/// Whether a snapshot is one of changes, taken in at some times: format version 1, the
/// changes grouped, and the checksum that goes with them.
pub open spec fn is_snapshot_of(s: SnapshotData, changes: Seq<ChangeModel>, times: Seq<u64>) -> bool {
    &&& s.version == 1
    &&& times.len() == changes.len()
    &&& s.namespaces == grouped(changes, times)
    &&& s.checksum == checksum_of(s.namespaces)
}

impl SnapshotSerializer {
    /// Create a serializer without changes.
    pub fn new(config: SnapshotConfig) -> (s: Self)
        ensures
            s@ == Seq::<ChangeModel>::empty(),
            s.configured() == config,
    {
        let s = SnapshotSerializer { config, pending_changes: Vec::new() };
        assert(s@ =~= Seq::<ChangeModel>::empty());
        s
    }

    /// The configuration of the serializer.
    pub closed spec fn configured(self) -> SnapshotConfig {
        self.config
    }

    /// Add a change to the next snapshot.
    pub fn add_change(&mut self, change: Change)
        ensures
            final(self)@ == old(self)@.push(change@),
            final(self).configured() == old(self).configured(),
    {
        self.pending_changes.push(change);
        assert(self@ =~= old(self)@.push(change@));
    }

    /// The number of changes for the next snapshot.
    pub fn pending_count(&self) -> (n: usize)
        ensures
            n == self@.len(),
    {
        self.pending_changes.len()
    }

    /// Make a snapshot of the changes added since the last one.
    pub fn build_snapshot(&mut self) -> (s: DatabaseSnapshot)
        ensures
            exists|times: Seq<u64>| is_snapshot_of(s@, old(self)@, times),
            exists|t: SystemTime| s.timestamp_secs == common::epoch_secs(t),
            final(self)@ == Seq::<ChangeModel>::empty(),
            final(self).configured() == old(self).configured(),
    {
        let mut changes: Vec<Change> = Vec::new();
        std::mem::swap(&mut changes, &mut self.pending_changes);
        let ghost all = change::changes_view(changes@);
        let mut namespaces: Vec<NamespaceSnapshot> = Vec::new();
        let ghost mut times: Seq<u64> = Seq::empty();
        let mut i: usize = 0;
        assert(namespaces_view(namespaces@) =~= Seq::<NamespaceModel>::empty());
        assert(all.take(0) =~= Seq::<ChangeModel>::empty());
        while i < changes.len()
            invariant
                i <= changes.len(),
                all == change::changes_view(changes@),
                times.len() == i,
                namespaces_view(namespaces@) == grouped(all.take(i as int), times),
            decreases changes.len() - i,
        {
            let change = changes[i].clone();
            let now: u64 = current_timestamp_secs();
            let entry = KeyValueEntry { key: change.key, value: change.value, timestamp_secs: now };
            add_to_namespace(&mut namespaces, change.namespace, change.database, entry);
            proof {
                assert(all.take(i + 1).drop_last() =~= all.take(i as int));
                assert(times.push(now).drop_last() =~= times);
                times = times.push(now);
            }
            i = i + 1;
        }
        assert(all.take(i as int) =~= all);
        let s = DatabaseSnapshot::new(namespaces);
        assert(is_snapshot_of(s@, old(self)@, times));
        assert(self@ =~= Seq::<ChangeModel>::empty());
        s
    }
}

fn raw_of_entry(e: &KeyValueEntry) -> (raw: RawEntry)
    ensures
        codec::raw_entry(raw) == e@,
{
    (clone_opt_bytes(&e.key), clone_opt_bytes(&e.value), e.timestamp_secs)
}

fn raw_of_db(db: &DbSnapshot) -> (raw: RawDb)
    ensures
        codec::raw_db(raw) == db@,
{
    let mut entries: Vec<RawEntry> = Vec::new();
    let mut i: usize = 0;
    while i < db.entries.len()
        invariant
            i <= db.entries.len(),
            entries.len() == i,
            forall|k: int| 0 <= k < i ==> codec::raw_entry(#[trigger] entries@[k]) == db.entries@[k]@,
        decreases db.entries.len() - i,
    {
        entries.push(raw_of_entry(&db.entries[i]));
        i = i + 1;
    }
    let mut schemas: Vec<(String, Bytes)> = Vec::new();
    let mut j: usize = 0;
    while j < db.schemas.len()
        invariant
            j <= db.schemas.len(),
            schemas.len() == j,
            forall|k: int|
                0 <= k < j ==> (#[trigger] schemas@[k]).0@ == db.schemas@[k].schema_type@
                    && byte_buf::bytes_of(schemas@[k].1) == byte_buf::bytes_of(db.schemas@[k].definition),
        decreases db.schemas.len() - j,
    {
        schemas.push((db.schemas[j].schema_type.clone(), db.schemas[j].definition.clone()));
        j = j + 1;
    }
    let raw: RawDb = (db.name.clone(), entries, schemas);
    assert(codec::raw_db(raw).entries =~= db@.entries);
    assert(codec::raw_db(raw).schemas =~= db@.schemas);
    raw
}

fn raw_of_namespace(ns: &NamespaceSnapshot) -> (raw: (String, Vec<RawDb>))
    ensures
        codec::raw_namespace(raw) == ns@,
{
    let mut databases: Vec<RawDb> = Vec::new();
    let mut i: usize = 0;
    while i < ns.databases.len()
        invariant
            i <= ns.databases.len(),
            databases.len() == i,
            forall|k: int| 0 <= k < i ==> codec::raw_db(#[trigger] databases@[k]) == ns.databases@[k]@,
        decreases ns.databases.len() - i,
    {
        databases.push(raw_of_db(&ns.databases[i]));
        i = i + 1;
    }
    let raw: (String, Vec<RawDb>) = (ns.name.clone(), databases);
    assert(codec::raw_namespace(raw).databases =~= ns@.databases);
    raw
}

fn raw_of_snapshot(s: &DatabaseSnapshot) -> (raw: RawSnapshot)
    ensures
        codec::raw_snapshot(raw) == s@,
{
    let mut namespaces: Vec<(String, Vec<RawDb>)> = Vec::new();
    let mut i: usize = 0;
    while i < s.namespaces.len()
        invariant
            i <= s.namespaces.len(),
            namespaces.len() == i,
            forall|k: int|
                0 <= k < i ==> codec::raw_namespace(#[trigger] namespaces@[k]) == s.namespaces@[k]@,
        decreases s.namespaces.len() - i,
    {
        namespaces.push(raw_of_namespace(&s.namespaces[i]));
        i = i + 1;
    }
    let raw: RawSnapshot = (s.version, s.timestamp_secs, namespaces, s.checksum);
    assert(codec::raw_snapshot(raw).namespaces =~= s@.namespaces);
    raw
}

fn db_from_raw(raw: &RawDb) -> (db: DbSnapshot)
    ensures
        db@ == codec::raw_db(*raw),
{
    let mut entries: Vec<KeyValueEntry> = Vec::new();
    let mut i: usize = 0;
    while i < raw.1.len()
        invariant
            i <= raw.1.len(),
            entries.len() == i,
            forall|k: int| 0 <= k < i ==> (#[trigger] entries@[k])@ == codec::raw_entry(raw.1@[k]),
        decreases raw.1.len() - i,
    {
        entries.push(
            KeyValueEntry {
                key: clone_opt_bytes(&raw.1[i].0),
                value: clone_opt_bytes(&raw.1[i].1),
                timestamp_secs: raw.1[i].2,
            },
        );
        i = i + 1;
    }
    let mut schemas: Vec<SchemaEntry> = Vec::new();
    let mut j: usize = 0;
    while j < raw.2.len()
        invariant
            j <= raw.2.len(),
            schemas.len() == j,
            forall|k: int|
                0 <= k < j ==> (#[trigger] schemas@[k])@.schema_type == raw.2@[k].0@
                    && schemas@[k]@.definition == byte_buf::bytes_of(raw.2@[k].1),
        decreases raw.2.len() - j,
    {
        schemas.push(
            SchemaEntry { schema_type: raw.2[j].0.clone(), definition: raw.2[j].1.clone() },
        );
        j = j + 1;
    }
    let db = DbSnapshot { name: raw.0.clone(), entries, schemas };
    assert(db@.entries =~= codec::raw_db(*raw).entries);
    assert(db@.schemas =~= codec::raw_db(*raw).schemas);
    db
}

fn snapshot_from_raw(raw: &RawSnapshot) -> (s: DatabaseSnapshot)
    ensures
        s@ == codec::raw_snapshot(*raw),
{
    let mut namespaces: Vec<NamespaceSnapshot> = Vec::new();
    let mut i: usize = 0;
    while i < raw.2.len()
        invariant
            i <= raw.2.len(),
            namespaces.len() == i,
            forall|k: int| 0 <= k < i ==> (#[trigger] namespaces@[k])@ == codec::raw_namespace(raw.2@[k]),
        decreases raw.2.len() - i,
    {
        let mut databases: Vec<DbSnapshot> = Vec::new();
        let mut j: usize = 0;
        while j < raw.2[i].1.len()
            invariant
                i < raw.2.len(),
                j <= raw.2@[i as int].1@.len(),
                databases.len() == j,
                forall|k: int|
                    0 <= k < j ==> (#[trigger] databases@[k])@ == codec::raw_db(raw.2@[i as int].1@[k]),
            decreases raw.2@[i as int].1@.len() - j,
        {
            databases.push(db_from_raw(&raw.2[i].1[j]));
            j = j + 1;
        }
        let ns = NamespaceSnapshot { name: raw.2[i].0.clone(), databases };
        assert(ns@.databases =~= codec::raw_namespace(raw.2@[i as int]).databases);
        namespaces.push(ns);
        i = i + 1;
    }
    let s = DatabaseSnapshot {
        version: raw.0,
        timestamp_secs: raw.1,
        namespaces,
        checksum: raw.3,
    };
    assert(s@.namespaces =~= codec::raw_snapshot(*raw).namespaces);
    s
}

impl SnapshotSerializer {
    /// Write a snapshot in its binary form.
    ///
    /// What is written can be read back.
    pub fn serialize(&self, snapshot: &DatabaseSnapshot) -> (r: Result<Bytes, SnapshotError>)
        ensures
            r is Ok,
            byte_buf::bytes_of(r->Ok_0) == codec::bincode_of_snapshot(snapshot@),
            codec::snapshot_of_bincode(byte_buf::bytes_of(r->Ok_0)) == Some(snapshot@),
            byte_buf::bytes_of(r->Ok_0).len() >= 28,
    {
        match serialize_snapshot(&raw_of_snapshot(snapshot)) {
            Ok(encoded) => Ok(bytes_from_vec(encoded)),
            Err(text) => Err(SnapshotError::InvalidData(text)),
        }
    }

    /// Read a snapshot from its binary form.
    pub fn deserialize(&self, data: &[u8]) -> (r: Result<DatabaseSnapshot, SnapshotError>)
        ensures
            match r {
                Ok(s) => codec::snapshot_of_bincode(data@) == Some(s@),
                Err(e) => {
                    &&& codec::snapshot_of_bincode(data@) is None
                    &&& e is InvalidData
                    &&& e.text() == codec::snapshot_failure(data@)
                },
            },
    {
        match deserialize_snapshot(data) {
            Ok(raw) => Ok(snapshot_from_raw(&raw)),
            Err(text) => Err(SnapshotError::InvalidData(text)),
        }
    }
}

/// A chunk of a snapshot for streaming.
#[derive(Debug)]
pub struct SnapshotChunk {
    pub sequence: u64,
    pub total: u64,
    pub data: Bytes,
    pub is_last: bool,
}

/// What a chunk holds.
#[verifier::ext_equal]
pub struct ChunkModel {
    pub sequence: u64,
    pub total: u64,
    pub data: Seq<u8>,
    pub is_last: bool,
}

impl View for SnapshotChunk {
    type V = ChunkModel;

    open spec fn view(&self) -> ChunkModel {
        ChunkModel {
            sequence: self.sequence,
            total: self.total,
            data: byte_buf::bytes_of(self.data),
            is_last: self.is_last,
        }
    }
}

/// What the chunks of a list hold, in order.
pub open spec fn chunks_view(chunks: Seq<SnapshotChunk>) -> Seq<ChunkModel> {
    Seq::new(chunks.len(), |i: int| chunks[i]@)
}

impl Clone for SnapshotChunk {
    fn clone(&self) -> (c: Self)
        ensures
            c@ == self@,
    {
        SnapshotChunk {
            sequence: self.sequence,
            total: self.total,
            data: self.data.clone(),
            is_last: self.is_last,
        }
    }
}

impl SnapshotChunk {
    /// Make a chunk.
    pub fn new(sequence: u64, total: u64, data: Bytes, is_last: bool) -> (c: Self)
        ensures
            c == (SnapshotChunk { sequence, total, data, is_last }),
    {
        SnapshotChunk { sequence, total, data, is_last }
    }
}

/// The number of chunks of a size that data is cut into.
pub open spec fn chunk_count(len: int, size: int) -> int {
    (len + size - 1) / size
}

/// A piece of data: from a multiple of the size on, as long as the size or up to the
/// end.
pub open spec fn piece(data: Seq<u8>, size: int, i: int) -> Seq<u8> {
    data.subrange(i * size, if (i + 1) * size < data.len() { (i + 1) * size } else { data.len() as int })
}

/// A chunk of data.
pub open spec fn chunk_of(data: Seq<u8>, size: int, i: int) -> ChunkModel {
    let total = chunk_count(data.len() as int, size);
    ChunkModel {
        sequence: i as u64,
        total: total as u64,
        data: piece(data, size, i),
        is_last: i == total - 1,
    }
}

/// The chunks that data is cut into.
pub open spec fn chunks_of(data: Seq<u8>, size: int) -> Seq<ChunkModel> {
    Seq::new(
        chunk_count(data.len() as int, size) as nat,
        |i: int| chunk_of(data, size, i),
    )
}

/// How chunks lie: a chunk that begins before the end of the data is one of the
/// chunks, and the next one begins after it.
proof fn lemma_chunk_at(len: int, size: int, i: int)
    requires
        0 < size,
        0 <= i,
        0 <= len,
    ensures
        i * size < len <==> i < chunk_count(len, size),
        (i + 1) * size == i * size + size,
        0 <= i * size,
{
    let total = chunk_count(len, size);
    assert((i + 1) * size == i * size + size) by (nonlinear_arith);
    assert(0 <= i * size) by (nonlinear_arith)
        requires
            0 <= i,
            0 < size,
    ;
    vstd::arithmetic::div_mod::lemma_fundamental_div_mod(len + size - 1, size);
    vstd::arithmetic::div_mod::lemma_mod_bound(len + size - 1, size);
    let r = (len + size - 1) % size;
    assert(len + size - 1 == size * total + r);
    if i < total {
        assert(i * size <= (total - 1) * size) by (nonlinear_arith)
            requires
                i <= total - 1,
                0 < size,
        ;
        assert((total - 1) * size == size * total - size) by (nonlinear_arith);
    } else {
        assert(i * size >= total * size) by (nonlinear_arith)
            requires
                i >= total,
                0 < size,
        ;
        assert(total * size == size * total) by (nonlinear_arith);
    }
}

/// Cut data into chunks.
pub fn split_chunks(data: &Bytes, chunk_size: usize) -> (r: Vec<SnapshotChunk>)
    requires
        chunk_size > 0,
    ensures
        chunks_view(r@) == chunks_of(byte_buf::bytes_of(*data), chunk_size as int),
        byte_buf::bytes_of(*data).len() <= usize::MAX,
{
    let whole: &[u8] = data.as_ref();
    let len: usize = whole.len();
    let ghost size = chunk_size as int;
    let ghost all = whole@;
    let quotient: usize = len / chunk_size;
    proof {
        lemma_ceil(len as int, size);
    }
    let total_chunks: usize = if len % chunk_size == 0 { quotient } else { quotient + 1 };
    let mut chunks: Vec<SnapshotChunk> = Vec::new();
    let mut start: usize = 0;
    let mut i: usize = 0;
    proof {
        lemma_chunk_at(len as int, size, 0);
    }
    while start < len
        invariant
            whole@ == all,
            all == byte_buf::bytes_of(*data),
            len == all.len(),
            size == chunk_size,
            size > 0,
            total_chunks == chunk_count(len as int, size),
            start < len ==> start == i * size,
            start <= len,
            start < len ==> i < total_chunks,
            start == len ==> i == total_chunks,
            chunks.len() == i,
            forall|k: int| 0 <= k < i ==> (#[trigger] chunks@[k])@ == chunk_of(all, size, k),
        decreases len - start,
    {
        proof {
            lemma_chunk_at(len as int, size, i as int);
            lemma_chunk_at(len as int, size, i + 1);
        }
        let end: usize = if len - start <= chunk_size { len } else { start + chunk_size };
        let part = vstd::slice::slice_subrange(whole, start, end);
        let chunk = SnapshotChunk::new(
            i as u64,
            total_chunks as u64,
            Bytes::copy_from_slice(part),
            i == total_chunks - 1,
        );
        assert(part@ =~= piece(all, size, i as int));
        chunks.push(chunk);
        start = end;
        i = i + 1;
    }
    assert(chunks_view(chunks@) =~= chunks_of(all, size));
    chunks
}

/// Dividing and rounding up.
proof fn lemma_ceil(len: int, size: int)
    requires
        0 < size,
        0 <= len,
    ensures
        chunk_count(len, size) == len / size + if len % size == 0 { 0int } else { 1int },
        len % size != 0 ==> len / size < len,
{
    let q = len / size;
    let r = len % size;
    vstd::arithmetic::div_mod::lemma_fundamental_div_mod(len, size);
    vstd::arithmetic::div_mod::lemma_mod_bound(len, size);
    assert(q <= size * q) by (nonlinear_arith)
        requires
            0 < size,
            0 <= q,
    ;
    if r == 0 {
        assert(len + size - 1 == size * q + (size - 1));
        vstd::arithmetic::div_mod::lemma_fundamental_div_mod_converse(
            len + size - 1,
            size,
            q,
            size - 1,
        );
    } else {
        assert(size * (q + 1) == size * q + size) by (nonlinear_arith);
        vstd::arithmetic::div_mod::lemma_fundamental_div_mod_converse(
            len + size - 1,
            size,
            q + 1,
            r - 1,
        );
    }
}

/// Snapshot exporter for streaming large snapshots.
#[derive(Debug)]
pub struct SnapshotExporter {
    serializer: SnapshotSerializer,
    config: SnapshotConfig,
}

impl View for SnapshotExporter {
    type V = Seq<ChangeModel>;

    closed spec fn view(&self) -> Seq<ChangeModel> {
        self.serializer@
    }
}

impl SnapshotExporter {
    /// Create an exporter without changes.
    pub fn new(config: SnapshotConfig) -> (e: Self)
        ensures
            e@ == Seq::<ChangeModel>::empty(),
            e.configured() == config,
    {
        SnapshotExporter { serializer: SnapshotSerializer::new(config), config }
    }

    /// The configuration of the exporter.
    pub closed spec fn configured(self) -> SnapshotConfig {
        self.config
    }

    /// Add a change to the next snapshot.
    pub fn add_change(&mut self, change: Change)
        ensures
            final(self)@ == old(self)@.push(change@),
            final(self).configured() == old(self).configured(),
    {
        self.serializer.add_change(change);
    }

    /// Make a snapshot of the changes added since the last one, in chunks.
    pub fn export(&mut self) -> (r: Result<Vec<SnapshotChunk>, SnapshotError>)
        requires
            old(self).configured().chunk_size > 0,
        ensures
            r is Ok,
            exists|s: SnapshotData, times: Seq<u64>|
                #![trigger is_snapshot_of(s, old(self)@, times)]
                is_snapshot_of(s, old(self)@, times) && is_export_of(
                    chunks_view(r->Ok_0@),
                    s,
                    old(self).configured().chunk_size as int,
                ),
            final(self)@ == Seq::<ChangeModel>::empty(),
            final(self).configured() == old(self).configured(),
    {
        let snapshot = self.serializer.build_snapshot();
        match self.serializer.serialize(&snapshot) {
            Ok(data) => {
                let chunks = split_chunks(&data, self.config.chunk_size);
                proof {
                    let times = choose|times: Seq<u64>|
                        is_snapshot_of(snapshot@, old(self)@, times);
                    assert(is_snapshot_of(snapshot@, old(self)@, times));
                    assert(is_export_of(
                        chunks_view(chunks@),
                        snapshot@,
                        old(self).configured().chunk_size as int,
                    ));
                }
                Ok(chunks)
            },
            Err(e) => Err(e),
        }
    }

    /// Make a snapshot of the changes added since the last one, in one piece.
    pub fn export_buffer(&mut self) -> (r: Result<Bytes, SnapshotError>)
        ensures
            r is Ok,
            exists|s: SnapshotData, times: Seq<u64>|
                #![trigger is_snapshot_of(s, old(self)@, times)]
                is_snapshot_of(s, old(self)@, times) && byte_buf::bytes_of(r->Ok_0) == codec::bincode_of_snapshot(s)
                    && codec::snapshot_of_bincode(byte_buf::bytes_of(r->Ok_0)) == Some(s),
            final(self)@ == Seq::<ChangeModel>::empty(),
            final(self).configured() == old(self).configured(),
    {
        let snapshot = self.serializer.build_snapshot();
        proof {
            let times = choose|times: Seq<u64>| is_snapshot_of(snapshot@, old(self)@, times);
            assert(is_snapshot_of(snapshot@, old(self)@, times));
        }
        self.serializer.serialize(&snapshot)
    }
}

/// Whether chunks are the binary form of a snapshot, cut into pieces of a size, and the
/// binary form can be read back.
pub open spec fn is_export_of(chunks: Seq<ChunkModel>, s: SnapshotData, size: int) -> bool {
    &&& chunks == chunks_of(codec::bincode_of_snapshot(s), size)
    &&& codec::snapshot_of_bincode(codec::bincode_of_snapshot(s)) == Some(s)
    &&& 0 < codec::bincode_of_snapshot(s).len() <= usize::MAX
}

/// Snapshot importer for receiving streamed snapshots.
#[derive(Debug)]
pub struct SnapshotImporter {
    serializer: SnapshotSerializer,
    received_chunks: Vec<Bytes>,
    total_chunks: Option<u64>,
}

/// What an importer has: the data received by sequence number, empty where a chunk is
/// missing, and the number of chunks, once one was received.
#[verifier::ext_equal]
pub struct ImportModel {
    pub received: Seq<Seq<u8>>,
    pub total: Option<u64>,
}

impl View for SnapshotImporter {
    type V = ImportModel;

    closed spec fn view(&self) -> ImportModel {
        ImportModel {
            received: Seq::new(
                self.received_chunks@.len(),
                |i: int| byte_buf::bytes_of(self.received_chunks@[i]),
            ),
            total: self.total_chunks,
        }
    }
}

/// A list made at least so long with empty entries.
pub open spec fn padded(received: Seq<Seq<u8>>, len: int) -> Seq<Seq<u8>> {
    if len <= received.len() {
        received
    } else {
        received + Seq::new((len - received.len()) as nat, |i: int| Seq::<u8>::empty())
    }
}

impl ImportModel {
    /// An importer that has received nothing.
    pub open spec fn empty() -> ImportModel {
        ImportModel { received: Seq::empty(), total: None }
    }

    /// Whether a chunk is refused: its number is past the last one.
    pub open spec fn refuses(self, chunk: ChunkModel) -> bool {
        self.total is Some && chunk.sequence >= self.total->0
    }

    /// The importer after a chunk was received.
    pub open spec fn with_chunk(self, chunk: ChunkModel) -> ImportModel {
        if self.refuses(chunk) {
            self
        } else {
            ImportModel {
                received: padded(self.received, chunk.sequence + 1).update(
                    chunk.sequence as int,
                    chunk.data,
                ),
                total: if self.total is Some { self.total } else { Some(chunk.total) },
            }
        }
    }

    /// The importer after several chunks were received one after another.
    pub open spec fn with_chunks(self, chunks: Seq<ChunkModel>) -> ImportModel
        decreases chunks.len(),
    {
        if chunks.len() == 0 {
            self
        } else {
            self.with_chunks(chunks.drop_last()).with_chunk(chunks.last())
        }
    }

    /// Whether a chunk was received and none before the last received one, up to the number
    /// of chunks, is missing or empty. Chunks after the last received one may be missing.
    pub open spec fn is_complete(self) -> bool {
        &&& self.total is Some
        &&& forall|i: int|
            0 <= i < self.received.len() && i < self.total->0 ==> (#[trigger] self.received[i]).len()
                > 0
    }
}

/// Pieces put together.
pub open spec fn joined(pieces: Seq<Seq<u8>>) -> Seq<u8>
    decreases pieces.len(),
{
    if pieces.len() == 0 {
        Seq::empty()
    } else {
        joined(pieces.drop_last()) + pieces.last()
    }
}

impl SnapshotImporter {
    /// Create an importer that has received nothing.
    pub fn new() -> (i: Self)
        ensures
            i@ == ImportModel::empty(),
    {
        let i = SnapshotImporter {
            serializer: SnapshotSerializer::new(SnapshotConfig::default()),
            received_chunks: Vec::new(),
            total_chunks: None,
        };
        assert(i@ =~= ImportModel::empty());
        i
    }

    /// Take in a chunk.
    ///
    /// Fails if the chunk's number is past the last one, once the number of chunks is
    /// known.
    pub fn import_chunk(&mut self, chunk: SnapshotChunk) -> (r: Result<(), SnapshotError>)
        requires
            old(self)@.refuses(chunk@) || chunk.sequence < usize::MAX,
        ensures
            r is Err <==> old(self)@.refuses(chunk@),
            r matches Err(e) ==> e is InvalidInput && e.text() == "invalid chunk"@,
            final(self)@ == old(self)@.with_chunk(chunk@),
    {
        match self.total_chunks {
            Some(t) => {
                if chunk.sequence >= t {
                    return Err(SnapshotError::InvalidInput("invalid chunk".to_owned()));
                }
            },
            None => {
                self.total_chunks = Some(chunk.total);
            },
        }
        let idx: usize = chunk.sequence as usize;
        let ghost before = old(self)@.received;
        while self.received_chunks.len() <= idx
            invariant
                idx < usize::MAX,
                self@.received == padded(before, self.received_chunks@.len() as int),
                self.received_chunks@.len() <= idx || self.received_chunks@.len() == idx + 1
                    || self@.received == before,
                self.received_chunks@.len() >= before.len(),
                self.total_chunks == (if old(self)@.total is Some {
                    old(self)@.total
                } else {
                    Some(chunk.total)
                }),
            decreases idx + 1 - self.received_chunks@.len(),
        {
            let ghost was = self@.received;
            self.received_chunks.push(Bytes::new());
            assert(self@.received =~= was.push(Seq::<u8>::empty()));
            assert(self@.received =~= padded(before, self.received_chunks@.len() as int));
        }
        let ghost padding = self@.received;
        assert(padding =~= padded(before, idx + 1));
        let data = chunk.data;
        self.received_chunks.set(idx, data);
        assert(self@.received =~= padding.update(idx as int, chunk@.data));
        Ok(())
    }

    /// Whether a chunk was received and no chunk before the last received one is missing.
    ///
    /// Chunks that come after it are not looked for: the caller hands in all of them
    /// before it asks.
    pub fn is_complete(&self) -> (r: bool)
        ensures
            r == self@.is_complete(),
    {
        match self.total_chunks {
            Some(t) => {
                let mut i: usize = 0;
                while i < self.received_chunks.len() && (i as u64) < t
                    invariant
                        i <= self.received_chunks@.len(),
                        self.total_chunks == Some(t),
                        forall|k: int| 0 <= k < i ==> (#[trigger] self@.received[k]).len() > 0,
                    decreases self.received_chunks@.len() - i,
                {
                    if self.received_chunks[i].is_empty() {
                        assert(self@.received[i as int].len() == 0);
                        return false;
                    }
                    i = i + 1;
                }
                true
            },
            None => false,
        }
    }

    /// Put the chunks together and read the snapshot.
    pub fn finalize(&self) -> (r: Result<DatabaseSnapshot, SnapshotError>)
        ensures
            match r {
                Ok(s) => self@.is_complete() && codec::snapshot_of_bincode(joined(self@.received)) == Some(
                    s@,
                ),
                Err(e) => if self@.is_complete() {
                    &&& codec::snapshot_of_bincode(joined(self@.received)) is None
                    &&& e is InvalidData
                    &&& e.text() == codec::snapshot_failure(joined(self@.received))
                } else {
                    e is UnexpectedEof && e.text() == "incomplete"@
                },
            },
    {
        if !self.is_complete() {
            return Err(SnapshotError::UnexpectedEof("incomplete".to_owned()));
        }
        let mut data: Vec<u8> = Vec::new();
        let mut i: usize = 0;
        let ghost received = self@.received;
        assert(received.take(0) =~= Seq::<Seq<u8>>::empty());
        while i < self.received_chunks.len()
            invariant
                i <= self.received_chunks@.len(),
                received == self@.received,
                data@ == joined(received.take(i as int)),
            decreases self.received_chunks@.len() - i,
        {
            let ghost before = data@;
            data.extend_from_slice(self.received_chunks[i].as_ref());
            proof {
                assert(received.take(i + 1).drop_last() =~= received.take(i as int));
                assert(data@ =~= before + received[i as int]);
            }
            i = i + 1;
        }
        assert(received.take(i as int) =~= received);
        self.serializer.deserialize(data.as_slice())
    }

    /// Forget everything received.
    pub fn reset(&mut self)
        ensures
            final(self)@ == ImportModel::empty(),
    {
        self.received_chunks = Vec::new();
        self.total_chunks = None;
        assert(self@ =~= ImportModel::empty());
    }
}

impl Default for SnapshotImporter {
    fn default() -> (i: Self)
        ensures
            i@ == ImportModel::empty(),
    {
        SnapshotImporter::new()
    }
}

/// All pieces of data.
pub open spec fn pieces_of(data: Seq<u8>, size: int) -> Seq<Seq<u8>> {
    Seq::new(chunk_count(data.len() as int, size) as nat, |i: int| piece(data, size, i))
}

/// Whether each of some chunks is one of the chunks of data.
pub open spec fn all_from(chunks: Seq<ChunkModel>, data: Seq<u8>, size: int) -> bool {
    forall|i: int|
        0 <= i < chunks.len() ==> (#[trigger] chunks[i]).sequence < chunk_count(
            data.len() as int,
            size,
        ) && chunks[i] == chunk_of(data, size, chunks[i].sequence as int)
}

/// Whether one of some chunks has a number.
pub open spec fn has_number(chunks: Seq<ChunkModel>, k: int) -> bool {
    exists|i: int| 0 <= i < chunks.len() && (#[trigger] chunks[i]).sequence == k
}

/// Pieces put together up to one of them make up the data up to it.
proof fn lemma_joined(data: Seq<u8>, size: int, k: int)
    requires
        0 < size,
        0 <= k <= chunk_count(data.len() as int, size),
    ensures
        joined(pieces_of(data, size).take(k)) == data.take(
            if k * size < data.len() { k * size } else { data.len() as int },
        ),
    decreases k,
{
    let pieces = pieces_of(data, size);
    let len = data.len() as int;
    if k > 0 {
        lemma_joined(data, size, k - 1);
        lemma_chunk_at(len, size, k - 1);
        lemma_chunk_at(len, size, k);
        assert(pieces.take(k).drop_last() =~= pieces.take(k - 1));
        assert(pieces.take(k).last() == piece(data, size, k - 1));
        let end = if k * size < len { k * size } else { len };
        assert(data.take((k - 1) * size) + piece(data, size, k - 1) =~= data.take(end));
    } else {
        assert(pieces.take(0) =~= Seq::<Seq<u8>>::empty());
        assert(0 * size == 0);
        assert(data.take(0) =~= Seq::<u8>::empty());
    }
}

/// What an importer has after chunks of data were received: each of them in its place.
proof fn lemma_received(data: Seq<u8>, size: int, chunks: Seq<ChunkModel>)
    requires
        0 < size,
        data.len() <= u64::MAX,
        all_from(chunks, data, size),
    ensures
        ({
            let m = ImportModel::empty().with_chunks(chunks);
            let total = chunk_count(data.len() as int, size);
            &&& chunks.len() == 0 ==> m == ImportModel::empty()
            &&& chunks.len() > 0 ==> m.total == Some(total as u64)
            &&& m.received.len() <= total <= u64::MAX
            &&& forall|i: int|
                0 <= i < chunks.len() ==> (#[trigger] chunks[i]).sequence < m.received.len()
                    && m.received[chunks[i].sequence as int] == piece(
                    data,
                    size,
                    chunks[i].sequence as int,
                )
        }),
    decreases chunks.len(),
{
    let total = chunk_count(data.len() as int, size);
    assert(0 <= total <= data.len()) by {
        lemma_chunk_at(data.len() as int, size, data.len() as int);
        assert(data.len() * size >= data.len()) by (nonlinear_arith)
            requires
                0 < size,
        ;
        lemma_ceil(data.len() as int, size);
        vstd::arithmetic::div_mod::lemma_div_pos_is_pos(data.len() as int, size);
    }
    if chunks.len() > 0 {
        let init = chunks.drop_last();
        let last = chunks.last();
        assert forall|i: int| 0 <= i < init.len() implies (#[trigger] init[i]).sequence < total
            && init[i] == chunk_of(data, size, init[i].sequence as int) by {
            assert(init[i] == chunks[i]);
        }
        lemma_received(data, size, init);
        let before = ImportModel::empty().with_chunks(init);
        let m = before.with_chunk(last);
        assert(chunks[chunks.len() - 1] == last);
        assert(!before.refuses(last));
        assert(m == ImportModel::empty().with_chunks(chunks));
        assert forall|i: int| 0 <= i < chunks.len() implies (#[trigger] chunks[i]).sequence
            < m.received.len() && m.received[chunks[i].sequence as int] == piece(
            data,
            size,
            chunks[i].sequence as int,
        ) by {
            if i < init.len() {
                assert(init[i] == chunks[i]);
            }
        }
    }
}

/// The chunks of an exported snapshot, received in any order and each at least once,
/// make the importer complete, and what it puts together is the snapshot.
pub proof fn import_undoes_export(s: SnapshotData, size: int, chunks: Seq<ChunkModel>)
    requires
        0 < size,
        is_export_of(chunks_of(codec::bincode_of_snapshot(s), size), s, size),
        all_from(chunks, codec::bincode_of_snapshot(s), size),
        forall|k: int|
            0 <= k < chunk_count(codec::bincode_of_snapshot(s).len() as int, size) ==> #[trigger] has_number(
                chunks,
                k,
            ),
    ensures
        ImportModel::empty().with_chunks(chunks).is_complete(),
        codec::snapshot_of_bincode(joined(ImportModel::empty().with_chunks(chunks).received)) == Some(s),
{
    let data = codec::bincode_of_snapshot(s);
    let total = chunk_count(data.len() as int, size);
    let m = ImportModel::empty().with_chunks(chunks);
    lemma_received(data, size, chunks);
    lemma_chunk_at(data.len() as int, size, 0);
    assert(0 * size == 0);
    assert(total > 0);
    assert forall|k: int| 0 <= k < total implies k < m.received.len() && #[trigger] m.received[k]
        == piece(data, size, k) && m.received[k].len() > 0 by {
        assert(has_number(chunks, k));
        let i = choose|i: int| 0 <= i < chunks.len() && (#[trigger] chunks[i]).sequence == k;
        assert(chunks[i].sequence == k);
        lemma_chunk_at(data.len() as int, size, k);
    }
    assert(chunks.len() > 0) by {
        assert(has_number(chunks, 0));
        let i = choose|i: int| 0 <= i < chunks.len() && (#[trigger] chunks[i]).sequence == 0;
        assert(0 <= i < chunks.len());
    }
    assert(m.received.len() == total) by {
        if m.received.len() < total {
            assert(m.received[total - 1] == piece(data, size, total - 1));
        }
    }
    assert(m.received =~= pieces_of(data, size));
    lemma_joined(data, size, total);
    lemma_chunk_at(data.len() as int, size, total);
    assert(pieces_of(data, size).take(total) =~= pieces_of(data, size));
    assert(data.take(data.len() as int) =~= data);
}

/// The entries of the database with a name; none, if there is no such database.
pub open spec fn db_entries(databases: Seq<DbModel>, name: Seq<char>) -> Seq<EntryModel> {
    let i = assoc::key_index(db_names(databases), name);
    if i < databases.len() {
        databases[i].entries
    } else {
        Seq::empty()
    }
}

/// The entries of a database of the namespace with a name; none, if there is no such
/// namespace or database.
pub open spec fn entries_at(
    namespaces: Seq<NamespaceModel>,
    name: Seq<char>,
    database: Seq<char>,
) -> Seq<EntryModel> {
    let i = assoc::key_index(namespace_names(namespaces), name);
    if i < namespaces.len() {
        db_entries(namespaces[i].databases, database)
    } else {
        Seq::empty()
    }
}

/// The entries of the changes to a database of a namespace, in order.
pub open spec fn entries_for(
    changes: Seq<ChangeModel>,
    times: Seq<u64>,
    name: Seq<char>,
    database: Seq<char>,
) -> Seq<EntryModel>
    decreases changes.len(),
{
    if changes.len() == 0 {
        Seq::empty()
    } else {
        let before = entries_for(changes.drop_last(), times.drop_last(), name, database);
        let c = changes.last();
        if c.namespace == name && c.database == database {
            before.push(entry_of(c, times.last()))
        } else {
            before
        }
    }
}

/// Adding an entry to a database adds it to the entries of that database and to no
/// other.
proof fn lemma_added_to_db(
    databases: Seq<DbModel>,
    name: Seq<char>,
    entry: EntryModel,
    other: Seq<char>,
)
    ensures
        db_entries(added_to_db(databases, name, entry), other) == if name == other {
            db_entries(databases, other).push(entry)
        } else {
            db_entries(databases, other)
        },
{
    let names = db_names(databases);
    let after = added_to_db(databases, name, entry);
    assoc::lemma_key_index(names, name);
    assoc::lemma_key_index(names, other);
    let i = assoc::key_index(names, name);
    let j = assoc::key_index(names, other);
    if i < databases.len() {
        assert(names[i].0 == name);
        assert(db_names(after) =~= names);
    } else {
        assert(db_names(after) =~= names.push((name, ())));
        if j < databases.len() {
            assoc::lemma_key_index_at(db_names(after), other, j);
        } else if name == other {
            assoc::lemma_key_index_at(db_names(after), other, j);
            assert(seq![entry] =~= Seq::<EntryModel>::empty().push(entry));
        } else {
            assoc::lemma_key_index_at(db_names(after), other, j + 1);
        }
    }
}

/// Adding an entry to a database of a namespace adds it there and nowhere else.
proof fn lemma_added_to_namespace(
    namespaces: Seq<NamespaceModel>,
    name: Seq<char>,
    database: Seq<char>,
    entry: EntryModel,
    other: Seq<char>,
    other_db: Seq<char>,
)
    ensures
        entries_at(added_to_namespace(namespaces, name, database, entry), other, other_db) == if name
            == other && database == other_db {
            entries_at(namespaces, other, other_db).push(entry)
        } else {
            entries_at(namespaces, other, other_db)
        },
{
    let names = namespace_names(namespaces);
    let after = added_to_namespace(namespaces, name, database, entry);
    assoc::lemma_key_index(names, name);
    assoc::lemma_key_index(names, other);
    let i = assoc::key_index(names, name);
    let j = assoc::key_index(names, other);
    if i < namespaces.len() {
        assert(names[i].0 == name);
        assert(namespace_names(after) =~= names);
        lemma_added_to_db(namespaces[i].databases, database, entry, other_db);
    } else {
        assert(namespace_names(after) =~= names.push((name, ())));
        lemma_added_to_db(Seq::empty(), database, entry, other_db);
        assert(db_entries(Seq::empty(), other_db) =~= Seq::<EntryModel>::empty());
        if j < namespaces.len() {
            assoc::lemma_key_index_at(namespace_names(after), other, j);
        } else if name == other {
            assoc::lemma_key_index_at(namespace_names(after), other, j);
        } else {
            assoc::lemma_key_index_at(namespace_names(after), other, j + 1);
        }
    }
}

/// A snapshot of changes has, in each database of each namespace, the entries of the
/// changes to it, in their order.
pub proof fn snapshot_holds_every_change(
    changes: Seq<ChangeModel>,
    times: Seq<u64>,
    name: Seq<char>,
    database: Seq<char>,
)
    requires
        times.len() == changes.len(),
    ensures
        entries_at(grouped(changes, times), name, database) == entries_for(
            changes,
            times,
            name,
            database,
        ),
    decreases changes.len(),
{
    if changes.len() > 0 {
        let c = changes.last();
        snapshot_holds_every_change(changes.drop_last(), times.drop_last(), name, database);
        lemma_added_to_namespace(
            grouped(changes.drop_last(), times.drop_last()),
            c.namespace,
            c.database,
            entry_of(c, times.last()),
            name,
            database,
        );
    }
}

/// Whether no name occurs twice: neither that of a namespace, nor that of a database in a
/// namespace.
pub open spec fn names_are_distinct(namespaces: Seq<NamespaceModel>) -> bool {
    &&& assoc::distinct_keys(namespace_names(namespaces))
    &&& forall|i: int|
        0 <= i < namespaces.len() ==> assoc::distinct_keys(
            db_names((#[trigger] namespaces[i]).databases),
        )
}

/// Adding an entry to a database does not make a name occur twice.
proof fn lemma_db_names_distinct(databases: Seq<DbModel>, name: Seq<char>, entry: EntryModel)
    requires
        assoc::distinct_keys(db_names(databases)),
    ensures
        assoc::distinct_keys(db_names(added_to_db(databases, name, entry))),
{
    let names = db_names(databases);
    let after = db_names(added_to_db(databases, name, entry));
    assoc::lemma_key_index(names, name);
    if assoc::key_index(names, name) < databases.len() {
        assert(after =~= names);
    } else {
        assert(after =~= names.push((name, ())));
    }
}

/// Each namespace occurs once in a snapshot of changes, and each database once in its
/// namespace.
pub proof fn snapshot_names_occur_once(changes: Seq<ChangeModel>, times: Seq<u64>)
    requires
        times.len() == changes.len(),
    ensures
        names_are_distinct(grouped(changes, times)),
    decreases changes.len(),
{
    if changes.len() > 0 {
        let c = changes.last();
        let entry = entry_of(c, times.last());
        let before = grouped(changes.drop_last(), times.drop_last());
        let after = grouped(changes, times);
        let names = namespace_names(before);
        snapshot_names_occur_once(changes.drop_last(), times.drop_last());
        assoc::lemma_key_index(names, c.namespace);
        let k = assoc::key_index(names, c.namespace);
        if k < before.len() {
            assert(namespace_names(after) =~= names);
            lemma_db_names_distinct(before[k].databases, c.database, entry);
        } else {
            assert(namespace_names(after) =~= names.push((c.namespace, ())));
            lemma_db_names_distinct(Seq::empty(), c.database, entry);
        }
        assert forall|i: int| 0 <= i < after.len() implies assoc::distinct_keys(
            db_names((#[trigger] after[i]).databases),
        ) by {
            if i != k {
                assert(after[i] == before[i]);
            }
        }
    }
}

/// Replacing a database changes the number of entries by the difference.
proof fn lemma_db_count_update(databases: Seq<DbModel>, i: int, db: DbModel)
    requires
        0 <= i < databases.len(),
    ensures
        db_entry_count(databases.update(i, db)) == db_entry_count(databases)
            - databases[i].entries.len() + db.entries.len(),
    decreases databases.len(),
{
    let after = databases.update(i, db);
    if i == databases.len() - 1 {
        assert(after.drop_last() =~= databases.drop_last());
    } else {
        lemma_db_count_update(databases.drop_last(), i, db);
        assert(after.drop_last() =~= databases.drop_last().update(i, db));
    }
}

/// Replacing a namespace changes the number of entries by the difference.
proof fn lemma_count_update(namespaces: Seq<NamespaceModel>, i: int, ns: NamespaceModel)
    requires
        0 <= i < namespaces.len(),
    ensures
        entry_count(namespaces.update(i, ns)) == entry_count(namespaces) - db_entry_count(
            namespaces[i].databases,
        ) + db_entry_count(ns.databases),
    decreases namespaces.len(),
{
    let after = namespaces.update(i, ns);
    if i == namespaces.len() - 1 {
        assert(after.drop_last() =~= namespaces.drop_last());
    } else {
        lemma_count_update(namespaces.drop_last(), i, ns);
        assert(after.drop_last() =~= namespaces.drop_last().update(i, ns));
    }
}

/// Adding an entry to a database raises the number of entries by one.
proof fn lemma_added_db_count(databases: Seq<DbModel>, name: Seq<char>, entry: EntryModel)
    ensures
        db_entry_count(added_to_db(databases, name, entry)) == db_entry_count(databases) + 1,
{
    let i = assoc::key_index(db_names(databases), name);
    assoc::lemma_key_index(db_names(databases), name);
    if i < databases.len() {
        lemma_db_count_update(
            databases,
            i,
            DbModel { entries: databases[i].entries.push(entry), ..databases[i] },
        );
    } else {
        let after = added_to_db(databases, name, entry);
        assert(after.drop_last() =~= databases);
    }
}

/// A snapshot of changes has as many entries as there are changes.
pub proof fn snapshot_has_an_entry_per_change(changes: Seq<ChangeModel>, times: Seq<u64>)
    requires
        times.len() == changes.len(),
    ensures
        entry_count(grouped(changes, times)) == changes.len(),
    decreases changes.len(),
{
    if changes.len() > 0 {
        let c = changes.last();
        let before = grouped(changes.drop_last(), times.drop_last());
        let e = entry_of(c, times.last());
        snapshot_has_an_entry_per_change(changes.drop_last(), times.drop_last());
        let i = assoc::key_index(namespace_names(before), c.namespace);
        assoc::lemma_key_index(namespace_names(before), c.namespace);
        if i < before.len() {
            lemma_added_db_count(before[i].databases, c.database, e);
            lemma_count_update(
                before,
                i,
                NamespaceModel {
                    databases: added_to_db(before[i].databases, c.database, e),
                    ..before[i]
                },
            );
        } else {
            lemma_added_db_count(Seq::empty(), c.database, e);
            let after = added_to_namespace(before, c.namespace, c.database, e);
            assert(after.drop_last() =~= before);
        }
    }
}

/// How many of the first changes are to a database of a namespace.
pub open spec fn changes_to(
    changes: Seq<ChangeModel>,
    count: int,
    name: Seq<char>,
    database: Seq<char>,
) -> nat
    decreases count,
{
    if count <= 0 {
        0
    } else {
        changes_to(changes, count - 1, name, database) + if changes[count - 1].namespace == name
            && changes[count - 1].database == database {
            1nat
        } else {
            0nat
        }
    }
}

/// Where the entry of a change is among those for its database.
proof fn lemma_entry_for(
    changes: Seq<ChangeModel>,
    times: Seq<u64>,
    name: Seq<char>,
    database: Seq<char>,
    i: int,
)
    requires
        times.len() == changes.len(),
    ensures
        entries_for(changes, times, name, database).len() == changes_to(
            changes,
            changes.len() as int,
            name,
            database,
        ),
        0 <= i < changes.len() && changes[i].namespace == name && changes[i].database == database ==> {
            let k = changes_to(changes, i, name, database) as int;
            let all = entries_for(changes, times, name, database);
            &&& 0 <= k < all.len()
            &&& all[k].key == changes[i].key
            &&& all[k].value == changes[i].value
            &&& all[k].timestamp_secs == times[i]
        },
    decreases changes.len(),
{
    if changes.len() > 0 {
        let init = changes.drop_last();
        lemma_entry_for(init, times.drop_last(), name, database, i);
        lemma_changes_to_prefix(changes, init.len() as int, init.len() as int, name, database);
        if 0 <= i < init.len() {
            lemma_changes_to_prefix(changes, init.len() as int, i, name, database);
        }
    }
}

proof fn lemma_changes_to_prefix(
    changes: Seq<ChangeModel>,
    n: int,
    count: int,
    name: Seq<char>,
    database: Seq<char>,
)
    requires
        0 <= count <= n <= changes.len(),
    ensures
        changes_to(changes.take(n), count, name, database) == changes_to(
            changes,
            count,
            name,
            database,
        ),
        changes.drop_last() == changes.take(changes.len() - 1) || changes.len() == 0,
    decreases count,
{
    if changes.len() > 0 {
        assert(changes.drop_last() =~= changes.take(changes.len() - 1));
    }
    if count > 0 {
        lemma_changes_to_prefix(changes, n, count - 1, name, database);
    }
}

/// The entry that stands for a change has the key and the value of the change, whether
/// there is one or not, and the time at which the change was taken in. It stands in the
/// database and the namespace that the change names, behind the entries of the earlier
/// changes there. There is nothing else in the database, and it has no schemas.
pub proof fn entry_says_what_the_change_does(
    changes: Seq<ChangeModel>,
    times: Seq<u64>,
    i: int,
)
    requires
        times.len() == changes.len(),
        0 <= i < changes.len(),
    ensures
        exists|a: int, b: int|
            #![trigger grouped(changes, times)[a].databases[b]]
            {
                let all = grouped(changes, times);
                let db = all[a].databases[b];
                let k = changes_to(changes, i, changes[i].namespace, changes[i].database) as int;
                &&& 0 <= a < all.len()
                &&& 0 <= b < all[a].databases.len()
                &&& all[a].name == changes[i].namespace
                &&& db.name == changes[i].database
                &&& db.entries.len() == changes_to(
                    changes,
                    changes.len() as int,
                    changes[i].namespace,
                    changes[i].database,
                )
                &&& 0 <= k < db.entries.len()
                &&& db.entries[k].key == changes[i].key
                &&& db.entries[k].value == changes[i].value
                &&& db.entries[k].timestamp_secs == times[i]
                &&& db.schemas.len() == 0
            },
{
    let name = changes[i].namespace;
    let database = changes[i].database;
    let all = grouped(changes, times);
    snapshot_holds_every_change(changes, times, name, database);
    lemma_entry_for(changes, times, name, database, i);
    let a = assoc::key_index(namespace_names(all), name);
    assoc::lemma_key_index(namespace_names(all), name);
    assert(a < all.len()) by {
        if a >= all.len() {
            assert(entries_at(all, name, database).len() == 0);
        }
    }
    let dbs = all[a].databases;
    let b = assoc::key_index(db_names(dbs), database);
    assoc::lemma_key_index(db_names(dbs), database);
    assert(b < dbs.len()) by {
        if b >= dbs.len() {
            assert(entries_at(all, name, database).len() == 0);
        }
    }
    assert(namespace_names(all)[a].0 == name);
    assert(db_names(dbs)[b].0 == database);
    lemma_no_schemas(changes, times);
    assert(all[a].databases[b].schemas.len() == 0);
}

/// Snapshots of changes have no schemas.
proof fn lemma_no_schemas(changes: Seq<ChangeModel>, times: Seq<u64>)
    ensures
        forall|a: int, b: int|
            #![trigger grouped(changes, times)[a].databases[b]]
            0 <= a < grouped(changes, times).len() && 0 <= b < grouped(changes, times)[a].databases.len()
                ==> grouped(changes, times)[a].databases[b].schemas.len() == 0,
    decreases changes.len(),
{
    if changes.len() > 0 {
        let c = changes.last();
        let before = grouped(changes.drop_last(), times.drop_last());
        let after = grouped(changes, times);
        lemma_no_schemas(changes.drop_last(), times.drop_last());
        let k = assoc::key_index(namespace_names(before), c.namespace);
        assoc::lemma_key_index(namespace_names(before), c.namespace);
        assert forall|a: int, b: int|
            #![trigger after[a].databases[b]]
            0 <= a < after.len() && 0 <= b < after[a].databases.len() implies after[a].databases[b].schemas.len()
            == 0 by {
            let dbs = if a < before.len() { before[a].databases } else { Seq::empty() };
            assoc::lemma_key_index(db_names(dbs), c.database);
            if a < before.len() && b < dbs.len() {
                assert(before[a].databases[b].schemas.len() == 0);
            }
        }
    }
}

/// A built snapshot is of the first version, is valid, and has an entry for each change
/// that was added; the serializer starts anew.
pub proof fn built_snapshot_holds_what_was_added(
    s: &mut SnapshotSerializer,
    snapshot: DatabaseSnapshot,
    valid: bool,
)
    requires
        call_ensures(SnapshotSerializer::build_snapshot, (s,), snapshot),
        call_ensures(DatabaseSnapshot::validate, (&snapshot,), valid),
    ensures
        snapshot.version == 1,
        valid,
        final(s)@.len() == 0,
        exists|times: Seq<u64>|
            times.len() == old(s)@.len() && snapshot@.namespaces == #[trigger] grouped(
                old(s)@,
                times,
            ),
{
    let times = choose|times: Seq<u64>| is_snapshot_of(snapshot@, old(s)@, times);
    assert(is_snapshot_of(snapshot@, old(s)@, times));
    assert(snapshot@.namespaces == grouped(old(s)@, times));
}

/// What the checksum of a snapshot is taken over: for each namespace its name, then for
/// each of its databases the name and the number of entries, all in order.
pub proof fn checksum_is_over_names_and_counts(
    a: Seq<NamespaceModel>,
    b: Seq<NamespaceModel>,
    ns: NamespaceModel,
    i: int,
)
    requires
        0 <= i < ns.databases.len(),
    ensures
        hashed_namespaces(a + b) == hashed_namespaces(a) + hashed_namespaces(b),
        hashed_namespaces(seq![ns]).len() == 1 + 2 * ns.databases.len(),
        hashed_namespaces(seq![ns])[0] == encode_utf8(ns.name),
        hashed_namespaces(seq![ns])[1 + 2 * i] == encode_utf8(ns.databases[i].name),
        hashed_namespaces(seq![ns])[2 + 2 * i] == count_bytes(
            ns.databases[i].entries.len() as usize,
        ),
    decreases b.len(),
{
    if b.len() > 0 {
        assert((a + b).drop_last() =~= a + b.drop_last());
        checksum_is_over_names_and_counts(a, b.drop_last(), ns, i);
        let x = hashed_namespaces(a);
        let y = hashed_namespaces(b.drop_last());
        let n = encode_utf8(b.last().name);
        let d = hashed_databases(b.last().databases);
        assert((x + y).push(n) + d =~= x + (y.push(n) + d));
    } else {
        assert(a + b =~= a);
        assert(hashed_namespaces(a) + Seq::<Seq<u8>>::empty() =~= hashed_namespaces(a));
    }
    let one = seq![ns];
    assert(one.drop_last() =~= Seq::<NamespaceModel>::empty());
    assert(hashed_namespaces(one.drop_last()) =~= Seq::<Seq<u8>>::empty());
    lemma_hashed_databases(ns.databases, i);
    let d = hashed_databases(ns.databases);
    assert(hashed_namespaces(one) =~= seq![encode_utf8(ns.name)] + d);
    assert(hashed_namespaces(one)[1 + 2 * i] == d[2 * i]);
    assert(hashed_namespaces(one)[2 + 2 * i] == d[2 * i + 1]);
}

proof fn lemma_hashed_databases(databases: Seq<DbModel>, i: int)
    ensures
        hashed_databases(databases).len() == 2 * databases.len(),
        0 <= i < databases.len() ==> hashed_databases(databases)[2 * i] == encode_utf8(
            databases[i].name,
        ) && hashed_databases(databases)[2 * i + 1] == count_bytes(
            databases[i].entries.len() as usize,
        ),
    decreases databases.len(),
{
    if databases.len() > 0 {
        lemma_hashed_databases(databases.drop_last(), i);
        let before = hashed_databases(databases.drop_last());
        let all = hashed_databases(databases);
        if 0 <= i < databases.len() - 1 {
            assert(all[2 * i] == before[2 * i]);
            assert(all[2 * i + 1] == before[2 * i + 1]);
        }
    }
}

/// A snapshot is valid if and only if its checksum is that of its namespaces.
pub proof fn validity_goes_by_the_checksum(s: DatabaseSnapshot, r: bool)
    requires
        call_ensures(DatabaseSnapshot::validate, (&s,), r),
    ensures
        r <==> s.checksum == DefaultHasher::spec_finish(
            hashed_namespaces(namespaces_view(s.namespaces@)),
        ),
{
}

/// Chunks are the data cut in order: each but the last is as long as the chunk size, the
/// last has the rest, and each byte is where it was. They are numbered from zero, all say
/// how many they are, and only the last says that it is the last.
pub proof fn chunks_are_the_data_in_order(
    data: Bytes,
    size: usize,
    chunks: Vec<SnapshotChunk>,
    i: int,
    j: int,
)
    requires
        call_ensures(split_chunks, (&data, size), chunks),
        size > 0,
        0 <= i < chunks@.len(),
        0 <= j < chunks@[i]@.data.len(),
    ensures
        ({
            let all = byte_buf::bytes_of(data);
            let chunk = chunks@[i];
            &&& chunk.sequence == i
            &&& chunk.total == chunks@.len()
            &&& chunk.is_last <==> i == chunks@.len() - 1
            &&& i < chunks@.len() - 1 ==> chunk@.data.len() == size
            &&& i == chunks@.len() - 1 ==> i * size + chunk@.data.len() == all.len()
            &&& 0 < chunk@.data.len() <= size
            &&& 0 <= i * size + j < all.len()
            &&& chunk@.data[j] == all[i * size + j]
        }),
{
    let all = byte_buf::bytes_of(data);
    let len = all.len() as int;
    let s = size as int;
    let views = chunks_view(chunks@);
    assert(views == chunks_of(all, s));
    assert(views.len() == chunks@.len());
    assert(views[i] == chunks@[i]@);
    lemma_ceil(len, s);
    lemma_chunk_at(len, s, i);
    lemma_chunk_at(len, s, i + 1);
    let total = chunk_count(len, s);
    assert(total <= len) by {
        if len % s == 0 {
            assert(len / s <= len) by (nonlinear_arith)
                requires
                    0 < s,
                    0 <= len,
            ;
        }
    }
}

/// No data, no chunks; and there are only as many chunks as it takes.
pub proof fn no_more_chunks_than_it_takes(data: Bytes, size: usize, chunks: Vec<SnapshotChunk>)
    requires
        call_ensures(split_chunks, (&data, size), chunks),
        size > 0,
    ensures
        byte_buf::bytes_of(data).len() == 0 <==> chunks@.len() == 0,
        chunks@.len() > 0 ==> (chunks@.len() - 1) * size < byte_buf::bytes_of(data).len()
            <= chunks@.len() * size,
{
    let len = byte_buf::bytes_of(data).len() as int;
    let s = size as int;
    assert(chunks_view(chunks@).len() == chunks@.len());
    let total = chunk_count(len, s);
    lemma_ceil(len, s);
    assert(0 <= total) by {
        assert(0 <= len / s) by (nonlinear_arith)
            requires
                0 <= len,
                0 < s,
        ;
    }
    lemma_chunk_at(len, s, 0);
    lemma_chunk_at(len, s, total);
    assert(0 * s == 0);
    if total > 0 {
        lemma_chunk_at(len, s, total - 1);
    }
}

/// A chunk is taken in at its place. The first one says how many there are; a later one
/// that is past the last is refused, with nothing changed. What was received before stays,
/// and places in between are empty.
pub proof fn chunk_is_taken_in_at_its_place(
    importer: &mut SnapshotImporter,
    chunk: SnapshotChunk,
    r: Result<(), SnapshotError>,
    i: int,
)
    requires
        call_ensures(SnapshotImporter::import_chunk, (importer, chunk), r),
        chunk.sequence < usize::MAX,
    ensures
        r is Err <==> old(importer)@.total is Some && chunk.sequence >= old(importer)@.total->0,
        r is Err ==> final(importer)@ == old(importer)@ && r->Err_0 is InvalidInput
            && r->Err_0->InvalidInput_0@ == "invalid chunk"@,
        r is Ok ==> {
            let before = old(importer)@;
            let after = final(importer)@;
            &&& before.total is Some ==> after.total == before.total
            &&& before.total is None ==> after.total == Some(chunk.total)
            &&& after.received.len() == if chunk.sequence < before.received.len() {
                before.received.len() as int
            } else {
                chunk.sequence + 1
            }
            &&& after.received[chunk.sequence as int] == byte_buf::bytes_of(chunk.data)
            &&& 0 <= i < before.received.len() && i != chunk.sequence ==> after.received[i]
                == before.received[i]
            &&& before.received.len() <= i < chunk.sequence ==> after.received[i].len() == 0
        },
{
}

/// When an importer counts as complete: a chunk was received, and none of the places up to
/// the last received one, of those that there are, is empty. It then reads the snapshot
/// from what was received, put together in order; otherwise it says that it is incomplete.
pub proof fn importer_reads_what_it_received(
    importer: SnapshotImporter,
    complete: bool,
    r: Result<DatabaseSnapshot, SnapshotError>,
    a: Seq<Seq<u8>>,
    b: Seq<Seq<u8>>,
)
    requires
        call_ensures(SnapshotImporter::is_complete, (&importer,), complete),
        call_ensures(SnapshotImporter::finalize, (&importer,), r),
    ensures
        complete <==> importer@.total is Some && forall|i: int|
            0 <= i < importer@.received.len() && i < importer@.total->0 ==> (
            #[trigger] importer@.received[i]).len() > 0,
        !complete ==> r is Err && r->Err_0 is UnexpectedEof && r->Err_0->UnexpectedEof_0@
            == "incomplete"@,
        complete && r is Ok ==> codec::snapshot_of_bincode(joined(importer@.received)) == Some(
            r->Ok_0@,
        ),
        complete && r is Err ==> r->Err_0 is InvalidData && codec::snapshot_of_bincode(
            joined(importer@.received),
        ) is None,
        joined(a + b) == joined(a) + joined(b),
        a.len() > 0 ==> joined(seq![a[0]]) == a[0],
{
    lemma_joined_concat(a, b);
    if a.len() > 0 {
        let one = seq![a[0]];
        assert(one.drop_last() =~= Seq::<Seq<u8>>::empty());
        assert(joined(one.drop_last()) =~= Seq::<u8>::empty());
        assert(joined(one) =~= a[0]);
    }
}

proof fn lemma_joined_concat(a: Seq<Seq<u8>>, b: Seq<Seq<u8>>)
    ensures
        joined(a + b) == joined(a) + joined(b),
    decreases b.len(),
{
    if b.len() > 0 {
        assert((a + b).drop_last() =~= a + b.drop_last());
        lemma_joined_concat(a, b.drop_last());
        assert((joined(a) + joined(b.drop_last())) + b.last() =~= joined(a) + (joined(
            b.drop_last(),
        ) + b.last()));
    } else {
        assert(a + b =~= a);
        assert(joined(a) + Seq::<u8>::empty() =~= joined(a));
    }
}

/// Resetting an importer forgets what it received.
pub proof fn reset_importer_is_new(importer: &mut SnapshotImporter)
    requires
        call_ensures(SnapshotImporter::reset, (importer,), ()),
    ensures
        final(importer)@.received.len() == 0,
        final(importer)@.total is None,
{
}

/// The snapshots that are made where nothing else is asked for: compressed at level three,
/// up to a hundred megabytes, in chunks of sixty-four kilobytes.
pub proof fn default_snapshots(c: SnapshotConfig)
    requires
        call_ensures(SnapshotConfig::new, (), c) || call_ensures(SnapshotConfig::default, (), c),
    ensures
        c.compress,
        c.compression_level == 3,
        c.max_size == 104_857_600,
        c.chunk_size == 65_536,
{
}

/// What is added is taken into the next snapshot, in order.
pub proof fn added_changes_are_waiting(
    s: &mut SnapshotSerializer,
    e: &mut SnapshotExporter,
    change: Change,
)
    requires
        call_ensures(SnapshotSerializer::add_change, (s, change), ()),
        call_ensures(SnapshotExporter::add_change, (e, change), ()),
    ensures
        final(s)@ == old(s)@.push(change@),
        final(e)@ == old(e)@.push(change@),
        final(e).configured() == old(e).configured(),
{
}

/// The chunks of an export, put together in order, are the binary form of a snapshot of all
/// changes that were added; the exporter starts anew. So is an export in one piece.
pub proof fn export_holds_all_changes(
    e: &mut SnapshotExporter,
    r: Result<Vec<SnapshotChunk>, SnapshotError>,
    whole: &mut SnapshotExporter,
    buffer: Result<Bytes, SnapshotError>,
)
    requires
        call_ensures(SnapshotExporter::export, (e,), r),
        old(e).configured().chunk_size > 0,
        call_ensures(SnapshotExporter::export_buffer, (whole,), buffer),
    ensures
        r is Ok,
        final(e)@.len() == 0,
        exists|s: SnapshotData, times: Seq<u64>|
            #![trigger is_snapshot_of(s, old(e)@, times)]
            s.version == 1 && s.checksum == checksum_of(s.namespaces) && times.len() == old(e)@.len()
                && s.namespaces == grouped(old(e)@, times) && codec::snapshot_of_bincode(
                joined(Seq::new(r->Ok_0@.len(), |i: int| r->Ok_0@[i]@.data)),
            ) == Some(s),
        buffer is Ok,
        final(whole)@.len() == 0,
        exists|s: SnapshotData, times: Seq<u64>|
            #![trigger is_snapshot_of(s, old(whole)@, times)]
            s.version == 1 && s.checksum == checksum_of(s.namespaces) && times.len()
                == old(whole)@.len() && s.namespaces == grouped(old(whole)@, times)
                && codec::snapshot_of_bincode(byte_buf::bytes_of(buffer->Ok_0)) == Some(s),
{
    let size = old(e).configured().chunk_size as int;
    let (s, times) = choose|s: SnapshotData, times: Seq<u64>|
        #![trigger is_snapshot_of(s, old(e)@, times)]
        is_snapshot_of(s, old(e)@, times) && is_export_of(chunks_view(r->Ok_0@), s, size);
    let data = codec::bincode_of_snapshot(s);
    let total = chunk_count(data.len() as int, size);
    let pieces = Seq::new(r->Ok_0@.len(), |i: int| r->Ok_0@[i]@.data);
    let views = chunks_view(r->Ok_0@);
    assert(views.len() == r->Ok_0@.len());
    lemma_ceil(data.len() as int, size);
    lemma_chunk_at(data.len() as int, size, 0);
    assert(0 * size == 0);
    assert(total > 0);
    assert(pieces =~= pieces_of(data, size)) by {
        assert forall|i: int| 0 <= i < pieces.len() implies pieces[i] == piece(data, size, i) by {
            assert(views[i] == r->Ok_0@[i]@);
        }
    }
    lemma_joined(data, size, total);
    lemma_chunk_at(data.len() as int, size, total);
    assert(pieces.take(total) =~= pieces);
    assert(data.take(data.len() as int) =~= data);
    assert(is_snapshot_of(s, old(e)@, times));
    let (w, at) = choose|s: SnapshotData, times: Seq<u64>|
        #![trigger is_snapshot_of(s, old(whole)@, times)]
        is_snapshot_of(s, old(whole)@, times) && byte_buf::bytes_of(buffer->Ok_0)
            == codec::bincode_of_snapshot(s) && codec::snapshot_of_bincode(
            byte_buf::bytes_of(buffer->Ok_0),
        ) == Some(s);
    assert(is_snapshot_of(w, old(whole)@, at));
}

/// The entries of a snapshot are counted over all databases of all namespaces.
pub proof fn entries_are_counted_everywhere(
    a: Seq<NamespaceModel>,
    b: Seq<NamespaceModel>,
    name: Seq<char>,
    x: Seq<DbModel>,
    y: Seq<DbModel>,
    db: DbModel,
)
    ensures
        entry_count(a + b) == entry_count(a) + entry_count(b),
        entry_count(seq![NamespaceModel { name, databases: x }]) == db_entry_count(x),
        db_entry_count(x + y) == db_entry_count(x) + db_entry_count(y),
        db_entry_count(seq![db]) == db.entries.len(),
    decreases b.len() + y.len(),
{
    let one = seq![NamespaceModel { name, databases: x }];
    assert(one.drop_last() =~= Seq::<NamespaceModel>::empty());
    assert(entry_count(one.drop_last()) == 0);
    let single = seq![db];
    assert(single.drop_last() =~= Seq::<DbModel>::empty());
    assert(db_entry_count(single.drop_last()) == 0);
    if b.len() > 0 {
        assert((a + b).drop_last() =~= a + b.drop_last());
        entries_are_counted_everywhere(a, b.drop_last(), name, x, y, db);
    } else {
        assert(a + b =~= a);
        if y.len() > 0 {
            assert((x + y).drop_last() =~= x + y.drop_last());
            entries_are_counted_everywhere(a, b, name, x, y.drop_last(), db);
        } else {
            assert(x + y =~= x);
        }
    }
}

/// A snapshot that is written can be read, and is the same then.
pub proof fn reading_a_snapshot_gives_it_back(
    s: SnapshotSerializer,
    snapshot: DatabaseSnapshot,
    written: Result<Bytes, SnapshotError>,
    data: &[u8],
    r: Result<DatabaseSnapshot, SnapshotError>,
)
    requires
        call_ensures(SnapshotSerializer::serialize, (&s, &snapshot), written),
        written is Ok,
        data@ == byte_buf::bytes_of(written->Ok_0),
        call_ensures(SnapshotSerializer::deserialize, (&s, data), r),
    ensures
        r is Ok,
        r->Ok_0.version == snapshot.version,
        r->Ok_0.timestamp_secs == snapshot.timestamp_secs,
        r->Ok_0.checksum == snapshot.checksum,
        r->Ok_0@.namespaces == snapshot@.namespaces,
{
}

/// Each setting sets what it names and leaves the others.
pub proof fn snapshot_settings_are_independent(
    c: SnapshotConfig,
    on: bool,
    n: usize,
    compressed: SnapshotConfig,
    limited: SnapshotConfig,
    cut: SnapshotConfig,
)
    requires
        call_ensures(SnapshotConfig::with_compress, (c, on), compressed),
        call_ensures(SnapshotConfig::with_max_size, (c, n), limited),
        call_ensures(SnapshotConfig::with_chunk_size, (c, n), cut),
    ensures
        compressed.compress == on && compressed.max_size == c.max_size && compressed.chunk_size
            == c.chunk_size && compressed.compression_level == c.compression_level,
        limited.max_size == n && limited.compress == c.compress && limited.chunk_size
            == c.chunk_size && limited.compression_level == c.compression_level,
        cut.chunk_size == n && cut.compress == c.compress && cut.max_size == c.max_size
            && cut.compression_level == c.compression_level,
{
}

}
