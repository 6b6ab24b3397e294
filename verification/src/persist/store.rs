//! Stores of changes.

use crate::assoc;
use crate::change;
use crate::change::{Change, ChangeModel};
use crate::codec;
use crate::codec::encode_change;
use crate::common;
use crate::common::{contains_text, same_text};
use crate::error::Result;
use crate::persist::log;
use crate::persist::log::{
    build_index, check_header, push_number, write_header, IndexEntry, IndexScan, ReadOutcome,
    DEFAULT_INDEX_INTERVAL, HEADER_SIZE, MAX_RECORD_SIZE,
};
use vstd::prelude::*;

verus! {

/// Trait for persisting changes to durable storage.
///
/// Implement this trait to add persistence to the change log.
pub trait ChangeStore {
    /// Append a change to the log.
    fn append(&mut self, change: &Change) -> Result<u64>;

    /// Get changes since a given offset.
    fn get_since(&self, offset: u64) -> Result<Vec<Change>>;

    /// Get the current tail offset (next write position).
    fn tail_offset(&self) -> u64;

    /// Flush any buffered writes to disk.
    fn flush(&mut self) -> Result<()>;

    /// Close the store and release resources.
    fn close(&mut self) -> Result<()>;
}

/// An in-memory change store (for testing or when persistence is disabled).
#[derive(Debug)]
pub struct MemoryChangeStore {
    changes: Vec<Change>,
}

impl View for MemoryChangeStore {
    type V = Seq<ChangeModel>;

    closed spec fn view(&self) -> Seq<ChangeModel> {
        change::changes_view(self.changes@)
    }
}

impl MemoryChangeStore {
    /// Create an empty store.
    pub fn new() -> (s: Self)
        ensures
            s@ == Seq::<ChangeModel>::empty(),
    {
        let s = MemoryChangeStore { changes: Vec::new() };
        assert(s@ =~= Seq::<ChangeModel>::empty());
        s
    }
}

impl Default for MemoryChangeStore {
    fn default() -> (s: Self)
        ensures
            s@ == Seq::<ChangeModel>::empty(),
    {
        MemoryChangeStore::new()
    }
}

impl ChangeStore for MemoryChangeStore {
    fn append(&mut self, change: &Change) -> (r: Result<u64>)
        ensures
            r is Ok,
            r->Ok_0 == old(self)@.len(),
            final(self)@ == old(self)@.push(change@),
    {
        let offset: u64 = self.changes.len() as u64;
        self.changes.push(change.clone());
        assert(self@ =~= old(self)@.push(change@));
        Ok(offset)
    }

    fn get_since(&self, offset: u64) -> (r: Result<Vec<Change>>)
        ensures
            r is Ok,
            change::changes_view(r->Ok_0@) == log::from_number(self@, 0, offset as int),
    {
        let mut r: Vec<Change> = Vec::new();
        let len: usize = self.changes.len();
        if offset >= len as u64 {
            assert(change::changes_view(r@) =~= log::from_number(self@, 0, offset as int));
            return Ok(r);
        }
        let start: usize = offset as usize;
        let mut i: usize = start;
        while i < len
            invariant
                start <= i <= len,
                len == self.changes@.len(),
                r.len() == i - start,
                forall|k: int| 0 <= k < i - start ==> (#[trigger] r@[k])@ == self.changes@[k + start]@,
            decreases len - i,
        {
            r.push(self.changes[i].clone());
            i = i + 1;
        }
        assert(change::changes_view(r@) =~= log::from_number(self@, 0, offset as int));
        Ok(r)
    }

    fn tail_offset(&self) -> (r: u64)
        ensures
            r == self@.len(),
    {
        self.changes.len() as u64
    }

    fn flush(&mut self) -> (r: Result<()>)
        ensures
            r is Ok,
            final(self)@ == old(self)@,
    {
        Ok(())
    }

    fn close(&mut self) -> (r: Result<()>)
        ensures
            r is Ok,
            final(self)@ == old(self)@,
    {
        Ok(())
    }
}

/// Records on their way to the log file.
#[derive(Debug)]
pub struct PendingWrite {
    bytes: Vec<u8>,
    first: u64,
    lengths: Vec<u32>,
}

/// What records on their way hold: their bytes, the number of the first, and the
/// length of each change.
#[verifier::ext_equal]
pub struct PendingModel {
    pub bytes: Seq<u8>,
    pub first: u64,
    pub lengths: Seq<u32>,
}

impl View for PendingWrite {
    type V = PendingModel;

    closed spec fn view(&self) -> PendingModel {
        PendingModel { bytes: self.bytes@, first: self.first, lengths: self.lengths@ }
    }
}

impl PendingWrite {
    /// The bytes to append to the log file.
    pub fn to_append(&self) -> (b: &Vec<u8>)
        ensures
            b@ == self@.bytes,
    {
        &self.bytes
    }
}

/// The space that the first records take, with their lengths before them.
pub open spec fn space_of(lengths: Seq<u32>, count: int) -> int
    decreases count,
{
    if count <= 0 {
        0
    } else {
        space_of(lengths, count - 1) + 4 + lengths[count - 1]
    }
}

/// The length of the binary form of each change.
pub open spec fn lengths_of(changes: Seq<ChangeModel>) -> Seq<u32> {
    Seq::new(changes.len(), |i: int| (codec::change_bytes(changes[i]).len() % 0x1_0000_0000) as u32)
}

/// A file-based change store: all of it but the file.
///
/// Changes are stored in append-only log files for durability.
/// The store maintains an index for efficient random access. The caller appends the
/// bytes of a pending write to the file and then commits the write; if appending
/// fails, the write is dropped.
#[derive(Debug)]
pub struct FileChangeStore {
    /// Current write offset
    tail_offset: u64,
    /// Pending changes buffer
    buffer: Vec<Change>,
    /// Buffer flush threshold
    flush_threshold: usize,
    /// Index for efficient lookups
    index: Vec<IndexEntry>,
    /// Whether the file is open
    open: bool,
}

/// What a file-based store holds.
#[verifier::ext_equal]
pub struct StoreModel {
    pub tail: u64,
    pub buffer: Seq<ChangeModel>,
    pub threshold: nat,
    pub index: Seq<IndexEntry>,
    pub open: bool,
}

impl View for FileChangeStore {
    type V = StoreModel;

    closed spec fn view(&self) -> StoreModel {
        StoreModel {
            tail: self.tail_offset,
            buffer: change::changes_view(self.buffer@),
            threshold: self.flush_threshold as nat,
            index: self.index@,
            open: self.open,
        }
    }
}

impl StoreModel {
    /// Whether the buffered changes are counted in the tail, and the index is in order
    /// and points at changes before them.
    pub open spec fn wf(self) -> bool {
        &&& self.buffer.len() <= self.tail
        &&& log::index_below(self.index, self.tail - self.buffer.len())
    }

    /// The write that a flush starts, if there is anything to write and a file to
    /// write to.
    pub open spec fn pending(self) -> Option<PendingModel> {
        if self.open && self.buffer.len() > 0 {
            Some(
                PendingModel {
                    bytes: log::records_bytes(self.buffer),
                    first: (self.tail - self.buffer.len()) as u64,
                    lengths: lengths_of(self.buffer),
                },
            )
        } else {
            None
        }
    }

    /// The store after a flush was started: what is written leaves the buffer. Without
    /// a file the changes stay in the buffer.
    pub open spec fn flushing(self) -> StoreModel {
        if self.open {
            StoreModel { buffer: Seq::empty(), ..self }
        } else {
            self
        }
    }

    /// The store after a change was put into its buffer.
    pub open spec fn buffered(self, change: ChangeModel) -> StoreModel {
        StoreModel {
            tail: (self.tail + 1) as u64,
            buffer: self.buffer.push(change),
            ..self
        }
    }

    /// Whether enough changes are buffered for a flush.
    pub open spec fn is_full(self) -> bool {
        self.buffer.len() >= self.threshold
    }

    /// Whether a write can be committed: it is behind everything in the index and
    /// counted in the tail.
    pub open spec fn accepts(self, write: PendingModel) -> bool {
        &&& log::index_below(self.index, write.first as int)
        &&& write.first + write.lengths.len() <= self.tail - self.buffer.len()
        &&& space_of(write.lengths, write.lengths.len() as int) <= write.bytes.len()
    }

    /// The store after a write at a position of the file was committed. A write of at
    /// least as many changes as the index interval adds index entries, one for the
    /// first change and one after every interval.
    pub open spec fn committed(self, write: PendingModel, position: u64) -> StoreModel {
        if write.lengths.len() >= DEFAULT_INDEX_INTERVAL {
            StoreModel { index: self.index + added_entries(write, position), ..self }
        } else {
            self
        }
    }

    /// The store after its log was compacted to so many records.
    pub open spec fn compacted(self, kept: u64) -> StoreModel {
        StoreModel {
            tail: (kept + self.buffer.len()) as u64,
            index: Seq::empty(),
            ..self
        }
    }

    /// Where to start reading for an offset: a position in the file, and the number of
    /// the record there.
    pub open spec fn start(self, offset: u64) -> (u64, u64) {
        if offset == 0 {
            (HEADER_SIZE as u64, 0)
        } else {
            start_of(self.index, offset)
        }
    }

    /// Whether the log file holds these changes and the store goes with it: the
    /// changes come before the buffered ones, and index entries point at their
    /// records.
    pub open spec fn describes(self, stored: Seq<ChangeModel>) -> bool {
        &&& self.tail == stored.len() + self.buffer.len()
        &&& log::index_below(self.index, stored.len() as int)
        &&& forall|i: int|
            0 <= i < self.index.len() ==> (#[trigger] self.index[i]).position == position_of(
                stored,
                self.index[i].offset as int,
            )
    }
}

/// The position of the record with a number in the log of changes.
pub open spec fn position_of(stored: Seq<ChangeModel>, number: int) -> int {
    HEADER_SIZE + log::records_bytes(stored.take(number)).len()
}

/// The last index entry at or before an offset, as a position and a number; the start
/// of the records, if there is none.
pub open spec fn start_of(index: Seq<IndexEntry>, offset: u64) -> (u64, u64)
    decreases index.len(),
{
    if index.len() == 0 {
        (HEADER_SIZE as u64, 0)
    } else if index.last().offset <= offset {
        (index.last().position, index.last().offset)
    } else {
        start_of(index.drop_last(), offset)
    }
}

/// The index entries for a write at a position of the file.
pub open spec fn added_entries(write: PendingModel, position: u64) -> Seq<IndexEntry> {
    let interval = DEFAULT_INDEX_INTERVAL as int;
    Seq::new(
        ((write.lengths.len() + interval - 1) / interval) as nat,
        |k: int|
            IndexEntry {
                offset: (write.first + k * interval) as u64,
                position: (position + space_of(write.lengths, k * interval)) as u64,
                length: write.lengths[k * interval],
            },
    )
}

/// The records of a list and one more change.
proof fn lemma_records_push(changes: Seq<ChangeModel>, c: ChangeModel)
    ensures
        log::records_bytes(changes.push(c)) == log::records_bytes(changes) + log::record_bytes(c),
    decreases changes.len(),
{
    let all = changes.push(c);
    if changes.len() == 0 {
        assert(all.drop_first() =~= Seq::<ChangeModel>::empty());
        assert(log::records_bytes(all.drop_first()) =~= Seq::<u8>::empty());
        assert(log::records_bytes(all) =~= log::record_bytes(c));
        assert(log::records_bytes(changes) + log::record_bytes(c) =~= log::record_bytes(c));
    } else {
        assert(all.drop_first() =~= changes.drop_first().push(c));
        lemma_records_push(changes.drop_first(), c);
        assert(log::records_bytes(all) =~= log::records_bytes(changes) + log::record_bytes(c));
    }
}

/// The records of two lists after another.
pub proof fn lemma_records_concat(a: Seq<ChangeModel>, b: Seq<ChangeModel>)
    ensures
        log::records_bytes(a + b) == log::records_bytes(a) + log::records_bytes(b),
    decreases a.len(),
{
    if a.len() == 0 {
        assert(a + b =~= b);
        assert(log::records_bytes(a) + log::records_bytes(b) =~= log::records_bytes(b));
    } else {
        assert((a + b).drop_first() =~= a.drop_first() + b);
        lemma_records_concat(a.drop_first(), b);
        assert(log::records_bytes(a + b) =~= log::records_bytes(a) + log::records_bytes(b));
    }
}

/// The space of records is the number of their bytes, for changes whose length fits.
proof fn lemma_space(changes: Seq<ChangeModel>, count: int)
    requires
        0 <= count <= changes.len(),
    ensures
        space_of(lengths_of(changes), count) <= log::records_bytes(changes.take(count)).len(),
        (forall|i: int|
            0 <= i < changes.len() ==> codec::change_bytes(#[trigger] changes[i]).len() < 0x1_0000_0000)
            ==> space_of(lengths_of(changes), count) == log::records_bytes(changes.take(count)).len(),
    decreases count,
{
    if count > 0 {
        lemma_space(changes, count - 1);
        assert(changes.take(count) =~= changes.take(count - 1).push(changes[count - 1]));
        lemma_records_push(changes.take(count - 1), changes[count - 1]);
    } else {
        assert(changes.take(0) =~= Seq::<ChangeModel>::empty());
    }
}

/// An entry at or before an offset, with the next one behind it, is where reading for
/// the offset starts.
proof fn lemma_start(index: Seq<IndexEntry>, offset: u64, i: int)
    requires
        0 <= i < index.len(),
        index[i].offset <= offset,
        forall|j: int| i < j < index.len() ==> (#[trigger] index[j]).offset > offset,
    ensures
        start_of(index, offset) == (index[i].position, index[i].offset),
    decreases index.len(),
{
    if i < index.len() - 1 {
        assert(index[index.len() - 1].offset > offset);
        lemma_start(index.drop_last(), offset, i);
    }
}

/// Where no entry is at or before an offset, reading starts at the first record.
proof fn lemma_start_none(index: Seq<IndexEntry>, offset: u64)
    requires
        forall|j: int| 0 <= j < index.len() ==> (#[trigger] index[j]).offset > offset,
    ensures
        start_of(index, offset) == (HEADER_SIZE as u64, 0u64),
    decreases index.len(),
{
    if index.len() > 0 {
        assert(index[index.len() - 1].offset > offset);
        lemma_start_none(index.drop_last(), offset);
    }
}

impl FileChangeStore {
    /// A store for a log file that was scanned, or for a new one that was not.
    pub fn new(scan: IndexScan, flush_threshold: usize) -> (s: Self)
        requires
            scan@.wf(),
        ensures
            s@ == (StoreModel {
                tail: scan@.offset,
                buffer: Seq::empty(),
                threshold: flush_threshold as nat,
                index: scan@.index,
                open: true,
            }),
            s@.wf(),
    {
        let (index, tail_offset) = scan.finish();
        let s = FileChangeStore {
            tail_offset,
            buffer: Vec::new(),
            flush_threshold,
            index,
            open: true,
        };
        assert(s@.buffer =~= Seq::<ChangeModel>::empty());
        s
    }

    /// Open a store on the contents of a log file.
    ///
    /// Returns the store and what is to be written to the file first: the header, if
    /// the file is too short to have one. Fails if the header is not that of a log, or
    /// of one with a newer format.
    pub fn open(data: &[u8], flush_threshold: usize) -> (r: Result<(Self, Vec<u8>)>)
        requires
            data@.len() <= u64::MAX - MAX_RECORD_SIZE - 4,
        ensures
            data@.len() < HEADER_SIZE ==> r is Ok && r->Ok_0.1@ == log::log_header() && r->Ok_0.0@ == (
            StoreModel {
                tail: 0,
                buffer: Seq::empty(),
                threshold: flush_threshold as nat,
                index: Seq::empty(),
                open: true,
            }),
            data@.len() >= HEADER_SIZE ==> match r {
                Ok((s, out)) => {
                    let records = data@.skip(HEADER_SIZE as int);
                    &&& log::header_error(data@) is None
                    &&& out@.len() == 0
                    &&& s@ == (StoreModel {
                        tail: log::record_count(records) as u64,
                        buffer: Seq::empty(),
                        threshold: flush_threshold as nat,
                        index: log::index_of(
                            records,
                            HEADER_SIZE as int,
                            0,
                            DEFAULT_INDEX_INTERVAL as int,
                        ),
                        open: true,
                    })
                },
                Err(e) => log::header_error(data@) == Some(e@),
            },
            r is Ok ==> r->Ok_0.0@.wf(),
    {
        if data.len() < HEADER_SIZE {
            return Ok(
                (
                    FileChangeStore::new(IndexScan::new(DEFAULT_INDEX_INTERVAL), flush_threshold),
                    write_header(),
                ),
            );
        }
        match check_header(data) {
            Ok(_) => {
                let scan = build_index(data, DEFAULT_INDEX_INTERVAL);
                Ok((FileChangeStore::new(scan, flush_threshold), Vec::new()))
            },
            Err(e) => Err(e),
        }
    }

    /// Get the current tail offset (next write position).
    pub fn tail_offset(&self) -> (r: u64)
        ensures
            r == self@.tail,
    {
        self.tail_offset
    }

    /// Flush any buffered writes.
    ///
    /// Returns the records to append to the file, if there are any. Without a file
    /// nothing is to be written, and the changes stay in the buffer.
    pub fn flush(&mut self) -> (r: Result<Option<PendingWrite>>)
        requires
            old(self)@.wf(),
        ensures
            r is Ok,
            match r->Ok_0 {
                Some(write) => {
                    &&& old(self)@.pending() == Some(write@)
                    &&& final(self)@.accepts(write@)
                },
                None => old(self)@.pending() is None,
            },
            final(self)@ == old(self)@.flushing(),
            final(self)@.wf(),
            old(self)@.open ==> forall|i: int|
                0 <= i < old(self)@.buffer.len() && assoc::distinct_keys(
                    (#[trigger] old(self)@.buffer[i]).metadata,
                ) ==> codec::bytes_change(codec::change_bytes(old(self)@.buffer[i])) == Some(
                    old(self)@.buffer[i],
                ) && codec::change_bytes(old(self)@.buffer[i]).len() > 0,
    {
        if !self.open || self.buffer.is_empty() {
            assert(self@.buffer =~= self@.flushing().buffer);
            return Ok(None);
        }
        let ghost changes = self@.buffer;
        let first: u64 = self.tail_offset - self.buffer.len() as u64;
        let mut bytes: Vec<u8> = Vec::new();
        let mut lengths: Vec<u32> = Vec::new();
        let mut i: usize = 0;
        assert(changes.take(0) =~= Seq::<ChangeModel>::empty());
        while i < self.buffer.len()
            invariant
                i <= self.buffer.len(),
                *self == *old(self),
                changes == old(self)@.buffer,
                changes == change::changes_view(self.buffer@),
                bytes@ == log::records_bytes(changes.take(i as int)),
                lengths@ == lengths_of(changes).take(i as int),
                forall|k: int|
                    0 <= k < i && assoc::distinct_keys((#[trigger] changes[k]).metadata) ==> codec::bytes_change(
                        codec::change_bytes(changes[k]),
                    ) == Some(changes[k]) && codec::change_bytes(changes[k]).len() > 0,
            decreases self.buffer.len() - i,
        {
            let ghost before = bytes@;
            match encode_change(&self.buffer[i]) {
                Ok(record) => {
                    let len: u32 = (record.len() as u64 % 0x1_0000_0000) as u32;
                    push_number(&mut bytes, len);
                    bytes.extend_from_slice(record.as_slice());
                    lengths.push(len);
                    proof {
                        let c = changes[i as int];
                        assert(bytes@ =~= before + log::record_bytes(c));
                        assert(changes.take(i + 1) =~= changes.take(i as int).push(c));
                        lemma_records_push(changes.take(i as int), c);
                        assert(lengths@ =~= lengths_of(changes).take(i + 1));
                    }
                },
                Err(e) => {
                    return Err(e);
                },
            }
            i = i + 1;
        }
        self.buffer = Vec::new();
        let write = PendingWrite { bytes, first, lengths };
        proof {
            assert(changes.take(i as int) =~= changes);
            assert(lengths_of(changes).take(i as int) =~= lengths_of(changes));
            assert(self@.buffer =~= Seq::<ChangeModel>::empty());
            lemma_space(changes, changes.len() as int);
            assert(old(self)@.pending() == Some(write@));
        }
        Ok(Some(write))
    }

    /// Append a change to the log.
    ///
    /// The change is buffered. Returns its offset and, once the flush threshold is
    /// reached, the records to append to the file.
    pub fn append(&mut self, change: &Change) -> (r: Result<(u64, Option<PendingWrite>)>)
        requires
            old(self)@.wf(),
            old(self)@.tail < u64::MAX,
        ensures
            r is Ok,
            r->Ok_0.0 == old(self)@.tail,
            ({
                let s = old(self)@.buffered(change@);
                if s.is_full() {
                    &&& final(self)@ == s.flushing()
                    &&& match r->Ok_0.1 {
                        Some(write) => s.pending() == Some(write@) && final(self)@.accepts(write@),
                        None => s.pending() is None,
                    }
                } else {
                    final(self)@ == s && r->Ok_0.1 is None
                }
            }),
            final(self)@.wf(),
    {
        let offset = self.tail_offset;
        self.tail_offset = offset + 1;
        self.buffer.push(change.clone());
        assert(self@ =~= old(self)@.buffered(change@));
        if self.buffer.len() >= self.flush_threshold {
            match self.flush() {
                Ok(write) => Ok((offset, write)),
                Err(e) => Err(e),
            }
        } else {
            Ok((offset, None))
        }
    }

    /// Take in that a pending write was appended to the file, at the given position.
    pub fn commit(&mut self, write: PendingWrite, position: u64)
        requires
            old(self)@.wf(),
            old(self)@.accepts(write@),
            position + write@.bytes.len() <= u64::MAX,
        ensures
            final(self)@ == old(self)@.committed(write@, position),
            final(self)@.wf(),
    {
        let count: usize = write.lengths.len();
        if count < DEFAULT_INDEX_INTERVAL {
            return;
        }
        let ghost added = added_entries(write@, position);
        let ghost before = self@;
        let mut i: usize = 0;
        let mut at: u64 = position;
        let ghost mut k: int = 0;
        assert(self.index@ =~= before.index + added.take(0));
        while i < count
            invariant
                i <= count,
                count == write.lengths@.len(),
                added == added_entries(write@, position),
                before == old(self)@,
                self@ == (StoreModel { index: before.index + added.take(k), ..before }),
                0 <= k <= added.len(),
                k == (i + DEFAULT_INDEX_INTERVAL - 1) / DEFAULT_INDEX_INTERVAL as int,
                at == position + space_of(write@.lengths, i as int),
                position + space_of(write@.lengths, count as int) <= u64::MAX,
                before.accepts(write@),
            decreases count - i,
        {
            let length: u32 = write.lengths[i];
            proof {
                lemma_space_grows(write@.lengths, i + 1, count as int);
            }
            if i % DEFAULT_INDEX_INTERVAL == 0 {
                self.index.push(
                    IndexEntry { offset: write.first + i as u64, position: at, length },
                );
                proof {
                    assert(k * DEFAULT_INDEX_INTERVAL == i);
                    assert(added.take(k + 1) =~= added.take(k).push(added[k]));
                    assert(self.index@ =~= before.index + added.take(k + 1));
                    k = k + 1;
                }
            }
            at = at + 4 + length as u64;
            i = i + 1;
        }
        proof {
            assert(added.take(k) =~= added);
            lemma_committed_index(before.index, write@, position);
        }
    }
}

impl FileChangeStore {
    /// Find where to start reading for an offset: the position in the file of the
    /// closest indexed record at or before it, and the number of that record.
    pub fn start(&self, offset: u64) -> (r: (u64, u64))
        requires
            self@.wf(),
        ensures
            r == self@.start(offset),
    {
        if offset == 0 {
            return (HEADER_SIZE as u64, 0);
        }
        // Entries before `low` are at or before the offset, those from `high` on are not.
        let mut low: usize = 0;
        let mut high: usize = self.index.len();
        while low < high
            invariant
                low <= high <= self.index@.len(),
                self@.wf(),
                forall|i: int| 0 <= i < low ==> (#[trigger] self.index@[i]).offset <= offset,
                forall|i: int|
                    high <= i < self.index@.len() ==> (#[trigger] self.index@[i]).offset > offset,
            decreases high - low,
        {
            let mid: usize = low + (high - low) / 2;
            assert forall|i: int| mid < i < self.index@.len() implies self@.index[mid as int].offset
                < (#[trigger] self.index@[i]).offset by {
                assert(self@.index[i] == self.index@[i]);
            }
            assert forall|i: int| 0 <= i < mid implies (#[trigger] self.index@[i]).offset
                < self@.index[mid as int].offset by {
                assert(self@.index[i] == self.index@[i]);
            }
            if self.index[mid].offset <= offset {
                low = mid + 1;
            } else {
                high = mid;
            }
        }
        if low == 0 {
            proof {
                lemma_start_none(self.index@, offset);
            }
            (HEADER_SIZE as u64, 0)
        } else {
            proof {
                lemma_start(self.index@, offset, low - 1);
            }
            (self.index[low - 1].position, self.index[low - 1].offset)
        }
    }

    /// The number of changes in the buffer.
    pub fn buffered(&self) -> (n: usize)
        ensures
            n == self@.buffer.len(),
    {
        self.buffer.len()
    }

    /// Take in that the log was compacted to so many records.
    pub fn compacted(&mut self, kept: u64)
        requires
            kept + old(self)@.buffer.len() <= u64::MAX,
        ensures
            final(self)@ == old(self)@.compacted(kept),
            final(self)@.wf(),
    {
        self.index = Vec::new();
        self.tail_offset = kept + self.buffer.len() as u64;
        assert(self@ =~= old(self)@.compacted(kept));
    }

    /// Let go of the file. What is still buffered stays in the buffer.
    pub fn release_file(&mut self)
        ensures
            final(self)@ == (StoreModel { open: false, ..old(self)@ }),
            old(self)@.wf() ==> final(self)@.wf(),
    {
        self.open = false;
    }

    /// Close the store: flush the remaining changes, then let go of the file.
    ///
    /// Returns the records to append to the file first, if there are any. The file is then
    /// still needed: once they are appended and committed, the caller releases it.
    pub fn close(&mut self) -> (r: Result<Option<PendingWrite>>)
        requires
            old(self)@.wf(),
        ensures
            r is Ok,
            match r->Ok_0 {
                Some(write) => {
                    &&& old(self)@.pending() == Some(write@)
                    &&& final(self)@ == old(self)@.flushing()
                    &&& final(self)@.accepts(write@)
                },
                None => {
                    &&& old(self)@.pending() is None
                    &&& final(self)@ == (StoreModel { open: false, ..old(self)@ })
                },
            },
            final(self)@.wf(),
    {
        match self.flush() {
            Ok(Some(write)) => Ok(Some(write)),
            Ok(None) => {
                assert(self@ =~= old(self)@);
                self.release_file();
                Ok(None)
            },
            Err(e) => Err(e),
        }
    }
}

/// Opening the log of changes finds nothing wrong with its header and makes a store
/// that goes with these changes.
///
/// This holds for changes whose records the index takes in.
pub proof fn opening_finds_the_changes(changes: Seq<ChangeModel>, threshold: nat)
    requires
        indexable(changes),
        log::log_of(changes).len() <= u64::MAX,
    ensures
        ({
            let records = log::log_of(changes).skip(HEADER_SIZE as int);
            let s = StoreModel {
                tail: log::record_count(records) as u64,
                buffer: Seq::empty(),
                threshold,
                index: log::index_of(records, HEADER_SIZE as int, 0, DEFAULT_INDEX_INTERVAL as int),
                open: true,
            };
            &&& log::header_error(log::log_of(changes)) is None
            &&& s.describes(changes)
        }),
{
    let records = log::records_bytes(changes);
    lemma_header();
    assert(log::log_of(changes).skip(HEADER_SIZE as int) =~= records);
    let data = log::log_of(changes);
    assert(data.take(4) =~= log::log_header().take(4));
    assert(data.subrange(4, 8) =~= log::log_header().subrange(4, 8));
    assert(changes.take(0) =~= Seq::<ChangeModel>::empty());
    assert(changes.skip(0) =~= changes);
    assert(position_of(changes, 0) == HEADER_SIZE);
    lemma_index(changes, 0);
    lemma_count_fits(changes);
}

/// Whether the index takes in the records of changes.
pub open spec fn indexable(changes: Seq<ChangeModel>) -> bool {
    forall|i: int|
        0 <= i < changes.len() ==> 0 < codec::change_bytes(#[trigger] changes[i]).len() <= MAX_RECORD_SIZE
}

/// The header of a log is as long as a header is, and has nothing wrong.
proof fn lemma_header()
    ensures
        log::log_header().len() == HEADER_SIZE,
        log::log_header().take(4) == log::LOG_MAGIC@,
        log::le_u32(log::log_header().subrange(4, 8))
            == log::LOG_VERSION,
{
    assert(log::log_header().take(4) =~= log::LOG_MAGIC@);
    assert(log::log_header().subrange(4, 8) =~= log::le_u32_bytes(log::LOG_VERSION));
}

/// The index of the records from a number on counts them all, is in order, and points
/// at their positions.
proof fn lemma_index(changes: Seq<ChangeModel>, number: int)
    requires
        indexable(changes),
        0 <= number <= changes.len(),
        log::log_of(changes).len() <= u64::MAX,
    ensures
        ({
            let data = log::records_bytes(changes.skip(number));
            let index = log::index_of(
                data,
                position_of(changes, number),
                number,
                DEFAULT_INDEX_INTERVAL as int,
            );
            &&& log::record_count(data) == changes.len() - number
            &&& log::index_below(index, changes.len() as int)
            &&& forall|i: int|
                0 <= i < index.len() ==> number <= (#[trigger] index[i]).offset
                    && index[i].position == position_of(changes, index[i].offset as int)
        }),
    decreases changes.len() - number,
{
    let rest = changes.skip(number);
    let data = log::records_bytes(rest);
    lemma_records_concat(changes.take(number), rest);
    assert(changes.take(number) + rest =~= changes);
    lemma_header();
    if number < changes.len() {
        let c = changes[number];
        assert(rest[0] == c);
        assert(rest.drop_first() =~= changes.skip(number + 1));
        assert(0 < codec::change_bytes(c).len() <= MAX_RECORD_SIZE);
        log::lemma_record_front(c, log::records_bytes(rest.drop_first()));
        lemma_index(changes, number + 1);
        lemma_records_push(changes.take(number), c);
        assert(changes.take(number).push(c) =~= changes.take(number + 1));
        lemma_count_fits(changes);
        let p = position_of(changes, number);
        let n = log::prefix_of(data);
        assert(position_of(changes, number + 1) == p + 4 + n);
        let tail = log::index_of(
            log::after_record(data),
            p + 4 + n,
            number + 1,
            DEFAULT_INDEX_INTERVAL as int,
        );
        let index = log::index_of(data, p, number, DEFAULT_INDEX_INTERVAL as int);
        assert(index.len() > tail.len() ==> index =~= seq![index[0]] + tail);
        assert forall|i: int| 0 <= i < index.len() implies number <= (#[trigger] index[i]).offset
            < changes.len() && index[i].position == position_of(
            changes,
            index[i].offset as int,
        ) by {
            if index.len() > tail.len() {
                if i > 0 {
                    assert(index[i] == tail[i - 1]);
                }
            } else {
                assert(index[i] == tail[i]);
            }
        }
        assert forall|i: int, j: int| 0 <= i < j < index.len() implies (#[trigger] index[i]).offset < (
        #[trigger] index[j]).offset by {
            if index.len() > tail.len() {
                assert(index[j] == tail[j - 1]);
                if i > 0 {
                    assert(index[i] == tail[i - 1]);
                }
            } else {
                assert(index[i] == tail[i]);
                assert(index[j] == tail[j]);
            }
        }
    }
}

/// There are no more changes than bytes in their records.
proof fn lemma_count_fits(changes: Seq<ChangeModel>)
    ensures
        changes.len() <= log::records_bytes(changes).len(),
    decreases changes.len(),
{
    if changes.len() > 0 {
        lemma_count_fits(changes.drop_first());
    }
}

/// A flush that is appended to the log and committed moves the buffered changes into
/// the log: the log of the stored changes becomes the log of these and the buffered
/// ones, and the store goes with it.
pub proof fn flush_stores_the_buffer(s: StoreModel, stored: Seq<ChangeModel>)
    requires
        s.describes(stored),
        s.open,
        s.buffer.len() > 0,
        forall|i: int|
            0 <= i < s.buffer.len() ==> codec::change_bytes(#[trigger] s.buffer[i]).len() < 0x1_0000_0000,
        log::log_of(stored + s.buffer).len() <= u64::MAX,
    ensures
        ({
            let write = s.pending()->0;
            let after = s.flushing().committed(write, log::log_of(stored).len() as u64);
            &&& log::log_of(stored) + write.bytes == log::log_of(stored + s.buffer)
            &&& after.describes(stored + s.buffer)
            &&& after.buffer.len() == 0
        }),
{
    let write = s.pending()->0;
    let all = stored + s.buffer;
    let position = log::log_of(stored).len() as u64;
    lemma_header();
    lemma_records_concat(stored, s.buffer);
    assert(log::log_of(stored) + write.bytes =~= log::log_of(all));
    let after = s.flushing().committed(write, position);
    assert(s.flushing().buffer.len() == 0);
    assert forall|k: int| 0 <= k < stored.len() implies #[trigger] position_of(all, k) == position_of(
        stored,
        k,
    ) by {
        assert(all.take(k) =~= stored.take(k));
    }
    lemma_space(s.buffer, s.buffer.len() as int);
    assert(s.buffer.take(s.buffer.len() as int) =~= s.buffer);
    assert(log::log_of(stored).len() + write.bytes.len() == log::log_of(all).len());
    if write.lengths.len() >= DEFAULT_INDEX_INTERVAL {
        lemma_committed_index(s.index, write, position);
        let added = added_entries(write, position);
        let interval = DEFAULT_INDEX_INTERVAL as int;
        assert forall|i: int| 0 <= i < after.index.len() implies (#[trigger] after.index[i]).position
            == position_of(all, after.index[i].offset as int) by {
            if i < s.index.len() {
                assert(after.index[i] == s.index[i]);
            } else {
                let k = i - s.index.len();
                assert(after.index[i] == added[k]);
                assert(0 <= k * interval < write.lengths.len());
                lemma_space(s.buffer, k * interval);
                lemma_space_grows(write.lengths, 0, k * interval);
                lemma_space_grows(write.lengths, k * interval, write.lengths.len() as int);
                assert(all.take(stored.len() + k * interval) =~= stored + s.buffer.take(
                    k * interval,
                ));
                lemma_records_concat(stored, s.buffer.take(k * interval));
                assert(added[k].offset == stored.len() + k * interval);
                assert(added[k].position == position + space_of(write.lengths, k * interval));
            }
        }
    } else {
        assert forall|i: int| 0 <= i < after.index.len() implies (#[trigger] after.index[i]).position
            == position_of(all, after.index[i].offset as int) by {
            assert(after.index[i] == s.index[i]);
        }
    }
}

/// Closing a store, with what it still has to write appended to the log, committed and the
/// file released, leaves no change behind: the log becomes that of the stored changes and
/// the buffered ones.
pub proof fn closing_stores_the_buffer(s: StoreModel, stored: Seq<ChangeModel>)
    requires
        s.describes(stored),
        s.open,
        forall|i: int|
            0 <= i < s.buffer.len() ==> codec::change_bytes(#[trigger] s.buffer[i]).len() < 0x1_0000_0000,
        log::log_of(stored + s.buffer).len() <= u64::MAX,
    ensures
        match s.pending() {
            Some(write) => {
                let after = StoreModel {
                    open: false,
                    ..s.flushing().committed(write, log::log_of(stored).len() as u64)
                };
                &&& log::log_of(stored) + write.bytes == log::log_of(stored + s.buffer)
                &&& after.describes(stored + s.buffer)
                &&& after.buffer.len() == 0
            },
            None => {
                let after = StoreModel { open: false, ..s };
                &&& after.describes(stored + s.buffer)
                &&& after.buffer.len() == 0
            },
        },
{
    if s.buffer.len() > 0 {
        flush_stores_the_buffer(s, stored);
    } else {
        assert(stored + s.buffer =~= stored);
    }
}

/// Reading the log from where the store says to start gives the stored changes from
/// the offset on.
pub proof fn reading_gives_the_stored_changes(
    s: StoreModel,
    stored: Seq<ChangeModel>,
    offset: u64,
)
    requires
        s.describes(stored),
        log::all_storable(stored),
    ensures
        ({
            let (position, number) = s.start(offset);
            &&& position <= log::log_of(stored).len()
            &&& log::read_outcome(log::log_of(stored).skip(position as int), number as int, offset as int)
                == ReadOutcome::Changes(log::from_number(stored, 0, offset as int))
        }),
{
    let (position, number) = s.start(offset);
    lemma_header();
    lemma_start_is_indexed(s.index, offset);
    assert(stored.take(0) =~= Seq::<ChangeModel>::empty());
    assert(position == position_of(stored, number as int) && number <= stored.len() && number
        <= offset) by {
        if position != HEADER_SIZE || number != 0 {
            let i = choose|i: int|
                0 <= i < s.index.len() && (#[trigger] s.index[i]).offset <= offset && (
                    position,
                    number,
                ) == (s.index[i].position, s.index[i].offset);
            assert(s.index[i].position == position_of(stored, s.index[i].offset as int));
        }
    }
    let rest = stored.skip(number as int);
    lemma_records_concat(stored.take(number as int), rest);
    assert(stored.take(number as int) + rest =~= stored);
    assert(log::log_of(stored).skip(position as int) =~= log::records_bytes(rest));
    assert(log::all_storable(rest)) by {
        assert forall|i: int| 0 <= i < rest.len() implies log::storable(
            #[trigger] rest[i],
        ) by {
            assert(log::storable(stored[i + number]));
        }
    }
    log::reading_gives_what_was_written(rest, number as int, offset as int);
    assert(log::from_number(rest, number as int, offset as int) =~= log::from_number(
        stored,
        0,
        offset as int,
    ));
}

/// Where reading starts is the first record or an indexed one at or before the
/// offset.
proof fn lemma_start_is_indexed(index: Seq<IndexEntry>, offset: u64)
    ensures
        start_of(index, offset) == (HEADER_SIZE as u64, 0u64) || exists|i: int|
            0 <= i < index.len() && (#[trigger] index[i]).offset <= offset && start_of(
                index,
                offset,
            ) == (index[i].position, index[i].offset),
    decreases index.len(),
{
    if index.len() > 0 {
        if index.last().offset <= offset {
            assert(index[index.len() - 1].offset <= offset);
        } else {
            let init = index.drop_last();
            lemma_start_is_indexed(init, offset);
            if start_of(init, offset) != (HEADER_SIZE as u64, 0u64) {
                let i = choose|i: int|
                    0 <= i < init.len() && (#[trigger] init[i]).offset <= offset && start_of(
                        init,
                        offset,
                    ) == (init[i].position, init[i].offset);
                assert(index[i] == init[i]);
            }
        }
    }
}

/// The space of more records is no smaller.
proof fn lemma_space_grows(lengths: Seq<u32>, a: int, b: int)
    requires
        0 <= a <= b,
    ensures
        space_of(lengths, a) <= space_of(lengths, b),
    decreases b,
{
    if a < b {
        lemma_space_grows(lengths, a, b - 1);
    }
}

/// An index stays in order when a write behind it is committed.
proof fn lemma_committed_index(index: Seq<IndexEntry>, write: PendingModel, position: u64)
    requires
        log::index_below(index, write.first as int),
        write.first + write.lengths.len() <= u64::MAX,
    ensures
        log::index_below(index + added_entries(write, position), write.first + write.lengths.len()),
{
    let added = added_entries(write, position);
    let all = index + added;
    let interval = DEFAULT_INDEX_INTERVAL as int;
    assert forall|i: int| 0 <= i < added.len() implies (#[trigger] added[i]).offset == write.first + i
        * interval && i * interval < write.lengths.len() by {
    }
    assert forall|i: int| 0 <= i < all.len() implies (#[trigger] all[i]).offset < write.first
        + write.lengths.len() by {
        if i >= index.len() {
            assert(all[i] == added[i - index.len()]);
        }
    }
    assert forall|i: int, j: int| 0 <= i < j < all.len() implies (#[trigger] all[i]).offset < (
    #[trigger] all[j]).offset by {
        if j >= index.len() {
            assert(all[j] == added[j - index.len()]);
            if i >= index.len() {
                assert(all[i] == added[i - index.len()]);
            }
        }
    }
}

/// Compacting the log that a store goes with leaves the log of the stored changes from
/// an offset on, and a store that goes with it. The buffered changes stay.
pub proof fn compaction_drops_the_oldest(s: StoreModel, stored: Seq<ChangeModel>, keep_from: u64)
    requires
        s.describes(stored),
        forall|i: int|
            0 <= i < stored.len() ==> codec::change_bytes(#[trigger] stored[i]).len() < 0x1_0000_0000,
    ensures
        ({
            let records = log::log_of(stored).skip(HEADER_SIZE as int);
            let rest = log::from_number(stored, 0, keep_from as int);
            &&& log::log_header() + log::kept_records(records, 0, keep_from as int) == log::log_of(rest)
            &&& log::kept_count(records, 0, keep_from as int) == rest.len()
            &&& s.compacted(rest.len() as u64).describes(rest)
            &&& s.compacted(rest.len() as u64).buffer == s.buffer
        }),
{
    lemma_header();
    assert(log::log_of(stored).skip(HEADER_SIZE as int) =~= log::records_bytes(stored));
    log::compaction_keeps_the_rest(stored, 0, keep_from as int);
}

/// Temp file type for recovery logic.
#[derive(Debug, Clone, Copy, PartialEq, Eq, Structural)]
pub enum TempFileType {
    /// Left by a write that failed
    Flush,
    /// Left by a compaction that was interrupted
    Compacting,
}

/// What a file is that has the given name before and after the last dot, if it is one
/// to be removed on recovery.
pub open spec fn leftover(stem: Seq<char>, extension: Seq<char>) -> Option<TempFileType> {
    if extension == "tmp"@ {
        if common::contains_seq(stem, "compacting"@) {
            Some(TempFileType::Compacting)
        } else {
            Some(TempFileType::Flush)
        }
    } else {
        None
    }
}

/// Tell what a file is that was left behind by a crash, from its name.
///
/// Returns `None` for a file that is not a temp file.
pub fn classify_temp_file(stem: &str, extension: &str) -> (r: Option<TempFileType>)
    ensures
        r == leftover(stem@, extension@),
{
    if same_text(extension, "tmp") {
        if contains_text(stem, "compacting") {
            Some(TempFileType::Compacting)
        } else {
            Some(TempFileType::Flush)
        }
    } else {
        None
    }
}

/// Appending gives a change the next offset and buffers it behind the others. Once as many
/// are buffered as the threshold says, and there is a file, all of them are handed out to
/// be written, in order; before, and without a file, none is, and all stay in the buffer.
pub proof fn appended_change_is_buffered_or_handed_out(
    s: &mut FileChangeStore,
    change: Change,
    r: Result<(u64, Option<PendingWrite>)>,
)
    requires
        call_ensures(FileChangeStore::append, (s, &change), r),
        old(s)@.wf(),
        old(s)@.tail < u64::MAX,
    ensures
        r is Ok,
        r->Ok_0.0 == old(s)@.tail,
        final(s)@.tail == old(s)@.tail + 1,
        final(s)@.open == old(s)@.open,
        final(s)@.threshold == old(s)@.threshold,
        final(s)@.index == old(s)@.index,
        r->Ok_0.1 is Some <==> old(s)@.open && old(s)@.buffer.len() + 1 >= old(s)@.threshold,
        r->Ok_0.1 is None ==> final(s)@.buffer == old(s)@.buffer.push(change@),
        r->Ok_0.1 is Some ==> {
            let write = r->Ok_0.1->Some_0@;
            &&& final(s)@.buffer.len() == 0
            &&& write.bytes == log::records_bytes(old(s)@.buffer.push(change@))
            &&& write.first == old(s)@.tail - old(s)@.buffer.len()
            &&& write.lengths.len() == old(s)@.buffer.len() + 1
        },
{
}

/// A flush hands out all buffered changes to be written, in order, if there are any and
/// there is a file; without a file they stay in the buffer. The tail does not move.
pub proof fn flush_hands_the_buffer_out(
    s: &mut FileChangeStore,
    r: Result<Option<PendingWrite>>,
)
    requires
        call_ensures(FileChangeStore::flush, (s,), r),
        old(s)@.wf(),
    ensures
        r is Ok,
        final(s)@.tail == old(s)@.tail,
        final(s)@.open == old(s)@.open,
        final(s)@.index == old(s)@.index,
        r->Ok_0 is Some <==> old(s)@.open && old(s)@.buffer.len() > 0,
        r->Ok_0 is Some ==> {
            let write = r->Ok_0->Some_0@;
            &&& final(s)@.buffer.len() == 0
            &&& write.bytes == log::records_bytes(old(s)@.buffer)
            &&& write.first == old(s)@.tail - old(s)@.buffer.len()
            &&& write.lengths.len() == old(s)@.buffer.len()
        },
        r->Ok_0 is None ==> final(s)@.buffer == old(s)@.buffer,
{
    assert(old(s)@.buffer.len() == 0 ==> old(s)@.buffer =~= Seq::<ChangeModel>::empty());
}

/// Closing hands out what is buffered, as a flush does, and lets go of the file at once if
/// there is nothing to hand out. Releasing the file leaves everything else.
pub proof fn closing_hands_the_buffer_out(
    s: &mut FileChangeStore,
    r: Result<Option<PendingWrite>>,
    released: &mut FileChangeStore,
)
    requires
        call_ensures(FileChangeStore::close, (s,), r),
        old(s)@.wf(),
        call_ensures(FileChangeStore::release_file, (released,), ()),
    ensures
        r is Ok,
        r->Ok_0 is Some <==> old(s)@.open && old(s)@.buffer.len() > 0,
        r->Ok_0 is Some ==> {
            &&& r->Ok_0->Some_0@.bytes == log::records_bytes(old(s)@.buffer)
            &&& final(s)@.buffer.len() == 0
            &&& final(s)@.open
        },
        r->Ok_0 is None ==> !final(s)@.open && final(s)@.buffer == old(s)@.buffer,
        final(s)@.tail == old(s)@.tail,
        !final(released)@.open,
        final(released)@.buffer == old(released)@.buffer,
        final(released)@.tail == old(released)@.tail,
        final(released)@.index == old(released)@.index,
{
}

/// Committing a write of a thousand changes or more adds an index entry for the first of
/// them and for each one a thousand further on, with its number and length; a smaller write
/// adds none.
pub proof fn large_writes_are_indexed(
    s: &mut FileChangeStore,
    write: PendingWrite,
    position: u64,
    k: int,
)
    requires
        call_ensures(FileChangeStore::commit, (s, write, position), ()),
        old(s)@.wf(),
        old(s)@.accepts(write@),
        position + write@.bytes.len() <= u64::MAX,
    ensures
        final(s)@.tail == old(s)@.tail,
        final(s)@.buffer == old(s)@.buffer,
        write@.lengths.len() < 1000 ==> final(s)@.index == old(s)@.index,
        write@.lengths.len() >= 1000 ==> final(s)@.index.len() == old(s)@.index.len() + (
        write@.lengths.len() + 999) / 1000,
        write@.lengths.len() >= 1000 && 0 <= k && k * 1000 < write@.lengths.len() ==> {
            let entry = final(s)@.index[old(s)@.index.len() + k];
            &&& entry.offset == write@.first + k * 1000
            &&& entry.length == write@.lengths[k * 1000]
        },
        write@.lengths.len() >= 1000 ==> final(s)@.index[old(s)@.index.len() as int].position
            == position,
{
    if write@.lengths.len() >= 1000 && 0 <= k && k * 1000 < write@.lengths.len() {
        let added = added_entries(write@, position);
        assert(k < added.len());
        assert(final(s)@.index[old(s)@.index.len() + k] == added[k]);
    }
    if write@.lengths.len() >= 1000 {
        let added = added_entries(write@, position);
        assert(final(s)@.index[old(s)@.index.len() as int] == added[0]);
        assert(0 * DEFAULT_INDEX_INTERVAL as int == 0);
        assert(space_of(write@.lengths, 0) == 0);
    }
}

/// Reading for an offset starts at the last indexed record that is not behind the offset,
/// or at the first record, which lies behind the sixteen bytes of the header.
pub proof fn reading_starts_at_the_closest_entry(
    s: FileChangeStore,
    offset: u64,
    r: (u64, u64),
    i: int,
)
    requires
        call_ensures(FileChangeStore::start, (&s, offset), r),
        s@.wf(),
        offset > 0,
    ensures
        r.1 <= offset,
        0 <= i < s@.index.len() && s@.index[i].offset <= offset ==> s@.index[i].offset <= r.1,
        r == (16u64, 0u64) || exists|k: int|
            0 <= k < s@.index.len() && r == ((#[trigger] s@.index[k]).position, s@.index[k].offset),
{
    lemma_start_is_indexed(s@.index, offset);
    if 0 <= i < s@.index.len() && s@.index[i].offset <= offset {
        lemma_start_is_last(s@.index, offset, i);
    }
}

proof fn lemma_start_is_last(index: Seq<IndexEntry>, offset: u64, i: int)
    requires
        0 <= i < index.len(),
        index[i].offset <= offset,
        forall|a: int, b: int|
            0 <= a < b < index.len() ==> (#[trigger] index[a]).offset < (#[trigger] index[b]).offset,
    ensures
        index[i].offset <= start_of(index, offset).1,
    decreases index.len(),
{
    if index.last().offset <= offset {
        if i < index.len() - 1 {
            assert(index[i].offset < index[index.len() - 1].offset);
        }
    } else {
        let init = index.drop_last();
        assert forall|a: int, b: int| 0 <= a < b < init.len() implies (#[trigger] init[a]).offset < (
        #[trigger] init[b]).offset by {
            assert(index[a].offset < index[b].offset);
        }
        assert(init[i] == index[i]);
        lemma_start_is_last(init, offset, i);
    }
}

/// A compacted store counts what was kept and what is buffered, and forgets its index; the
/// buffer stays.
pub proof fn compacted_store_counts_what_is_left(s: &mut FileChangeStore, kept: u64)
    requires
        call_ensures(FileChangeStore::compacted, (s, kept), ()),
        kept + old(s)@.buffer.len() <= u64::MAX,
    ensures
        final(s)@.tail == kept + old(s)@.buffer.len(),
        final(s)@.index.len() == 0,
        final(s)@.buffer == old(s)@.buffer,
        final(s)@.open == old(s)@.open,
        final(s)@.threshold == old(s)@.threshold,
{
}

/// A store in memory numbers changes from zero and gives back those from an offset on, in
/// order.
pub proof fn memory_store_gives_back_what_it_took(
    s: &mut MemoryChangeStore,
    change: Change,
    at: Result<u64>,
    same: MemoryChangeStore,
    offset: u64,
    r: Result<Vec<Change>>,
    tail: u64,
    i: int,
)
    requires
        call_ensures(MemoryChangeStore::append, (s, &change), at),
        call_ensures(MemoryChangeStore::get_since, (&same, offset), r),
        call_ensures(MemoryChangeStore::tail_offset, (&same,), tail),
    ensures
        at is Ok,
        at->Ok_0 == old(s)@.len(),
        final(s)@ == old(s)@.push(change@),
        tail == same@.len(),
        r is Ok,
        r->Ok_0@.len() == if offset < same@.len() { same@.len() - offset } else { 0 },
        0 <= i < r->Ok_0@.len() ==> r->Ok_0@[i]@ == same@[offset + i],
{
    let views = change::changes_view(r->Ok_0@);
    assert(views.len() == r->Ok_0@.len());
    if 0 <= i < views.len() {
        assert(views[i] == r->Ok_0@[i]@);
    }
}

/// A file is removed on recovery if and only if its extension is `tmp`; it was left by a
/// compaction if the name before the extension has `compacting` in it, anywhere.
pub proof fn temp_files_are_told_by_name(stem: &str, extension: &str, r: Option<TempFileType>)
    requires
        call_ensures(classify_temp_file, (stem, extension), r),
    ensures
        r is Some <==> extension@ == "tmp"@,
        r == Some(TempFileType::Compacting) <==> extension@ == "tmp"@ && exists|i: int|
            0 <= i <= stem@.len() - "compacting"@.len() && #[trigger] stem@.subrange(
                i,
                i + "compacting"@.len(),
            ) == "compacting"@,
{
}

/// Opening the log of changes counts all of them and writes nothing; a file that is too
/// short for a header is a new log, which starts with one; and what does not start as a log
/// does is refused.
pub proof fn opened_store_counts_its_changes(
    data: &[u8],
    threshold: usize,
    r: Result<(FileChangeStore, Vec<u8>)>,
    changes: Seq<ChangeModel>,
)
    requires
        call_ensures(FileChangeStore::open, (data, threshold), r),
        data@.len() <= u64::MAX - 16_777_216 - 4,
    ensures
        data@.len() < 16 ==> {
            &&& r is Ok
            &&& r->Ok_0.0@.tail == 0
            &&& r->Ok_0.1@ == log::log_of(Seq::empty())
        },
        data@.len() >= 16 && (data@[0] != 83 || data@[1] != 68 || data@[2] != 67 || data@[3] != 76)
            ==> r is Err,
        data@ == log::log_of(changes) && indexable(changes) ==> {
            &&& r is Ok
            &&& r->Ok_0.0@.tail == changes.len()
            &&& r->Ok_0.0@.describes(changes)
            &&& r->Ok_0.1@.len() == 0
        },
        r is Ok ==> {
            &&& r->Ok_0.0@.buffer.len() == 0
            &&& r->Ok_0.0@.threshold == threshold
            &&& r->Ok_0.0@.open
        },
{
    lemma_header();
    assert(log::log_of(Seq::empty()) =~= log::log_header());
    if data@.len() >= 16 && (data@[0] != 83 || data@[1] != 68 || data@[2] != 67 || data@[3] != 76) {
        let head = data@.take(4);
        assert(head[0] == data@[0] && head[1] == data@[1] && head[2] == data@[2] && head[3]
            == data@[3]);
        assert(head != log::LOG_MAGIC@) by {
            assert(log::LOG_MAGIC@[0] == 83 && log::LOG_MAGIC@[1] == 68 && log::LOG_MAGIC@[2] == 67
                && log::LOG_MAGIC@[3] == 76);
        }
    }
    if data@ == log::log_of(changes) && indexable(changes) {
        opening_finds_the_changes(changes, threshold as nat);
    }
}

}
