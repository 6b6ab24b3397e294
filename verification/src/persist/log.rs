//! Change persistence.
//!
//! This module holds the format of the change log and the state of a store, so that
//! changes survive restarts and can be recovered from partial writes.
//!
//! # File Format
//!
//! The log file uses a simple binary format with a version header:
//! - Bytes 0-3: Magic bytes "SDCL"
//! - Bytes 4-7: Version number (u32, little-endian)
//! - Bytes 8-15: Reserved for future use (all zeros)
//! - Remaining: Length-prefixed change records
//!
//! Each record format:
//! - 4 bytes: Record length (u32, little-endian)
//! - N bytes: Encoded change

use crate::change;
use crate::change::{Change, ChangeModel};
use crate::codec;
use crate::codec::decode_change;
use crate::common;
use crate::common::decimal_text;
use crate::error::{Error, ErrorModel, Result};
use vstd::prelude::*;

verus! {

/// Magic bytes for the change log file header, "SDCL".
pub const LOG_MAGIC: [u8; 4] = [83, 68, 67, 76];

/// Current log format version.
pub const LOG_VERSION: u32 = 1;

/// Header size in bytes.
pub const HEADER_SIZE: usize = 16;

/// Maximum changes to buffer before forcing a flush.
pub const DEFAULT_FLUSH_THRESHOLD: usize = 100;

/// Default index entry interval (index every N changes).
pub const DEFAULT_INDEX_INTERVAL: usize = 1000;

/// The largest record that the index takes in.
pub const MAX_RECORD_SIZE: u32 = 16 * 1024 * 1024;

/// The number in four bytes, lowest byte first.
pub open spec fn le_u32(bytes: Seq<u8>) -> int {
    bytes[0] + bytes[1] * 0x100 + bytes[2] * 0x1_0000 + bytes[3] * 0x100_0000
}

/// The four bytes of a number, lowest byte first.
pub open spec fn le_u32_bytes(n: u32) -> Seq<u8> {
    seq![
        (n % 0x100) as u8,
        (n / 0x100 % 0x100) as u8,
        (n / 0x1_0000 % 0x100) as u8,
        (n / 0x100_0000) as u8,
    ]
}

/// The number in the first four bytes.
#[verifier::opaque]
pub open spec fn prefix_of(data: Seq<u8>) -> u32 {
    le_u32(data.take(4)) as u32
}

/// The header of a log.
pub open spec fn log_header() -> Seq<u8> {
    LOG_MAGIC@ + le_u32_bytes(LOG_VERSION) + seq![0u8, 0, 0, 0, 0, 0, 0, 0]
}

/// The record of a change: the length of its binary form, then the binary form.
pub open spec fn record_bytes(c: ChangeModel) -> Seq<u8> {
    le_u32_bytes((codec::change_bytes(c).len() % 0x1_0000_0000) as u32) + codec::change_bytes(c)
}

/// The records of changes, one after another.
pub open spec fn records_bytes(changes: Seq<ChangeModel>) -> Seq<u8>
    decreases changes.len(),
{
    if changes.len() == 0 {
        Seq::empty()
    } else {
        record_bytes(changes[0]) + records_bytes(changes.drop_first())
    }
}

/// The log of changes.
pub open spec fn log_of(changes: Seq<ChangeModel>) -> Seq<u8> {
    log_header() + records_bytes(changes)
}

/// Whether a change can be read back from its record.
pub open spec fn storable(c: ChangeModel) -> bool {
    &&& 0 < codec::change_bytes(c).len() < 0x1_0000_0000
    &&& codec::bytes_change(codec::change_bytes(c)) == Some(c)
}

/// Whether all changes can be read back from their records.
pub open spec fn all_storable(changes: Seq<ChangeModel>) -> bool {
    forall|i: int| 0 <= i < changes.len() ==> storable(#[trigger] changes[i])
}

/// What reading records comes to.
pub enum ReadOutcome {
    /// These changes
    Changes(Seq<ChangeModel>),
    /// A record ends before its length is reached
    Truncated,
    /// A record is not the binary form of a change, for a reason
    Undecodable(Seq<char>),
}

/// An outcome with changes put before those it has.
pub open spec fn read_after(before: Seq<ChangeModel>, rest: ReadOutcome) -> ReadOutcome {
    match rest {
        ReadOutcome::Changes(more) => ReadOutcome::Changes(before + more),
        other => other,
    }
}

/// What comes of reading records, the first of which has the given number, up to the
/// end of the data or a length of zero: the changes whose number is at least the
/// offset.
pub open spec fn read_outcome(data: Seq<u8>, number: int, offset: int) -> ReadOutcome
    decreases data.len(),
{
    if data.len() < 4 || prefix_of(data) == 0 {
        ReadOutcome::Changes(Seq::empty())
    } else if data.len() < 4 + prefix_of(data) {
        ReadOutcome::Truncated
    } else {
        let n = prefix_of(data);
        let rest = data.skip(4 + n);
        if number < offset {
            read_outcome(rest, number + 1, offset)
        } else {
            match codec::bytes_change(data.subrange(4, 4 + n)) {
                Some(c) => read_after(seq![c], read_outcome(rest, number + 1, offset)),
                None => ReadOutcome::Undecodable(
                    codec::change_failure(data.subrange(4, 4 + n)),
                ),
            }
        }
    }
}

/// The four bytes of a number hold that number.
proof fn lemma_le_u32(n: u32)
    ensures
        le_u32_bytes(n).len() == 4,
        le_u32(le_u32_bytes(n)) == n,
{
}

/// The record of a change followed by more data: its length and its parts.
pub proof fn lemma_record_front(c: ChangeModel, rest: Seq<u8>)
    requires
        codec::change_bytes(c).len() < 0x1_0000_0000,
    ensures
        ({
            let data = record_bytes(c) + rest;
            let n = codec::change_bytes(c).len() as int;
            &&& data.len() == 4 + n + rest.len()
            &&& prefix_of(data) == n
            &&& data.subrange(4, 4 + n) == codec::change_bytes(c)
            &&& data.skip(4 + n) == rest
        }),
{
    reveal(prefix_of);
    let body = codec::change_bytes(c);
    let n = body.len() as int;
    let head = le_u32_bytes(n as u32);
    let data = (head + body) + rest;
    lemma_le_u32(n as u32);
    assert(n % 0x1_0000_0000 == n);
    assert(record_bytes(c) == head + body);
    assert(data.take(4) =~= head);
    assert(data.subrange(4, 4 + n) =~= body);
    assert(data.skip(4 + n) =~= rest);
}

/// Reading the records of changes gives those from the offset on.
pub proof fn reading_gives_what_was_written(changes: Seq<ChangeModel>, number: int, offset: int)
    requires
        all_storable(changes),
    ensures
        read_outcome(records_bytes(changes), number, offset) == ReadOutcome::Changes(
            from_number(changes, number, offset),
        ),
    decreases changes.len(),
{
    if changes.len() == 0 {
        assert(from_number(changes, number, offset) =~= Seq::<ChangeModel>::empty());
    } else {
        let rest = changes.drop_first();
        assert(storable(changes[0]));
        assert(all_storable(rest)) by {
            assert forall|i: int| 0 <= i < rest.len() implies storable(#[trigger] rest[i]) by {
                assert(storable(changes[i + 1]));
            }
        }
        lemma_record_front(changes[0], records_bytes(rest));
        reading_gives_what_was_written(rest, number + 1, offset);
        if number < offset {
            assert(from_number(changes, number, offset) =~= from_number(rest, number + 1, offset));
        } else {
            assert(from_number(changes, number, offset) =~= seq![changes[0]] + from_number(
                rest,
                number + 1,
                offset,
            ));
        }
    }
}

/// Of changes numbered from the given number, those whose number is at least the
/// offset.
pub open spec fn from_number(changes: Seq<ChangeModel>, number: int, offset: int) -> Seq<ChangeModel> {
    if offset <= number {
        changes
    } else if offset - number >= changes.len() {
        Seq::empty()
    } else {
        changes.skip(offset - number)
    }
}

/// Read a number from four bytes, lowest byte first.
pub fn number_of(bytes: [u8; 4]) -> (n: u32)
    ensures
        n == le_u32(bytes@),
{
    bytes[0] as u32 + bytes[1] as u32 * 0x100 + bytes[2] as u32 * 0x1_0000 + bytes[3] as u32
        * 0x100_0000
}

/// Read the number in the four bytes at a position.
fn prefix_at(data: &[u8], pos: usize) -> (n: u32)
    requires
        pos + 4 <= data@.len(),
    ensures
        n == prefix_of(data@.skip(pos as int)),
{
    let bytes: [u8; 4] = [data[pos], data[pos + 1], data[pos + 2], data[pos + 3]];
    assert(bytes@ =~= data@.skip(pos as int).take(4));
    proof {
        reveal(prefix_of);
    }
    number_of(bytes)
}

/// Append the four bytes of a number, lowest byte first.
pub(crate) fn push_number(out: &mut Vec<u8>, n: u32)
    ensures
        final(out)@ == old(out)@ + le_u32_bytes(n),
{
    out.push((n % 0x100) as u8);
    out.push((n / 0x100 % 0x100) as u8);
    out.push((n / 0x1_0000 % 0x100) as u8);
    out.push((n / 0x100_0000) as u8);
    assert(out@ =~= old(out)@ + le_u32_bytes(n));
}

/// The log file header.
pub fn write_header() -> (header: Vec<u8>)
    ensures
        header@ == log_header(),
        header@.len() == HEADER_SIZE,
{
    let mut header: Vec<u8> = Vec::new();
    header.extend_from_slice(LOG_MAGIC.as_slice());
    push_number(&mut header, LOG_VERSION);
    let mut i: usize = 0;
    let ghost start = header@;
    while i < 8
        invariant
            i <= 8,
            header@ == start + Seq::new(i as nat, |k: int| 0u8),
        decreases 8 - i,
    {
        header.push(0);
        i = i + 1;
        assert(header@ =~= start + Seq::new(i as nat, |k: int| 0u8));
    }
    assert(header@ =~= log_header());
    header
}

/// What is wrong with the first sixteen bytes of a log, if anything.
pub open spec fn header_error(data: Seq<u8>) -> Option<ErrorModel> {
    if data.take(4) != LOG_MAGIC@ {
        Some(
            ErrorModel::Other(
                "failed to initialize log: "@ + "invalid log file: missing magic bytes"@,
            ),
        )
    } else if le_u32(data.subrange(4, 8)) > LOG_VERSION {
        Some(
            ErrorModel::Other(
                "failed to initialize log: "@ + ("unsupported log version: "@ + common::decimal(
                    le_u32(data.subrange(4, 8)) as nat,
                )),
            ),
        )
    } else {
        None
    }
}

/// Check the header of a log.
///
/// Fails if the magic bytes are missing or the version is newer than this one.
pub fn check_header(data: &[u8]) -> (r: Result<()>)
    requires
        data@.len() >= HEADER_SIZE,
    ensures
        match r {
            Ok(_) => header_error(data@) is None,
            Err(e) => header_error(data@) == Some(e@),
        },
{
    proof {
        let head = seq![data@[0], data@[1], data@[2], data@[3]];
        assert(data@.take(4) =~= head);
        assert(head == LOG_MAGIC@ ==> head[0] == LOG_MAGIC@[0] && head[1] == LOG_MAGIC@[1] && head[2]
            == LOG_MAGIC@[2] && head[3] == LOG_MAGIC@[3]);
    }
    if data[0] != LOG_MAGIC[0] || data[1] != LOG_MAGIC[1] || data[2] != LOG_MAGIC[2] || data[3]
        != LOG_MAGIC[3] {
        return Err(
            Error::Other(
                "failed to initialize log: ".to_owned().concat(
                    "invalid log file: missing magic bytes",
                ),
            ),
        );
    }
    assert(data@.take(4) =~= LOG_MAGIC@);
    let version: u32 = prefix_at(data, 4);
    proof {
        reveal(prefix_of);
        assert(data@.skip(4).take(4) =~= data@.subrange(4, 8));
    }
    if version > LOG_VERSION {
        let text = "unsupported log version: ".to_owned().concat(
            decimal_text(version as usize).as_str(),
        );
        return Err(Error::Other("failed to initialize log: ".to_owned().concat(text.as_str())));
    }
    Ok(())
}

/// Read changes from records.
///
/// The data starts at the record with the given number. Returns the changes whose
/// number is at least the offset, up to the end of the data or a length of zero.
/// Fails if a record ends early, or if one from the offset on cannot be decoded.
pub fn read_changes(data: &[u8], number: u64, offset: u64) -> (r: Result<Vec<Change>>)
    ensures
        match read_outcome(data@, number as int, offset as int) {
            ReadOutcome::Changes(changes) => r is Ok && change::changes_view(r->Ok_0@) == changes,
            ReadOutcome::Truncated => r is Err && r->Err_0@ == ErrorModel::Other(
                "read error: "@ + "failed to fill whole buffer"@,
            ),
            ReadOutcome::Undecodable(reason) => r is Err && r->Err_0@ == ErrorModel::Encoding(
                reason,
            ),
        },
{
    let mut changes: Vec<Change> = Vec::new();
    let mut skip: u64 = if offset > number { offset - number } else { 0 };
    let mut pos: usize = 0;
    let ghost mut at: int = number as int;
    assert(change::changes_view(changes@) =~= Seq::<ChangeModel>::empty());
    assert(data@.skip(0) =~= data@);
    proof {
        lemma_read_after_nothing(read_outcome(data@, at, offset as int));
    }
    while data.len() - pos >= 4
        invariant
            pos <= data@.len(),
            skip == (if offset > at { offset - at } else { 0 }),
            read_outcome(data@, number as int, offset as int) == read_after(
                change::changes_view(changes@),
                read_outcome(data@.skip(pos as int), at, offset as int),
            ),
        decreases data@.len() - pos,
    {
        let n: u32 = prefix_at(data, pos);
        let ghost here = data@.skip(pos as int);
        if n == 0 {
            assert(change::changes_view(changes@) + Seq::<ChangeModel>::empty()
            =~= change::changes_view(changes@));
            return Ok(changes);
        }
        if ((data.len() - pos - 4) as u64) < n as u64 {
            return Err(
                Error::Other("read error: ".to_owned().concat("failed to fill whole buffer")),
            );
        }
        let len: usize = n as usize;
        let body = vstd::slice::slice_subrange(data, pos + 4, pos + 4 + len);
        proof {
            assert(body@ =~= here.subrange(4, 4 + n as int));
            assert(here.skip(4 + n as int) =~= data@.skip(pos + 4 + len));
        }
        if skip > 0 {
            skip = skip - 1;
        } else {
            let ghost before = change::changes_view(changes@);
            match decode_change(body) {
                Ok(change) => {
                    changes.push(change);
                    proof {
                        assert(change::changes_view(changes@) =~= before + seq![change@]);
                        lemma_read_after_twice(
                            before,
                            seq![change@],
                            read_outcome(here.skip(4 + n as int), at + 1, offset as int),
                        );
                    }
                },
                Err(e) => {
                    return Err(e);
                },
            }
        }
        proof {
            at = at + 1;
        }
        pos = pos + 4 + len;
    }
    assert(change::changes_view(changes@) + Seq::<ChangeModel>::empty()
            =~= change::changes_view(changes@));
    Ok(changes)
}

/// Putting nothing before an outcome leaves it.
proof fn lemma_read_after_nothing(rest: ReadOutcome)
    ensures
        read_after(Seq::empty(), rest) == rest,
{
    match rest {
        ReadOutcome::Changes(more) => {
            assert(Seq::<ChangeModel>::empty() + more =~= more);
        },
        _ => {},
    }
}

/// Putting changes before an outcome in two steps or in one comes to the same.
proof fn lemma_read_after_twice(a: Seq<ChangeModel>, b: Seq<ChangeModel>, rest: ReadOutcome)
    ensures
        read_after(a, read_after(b, rest)) == read_after(a + b, rest),
{
    match rest {
        ReadOutcome::Changes(more) => {
            assert(a + (b + more) =~= (a + b) + more);
        },
        _ => {},
    }
}

/// An index entry mapping offset to file position.
#[derive(Debug, Clone, Copy, PartialEq, Eq, Structural)]
pub struct IndexEntry {
    /// Change offset
    pub offset: u64,
    /// File byte position of this record
    pub position: u64,
    /// Length of this record in bytes
    pub length: u32,
}

/// Whether the record with a number gets an index entry.
pub open spec fn is_indexed(number: int, interval: int) -> bool {
    if interval == 0 {
        number == 0
    } else {
        number % interval == 0
    }
}

/// The index entries of records, the first of which has the given number and lies at
/// the given position.
///
/// Records are counted up to the end of the data, a length of zero, or a length that
/// is too large. The last record is counted even if it ends early.
pub open spec fn index_of(data: Seq<u8>, position: int, number: int, interval: int) -> Seq<IndexEntry>
    decreases data.len(),
{
    if data.len() < 4 || prefix_of(data) == 0 || prefix_of(data) > MAX_RECORD_SIZE {
        Seq::empty()
    } else {
        let n = prefix_of(data);
        let rest = index_of(after_record(data), position + 4 + n, number + 1, interval);
        if is_indexed(number, interval) {
            seq![IndexEntry { offset: number as u64, position: position as u64, length: n as u32 }]
                + rest
        } else {
            rest
        }
    }
}

/// How many records the index counts.
pub open spec fn record_count(data: Seq<u8>) -> nat
    decreases data.len(),
{
    if data.len() < 4 || prefix_of(data) == 0 || prefix_of(data) > MAX_RECORD_SIZE {
        0
    } else {
        1 + record_count(after_record(data))
    }
}

/// What follows the first record; nothing, if the record ends early.
pub open spec fn after_record(data: Seq<u8>) -> Seq<u8> {
    if 4 + prefix_of(data) <= data.len() {
        data.skip(4 + prefix_of(data))
    } else {
        Seq::empty()
    }
}

/// A scan of a log that builds its index, one record after another.
#[derive(Debug)]
pub struct IndexScan {
    position: u64,
    offset: u64,
    interval: usize,
    index: Vec<IndexEntry>,
}

/// Where a scan is.
#[verifier::ext_equal]
pub struct ScanModel {
    /// The position of the next record
    pub position: u64,
    /// The number of the next record
    pub offset: u64,
    pub interval: nat,
    /// The entries so far
    pub index: Seq<IndexEntry>,
}

impl View for IndexScan {
    type V = ScanModel;

    closed spec fn view(&self) -> ScanModel {
        ScanModel {
            position: self.position,
            offset: self.offset,
            interval: self.interval as nat,
            index: self.index@,
        }
    }
}

impl ScanModel {
    /// Whether the entries are in order and point at records scanned already.
    pub open spec fn wf(self) -> bool {
        index_below(self.index, self.offset as int)
    }
}

/// Whether index entries are in the order of their offsets, all below a number.
pub open spec fn index_below(index: Seq<IndexEntry>, number: int) -> bool {
    &&& forall|i: int| 0 <= i < index.len() ==> (#[trigger] index[i]).offset < number
    &&& forall|i: int, j: int|
        0 <= i < j < index.len() ==> (#[trigger] index[i]).offset < (#[trigger] index[j]).offset
}

impl IndexScan {
    /// Start a scan behind the header of a log.
    pub fn new(interval: usize) -> (s: Self)
        ensures
            s@ == (ScanModel {
                position: HEADER_SIZE as u64,
                offset: 0,
                interval: interval as nat,
                index: Seq::empty(),
            }),
            s@.wf(),
    {
        IndexScan { position: HEADER_SIZE as u64, offset: 0, interval, index: Vec::new() }
    }

    /// Take in the length of the next record. Returns the position of the record after
    /// it, or `None` if the scan ends here.
    pub fn record(&mut self, prefix: [u8; 4]) -> (next: Option<u64>)
        requires
            old(self)@.position + 4 + MAX_RECORD_SIZE <= u64::MAX,
            old(self)@.offset < u64::MAX,
        ensures
            ({
                let n = le_u32(prefix@);
                let s = old(self)@;
                if n == 0 || n > MAX_RECORD_SIZE {
                    next is None && final(self)@ == s
                } else {
                    &&& next == Some((s.position + 4 + n) as u64)
                    &&& final(self)@ == (ScanModel {
                        position: (s.position + 4 + n) as u64,
                        offset: (s.offset + 1) as u64,
                        index: if is_indexed(s.offset as int, s.interval as int) {
                            s.index.push(
                                IndexEntry {
                                    offset: s.offset,
                                    position: s.position,
                                    length: n as u32,
                                },
                            )
                        } else {
                            s.index
                        },
                        ..s
                    })
                }
            }),
            old(self)@.wf() ==> final(self)@.wf(),
    {
        let n: u32 = number_of(prefix);
        if n == 0 || n > MAX_RECORD_SIZE {
            return None;
        }
        let indexed: bool = if self.interval == 0 {
            self.offset == 0
        } else {
            self.offset % self.interval as u64 == 0
        };
        if indexed {
            self.index.push(
                IndexEntry { offset: self.offset, position: self.position, length: n },
            );
        }
        self.position = self.position + 4 + n as u64;
        self.offset = self.offset + 1;
        Some(self.position)
    }

    /// The index built and the number of records scanned.
    pub(crate) fn finish(self) -> (r: (Vec<IndexEntry>, u64))
        ensures
            r.0@ == self@.index,
            r.1 == self@.offset,
    {
        (self.index, self.offset)
    }
}

/// Build an index by scanning a log.
pub fn build_index(data: &[u8], interval: usize) -> (s: IndexScan)
    requires
        HEADER_SIZE <= data@.len() <= u64::MAX - MAX_RECORD_SIZE - 4,
    ensures
        s@.index == index_of(
            data@.skip(HEADER_SIZE as int),
            HEADER_SIZE as int,
            0,
            interval as int,
        ),
        s@.offset == record_count(data@.skip(HEADER_SIZE as int)),
        s@.wf(),
{
    let mut scan = IndexScan::new(interval);
    let ghost all = data@.skip(HEADER_SIZE as int);
    let ghost want = index_of(all, HEADER_SIZE as int, 0, interval as int);
    let mut pos: usize = HEADER_SIZE;
    let mut done = false;
    assert(Seq::<IndexEntry>::empty() + want =~= want);
    while !done && data.len() - pos >= 4
        invariant
            HEADER_SIZE <= pos <= data@.len() <= u64::MAX - MAX_RECORD_SIZE - 4,
            all == data@.skip(HEADER_SIZE as int),
            want == index_of(all, HEADER_SIZE as int, 0, interval as int),
            scan@.interval == interval,
            scan@.offset <= pos,
            scan@.wf(),
            pos < data@.len() ==> scan@.position == pos,
            done ==> scan@.index == want && scan@.offset == record_count(all),
            !done ==> want == scan@.index + index_of(
                data@.skip(pos as int),
                scan@.position as int,
                scan@.offset as int,
                interval as int,
            ),
            !done ==> record_count(all) == scan@.offset + record_count(data@.skip(pos as int)),
        decreases data@.len() - pos, (if done { 0int } else { 1int }),
    {
        let prefix: [u8; 4] = [data[pos], data[pos + 1], data[pos + 2], data[pos + 3]];
        let ghost here = data@.skip(pos as int);
        let ghost before = scan@;
        assert(prefix_of(here) == le_u32(prefix@)) by {
            reveal(prefix_of);
            assert(prefix@ =~= here.take(4));
        }
        match scan.record(prefix) {
            Some(next) => {
                let n: u64 = next - pos as u64;
                proof {
                    let rest = index_of(
                        after_record(here),
                        scan@.position as int,
                        scan@.offset as int,
                        interval as int,
                    );
                    assert(want =~= scan@.index + rest);
                }
                if n <= (data.len() - pos) as u64 {
                    pos = pos + n as usize;
                    assert(after_record(here) =~= data@.skip(pos as int));
                } else {
                    pos = data.len();
                    assert(after_record(here) =~= data@.skip(pos as int));
                }
            },
            None => {
                done = true;
                assert(before.index + Seq::<IndexEntry>::empty() =~= before.index);
            },
        }
    }
    if !done {
        assert(scan@.index + Seq::<IndexEntry>::empty() =~= scan@.index);
    }
    scan
}

/// What compaction keeps of records, the first of which has the given number: the
/// complete records whose number is at least `keep_from`.
pub open spec fn kept_records(data: Seq<u8>, number: int, keep_from: int) -> Seq<u8>
    decreases data.len(),
{
    if data.len() < 4 || data.len() < 4 + prefix_of(data) {
        Seq::empty()
    } else {
        let rest = kept_records(data.skip(4 + prefix_of(data)), number + 1, keep_from);
        if number >= keep_from {
            data.take(4 + prefix_of(data)) + rest
        } else {
            rest
        }
    }
}

/// How many records compaction keeps.
pub open spec fn kept_count(data: Seq<u8>, number: int, keep_from: int) -> int
    decreases data.len(),
{
    if data.len() < 4 || data.len() < 4 + prefix_of(data) {
        0
    } else {
        let rest = kept_count(data.skip(4 + prefix_of(data)), number + 1, keep_from);
        if number >= keep_from {
            1 + rest
        } else {
            rest
        }
    }
}

/// A compaction of a log, one record after another.
#[derive(Debug)]
pub struct Compaction {
    keep_from: u64,
    record_number: u64,
    kept: u64,
}

/// Where a compaction is.
pub struct CompactionModel {
    pub keep_from: u64,
    /// The number of the next record
    pub record_number: u64,
    /// How many records were kept
    pub kept: u64,
}

impl View for Compaction {
    type V = CompactionModel;

    closed spec fn view(&self) -> CompactionModel {
        CompactionModel {
            keep_from: self.keep_from,
            record_number: self.record_number,
            kept: self.kept,
        }
    }
}

impl Compaction {
    /// Start a compaction that keeps the records from a number on.
    pub fn new(keep_from: u64) -> (c: Self)
        ensures
            c@ == (CompactionModel { keep_from, record_number: 0, kept: 0 }),
    {
        Compaction { keep_from, record_number: 0, kept: 0 }
    }

    /// The number of records kept so far.
    pub fn kept(&self) -> (n: u64)
        ensures
            n == self@.kept,
    {
        self.kept
    }

    /// Take in the next complete record. Returns whether it is kept.
    pub fn record(&mut self) -> (keep: bool)
        requires
            old(self)@.record_number < u64::MAX,
            old(self)@.kept <= old(self)@.record_number,
        ensures
            keep == (old(self)@.record_number >= old(self)@.keep_from),
            final(self)@ == (CompactionModel {
                keep_from: old(self)@.keep_from,
                record_number: (old(self)@.record_number + 1) as u64,
                kept: (old(self)@.kept + if keep { 1int } else { 0int }) as u64,
            }),
    {
        let keep = self.record_number >= self.keep_from;
        if keep {
            self.kept = self.kept + 1;
        }
        self.record_number = self.record_number + 1;
        keep
    }
}

/// Compact a log by removing the records before an offset.
///
/// Returns the new log and the number of records it holds. A record that ends early
/// is left out.
pub fn compact_log(data: &[u8], keep_from: u64) -> (r: (Vec<u8>, u64))
    requires
        HEADER_SIZE <= data@.len() <= u64::MAX,
    ensures
        r.0@ == log_header() + kept_records(data@.skip(HEADER_SIZE as int), 0, keep_from as int),
        r.1 == kept_count(data@.skip(HEADER_SIZE as int), 0, keep_from as int),
{
    let mut out = write_header();
    let mut compaction = Compaction::new(keep_from);
    let mut pos: usize = HEADER_SIZE;
    let mut done = false;
    let ghost all = data@.skip(HEADER_SIZE as int);
    let ghost want = log_header() + kept_records(all, 0, keep_from as int);
    while !done && data.len() - pos >= 4
        invariant
            HEADER_SIZE <= pos <= data@.len() <= u64::MAX,
            all == data@.skip(HEADER_SIZE as int),
            want == log_header() + kept_records(all, 0, keep_from as int),
            compaction@.keep_from == keep_from,
            compaction@.kept <= compaction@.record_number <= pos - HEADER_SIZE,
            done ==> out@ == want && compaction@.kept == kept_count(all, 0, keep_from as int),
            !done ==> want == out@ + kept_records(
                data@.skip(pos as int),
                compaction@.record_number as int,
                keep_from as int,
            ),
            !done ==> kept_count(all, 0, keep_from as int) == compaction@.kept + kept_count(
                data@.skip(pos as int),
                compaction@.record_number as int,
                keep_from as int,
            ),
        decreases data@.len() - pos, (if done { 0int } else { 1int }),
    {
        let n: u32 = prefix_at(data, pos);
        let ghost here = data@.skip(pos as int);
        if ((data.len() - pos - 4) as u64) < n as u64 {
            done = true;
            assert(out@ + Seq::<u8>::empty() =~= out@);
        } else {
            let len: usize = n as usize;
            let ghost before = out@;
            let ghost number = compaction@.record_number as int;
            let ghost rest = kept_records(
                here.skip(4 + prefix_of(here)),
                number + 1,
                keep_from as int,
            );
            assert(here.skip(4 + prefix_of(here)) =~= data@.skip(pos + 4 + len));
            if compaction.record() {
                let record = vstd::slice::slice_subrange(data, pos, pos + 4 + len);
                out.extend_from_slice(record);
                assert(record@ =~= here.take(4 + prefix_of(here)));
                assert(out@ =~= before + record@);
                assert(before + (record@ + rest) =~= (before + record@) + rest);
            }
            pos = pos + 4 + len;
        }
    }
    if !done {
        assert(out@ + Seq::<u8>::empty() =~= out@);
    }
    (out, compaction.kept())
}

/// Compacting the log of changes gives the log of the changes from the offset on.
pub proof fn compaction_keeps_the_rest(changes: Seq<ChangeModel>, number: int, keep_from: int)
    requires
        forall|i: int|
            0 <= i < changes.len() ==> codec::change_bytes(#[trigger] changes[i]).len() < 0x1_0000_0000,
    ensures
        kept_records(records_bytes(changes), number, keep_from) == records_bytes(
            from_number(changes, number, keep_from),
        ),
        kept_count(records_bytes(changes), number, keep_from) == from_number(
            changes,
            number,
            keep_from,
        ).len(),
    decreases changes.len(),
{
    if changes.len() > 0 {
        let rest = changes.drop_first();
        assert forall|i: int| 0 <= i < rest.len() implies codec::change_bytes(#[trigger] rest[i]).len()
            < 0x1_0000_0000 by {
            assert(codec::change_bytes(changes[i + 1]).len() < 0x1_0000_0000);
        }
        lemma_record_front(changes[0], records_bytes(rest));
        compaction_keeps_the_rest(rest, number + 1, keep_from);
        let data = records_bytes(changes);
        assert(codec::change_bytes(changes[0]).len() < 0x1_0000_0000);
        assert(data.take(4 + prefix_of(data)) =~= record_bytes(changes[0]));
        let kept = from_number(changes, number, keep_from);
        if number >= keep_from {
            assert(kept =~= changes);
            assert(from_number(rest, number + 1, keep_from) =~= rest);
        } else {
            assert(kept =~= from_number(rest, number + 1, keep_from));
        }
    }
}

/// The header of a log: the letters `SDCL`, the version one in four bytes, lowest byte
/// first, and eight zero bytes.
pub proof fn log_starts_with_its_magic_and_version(header: Vec<u8>)
    requires
        call_ensures(write_header, (), header),
    ensures
        header@ == seq![83u8, 68, 67, 76, 1, 0, 0, 0, 0, 0, 0, 0, 0, 0, 0, 0],
{
    assert(header@ =~= seq![83u8, 68, 67, 76, 1, 0, 0, 0, 0, 0, 0, 0, 0, 0, 0, 0]);
}

/// A header is accepted if and only if it starts with the letters `SDCL` and has the
/// version one or an older one.
pub proof fn header_has_to_be_that_of_a_log(data: &[u8], r: Result<()>)
    requires
        call_ensures(check_header, (data,), r),
        data@.len() >= 16,
    ensures
        r is Ok <==> data@[0] == 83 && data@[1] == 68 && data@[2] == 67 && data@[3] == 76 && data@[4]
            + data@[5] * 0x100 + data@[6] * 0x1_0000 + data@[7] * 0x100_0000 <= 1,
        r is Err ==> r->Err_0 is Other,
{
    let head = data@.take(4);
    let version = data@.subrange(4, 8);
    assert(head[0] == data@[0] && head[1] == data@[1] && head[2] == data@[2] && head[3] == data@[3]);
    assert(version[0] == data@[4] && version[1] == data@[5] && version[2] == data@[6] && version[3]
        == data@[7]);
    if data@[0] == 83 && data@[1] == 68 && data@[2] == 67 && data@[3] == 76 {
        assert(head =~= LOG_MAGIC@);
    } else {
        assert(head != LOG_MAGIC@) by {
            assert(LOG_MAGIC@[0] == 83 && LOG_MAGIC@[1] == 68 && LOG_MAGIC@[2] == 67
                && LOG_MAGIC@[3] == 76);
        }
    }
}

/// A record is the length of the change's binary form in four bytes, lowest byte first, and
/// the binary form; records follow one another without a gap.
pub proof fn record_is_length_and_change(c: ChangeModel, rest: Seq<ChangeModel>)
    requires
        codec::change_bytes(c).len() < 0x1_0000_0000,
    ensures
        ({
            let r = record_bytes(c);
            let body = codec::change_bytes(c);
            &&& r.len() == 4 + body.len()
            &&& r[0] + r[1] * 0x100 + r[2] * 0x1_0000 + r[3] * 0x100_0000 == body.len()
            &&& forall|i: int| 0 <= i < body.len() ==> r[4 + i] == #[trigger] body[i]
        }),
        records_bytes(seq![c] + rest) == record_bytes(c) + records_bytes(rest),
        records_bytes(Seq::empty()).len() == 0,
{
    let n = codec::change_bytes(c).len() as u32;
    lemma_le_u32(n);
    assert(record_bytes(c) == le_u32_bytes(n) + codec::change_bytes(c));
    assert((seq![c] + rest).drop_first() =~= rest);
}

/// Reading the records of changes gives the changes from the offset on, in order and each
/// once, and none before it; more data that begins no record, or a length of zero, makes no
/// difference.
pub proof fn reading_starts_at_the_offset(
    data: &[u8],
    number: u64,
    offset: u64,
    r: Result<Vec<Change>>,
    changes: Seq<ChangeModel>,
    rest: Seq<u8>,
    i: int,
)
    requires
        call_ensures(read_changes, (data, number, offset), r),
        data@ == records_bytes(changes) + rest,
        all_storable(changes),
        rest.len() < 4 || le_u32(rest.take(4)) == 0,
    ensures
        r is Ok,
        ({
            let skipped = if offset <= number {
                0
            } else if offset - number < changes.len() {
                offset - number
            } else {
                changes.len() as int
            };
            &&& r->Ok_0@.len() == changes.len() - skipped
            &&& 0 <= i < r->Ok_0@.len() ==> r->Ok_0@[i]@ == changes[skipped + i]
        }),
{
    lemma_reading_with_rest(changes, rest, number as int, offset as int);
    reveal(prefix_of);
    let want = from_number(changes, number as int, offset as int);
    assert(read_outcome(rest, number + changes.len(), offset as int) == ReadOutcome::Changes(
        Seq::empty(),
    ));
    assert(want + Seq::<ChangeModel>::empty() =~= want);
    let views = change::changes_view(r->Ok_0@);
    assert(views == want);
    assert(views.len() == r->Ok_0@.len());
    if 0 <= i < views.len() {
        assert(views[i] == r->Ok_0@[i]@);
    }
}

/// A record that is cut off is an error, and no changes are given.
pub proof fn record_that_is_cut_off_is_an_error(
    data: &[u8],
    number: u64,
    offset: u64,
    r: Result<Vec<Change>>,
    changes: Seq<ChangeModel>,
    rest: Seq<u8>,
)
    requires
        call_ensures(read_changes, (data, number, offset), r),
        data@ == records_bytes(changes) + rest,
        all_storable(changes),
        rest.len() >= 4,
        le_u32(rest.take(4)) > 0,
        rest.len() < 4 + le_u32(rest.take(4)),
    ensures
        r is Err,
        r->Err_0 is Other,
        r->Err_0->Other_0@ == "read error: "@ + "failed to fill whole buffer"@,
{
    lemma_reading_with_rest(changes, rest, number as int, offset as int);
    reveal(prefix_of);
}

/// Reading records and more data is reading the records and then the data.
proof fn lemma_reading_with_rest(
    changes: Seq<ChangeModel>,
    rest: Seq<u8>,
    number: int,
    offset: int,
)
    requires
        all_storable(changes),
    ensures
        read_outcome(records_bytes(changes) + rest, number, offset) == read_after(
            from_number(changes, number, offset),
            read_outcome(rest, number + changes.len(), offset),
        ),
    decreases changes.len(),
{
    if changes.len() == 0 {
        assert(records_bytes(changes) + rest =~= rest);
        assert(from_number(changes, number, offset) =~= Seq::<ChangeModel>::empty());
        lemma_read_after_nothing(read_outcome(rest, number, offset));
    } else {
        let more = changes.drop_first();
        assert(storable(changes[0]));
        assert(all_storable(more)) by {
            assert forall|i: int| 0 <= i < more.len() implies storable(#[trigger] more[i]) by {
                assert(storable(changes[i + 1]));
            }
        }
        let tail = records_bytes(more) + rest;
        assert(records_bytes(changes) + rest =~= record_bytes(changes[0]) + tail);
        lemma_record_front(changes[0], tail);
        lemma_reading_with_rest(more, rest, number + 1, offset);
        let end = read_outcome(rest, number + changes.len(), offset);
        if number < offset {
            assert(from_number(changes, number, offset) =~= from_number(more, number + 1, offset));
        } else {
            assert(from_number(changes, number, offset) =~= seq![changes[0]] + from_number(
                more,
                number + 1,
                offset,
            ));
            lemma_read_after_twice(
                seq![changes[0]],
                from_number(more, number + 1, offset),
                end,
            );
        }
    }
}

/// Compacting a log leaves the log of the changes from the offset on, in order; the header
/// stays, and what is counted is what is left.
pub proof fn compacted_log_holds_the_later_changes(
    data: &[u8],
    keep_from: u64,
    r: (Vec<u8>, u64),
    changes: Seq<ChangeModel>,
)
    requires
        call_ensures(compact_log, (data, keep_from), r),
        data@ == log_of(changes),
        forall|i: int|
            0 <= i < changes.len() ==> codec::change_bytes(#[trigger] changes[i]).len() < 0x1_0000_0000,
    ensures
        keep_from >= changes.len() ==> r.0@ == log_of(Seq::empty()) && r.1 == 0,
        keep_from < changes.len() ==> r.0@ == log_of(changes.skip(keep_from as int)) && r.1
            == changes.len() - keep_from,
{
    assert(log_header().len() == 16);
    assert(data@.skip(HEADER_SIZE as int) =~= records_bytes(changes));
    compaction_keeps_the_rest(changes, 0, keep_from as int);
    assert(from_number(changes, 0, keep_from as int) =~= if keep_from < changes.len() {
        changes.skip(keep_from as int)
    } else {
        Seq::empty()
    });
}

/// The index of a log has an entry for every record whose number is a multiple of the
/// interval, and for no other.
pub proof fn every_so_many_records_are_indexed(
    data: Seq<u8>,
    position: int,
    number: int,
    interval: int,
    k: int,
)
    requires
        0 < interval,
        0 <= number,
        number + record_count(data) <= u64::MAX,
    ensures
        forall|i: int|
            0 <= i < index_of(data, position, number, interval).len() ==> {
                let entry = #[trigger] index_of(data, position, number, interval)[i];
                entry.offset as int % interval == 0 && number <= entry.offset < number
                    + record_count(data)
            },
        number <= k < number + record_count(data) && k % interval == 0 ==> exists|i: int|
            0 <= i < index_of(data, position, number, interval).len() && (#[trigger] index_of(
                data,
                position,
                number,
                interval,
            )[i]).offset == k,
    decreases data.len(),
{
    if !(data.len() < 4 || prefix_of(data) == 0 || prefix_of(data) > MAX_RECORD_SIZE) {
        let n = prefix_of(data);
        let rest = index_of(after_record(data), position + 4 + n, number + 1, interval);
        let all = index_of(data, position, number, interval);
        every_so_many_records_are_indexed(
            after_record(data),
            position + 4 + n,
            number + 1,
            interval,
            k,
        );
        let shift = all.len() - rest.len();
        assert forall|i: int| 0 <= i < all.len() implies ({
            let entry = #[trigger] all[i];
            entry.offset as int % interval == 0 && number <= entry.offset < number + record_count(data)
        }) by {
            if i >= shift {
                assert(all[i] == rest[i - shift]);
            }
        }
        if number <= k < number + record_count(data) && k % interval == 0 {
            if k == number {
                assert(all[0].offset == k);
            } else {
                let i = choose|i: int| 0 <= i < rest.len() && (#[trigger] rest[i]).offset == k;
                assert(all[i + shift] == rest[i]);
            }
        }
    }
}

/// A scan goes on over every record of up to sixteen megabytes, to the position behind it
/// and the next number, and ends at a length of zero or a greater one.
pub proof fn scan_goes_from_record_to_record(
    s: &mut IndexScan,
    prefix: [u8; 4],
    next: Option<u64>,
)
    requires
        call_ensures(IndexScan::record, (s, prefix), next),
        old(s)@.position + 4 + 16_777_216 <= u64::MAX,
        old(s)@.offset < u64::MAX,
        old(s)@.interval > 0,
    ensures
        ({
            let n = prefix[0] + prefix[1] * 0x100 + prefix[2] * 0x1_0000 + prefix[3] * 0x100_0000;
            &&& next is Some <==> 0 < n <= 16_777_216
            &&& next is Some ==> next->0 == old(s)@.position + 4 + n
            &&& next is Some ==> final(s)@.position == old(s)@.position + 4 + n
            &&& next is Some ==> final(s)@.offset == old(s)@.offset + 1
            &&& next is None ==> final(s)@ == old(s)@
            &&& next is Some && old(s)@.offset as int % old(s)@.interval as int == 0 ==> {
                &&& final(s)@.index.len() == old(s)@.index.len() + 1
                &&& final(s)@.index.last().offset == old(s)@.offset
                &&& final(s)@.index.last().position == old(s)@.position
                &&& final(s)@.index.last().length == n
            }
            &&& next is Some && old(s)@.offset as int % old(s)@.interval as int != 0 ==> final(s)@.index
                == old(s)@.index
        }),
{
}

}
