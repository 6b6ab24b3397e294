use bytes::Bytes;
use surrealdb_iroh::change::Change;
use surrealdb_iroh::Error;
use surrealdb_iroh::persist::log::{
    build_index, check_header, compact_log, number_of, read_changes, write_header, HEADER_SIZE,
};
use surrealdb_iroh::persist::store::{
    classify_temp_file, ChangeStore, FileChangeStore, MemoryChangeStore, PendingWrite,
    TempFileType,
};

/// A store on a file that is held in memory.
struct Opened {
    store: FileChangeStore,
    file: Vec<u8>,
}

impl Opened {
    fn new(mut file: Vec<u8>, threshold: usize) -> Opened {
        let (store, header) = FileChangeStore::open(&file, threshold).unwrap();
        file.extend_from_slice(&header);
        Opened { store, file }
    }

    fn write(&mut self, write: Option<PendingWrite>) {
        if let Some(w) = write {
            let position = self.file.len() as u64;
            self.file.extend_from_slice(w.to_append());
            self.store.commit(w, position);
        }
    }

    fn append(&mut self, change: &Change) -> u64 {
        let (offset, write) = self.store.append(change).unwrap();
        self.write(write);
        offset
    }

    fn flush(&mut self) {
        let write = self.store.flush().unwrap();
        self.write(write);
    }

    fn get_since(&self, offset: u64) -> Vec<Change> {
        let (position, number) = self.store.start(offset);
        read_changes(&self.file[position as usize..], number, offset).unwrap()
    }
}

fn numbered(i: u32) -> Change {
    let key_bytes = i.to_le_bytes().to_vec();
    let val_bytes = i.to_le_bytes().to_vec();
    Change::set("ns", "db", Bytes::from(key_bytes), Bytes::from(val_bytes))
}

#[test]
fn test_memory_store() {
    let mut store = MemoryChangeStore::new();

    let change = Change::set("ns", "db", Bytes::from("key"), Bytes::from("value"));
    let offset = store.append(&change).unwrap();

    assert_eq!(offset, 0);
    assert_eq!(store.tail_offset(), 1);

    let changes = store.get_since(0).unwrap();
    assert_eq!(changes.len(), 1);
}

#[test]
fn test_change_store_manager() {
    let mut store: Box<dyn ChangeStore> = Box::new(MemoryChangeStore::new());

    let change = Change::set("ns", "db", Bytes::from("key"), Bytes::from("value"));
    store.append(&change).unwrap();

    assert_eq!(store.tail_offset(), 1);

    store.flush().unwrap();
    store.close().unwrap();
}

#[test]
fn test_file_store_basic() {
    let mut store = Opened::new(Vec::new(), 10);

    let change = Change::set("ns", "db", Bytes::from("key"), Bytes::from("value"));
    let offset = store.append(&change);

    assert_eq!(offset, 0);
    store.flush();

    let changes = store.get_since(0);
    assert_eq!(changes.len(), 1);

    store.store.close().unwrap();
}

#[test]
fn test_file_store_multiple_changes() {
    let mut store = Opened::new(Vec::new(), 5);

    for i in 0..10 {
        let change = Change::set(
            "ns",
            "db",
            Bytes::from(format!("key{}", i)),
            Bytes::from(format!("value{}", i)),
        );
        store.append(&change);
    }

    assert_eq!(store.store.tail_offset(), 10);

    let changes = store.get_since(0);
    assert_eq!(changes.len(), 10);
}

#[test]
fn test_file_store_get_since() {
    let mut store = Opened::new(Vec::new(), 10);

    for i in 0..10u32 {
        store.append(&numbered(i));
    }
    store.flush();

    let changes = store.get_since(5);
    assert_eq!(changes.len(), 5);

    let changes = store.get_since(10);
    assert!(changes.is_empty());
}

#[test]
fn test_file_store_reopen() {
    let mut store1 = Opened::new(Vec::new(), 10);
    for i in 0..5u32 {
        store1.append(&numbered(i));
    }
    store1.flush();
    store1.store.close().unwrap();

    let store2 = Opened::new(store1.file, 10);
    assert_eq!(store2.store.tail_offset(), 5);

    let changes = store2.get_since(0);
    assert_eq!(changes.len(), 5, "should be able to read back 5 changes");
}

#[test]
fn test_file_store_flush_error_propagation() {
    let mut store = Opened::new(Vec::new(), 10);

    for i in 0..5u32 {
        store.append(&numbered(i));
    }

    store.store.release_file();

    let result = store.store.flush();
    assert!(result.is_ok(), "flush should handle None file gracefully");
    assert!(result.unwrap().is_none());

    store.store.close().unwrap();
}

#[test]
fn the_buffer_outlives_a_flush_without_a_file() {
    let mut store = Opened::new(Vec::new(), 10);
    for i in 0..5u32 {
        store.append(&numbered(i));
    }
    store.store.release_file();
    assert!(store.store.flush().unwrap().is_none());
    assert_eq!(store.store.buffered(), 5);
    assert_eq!(store.store.tail_offset(), 5);
    assert!(store.store.close().unwrap().is_none());
    assert_eq!(store.store.buffered(), 5);
}

#[test]
fn the_threshold_brings_changes_into_the_file() {
    let mut store = Opened::new(Vec::new(), 5);
    for i in 0..4u32 {
        store.append(&numbered(i));
        assert!(store.get_since(0).is_empty());
    }
    store.append(&numbered(4));
    assert_eq!(store.store.buffered(), 0);
    assert_eq!(store.get_since(0).len(), 5);
    store.append(&numbered(5));
    assert_eq!(store.store.buffered(), 1);
    assert_eq!(store.get_since(0).len(), 5);
    store.flush();
    assert_eq!(store.get_since(0).len(), 6);
}

#[test]
fn a_record_that_is_no_change_is_refused_with_the_reason() {
    let records = [3u8, 0, 0, 0, 1, 2, 3];
    let reason = bincode::deserialize::<u64>(&[1, 2, 3]).unwrap_err().to_string();
    match read_changes(&records, 0, 0) {
        Err(Error::Encoding(text)) => assert_eq!(text, reason),
        _ => panic!("the record is no change"),
    }
    assert!(read_changes(&records, 0, 1).unwrap().is_empty());
}

#[test]
fn closing_hands_out_what_is_buffered() {
    let mut store = Opened::new(Vec::new(), 10);
    for i in 0..3u32 {
        store.append(&numbered(i));
    }
    let position = store.file.len() as u64;
    let write = store.store.close().unwrap().unwrap();
    store.file.extend_from_slice(write.to_append());
    store.store.commit(write, position);
    store.store.release_file();
    assert_eq!(store.store.buffered(), 0);
    assert_eq!(Opened::new(store.file, 10).get_since(0).len(), 3);
}

#[test]
fn a_record_length_has_its_lowest_byte_first() {
    assert_eq!(number_of([1, 2, 0, 0]), 513);
    assert_eq!(number_of([0, 0, 0, 1]), 0x100_0000);
}

#[test]
fn test_crash_recovery_temp_files() {
    assert!(matches!(classify_temp_file("changes", "tmp"), Some(TempFileType::Flush)));
    assert!(matches!(
        classify_temp_file("changes.compacting", "tmp"),
        Some(TempFileType::Compacting)
    ));
    assert!(classify_temp_file("changes", "log").is_none());
}

#[test]
fn test_recovery_preserves_main_log() {
    let mut store = Opened::new(Vec::new(), 10);
    for i in 0..5u32 {
        store.append(&numbered(i));
    }
    store.flush();
    store.store.close().unwrap();

    let store = Opened::new(store.file, 10);
    let changes = store.get_since(0);
    assert_eq!(changes.len(), 5, "existing data should be preserved");
}

#[test]
fn a_log_starts_with_its_header() {
    let header = write_header();
    assert_eq!(header.len(), HEADER_SIZE);
    assert_eq!(&header[..8], &[b'S', b'D', b'C', b'L', 1, 0, 0, 0]);
    assert!(check_header(&header).is_ok());
    let mut other = header.clone();
    other[0] = b'X';
    assert!(check_header(&other).is_err());
    let mut newer = header.clone();
    newer[4] = 2;
    assert!(check_header(&newer).is_err());
}

#[test]
fn reading_gives_back_what_was_written() {
    let mut store = Opened::new(Vec::new(), 2);
    let changes: Vec<Change> = (0..7).map(numbered).collect();
    for (i, c) in changes.iter().enumerate() {
        assert_eq!(store.append(c), i as u64);
    }
    store.flush();
    for from in 0..8usize {
        let read = store.get_since(from as u64);
        let ids: Vec<[u8; 16]> = read.iter().map(|c| c.id).collect();
        let want: Vec<[u8; 16]> = changes[from.min(7)..].iter().map(|c| c.id).collect();
        assert_eq!(ids, want);
    }
}

#[test]
fn a_record_that_ends_early_is_an_error() {
    let mut store = Opened::new(Vec::new(), 1);
    store.append(&numbered(1));
    store.file.pop();
    let e = read_changes(&store.file[HEADER_SIZE..], 0, 0).err().unwrap();
    assert!(e.message().contains("failed to fill whole buffer"));
    let e = read_changes(&[3, 0, 0, 0, 9, 9, 9], 0, 0).err().unwrap();
    assert!(matches!(e, surrealdb_iroh::Error::Encoding(_)));
}

#[test]
fn compaction_drops_the_oldest_records() {
    let mut store = Opened::new(Vec::new(), 1);
    let changes: Vec<Change> = (0..6).map(numbered).collect();
    for c in &changes {
        store.append(c);
    }
    let (log, kept) = compact_log(&store.file, 4);
    assert_eq!(kept, 2);
    store.store.compacted(kept);
    store.file = log;
    assert_eq!(store.store.tail_offset(), 2);
    let left = store.get_since(0);
    assert_eq!(left.len(), 2);
    assert_eq!(left[0].id, changes[4].id);
    assert_eq!(left[1].id, changes[5].id);
}

#[test]
fn the_index_has_an_entry_per_interval() {
    let mut store = Opened::new(Vec::new(), 1);
    for i in 0..5 {
        store.append(&numbered(i));
    }
    let scan = build_index(&store.file, 2);
    let reopened = FileChangeStore::new(scan, 1);
    assert_eq!(reopened.tail_offset(), 5);
    let (position, number) = reopened.start(4);
    assert_eq!(number, 4);
    let read = read_changes(&store.file[position as usize..], number, 4).unwrap();
    assert_eq!(read.len(), 1);
    assert_eq!(reopened.start(0), (HEADER_SIZE as u64, 0));
}

#[test]
fn files_that_are_no_log_are_not_opened() {
    let e = FileChangeStore::open(&[0u8; 20], 1).err().unwrap();
    assert!(e.message().contains("failed to initialize log"));
}

#[test]
fn a_memory_store_starts_anywhere() {
    let mut store = MemoryChangeStore::new();
    for i in 0..4 {
        store.append(&numbered(i)).unwrap();
    }
    assert_eq!(store.get_since(3).unwrap().len(), 1);
    assert!(store.get_since(4).unwrap().is_empty());
    assert!(store.get_since(9).unwrap().is_empty());
}
