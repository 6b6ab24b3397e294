use bytes::Bytes;
use std::collections::hash_map::DefaultHasher;
use std::hash::Hasher;
use surrealdb_iroh::change::Change;
use surrealdb_iroh::snapshot::{
    split_chunks, SnapshotChunk, SnapshotConfig, SnapshotError, SnapshotExporter,
    SnapshotImporter, SnapshotSerializer,
};

#[test]
fn test_snapshot_config() {
    let config = SnapshotConfig::default();
    assert!(config.compress);
}

#[test]
fn test_snapshot_serializer() {
    let mut serializer = SnapshotSerializer::new(SnapshotConfig::default());
    let change = Change::set("ns", "db", Bytes::from("key"), Bytes::from("value"));
    serializer.add_change(change);
    assert_eq!(serializer.pending_count(), 1);

    let snapshot = serializer.build_snapshot();
    assert_eq!(snapshot.namespaces.len(), 1);
    assert!(snapshot.validate());
}

#[test]
fn test_snapshot_export_import() {
    let mut exporter = SnapshotExporter::new(SnapshotConfig::default());
    exporter.add_change(Change::set("ns", "db", Bytes::from("key"), Bytes::from("value")));

    let chunks = exporter.export().unwrap();
    assert!(!chunks.is_empty());

    let mut importer = SnapshotImporter::new();
    for chunk in chunks {
        importer.import_chunk(chunk).unwrap();
    }

    assert!(importer.is_complete());
    let snapshot = importer.finalize().unwrap();
    assert_eq!(snapshot.namespaces.len(), 1);
}

#[test]
fn changes_are_grouped_by_namespace_and_database() {
    let mut serializer = SnapshotSerializer::new(SnapshotConfig::default());
    for (ns, db, key) in [("a", "x", "1"), ("b", "x", "2"), ("a", "y", "3"), ("a", "x", "4")] {
        serializer.add_change(Change::set(ns, db, Bytes::from(key), Bytes::from("v")));
    }
    let s = serializer.build_snapshot();
    assert_eq!(s.total_entries(), 4);
    assert_eq!(s.namespaces.len(), 2);
    let a = s.namespaces.iter().find(|n| n.name == "a").unwrap();
    assert_eq!(a.databases.len(), 2);
    let ax = a.databases.iter().find(|d| d.name == "x").unwrap();
    assert_eq!(ax.entries.len(), 2);
    assert_eq!(ax.entries[0].key, Some(Bytes::from("1")));
    assert_eq!(ax.entries[1].key, Some(Bytes::from("4")));
    assert_eq!(serializer.pending_count(), 0);
}

#[test]
fn a_snapshot_that_was_tampered_with_is_not_valid() {
    let mut serializer = SnapshotSerializer::new(SnapshotConfig::default());
    serializer.add_change(Change::set("ns", "db", Bytes::from("k"), Bytes::from("v")));
    let mut s = serializer.build_snapshot();
    assert!(s.validate());
    s.namespaces[0].databases[0].entries.clear();
    assert!(!s.validate());
}

#[test]
fn chunks_come_back_in_any_order() {
    let config = SnapshotConfig::new().with_compress(false).with_chunk_size(16);
    let mut exporter = SnapshotExporter::new(config);
    for i in 0..20 {
        exporter.add_change(Change::set(
            "ns",
            "db",
            Bytes::from(format!("key{i}")),
            Bytes::from(vec![i; 10]),
        ));
    }
    let mut chunks = exporter.export().unwrap();
    assert!(chunks.len() > 5);
    chunks.reverse();
    let mut importer = SnapshotImporter::new();
    for chunk in chunks {
        importer.import_chunk(chunk).unwrap();
    }
    let s = importer.finalize().unwrap();
    assert_eq!(s.total_entries(), 20);
    assert_eq!(s.namespaces[0].databases[0].entries[3].value, Some(Bytes::from(vec![3; 10])));
}

#[test]
fn chunks_are_numbered() {
    let chunks = split_chunks(&Bytes::from(vec![1u8; 10]), 4);
    let seen: Vec<(u64, u64, usize, bool)> =
        chunks.iter().map(|c| (c.sequence, c.total, c.data.len(), c.is_last)).collect();
    assert_eq!(seen, [(0, 3, 4, false), (1, 3, 4, false), (2, 3, 2, true)]);
}

#[test]
fn what_is_no_snapshot_is_refused() {
    let serializer = SnapshotSerializer::new(SnapshotConfig::default());
    let e = serializer.deserialize(b"xx").err().unwrap();
    assert!(matches!(e, SnapshotError::InvalidData(_)));
    let importer = SnapshotImporter::new();
    assert!(importer.finalize().is_err());
}

#[test]
fn missing_chunks_are_noticed() {
    let mut importer = SnapshotImporter::new();
    importer.import_chunk(SnapshotChunk::new(1, 3, Bytes::from("x"), false)).unwrap();
    assert!(!importer.is_complete());
    let e = importer.finalize().err().unwrap();
    assert!(matches!(e, SnapshotError::UnexpectedEof(_)));
    importer.reset();
    assert!(importer.finalize().is_err());
}

#[test]
fn export_into_one_buffer() {
    let mut exporter = SnapshotExporter::new(SnapshotConfig::default());
    exporter.add_change(Change::set("ns", "db", Bytes::from("key"), Bytes::from("value")));
    let data = exporter.export_buffer().unwrap();
    let s = SnapshotSerializer::new(SnapshotConfig::default()).deserialize(&data).unwrap();
    assert!(s.validate());
    assert_eq!(s.namespaces[0].databases[0].entries[0].value, Some(Bytes::from("value")));
}

#[test]
fn names_occur_once_and_copies_are_valid() {
    let mut serializer = SnapshotSerializer::new(SnapshotConfig::default());
    for (ns, db) in [("a", "x"), ("b", "x"), ("a", "y"), ("a", "x"), ("b", "x")] {
        serializer.add_change(Change::set(ns, db, Bytes::from("k"), Bytes::from("v")));
    }
    let snapshot = serializer.build_snapshot().clone();
    assert!(snapshot.validate());
    let names: Vec<&str> = snapshot.namespaces.iter().map(|n| n.name.as_str()).collect();
    assert_eq!(names, ["a", "b"]);
    let names: Vec<&str> =
        snapshot.namespaces[0].databases.iter().map(|d| d.name.as_str()).collect();
    assert_eq!(names, ["x", "y"]);
    assert_eq!(snapshot.namespaces[0].databases[0].entries.len(), 2);
}

#[test]
fn a_missing_chunk_at_the_end_is_found_when_the_snapshot_is_read() {
    let mut importer = SnapshotImporter::new();
    importer.import_chunk(SnapshotChunk::new(0, 3, Bytes::from("abc"), false)).unwrap();
    assert!(importer.is_complete());
    assert!(matches!(importer.finalize(), Err(SnapshotError::InvalidData(_))));
}

#[test]
fn what_is_no_snapshot_is_refused_with_the_reason() {
    let reason = bincode::deserialize::<(u32, u64)>(&[1, 2, 3]).unwrap_err().to_string();
    let serializer = SnapshotSerializer::new(SnapshotConfig::default());
    let e = serializer.deserialize(&[1, 2, 3]).err().unwrap();
    assert!(matches!(e, SnapshotError::InvalidData(_)));
    assert_eq!(e.message(), reason);
    let mut importer = SnapshotImporter::new();
    importer.import_chunk(SnapshotChunk::new(0, 1, Bytes::from(vec![1, 2, 3]), true)).unwrap();
    assert_eq!(importer.finalize().err().unwrap().message(), reason);
}

#[test]
fn a_chunk_past_the_last_is_refused_whatever_its_number() {
    let mut importer = SnapshotImporter::new();
    importer.import_chunk(SnapshotChunk::new(0, 2, Bytes::from("a"), false)).unwrap();
    for number in [2, u64::MAX] {
        let chunk = SnapshotChunk::new(number, 2, Bytes::from("b"), true);
        let e = importer.import_chunk(chunk).err().unwrap();
        assert!(matches!(e, SnapshotError::InvalidInput(_)));
        assert_eq!(e.message(), "invalid chunk");
    }
}

#[test]
fn the_checksum_hashes_counts_as_words() {
    let mut serializer = SnapshotSerializer::new(SnapshotConfig::default());
    serializer.add_change(Change::set("ns", "db", Bytes::from("k"), Bytes::from("v")));
    let mut hasher = DefaultHasher::new();
    hasher.write(b"ns");
    hasher.write(b"db");
    hasher.write_usize(1);
    assert_eq!(serializer.build_snapshot().checksum, hasher.finish());
}
