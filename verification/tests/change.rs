use bytes::Bytes;
use std::collections::HashSet;
use surrealdb_iroh::change::{Change, ChangeBatch, ChangeOperation};
use surrealdb_iroh::codec::{decode_change, encode_change};
use surrealdb_iroh::Error;

#[test]
fn change_test_change_batch() {
    let batch = ChangeBatch::new(
        0,
        vec![
            Change::set("ns", "db", Bytes::from("key1"), Bytes::from("value1")),
            Change::set("ns", "db", Bytes::from("key2"), Bytes::from("value2")),
        ],
    );
    assert_eq!(batch.len(), 2);
}

#[test]
fn test_batch_len_consistency() {
    let batch = ChangeBatch::new(0, vec![]);
    assert_eq!(batch.is_empty(), batch.len() == 0);
    assert_eq!(!batch.is_empty(), batch.len() > 0);
}

#[test]
fn test_batch_clone_preserves_data() {
    for offset in [0u64, 1, 17, 4096, u64::MAX] {
        for is_final in [false, true] {
            for len in [0usize, 1, 2, 50, 100, usize::MAX] {
                let changes: Vec<Change> = (0..len.min(100))
                    .map(|_| Change::query("namespace", "database", None))
                    .collect();
                let mut batch = ChangeBatch::new(offset, changes);
                batch.is_final = is_final;
                let cloned = batch.clone();
                assert_eq!(cloned.offset, batch.offset);
                assert_eq!(cloned.is_final, batch.is_final);
                assert_eq!(cloned.changes.len(), batch.changes.len());
            }
        }
    }
}

#[test]
fn test_batch_offset_preserved() {
    for offset in [0u64, 1, 2, 99, 1 << 32, u64::MAX - 1, u64::MAX] {
        let batch = ChangeBatch::new(offset, vec![]);
        assert_eq!(batch.offset, offset);
    }
}

#[test]
fn test_change_ids_are_unique() {
    let mut ids = HashSet::new();
    for _ in 0..100 {
        let c = Change::query("ns", "db", None);
        assert!(ids.insert(c.id), "Change IDs should be unique");
    }
}

#[test]
fn test_change_creation() {
    let change = Change::set("ns", "db", Bytes::from("key"), Bytes::from("value"));
    assert_eq!(change.namespace, "ns");
    assert_eq!(change.database, "db");
}

#[test]
fn test_change_deletion() {
    let change = Change::delete("ns", "db", Bytes::from("key"));
    assert_eq!(change.namespace, "ns");
    assert_eq!(change.database, "db");
    assert!(change.value.is_none());
}

#[test]
fn test_multi_namespace_db() {
    let namespaces = vec!["ns1", "ns2", "ns3"];
    let databases = vec!["db1", "db2"];

    let mut total_changes = 0;
    for ns in &namespaces {
        for db in &databases {
            let change = Change::set(ns, db, Bytes::from("key"), Bytes::from("value"));
            total_changes += 1;
            assert_eq!(change.namespace, *ns);
            assert_eq!(change.database, *db);
        }
    }

    assert_eq!(total_changes, 6);
}

#[test]
fn test_empty_key_value() {
    let change = Change::set("ns", "db", Bytes::new(), Bytes::new());
    assert!(change.key.as_ref().map(|k| k.is_empty()).unwrap_or(true));
    assert!(change.value.as_ref().map(|v| v.is_empty()).unwrap_or(true));
}

#[test]
fn test_large_value() {
    let large_value = Bytes::from(vec![0u8; 100 * 1024]);

    let change = Change::set("ns", "db", Bytes::from("large-key"), large_value);
    assert_eq!(
        change.value.as_ref().map(|v| v.len()).unwrap_or(0),
        100 * 1024
    );
}

#[test]
fn new_changes_have_random_identifiers_and_a_time() {
    let c = Change::query("ns", "db", Some("person".to_string()));
    assert_eq!(c.id[6] >> 4, 4);
    assert_eq!(c.id[8] >> 6, 2);
    assert!(c.timestamp > 0);
    assert_eq!(c.table.as_deref(), Some("person"));
    assert!(matches!(c.operation, ChangeOperation::Query));
    assert!(c.key.is_none());
    assert!(c.metadata.is_empty());
}

#[test]
fn batches_are_final_when_told_so() {
    let batch = ChangeBatch::new(3, vec![]);
    assert!(!batch.is_final);
    assert!(batch.with_final().is_final);
}

#[test]
fn changes_survive_their_binary_form() {
    let mut c = Change::set("ns", "db", Bytes::from("key"), Bytes::from("value"));
    c.table = Some("t".to_string());
    c.metadata = vec![("a".to_string(), "1".to_string()), ("b".to_string(), "2".to_string())];
    let bytes = encode_change(&c).unwrap();
    assert_ne!(bytes, b"value".to_vec());
    let d = decode_change(&bytes).unwrap();
    assert_eq!(d.id, c.id);
    assert_eq!(d.timestamp, c.timestamp);
    assert_eq!(d.namespace, "ns");
    assert_eq!(d.database, "db");
    assert_eq!(d.table.as_deref(), Some("t"));
    assert!(matches!(d.operation, ChangeOperation::SetValue));
    assert_eq!(d.key, Some(Bytes::from("key")));
    assert_eq!(d.value, Some(Bytes::from("value")));
    let mut metadata = d.metadata.clone();
    metadata.sort();
    assert_eq!(metadata, c.metadata);
}

#[test]
fn every_operation_survives_its_binary_form() {
    let operations = [
        ChangeOperation::Query,
        ChangeOperation::SetValue,
        ChangeOperation::Delete,
        ChangeOperation::Commit,
        ChangeOperation::Schema,
        ChangeOperation::Auth,
        ChangeOperation::LiveNotify,
    ];
    for op in operations {
        let mut c = Change::query("n", "d", None);
        c.operation = op;
        let d = decode_change(&encode_change(&c).unwrap()).unwrap();
        assert_eq!(format!("{:?}", d.operation), format!("{:?}", c.operation));
    }
}

#[test]
fn what_is_no_change_is_refused() {
    let e = decode_change(&[1, 2, 3]).err().unwrap();
    assert!(matches!(e, surrealdb_iroh::Error::Encoding(_)));
    let mut bytes = encode_change(&Change::query("n", "d", None)).unwrap();
    bytes.truncate(bytes.len() - 1);
    assert!(decode_change(&bytes).is_err());
}

#[test]
fn what_is_no_change_is_refused_with_the_reason() {
    let reason = |data: &[u8]| match decode_change(data) {
        Err(Error::Encoding(text)) => text,
        _ => panic!("the data is no change"),
    };
    let mut bytes = encode_change(&Change::query("n", "d", None)).unwrap();
    let early = bincode::deserialize::<(uuid::Uuid, u64)>(&bytes[..27]).unwrap_err().to_string();
    assert_eq!(reason(&bytes[..27]), early);
    let late = bincode::deserialize::<u64>(&[0, 0]).unwrap_err().to_string();
    assert_eq!(reason(&bytes[..57]), late);
    let unknown = "invalid value: integer `258`, expected variant index 0 <= i < 7";
    bytes[51] = 2;
    bytes[52] = 1;
    assert_eq!(reason(&bytes), unknown);
    assert_eq!(reason(&bytes[..57]), unknown);
}
