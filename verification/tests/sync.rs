use bytes::Bytes;
use surrealdb_iroh::change::Change;
use surrealdb_iroh::common::{base64_url_decode, base64_url_encode};
use surrealdb_iroh::peer::EndpointId;
use surrealdb_iroh::sync::{SyncManager, SyncSnapshot, SyncState};
use surrealdb_iroh::Error;

fn test_endpoint_id() -> EndpointId {
    EndpointId::from_bytes(iroh::SecretKey::generate().public().as_bytes()).unwrap()
}

fn numbered(id: u64) -> Change {
    let mut c = Change::query("ns", "db", None);
    c.id = [0; 16];
    c.id[..8].copy_from_slice(&id.to_le_bytes());
    c
}

#[test]
fn test_change_tracking() {
    let mut manager = SyncManager::new(100);

    let change1 = Change::set("ns", "db", Bytes::from("key1"), Bytes::from("val1"));
    let change2 = Change::set("ns", "db", Bytes::from("key2"), Bytes::from("val2"));

    let offset1 = manager.record_change(change1);
    let offset2 = manager.record_change(change2);

    assert_eq!(offset1, 0);
    assert_eq!(offset2, 1);
    assert_eq!(manager.offset(), 2);

    let changes = manager.get_changes_since(0);
    assert_eq!(changes.len(), 2);

    let changes = manager.get_changes_since(1);
    assert_eq!(changes.len(), 1);

    let changes = manager.get_changes_since(2);
    assert!(changes.is_empty());
}

#[test]
fn test_change_trimming() {
    let mut manager = SyncManager::new(3);

    for i in 0..5 {
        let change = Change::set("ns", "db", Bytes::from(format!("key{i}")), Bytes::from("val"));
        manager.record_change(change);
    }

    let changes = manager.get_changes_since(0);
    assert_eq!(changes.len(), 3);
}

#[test]
fn test_restore_with_valid_snapshot() {
    let mut manager = SyncManager::new(100);

    for i in 0..5 {
        let change = Change::set("ns", "db", Bytes::from(format!("key{i}")), Bytes::from("val"));
        manager.record_change(change);
    }

    let snapshot = manager.snapshot();
    assert_eq!(snapshot.offset, 5);

    let mut manager2 = SyncManager::new(100);
    manager2.restore(snapshot.clone());

    let changes = manager2.get_changes_since(0);
    assert_eq!(changes.len(), 5);
}

#[test]
fn test_restore_with_empty_snapshot() {
    let manager = SyncManager::new(100);

    let snapshot = manager.snapshot();
    assert_eq!(snapshot.offset, 0);
    assert!(snapshot.changes.is_empty());
}

#[test]
fn test_snapshot_and_restore_preserves_peer_state() {
    let mut manager = SyncManager::new(100);

    for i in 0..3 {
        let change = Change::set("ns", "db", Bytes::from(format!("key{i}")), Bytes::from("val"));
        manager.record_change(change);
    }

    let peer_id = test_endpoint_id();
    manager.update_peer_state(&peer_id, SyncState::Syncing);

    let snapshot = manager.snapshot();

    let mut manager2 = SyncManager::new(100);
    manager2.restore(snapshot);

    let states = manager2.get_peer_states();
    assert_eq!(states.len(), 1);
    assert_eq!(states[0].peer_id, peer_id);
}

#[test]
fn test_peer_state_encoding_roundtrip() {
    let peer_id = test_endpoint_id();

    let encoded = base64_url_encode(peer_id.as_bytes());

    let decoded = base64_url_decode(&encoded);
    assert!(decoded.is_ok());
    let decoded_bytes = decoded.unwrap();
    assert_eq!(decoded_bytes.as_slice(), peer_id.as_bytes());
}

#[test]
fn test_invalid_base64_in_restore() {
    let mut manager = SyncManager::new(100);

    let snapshot = SyncSnapshot {
        offset: 5,
        changes: vec![],
        peers: vec![("not-valid-base64!!!".to_string(), 0)],
    };

    let skipped = manager.restore(snapshot);
    assert_eq!(skipped, 1);

    let change = Change::set("ns", "db", Bytes::from("key"), Bytes::from("val"));
    let _ = manager.record_change(change);
}

#[test]
fn the_default_manager_keeps_ten_thousand_changes() {
    let mut manager = SyncManager::default();
    for i in 0..10_001u64 {
        manager.record_change(numbered(i));
    }
    let kept = manager.get_changes_since(0);
    assert_eq!(kept.len(), 10_000);
    assert_eq!(kept[0].id, numbered(1).id);
    assert_eq!(manager.offset(), 10_001);
}

#[test]
fn changes_since_an_offset_are_the_ones_recorded_after_it() {
    let mut manager = SyncManager::new(4);
    for i in 0..6u64 {
        manager.record_change(numbered(i));
    }
    let ids: Vec<[u8; 16]> = manager.get_changes_since(4).iter().map(|c| c.id).collect();
    assert_eq!(ids, vec![numbered(4).id, numbered(5).id]);
    assert!(manager.get_changes_since(99).is_empty());
}

#[test]
fn a_log_of_no_changes_keeps_none() {
    let mut manager = SyncManager::new(0);
    assert_eq!(manager.record_change(numbered(1)), 0);
    assert_eq!(manager.offset(), 1);
    assert!(manager.get_changes_since(0).is_empty());
}

#[test]
fn applied_changes_raise_the_offset() {
    let mut manager = SyncManager::new(10);
    manager.record_change(numbered(0));
    let r = manager.apply_changes(vec![numbered(7), numbered(3)]).unwrap();
    assert_eq!(r, 3);
    assert_eq!(manager.offset(), 7);
    assert_eq!(manager.get_changes_since(0).len(), 1);
    let r = manager.apply_changes(vec![numbered(2)]).unwrap();
    assert_eq!(r, 8);
    assert_eq!(manager.offset(), 7);
}

#[test]
fn a_peer_has_the_state_that_was_set_last() {
    let mut manager = SyncManager::new(10);
    let a = test_endpoint_id();
    let b = test_endpoint_id();
    manager.update_peer_state(&a, SyncState::Connecting);
    manager.update_peer_state(&b, SyncState::Syncing);
    manager.update_peer_state(&a, SyncState::Synchronized);
    let states = manager.get_peer_states();
    assert_eq!(states.len(), 2);
    assert_eq!(states[0].peer_id, a);
    assert!(matches!(states[0].state, SyncState::Synchronized));
    assert_eq!(states[1].peer_id, b);
    assert!(matches!(states[1].state, SyncState::Syncing));
}

#[test]
fn restoring_keeps_the_offsets_of_peers() {
    let peer = test_endpoint_id();
    let key = base64_url_encode(peer.as_bytes());
    let mut manager = SyncManager::new(10);
    let skipped = manager.restore(SyncSnapshot {
        offset: 9,
        changes: vec![numbered(1)],
        peers: vec![(key, 42), ("AAAA".to_string(), 1)],
    });
    assert_eq!(skipped, 1);
    assert_eq!(manager.offset(), 9);
    let states = manager.get_peer_states();
    assert_eq!(states.len(), 1);
    assert_eq!(states[0].last_offset, 42);
    assert!(matches!(states[0].state, SyncState::Disconnected));
}

#[test]
fn identifiers_in_text() {
    let peer = test_endpoint_id();
    let hex = peer.to_hex();
    assert_eq!(hex.len(), 64);
    let mut want = String::new();
    for b in peer.as_bytes() {
        want.push_str(&format!("{:02x}", b));
    }
    assert_eq!(hex, want);
    let back = EndpointId::from_base64(&base64_url_encode(peer.as_bytes())).unwrap();
    assert!(back.same_as(&peer));
    assert!(!test_endpoint_id().same_as(&peer));
}

#[test]
fn texts_that_name_no_endpoint() {
    let e = EndpointId::from_base64("!").err().unwrap();
    assert!(matches!(&e, Error::Encoding(s) if s == "base64 decode failed: invalid base64 character"));
    let e = EndpointId::from_base64("Zm9v").err().unwrap();
    assert_eq!(
        e.message(),
        "encoding error: invalid peer ID length: expected 32, got 3"
    );
    let mut bad = [0xffu8; 32];
    bad[31] = 0x7f;
    let mut refused = 0;
    for i in 0..=255u8 {
        bad[0] = i;
        if EndpointId::from_bytes(&bad).is_err() {
            refused += 1;
        }
    }
    assert!(refused > 0);
}

#[test]
fn different_identifiers_have_different_texts() {
    let a = test_endpoint_id();
    let b = test_endpoint_id();
    assert_ne!(a.to_hex(), b.to_hex());
    assert_ne!(base64_url_encode(a.as_bytes()), base64_url_encode(b.as_bytes()));
}

#[test]
fn the_number_of_kept_changes() {
    let mut manager = SyncManager::new(2);
    assert_eq!(manager.pending_count(), 0);
    for i in 0..3 {
        manager.record_change(numbered(i));
    }
    assert_eq!(manager.pending_count(), 2);
}

#[test]
fn bytes_that_are_no_key_are_refused_with_the_reason() {
    let mut refused = 0;
    for i in 0..64u8 {
        let bytes = [i; 32];
        let text = "failed to create endpoint ID: data is not a valid public key";
        match (EndpointId::from_bytes(&bytes), iroh::EndpointId::from_bytes(&bytes)) {
            (Ok(id), Ok(_)) => assert_eq!(id.as_bytes(), &bytes),
            (Err(Error::Encoding(e)), Err(_)) => {
                assert_eq!(e, text);
                match EndpointId::from_base64(&base64_url_encode(&bytes)) {
                    Err(Error::Encoding(e)) => assert_eq!(e, text),
                    _ => panic!("the text names no endpoint"),
                }
                refused += 1;
            }
            _ => panic!("both accept a key or refuse it"),
        }
    }
    assert!(refused > 0);
}
