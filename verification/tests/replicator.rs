use bytes::Bytes;
use std::time::Duration;
use surrealdb_iroh::change::{Change, ChangeOperation};
use surrealdb_iroh::config::ReplicatorConfig;
use surrealdb_iroh::hook::{db_change, LoggingStorageHook, NoOpStorageHook, StorageHook};
use surrealdb_iroh::peer::EndpointId;
use surrealdb_iroh::replicator::{
    sync_targets, ConnectStep, LoopAction, LoopEvent, Replicator, ShutdownStep, MAX_CHANGES,
};
use surrealdb_iroh::sync::{SyncManager, SyncState};
use surrealdb_iroh::Error;

fn test_endpoint_id() -> EndpointId {
    EndpointId::from_bytes(iroh::SecretKey::generate().public().as_bytes()).unwrap()
}

#[test]
fn test_replicator_create() {
    let config = ReplicatorConfig::default();
    let replicator = Replicator::<(), ()>::new(config);
    assert!(replicator.is_ok());
}

#[test]
fn test_record_change() {
    let mut manager = SyncManager::new(MAX_CHANGES);
    let change = Change::set("ns", "db", Bytes::from("key"), Bytes::from("value"));
    manager.record_change(change);
    assert_eq!(manager.offset(), 1);
}

#[test]
fn test_storage_hook_trait() {
    struct TestHook;

    impl StorageHook for TestHook {
        fn on_change(&self, _change: Change) {}
        fn on_sync_request(&self, _peer_id: &EndpointId) {}
        fn on_sync_complete(&self, _peer_id: &EndpointId, _changes_applied: usize) {}
    }

    let _hook = TestHook;
}

#[test]
fn hooks_know_what_they_are_for() {
    let hook = LoggingStorageHook::new("ns", "db");
    assert_eq!(hook.namespace(), "ns");
    assert_eq!(hook.database(), "db");
    let nothing = NoOpStorageHook;
    nothing.on_change(Change::query("ns", "db", None));
    nothing.on_sync_request(&test_endpoint_id());
    nothing.on_sync_complete(&test_endpoint_id(), 3);
}

#[test]
fn writes_become_changes() {
    let set = db_change("ns", "db", Bytes::from("k"), Some(Bytes::from("v")));
    assert!(matches!(set.operation, ChangeOperation::SetValue));
    assert_eq!(set.value, Some(Bytes::from("v")));
    let gone = db_change("ns", "db", Bytes::from("k"), None);
    assert!(matches!(gone.operation, ChangeOperation::Delete));
    assert_eq!(gone.key, Some(Bytes::from("k")));
    assert!(gone.value.is_none());
}

#[test]
fn configurations_are_built_up() {
    let c = ReplicatorConfig::new();
    assert!(!c.enable_dht && c.enable_dns && c.enable_mdns && c.enable_pkarr_publish);
    assert_eq!(c.sync_interval, Duration::from_secs(30));
    assert_eq!(c.max_peers, 10);
    let c = c
        .with_dht(true)
        .with_dns(false)
        .with_mdns(false)
        .with_pkarr(false)
        .with_sync_interval(Duration::from_secs(60))
        .with_max_peers(5)
        .with_bind_addr("0.0.0.0:1".to_string())
        .with_external_addr("1.2.3.4:5".to_string())
        .with_relay_server("https://one".to_string())
        .with_relay_server("https://two".to_string());
    assert!(c.enable_dht && !c.enable_dns && !c.enable_mdns && !c.enable_pkarr_publish);
    assert_eq!(c.sync_interval, Duration::from_secs(60));
    assert_eq!(c.max_peers, 5);
    assert_eq!(c.bind_addr.as_deref(), Some("0.0.0.0:1"));
    assert_eq!(c.external_addr.as_deref(), Some("1.2.3.4:5"));
    assert_eq!(c.relay_servers, ["https://one", "https://two"]);
}

#[test]
fn a_replicator_starts_once() {
    let mut r: Replicator<&str, u16> = Replicator::new(ReplicatorConfig::new()).unwrap();
    let id = test_endpoint_id();
    assert!(matches!(r.shutdown(), ShutdownStep::NotRunning));
    assert!(r.ticket_id().is_err());
    r.begin_start().unwrap();
    r.started(id, "socket").unwrap();
    let e = r.begin_start().err().unwrap();
    assert!(matches!(e, Error::Other(s) if s == "replicator already started"));
    assert_eq!(r.endpoint_id(), Some(id));
    assert_eq!(r.ticket_id().unwrap(), id);
    assert!(matches!(r.shutdown(), ShutdownStep::Stop(Some("socket"))));
    assert!(r.is_running());
    assert!(matches!(r.wake(LoopEvent::Shutdown, &vec![]), LoopAction::Stop(None)));
    assert!(!r.is_running());
    r.begin_start().unwrap();
}

#[test]
fn peers_that_are_synchronized_are_left_alone() {
    let mut m = SyncManager::new(1);
    let (a, b, c) = (test_endpoint_id(), test_endpoint_id(), test_endpoint_id());
    m.update_peer_state(&a, SyncState::Disconnected);
    m.update_peer_state(&b, SyncState::Synchronized);
    m.update_peer_state(&c, SyncState::Error("x".to_string()));
    let states = m.get_peer_states();
    assert_eq!(sync_targets(&states), vec![a, c]);
    let mut r: Replicator<(), ()> = Replicator::new(ReplicatorConfig::new()).unwrap();
    match r.wake(LoopEvent::Tick, &states) {
        LoopAction::Connect(ids) => assert!(ids.is_empty()),
        LoopAction::Stop(_) => panic!("the loop goes on"),
    }
    r.started(a, ()).unwrap();
    match r.wake(LoopEvent::Tick, &states) {
        LoopAction::Connect(ids) => assert_eq!(ids, vec![a, c]),
        LoopAction::Stop(_) => panic!("the loop goes on"),
    }
}

#[test]
fn a_started_replicator_does_not_connect_to_itself() {
    let mut r: Replicator<(), ()> = Replicator::new(ReplicatorConfig::new()).unwrap();
    let id = test_endpoint_id();
    assert!(r.discovery().is_none());
    r.started(id, ()).unwrap();
    let e = r.discovery().unwrap().check_target(&id).err().unwrap();
    assert!(matches!(e, Error::Other(s) if s == "cannot connect to self"));
    assert!(r.discovery().unwrap().check_target(&test_endpoint_id()).is_ok());
}

#[test]
fn a_configuration_can_be_copied() {
    let mut config = ReplicatorConfig::new();
    config.relay_servers = vec!["a".to_string(), "b".to_string()];
    config.secret_key_bytes = Some(vec![1, 2]);
    config.bind_addr = Some("0.0.0.0:1".to_string());
    let copy = config.clone();
    assert_eq!(copy.relay_servers, config.relay_servers);
    assert_eq!(copy.secret_key_bytes, config.secret_key_bytes);
    assert_eq!(copy.bind_addr, config.bind_addr);
    assert_eq!(copy.sync_interval, config.sync_interval);
}

#[test]
fn addresses_are_tried_in_order() {
    let mut r: Replicator<(), &str> = Replicator::new(ReplicatorConfig::new()).unwrap();
    let id = test_endpoint_id();
    let e = r.connect_plan(id, vec![]).err().unwrap();
    assert!(matches!(e, Error::Other(s) if s == "discovery not initialized"));
    let e = r.connect_plan(id, vec!["a"]).err().unwrap();
    assert!(matches!(e, Error::Other(s) if s == "replicator not started"));
    r.started(test_endpoint_id(), ()).unwrap();
    let mut plan = r.connect_plan(id, vec!["a", "b"]).unwrap();
    assert!(matches!(plan.next(false), ConnectStep::Try("a")));
    assert!(matches!(plan.next(false), ConnectStep::Try("b")));
    assert!(matches!(plan.next(true), ConnectStep::Done(Ok(()))));
    let mut plan = r.connect_plan(id, vec![]).unwrap();
    match plan.next(false) {
        ConnectStep::Done(Err(Error::PeerNotFound(hex))) => assert_eq!(hex, id.to_hex()),
        _ => panic!("there is no address"),
    }
}

#[test]
fn every_error_has_a_text() {
    assert_eq!(Error::Endpoint("e".to_string()).message(), "failed to create endpoint: e");
    assert_eq!(Error::Discovery("e".to_string()).message(), "discovery failed: e");
    assert_eq!(Error::Connection("e".to_string()).message(), "connection failed: e");
    assert_eq!(Error::ConnectionClosed("e".to_string()).message(), "connection closed: e");
    assert_eq!(Error::InvalidTicket("e".to_string()).message(), "invalid ticket: e");
    assert_eq!(Error::Sync("e".to_string()).message(), "sync error: e");
    assert_eq!(Error::Encoding("e".to_string()).message(), "encoding error: e");
    assert_eq!(Error::State("e".to_string()).message(), "state error: e");
    assert_eq!(Error::Shutdown.message(), "shutdown requested");
    assert_eq!(Error::ChannelClosed.message(), "channel closed");
    assert_eq!(Error::PeerNotFound("e".to_string()).message(), "peer not found: e");
    assert_eq!(Error::MaxPeersReached(12).message(), "maximum peers (12) reached");
    assert_eq!(
        Error::Timeout(Duration::from_millis(1500)).message(),
        "operation timed out after 1.5s"
    );
    assert_eq!(Error::Other("as is".to_string()).message(), "error: as is");
}
