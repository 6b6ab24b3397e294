use std::time::{Duration, Instant};
use surrealdb_iroh::config::ReplicatorConfig;
use surrealdb_iroh::discovery::{DiscoveredPeer, DiscoveryManager, DiscoveryMethod};
use surrealdb_iroh::peer::EndpointId;
use surrealdb_iroh::Error;

fn test_endpoint_id() -> EndpointId {
    EndpointId::from_bytes(iroh::SecretKey::generate().public().as_bytes()).unwrap()
}

fn found(id: EndpointId, at: Instant) -> DiscoveredPeer<String> {
    DiscoveredPeer {
        endpoint_id: id,
        addresses: Vec::new(),
        discovery_method: DiscoveryMethod::Manual,
        discovered_at: at,
        name: Some("test-peer".to_string()),
        last_connected: None,
    }
}

#[test]
fn test_discovery_manager_creation() {
    let config = ReplicatorConfig::default();
    let discovery = DiscoveryManager::<String>::new(&config);
    assert!(discovery.is_ok());
}

#[test]
fn test_record_peer() {
    let mut discovery = DiscoveryManager::new(&ReplicatorConfig::default()).unwrap();

    let id = test_endpoint_id();
    discovery.record_peer(found(id, Instant::now()));

    let peers = discovery.known_peers();
    assert_eq!(peers.len(), 1);
    assert_eq!(peers[0].endpoint_id, id);
}

#[test]
fn test_discovery_method_display() {
    assert_eq!(DiscoveryMethod::Dns.as_upper(), "DNS");
    assert_eq!(DiscoveryMethod::Mdns.as_upper(), "mDNS");
    assert_eq!(DiscoveryMethod::Manual.as_upper(), "Manual");
    assert_eq!(DiscoveryMethod::Relay.as_upper(), "Relay");
}

#[test]
fn test_parse_invalid_ticket() {
    let result = DiscoveryManager::<String>::ticket_bytes("invalid-base64!!!");
    assert!(result.is_err());

    let result = DiscoveryManager::<String>::ticket_bytes("bm90LWpzb24=");
    assert!(result.is_err());
}

#[test]
fn tickets_hold_what_they_are_made_of() {
    let ticket = DiscoveryManager::<String>::ticket_of(b"{\"a\":1}");
    assert_eq!(ticket, "eyJhIjoxfQ");
    assert_eq!(DiscoveryManager::<String>::ticket_bytes(&ticket).unwrap(), b"{\"a\":1}");
    let e = DiscoveryManager::<String>::ticket_bytes("?").err().unwrap();
    assert_eq!(e.message(), "invalid ticket: invalid base64 character");
}

#[test]
fn methods_have_lower_case_names() {
    let names = [
        DiscoveryMethod::Dns.as_str(),
        DiscoveryMethod::Mdns.as_str(),
        DiscoveryMethod::Manual.as_str(),
        DiscoveryMethod::Relay.as_str(),
    ];
    assert_eq!(names, ["dns", "mdns", "manual", "relay"]);
}

#[test]
fn peers_expire() {
    let now = Instant::now();
    let mut d = DiscoveryManager::new(&ReplicatorConfig::new()).unwrap();
    let (a, b) = (test_endpoint_id(), test_endpoint_id());
    d.record_peer_at(found(a, now), now);
    d.record_peer_at(found(b, now + Duration::from_secs(100)), now + Duration::from_secs(100));
    assert_eq!(d.peer_count(), 2);
    let later = now + Duration::from_secs(300);
    assert_eq!(d.valid_peers_at(later).len(), 1);
    assert_eq!(d.valid_peers_at(later)[0].endpoint_id, b);
    assert_eq!(d.peer_count(), 2);
    d.record_peer_at(found(b, later), later);
    assert_eq!(d.peer_count(), 1);
    d.clear_peers();
    assert_eq!(d.peer_count(), 0);
}

#[test]
fn a_peer_is_known_once() {
    let now = Instant::now();
    let mut d = DiscoveryManager::new(&ReplicatorConfig::new()).unwrap();
    let (a, b) = (test_endpoint_id(), test_endpoint_id());
    d.record_peer_at(found(a, now), now);
    d.record_peer_at(found(b, now), now);
    let mut again = found(a, now);
    again.addresses = vec!["here".to_string()];
    d.record_peer_at(again, now);
    assert_eq!(d.peer_count(), 2);
    assert_eq!(d.known_peers()[0].endpoint_id, a);
    assert_eq!(d.known_peers()[0].addresses, ["here"]);
}

#[test]
fn nobody_connects_to_themselves() {
    let mut d = DiscoveryManager::<String>::new(&ReplicatorConfig::new()).unwrap();
    let me = test_endpoint_id();
    assert!(d.check_target(&me).is_ok());
    d.set_self_endpoint_id(me);
    let e = d.check_target(&me).err().unwrap();
    assert!(matches!(e, Error::Other(s) if s == "cannot connect to self"));
    assert!(d.check_target(&test_endpoint_id()).is_ok());
}

#[test]
fn connections_are_noted() {
    let now = Instant::now();
    let mut d = DiscoveryManager::new(&ReplicatorConfig::new()).unwrap();
    let a = test_endpoint_id();
    d.record_peer_at(found(a, now), now);
    let e = d.connected_at(&a, Err("lost".to_string()), now).err().unwrap();
    assert_eq!(e.message(), "connection failed: failed to connect to peer: lost");
    assert!(d.known_peers()[0].last_connected.is_none());
    d.connected_at(&a, Ok(()), now).unwrap();
    assert_eq!(d.known_peers()[0].last_connected, Some(now));
    d.connected_at(&test_endpoint_id(), Ok(()), now).unwrap();
    assert!(d.discover(&a).unwrap().is_empty());
}

#[test]
fn a_ticket_names_a_peer() {
    let now = Instant::now();
    let a = test_endpoint_id();
    let mut p = DiscoveryManager::peer_of_ticket_at(a, vec![1u8], now);
    assert_eq!(p.endpoint_id, a);
    assert_eq!(p.discovery_method, DiscoveryMethod::Manual);
    assert!(p.is_valid_at(Duration::from_secs(1), now));
    assert!(!p.is_valid_at(Duration::from_secs(1), now + Duration::from_secs(1)));
    p.mark_connected();
    assert!(p.last_connected.is_some());
}
