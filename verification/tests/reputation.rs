use surrealdb_iroh::peer::EndpointId;
use surrealdb_iroh::reputation::{PeerReputation, ReputationFilter, ReputationManager};

fn test_endpoint_id() -> EndpointId {
    EndpointId::from_bytes(iroh::SecretKey::generate().public().as_bytes()).unwrap()
}

#[test]
fn test_peer_reputation() {
    let peer_id = test_endpoint_id();
    let rep = PeerReputation::new(peer_id, 50.0);

    assert_eq!(rep.score, 50.0);
    assert_eq!(rep.sync_successes, 0);
}

#[test]
fn test_reputation_manager() {
    let mut manager = ReputationManager::new();
    let peer_id = test_endpoint_id();

    manager.track(PeerReputation::new(peer_id, 50.0));

    manager.record_sync_success_at(&peer_id, 7, |s: f64| (s + 5.0).min(100.0));

    let rep = manager.get_reputation(&peer_id).unwrap();
    assert_eq!(rep.sync_successes, 1);
    assert!(rep.score > 50.0);
}

#[test]
fn test_reputation_filter() {
    let filter = ReputationFilter::new().with_min_score(30.0).with_max_failures(5);

    let peer_id = test_endpoint_id();
    let rep = PeerReputation::new(peer_id, 50.0);

    assert!(filter.passes(&rep));
}

#[test]
fn outcomes_are_counted() {
    let mut manager = ReputationManager::new();
    let a = test_endpoint_id();
    let stranger = test_endpoint_id();
    manager.track(PeerReputation::new_at(a, 50u32, 100));
    manager.record_sync_failure_at(&a, 110, |s| s - 10);
    manager.record_connection_at(&a, 120);
    manager.record_disconnection_at(&a, 150, |s| s - 5);
    manager.record_disconnection_at(&a, 160, |s| s - 5);
    manager.record_sync_success_at(&stranger, 1, |s| s + 1);
    manager.record_connection_at(&stranger, 5);
    let rep = manager.get_reputation(&a).unwrap();
    assert_eq!(rep.score, 30);
    assert_eq!(rep.sync_failures, 1);
    assert_eq!(rep.sync_successes, 0);
    assert_eq!(rep.connection_time_secs, 30);
    assert_eq!(rep.disconnections, 2);
    assert_eq!(rep.first_seen_secs, 100);
    assert_eq!(rep.last_updated_secs, 160);
    assert_eq!(rep.age_at(170).as_secs(), 10);
    assert_eq!(rep.age_at(100).as_secs(), 0);
    assert!(manager.get_reputation(&stranger).is_none());
    assert_eq!(manager.peer_count(), 1);
}

#[test]
fn a_clock_that_goes_back_adds_no_time() {
    let mut manager = ReputationManager::new();
    let a = test_endpoint_id();
    manager.track(PeerReputation::new_at(a, 1u32, 0));
    manager.record_connection_at(&a, 100);
    manager.record_disconnection_at(&a, 50, |s| s);
    assert_eq!(manager.get_reputation(&a).unwrap().connection_time_secs, 0);
}

#[test]
fn decay_reaches_every_peer() {
    let mut manager = ReputationManager::new();
    let a = test_endpoint_id();
    let b = test_endpoint_id();
    manager.track(PeerReputation::new_at(a, 50.0, 0));
    manager.track(PeerReputation::new_at(b, 50.0, 3600));
    manager.apply_decay_at(7200, |s: f64, secs: u64| (s - secs as f64 / 3600.0).max(0.0));
    assert_eq!(manager.get_reputation(&a).unwrap().score, 48.0);
    assert_eq!(manager.get_reputation(&b).unwrap().score, 49.0);
    assert_eq!(manager.get_reputation(&b).unwrap().last_updated_secs, 7200);
}

#[test]
fn the_best_come_first() {
    let mut manager = ReputationManager::new();
    let ids: Vec<EndpointId> = (0..5).map(|_| test_endpoint_id()).collect();
    for (id, score) in ids.iter().zip([40.0, 90.0, 10.0, 60.0, 20.0]) {
        manager.track(PeerReputation::new_at(*id, score, 0));
    }
    let scores: Vec<f64> = manager.get_all_reputations().iter().map(|r| r.score).collect();
    assert_eq!(scores, [90.0, 60.0, 40.0, 20.0, 10.0]);
    let best: Vec<f64> = manager.get_best_peers(4, &30.0).iter().map(|r| r.score).collect();
    assert_eq!(best, [90.0, 60.0, 40.0]);
    let best: Vec<f64> = manager.get_best_peers(2, &60.0).iter().map(|r| r.score).collect();
    assert_eq!(best, [90.0, 60.0]);
}

#[test]
fn a_removed_peer_is_forgotten() {
    let mut manager = ReputationManager::new();
    let a = test_endpoint_id();
    let b = test_endpoint_id();
    manager.track(PeerReputation::new_at(a, 1u32, 0));
    manager.track(PeerReputation::new_at(b, 2u32, 0));
    manager.record_connection_at(&a, 10);
    manager.remove(&a);
    assert!(manager.get_reputation(&a).is_none());
    assert_eq!(manager.get_reputation(&b).unwrap().score, 2);
    manager.track(PeerReputation::new_at(a, 1u32, 0));
    manager.record_disconnection_at(&a, 50, |s| s);
    assert_eq!(manager.get_reputation(&a).unwrap().connection_time_secs, 0);
}

#[test]
fn filters_look_at_scores_and_counts() {
    let mut rep = PeerReputation::new_at(test_endpoint_id(), 50.0, 0);
    rep.sync_successes = 3;
    rep.sync_failures = 4;
    let pass = |f: ReputationFilter<f64>| f.passes(&rep);
    assert!(pass(ReputationFilter::new()));
    assert!(pass(ReputationFilter::new().with_min_score(50.0).with_max_score(50.0)));
    assert!(!pass(ReputationFilter::new().with_min_score(50.5)));
    assert!(!pass(ReputationFilter::new().with_max_score(49.5)));
    assert!(pass(ReputationFilter::new().with_min_sync_successes(3).with_max_failures(4)));
    assert!(!pass(ReputationFilter::new().with_min_sync_successes(4)));
    assert!(!pass(ReputationFilter::new().with_max_failures(3)));
    let good = PeerReputation::new_at(test_endpoint_id(), 80.0, 0);
    let reps = [rep, good];
    let left = ReputationFilter::new().with_min_score(60.0).apply(&reps);
    assert_eq!(left.len(), 1);
    assert_eq!(left[0].score, 80.0);
    assert!(left[0].is_reliable(&80.0));
    assert!(!left[0].is_reliable(&81.0));
}
