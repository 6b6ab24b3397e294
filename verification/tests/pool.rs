use std::time::{Duration, Instant};
use surrealdb_iroh::peer::EndpointId;
use surrealdb_iroh::pool::{
    ConnectionPool, ConnectionPoolConfig, ConnectionPoolStats, PooledConnection,
};

fn test_endpoint_id() -> EndpointId {
    EndpointId::from_bytes(iroh::SecretKey::generate().public().as_bytes()).unwrap()
}

#[test]
fn test_pool_config_default() {
    let config = ConnectionPoolConfig::default();
    assert_eq!(config.max_connections, 10);
    assert_eq!(config.max_uses, 100);
}

#[test]
fn test_pooled_connection() {
    let now = Instant::now();
    let mut c = PooledConnection::new_at("wire", now);
    assert_eq!(*c.connection(), "wire");
    assert!(!c.is_closed());
    c.mark_used_at(now + Duration::from_secs(1));
    assert!(c.is_in_use());
    c.mark_released();
    assert!(!c.is_in_use());
    assert_eq!(c.age_at(now + Duration::from_secs(3)), Duration::from_secs(3));
    c.mark_closed();
    assert!(c.is_closed());
}

#[test]
fn test_pool_stats() {
    let stats = ConnectionPoolStats {
        active_connections: 5,
        in_use_connections: 2,
        max_connections: 10,
        total_uses: 100,
        oldest_connection_age: Duration::from_secs(60),
    };

    assert_eq!(stats.active_connections, 5);
    assert_eq!(stats.in_use_connections, 2);
    assert_eq!(stats.max_connections, 10);
}

#[test]
fn a_connection_is_reused_only_after_its_release() {
    let now = Instant::now();
    let mut pool = ConnectionPool::new(ConnectionPoolConfig::new());
    let a = test_endpoint_id();
    assert!(!pool.reuse_at(&a, now));
    pool.insert_at(&a, 1u32, now);
    assert_eq!(pool.len(), 1);
    assert!(!pool.reuse_at(&a, now));
    pool.release_at(&a, now);
    assert!(pool.reuse_at(&a, now));
    assert_eq!(pool.connection(&a), Some(&1));
    assert!(!pool.reuse_at(&a, now));
}

#[test]
fn the_pool_stays_within_its_limit() {
    let now = Instant::now();
    let mut pool = ConnectionPool::new(ConnectionPoolConfig::new().with_max_connections(2));
    let ids: Vec<EndpointId> = (0..3).map(|_| test_endpoint_id()).collect();
    for (i, id) in ids.iter().enumerate() {
        let t = now + Duration::from_secs(i as u64);
        pool.insert_at(id, i, t);
        pool.release_at(id, t);
    }
    assert_eq!(pool.len(), 2);
    assert!(pool.connection(&ids[0]).is_none());
    assert_eq!(pool.connection(&ids[2]), Some(&2));
}

#[test]
fn stale_connections_are_not_reused() {
    let now = Instant::now();
    let config = ConnectionPoolConfig::new()
        .with_max_age(Duration::from_secs(100))
        .with_max_idle(Duration::from_secs(10))
        .with_max_uses(3);
    let mut pool = ConnectionPool::new(config);
    let a = test_endpoint_id();
    pool.insert_at(&a, (), now);
    pool.release_at(&a, now);
    assert!(!pool.reuse_at(&a, now + Duration::from_secs(11)));
}

#[test]
fn cleanup_keeps_what_is_healthy() {
    let now = Instant::now();
    let mut pool = ConnectionPool::new(ConnectionPoolConfig::new());
    let a = test_endpoint_id();
    let b = test_endpoint_id();
    pool.insert_at(&a, 'a', now);
    pool.insert_at(&b, 'b', now);
    pool.release_at(&a, now);
    pool.release_at(&b, now);
    pool.cleanup_at(now + Duration::from_secs(1));
    assert_eq!(pool.len(), 2);
    pool.remove(&a);
    assert_eq!(pool.len(), 1);
    pool.cleanup_at(now + Duration::from_secs(100_000));
    assert!(pool.is_empty());
}

#[test]
fn cleanup_keeps_what_is_in_use() {
    let now = Instant::now();
    let mut pool = ConnectionPool::new(ConnectionPoolConfig::new());
    let a = test_endpoint_id();
    pool.insert_at(&a, 'a', now);
    pool.cleanup_at(now);
    assert_eq!(pool.len(), 1);
    assert_eq!(pool.stats_at(now).in_use_connections, 1);
    pool.cleanup_at(now + Duration::from_secs(100_000));
    assert!(pool.is_empty());
}

#[test]
fn the_pool_counts_what_it_holds() {
    let now = Instant::now();
    let mut pool = ConnectionPool::new(ConnectionPoolConfig::new().with_max_connections(7));
    let a = test_endpoint_id();
    let b = test_endpoint_id();
    pool.insert_at(&a, 0, now);
    pool.insert_at(&b, 0, now + Duration::from_secs(2));
    pool.release_at(&a, now + Duration::from_secs(2));
    let stats = pool.stats_at(now + Duration::from_secs(5));
    assert_eq!(stats.active_connections, 2);
    assert_eq!(stats.in_use_connections, 1);
    assert_eq!(stats.max_connections, 7);
    assert_eq!(stats.oldest_connection_age, Duration::from_secs(5));
}

#[test]
fn uses_are_counted() {
    let now = Instant::now();
    let mut pool = ConnectionPool::new(ConnectionPoolConfig::new());
    let a = test_endpoint_id();
    assert_eq!(pool.use_count(&a), None);
    pool.insert_at(&a, (), now);
    assert_eq!(pool.use_count(&a), Some(1));
    pool.release_at(&a, now);
    assert!(pool.reuse_at(&a, now));
    assert_eq!(pool.use_count(&a), Some(2));
    assert_eq!(pool.total_uses(), Some(2));
    assert_eq!(pool.stats().total_uses, 2);
}
