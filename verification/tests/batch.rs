use bytes::Bytes;
use std::time::{Duration, Instant};
use surrealdb_iroh::batch::{BatchConfig, BatchingSyncManager, ChangeBatch, ChangeBatcher};
use surrealdb_iroh::change::Change;
use surrealdb_iroh::sync::SyncManager;

fn change(key: &'static str, value: &'static str) -> Change {
    Change::set("ns", "db", Bytes::from(key), Bytes::from(value))
}

#[test]
fn test_batch_config_default() {
    let config = BatchConfig::default();
    assert_eq!(config.max_batch_size, 100);
    assert!(config.enabled);
}

#[test]
fn batch_test_change_batch() {
    let changes = vec![change("key1", "val1")];
    let batch = ChangeBatch::new(changes, 1);
    assert_eq!(batch.len(), 1);
    assert!(!batch.is_empty());
}

#[test]
fn test_change_batch_operations() {
    let changes = vec![change("key1", "val1"), change("key2", "val2")];

    let batch = surrealdb_iroh::ChangeBatch::new(changes, 0);
    assert_eq!(batch.len(), 2);
    assert!(!batch.is_empty());
}

#[test]
fn test_batch_flush_on_size() {
    let now = Instant::now();
    let mut batcher = ChangeBatcher::new(BatchConfig::new().with_max_batch_size(2));

    let flushed = batcher.add_at(change("k1", "v1"), now);
    assert!(flushed.is_none());
    assert_eq!(batcher.pending_count(), 1);

    let flushed = batcher.add_at(change("k2", "v2"), now);
    assert!(flushed.is_some());
    assert_eq!(batcher.pending_count(), 0);
}

#[test]
fn test_background_flush_task() {
    let now = Instant::now();
    let mut batcher = ChangeBatcher::new(
        BatchConfig::new()
            .with_max_batch_size(100)
            .with_max_batch_age(Duration::from_millis(50)),
    );

    assert!(batcher.start_task());

    assert!(batcher.add_at(change("k1", "v1"), now).is_none());
    assert_eq!(batcher.pending_count(), 1);

    let batch = batcher.tick_at(now + Duration::from_millis(60)).unwrap();

    assert_eq!(batch.len(), 1);
    assert_eq!(batcher.pending_count(), 0);
}

#[test]
fn test_graceful_shutdown() {
    let mut batcher = ChangeBatcher::new(
        BatchConfig::new()
            .with_max_batch_size(100)
            .with_max_batch_age(Duration::from_millis(50)),
    );

    assert!(batcher.start_task());
    assert!(batcher.is_task_running(), "task should be running after start");

    batcher.task_ended(false);
    assert!(!batcher.is_task_running(), "task should not be running after shutdown");
}

#[test]
fn test_task_crash_detection() {
    let mut batcher = ChangeBatcher::new(
        BatchConfig::new()
            .with_max_batch_size(100)
            .with_max_batch_age(Duration::from_secs(3600)),
    );

    batcher.start_task();
    assert!(!batcher.has_task_crashed());
    batcher.task_ended(true);
    assert!(batcher.has_task_crashed());
}

#[test]
fn every_change_is_in_one_batch() {
    let now = Instant::now();
    let mut batcher = ChangeBatcher::new(BatchConfig::new().with_max_batch_size(3));
    let mut batches = Vec::new();
    for _ in 0..7 {
        if let Some(b) = batcher.add_at(Change::query("n", "d", None), now) {
            batches.push(b);
        }
    }
    if let Some(b) = batcher.force_flush() {
        batches.push(b);
    }
    let sizes: Vec<usize> = batches.iter().map(|b| b.len()).collect();
    assert_eq!(sizes, [3, 3, 1]);
    let sequences: Vec<u64> = batches.iter().map(|b| b.sequence).collect();
    assert_eq!(sequences[1], sequences[0] + 1);
    assert_eq!(sequences[2], sequences[1] + 1);
    assert!(batcher.force_flush().is_none());
}

#[test]
fn a_batcher_that_is_switched_off_hands_changes_on_at_once() {
    let now = Instant::now();
    let mut batcher = ChangeBatcher::new(BatchConfig::new().with_enabled(false));
    let batch = batcher.add_at(change("k", "v"), now).unwrap();
    assert_eq!(batch.len(), 1);
    assert_eq!(batcher.pending_count(), 0);
    assert!(!batcher.config().enabled);
}

#[test]
fn a_batching_manager_records_and_batches() {
    let mut m = BatchingSyncManager::new(
        SyncManager::new(10),
        BatchConfig::new().with_max_batch_size(2),
    );
    assert!(m.record_change(change("a", "1")).is_none());
    assert_eq!(m.pending_count(), 1);
    let batch = m.record_change(change("b", "2")).unwrap();
    assert_eq!(batch.len(), 2);
    assert_eq!(m.sync_manager().get_changes_since(0).len(), 2);
    assert!(m.flush().is_none());
}
