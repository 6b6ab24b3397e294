use bytes::Bytes;
use surrealdb_iroh::change::Change;
use surrealdb_iroh::notify::{
    ChangeEvent, ChangeEventType, ChangeNotifier, ChangeObserver, SubscriptionFilter,
};
use surrealdb_iroh::peer::EndpointId;

fn test_endpoint_id() -> EndpointId {
    EndpointId::from_bytes(iroh::SecretKey::generate().public().as_bytes()).unwrap()
}

fn event(ns: &str, db: &str, sequence: u64) -> ChangeEvent {
    ChangeEvent::new(
        ChangeEventType::SetValue,
        Change::set(ns, db, Bytes::from("key1"), Bytes::from("value")),
        sequence,
    )
}

#[test]
fn test_subscription_filter() {
    let filter = SubscriptionFilter::everything();
    assert!(filter.matches(&event("ns1", "db1", 1)));
}

#[test]
fn test_subscription_filter_namespace() {
    let filter = SubscriptionFilter::new().with_namespace("ns1");

    assert!(filter.matches(&event("ns1", "db1", 1)));
    assert!(!filter.matches(&event("ns2", "db1", 2)));
}

#[test]
fn notify_test_change_notifier() {
    let mut notifier = ChangeNotifier::new(10);
    let sub = notifier.subscribe(SubscriptionFilter::everything());

    let change = Change::set("ns", "db", Bytes::from("key"), Bytes::from("value"));
    let to = notifier.recipients(&ChangeEvent::new(ChangeEventType::SetValue, change, 1));
    assert_eq!(to, vec![sub]);

    assert_eq!(notifier.subscriber_count(), 1);
}

#[test]
fn integration_test_change_notifier() {
    let mut notifier = ChangeNotifier::new(10);

    let sub = notifier.subscribe(SubscriptionFilter::everything());

    let mut received = 0;
    for i in 0..3u8 {
        let key_bytes = vec![i];
        let val_bytes = vec![i];
        let change = Change::set("ns", "db", Bytes::from(key_bytes), Bytes::from(val_bytes));
        let event = ChangeEvent::new(ChangeEventType::SetValue, change, i as u64);
        received += notifier.recipients(&event).iter().filter(|id| **id == sub).count();
    }

    assert_eq!(received, 3);
}

#[test]
fn test_subscription_filter_matching() {
    let mut notifier = ChangeNotifier::new(10);

    let filter = SubscriptionFilter::new().with_namespace("ns1");
    let sub = notifier.subscribe(filter);

    let change1 = Change::set("ns1", "db1", Bytes::from("key1"), Bytes::from("val1"));
    let to = notifier.recipients(&ChangeEvent::new(ChangeEventType::SetValue, change1, 1));
    assert_eq!(to, vec![sub]);

    let change2 = Change::set("ns2", "db1", Bytes::from("key2"), Bytes::from("val2"));
    let to = notifier.recipients(&ChangeEvent::new(ChangeEventType::SetValue, change2, 2));
    assert!(to.is_empty());
}

#[test]
fn test_subscription_filter_with_db() {
    let mut notifier = ChangeNotifier::new(10);

    let filter = SubscriptionFilter::new()
        .with_namespace("ns1")
        .with_database("db1");

    let sub = notifier.subscribe(filter);

    let change = Change::set("ns1", "db1", Bytes::from("key"), Bytes::from("val"));
    let to = notifier.recipients(&ChangeEvent::new(ChangeEventType::SetValue, change, 1));
    assert_eq!(to, vec![sub]);
}

#[test]
fn test_change_event_types() {
    assert_eq!(ChangeEventType::SetValue.as_str(), "set");
    assert_eq!(ChangeEventType::Delete.as_str(), "delete");
    assert_eq!(ChangeEventType::Batch.as_str(), "batch");
}

#[test]
fn test_filter_everything_matches() {
    let filter = SubscriptionFilter::everything();

    let event = ChangeEvent::new(
        ChangeEventType::SetValue,
        Change::set("ns1", "db1", Bytes::from("key"), Bytes::from("value")),
        1,
    );

    assert!(filter.matches(&event));
}

#[test]
fn test_filter_namespace_mismatch() {
    let filter = SubscriptionFilter::new().with_namespace("ns1");

    let event = ChangeEvent::new(
        ChangeEventType::SetValue,
        Change::set("ns2", "db1", Bytes::from("key"), Bytes::from("value")),
        1,
    );

    assert!(!filter.matches(&event));
}

#[test]
fn who_unsubscribed_gets_nothing() {
    let mut notifier = ChangeNotifier::new(10);
    let a = notifier.subscribe(SubscriptionFilter::everything());
    let b = notifier.subscribe(SubscriptionFilter::everything());
    assert_ne!(a, b);
    notifier.unsubscribe(a);
    assert_eq!(notifier.recipients(&event("n", "d", 1)), vec![b]);
    let c = notifier.subscribe(SubscriptionFilter::everything());
    assert_ne!(c, a);
    assert_eq!(notifier.buffer_size(), 10);
}

#[test]
fn an_observer_numbers_local_changes() {
    let mut o = ChangeObserver::new();
    let sub = o.subscribe(SubscriptionFilter::everything());
    let (e1, to) = o.notify_local(Change::query("n", "d", None));
    assert_eq!(to, vec![sub]);
    let (e2, _) = o.notify_local(Change::query("n", "d", None));
    assert_eq!(e2.sequence, e1.sequence + 1);
    assert!(e1.source_peer.is_none());
    let peer = test_endpoint_id();
    let (e3, to) = o.notify_sync(Change::delete("n", "d", Bytes::from("k")), peer);
    assert_eq!(e3.source_peer, Some(peer));
    assert_eq!(to, vec![sub]);
    o.unsubscribe(sub);
    assert_eq!(o.subscriber_count(), 0);
}
