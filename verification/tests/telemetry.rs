use std::time::Duration;
use surrealdb_iroh::telemetry::{
    normalize_connection_type, normalize_sync_direction, normalize_sync_type,
    record_bytes_received, record_bytes_sent, record_connection_incoming,
    record_connection_latency, record_connection_outgoing, record_relay_used,
    record_sync_failure, record_sync_success, record_ticket_generated, record_ticket_resolved,
    set_active_peers, set_pending_changes, set_pool_size, span_name, MetricUpdate,
    ATTR_ERROR_TYPE, ATTR_RPC_METHOD, ATTR_RPC_SYSTEM, ATTR_SERVER_ADDRESS, METRIC_PEERS_ACTIVE,
    METRIC_SYNC_TOTAL,
};

fn text(updates: Vec<MetricUpdate>) -> Vec<String> {
    updates
        .into_iter()
        .map(|u| match u {
            MetricUpdate::Count(name, n) => format!("{name} +{n}"),
            MetricUpdate::Level(name, n) => format!("{name} ={n}"),
            MetricUpdate::Time(name, d) => format!("{name} {}ms", d.as_millis()),
        })
        .collect()
}

#[test]
fn span_name_format() {
    assert_eq!(span_name("sync", "peer1"), "sync peer1");
    assert_eq!(span_name("connect", ""), "connect ");
}

#[test]
fn normalize_connection_type_spec_values() {
    assert_eq!(normalize_connection_type("direct"), "direct");
    assert_eq!(normalize_connection_type("relay"), "relay");
    assert_eq!(normalize_connection_type("hole_punched"), "hole_punched");
}

#[test]
fn normalize_connection_type_aliases() {
    assert_eq!(normalize_connection_type("p2p"), "direct");
    assert_eq!(normalize_connection_type("peer"), "direct");
    assert_eq!(normalize_connection_type("holepunch"), "hole_punched");
    assert_eq!(normalize_connection_type("hole-punch"), "hole_punched");
}

#[test]
fn normalize_sync_direction_spec_values() {
    assert_eq!(normalize_sync_direction("push"), "push");
    assert_eq!(normalize_sync_direction("pull"), "pull");
    assert_eq!(normalize_sync_direction("bidirectional"), "bidirectional");
}

#[test]
fn normalize_sync_direction_aliases() {
    assert_eq!(normalize_sync_direction("send"), "push");
    assert_eq!(normalize_sync_direction("receive"), "pull");
    assert_eq!(normalize_sync_direction("bidir"), "bidirectional");
}

#[test]
fn normalize_sync_type_spec_values() {
    assert_eq!(normalize_sync_type("snapshot"), "snapshot");
    assert_eq!(normalize_sync_type("incremental"), "incremental");
}

#[test]
fn normalize_sync_type_aliases() {
    assert_eq!(normalize_sync_type("full"), "snapshot");
    assert_eq!(normalize_sync_type("delta"), "incremental");
    assert_eq!(normalize_sync_type("diff"), "incremental");
}

#[test]
fn metric_names_follow_otel_conventions() {
    assert!(METRIC_SYNC_TOTAL.contains('.'));
    assert!(METRIC_PEERS_ACTIVE.contains('.'));
}

#[test]
fn attribute_keys_match_otel_semconv() {
    assert_eq!(ATTR_RPC_SYSTEM, "rpc.system");
    assert_eq!(ATTR_RPC_METHOD, "rpc.method");
    assert_eq!(ATTR_SERVER_ADDRESS, "server.address");
    assert_eq!(ATTR_ERROR_TYPE, "error.type");
}

#[test]
fn names_are_matched_without_case_and_unknown_ones_pass() {
    assert_eq!(normalize_connection_type("P2P"), "direct");
    assert_eq!(normalize_connection_type("Server"), "relay");
    assert_eq!(normalize_connection_type("Carrier Pigeon"), "Carrier Pigeon");
    assert_eq!(normalize_sync_direction("UPLOAD"), "push");
    assert_eq!(normalize_sync_direction("Download"), "pull");
    assert_eq!(normalize_sync_direction("both"), "bidirectional");
    assert_eq!(normalize_sync_direction("Sync"), "bidirectional");
    assert_eq!(normalize_sync_direction("ÜBER"), "ÜBER");
    assert_eq!(normalize_sync_type("Initial"), "snapshot");
    assert_eq!(normalize_sync_type(""), "");
}

#[test]
fn updates_of_each_operation() {
    assert_eq!(
        text(record_connection_incoming()),
        ["iroh.sync.connections.incoming +1", "iroh.sync.connections.total +1"]
    );
    assert_eq!(
        text(record_connection_outgoing()),
        ["iroh.sync.connections.outgoing +1", "iroh.sync.connections.total +1"]
    );
    assert_eq!(
        text(record_sync_success(Duration::from_millis(7))),
        ["iroh.sync.sync.success +1", "iroh.sync.sync.total +1", "iroh.sync.sync.duration 7ms"]
    );
    assert_eq!(
        text(record_sync_failure(Duration::from_millis(8))),
        ["iroh.sync.sync.failure +1", "iroh.sync.sync.total +1", "iroh.sync.sync.duration 8ms"]
    );
    assert_eq!(
        text(record_bytes_sent(5)),
        ["iroh.sync.bytes.sent +5", "iroh.sync.bytes.total +5"]
    );
    assert_eq!(
        text(record_bytes_received(6)),
        ["iroh.sync.bytes.received +6", "iroh.sync.bytes.total +6"]
    );
    assert_eq!(text(record_relay_used()), ["iroh.sync.relay.used +1"]);
    assert_eq!(text(set_active_peers(3)), ["iroh.sync.peers.active =3"]);
    assert_eq!(text(set_pending_changes(4)), ["iroh.sync.changes.pending =4"]);
    assert_eq!(text(set_pool_size(5)), ["iroh.sync.pool.size =5"]);
    assert_eq!(
        text(record_connection_latency(Duration::from_millis(9))),
        ["iroh.sync.connection.latency 9ms"]
    );
    assert_eq!(text(record_ticket_generated()), ["iroh.sync.tickets.generated +1"]);
    assert_eq!(text(record_ticket_resolved()), ["iroh.sync.tickets.resolved +1"]);
}
