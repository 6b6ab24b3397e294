//! Observability of sync operations: names of attributes, spans and metrics, and what each
//! operation adds to the metrics.
//!
//! Names follow the OpenTelemetry semantic conventions where these have one. The updates
//! of an operation are handed to the caller, who passes them to a recorder.

pub mod connection_type;
pub mod sync_direction;
pub mod sync_type;

use crate::common::same_text;
use crate::ext::text;
use crate::ext::text::to_lowercase;
use std::time::Duration;
use vstd::prelude::*;

verus! {

/// RPC system name for Iroh P2P operations.
pub const ATTR_RPC_SYSTEM: &'static str = "rpc.system";

/// RPC method name (e.g., "sync", "connect", "ticket.resolve").
pub const ATTR_RPC_METHOD: &'static str = "rpc.method";

/// RPC response status code.
pub const ATTR_RPC_STATUS_CODE: &'static str = "rpc.response.status_code";

/// Server address (peer address).
pub const ATTR_SERVER_ADDRESS: &'static str = "server.address";

/// Server port.
pub const ATTR_SERVER_PORT: &'static str = "server.port";

/// Database system name.
pub const ATTR_DB_SYSTEM: &'static str = "db.system";

/// Database operation name.
pub const ATTR_DB_OPERATION: &'static str = "db.operation.name";

/// Database namespace.
pub const ATTR_DB_NAMESPACE: &'static str = "db.namespace";

/// Database name.
pub const ATTR_DB_NAME: &'static str = "db.name";

/// Database query text (sanitized).
pub const ATTR_DB_STATEMENT: &'static str = "db.statement";

/// Network transport (e.g., "udp", "quic").
pub const ATTR_NET_TRANSPORT: &'static str = "net.transport";

/// Network peer address.
pub const ATTR_NET_PEER_ADDRESS: &'static str = "net.peer.address";

/// Network peer port.
pub const ATTR_NET_PEER_PORT: &'static str = "net.peer.port";

/// Error type for failed operations.
pub const ATTR_ERROR_TYPE: &'static str = "error.type";

/// Error message.
pub const ATTR_ERROR_MESSAGE: &'static str = "error.message";

/// Custom attribute namespace for SurrealDB Iroh P2P.
pub const ATTR_IROH_NAMESPACE: &'static str = "iroh.sync";

/// Whether a relay server was used for the connection.
pub const ATTR_IROH_RELAY_USED: &'static str = "iroh.sync.relay.used";

/// Number of currently connected peers.
pub const ATTR_IROH_PEER_COUNT: &'static str = "iroh.sync.peer.count";

/// Whether connection was direct (P2P) or via relay.
pub const ATTR_IROH_CONNECTION_TYPE: &'static str = "iroh.sync.connection.type";

/// Sync direction: "push", "pull", or "bidirectional".
pub const ATTR_IROH_SYNC_DIRECTION: &'static str = "iroh.sync.sync.direction";

/// Number of changes in a sync operation.
pub const ATTR_IROH_SYNC_CHANGES: &'static str = "iroh.sync.sync.changes";

/// Whether the sync was a full snapshot or incremental.
pub const ATTR_IROH_SYNC_TYPE: &'static str = "iroh.sync.sync.type";

/// Number of bytes transferred.
pub const ATTR_IROH_BYTES_TRANSFERRED: &'static str = "iroh.sync.bytes.transferred";

/// Connection ticket string (hash only, no secrets).
pub const ATTR_IROH_TICKET_HASH: &'static str = "iroh.sync.ticket.hash";

/// Span for sync operations.
pub const SPAN_SYNC: &'static str = "sync";

/// Span for connection establishment.
pub const SPAN_CONNECT: &'static str = "connect";

/// Span for ticket resolution.
pub const SPAN_TICKET_RESOLVE: &'static str = "ticket.resolve";

/// Span for change batch sending.
pub const SPAN_SEND_BATCH: &'static str = "send.batch";

/// Span for change batch receiving.
pub const SPAN_RECEIVE_BATCH: &'static str = "receive.batch";

/// Counter — total incoming connections.
pub const METRIC_CONNECTIONS_INCOMING: &'static str = "iroh.sync.connections.incoming";

/// Counter — total outgoing connections.
pub const METRIC_CONNECTIONS_OUTGOING: &'static str = "iroh.sync.connections.outgoing";

/// Counter — total connections by type.
pub const METRIC_CONNECTIONS_TOTAL: &'static str = "iroh.sync.connections.total";

/// Histogram — connection establishment latency.
pub const METRIC_CONNECTION_LATENCY: &'static str = "iroh.sync.connection.latency";

/// Counter — successful sync operations.
pub const METRIC_SYNC_SUCCESS: &'static str = "iroh.sync.sync.success";

/// Counter — failed sync operations.
pub const METRIC_SYNC_FAILURE: &'static str = "iroh.sync.sync.failure";

/// Counter — total sync operations.
pub const METRIC_SYNC_TOTAL: &'static str = "iroh.sync.sync.total";

/// Histogram — sync operation duration.
pub const METRIC_SYNC_DURATION: &'static str = "iroh.sync.sync.duration";

/// Counter — sync operations by direction.
pub const METRIC_SYNC_DIRECTION: &'static str = "iroh.sync.sync.direction";

/// Counter — sync type (full/incremental).
pub const METRIC_SYNC_TYPE: &'static str = "iroh.sync.sync.type";

/// Counter — bytes sent.
pub const METRIC_BYTES_SENT: &'static str = "iroh.sync.bytes.sent";

/// Counter — bytes received.
pub const METRIC_BYTES_RECEIVED: &'static str = "iroh.sync.bytes.received";

/// Counter — total bytes.
pub const METRIC_BYTES_TOTAL: &'static str = "iroh.sync.bytes.total";

/// Gauge — current active peers.
pub const METRIC_PEERS_ACTIVE: &'static str = "iroh.sync.peers.active";

/// Gauge — changes pending sync.
pub const METRIC_CHANGES_PENDING: &'static str = "iroh.sync.changes.pending";

/// Gauge — connection pool size.
pub const METRIC_POOL_SIZE: &'static str = "iroh.sync.pool.size";

/// Counter — relay connections used.
pub const METRIC_RELAY_USED: &'static str = "iroh.sync.relay.used";

/// Counter — ticket generations.
pub const METRIC_TICKETS_GENERATED: &'static str = "iroh.sync.tickets.generated";

/// Counter — ticket resolutions.
pub const METRIC_TICKETS_RESOLVED: &'static str = "iroh.sync.tickets.resolved";

/// A change to a metric.
#[derive(Debug, Clone, Copy)]
pub enum MetricUpdate {
    /// A counter grows by an amount
    Count(&'static str, u64),
    /// A gauge takes a value
    Level(&'static str, usize),
    /// A histogram gets one more duration, in seconds
    Time(&'static str, Duration),
}

/// What an incoming connection adds to the metrics.
pub fn record_connection_incoming() -> (r: Vec<MetricUpdate>)
    ensures
        r@ == seq![
            MetricUpdate::Count(METRIC_CONNECTIONS_INCOMING, 1),
            MetricUpdate::Count(METRIC_CONNECTIONS_TOTAL, 1),
        ],
{
    let mut r: Vec<MetricUpdate> = Vec::new();
    r.push(MetricUpdate::Count(METRIC_CONNECTIONS_INCOMING, 1));
    r.push(MetricUpdate::Count(METRIC_CONNECTIONS_TOTAL, 1));
    assert(r@ =~= seq![
        MetricUpdate::Count(METRIC_CONNECTIONS_INCOMING, 1),
        MetricUpdate::Count(METRIC_CONNECTIONS_TOTAL, 1),
    ]);
    r
}

/// What an outgoing connection adds to the metrics.
pub fn record_connection_outgoing() -> (r: Vec<MetricUpdate>)
    ensures
        r@ == seq![
            MetricUpdate::Count(METRIC_CONNECTIONS_OUTGOING, 1),
            MetricUpdate::Count(METRIC_CONNECTIONS_TOTAL, 1),
        ],
{
    let mut r: Vec<MetricUpdate> = Vec::new();
    r.push(MetricUpdate::Count(METRIC_CONNECTIONS_OUTGOING, 1));
    r.push(MetricUpdate::Count(METRIC_CONNECTIONS_TOTAL, 1));
    assert(r@ =~= seq![
        MetricUpdate::Count(METRIC_CONNECTIONS_OUTGOING, 1),
        MetricUpdate::Count(METRIC_CONNECTIONS_TOTAL, 1),
    ]);
    r
}

/// What a successful sync adds to the metrics.
pub fn record_sync_success(duration: Duration) -> (r: Vec<MetricUpdate>)
    ensures
        r@ == seq![
            MetricUpdate::Count(METRIC_SYNC_SUCCESS, 1),
            MetricUpdate::Count(METRIC_SYNC_TOTAL, 1),
            MetricUpdate::Time(METRIC_SYNC_DURATION, duration),
        ],
{
    let mut r: Vec<MetricUpdate> = Vec::new();
    r.push(MetricUpdate::Count(METRIC_SYNC_SUCCESS, 1));
    r.push(MetricUpdate::Count(METRIC_SYNC_TOTAL, 1));
    r.push(MetricUpdate::Time(METRIC_SYNC_DURATION, duration));
    assert(r@ =~= seq![
        MetricUpdate::Count(METRIC_SYNC_SUCCESS, 1),
        MetricUpdate::Count(METRIC_SYNC_TOTAL, 1),
        MetricUpdate::Time(METRIC_SYNC_DURATION, duration),
    ]);
    r
}

/// What a failed sync adds to the metrics.
pub fn record_sync_failure(duration: Duration) -> (r: Vec<MetricUpdate>)
    ensures
        r@ == seq![
            MetricUpdate::Count(METRIC_SYNC_FAILURE, 1),
            MetricUpdate::Count(METRIC_SYNC_TOTAL, 1),
            MetricUpdate::Time(METRIC_SYNC_DURATION, duration),
        ],
{
    let mut r: Vec<MetricUpdate> = Vec::new();
    r.push(MetricUpdate::Count(METRIC_SYNC_FAILURE, 1));
    r.push(MetricUpdate::Count(METRIC_SYNC_TOTAL, 1));
    r.push(MetricUpdate::Time(METRIC_SYNC_DURATION, duration));
    assert(r@ =~= seq![
        MetricUpdate::Count(METRIC_SYNC_FAILURE, 1),
        MetricUpdate::Count(METRIC_SYNC_TOTAL, 1),
        MetricUpdate::Time(METRIC_SYNC_DURATION, duration),
    ]);
    r
}

/// What sending bytes adds to the metrics.
pub fn record_bytes_sent(bytes: u64) -> (r: Vec<MetricUpdate>)
    ensures
        r@ == seq![
            MetricUpdate::Count(METRIC_BYTES_SENT, bytes),
            MetricUpdate::Count(METRIC_BYTES_TOTAL, bytes),
        ],
{
    let mut r: Vec<MetricUpdate> = Vec::new();
    r.push(MetricUpdate::Count(METRIC_BYTES_SENT, bytes));
    r.push(MetricUpdate::Count(METRIC_BYTES_TOTAL, bytes));
    assert(r@ =~= seq![
        MetricUpdate::Count(METRIC_BYTES_SENT, bytes),
        MetricUpdate::Count(METRIC_BYTES_TOTAL, bytes),
    ]);
    r
}

/// What receiving bytes adds to the metrics.
pub fn record_bytes_received(bytes: u64) -> (r: Vec<MetricUpdate>)
    ensures
        r@ == seq![
            MetricUpdate::Count(METRIC_BYTES_RECEIVED, bytes),
            MetricUpdate::Count(METRIC_BYTES_TOTAL, bytes),
        ],
{
    let mut r: Vec<MetricUpdate> = Vec::new();
    r.push(MetricUpdate::Count(METRIC_BYTES_RECEIVED, bytes));
    r.push(MetricUpdate::Count(METRIC_BYTES_TOTAL, bytes));
    assert(r@ =~= seq![
        MetricUpdate::Count(METRIC_BYTES_RECEIVED, bytes),
        MetricUpdate::Count(METRIC_BYTES_TOTAL, bytes),
    ]);
    r
}

/// What the use of a relay adds to the metrics.
pub fn record_relay_used() -> (r: Vec<MetricUpdate>)
    ensures
        r@ == seq![MetricUpdate::Count(METRIC_RELAY_USED, 1)],
{
    let mut r: Vec<MetricUpdate> = Vec::new();
    r.push(MetricUpdate::Count(METRIC_RELAY_USED, 1));
    assert(r@ =~= seq![MetricUpdate::Count(METRIC_RELAY_USED, 1)]);
    r
}

/// What the number of active peers sets in the metrics.
pub fn set_active_peers(count: usize) -> (r: Vec<MetricUpdate>)
    ensures
        r@ == seq![MetricUpdate::Level(METRIC_PEERS_ACTIVE, count)],
{
    let mut r: Vec<MetricUpdate> = Vec::new();
    r.push(MetricUpdate::Level(METRIC_PEERS_ACTIVE, count));
    assert(r@ =~= seq![MetricUpdate::Level(METRIC_PEERS_ACTIVE, count)]);
    r
}

/// What the number of pending changes sets in the metrics.
pub fn set_pending_changes(count: usize) -> (r: Vec<MetricUpdate>)
    ensures
        r@ == seq![MetricUpdate::Level(METRIC_CHANGES_PENDING, count)],
{
    let mut r: Vec<MetricUpdate> = Vec::new();
    r.push(MetricUpdate::Level(METRIC_CHANGES_PENDING, count));
    assert(r@ =~= seq![MetricUpdate::Level(METRIC_CHANGES_PENDING, count)]);
    r
}

/// What the size of the connection pool sets in the metrics.
pub fn set_pool_size(size: usize) -> (r: Vec<MetricUpdate>)
    ensures
        r@ == seq![MetricUpdate::Level(METRIC_POOL_SIZE, size)],
{
    let mut r: Vec<MetricUpdate> = Vec::new();
    r.push(MetricUpdate::Level(METRIC_POOL_SIZE, size));
    assert(r@ =~= seq![MetricUpdate::Level(METRIC_POOL_SIZE, size)]);
    r
}

/// What the time to connect adds to the metrics.
pub fn record_connection_latency(duration: Duration) -> (r: Vec<MetricUpdate>)
    ensures
        r@ == seq![MetricUpdate::Time(METRIC_CONNECTION_LATENCY, duration)],
{
    let mut r: Vec<MetricUpdate> = Vec::new();
    r.push(MetricUpdate::Time(METRIC_CONNECTION_LATENCY, duration));
    assert(r@ =~= seq![MetricUpdate::Time(METRIC_CONNECTION_LATENCY, duration)]);
    r
}

/// What making a ticket adds to the metrics.
pub fn record_ticket_generated() -> (r: Vec<MetricUpdate>)
    ensures
        r@ == seq![MetricUpdate::Count(METRIC_TICKETS_GENERATED, 1)],
{
    let mut r: Vec<MetricUpdate> = Vec::new();
    r.push(MetricUpdate::Count(METRIC_TICKETS_GENERATED, 1));
    assert(r@ =~= seq![MetricUpdate::Count(METRIC_TICKETS_GENERATED, 1)]);
    r
}

/// What resolving a ticket adds to the metrics.
pub fn record_ticket_resolved() -> (r: Vec<MetricUpdate>)
    ensures
        r@ == seq![MetricUpdate::Count(METRIC_TICKETS_RESOLVED, 1)],
{
    let mut r: Vec<MetricUpdate> = Vec::new();
    r.push(MetricUpdate::Count(METRIC_TICKETS_RESOLVED, 1));
    assert(r@ =~= seq![MetricUpdate::Count(METRIC_TICKETS_RESOLVED, 1)]);
    r
}

/// Build a span name following the OpenTelemetry conventions: `{operation} {resource}`
pub fn span_name(operation: &str, resource: &str) -> (s: String)
    ensures
        s@ == operation@ + " "@ + resource@,
{
    operation.to_owned().concat(" ").concat(resource)
}

/// Whether a text is one of two or three.
pub open spec fn one_of(s: Seq<char>, a: Seq<char>, b: Seq<char>, c: Seq<char>) -> bool {
    s == a || s == b || s == c
}

/// The well-known connection type that a lower-case name stands for; the value itself,
/// if it stands for none.
pub open spec fn connection_type_of(value: Seq<char>, lower: Seq<char>) -> Seq<char> {
    if one_of(lower, "p2p"@, "peer"@, "direct"@) {
        "direct"@
    } else if lower == "relay"@ || lower == "server"@ {
        "relay"@
    } else if one_of(lower, "holepunch"@, "hole-punch"@, "hole_punched"@) {
        "hole_punched"@
    } else {
        value
    }
}

/// The well-known sync direction that a lower-case name stands for; the value itself, if
/// it stands for none.
pub open spec fn sync_direction_of(value: Seq<char>, lower: Seq<char>) -> Seq<char> {
    if one_of(lower, "push"@, "send"@, "upload"@) {
        "push"@
    } else if one_of(lower, "pull"@, "receive"@, "download"@) {
        "pull"@
    } else if one_of(lower, "bidirectional"@, "bidir"@, "both"@) || lower == "sync"@ {
        "bidirectional"@
    } else {
        value
    }
}

/// The well-known sync type that a lower-case name stands for; the value itself, if it
/// stands for none.
pub open spec fn sync_type_of(value: Seq<char>, lower: Seq<char>) -> Seq<char> {
    if one_of(lower, "full"@, "snapshot"@, "initial"@) {
        "snapshot"@
    } else if one_of(lower, "delta"@, "incremental"@, "diff"@) {
        "incremental"@
    } else {
        value
    }
}

/// Map a lower-case name to the well-known connection type it stands for.
pub fn match_connection_type(value: &str, lower: &str) -> (s: String)
    ensures
        s@ == connection_type_of(value@, lower@),
{
    if same_text(lower, "p2p") || same_text(lower, "peer") || same_text(lower, "direct") {
        connection_type::DIRECT.to_owned()
    } else if same_text(lower, "relay") || same_text(lower, "server") {
        connection_type::RELAY.to_owned()
    } else if same_text(lower, "holepunch") || same_text(lower, "hole-punch") || same_text(
        lower,
        "hole_punched",
    ) {
        connection_type::HOLE_PUNCHED.to_owned()
    } else {
        value.to_owned()
    }
}

/// Map a lower-case name to the well-known sync direction it stands for.
pub fn match_sync_direction(value: &str, lower: &str) -> (s: String)
    ensures
        s@ == sync_direction_of(value@, lower@),
{
    if same_text(lower, "push") || same_text(lower, "send") || same_text(lower, "upload") {
        sync_direction::PUSH.to_owned()
    } else if same_text(lower, "pull") || same_text(lower, "receive") || same_text(
        lower,
        "download",
    ) {
        sync_direction::PULL.to_owned()
    } else if same_text(lower, "bidirectional") || same_text(lower, "bidir") || same_text(
        lower,
        "both",
    ) || same_text(lower, "sync") {
        sync_direction::BIDIRECTIONAL.to_owned()
    } else {
        value.to_owned()
    }
}

/// Map a lower-case name to the well-known sync type it stands for.
pub fn match_sync_type(value: &str, lower: &str) -> (s: String)
    ensures
        s@ == sync_type_of(value@, lower@),
{
    if same_text(lower, "full") || same_text(lower, "snapshot") || same_text(lower, "initial") {
        sync_type::SNAPSHOT.to_owned()
    } else if same_text(lower, "delta") || same_text(lower, "incremental") || same_text(
        lower,
        "diff",
    ) {
        sync_type::INCREMENTAL.to_owned()
    } else {
        value.to_owned()
    }
}

/// Normalize connection type to canonical value.
///
/// Maps common aliases to well-known values. Unknown values pass through.
pub fn normalize_connection_type(value: &str) -> (s: String)
    ensures
        s@ == connection_type_of(value@, text::lowercase(value@)),
        vstd::utf8::is_ascii_chars(value@) ==> s@ == connection_type_of(
            value@,
            text::ascii_lowercase(value@),
        ),
{
    match_connection_type(value, to_lowercase(value).as_str())
}

/// Normalize sync direction to canonical value.
pub fn normalize_sync_direction(value: &str) -> (s: String)
    ensures
        s@ == sync_direction_of(value@, text::lowercase(value@)),
        vstd::utf8::is_ascii_chars(value@) ==> s@ == sync_direction_of(
            value@,
            text::ascii_lowercase(value@),
        ),
{
    match_sync_direction(value, to_lowercase(value).as_str())
}

/// Normalize sync type to canonical value.
pub fn normalize_sync_type(value: &str) -> (s: String)
    ensures
        s@ == sync_type_of(value@, text::lowercase(value@)),
        vstd::utf8::is_ascii_chars(value@) ==> s@ == sync_type_of(
            value@,
            text::ascii_lowercase(value@),
        ),
{
    match_sync_type(value, to_lowercase(value).as_str())
}

/// Names of a connection type that mean the same become the same well-known name; what
/// means none stays as it is. The well-known names stay.
pub proof fn connection_types_have_one_name(value: &str, lower: &str, s: String)
    requires
        call_ensures(match_connection_type, (value, lower), s),
    ensures
        lower@ == "direct"@ || lower@ == "p2p"@ || lower@ == "peer"@ ==> s@ == "direct"@,
        lower@ == "relay"@ || lower@ == "server"@ ==> s@ == "relay"@,
        lower@ == "hole_punched"@ || lower@ == "hole-punch"@ || lower@ == "holepunch"@ ==> s@
            == "hole_punched"@,
        s@ != value@ ==> s@ == "direct"@ || s@ == "relay"@ || s@ == "hole_punched"@,
        s@ == value@ || lower@ == "direct"@ || lower@ == "p2p"@ || lower@ == "peer"@ || lower@
            == "relay"@ || lower@ == "server"@ || lower@ == "hole_punched"@ || lower@
            == "hole-punch"@ || lower@ == "holepunch"@,
{
    lemma_names_differ();
}

/// Names of a sync direction that mean the same become the same well-known name; what means
/// none stays as it is.
pub proof fn sync_directions_have_one_name(value: &str, lower: &str, s: String)
    requires
        call_ensures(match_sync_direction, (value, lower), s),
    ensures
        lower@ == "push"@ || lower@ == "send"@ || lower@ == "upload"@ ==> s@ == "push"@,
        lower@ == "pull"@ || lower@ == "receive"@ || lower@ == "download"@ ==> s@ == "pull"@,
        lower@ == "bidirectional"@ || lower@ == "bidir"@ || lower@ == "both"@ || lower@ == "sync"@
            ==> s@ == "bidirectional"@,
        s@ == value@ || lower@ == "push"@ || lower@ == "send"@ || lower@ == "upload"@ || lower@
            == "pull"@ || lower@ == "receive"@ || lower@ == "download"@ || lower@
            == "bidirectional"@ || lower@ == "bidir"@ || lower@ == "both"@ || lower@ == "sync"@,
{
    lemma_names_differ();
}

/// Names of a sync type that mean the same become the same well-known name; what means none
/// stays as it is.
pub proof fn sync_types_have_one_name(value: &str, lower: &str, s: String)
    requires
        call_ensures(match_sync_type, (value, lower), s),
    ensures
        lower@ == "full"@ || lower@ == "snapshot"@ || lower@ == "initial"@ ==> s@ == "snapshot"@,
        lower@ == "delta"@ || lower@ == "incremental"@ || lower@ == "diff"@ ==> s@
            == "incremental"@,
        s@ == value@ || lower@ == "full"@ || lower@ == "snapshot"@ || lower@ == "initial"@ || lower@
            == "delta"@ || lower@ == "incremental"@ || lower@ == "diff"@,
{
    lemma_names_differ();
}

/// Normalizing takes a name in ASCII for what it is in lower case.
pub proof fn case_of_names_does_not_matter(value: &str, a: String, b: String, c: String)
    requires
        call_ensures(normalize_connection_type, (value,), a),
        call_ensures(normalize_sync_direction, (value,), b),
        call_ensures(normalize_sync_type, (value,), c),
        vstd::utf8::is_ascii_chars(value@),
    ensures
        text::ascii_lowercase(value@) == "p2p"@ ==> a@ == "direct"@,
        text::ascii_lowercase(value@) == "relay"@ ==> a@ == "relay"@,
        text::ascii_lowercase(value@) == "holepunch"@ ==> a@ == "hole_punched"@,
        text::ascii_lowercase(value@) == "send"@ ==> b@ == "push"@,
        text::ascii_lowercase(value@) == "receive"@ ==> b@ == "pull"@,
        text::ascii_lowercase(value@) == "both"@ ==> b@ == "bidirectional"@,
        text::ascii_lowercase(value@) == "full"@ ==> c@ == "snapshot"@,
        text::ascii_lowercase(value@) == "delta"@ ==> c@ == "incremental"@,
{
    lemma_names_differ();
}

/// The names that stand for different things differ.
proof fn lemma_names_differ()
    ensures
        "relay"@ != "p2p"@ && "relay"@ != "peer"@ && "relay"@ != "direct"@,
        "server"@ != "p2p"@ && "server"@ != "peer"@ && "server"@ != "direct"@,
        "holepunch"@ != "p2p"@ && "holepunch"@ != "peer"@ && "holepunch"@ != "direct"@ && "holepunch"@
            != "relay"@ && "holepunch"@ != "server"@,
        "hole-punch"@ != "p2p"@ && "hole-punch"@ != "peer"@ && "hole-punch"@ != "direct"@
            && "hole-punch"@ != "relay"@ && "hole-punch"@ != "server"@,
        "hole_punched"@ != "p2p"@ && "hole_punched"@ != "peer"@ && "hole_punched"@ != "direct"@
            && "hole_punched"@ != "relay"@ && "hole_punched"@ != "server"@,
        "pull"@ != "push"@ && "pull"@ != "send"@ && "pull"@ != "upload"@,
        "receive"@ != "push"@ && "receive"@ != "send"@ && "receive"@ != "upload"@,
        "download"@ != "push"@ && "download"@ != "send"@ && "download"@ != "upload"@,
        "bidirectional"@ != "push"@ && "bidirectional"@ != "send"@ && "bidirectional"@ != "upload"@
            && "bidirectional"@ != "pull"@ && "bidirectional"@ != "receive"@ && "bidirectional"@
            != "download"@,
        "bidir"@ != "push"@ && "bidir"@ != "send"@ && "bidir"@ != "upload"@ && "bidir"@ != "pull"@
            && "bidir"@ != "receive"@ && "bidir"@ != "download"@,
        "both"@ != "push"@ && "both"@ != "send"@ && "both"@ != "upload"@ && "both"@ != "pull"@
            && "both"@ != "receive"@ && "both"@ != "download"@,
        "sync"@ != "push"@ && "sync"@ != "send"@ && "sync"@ != "upload"@ && "sync"@ != "pull"@
            && "sync"@ != "receive"@ && "sync"@ != "download"@,
        "delta"@ != "full"@ && "delta"@ != "snapshot"@ && "delta"@ != "initial"@,
        "incremental"@ != "full"@ && "incremental"@ != "snapshot"@ && "incremental"@ != "initial"@,
        "diff"@ != "full"@ && "diff"@ != "snapshot"@ && "diff"@ != "initial"@,
{
    reveal_strlit("relay");
    reveal_strlit("p2p");
    reveal_strlit("peer");
    reveal_strlit("direct");
    reveal_strlit("server");
    reveal_strlit("holepunch");
    reveal_strlit("hole-punch");
    reveal_strlit("hole_punched");
    reveal_strlit("pull");
    reveal_strlit("push");
    reveal_strlit("send");
    reveal_strlit("upload");
    reveal_strlit("receive");
    reveal_strlit("download");
    reveal_strlit("bidirectional");
    reveal_strlit("bidir");
    reveal_strlit("both");
    reveal_strlit("sync");
    reveal_strlit("delta");
    reveal_strlit("full");
    reveal_strlit("snapshot");
    reveal_strlit("initial");
    reveal_strlit("incremental");
    reveal_strlit("diff");
    assert("relay"@.len() == 5);
    assert("p2p"@.len() == 3);
    assert("peer"@.len() == 4);
    assert("direct"@.len() == 6);
    assert("server"@.len() == 6);
    assert("holepunch"@.len() == 9);
    assert("hole-punch"@.len() == 10);
    assert("hole_punched"@.len() == 12);
    assert("pull"@.len() == 4);
    assert("push"@.len() == 4);
    assert("send"@.len() == 4);
    assert("upload"@.len() == 6);
    assert("receive"@.len() == 7);
    assert("download"@.len() == 8);
    assert("bidirectional"@.len() == 13);
    assert("bidir"@.len() == 5);
    assert("both"@.len() == 4);
    assert("sync"@.len() == 4);
    assert("delta"@.len() == 5);
    assert("full"@.len() == 4);
    assert("snapshot"@.len() == 8);
    assert("initial"@.len() == 7);
    assert("incremental"@.len() == 11);
    assert("diff"@.len() == 4);
    assert("server"@[0] == 's' && "direct"@[0] == 'd' && "relay"@[0] == 'r');
    assert("pull"@[2] == 'l' && "push"@[2] == 's' && "send"@[2] == 'n');
    assert("both"@[0] == 'b' && "push"@[0] == 'p' && "send"@[0] == 's' && "pull"@[0] == 'p');
    assert("sync"@[1] == 'y' && "send"@[1] == 'e' && "push"@[1] == 'u' && "pull"@[1] == 'u');
    assert("diff"@[0] == 'd' && "full"@[0] == 'f');
}

/// What each operation adds to the metrics, by the names of the metrics: connections and
/// syncs count once for what they are and once in total, bytes count as many as there are,
/// and times and numbers are handed on.
pub proof fn operations_are_counted(
    bytes: u64,
    duration: Duration,
    n: usize,
    incoming: Vec<MetricUpdate>,
    outgoing: Vec<MetricUpdate>,
    success: Vec<MetricUpdate>,
    failure: Vec<MetricUpdate>,
    sent: Vec<MetricUpdate>,
    received: Vec<MetricUpdate>,
    latency: Vec<MetricUpdate>,
    peers: Vec<MetricUpdate>,
    pending: Vec<MetricUpdate>,
    pool: Vec<MetricUpdate>,
)
    requires
        call_ensures(record_connection_incoming, (), incoming),
        call_ensures(record_connection_outgoing, (), outgoing),
        call_ensures(record_sync_success, (duration,), success),
        call_ensures(record_sync_failure, (duration,), failure),
        call_ensures(record_bytes_sent, (bytes,), sent),
        call_ensures(record_bytes_received, (bytes,), received),
        call_ensures(record_connection_latency, (duration,), latency),
        call_ensures(set_active_peers, (n,), peers),
        call_ensures(set_pending_changes, (n,), pending),
        call_ensures(set_pool_size, (n,), pool),
    ensures
        incoming@ == seq![
            MetricUpdate::Count(METRIC_CONNECTIONS_INCOMING, 1),
            MetricUpdate::Count(METRIC_CONNECTIONS_TOTAL, 1),
        ],
        outgoing@ == seq![
            MetricUpdate::Count(METRIC_CONNECTIONS_OUTGOING, 1),
            MetricUpdate::Count(METRIC_CONNECTIONS_TOTAL, 1),
        ],
        success@ == seq![
            MetricUpdate::Count(METRIC_SYNC_SUCCESS, 1),
            MetricUpdate::Count(METRIC_SYNC_TOTAL, 1),
            MetricUpdate::Time(METRIC_SYNC_DURATION, duration),
        ],
        failure@ == seq![
            MetricUpdate::Count(METRIC_SYNC_FAILURE, 1),
            MetricUpdate::Count(METRIC_SYNC_TOTAL, 1),
            MetricUpdate::Time(METRIC_SYNC_DURATION, duration),
        ],
        sent@ == seq![
            MetricUpdate::Count(METRIC_BYTES_SENT, bytes),
            MetricUpdate::Count(METRIC_BYTES_TOTAL, bytes),
        ],
        received@ == seq![
            MetricUpdate::Count(METRIC_BYTES_RECEIVED, bytes),
            MetricUpdate::Count(METRIC_BYTES_TOTAL, bytes),
        ],
        latency@ == seq![MetricUpdate::Time(METRIC_CONNECTION_LATENCY, duration)],
        peers@ == seq![MetricUpdate::Level(METRIC_PEERS_ACTIVE, n)],
        pending@ == seq![MetricUpdate::Level(METRIC_CHANGES_PENDING, n)],
        pool@ == seq![MetricUpdate::Level(METRIC_POOL_SIZE, n)],
{
}

/// A span is named by its operation and its resource, with a space between them.
pub proof fn span_names_operation_and_resource(operation: &str, resource: &str, s: String)
    requires
        call_ensures(span_name, (operation, resource), s),
    ensures
        s@.len() == operation@.len() + 1 + resource@.len(),
        s@.take(operation@.len() as int) == operation@,
        s@[operation@.len() as int] == ' ',
        s@.skip(operation@.len() as int + 1) == resource@,
{
    reveal_strlit(" ");
    assert(s@.take(operation@.len() as int) =~= operation@);
    assert(s@.skip(operation@.len() as int + 1) =~= resource@);
}

/// The names that observers of the library know attributes, spans and metrics by.
pub proof fn names_are_the_agreed_ones()
    ensures
        ATTR_RPC_SYSTEM@ == "rpc.system"@,
        ATTR_RPC_METHOD@ == "rpc.method"@,
        ATTR_RPC_STATUS_CODE@ == "rpc.response.status_code"@,
        ATTR_SERVER_ADDRESS@ == "server.address"@,
        ATTR_SERVER_PORT@ == "server.port"@,
        ATTR_DB_SYSTEM@ == "db.system"@,
        ATTR_DB_OPERATION@ == "db.operation.name"@,
        ATTR_DB_NAMESPACE@ == "db.namespace"@,
        ATTR_DB_NAME@ == "db.name"@,
        ATTR_DB_STATEMENT@ == "db.statement"@,
        ATTR_NET_TRANSPORT@ == "net.transport"@,
        ATTR_NET_PEER_ADDRESS@ == "net.peer.address"@,
        ATTR_NET_PEER_PORT@ == "net.peer.port"@,
        ATTR_ERROR_TYPE@ == "error.type"@,
        ATTR_ERROR_MESSAGE@ == "error.message"@,
        ATTR_IROH_NAMESPACE@ == "iroh.sync"@,
        ATTR_IROH_RELAY_USED@ == "iroh.sync.relay.used"@,
        ATTR_IROH_PEER_COUNT@ == "iroh.sync.peer.count"@,
        ATTR_IROH_CONNECTION_TYPE@ == "iroh.sync.connection.type"@,
        ATTR_IROH_SYNC_DIRECTION@ == "iroh.sync.sync.direction"@,
        ATTR_IROH_SYNC_CHANGES@ == "iroh.sync.sync.changes"@,
        ATTR_IROH_SYNC_TYPE@ == "iroh.sync.sync.type"@,
        ATTR_IROH_BYTES_TRANSFERRED@ == "iroh.sync.bytes.transferred"@,
        ATTR_IROH_TICKET_HASH@ == "iroh.sync.ticket.hash"@,
        SPAN_SYNC@ == "sync"@,
        SPAN_CONNECT@ == "connect"@,
        SPAN_TICKET_RESOLVE@ == "ticket.resolve"@,
        SPAN_SEND_BATCH@ == "send.batch"@,
        SPAN_RECEIVE_BATCH@ == "receive.batch"@,
        METRIC_CONNECTIONS_INCOMING@ == "iroh.sync.connections.incoming"@,
        METRIC_CONNECTIONS_OUTGOING@ == "iroh.sync.connections.outgoing"@,
        METRIC_CONNECTIONS_TOTAL@ == "iroh.sync.connections.total"@,
        METRIC_CONNECTION_LATENCY@ == "iroh.sync.connection.latency"@,
        METRIC_SYNC_SUCCESS@ == "iroh.sync.sync.success"@,
        METRIC_SYNC_FAILURE@ == "iroh.sync.sync.failure"@,
        METRIC_SYNC_TOTAL@ == "iroh.sync.sync.total"@,
        METRIC_SYNC_DURATION@ == "iroh.sync.sync.duration"@,
        METRIC_SYNC_DIRECTION@ == "iroh.sync.sync.direction"@,
        METRIC_SYNC_TYPE@ == "iroh.sync.sync.type"@,
        METRIC_BYTES_SENT@ == "iroh.sync.bytes.sent"@,
        METRIC_BYTES_RECEIVED@ == "iroh.sync.bytes.received"@,
        METRIC_BYTES_TOTAL@ == "iroh.sync.bytes.total"@,
        METRIC_PEERS_ACTIVE@ == "iroh.sync.peers.active"@,
        METRIC_CHANGES_PENDING@ == "iroh.sync.changes.pending"@,
        METRIC_POOL_SIZE@ == "iroh.sync.pool.size"@,
        METRIC_RELAY_USED@ == "iroh.sync.relay.used"@,
        METRIC_TICKETS_GENERATED@ == "iroh.sync.tickets.generated"@,
        METRIC_TICKETS_RESOLVED@ == "iroh.sync.tickets.resolved"@,
{
}

}
