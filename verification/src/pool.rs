//! Connection pool for reusing connections between peers.
//!
//! This module provides connection pooling to avoid the overhead of
//! establishing new connections for each sync operation. What a connection is, is left
//! to the caller.

use crate::assoc;
use crate::assoc::{find, put_entry};
use crate::ext::time;
use crate::peer;
use crate::peer::EndpointId;
use std::time::{Duration, Instant};
use vstd::prelude::*;

verus! {

/// A pooled connection to a peer.
#[derive(Debug)]
pub struct PooledConnection<C> {
    /// The actual connection
    connection: C,
    /// When the connection was established
    created_at: Instant,
    /// Last time the connection was used
    last_used: Instant,
    /// Number of times this connection has been used
    use_count: u64,
    /// Whether the connection is being used
    in_use: bool,
    /// Whether the connection has been marked as closed
    marked_closed: bool,
}

/// What is known of a pooled connection. Times are in nanoseconds of the clock.
pub struct ConnectionModel<C> {
    pub connection: C,
    pub created_at: int,
    pub last_used: int,
    pub use_count: u64,
    pub in_use: bool,
    pub closed: bool,
}

impl<C> View for PooledConnection<C> {
    type V = ConnectionModel<C>;

    closed spec fn view(&self) -> ConnectionModel<C> {
        ConnectionModel {
            connection: self.connection,
            created_at: time::instant_nanos(self.created_at),
            last_used: time::instant_nanos(self.last_used),
            use_count: self.use_count,
            in_use: self.in_use,
            closed: self.marked_closed,
        }
    }
}

/// A connection that was established just now and never used.
pub open spec fn new_connection<C>(connection: C, now: int) -> ConnectionModel<C> {
    ConnectionModel {
        connection,
        created_at: now,
        last_used: now,
        use_count: 0,
        in_use: false,
        closed: false,
    }
}

/// A connection after it was taken into use.
pub open spec fn used<C>(c: ConnectionModel<C>, now: int) -> ConnectionModel<C> {
    ConnectionModel { last_used: now, use_count: (c.use_count + 1) as u64, in_use: true, ..c }
}

impl<C> PooledConnection<C> {
    /// Create a new pooled connection, as of a reading of the clock.
    pub fn new_at(connection: C, now: Instant) -> (c: Self)
        ensures
            c@ == new_connection(connection, time::instant_nanos(now)),
    {
        PooledConnection {
            connection,
            created_at: now,
            last_used: now,
            use_count: 0,
            in_use: false,
            marked_closed: false,
        }
    }

    /// Create a new pooled connection.
    pub fn new(connection: C) -> (c: Self)
        ensures
            exists|now: Instant| c@ == new_connection(connection, #[trigger] time::instant_nanos(now)),
    {
        PooledConnection::new_at(connection, Instant::now())
    }

    /// Mark the connection as being used, as of a reading of the clock.
    pub fn mark_used_at(&mut self, now: Instant)
        requires
            old(self)@.use_count < u64::MAX,
        ensures
            final(self)@ == used(old(self)@, time::instant_nanos(now)),
    {
        self.last_used = now;
        self.use_count = self.use_count + 1;
        self.in_use = true;
    }

    /// Mark the connection as being used.
    pub fn mark_used(&mut self)
        requires
            old(self)@.use_count < u64::MAX,
        ensures
            exists|now: Instant| final(self)@ == used(old(self)@, #[trigger] time::instant_nanos(now)),
    {
        self.mark_used_at(Instant::now());
    }

    /// Mark the connection as released (returned to pool).
    pub fn mark_released(&mut self)
        ensures
            final(self)@ == (ConnectionModel { in_use: false, ..old(self)@ }),
    {
        self.in_use = false;
    }

    /// Mark the connection as closed.
    pub fn mark_closed(&mut self)
        ensures
            final(self)@ == (ConnectionModel { closed: true, ..old(self)@ }),
    {
        self.marked_closed = true;
    }

    /// Check if the connection is marked as closed.
    pub fn is_closed(&self) -> (r: bool)
        ensures
            r == self@.closed,
    {
        self.marked_closed
    }

    /// Get a reference to the underlying connection.
    pub fn connection(&self) -> (c: &C)
        ensures
            *c == self@.connection,
    {
        &self.connection
    }

    /// Get the age of the connection at a reading of the clock.
    pub fn age_at(&self, now: Instant) -> (d: Duration)
        ensures
            time::duration_nanos(d) == time::elapsed_nanos(self@.created_at, time::instant_nanos(now)),
    {
        now.duration_since(self.created_at)
    }

    /// Get the age of the connection.
    pub fn age(&self) -> (d: Duration)
        ensures
            exists|now: Instant|
                time::duration_nanos(d) == time::elapsed_nanos(self@.created_at, #[trigger] time::instant_nanos(now)),
    {
        self.age_at(Instant::now())
    }

    /// Check if connection is currently in use.
    pub fn is_in_use(&self) -> (r: bool)
        ensures
            r == self@.in_use,
    {
        self.in_use
    }
}

/// Configuration for the connection pool.
#[derive(Debug, Clone, Copy)]
pub struct ConnectionPoolConfig {
    /// Maximum number of connections in the pool
    pub max_connections: usize,
    /// Maximum age of a connection before it's closed
    pub max_age: Duration,
    /// Maximum idle time before a connection is closed
    pub max_idle: Duration,
    /// Maximum uses per connection (0 = unlimited)
    pub max_uses: u64,
    /// Interval between health checks
    pub health_check_interval: Duration,
}

/// Whether a configuration has the default values: ten connections, an hour of age, five
/// minutes idle, a hundred uses, a check every minute.
pub open spec fn is_default_pool_config(c: ConnectionPoolConfig) -> bool {
    &&& c.max_connections == 10
    &&& time::duration_nanos(c.max_age) == 3_600_000_000_000
    &&& time::duration_nanos(c.max_idle) == 300_000_000_000
    &&& c.max_uses == 100
    &&& time::duration_nanos(c.health_check_interval) == 60_000_000_000
}

impl Default for ConnectionPoolConfig {
    fn default() -> (c: Self)
        ensures
            is_default_pool_config(c),
    {
        ConnectionPoolConfig {
            max_connections: 10,
            max_age: Duration::from_secs(3600),
            max_idle: Duration::from_secs(300),
            max_uses: 100,
            health_check_interval: Duration::from_secs(60),
        }
    }
}

impl ConnectionPoolConfig {
    /// Create a new config with default values.
    pub fn new() -> (c: Self)
        ensures
            is_default_pool_config(c),
    {
        ConnectionPoolConfig::default()
    }

    /// Set the maximum number of connections.
    pub fn with_max_connections(self, max: usize) -> (c: Self)
        ensures
            c == (ConnectionPoolConfig { max_connections: max, ..self }),
    {
        ConnectionPoolConfig { max_connections: max, ..self }
    }

    /// Set the maximum age of a connection.
    pub fn with_max_age(self, age: Duration) -> (c: Self)
        ensures
            c == (ConnectionPoolConfig { max_age: age, ..self }),
    {
        ConnectionPoolConfig { max_age: age, ..self }
    }

    /// Set the maximum idle time.
    pub fn with_max_idle(self, idle: Duration) -> (c: Self)
        ensures
            c == (ConnectionPoolConfig { max_idle: idle, ..self }),
    {
        ConnectionPoolConfig { max_idle: idle, ..self }
    }

    /// Set the maximum uses per connection.
    pub fn with_max_uses(self, uses: u64) -> (c: Self)
        ensures
            c == (ConnectionPoolConfig { max_uses: uses, ..self }),
    {
        ConnectionPoolConfig { max_uses: uses, ..self }
    }
}

/// Whether a connection is healthy at a time: not closed, not too old, not idle for too
/// long, and not used too often.
pub open spec fn is_healthy<C>(config: ConnectionPoolConfig, c: ConnectionModel<C>, now: int) -> bool {
    &&& !c.closed
    &&& time::elapsed_nanos(c.created_at, now) <= time::duration_nanos(config.max_age)
    &&& time::elapsed_nanos(c.last_used, now) <= time::duration_nanos(config.max_idle)
    &&& config.max_uses > 0 ==> c.use_count < config.max_uses
}

/// Statistics about the connection pool.
#[derive(Debug, Clone, Copy)]
pub struct ConnectionPoolStats {
    /// Number of active connections
    pub active_connections: usize,
    /// Number of connections currently in use
    pub in_use_connections: usize,
    /// Maximum connections allowed
    pub max_connections: usize,
    /// Total uses across all connections
    pub total_uses: u64,
    /// Age of the oldest connection
    pub oldest_connection_age: Duration,
}

/// A connection pool for managing peer connections. Each peer has one connection at
/// most; it is known by the peer's identifier in hexadecimal.
#[derive(Debug)]
pub struct ConnectionPool<C> {
    /// Pool configuration
    config: ConnectionPoolConfig,
    /// Active connections keyed by peer endpoint ID
    connections: Vec<(String, PooledConnection<C>)>,
}

impl<C> View for ConnectionPool<C> {
    type V = Seq<(Seq<char>, ConnectionModel<C>)>;

    closed spec fn view(&self) -> Seq<(Seq<char>, ConnectionModel<C>)> {
        assoc::keyed(self.connections@)
    }
}

/// Whether a peer has a connection that can be used again: healthy, and not in use.
pub open spec fn can_reuse<C>(
    config: ConnectionPoolConfig,
    connections: Seq<(Seq<char>, ConnectionModel<C>)>,
    peer: Seq<char>,
    now: int,
) -> bool {
    &&& assoc::has_key(connections, peer)
    &&& !assoc::lookup(connections, peer)->0.in_use
    &&& is_healthy(config, assoc::lookup(connections, peer)->0, now)
}

/// Whether a connection is the oldest of those not in use, the first of several.
pub open spec fn is_oldest_unused<C>(
    connections: Seq<(Seq<char>, ConnectionModel<C>)>,
    i: int,
) -> bool {
    &&& 0 <= i < connections.len()
    &&& !connections[i].1.in_use
    &&& forall|j: int|
        0 <= j < connections.len() && !(#[trigger] connections[j]).1.in_use
            ==> connections[i].1.created_at <= connections[j].1.created_at && (j < i
            ==> connections[i].1.created_at < connections[j].1.created_at)
}

/// Whether all connections are in use.
pub open spec fn all_in_use<C>(connections: Seq<(Seq<char>, ConnectionModel<C>)>) -> bool {
    forall|j: int| 0 <= j < connections.len() ==> (#[trigger] connections[j]).1.in_use
}

/// Whether connections are those of a pool after room was made for one more: where the
/// pool is full, the oldest connection not in use is gone, if there is one.
pub open spec fn is_trimmed<C>(
    before: Seq<(Seq<char>, ConnectionModel<C>)>,
    max: usize,
    after: Seq<(Seq<char>, ConnectionModel<C>)>,
) -> bool {
    if before.len() >= max && !all_in_use(before) {
        exists|i: int| #[trigger] is_oldest_unused(before, i) && after == before.remove(i)
    } else {
        after == before
    }
}

/// The connections to keep when cleaning up at a time: those that are healthy.
pub open spec fn kept<C>(
    config: ConnectionPoolConfig,
    connections: Seq<(Seq<char>, ConnectionModel<C>)>,
    now: int,
) -> Seq<(Seq<char>, ConnectionModel<C>)>
    decreases connections.len(),
{
    if connections.len() == 0 {
        Seq::empty()
    } else {
        let before = kept(config, connections.drop_last(), now);
        let c = connections.last();
        if is_healthy(config, c.1, now) {
            before.push(c)
        } else {
            before
        }
    }
}

/// The number of uses of all connections.
pub open spec fn use_total<C>(connections: Seq<(Seq<char>, ConnectionModel<C>)>) -> nat
    decreases connections.len(),
{
    if connections.len() == 0 {
        0
    } else {
        use_total(connections.drop_last()) + connections.last().1.use_count as nat
    }
}

/// The number of connections in use.
pub open spec fn in_use_total<C>(connections: Seq<(Seq<char>, ConnectionModel<C>)>) -> nat
    decreases connections.len(),
{
    if connections.len() == 0 {
        0
    } else {
        in_use_total(connections.drop_last()) + if connections.last().1.in_use { 1nat } else { 0nat }
    }
}

/// The age of the oldest connection at a time; zero, if there is none.
pub open spec fn oldest_age<C>(connections: Seq<(Seq<char>, ConnectionModel<C>)>, now: int) -> int
    decreases connections.len(),
{
    if connections.len() == 0 {
        0
    } else {
        let before = oldest_age(connections.drop_last(), now);
        let age = time::elapsed_nanos(connections.last().1.created_at, now);
        if age > before {
            age
        } else {
            before
        }
    }
}

/// Fewer connections have no more uses.
proof fn lemma_use_total_grows<C>(connections: Seq<(Seq<char>, ConnectionModel<C>)>, k: int)
    requires
        0 <= k <= connections.len(),
    ensures
        use_total(connections.take(k)) <= use_total(connections),
    decreases connections.len(),
{
    if k == connections.len() {
        assert(connections.take(k) =~= connections);
    } else {
        lemma_use_total_grows(connections.drop_last(), k);
        assert(connections.drop_last().take(k) =~= connections.take(k));
    }
}

/// Taking an entry out keeps keys distinct.
proof fn lemma_remove_distinct<V>(s: Seq<(Seq<char>, V)>, i: int)
    requires
        assoc::distinct_keys(s),
        0 <= i < s.len(),
    ensures
        assoc::distinct_keys(s.remove(i)),
{
    let t = s.remove(i);
    assert forall|a: int, b: int| 0 <= a < b < t.len() implies (#[trigger] t[a]).0 != (
    #[trigger] t[b]).0 by {
        let x = if a < i { a } else { a + 1 };
        let y = if b < i { b } else { b + 1 };
        assert(t[a] == s[x] && t[b] == s[y]);
    }
}

/// Cleaning up keeps keys distinct: what is kept was there before.
proof fn lemma_kept<C>(
    config: ConnectionPoolConfig,
    connections: Seq<(Seq<char>, ConnectionModel<C>)>,
    now: int,
)
    requires
        assoc::distinct_keys(connections),
    ensures
        assoc::distinct_keys(kept(config, connections, now)),
        forall|i: int|
            0 <= i < kept(config, connections, now).len() ==> connections.contains(
                #[trigger] kept(config, connections, now)[i],
            ),
    decreases connections.len(),
{
    if connections.len() > 0 {
        let init = connections.drop_last();
        assert forall|i: int, j: int| 0 <= i < j < init.len() implies (#[trigger] init[i]).0 != (
        #[trigger] init[j]).0 by {
            assert(connections[i].0 != connections[j].0);
        }
        lemma_kept(config, init, now);
        let before = kept(config, init, now);
        let all = kept(config, connections, now);
        assert forall|i: int| 0 <= i < before.len() implies connections.contains(
            #[trigger] before[i],
        ) && before[i].0 != connections.last().0 by {
            assert(init.contains(before[i]));
            let k = choose|k: int| 0 <= k < init.len() && init[k] == before[i];
            assert(connections[k] == before[i]);
            assert(connections[k].0 != connections[connections.len() - 1].0);
        }
        assert(connections.contains(connections.last())) by {
            assert(connections[connections.len() - 1] == connections.last());
        }
        assert forall|i: int, j: int| 0 <= i < j < all.len() implies (#[trigger] all[i]).0 != (
        #[trigger] all[j]).0 by {
            assert(all[i] == before[i]);
            if j < before.len() {
                assert(all[j] == before[j]);
            }
        }
        assert forall|i: int| 0 <= i < all.len() implies connections.contains(#[trigger] all[i]) by {
            if i < before.len() {
                assert(all[i] == before[i]);
            }
        }
    }
}

/// Cleaning up takes the stale connections out of a pool and no others: a connection is
/// kept if and only if it was in the pool and is healthy, in use or not.
pub proof fn cleanup_keeps_the_healthy<C>(
    config: ConnectionPoolConfig,
    connections: Seq<(Seq<char>, ConnectionModel<C>)>,
    now: int,
    c: (Seq<char>, ConnectionModel<C>),
)
    ensures
        kept(config, connections, now).contains(c) <==> connections.contains(c) && is_healthy(
            config,
            c.1,
            now,
        ),
    decreases connections.len(),
{
    if connections.len() > 0 {
        let init = connections.drop_last();
        let before = kept(config, init, now);
        let all = kept(config, connections, now);
        let last = connections.last();
        cleanup_keeps_the_healthy(config, init, now, c);
        if connections.contains(c) {
            let k = choose|k: int| 0 <= k < connections.len() && connections[k] == c;
            if k < init.len() {
                assert(init[k] == c);
            }
        }
        if init.contains(c) {
            let k = choose|k: int| 0 <= k < init.len() && init[k] == c;
            assert(connections[k] == c);
        }
        assert(connections[connections.len() - 1] == last);
        if before.contains(c) {
            let k = choose|k: int| 0 <= k < before.len() && before[k] == c;
            assert(all[k] == c);
        }
        if all.contains(c) {
            let k = choose|k: int| 0 <= k < all.len() && all[k] == c;
            if k < before.len() {
                assert(before[k] == c);
            }
        }
        if is_healthy(config, last.1, now) {
            assert(all[before.len() as int] == last);
        }
    }
}

/// Adding a connection does not take a pool over its limit, unless all connections are
/// in use.
pub proof fn adding_keeps_the_limit<C>(
    before: Seq<(Seq<char>, ConnectionModel<C>)>,
    max: usize,
    room: Seq<(Seq<char>, ConnectionModel<C>)>,
    peer: Seq<char>,
    c: ConnectionModel<C>,
)
    requires
        is_trimmed(before, max, room),
        before.len() <= max,
        before.len() < max || !all_in_use(before),
    ensures
        assoc::put(room, peer, c).len() <= max,
{
    assoc::lemma_key_index(room, peer);
}

/// A connection that was just taken into use is not given out again; once released, it
/// is, as long as it is healthy.
pub proof fn in_use_until_released<C>(
    config: ConnectionPoolConfig,
    connections: Seq<(Seq<char>, ConnectionModel<C>)>,
    peer: Seq<char>,
    taken: int,
    released: int,
    now: int,
)
    requires
        assoc::distinct_keys(connections),
        can_reuse(config, connections, peer, taken),
    ensures
        ({
            let c = used(assoc::lookup(connections, peer)->0, taken);
            let out = assoc::put(connections, peer, c);
            let back = ConnectionModel { in_use: false, last_used: released, ..c };
            &&& !can_reuse(config, out, peer, now)
            &&& can_reuse(config, assoc::put(out, peer, back), peer, now) == is_healthy(config, back, now)
        }),
{
    let c = used(assoc::lookup(connections, peer)->0, taken);
    let back = ConnectionModel { in_use: false, last_used: released, ..c };
    assoc::lemma_put(connections, peer, c);
    assoc::lemma_put(assoc::put(connections, peer, c), peer, back);
}

impl<C> ConnectionPool<C> {
    /// Create a new connection pool.
    pub fn new(config: ConnectionPoolConfig) -> (p: Self)
        ensures
            p@ == Seq::<(Seq<char>, ConnectionModel<C>)>::empty(),
            p.configured() == config,
            assoc::distinct_keys(p@),
    {
        let p = ConnectionPool { config, connections: Vec::new() };
        assert(p@ =~= Seq::<(Seq<char>, ConnectionModel<C>)>::empty());
        p
    }

    /// The configuration of the pool.
    pub closed spec fn configured(self) -> ConnectionPoolConfig {
        self.config
    }

    /// Check if a connection is healthy at a reading of the clock.
    fn is_connection_healthy(&self, pooled: &PooledConnection<C>, now: Instant) -> (r: bool)
        ensures
            r == is_healthy(self.configured(), pooled@, time::instant_nanos(now)),
    {
        if pooled.marked_closed {
            return false;
        }
        if pooled.age_at(now).as_nanos() > self.config.max_age.as_nanos() {
            return false;
        }
        if now.duration_since(pooled.last_used).as_nanos() > self.config.max_idle.as_nanos() {
            return false;
        }
        if self.config.max_uses > 0 && pooled.use_count >= self.config.max_uses {
            return false;
        }
        true
    }

    /// Take the connection to a peer into use, at a reading of the clock, if there is one
    /// that is healthy and not in use. Returns whether it was.
    pub fn reuse_at(&mut self, peer_id: &EndpointId, now: Instant) -> (r: bool)
        requires
            assoc::lookup(old(self)@, peer::hex_of(peer_id@)) matches Some(c) ==> c.use_count < u64::MAX,
        ensures
            r == can_reuse(old(self).configured(), old(self)@, peer::hex_of(peer_id@), time::instant_nanos(now)),
            final(self)@ == if r {
                assoc::put(
                    old(self)@,
                    peer::hex_of(peer_id@),
                    used(assoc::lookup(old(self)@, peer::hex_of(peer_id@))->0, time::instant_nanos(now)),
                )
            } else {
                old(self)@
            },
            final(self).configured() == old(self).configured(),
            assoc::distinct_keys(old(self)@) ==> assoc::distinct_keys(final(self)@),
    {
        let key = peer_id.to_hex();
        let i = find(&self.connections, &key);
        proof {
            assoc::lemma_key_index(self@, key@);
        }
        if i >= self.connections.len() {
            return false;
        }
        if self.connections[i].1.in_use || !self.is_connection_healthy(
            &self.connections[i].1,
            now,
        ) {
            return false;
        }
        assert(assoc::lookup(self@, key@) is Some);
        let ghost before = self@;
        self.connections[i].1.mark_used_at(now);
        proof {
            let c = used(assoc::lookup(before, key@)->0, time::instant_nanos(now));
            assert(self@ =~= assoc::put(before, key@, c));
            if assoc::distinct_keys(before) {
                assoc::lemma_put(before, key@, c);
            }
        }
        true
    }

    /// The connection to a peer, if there is one.
    pub fn connection(&self, peer_id: &EndpointId) -> (r: Option<&C>)
        ensures
            match r {
                Some(c) => assoc::has_key(self@, peer::hex_of(peer_id@)) && *c == assoc::lookup(
                    self@,
                    peer::hex_of(peer_id@),
                )->0.connection,
                None => !assoc::has_key(self@, peer::hex_of(peer_id@)),
            },
    {
        let key = peer_id.to_hex();
        let i = find(&self.connections, &key);
        proof {
            assoc::lemma_key_index(self@, key@);
        }
        if i < self.connections.len() {
            Some(self.connections[i].1.connection())
        } else {
            None
        }
    }

    /// Find the oldest unused connection in the pool.
    fn find_oldest_unused_connection(&self) -> (r: Option<usize>)
        ensures
            match r {
                Some(i) => is_oldest_unused(self@, i as int),
                None => all_in_use(self@),
            },
    {
        let mut best: Option<usize> = None;
        let mut i: usize = 0;
        while i < self.connections.len()
            invariant
                i <= self.connections@.len(),
                match best {
                    Some(b) => b < i && is_oldest_unused(self@.take(i as int), b as int),
                    None => all_in_use(self@.take(i as int)),
                },
            decreases self.connections@.len() - i,
        {
            let ghost before = self@.take(i as int);
            let ghost now = self@.take(i + 1);
            proof {
                assert(now =~= before.push(self@[i as int]));
                assert forall|j: int| 0 <= j < i implies #[trigger] now[j] == before[j] by {}
            }
            if !self.connections[i].1.in_use {
                let older: bool = match best {
                    Some(b) => self.connections[b].1.created_at.duration_since(
                        self.connections[i].1.created_at,
                    ).as_nanos() > 0,
                    None => true,
                };
                if older {
                    best = Some(i);
                }
            }
            i = i + 1;
        }
        assert(self@.take(i as int) =~= self@);
        best
    }

    /// Add a new connection to a peer, at a reading of the clock, and take it into use.
    ///
    /// If the pool is full, the oldest connection that is not in use leaves it first.
    pub fn insert_at(&mut self, peer_id: &EndpointId, connection: C, now: Instant)
        ensures
            exists|room: Seq<(Seq<char>, ConnectionModel<C>)>|
                #[trigger] is_trimmed(old(self)@, old(self).configured().max_connections, room)
                    && final(self)@ == assoc::put(
                    room,
                    peer::hex_of(peer_id@),
                    used(new_connection(connection, time::instant_nanos(now)), time::instant_nanos(now)),
                ),
            final(self).configured() == old(self).configured(),
            assoc::distinct_keys(old(self)@) ==> assoc::distinct_keys(final(self)@),
    {
        let key = peer_id.to_hex();
        if self.connections.len() >= self.config.max_connections {
            match self.find_oldest_unused_connection() {
                Some(i) => {
                    let ghost before = self@;
                    let _ = self.connections.remove(i);
                    assert(self@ =~= before.remove(i as int));
                    assert(is_oldest_unused(before, i as int));
                    assert(!all_in_use(before)) by {
                        assert(!before[i as int].1.in_use);
                    }
                    proof {
                        if assoc::distinct_keys(before) {
                            lemma_remove_distinct(before, i as int);
                        }
                    }
                },
                None => {},
            }
        }
        assert(is_trimmed(old(self)@, old(self).configured().max_connections, self@));
        let mut pooled = PooledConnection::new_at(connection, now);
        pooled.mark_used_at(now);
        proof {
            if assoc::distinct_keys(self@) {
                assoc::lemma_put(self@, key@, pooled@);
            }
        }
        put_entry(&mut self.connections, key, pooled);
    }

    /// Release a connection back to the pool, at a reading of the clock.
    pub fn release_at(&mut self, peer_id: &EndpointId, now: Instant)
        ensures
            ({
                let key = peer::hex_of(peer_id@);
                final(self)@ == if assoc::has_key(old(self)@, key) {
                    assoc::put(
                        old(self)@,
                        key,
                        ConnectionModel {
                            in_use: false,
                            last_used: time::instant_nanos(now),
                            ..assoc::lookup(old(self)@, key)->0
                        },
                    )
                } else {
                    old(self)@
                }
            }),
            final(self).configured() == old(self).configured(),
            assoc::distinct_keys(old(self)@) ==> assoc::distinct_keys(final(self)@),
    {
        let key = peer_id.to_hex();
        let i = find(&self.connections, &key);
        let ghost before = self@;
        proof {
            assoc::lemma_key_index(before, key@);
        }
        if i < self.connections.len() {
            self.connections[i].1.mark_released();
            self.connections[i].1.last_used = now;
            proof {
                let c = ConnectionModel {
                    in_use: false,
                    last_used: time::instant_nanos(now),
                    ..assoc::lookup(before, key@)->0
                };
                assert(self@ =~= assoc::put(before, key@, c));
                if assoc::distinct_keys(before) {
                    assoc::lemma_put(before, key@, c);
                }
            }
        }
    }

    /// Release a connection back to the pool.
    pub fn release(&mut self, peer_id: &EndpointId)
        ensures
            !assoc::has_key(old(self)@, peer::hex_of(peer_id@)) ==> final(self)@ == old(self)@,
            assoc::has_key(old(self)@, peer::hex_of(peer_id@)) ==> exists|now: Instant|
                final(self)@ == assoc::put(
                    old(self)@,
                    peer::hex_of(peer_id@),
                    ConnectionModel {
                        in_use: false,
                        last_used: #[trigger] time::instant_nanos(now),
                        ..assoc::lookup(old(self)@, peer::hex_of(peer_id@))->0
                    },
                ),
            final(self).configured() == old(self).configured(),
            assoc::distinct_keys(old(self)@) ==> assoc::distinct_keys(final(self)@),
    {
        self.release_at(peer_id, Instant::now());
    }

    /// Remove a connection from the pool.
    pub fn remove(&mut self, peer_id: &EndpointId)
        ensures
            ({
                let key = peer::hex_of(peer_id@);
                final(self)@ == if assoc::has_key(old(self)@, key) {
                    old(self)@.remove(assoc::key_index(old(self)@, key))
                } else {
                    old(self)@
                }
            }),
            final(self).configured() == old(self).configured(),
            assoc::distinct_keys(old(self)@) ==> assoc::distinct_keys(final(self)@),
    {
        let key = peer_id.to_hex();
        let i = find(&self.connections, &key);
        let ghost before = self@;
        proof {
            assoc::lemma_key_index(before, key@);
        }
        if i < self.connections.len() {
            let _ = self.connections.remove(i);
            assert(self@ =~= before.remove(i as int));
            proof {
                if assoc::distinct_keys(before) {
                    lemma_remove_distinct(before, i as int);
                }
            }
        }
    }

    /// Clean up stale connections, at a reading of the clock. The healthy ones stay.
    pub fn cleanup_at(&mut self, now: Instant)
        ensures
            final(self)@ == kept(old(self).configured(), old(self)@, time::instant_nanos(now)),
            final(self).configured() == old(self).configured(),
            assoc::distinct_keys(old(self)@) ==> assoc::distinct_keys(final(self)@),
    {
        let mut rest: Vec<(String, PooledConnection<C>)> = Vec::new();
        std::mem::swap(&mut rest, &mut self.connections);
        let ghost all = old(self)@;
        let ghost config = old(self).configured();
        let mut i: usize = 0;
        let n: usize = rest.len();
        assert(all.take(0) =~= Seq::<(Seq<char>, ConnectionModel<C>)>::empty());
        assert(self@ =~= Seq::<(Seq<char>, ConnectionModel<C>)>::empty());
        while i < n
            invariant
                i <= n,
                n == all.len(),
                rest@.len() == n - i,
                config == self.configured(),
                self.configured() == old(self).configured(),
                assoc::keyed(rest@) == all.skip(i as int),
                self@ == kept(config, all.take(i as int), time::instant_nanos(now)),
            decreases n - i,
        {
            let ghost was = rest@;
            let entry = rest.remove(0);
            proof {
                assert(assoc::keyed(was)[0] == all.skip(i as int)[0]);
                assert(all.take(i + 1).drop_last() =~= all.take(i as int));
                assert(all.skip(i + 1) =~= all.skip(i as int).remove(0));
                assert(assoc::keyed(rest@) =~= assoc::keyed(was).remove(0));
            }
            if self.is_connection_healthy(&entry.1, now) {
                let ghost before = self@;
                self.connections.push(entry);
                assert(self@ =~= before.push(all[i as int]));
            }
            i = i + 1;
        }
        assert(all.take(i as int) =~= all);
        proof {
            if assoc::distinct_keys(all) {
                lemma_kept(config, all, time::instant_nanos(now));
            }
        }
    }

    /// Clean up stale connections. The healthy ones stay.
    pub fn cleanup(&mut self)
        ensures
            exists|now: Instant|
                final(self)@ == kept(
                    old(self).configured(),
                    old(self)@,
                    #[trigger] time::instant_nanos(now),
                ),
            final(self).configured() == old(self).configured(),
            assoc::distinct_keys(old(self)@) ==> assoc::distinct_keys(final(self)@),
    {
        self.cleanup_at(Instant::now());
    }

    /// Get the number of active connections.
    pub fn len(&self) -> (n: usize)
        ensures
            n == self@.len(),
    {
        self.connections.len()
    }

    /// Check if the pool is empty.
    pub fn is_empty(&self) -> (r: bool)
        ensures
            r == (self@.len() == 0),
    {
        self.connections.is_empty()
    }

    /// How often the pooled connection to a peer was used, if there is one.
    pub fn use_count(&self, peer_id: &EndpointId) -> (r: Option<u64>)
        ensures
            r == (match assoc::lookup(self@, peer::hex_of(peer_id@)) {
                Some(c) => Some(c.use_count),
                None => None,
            }),
    {
        let key = peer_id.to_hex();
        let i = find(&self.connections, &key);
        if i < self.connections.len() {
            assert(self@[i as int].1 == self.connections@[i as int].1@);
            Some(self.connections[i].1.use_count)
        } else {
            None
        }
    }

    /// How often all connections were used, if the number fits.
    pub fn total_uses(&self) -> (r: Option<u64>)
        ensures
            r == (if use_total(self@) <= u64::MAX {
                Some(use_total(self@) as u64)
            } else {
                None
            }),
    {
        let mut total: u64 = 0;
        let mut i: usize = 0;
        let ghost all = self@;
        assert(all.take(0) =~= Seq::<(Seq<char>, ConnectionModel<C>)>::empty());
        while i < self.connections.len()
            invariant
                i <= self.connections@.len(),
                all == self@,
                total == use_total(all.take(i as int)),
            decreases self.connections@.len() - i,
        {
            proof {
                assert(all.take(i + 1).drop_last() =~= all.take(i as int));
                lemma_use_total_grows(all, i + 1);
            }
            match total.checked_add(self.connections[i].1.use_count) {
                Some(t) => {
                    total = t;
                },
                None => {
                    return None;
                },
            }
            i = i + 1;
        }
        assert(all.take(i as int) =~= all);
        Some(total)
    }

    /// Get connection stats at a reading of the clock.
    pub fn stats_at(&self, now: Instant) -> (s: ConnectionPoolStats)
        requires
            use_total(self@) <= u64::MAX,
        ensures
            s.active_connections == self@.len(),
            s.in_use_connections == in_use_total(self@),
            s.max_connections == self.configured().max_connections,
            s.total_uses == use_total(self@),
            time::duration_nanos(s.oldest_connection_age) == oldest_age(self@, time::instant_nanos(now)),
    {
        let mut total_uses: u64 = 0;
        let mut in_use: usize = 0;
        let mut oldest: Duration = Duration::from_secs(0);
        let mut i: usize = 0;
        let ghost all = self@;
        let ghost t = time::instant_nanos(now);
        assert(all.take(0) =~= Seq::<(Seq<char>, ConnectionModel<C>)>::empty());
        while i < self.connections.len()
            invariant
                i <= self.connections@.len(),
                all == self@,
                t == time::instant_nanos(now),
                use_total(all) <= u64::MAX,
                total_uses == use_total(all.take(i as int)),
                in_use == in_use_total(all.take(i as int)),
                in_use <= i,
                time::duration_nanos(oldest) == oldest_age(all.take(i as int), t),
            decreases self.connections@.len() - i,
        {
            proof {
                assert(all.take(i + 1).drop_last() =~= all.take(i as int));
                lemma_use_total_grows(all, i + 1);
            }
            total_uses = total_uses + self.connections[i].1.use_count;
            if self.connections[i].1.in_use {
                in_use = in_use + 1;
            }
            let age = self.connections[i].1.age_at(now);
            if age.as_nanos() > oldest.as_nanos() {
                oldest = age;
            }
            i = i + 1;
        }
        assert(all.take(i as int) =~= all);
        ConnectionPoolStats {
            active_connections: self.connections.len(),
            in_use_connections: in_use,
            max_connections: self.config.max_connections,
            total_uses,
            oldest_connection_age: oldest,
        }
    }

    /// Get connection stats.
    pub fn stats(&self) -> (s: ConnectionPoolStats)
        requires
            use_total(self@) <= u64::MAX,
        ensures
            s.active_connections == self@.len(),
            s.in_use_connections == in_use_total(self@),
            s.max_connections == self.configured().max_connections,
            s.total_uses == use_total(self@),
            exists|now: Instant|
                time::duration_nanos(s.oldest_connection_age) == oldest_age(
                    self@,
                    #[trigger] time::instant_nanos(now),
                ),
    {
        self.stats_at(Instant::now())
    }
}

/// Which connection a pool gives out: the one to the peer, where there is one that nobody
/// uses, that is not closed, that is no older and was idle for no longer than allowed, and
/// that was used less often than allowed, if there is a limit on that. No fault means that
/// it is given out; any fault means that it is not.
pub proof fn only_sound_connections_are_given_out<C>(
    p: &mut ConnectionPool<C>,
    peer_id: EndpointId,
    now: Instant,
    r: bool,
    i: int,
)
    requires
        call_ensures(ConnectionPool::<C>::reuse_at, (p, &peer_id, now), r),
        assoc::distinct_keys(old(p)@),
        0 <= i < old(p)@.len(),
        old(p)@[i].0 == peer::hex_of(peer_id@),
        old(p)@[i].1.created_at <= time::instant_nanos(now),
        old(p)@[i].1.last_used <= time::instant_nanos(now),
    ensures
        ({
            let c = old(p)@[i].1;
            let config = old(p).configured();
            let t = time::instant_nanos(now);
            &&& c.in_use ==> !r
            &&& c.closed ==> !r
            &&& t - c.created_at > time::duration_nanos(config.max_age) ==> !r
            &&& t - c.last_used > time::duration_nanos(config.max_idle) ==> !r
            &&& config.max_uses > 0 && c.use_count >= config.max_uses ==> !r
            &&& !c.in_use && !c.closed && t - c.created_at <= time::duration_nanos(config.max_age) && t
                - c.last_used <= time::duration_nanos(config.max_idle) && (config.max_uses == 0
                || c.use_count < config.max_uses) ==> r
        }),
{
    assoc::lemma_key_index(old(p)@, peer::hex_of(peer_id@));
    let k = assoc::key_index(old(p)@, peer::hex_of(peer_id@));
    if k < i {
        assert(old(p)@[k].0 != old(p)@[i].0);
    }
}

/// Without a connection to the peer none is given out.
pub proof fn unknown_peer_gets_no_connection<C>(
    p: &mut ConnectionPool<C>,
    peer_id: EndpointId,
    now: Instant,
    r: bool,
)
    requires
        call_ensures(ConnectionPool::<C>::reuse_at, (p, &peer_id, now), r),
        forall|i: int|
            0 <= i < old(p)@.len() ==> (#[trigger] old(p)@[i]).0 != peer::hex_of(peer_id@),
    ensures
        !r,
        final(p)@ == old(p)@,
{
    assoc::lemma_key_index(old(p)@, peer::hex_of(peer_id@));
}

/// Giving a connection out counts as a use and takes it into use, as of now; it stays the
/// same connection, as old as it is. The other connections are as before, and where none
/// is given out, all are.
pub proof fn giving_out_counts_as_a_use<C>(
    p: &mut ConnectionPool<C>,
    peer_id: EndpointId,
    now: Instant,
    r: bool,
    i: int,
)
    requires
        call_ensures(ConnectionPool::<C>::reuse_at, (p, &peer_id, now), r),
        assoc::distinct_keys(old(p)@),
        0 <= i < old(p)@.len(),
        old(p)@[i].1.use_count < u64::MAX,
    ensures
        final(p)@.len() == old(p)@.len(),
        final(p)@[i].0 == old(p)@[i].0,
        !r || old(p)@[i].0 != peer::hex_of(peer_id@) ==> final(p)@[i] == old(p)@[i],
        r && old(p)@[i].0 == peer::hex_of(peer_id@) ==> {
            let before = old(p)@[i].1;
            let after = final(p)@[i].1;
            &&& after.use_count == before.use_count + 1
            &&& after.in_use
            &&& after.last_used == time::instant_nanos(now)
            &&& after.created_at == before.created_at
            &&& after.connection == before.connection
            &&& after.closed == before.closed
        },
{
    assoc::lemma_key_index(old(p)@, peer::hex_of(peer_id@));
    let k = assoc::key_index(old(p)@, peer::hex_of(peer_id@));
    if k < old(p)@.len() && k != i {
        if k < i {
            assert(old(p)@[k].0 != old(p)@[i].0);
        } else {
            assert(old(p)@[i].0 != old(p)@[k].0);
        }
    }
}

/// Releasing a connection makes it free again, idle as of now, and changes nothing else.
pub proof fn released_connection_is_free<C>(
    p: &mut ConnectionPool<C>,
    peer_id: EndpointId,
    now: Instant,
    i: int,
)
    requires
        call_ensures(ConnectionPool::<C>::release_at, (p, &peer_id, now), ()),
        assoc::distinct_keys(old(p)@),
        0 <= i < old(p)@.len(),
    ensures
        final(p)@.len() == old(p)@.len(),
        final(p)@[i].0 == old(p)@[i].0,
        old(p)@[i].0 != peer::hex_of(peer_id@) ==> final(p)@[i] == old(p)@[i],
        old(p)@[i].0 == peer::hex_of(peer_id@) ==> {
            let before = old(p)@[i].1;
            let after = final(p)@[i].1;
            &&& !after.in_use
            &&& after.last_used == time::instant_nanos(now)
            &&& after.use_count == before.use_count
            &&& after.created_at == before.created_at
            &&& after.connection == before.connection
            &&& after.closed == before.closed
        },
{
    assoc::lemma_key_index(old(p)@, peer::hex_of(peer_id@));
    let k = assoc::key_index(old(p)@, peer::hex_of(peer_id@));
    if k < old(p)@.len() && k != i {
        if k < i {
            assert(old(p)@[k].0 != old(p)@[i].0);
        } else {
            assert(old(p)@[i].0 != old(p)@[k].0);
        }
    }
}

/// A connection that is added is in the pool, for its peer, in use, used once, and as old
/// and as idle as of now. A pool that has room, or in which all are in use, loses none of
/// the connections to other peers.
pub proof fn added_connection_is_in_use<C>(
    p: &mut ConnectionPool<C>,
    peer_id: EndpointId,
    connection: C,
    now: Instant,
)
    requires
        call_ensures(ConnectionPool::<C>::insert_at, (p, &peer_id, connection, now), ()),
        assoc::distinct_keys(old(p)@),
    ensures
        exists|i: int|
            0 <= i < final(p)@.len() && (#[trigger] final(p)@[i]).0 == peer::hex_of(peer_id@) && {
                let c = final(p)@[i].1;
                &&& c.connection == connection
                &&& c.created_at == time::instant_nanos(now)
                &&& c.last_used == time::instant_nanos(now)
                &&& c.use_count == 1
                &&& c.in_use
                &&& !c.closed
            },
        old(p)@.len() < old(p).configured().max_connections || (forall|j: int|
            0 <= j < old(p)@.len() ==> (#[trigger] old(p)@[j]).1.in_use) ==> forall|j: int|
            0 <= j < old(p)@.len() && (#[trigger] old(p)@[j]).0 != peer::hex_of(peer_id@)
                ==> final(p)@.contains(old(p)@[j]),
{
    let key = peer::hex_of(peer_id@);
    let t = time::instant_nanos(now);
    let c = used(new_connection(connection, t), t);
    let room = choose|room: Seq<(Seq<char>, ConnectionModel<C>)>|
        #[trigger] is_trimmed(old(p)@, old(p).configured().max_connections, room) && final(p)@
            == assoc::put(room, key, c);
    assoc::lemma_key_index(room, key);
    let i = assoc::key_index(room, key);
    assert(final(p)@[i] == (key, c));
    if old(p)@.len() < old(p).configured().max_connections || (forall|j: int|
        0 <= j < old(p)@.len() ==> (#[trigger] old(p)@[j]).1.in_use) {
        assert(room == old(p)@);
        assert forall|j: int| 0 <= j < old(p)@.len() && (#[trigger] old(p)@[j]).0 != key
            implies final(p)@.contains(old(p)@[j]) by {
            assert(final(p)@[j] == old(p)@[j]);
        }
    }
}

/// A full pool makes room by letting go of one connection that nobody uses, and of no
/// other: none of those that nobody uses was established before it. A connection in use
/// never makes room.
pub proof fn oldest_free_connection_makes_room<C>(
    p: &mut ConnectionPool<C>,
    peer_id: EndpointId,
    connection: C,
    now: Instant,
    j: int,
)
    requires
        call_ensures(ConnectionPool::<C>::insert_at, (p, &peer_id, connection, now), ()),
        assoc::distinct_keys(old(p)@),
        old(p)@.len() >= old(p).configured().max_connections,
        0 <= j < old(p)@.len(),
        !old(p)@[j].1.in_use,
        forall|k: int|
            0 <= k < old(p)@.len() ==> (#[trigger] old(p)@[k]).0 != peer::hex_of(peer_id@),
    ensures
        final(p)@.len() == old(p)@.len(),
        exists|gone: int|
            #![trigger old(p)@[gone]]
            0 <= gone < old(p)@.len() && !old(p)@[gone].1.in_use && old(p)@[gone].1.created_at
                <= old(p)@[j].1.created_at && !final(p)@.contains(old(p)@[gone]) && (forall|k: int|
                #![trigger old(p)@[k]]
                0 <= k < old(p)@.len() && k != gone ==> final(p)@.contains(old(p)@[k])),
{
    let key = peer::hex_of(peer_id@);
    let t = time::instant_nanos(now);
    let c = used(new_connection(connection, t), t);
    let before = old(p)@;
    let after = final(p)@;
    let room = choose|room: Seq<(Seq<char>, ConnectionModel<C>)>|
        #[trigger] is_trimmed(before, old(p).configured().max_connections, room) && after
            == assoc::put(room, key, c);
    assert(!all_in_use(before)) by {
        assert(!before[j].1.in_use);
    }
    let gone = choose|i: int| #[trigger] is_oldest_unused(before, i) && room == before.remove(i);
    assert(before[j].1.created_at >= before[gone].1.created_at);
    assert forall|a: int| 0 <= a < room.len() implies (#[trigger] room[a]).0 != key by {
        assert(room[a] == before[if a < gone { a } else { a + 1 }]);
    }
    assoc::lemma_key_index_at(room, key, room.len() as int);
    assert(after == room.push((key, c)));
    assert forall|k: int| #![trigger before[k]] 0 <= k < before.len() && k != gone implies after.contains(
        before[k],
    ) by {
        assert(after[if k < gone { k } else { k - 1 }] == before[k]);
    }
    assert(!after.contains(before[gone])) by {
        if after.contains(before[gone]) {
            let a = choose|a: int| 0 <= a < after.len() && after[a] == before[gone];
            if a < room.len() {
                let b = if a < gone { a } else { a + 1 };
                assert(room[a] == before[b]);
                if b < gone {
                    assert(before[b].0 != before[gone].0);
                } else {
                    assert(before[gone].0 != before[b].0);
                }
            } else {
                assert(before[gone].0 != key);
            }
        }
    }
}

/// What cleaning up leaves in a pool: every connection that is not closed, no older and
/// idle for no longer than allowed, and used less often than allowed, if there is a limit
/// on that, in use or not; and none of the others.
pub proof fn cleanup_drops_the_stale_connections<C>(
    p: &mut ConnectionPool<C>,
    now: Instant,
    c: (Seq<char>, ConnectionModel<C>),
)
    requires
        call_ensures(ConnectionPool::<C>::cleanup_at, (p, now), ()),
        c.1.created_at <= time::instant_nanos(now),
        c.1.last_used <= time::instant_nanos(now),
    ensures
        ({
            let config = old(p).configured();
            let t = time::instant_nanos(now);
            &&& final(p)@.contains(c) ==> old(p)@.contains(c)
            &&& c.1.closed ==> !final(p)@.contains(c)
            &&& t - c.1.created_at > time::duration_nanos(config.max_age) ==> !final(p)@.contains(c)
            &&& t - c.1.last_used > time::duration_nanos(config.max_idle) ==> !final(p)@.contains(c)
            &&& config.max_uses > 0 && c.1.use_count >= config.max_uses ==> !final(p)@.contains(c)
            &&& old(p)@.contains(c) && !c.1.closed && t - c.1.created_at <= time::duration_nanos(
                config.max_age,
            ) && t - c.1.last_used <= time::duration_nanos(config.max_idle) && (config.max_uses == 0
                || c.1.use_count < config.max_uses) ==> final(p)@.contains(c)
        }),
{
    cleanup_keeps_the_healthy(old(p).configured(), old(p)@, time::instant_nanos(now), c);
}

/// How often a connection is given out when it is asked for at some times and released at
/// others, one after another.
pub open spec fn times_given_out<C>(
    config: ConnectionPoolConfig,
    peer: Seq<char>,
    c: ConnectionModel<C>,
    times: Seq<(int, int)>,
) -> nat
    decreases times.len(),
{
    if times.len() == 0 {
        0
    } else {
        let (asked, released) = times[0];
        if can_reuse(config, seq![(peer, c)], peer, asked) {
            let back = ConnectionModel { in_use: false, last_used: released, ..used(c, asked) };
            1 + times_given_out(config, peer, back, times.drop_first())
        } else {
            times_given_out(config, peer, c, times.drop_first())
        }
    }
}

/// With a limit on uses, a connection is given out no more often than the uses that are
/// left to it, however often it is asked for and whenever it is released.
pub proof fn uses_are_limited<C>(
    config: ConnectionPoolConfig,
    peer: Seq<char>,
    c: ConnectionModel<C>,
    times: Seq<(int, int)>,
)
    requires
        config.max_uses > 0,
    ensures
        c.use_count <= config.max_uses ==> times_given_out(config, peer, c, times)
            <= config.max_uses - c.use_count,
        c.use_count > config.max_uses ==> times_given_out(config, peer, c, times) == 0,
    decreases times.len(),
{
    if times.len() > 0 {
        let (asked, released) = times[0];
        let back = ConnectionModel { in_use: false, last_used: released, ..used(c, asked) };
        assoc::lemma_key_index_at(seq![(peer, c)], peer, 0);
        uses_are_limited(config, peer, back, times.drop_first());
        uses_are_limited(config, peer, c, times.drop_first());
    }
}

/// Removing a peer's connection takes it out of the pool and leaves the others.
pub proof fn removed_connection_is_gone<C>(
    p: &mut ConnectionPool<C>,
    peer_id: EndpointId,
    c: (Seq<char>, ConnectionModel<C>),
)
    requires
        call_ensures(ConnectionPool::<C>::remove, (p, &peer_id), ()),
        assoc::distinct_keys(old(p)@),
    ensures
        c.0 == peer::hex_of(peer_id@) ==> !final(p)@.contains(c),
        c.0 != peer::hex_of(peer_id@) ==> (final(p)@.contains(c) <==> old(p)@.contains(c)),
{
    let key = peer::hex_of(peer_id@);
    let before = old(p)@;
    let after = final(p)@;
    assoc::lemma_key_index(before, key);
    let k = assoc::key_index(before, key);
    if after.contains(c) {
        let a = choose|a: int| 0 <= a < after.len() && after[a] == c;
        let b = if k < before.len() && a >= k { a + 1 } else { a };
        assert(before[b] == c);
        if c.0 == key {
            assert(k < before.len()) by {
                if k >= before.len() {
                    assert(before[b].0 != key);
                }
            }
            if b < k {
                assert(before[b].0 != key);
            } else {
                assert(before[k].0 != before[b].0);
            }
        }
    }
    if before.contains(c) && c.0 != key {
        let b = choose|b: int| 0 <= b < before.len() && before[b] == c;
        assert(after[if k < before.len() && b > k { b - 1 } else { b }] == c);
    }
}

/// The numbers of a pool: how many connections it has and how many it may have; how many
/// are in use; how often all were used, which for each of two parts of a pool adds up; and
/// an age that none exceeds and that, unless there is none, one has.
pub proof fn pool_numbers_add_up<C>(
    a: Seq<(Seq<char>, ConnectionModel<C>)>,
    b: Seq<(Seq<char>, ConnectionModel<C>)>,
    one: (Seq<char>, ConnectionModel<C>),
    now: int,
)
    ensures
        in_use_total(a + b) == in_use_total(a) + in_use_total(b),
        in_use_total(seq![one]) == if one.1.in_use { 1nat } else { 0nat },
        use_total(a + b) == use_total(a) + use_total(b),
        use_total(seq![one]) == one.1.use_count,
        forall|i: int|
            0 <= i < a.len() ==> oldest_age(a, now) >= now - (#[trigger] a[i]).1.created_at,
        a.len() > 0 && (forall|i: int| 0 <= i < a.len() ==> (#[trigger] a[i]).1.created_at <= now)
            ==> exists|i: int|
            0 <= i < a.len() && oldest_age(a, now) == now - (#[trigger] a[i]).1.created_at,
        a.len() == 0 ==> oldest_age(a, now) == 0,
    decreases a.len() + b.len(),
{
    let single = seq![one];
    assert(single.drop_last() =~= Seq::<(Seq<char>, ConnectionModel<C>)>::empty());
    assert(in_use_total(single.drop_last()) == 0);
    assert(use_total(single.drop_last()) == 0);
    if b.len() > 0 {
        assert((a + b).drop_last() =~= a + b.drop_last());
        pool_numbers_add_up(a, b.drop_last(), one, now);
    } else {
        assert(a + b =~= a);
        if a.len() > 0 {
            let init = a.drop_last();
            pool_numbers_add_up(init, b, one, now);
            assert forall|i: int| 0 <= i < a.len() implies oldest_age(a, now) >= now - (
            #[trigger] a[i]).1.created_at by {
                if i < init.len() {
                    assert(init[i] == a[i]);
                }
            }
            if forall|i: int| 0 <= i < a.len() ==> (#[trigger] a[i]).1.created_at <= now {
                assert forall|i: int| 0 <= i < init.len() implies (#[trigger] init[i]).1.created_at
                    <= now by {
                    assert(a[i] == init[i]);
                }
                assert(a[a.len() - 1].1.created_at <= now);
                if oldest_age(a, now) != now - a[a.len() - 1].1.created_at {
                    if init.len() > 0 {
                        let i = choose|i: int|
                            0 <= i < init.len() && oldest_age(init, now) == now - (
                            #[trigger] init[i]).1.created_at;
                        assert(a[i] == init[i]);
                    }
                }
            }
        }
    }
}

/// The statistics of a pool say what there is: the connections, those in use, the limit,
/// the uses, and the greatest age.
pub proof fn statistics_count_what_there_is<C>(
    p: ConnectionPool<C>,
    now: Instant,
    s: ConnectionPoolStats,
)
    requires
        call_ensures(ConnectionPool::<C>::stats_at, (&p, now), s),
    ensures
        s.active_connections == p@.len(),
        s.in_use_connections == in_use_total(p@),
        s.total_uses == use_total(p@),
        s.max_connections == p.configured().max_connections,
        time::duration_nanos(s.oldest_connection_age) == oldest_age(p@, time::instant_nanos(now)),
{
}

/// The pool that is set up where nothing else is asked for: ten connections of no more
/// than an hour, idle for no more than five minutes, used no more than a hundred times and
/// checked every minute.
pub proof fn default_pool(c: ConnectionPoolConfig)
    requires
        call_ensures(ConnectionPoolConfig::new, (), c) || call_ensures(
            ConnectionPoolConfig::default,
            (),
            c,
        ),
    ensures
        c.max_connections == 10,
        time::duration_nanos(c.max_age) == 3_600_000_000_000,
        time::duration_nanos(c.max_idle) == 300_000_000_000,
        c.max_uses == 100,
        time::duration_nanos(c.health_check_interval) == 60_000_000_000,
{
}

/// Each setting sets what it names and leaves the others.
pub proof fn pool_settings_are_independent(
    c: ConnectionPoolConfig,
    n: usize,
    d: Duration,
    uses: u64,
    sized: ConnectionPoolConfig,
    aged: ConnectionPoolConfig,
    idle: ConnectionPoolConfig,
    used_up: ConnectionPoolConfig,
)
    requires
        call_ensures(ConnectionPoolConfig::with_max_connections, (c, n), sized),
        call_ensures(ConnectionPoolConfig::with_max_age, (c, d), aged),
        call_ensures(ConnectionPoolConfig::with_max_idle, (c, d), idle),
        call_ensures(ConnectionPoolConfig::with_max_uses, (c, uses), used_up),
    ensures
        sized.max_connections == n && sized.max_age == c.max_age && sized.max_idle == c.max_idle
            && sized.max_uses == c.max_uses,
        aged.max_age == d && aged.max_connections == c.max_connections && aged.max_idle
            == c.max_idle && aged.max_uses == c.max_uses,
        idle.max_idle == d && idle.max_connections == c.max_connections && idle.max_age == c.max_age
            && idle.max_uses == c.max_uses,
        used_up.max_uses == uses && used_up.max_connections == c.max_connections && used_up.max_age
            == c.max_age && used_up.max_idle == c.max_idle,
{
}

/// A pool gives the connection of the peer that is asked for, and says how often that one
/// was used.
pub proof fn connection_is_that_of_the_peer<C>(
    p: ConnectionPool<C>,
    peer_id: EndpointId,
    r: Option<&C>,
    uses: Option<u64>,
    i: int,
)
    requires
        call_ensures(ConnectionPool::<C>::connection, (&p, &peer_id), r),
        call_ensures(ConnectionPool::<C>::use_count, (&p, &peer_id), uses),
        assoc::distinct_keys(p@),
        0 <= i < p@.len(),
        p@[i].0 == peer::hex_of(peer_id@),
    ensures
        r is Some,
        *r->0 == p@[i].1.connection,
        uses == Some(p@[i].1.use_count),
{
    assoc::lookup_finds_the_entry(p@, peer::hex_of(peer_id@), i);
    assoc::lemma_key_index(p@, peer::hex_of(peer_id@));
}

/// Releasing and cleaning up as of now do what they do at any reading of the clock: a
/// released connection is free and has as many uses as before; a connection that is closed,
/// or was used as often as allowed, does not outlive a cleanup, and nothing is added.
pub proof fn release_and_cleanup_as_of_now<C>(
    p: &mut ConnectionPool<C>,
    peer_id: EndpointId,
    i: int,
    q: &mut ConnectionPool<C>,
    c: (Seq<char>, ConnectionModel<C>),
)
    requires
        call_ensures(ConnectionPool::<C>::release, (p, &peer_id), ()),
        assoc::distinct_keys(old(p)@),
        0 <= i < old(p)@.len(),
        call_ensures(ConnectionPool::<C>::cleanup, (q,), ()),
    ensures
        final(p)@.len() == old(p)@.len(),
        final(p)@[i].0 == old(p)@[i].0,
        old(p)@[i].0 == peer::hex_of(peer_id@) ==> !final(p)@[i].1.in_use,
        old(p)@[i].0 != peer::hex_of(peer_id@) ==> final(p)@[i] == old(p)@[i],
        final(p)@[i].1.use_count == old(p)@[i].1.use_count,
        final(p)@[i].1.connection == old(p)@[i].1.connection,
        final(q)@.contains(c) ==> old(q)@.contains(c),
        c.1.closed ==> !final(q)@.contains(c),
        old(q).configured().max_uses > 0 && c.1.use_count >= old(q).configured().max_uses
            ==> !final(q)@.contains(c),
{
    let key = peer::hex_of(peer_id@);
    assoc::lemma_key_index(old(p)@, key);
    let k = assoc::key_index(old(p)@, key);
    if k < old(p)@.len() && k != i {
        if k < i {
            assert(old(p)@[k].0 != old(p)@[i].0);
        } else {
            assert(old(p)@[i].0 != old(p)@[k].0);
        }
    }
    let now = choose|now: Instant|
        final(q)@ == kept(old(q).configured(), old(q)@, #[trigger] time::instant_nanos(now));
    cleanup_keeps_the_healthy(old(q).configured(), old(q)@, time::instant_nanos(now), c);
}

/// What marks do to a connection: one for a use counts it and takes the connection into
/// use, one for a release frees it, and one for closing closes it. Nothing else changes.
pub proof fn marks_change_what_they_name<C>(
    connection: C,
    now: Instant,
    fresh: PooledConnection<C>,
    taken: &mut PooledConnection<C>,
    freed: &mut PooledConnection<C>,
    shut: &mut PooledConnection<C>,
)
    requires
        call_ensures(PooledConnection::<C>::new_at, (connection, now), fresh),
        call_ensures(PooledConnection::<C>::mark_used_at, (taken, now), ()),
        old(taken)@.use_count < u64::MAX,
        call_ensures(PooledConnection::<C>::mark_released, (freed,), ()),
        call_ensures(PooledConnection::<C>::mark_closed, (shut,), ()),
    ensures
        fresh@.connection == connection && fresh@.created_at == time::instant_nanos(now)
            && fresh@.last_used == time::instant_nanos(now) && fresh@.use_count == 0
            && !fresh@.in_use && !fresh@.closed,
        final(taken)@.use_count == old(taken)@.use_count + 1 && final(taken)@.in_use && final(taken)@.last_used == time::instant_nanos(now) && final(taken)@.created_at
            == old(taken)@.created_at && final(taken)@.connection == old(taken)@.connection
            && final(taken)@.closed == old(taken)@.closed,
        !final(freed)@.in_use && final(freed)@.use_count == old(freed)@.use_count && final(freed)@.closed == old(freed)@.closed && final(freed)@.created_at
            == old(freed)@.created_at,
        final(shut)@.closed && final(shut)@.in_use == old(shut)@.in_use && final(shut)@.use_count
            == old(shut)@.use_count,
{
}

}
