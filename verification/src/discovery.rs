//! Peer discovery: the peers that are known, how long they stay known, and tickets.

use crate::change;
use crate::change::clone_opt_text;
use crate::common;
use crate::common::{base64_url_decode, base64_url_encode};
use crate::config::ReplicatorConfig;
use crate::error::{Error, Result};
use crate::ext::time;
use crate::peer::EndpointId;
use std::time::{Duration, Instant};
use vstd::prelude::*;

verus! {

/// How a peer was discovered.
#[derive(Debug, Clone, Copy, PartialEq, Eq, Hash, Structural)]
pub enum DiscoveryMethod {
    /// Discovered via DNS/Pkarr
    Dns,
    /// Discovered via local mDNS
    Mdns,
    /// Manually connected via ticket
    Manual,
    /// Discovered via relay server
    Relay,
}

impl DiscoveryMethod {
    /// Get a human-readable name for this method (lowercase).
    pub fn as_str(&self) -> (s: &'static str)
        ensures
            s@ == (match *self {
                DiscoveryMethod::Dns => "dns"@,
                DiscoveryMethod::Mdns => "mdns"@,
                DiscoveryMethod::Manual => "manual"@,
                DiscoveryMethod::Relay => "relay"@,
            }),
    {
        match self {
            DiscoveryMethod::Dns => "dns",
            DiscoveryMethod::Mdns => "mdns",
            DiscoveryMethod::Manual => "manual",
            DiscoveryMethod::Relay => "relay",
        }
    }

    /// Get an uppercase name for this method.
    pub fn as_upper(&self) -> (s: &'static str)
        ensures
            s@ == (match *self {
                DiscoveryMethod::Dns => "DNS"@,
                DiscoveryMethod::Mdns => "mDNS"@,
                DiscoveryMethod::Manual => "Manual"@,
                DiscoveryMethod::Relay => "Relay"@,
            }),
    {
        match self {
            DiscoveryMethod::Dns => "DNS",
            DiscoveryMethod::Mdns => "mDNS",
            DiscoveryMethod::Manual => "Manual",
            DiscoveryMethod::Relay => "Relay",
        }
    }
}

/// Represents a discovered peer, whose addresses are of a type `A`.
#[derive(Debug)]
pub struct DiscoveredPeer<A> {
    /// The peer's endpoint ID (public key)
    pub endpoint_id: EndpointId,
    /// Known addresses for the peer
    pub addresses: Vec<A>,
    /// How this peer was discovered
    pub discovery_method: DiscoveryMethod,
    /// When this peer was discovered
    pub discovered_at: Instant,
    /// Peer's display name (optional)
    pub name: Option<String>,
    /// Last successful connection time
    pub last_connected: Option<Instant>,
}

impl<A: Clone> Clone for DiscoveredPeer<A> {
    fn clone(&self) -> (p: Self)
        ensures
            p.endpoint_id == self.endpoint_id,
            p.addresses@.len() == self.addresses@.len(),
            forall|i: int|
                0 <= i < self.addresses@.len() ==> cloned::<A>(
                    self.addresses@[i],
                    #[trigger] p.addresses@[i],
                ),
            p.discovery_method == self.discovery_method,
            p.discovered_at == self.discovered_at,
            change::opt_text(p.name) == change::opt_text(self.name),
            p.last_connected == self.last_connected,
    {
        DiscoveredPeer {
            endpoint_id: self.endpoint_id,
            addresses: self.addresses.clone(),
            discovery_method: self.discovery_method,
            discovered_at: self.discovered_at,
            name: clone_opt_text(&self.name),
            last_connected: self.last_connected,
        }
    }
}

/// Whether a peer was discovered less than `max_age` nanoseconds before a reading of
/// the clock.
pub open spec fn is_fresh<A>(peer: DiscoveredPeer<A>, max_age: int, now: int) -> bool {
    time::elapsed_nanos(time::instant_nanos(peer.discovered_at), now) < max_age
}

impl<A> DiscoveredPeer<A> {
    /// Check if this peer is still valid (not too old) at a reading of the clock.
    pub fn is_valid_at(&self, max_age: Duration, now: Instant) -> (r: bool)
        ensures
            r == is_fresh(
                *self,
                time::duration_nanos(max_age) as int,
                time::instant_nanos(now),
            ),
    {
        now.duration_since(self.discovered_at).as_nanos() < max_age.as_nanos()
    }

    /// Check if this peer is still valid (not too old).
    pub fn is_valid(&self, max_age: Duration) -> (r: bool)
        ensures
            exists|now: Instant|
                r == is_fresh(
                    *self,
                    time::duration_nanos(max_age) as int,
                    #[trigger] time::instant_nanos(now),
                ),
    {
        self.is_valid_at(max_age, Instant::now())
    }

    /// Mark this peer as successfully connected at a reading of the clock.
    pub fn mark_connected_at(&mut self, now: Instant)
        ensures
            *final(self) == (DiscoveredPeer { last_connected: Some(now), ..*old(self) }),
    {
        self.last_connected = Some(now);
    }

    /// Mark this peer as successfully connected.
    pub fn mark_connected(&mut self)
        ensures
            final(self).last_connected is Some,
            *final(self) == (DiscoveredPeer {
                last_connected: final(self).last_connected,
                ..*old(self)
            }),
    {
        self.mark_connected_at(Instant::now());
    }
}

/// For how many seconds a discovered peer stays known.
pub const PEER_LIFETIME_SECS: u64 = 300;

/// For how many nanoseconds a discovered peer stays known.
pub open spec fn peer_lifetime() -> int {
    PEER_LIFETIME_SECS * 1_000_000_000
}

/// Whether the first peer with an identifier stands at a place.
pub open spec fn is_first<A>(peers: Seq<DiscoveredPeer<A>>, id: Seq<u8>, i: int) -> bool {
    &&& 0 <= i < peers.len()
    &&& peers[i].endpoint_id@ == id
    &&& forall|j: int| 0 <= j < i ==> (#[trigger] peers[j]).endpoint_id@ != id
}

/// Whether a peer with an identifier is among the peers.
pub open spec fn has_peer<A>(peers: Seq<DiscoveredPeer<A>>, id: Seq<u8>) -> bool {
    exists|i: int| is_first(peers, id, i)
}

/// Where the first peer with an identifier stands.
pub open spec fn peer_place<A>(peers: Seq<DiscoveredPeer<A>>, id: Seq<u8>) -> int {
    choose|i: int| is_first(peers, id, i)
}

/// The peers with one of them put in place of the one with its identifier, or at the
/// end.
pub open spec fn with_peer<A>(
    peers: Seq<DiscoveredPeer<A>>,
    peer: DiscoveredPeer<A>,
) -> Seq<DiscoveredPeer<A>> {
    if has_peer(peers, peer.endpoint_id@) {
        peers.update(peer_place(peers, peer.endpoint_id@), peer)
    } else {
        peers.push(peer)
    }
}

/// The peers that have not expired at a reading of the clock, in their order.
pub open spec fn fresh_peers<A>(peers: Seq<DiscoveredPeer<A>>, now: int) -> Seq<DiscoveredPeer<A>>
    decreases peers.len(),
{
    if peers.len() == 0 {
        Seq::empty()
    } else if is_fresh(peers.last(), peer_lifetime(), now) {
        fresh_peers(peers.drop_last(), now).push(peers.last())
    } else {
        fresh_peers(peers.drop_last(), now)
    }
}

/// Whether no identifier occurs twice among the peers.
pub open spec fn distinct_peers<A>(peers: Seq<DiscoveredPeer<A>>) -> bool {
    forall|i: int, j: int|
        0 <= i < j < peers.len() ==> (#[trigger] peers[i]).endpoint_id@ != (
        #[trigger] peers[j]).endpoint_id@
}

proof fn lemma_first<A>(peers: Seq<DiscoveredPeer<A>>, id: Seq<u8>, i: int)
    requires
        is_first(peers, id, i),
    ensures
        has_peer(peers, id),
        peer_place(peers, id) == i,
{
    let p = peer_place(peers, id);
    assert(is_first(peers, id, p));
    if p < i {
        assert(peers[p].endpoint_id@ != id);
    }
    if i < p {
        assert(peers[i].endpoint_id@ != id);
    }
}

/// A peer is kept if and only if it is among the peers and has not expired.
proof fn lemma_fresh_contains<A>(peers: Seq<DiscoveredPeer<A>>, now: int, peer: DiscoveredPeer<A>)
    ensures
        fresh_peers(peers, now).contains(peer) <==> peers.contains(peer) && is_fresh(
            peer,
            peer_lifetime(),
            now,
        ),
    decreases peers.len(),
{
    if peers.len() > 0 {
        let init = peers.drop_last();
        let f = fresh_peers(init, now);
        lemma_fresh_contains(init, now, peer);
        if peers.contains(peer) {
            let k = choose|k: int| 0 <= k < peers.len() && peers[k] == peer;
            if k < peers.len() - 1 {
                assert(init[k] == peer);
            }
        }
        if init.contains(peer) {
            let k = choose|k: int| 0 <= k < init.len() && init[k] == peer;
            assert(peers[k] == peer);
        }
        let g = f.push(peers.last());
        assert(g[f.len() as int] == peers.last());
        if f.contains(peer) {
            let k = choose|k: int| 0 <= k < f.len() && f[k] == peer;
            assert(g[k] == peer);
        }
        if g.contains(peer) {
            let k = choose|k: int| 0 <= k < g.len() && g[k] == peer;
            if k < f.len() {
                assert(f[k] == peer);
            }
        }
    }
}

proof fn lemma_fresh_distinct<A>(peers: Seq<DiscoveredPeer<A>>, now: int)
    requires
        distinct_peers(peers),
    ensures
        distinct_peers(fresh_peers(peers, now)),
    decreases peers.len(),
{
    if peers.len() > 0 {
        let init = peers.drop_last();
        let f = fresh_peers(init, now);
        lemma_fresh_distinct(init, now);
        assert forall|i: int| 0 <= i < f.len() implies (#[trigger] f[i]).endpoint_id@
            != peers.last().endpoint_id@ by {
            lemma_fresh_contains(init, now, f[i]);
            let k = choose|k: int| 0 <= k < init.len() && init[k] == f[i];
            assert(peers[k] == f[i]);
        }
    }
}

/// No identifier occurs twice after a peer is recorded, if none did before.
pub proof fn recording_keeps_peers_distinct<A>(
    peers: Seq<DiscoveredPeer<A>>,
    peer: DiscoveredPeer<A>,
    now: int,
)
    requires
        distinct_peers(peers),
    ensures
        distinct_peers(fresh_peers(with_peer(peers, peer), now)),
{
    let id = peer.endpoint_id@;
    let after = with_peer(peers, peer);
    if has_peer(peers, id) {
        assert(is_first(peers, id, peer_place(peers, id)));
    } else {
        assert forall|i: int| 0 <= i < peers.len() implies (#[trigger] peers[i]).endpoint_id@
            != id by {
            if peers[i].endpoint_id@ == id {
                assert forall|j: int| 0 <= j < i implies (#[trigger] peers[j]).endpoint_id@ != id by {
                    assert(peers[j].endpoint_id@ != peers[i].endpoint_id@);
                }
                assert(is_first(peers, id, i));
            }
        }
    }
    assert(distinct_peers(after));
    lemma_fresh_distinct(after, now);
}

/// A recorded peer is known afterwards, unless it has already expired; and every other
/// peer that was known is still known, unless it has expired.
pub proof fn recorded_peer_is_known<A>(
    peers: Seq<DiscoveredPeer<A>>,
    peer: DiscoveredPeer<A>,
    other: DiscoveredPeer<A>,
    now: int,
)
    requires
        peers.contains(other),
        other.endpoint_id@ != peer.endpoint_id@,
    ensures
        is_fresh(peer, peer_lifetime(), now) ==> fresh_peers(with_peer(peers, peer), now).contains(
            peer,
        ),
        is_fresh(other, peer_lifetime(), now) ==> fresh_peers(
            with_peer(peers, peer),
            now,
        ).contains(other),
{
    let id = peer.endpoint_id@;
    let after = with_peer(peers, peer);
    let k = choose|k: int| 0 <= k < peers.len() && peers[k] == other;
    if has_peer(peers, id) {
        let p = peer_place(peers, id);
        assert(is_first(peers, id, p));
        assert(after[p] == peer);
    } else {
        assert(after[peers.len() as int] == peer);
    }
    assert(after[k] == other);
    lemma_fresh_contains(after, now, peer);
    lemma_fresh_contains(after, now, other);
}

/// The peers after a connection was made to one of them, which counts as connected if it
/// is known.
pub open spec fn with_connected<A>(
    peers: Seq<DiscoveredPeer<A>>,
    id: Seq<u8>,
    now: Instant,
) -> Seq<DiscoveredPeer<A>> {
    if has_peer(peers, id) {
        let i = peer_place(peers, id);
        peers.update(i, DiscoveredPeer { last_connected: Some(now), ..peers[i] })
    } else {
        peers
    }
}

/// What a ticket holds, if it is a base64 text.
pub open spec fn ticket_content(ticket: Seq<char>) -> Option<Seq<u8>> {
    if common::is_base64(ticket) {
        Some(common::base64_bytes(ticket))
    } else {
        None
    }
}

/// A ticket holds what it was made of.
pub proof fn ticket_roundtrip(content: Seq<u8>)
    ensures
        ticket_content(common::base64_of(content)) == Some(content),
{
    common::base64_roundtrip(content);
}

/// Manages peer discovery across multiple mechanisms.
pub struct DiscoveryManager<A> {
    discovered_peers: Vec<DiscoveredPeer<A>>,
    self_endpoint_id: Option<EndpointId>,
}

impl<A> View for DiscoveryManager<A> {
    type V = Seq<DiscoveredPeer<A>>;

    closed spec fn view(&self) -> Seq<DiscoveredPeer<A>> {
        self.discovered_peers@
    }
}

impl<A> DiscoveryManager<A> {
    /// The identifier of our own endpoint, once it is set.
    pub closed spec fn own_id(self) -> Option<EndpointId> {
        self.self_endpoint_id
    }

    /// Create a new discovery manager with the given configuration.
    pub fn new(_config: &ReplicatorConfig) -> (r: Result<Self>)
        ensures
            r is Ok,
            r->Ok_0@ == Seq::<DiscoveredPeer<A>>::empty(),
            r->Ok_0.own_id() is None,
    {
        Ok(DiscoveryManager { discovered_peers: Vec::new(), self_endpoint_id: None })
    }

    /// Set our own endpoint ID (called after endpoint is created).
    pub fn set_self_endpoint_id(&mut self, id: EndpointId)
        ensures
            final(self).own_id() == Some(id),
            final(self)@ == old(self)@,
    {
        self.self_endpoint_id = Some(id);
    }

    /// Where the first peer with an identifier stands.
    fn find(&self, id: &EndpointId) -> (r: Option<usize>)
        ensures
            match r {
                Some(i) => is_first(self@, id@, i as int) && peer_place(self@, id@) == i,
                None => !has_peer(self@, id@),
            },
            r is Some <==> has_peer(self@, id@),
    {
        let mut i: usize = 0;
        while i < self.discovered_peers.len()
            invariant
                i <= self.discovered_peers@.len(),
                forall|j: int| 0 <= j < i ==> (#[trigger] self@[j]).endpoint_id@ != id@,
            decreases self.discovered_peers@.len() - i,
        {
            if self.discovered_peers[i].endpoint_id.same_as(id) {
                proof {
                    lemma_first(self@, id@, i as int);
                }
                return Some(i);
            }
            i = i + 1;
        }
        None
    }

    /// Record a discovered peer at a reading of the clock.
    ///
    /// It takes the place of the peer with the same identifier, if there is one. Peers
    /// that have expired are dropped.
    pub fn record_peer_at(&mut self, peer: DiscoveredPeer<A>, now: Instant)
        ensures
            final(self)@ == fresh_peers(with_peer(old(self)@, peer), time::instant_nanos(now)),
            final(self).own_id() == old(self).own_id(),
    {
        match self.find(&peer.endpoint_id) {
            Some(i) => {
                self.discovered_peers.set(i, peer);
            },
            None => {
                self.discovered_peers.push(peer);
            },
        }
        let ghost all = with_peer(old(self)@, peer);
        assert(self@ =~= all);
        let mut rest: Vec<DiscoveredPeer<A>> = Vec::new();
        std::mem::swap(&mut rest, &mut self.discovered_peers);
        let n: usize = rest.len();
        let mut i: usize = 0;
        assert(self@ =~= fresh_peers(all.take(0), time::instant_nanos(now)));
        assert(rest@ =~= all.skip(0));
        while i < n
            invariant
                i <= n,
                n == all.len(),
                rest@ == all.skip(i as int),
                self@ == fresh_peers(all.take(i as int), time::instant_nanos(now)),
                self.own_id() == old(self).own_id(),
            decreases n - i,
        {
            assert(all.take(i + 1).drop_last() =~= all.take(i as int));
            let peer = rest.remove(0);
            if peer.is_valid_at(Duration::from_secs(PEER_LIFETIME_SECS), now) {
                self.discovered_peers.push(peer);
            }
            i = i + 1;
            assert(rest@ =~= all.skip(i as int));
        }
        assert(all.take(i as int) =~= all);
    }

    /// Record a discovered peer.
    pub fn record_peer(&mut self, peer: DiscoveredPeer<A>)
        ensures
            exists|now: Instant|
                final(self)@ == fresh_peers(
                    with_peer(old(self)@, peer),
                    #[trigger] time::instant_nanos(now),
                ),
            final(self).own_id() == old(self).own_id(),
    {
        self.record_peer_at(peer, Instant::now());
    }

    /// Get all known peers.
    pub fn known_peers(&self) -> (peers: &Vec<DiscoveredPeer<A>>)
        ensures
            peers@ == self@,
    {
        &self.discovered_peers
    }

    /// Get the peers that are valid (not expired) at a reading of the clock.
    pub fn valid_peers_at(&self, now: Instant) -> (r: Vec<&DiscoveredPeer<A>>)
        ensures
            r@.len() == fresh_peers(self@, time::instant_nanos(now)).len(),
            forall|i: int|
                0 <= i < r@.len() ==> *(#[trigger] r@[i]) == fresh_peers(
                    self@,
                    time::instant_nanos(now),
                )[i],
    {
        let mut r: Vec<&DiscoveredPeer<A>> = Vec::new();
        let mut i: usize = 0;
        let ghost all = self@;
        while i < self.discovered_peers.len()
            invariant
                i <= all.len(),
                all == self@,
                r@.len() == fresh_peers(all.take(i as int), time::instant_nanos(now)).len(),
                forall|k: int|
                    0 <= k < r@.len() ==> *(#[trigger] r@[k]) == fresh_peers(
                        all.take(i as int),
                        time::instant_nanos(now),
                    )[k],
            decreases all.len() - i,
        {
            assert(all.take(i + 1).drop_last() =~= all.take(i as int));
            let peer = &self.discovered_peers[i];
            if peer.is_valid_at(Duration::from_secs(PEER_LIFETIME_SECS), now) {
                r.push(peer);
            }
            i = i + 1;
        }
        assert(all.take(i as int) =~= all);
        r
    }

    /// Get valid peers (not expired).
    pub fn valid_peers(&self) -> (r: Vec<&DiscoveredPeer<A>>)
        ensures
            exists|now: Instant|
                {
                    let fresh = fresh_peers(self@, #[trigger] time::instant_nanos(now));
                    r@.len() == fresh.len() && forall|i: int|
                        0 <= i < r@.len() ==> *(#[trigger] r@[i]) == fresh[i]
                },
    {
        self.valid_peers_at(Instant::now())
    }

    /// Get the count of known peers.
    pub fn peer_count(&self) -> (n: usize)
        ensures
            n == self@.len(),
    {
        self.discovered_peers.len()
    }

    /// Read what a ticket holds.
    ///
    /// Fails if the ticket is not a base64 text.
    pub fn ticket_bytes(ticket: &str) -> (r: Result<Vec<u8>>)
        ensures
            match r {
                Ok(bytes) => ticket_content(ticket@) == Some(bytes@),
                Err(e) => ticket_content(ticket@) is None && e is InvalidTicket
                    && e->InvalidTicket_0@ == "invalid base64 character"@,
            },
    {
        match base64_url_decode(ticket) {
            Ok(bytes) => Ok(bytes),
            Err(e) => Err(Error::InvalidTicket(e.to_owned())),
        }
    }

    /// Make a ticket that holds the bytes.
    pub fn ticket_of(content: &[u8]) -> (ticket: String)
        ensures
            ticket@ == common::base64_of(content@),
            ticket_content(ticket@) == Some(content@),
    {
        proof {
            ticket_roundtrip(content@);
        }
        base64_url_encode(content)
    }

    /// Check that a peer is not ourselves.
    pub fn check_target(&self, endpoint_id: &EndpointId) -> (r: Result<()>)
        ensures
            match r {
                Ok(()) => !(self.own_id() is Some && self.own_id()->Some_0@ == endpoint_id@),
                Err(e) => self.own_id() is Some && self.own_id()->Some_0@ == endpoint_id@
                    && e is Other && e->Other_0@ == "cannot connect to self"@,
            },
    {
        if let Some(id) = &self.self_endpoint_id {
            if id.same_as(endpoint_id) {
                return Err(Error::Other("cannot connect to self".to_owned()));
            }
        }
        Ok(())
    }

    /// Take note of how an attempt to connect to a peer ended, at a reading of the clock.
    ///
    /// After a success the peer counts as connected, if it is known. A failure is
    /// reported with its reason.
    pub fn connected_at(
        &mut self,
        endpoint_id: &EndpointId,
        outcome: std::result::Result<(), String>,
        now: Instant,
    ) -> (r: Result<()>)
        ensures
            match outcome {
                Ok(()) => {
                    &&& r is Ok
                    &&& final(self)@ == with_connected(old(self)@, endpoint_id@, now)
                },
                Err(reason) => {
                    &&& r is Err
                    &&& r->Err_0@ == crate::error::ErrorModel::Connection(
                        "failed to connect to peer: "@ + reason@,
                    )
                    &&& final(self)@ == old(self)@
                },
            },
            final(self).own_id() == old(self).own_id(),
    {
        match outcome {
            Ok(()) => {
                if let Some(i) = self.find(endpoint_id) {
                    self.discovered_peers[i].mark_connected_at(now);
                }
                Ok(())
            },
            Err(reason) => Err(
                Error::Connection(
                    "failed to connect to peer: ".to_owned().concat(reason.as_str()),
                ),
            ),
        }
    }

    /// Discover addresses for a peer by their endpoint ID.
    ///
    /// Resolution happens when a connection is made, so none are known beforehand.
    pub fn discover(&self, _endpoint_id: &EndpointId) -> (r: Result<Vec<A>>)
        ensures
            r is Ok,
            r->Ok_0@ == Seq::<A>::empty(),
    {
        Ok(Vec::new())
    }

    /// The peer that a ticket names, as it is discovered at a reading of the clock.
    pub fn peer_of_ticket_at(endpoint_id: EndpointId, addresses: Vec<A>, now: Instant) -> (peer:
        DiscoveredPeer<A>)
        ensures
            peer == (DiscoveredPeer {
                endpoint_id,
                addresses,
                discovery_method: DiscoveryMethod::Manual,
                discovered_at: now,
                name: None,
                last_connected: None,
            }),
    {
        DiscoveredPeer {
            endpoint_id,
            addresses,
            discovery_method: DiscoveryMethod::Manual,
            discovered_at: now,
            name: None,
            last_connected: None,
        }
    }

    /// Clear all discovered peers.
    pub fn clear_peers(&mut self)
        ensures
            final(self)@ == Seq::<DiscoveredPeer<A>>::empty(),
            final(self).own_id() == old(self).own_id(),
    {
        self.discovered_peers.clear();
    }
}

/// A peer is valid while less time has passed since its discovery than it may, and no
/// longer.
pub proof fn peer_is_valid_until_its_time_is_over<A>(
    peer: DiscoveredPeer<A>,
    max_age: Duration,
    now: Instant,
    r: bool,
)
    requires
        call_ensures(DiscoveredPeer::<A>::is_valid_at, (&peer, max_age, now), r),
        time::instant_nanos(peer.discovered_at) <= time::instant_nanos(now),
    ensures
        r <==> time::instant_nanos(now) - time::instant_nanos(peer.discovered_at)
            < time::duration_nanos(max_age),
{
}

/// Who is known after a peer was recorded: the peer itself, and everybody with another
/// identifier who was known before; but nobody whose discovery is five minutes ago or more.
pub proof fn recording_replaces_and_expires<A>(
    d: &mut DiscoveryManager<A>,
    peer: DiscoveredPeer<A>,
    now: Instant,
    any: DiscoveredPeer<A>,
)
    requires
        call_ensures(DiscoveryManager::<A>::record_peer_at, (d, peer, now), ()),
        distinct_peers(old(d)@),
        time::instant_nanos(any.discovered_at) <= time::instant_nanos(now),
    ensures
        final(d)@.contains(any) <==> (any == peer || (old(d)@.contains(any) && any.endpoint_id@
            != peer.endpoint_id@)) && time::instant_nanos(now) - time::instant_nanos(
            any.discovered_at,
        ) < 300_000_000_000,
        distinct_peers(final(d)@),
        final(d).own_id() == old(d).own_id(),
{
    recording_keeps_peers_distinct(old(d)@, peer, time::instant_nanos(now));
    let peers = old(d)@;
    let id = peer.endpoint_id@;
    let after = with_peer(peers, peer);
    lemma_fresh_contains(after, time::instant_nanos(now), any);
    if has_peer(peers, id) {
        let p = peer_place(peers, id);
        assert(is_first(peers, id, p));
        assert(after[p] == peer);
        if peers.contains(any) && any.endpoint_id@ != id {
            let k = choose|k: int| 0 <= k < peers.len() && peers[k] == any;
            assert(after[k] == any);
        }
        if after.contains(any) {
            let k = choose|k: int| 0 <= k < after.len() && after[k] == any;
            if k != p {
                assert(peers[k] == any);
                if k < p {
                    assert(peers[k].endpoint_id@ != peers[p].endpoint_id@);
                } else {
                    assert(peers[p].endpoint_id@ != peers[k].endpoint_id@);
                }
            }
        }
    } else {
        assert(after[peers.len() as int] == peer);
        if peers.contains(any) {
            let k = choose|k: int| 0 <= k < peers.len() && peers[k] == any;
            assert(after[k] == any);
            if any.endpoint_id@ == id {
                assert forall|j: int| 0 <= j < k implies (#[trigger] peers[j]).endpoint_id@ != id by {
                    assert(peers[j].endpoint_id@ != peers[k].endpoint_id@);
                }
                assert(is_first(peers, id, k));
            }
        }
        if after.contains(any) && any != peer {
            let k = choose|k: int| 0 <= k < after.len() && after[k] == any;
            assert(peers[k] == any);
        }
    }
}

/// The peers that have not expired are in the order in which they were, and each of them is
/// there: they are the known peers without those whose discovery is five minutes ago or
/// more.
pub proof fn valid_peers_are_the_known_without_the_expired<A>(
    d: DiscoveryManager<A>,
    now: Instant,
    r: Vec<&DiscoveredPeer<A>>,
)
    requires
        call_ensures(DiscoveryManager::<A>::valid_peers_at, (&d, now), r),
        forall|i: int|
            0 <= i < d@.len() ==> time::instant_nanos((#[trigger] d@[i]).discovered_at)
                <= time::instant_nanos(now),
    ensures
        ({
            let valid = d@.filter(
                |peer: DiscoveredPeer<A>|
                    time::instant_nanos(now) - time::instant_nanos(peer.discovered_at)
                        < 300_000_000_000,
            );
            &&& r@.len() == valid.len()
            &&& forall|i: int| 0 <= i < r@.len() ==> *(#[trigger] r@[i]) == valid[i]
        }),
{
    lemma_fresh_is_filter(d@, time::instant_nanos(now));
}

proof fn lemma_fresh_is_filter<A>(peers: Seq<DiscoveredPeer<A>>, now: int)
    requires
        forall|i: int|
            0 <= i < peers.len() ==> time::instant_nanos((#[trigger] peers[i]).discovered_at) <= now,
    ensures
        fresh_peers(peers, now) == peers.filter(
            |peer: DiscoveredPeer<A>|
                now - time::instant_nanos(peer.discovered_at) < 300_000_000_000,
        ),
    decreases peers.len(),
{
    reveal(Seq::filter);
    if peers.len() > 0 {
        let init = peers.drop_last();
        assert forall|i: int| 0 <= i < init.len() implies time::instant_nanos(
            (#[trigger] init[i]).discovered_at,
        ) <= now by {
            assert(peers[i] == init[i]);
        }
        assert(time::instant_nanos(peers[peers.len() - 1].discovered_at) <= now);
        lemma_fresh_is_filter(init, now);
    }
}

/// A connection that was made is noted with the peer, if it is known, and nothing else
/// changes; a failure changes nothing and is reported with its reason.
pub proof fn connection_is_noted_with_the_peer<A>(
    d: &mut DiscoveryManager<A>,
    id: EndpointId,
    outcome: std::result::Result<(), String>,
    now: Instant,
    r: Result<()>,
    i: int,
)
    requires
        call_ensures(DiscoveryManager::<A>::connected_at, (d, &id, outcome, now), r),
        distinct_peers(old(d)@),
        0 <= i < old(d)@.len(),
    ensures
        r is Ok <==> outcome is Ok,
        outcome is Err ==> final(d)@ == old(d)@ && r->Err_0 is Connection && r->Err_0->Connection_0@
            == "failed to connect to peer: "@ + outcome->Err_0@,
        final(d)@.len() == old(d)@.len(),
        final(d).own_id() == old(d).own_id(),
        outcome is Ok ==> {
            let before = old(d)@[i];
            let after = final(d)@[i];
            &&& before.endpoint_id@ != id@ ==> after == before
            &&& before.endpoint_id@ == id@ ==> after.last_connected == Some(now)
            &&& after.endpoint_id == before.endpoint_id
            &&& after.addresses == before.addresses
            &&& after.discovery_method == before.discovery_method
            &&& after.discovered_at == before.discovered_at
            &&& after.name == before.name
        },
{
    let peers = old(d)@;
    if peers[i].endpoint_id@ == id@ {
        assert forall|j: int| 0 <= j < i implies (#[trigger] peers[j]).endpoint_id@ != id@ by {
            assert(peers[j].endpoint_id@ != peers[i].endpoint_id@);
        }
        lemma_first(peers, id@, i);
    } else if has_peer(peers, id@) {
        assert(is_first(peers, id@, peer_place(peers, id@)));
    }
}

/// A target is refused if and only if it is our own endpoint, once that is known.
pub proof fn only_ourselves_are_refused<A>(
    d: DiscoveryManager<A>,
    id: EndpointId,
    r: Result<()>,
)
    requires
        call_ensures(DiscoveryManager::<A>::check_target, (&d, &id), r),
    ensures
        r is Err <==> d.own_id() is Some && d.own_id()->0@ == id@,
        r is Err ==> r->Err_0 is Other && r->Err_0->Other_0@ == "cannot connect to self"@,
{
}

/// A ticket that was made can be read, and gives what it was made of; one with a character
/// that no ticket has is refused.
pub proof fn ticket_gives_back_what_it_holds<A>(
    content: &[u8],
    ticket: String,
    text: &str,
    r: Result<Vec<u8>>,
)
    requires
        call_ensures(DiscoveryManager::<A>::ticket_of, (content,), ticket),
        call_ensures(DiscoveryManager::<A>::ticket_bytes, (text,), r),
    ensures
        text@ == ticket@ ==> r is Ok && r->Ok_0@ == content@,
        r is Err <==> exists|i: int|
            0 <= i < text@.len() && common::char_sextet(#[trigger] text@[i]) is None,
        r is Err ==> r->Err_0 is InvalidTicket && r->Err_0->InvalidTicket_0@
            == "invalid base64 character"@,
{
}

/// The peer of a ticket has the identifier and the addresses of the ticket, was found by
/// hand and just now, and was never connected.
pub proof fn ticket_names_its_peer<A>(
    id: EndpointId,
    addresses: Vec<A>,
    now: Instant,
    peer: DiscoveredPeer<A>,
)
    requires
        call_ensures(DiscoveryManager::<A>::peer_of_ticket_at, (id, addresses, now), peer),
    ensures
        peer.endpoint_id == id,
        peer.addresses == addresses,
        peer.discovery_method is Manual,
        peer.discovered_at == now,
        peer.name is None,
        peer.last_connected is None,
{
}

/// What clearing leaves: nobody, and our own identifier.
pub proof fn cleared_discovery_knows_nobody<A>(d: &mut DiscoveryManager<A>)
    requires
        call_ensures(DiscoveryManager::<A>::clear_peers, (d,), ()),
    ensures
        final(d)@.len() == 0,
        final(d).own_id() == old(d).own_id(),
{
}

/// Recording a peer as of now makes nobody known but the peer and those who were known, and
/// of those with the peer's identifier only the peer itself.
pub proof fn recording_as_of_now_replaces<A>(
    d: &mut DiscoveryManager<A>,
    peer: DiscoveredPeer<A>,
    any: DiscoveredPeer<A>,
)
    requires
        call_ensures(DiscoveryManager::<A>::record_peer, (d, peer), ()),
        distinct_peers(old(d)@),
        final(d)@.contains(any),
    ensures
        any == peer || (old(d)@.contains(any) && any.endpoint_id@ != peer.endpoint_id@),
        distinct_peers(final(d)@),
{
    let now = choose|now: Instant|
        final(d)@ == fresh_peers(with_peer(old(d)@, peer), #[trigger] time::instant_nanos(now));
    let peers = old(d)@;
    let id = peer.endpoint_id@;
    let after = with_peer(peers, peer);
    recording_keeps_peers_distinct(peers, peer, time::instant_nanos(now));
    lemma_fresh_contains(after, time::instant_nanos(now), any);
    let k = choose|k: int| 0 <= k < after.len() && after[k] == any;
    if has_peer(peers, id) {
        let p = peer_place(peers, id);
        assert(is_first(peers, id, p));
        if k != p {
            assert(peers[k] == any);
            if k < p {
                assert(peers[k].endpoint_id@ != peers[p].endpoint_id@);
            } else {
                assert(peers[p].endpoint_id@ != peers[k].endpoint_id@);
            }
        }
    } else if k < peers.len() {
        assert(peers[k] == any);
        if any.endpoint_id@ == id {
            assert forall|j: int| 0 <= j < k implies (#[trigger] peers[j]).endpoint_id@ != id by {
                assert(peers[j].endpoint_id@ != peers[k].endpoint_id@);
            }
            assert(is_first(peers, id, k));
        }
    }
}

/// The names of the ways in which peers are found.
pub proof fn discovery_methods_have_names(
    m: DiscoveryMethod,
    lower: &'static str,
    upper: &'static str,
)
    requires
        call_ensures(DiscoveryMethod::as_str, (&m,), lower),
        call_ensures(DiscoveryMethod::as_upper, (&m,), upper),
    ensures
        m is Dns ==> lower@ == "dns"@ && upper@ == "DNS"@,
        m is Mdns ==> lower@ == "mdns"@ && upper@ == "mDNS"@,
        m is Manual ==> lower@ == "manual"@ && upper@ == "Manual"@,
        m is Relay ==> lower@ == "relay"@ && upper@ == "Relay"@,
{
}

}
