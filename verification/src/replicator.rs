//! The life of a replicator: when it starts and stops, which addresses of a peer it
//! tries, and which peers it syncs with.
//!
//! An endpoint is of a type `E`, and an address of a peer of a type `A`. The caller does
//! the networking.

use crate::config::ReplicatorConfig;
use crate::discovery::DiscoveryManager;
use crate::error::{Error, Result};
use crate::peer;
use crate::peer::EndpointId;
use crate::sync::{PeerModel, PeerSyncState, SyncState};
use vstd::prelude::*;

verus! {

/// How many changes a replicator keeps in memory.
pub const MAX_CHANGES: usize = 10000;

/// The state of a replicator.
pub struct Replicator<E, A> {
    endpoint: Option<(EndpointId, E)>,
    discovery: Option<DiscoveryManager<A>>,
    config: ReplicatorConfig,
    running: bool,
}

/// What becomes of a replicator that is asked to shut down.
pub enum ShutdownStep<E> {
    /// It is not running, and nothing happens
    NotRunning,
    /// Its tasks are told to stop, and the endpoint is closed if there is one
    Stop(Option<E>),
}

/// What wakes the main loop of a replicator.
pub enum LoopEvent {
    /// The replicator is told to stop
    Shutdown,
    /// It is time to sync
    Tick,
}

/// What the main loop of a replicator does when it wakes.
pub enum LoopAction<E> {
    /// The loop ends, and the endpoint is closed if there is one
    Stop(Option<E>),
    /// The replicator connects to peers
    Connect(Vec<EndpointId>),
}

/// The identifiers of peers that are not synchronized, in their order.
pub open spec fn unsynchronized(peers: Seq<PeerModel>) -> Seq<Seq<u8>>
    decreases peers.len(),
{
    if peers.len() == 0 {
        Seq::empty()
    } else if peers.last().state is Synchronized {
        unsynchronized(peers.drop_last())
    } else {
        unsynchronized(peers.drop_last()).push(peers.last().peer_id)
    }
}

/// A peer is picked if and only if it is known and not synchronized.
pub proof fn picked_peers_are_the_unsynchronized(peers: Seq<PeerModel>, id: Seq<u8>)
    ensures
        unsynchronized(peers).contains(id) <==> exists|i: int|
            0 <= i < peers.len() && (#[trigger] peers[i]).peer_id == id && !(
            peers[i].state is Synchronized),
    decreases peers.len(),
{
    if peers.len() > 0 {
        let init = peers.drop_last();
        let u = unsynchronized(init);
        let v = u.push(peers.last().peer_id);
        picked_peers_are_the_unsynchronized(init, id);
        assert(v[u.len() as int] == peers.last().peer_id);
        if u.contains(id) {
            let k = choose|k: int| 0 <= k < u.len() && u[k] == id;
            assert(v[k] == id);
            let i = choose|i: int|
                0 <= i < init.len() && (#[trigger] init[i]).peer_id == id && !(
                init[i].state is Synchronized);
            assert(peers[i] == init[i]);
        }
        if v.contains(id) {
            let k = choose|k: int| 0 <= k < v.len() && v[k] == id;
            if k < u.len() {
                assert(u[k] == id);
            } else {
                assert(peers[peers.len() - 1].peer_id == id);
            }
        }
        if exists|i: int|
            0 <= i < peers.len() && (#[trigger] peers[i]).peer_id == id && !(
            peers[i].state is Synchronized) {
            let i = choose|i: int|
                0 <= i < peers.len() && (#[trigger] peers[i]).peer_id == id && !(
                peers[i].state is Synchronized);
            if i < init.len() {
                assert(init[i] == peers[i]);
            }
        }
    }
}

/// The models of peers.
pub open spec fn peer_models(states: Seq<PeerSyncState>) -> Seq<PeerModel> {
    Seq::new(states.len(), |i: int| states[i]@)
}

/// The bytes of identifiers.
pub open spec fn id_bytes(ids: Seq<EndpointId>) -> Seq<Seq<u8>> {
    Seq::new(ids.len(), |i: int| ids[i]@)
}

impl<E, A> Replicator<E, A> {
    /// The endpoint and its identifier, while there is one.
    pub closed spec fn open_endpoint(self) -> Option<(EndpointId, E)> {
        self.endpoint
    }

    /// What is known of peers, once the replicator was started.
    pub closed spec fn discovered(self) -> Option<DiscoveryManager<A>> {
        self.discovery
    }

    /// The configuration.
    pub closed spec fn configured(self) -> ReplicatorConfig {
        self.config
    }

    /// Whether the replicator is running.
    pub closed spec fn runs(self) -> bool {
        self.running
    }

    /// Create a new replicator with the given configuration.
    pub fn new(config: ReplicatorConfig) -> (r: Result<Self>)
        ensures
            r is Ok,
            r->Ok_0.configured() == config,
            r->Ok_0.open_endpoint() is None,
            r->Ok_0.discovered() is None,
            !r->Ok_0.runs(),
    {
        Ok(Replicator { endpoint: None, discovery: None, config, running: false })
    }

    /// Begin to start the replicator.
    ///
    /// Fails if it was started before and has not stopped.
    pub fn begin_start(&mut self) -> (r: Result<()>)
        ensures
            r is Ok <==> !old(self).runs(),
            r matches Err(e) ==> e@ == crate::error::ErrorModel::Other(
                "replicator already started"@,
            ),
            final(self).runs(),
            final(self).open_endpoint() == old(self).open_endpoint(),
            final(self).discovered() == old(self).discovered(),
            final(self).configured() == old(self).configured(),
    {
        if self.running {
            return Err(Error::Other("replicator already started".to_owned()));
        }
        self.running = true;
        Ok(())
    }

    /// Take over the endpoint of a replicator that is being started, and begin with no
    /// peers known. From then on the replicator does not connect to itself.
    pub fn started(&mut self, endpoint_id: EndpointId, endpoint: E) -> (r: Result<()>)
        ensures
            r is Ok,
            final(self).open_endpoint() == Some((endpoint_id, endpoint)),
            final(self).discovered() is Some,
            final(self).discovered()->Some_0@ == Seq::<
                crate::discovery::DiscoveredPeer<A>,
            >::empty(),
            final(self).discovered()->Some_0.own_id() == Some(endpoint_id),
            final(self).runs() == old(self).runs(),
            final(self).configured() == old(self).configured(),
    {
        self.endpoint = Some((endpoint_id, endpoint));
        match DiscoveryManager::new(&self.config) {
            Ok(discovery) => {
                let mut discovery = discovery;
                discovery.set_self_endpoint_id(endpoint_id);
                self.discovery = Some(discovery);
                Ok(())
            },
            Err(e) => Err(e),
        }
    }

    /// Take the endpoint away, to close it.
    fn take_endpoint(&mut self) -> (r: Option<E>)
        ensures
            match r {
                Some(e) => old(self).open_endpoint() is Some && old(self).open_endpoint()->Some_0.1
                    == e,
                None => old(self).open_endpoint() is None,
            },
            final(self).open_endpoint() is None,
            final(self).discovered() == old(self).discovered(),
            final(self).runs() == old(self).runs(),
            final(self).configured() == old(self).configured(),
    {
        let mut taken: Option<(EndpointId, E)> = None;
        std::mem::swap(&mut taken, &mut self.endpoint);
        match taken {
            Some((_, e)) => Some(e),
            None => None,
        }
    }

    /// Stop the replicator gracefully.
    ///
    /// It counts as running until its main loop has ended.
    pub fn shutdown(&mut self) -> (r: ShutdownStep<E>)
        ensures
            match r {
                ShutdownStep::NotRunning => !old(self).runs() && *final(self) == *old(self),
                ShutdownStep::Stop(endpoint) => {
                    &&& old(self).runs()
                    &&& endpoint == (match old(self).open_endpoint() {
                        Some((_, e)) => Some(e),
                        None => None,
                    })
                    &&& final(self).open_endpoint() is None
                    &&& final(self).discovered() == old(self).discovered()
                    &&& final(self).configured() == old(self).configured()
                    &&& final(self).runs()
                },
            },
    {
        if !self.running {
            return ShutdownStep::NotRunning;
        }
        ShutdownStep::Stop(self.take_endpoint())
    }

    /// Decide what the main loop does when it wakes, given what is known of the peers.
    pub fn wake(&mut self, event: LoopEvent, states: &Vec<PeerSyncState>) -> (r: LoopAction<E>)
        ensures
            match event {
                LoopEvent::Shutdown => {
                    &&& r == LoopAction::Stop(
                        match old(self).open_endpoint() {
                            Some((_, e)) => Some(e),
                            None => None,
                        },
                    )
                    &&& !final(self).runs()
                    &&& final(self).open_endpoint() is None
                    &&& final(self).discovered() == old(self).discovered()
                    &&& final(self).configured() == old(self).configured()
                },
                LoopEvent::Tick => {
                    &&& r is Connect
                    &&& id_bytes(r->Connect_0@) == (if old(self).open_endpoint() is Some && old(
                        self,
                    ).discovered() is Some {
                        unsynchronized(peer_models(states@))
                    } else {
                        Seq::empty()
                    })
                    &&& *final(self) == *old(self)
                },
            },
    {
        match event {
            LoopEvent::Shutdown => {
                let endpoint = self.take_endpoint();
                self.running = false;
                LoopAction::Stop(endpoint)
            },
            LoopEvent::Tick => {
                if self.endpoint.is_some() && self.discovery.is_some() {
                    LoopAction::Connect(sync_targets(states))
                } else {
                    let none: Vec<EndpointId> = Vec::new();
                    assert(id_bytes(none@) =~= Seq::<Seq<u8>>::empty());
                    LoopAction::Connect(none)
                }
            },
        }
    }

    /// Get our endpoint ID.
    pub fn endpoint_id(&self) -> (r: Option<EndpointId>)
        ensures
            r == (match self.open_endpoint() {
                Some((id, _)) => Some(id),
                None => None,
            }),
    {
        match &self.endpoint {
            Some(e) => Some(e.0),
            None => None,
        }
    }

    /// The endpoint, while there is one.
    ///
    /// Fails if there is none.
    pub fn endpoint(&self) -> (r: Result<&E>)
        ensures
            match r {
                Ok(e) => self.open_endpoint() is Some && self.open_endpoint()->Some_0.1 == *e,
                Err(e) => self.open_endpoint() is None && e@ == crate::error::ErrorModel::Other(
                    "replicator not started"@,
                ),
            },
    {
        match &self.endpoint {
            Some(e) => Ok(&e.1),
            None => Err(Error::Other("replicator not started".to_owned())),
        }
    }

    /// The identifier that a ticket for this replicator names.
    ///
    /// Fails if the replicator was not started.
    pub fn ticket_id(&self) -> (r: Result<EndpointId>)
        ensures
            match r {
                Ok(id) => self.open_endpoint() is Some && self.discovered() is Some && id
                    == self.open_endpoint()->Some_0.0,
                Err(e) => (self.open_endpoint() is None || self.discovered() is None) && e@
                    == crate::error::ErrorModel::Other("replicator not started"@),
            },
    {
        match (self.endpoint_id(), self.discovery.is_some()) {
            (Some(id), true) => Ok(id),
            _ => Err(Error::Other("replicator not started".to_owned())),
        }
    }

    /// What is known of peers, once the replicator was started.
    pub fn discovery(&self) -> (r: Option<&DiscoveryManager<A>>)
        ensures
            r is Some <==> self.discovered() is Some,
            r is Some ==> *r->Some_0 == self.discovered()->Some_0,
    {
        self.discovery.as_ref()
    }

    /// The configuration.
    pub fn config(&self) -> (c: &ReplicatorConfig)
        ensures
            *c == self.configured(),
    {
        &self.config
    }

    /// Whether the replicator is running.
    pub fn is_running(&self) -> (r: bool)
        ensures
            r == self.runs(),
    {
        self.running
    }

    /// Take note of how an attempt to connect to a peer ended, at a reading of the clock.
    pub fn connected_at(
        &mut self,
        endpoint_id: &EndpointId,
        outcome: std::result::Result<(), String>,
        now: std::time::Instant,
    ) -> (r: Result<()>)
        requires
            old(self).discovered() is Some,
        ensures
            match outcome {
                Ok(()) => {
                    &&& r is Ok
                    &&& final(self).discovered()->Some_0@ == crate::discovery::with_connected(
                        old(self).discovered()->Some_0@,
                        endpoint_id@,
                        now,
                    )
                },
                Err(reason) => {
                    &&& r is Err
                    &&& r->Err_0@ == crate::error::ErrorModel::Connection(
                        "failed to connect to peer: "@ + reason@,
                    )
                    &&& final(self).discovered()->Some_0@ == old(self).discovered()->Some_0@
                },
            },
            final(self).discovered() is Some,
            final(self).discovered()->Some_0.own_id() == old(self).discovered()->Some_0.own_id(),
            final(self).open_endpoint() == old(self).open_endpoint(),
            final(self).runs() == old(self).runs(),
            final(self).configured() == old(self).configured(),
    {
        match &mut self.discovery {
            Some(discovery) => discovery.connected_at(endpoint_id, outcome, now),
            None => Ok(()),
        }
    }

    /// Begin to connect to the peer that a ticket names.
    ///
    /// Where the ticket holds no address, discovery is asked for some. Fails if there is
    /// nothing to ask, or no endpoint to connect from.
    pub fn connect_plan(&self, endpoint_id: EndpointId, addrs: Vec<A>) -> (r: Result<
        ConnectPlan<A>,
    >)
        ensures
            r is Ok <==> self.open_endpoint() is Some && (addrs@.len() > 0
                || self.discovered() is Some),
            r matches Ok(plan) ==> plan.peer() == endpoint_id && plan.untried() == addrs@,
            r matches Err(e) ==> e@ == crate::error::ErrorModel::Other(
                if addrs@.len() == 0 && self.discovered() is None {
                    "discovery not initialized"@
                } else {
                    "replicator not started"@
                },
            ),
    {
        let addrs: Vec<A> = if addrs.len() == 0 {
            match &self.discovery {
                Some(discovery) => match discovery.discover(&endpoint_id) {
                    Ok(found) => found,
                    Err(e) => {
                        return Err(e);
                    },
                },
                None => {
                    return Err(Error::Other("discovery not initialized".to_owned()));
                },
            }
        } else {
            addrs
        };
        match self.endpoint() {
            Ok(_) => Ok(ConnectPlan { peer_id: endpoint_id, addrs }),
            Err(e) => Err(e),
        }
    }
}

/// Pick the peers to sync with: all that are not synchronized.
pub fn sync_targets(states: &Vec<PeerSyncState>) -> (r: Vec<EndpointId>)
    ensures
        id_bytes(r@) == unsynchronized(peer_models(states@)),
{
    let mut r: Vec<EndpointId> = Vec::new();
    let mut i: usize = 0;
    let ghost all = peer_models(states@);
    assert(id_bytes(r@) =~= unsynchronized(all.take(0)));
    while i < states.len()
        invariant
            i <= all.len(),
            all == peer_models(states@),
            id_bytes(r@) == unsynchronized(all.take(i as int)),
        decreases all.len() - i,
    {
        let ghost before = r@;
        let state = &states[i];
        proof {
            assert(all.take(i + 1).drop_last() =~= all.take(i as int));
            assert(all[i as int] == state@);
            assert(id_bytes(before.push(state.peer_id)) =~= id_bytes(before).push(
                state.peer_id@,
            ));
        }
        match &state.state {
            SyncState::Synchronized => {},
            _ => {
                r.push(state.peer_id);
            },
        }
        i = i + 1;
    }
    assert(all.take(i as int) =~= all);
    r
}

/// The addresses of a peer that are left to try.
pub struct ConnectPlan<A> {
    peer_id: EndpointId,
    addrs: Vec<A>,
}

/// What to do next to connect to a peer.
pub enum ConnectStep<A> {
    /// Connect to an address and sync
    Try(A),
    /// The attempt is over
    Done(Result<()>),
}

impl<A> ConnectPlan<A> {
    /// The peer.
    pub closed spec fn peer(self) -> EndpointId {
        self.peer_id
    }

    /// The addresses that were not tried yet, in order.
    pub closed spec fn untried(self) -> Seq<A> {
        self.addrs@
    }

    /// Decide what to do next: at first, and after each address whether the attempt
    /// with it was a success.
    ///
    /// The addresses are tried in order until one works. Fails if none does.
    pub fn next(&mut self, connected: bool) -> (r: ConnectStep<A>)
        ensures
            final(self).peer() == old(self).peer(),
            if connected {
                r == ConnectStep::<A>::Done(Ok(())) && final(self).untried() == old(
                    self,
                ).untried()
            } else if old(self).untried().len() > 0 {
                r == ConnectStep::Try(old(self).untried()[0]) && final(self).untried() == old(
                    self,
                ).untried().drop_first()
            } else {
                &&& r is Done
                &&& r->Done_0 is Err
                &&& r->Done_0->Err_0@ == crate::error::ErrorModel::PeerNotFound(
                    peer::hex_of(old(self).peer()@),
                )
                &&& final(self).untried() == old(self).untried()
            },
    {
        if connected {
            return ConnectStep::Done(Ok(()));
        }
        if self.addrs.len() > 0 {
            let addr = self.addrs.remove(0);
            assert(self.addrs@ =~= old(self).addrs@.drop_first());
            ConnectStep::Try(addr)
        } else {
            ConnectStep::Done(Err(Error::PeerNotFound(self.peer_id.to_hex())))
        }
    }
}

/// How many of the addresses are tried, where it is given which of them work: all up
/// to the first that works.
pub open spec fn attempts(works: Seq<bool>) -> nat
    decreases works.len(),
{
    if works.len() == 0 {
        0
    } else if works[0] {
        1
    } else {
        1 + attempts(works.drop_first())
    }
}

/// Connecting succeeds if and only if an address works; no address after the first that
/// works is tried, and every one before it is.
pub proof fn first_working_address_is_used(works: Seq<bool>)
    ensures
        works.contains(true) <==> attempts(works) > 0 && works[attempts(works) - 1],
        attempts(works) <= works.len(),
        forall|i: int| 0 <= i < attempts(works) - 1 ==> !works[i],
        !works.contains(true) ==> attempts(works) == works.len(),
    decreases works.len(),
{
    if works.len() > 0 {
        let rest = works.drop_first();
        if works[0] {
            assert(works.contains(true));
        } else {
            first_working_address_is_used(rest);
            if works.contains(true) {
                let i = choose|i: int| 0 <= i < works.len() && works[i] == true;
                assert(rest[i - 1]);
                assert(rest.contains(true));
            }
            if rest.contains(true) {
                let i = choose|i: int| 0 <= i < rest.len() && rest[i] == true;
                assert(works[i + 1]);
                assert(works.contains(true));
            }
            assert forall|i: int| 0 <= i < attempts(works) - 1 implies !works[i] by {
                if i > 0 {
                    assert(!rest[i - 1]);
                }
            }
            if attempts(rest) > 0 {
                assert(works[attempts(works) - 1] == rest[attempts(rest) - 1]);
            }
        }
    }
}

/// On each tick a running replicator connects to every known peer that is not
/// synchronized, in their order, and to no other; before it has an endpoint, and after it
/// let go of it, to nobody.
pub proof fn tick_connects_to_the_unsynchronized<E, A>(
    r: &mut Replicator<E, A>,
    states: Vec<PeerSyncState>,
    action: LoopAction<E>,
)
    requires
        call_ensures(Replicator::<E, A>::wake, (r, LoopEvent::Tick, &states), action),
    ensures
        action is Connect,
        *final(r) == *old(r),
        old(r).open_endpoint() is None || old(r).discovered() is None
            ==> action->Connect_0@.len() == 0,
        old(r).open_endpoint() is Some && old(r).discovered() is Some ==> id_bytes(
            action->Connect_0@,
        ) == peer_models(states@).filter(
            |peer: PeerModel| !(peer.state is Synchronized),
        ).map_values(|peer: PeerModel| peer.peer_id),
{
    lemma_unsynchronized(peer_models(states@));
    assert(id_bytes(action->Connect_0@).len() == action->Connect_0@.len());
}

proof fn lemma_unsynchronized(peers: Seq<PeerModel>)
    ensures
        unsynchronized(peers) == peers.filter(
            |peer: PeerModel| !(peer.state is Synchronized),
        ).map_values(|peer: PeerModel| peer.peer_id),
    decreases peers.len(),
{
    reveal(Seq::filter);
    let wanted = |peer: PeerModel| !(peer.state is Synchronized);
    let name = |peer: PeerModel| peer.peer_id;
    if peers.len() > 0 {
        lemma_unsynchronized(peers.drop_last());
        let before = peers.drop_last().filter(wanted);
        assert(before.push(peers.last()).map_values(name) =~= before.map_values(name).push(
            peers.last().peer_id,
        ));
    } else {
        assert(unsynchronized(peers) =~= peers.filter(wanted).map_values(name));
    }
}

/// A replicator starts once: it runs from the moment it begins to start until its loop was
/// told to stop, and a second start in between is refused.
pub proof fn replicator_starts_once<E, A>(
    begun: &mut Replicator<E, A>,
    r: Result<()>,
    stopped: &mut Replicator<E, A>,
    states: Vec<PeerSyncState>,
    action: LoopAction<E>,
    config: ReplicatorConfig,
    fresh: Result<Replicator<E, A>>,
)
    requires
        call_ensures(Replicator::<E, A>::begin_start, (begun,), r),
        call_ensures(Replicator::<E, A>::wake, (stopped, LoopEvent::Shutdown, &states), action),
        call_ensures(Replicator::<E, A>::new, (config,), fresh),
    ensures
        r is Err <==> old(begun).runs(),
        r is Err ==> r->Err_0 is Other && r->Err_0->Other_0@ == "replicator already started"@,
        final(begun).runs(),
        !final(stopped).runs(),
        final(stopped).open_endpoint() is None,
        action is Stop,
        action->Stop_0 is Some <==> old(stopped).open_endpoint() is Some,
        action->Stop_0 is Some ==> action->Stop_0->0 == old(stopped).open_endpoint()->Some_0.1,
        fresh is Ok,
        !fresh->Ok_0.runs(),
        fresh->Ok_0.open_endpoint() is None,
        fresh->Ok_0.discovered() is None,
        fresh->Ok_0.configured() == config,
{
}

/// A replicator that was started has its endpoint, knows nobody yet, and knows itself. When
/// it is shut down it hands its endpoint out once, to be closed; one that does not run has
/// nothing to do.
pub proof fn endpoint_is_held_until_shutdown<E, A>(
    started: &mut Replicator<E, A>,
    id: EndpointId,
    endpoint: E,
    r: Result<()>,
    ended: &mut Replicator<E, A>,
    step: ShutdownStep<E>,
)
    requires
        call_ensures(Replicator::<E, A>::started, (started, id, endpoint), r),
        call_ensures(Replicator::<E, A>::shutdown, (ended,), step),
    ensures
        r is Ok,
        final(started).open_endpoint() == Some((id, endpoint)),
        final(started).discovered() is Some,
        final(started).discovered()->0@.len() == 0,
        final(started).discovered()->0.own_id() == Some(id),
        step is NotRunning <==> !old(ended).runs(),
        step is NotRunning ==> *final(ended) == *old(ended),
        step is Stop ==> {
            &&& final(ended).open_endpoint() is None
            &&& step->Stop_0 is Some <==> old(ended).open_endpoint() is Some
            &&& step->Stop_0 is Some ==> step->Stop_0->0 == old(ended).open_endpoint()->Some_0.1
            &&& final(ended).runs()
        },
{
}

/// A plan to connect starts with the addresses of the ticket. There is one if and only if
/// there is an endpoint to connect from, and addresses or a discovery to ask for some.
pub proof fn plan_starts_with_the_addresses_of_the_ticket<E, A>(
    r: Replicator<E, A>,
    id: EndpointId,
    addrs: Vec<A>,
    plan: Result<ConnectPlan<A>>,
)
    requires
        call_ensures(Replicator::<E, A>::connect_plan, (&r, id, addrs), plan),
    ensures
        plan is Ok <==> r.open_endpoint() is Some && (addrs@.len() > 0 || r.discovered() is Some),
        plan is Ok ==> plan->Ok_0.peer() == id && plan->Ok_0.untried() == addrs@,
        plan is Err ==> plan->Err_0 is Other,
        plan is Err && addrs@.len() == 0 && r.discovered() is None ==> plan->Err_0->Other_0@
            == "discovery not initialized"@,
        plan is Err && (addrs@.len() > 0 || r.discovered() is Some) ==> plan->Err_0->Other_0@
            == "replicator not started"@,
{
}

/// A plan tries its addresses one after another, the first one first, until one works; a
/// success ends it well, and so does nothing else. When no address is left, the peer is
/// reported as not found.
pub proof fn addresses_are_tried_until_one_works<A>(
    p: &mut ConnectPlan<A>,
    connected: bool,
    step: ConnectStep<A>,
)
    requires
        call_ensures(ConnectPlan::<A>::next, (p, connected), step),
    ensures
        final(p).peer() == old(p).peer(),
        step is Done && step->Done_0 is Ok <==> connected,
        step is Try <==> !connected && old(p).untried().len() > 0,
        step is Try ==> {
            &&& step->Try_0 == old(p).untried()[0]
            &&& final(p).untried().len() == old(p).untried().len() - 1
            &&& forall|i: int|
                0 <= i < final(p).untried().len() ==> #[trigger] final(p).untried()[i]
                    == old(p).untried()[i + 1]
        },
        step is Done && step->Done_0 is Err ==> step->Done_0->Err_0 is PeerNotFound
            && step->Done_0->Err_0->PeerNotFound_0@ == peer::hex_of(old(p).peer()@),
{
}

/// A ticket names our own endpoint, once there is one and discovery is there.
pub proof fn ticket_names_our_endpoint<E, A>(r: Replicator<E, A>, id: Result<EndpointId>)
    requires
        call_ensures(Replicator::<E, A>::ticket_id, (&r,), id),
    ensures
        id is Ok <==> r.open_endpoint() is Some && r.discovered() is Some,
        id is Ok ==> id->Ok_0 == r.open_endpoint()->Some_0.0,
        id is Err ==> id->Err_0 is Other && id->Err_0->Other_0@ == "replicator not started"@,
{
}

/// The peers to sync with are the known ones that are not synchronized, in their order.
pub proof fn targets_are_the_unsynchronized(states: Vec<PeerSyncState>, r: Vec<EndpointId>)
    requires
        call_ensures(sync_targets, (&states,), r),
    ensures
        id_bytes(r@) == peer_models(states@).filter(
            |peer: PeerModel| !(peer.state is Synchronized),
        ).map_values(|peer: PeerModel| peer.peer_id),
{
    lemma_unsynchronized(peer_models(states@));
}

/// A connection that a replicator made, or did not make, is noted as discovery notes it;
/// the replicator goes on as before.
pub proof fn replicator_notes_connections<E, A>(
    r: &mut Replicator<E, A>,
    id: EndpointId,
    outcome: std::result::Result<(), String>,
    now: std::time::Instant,
    noted: Result<()>,
)
    requires
        call_ensures(Replicator::<E, A>::connected_at, (r, &id, outcome, now), noted),
        old(r).discovered() is Some,
    ensures
        noted is Ok <==> outcome is Ok,
        outcome is Err ==> noted->Err_0 is Connection && noted->Err_0->Connection_0@
            == "failed to connect to peer: "@ + outcome->Err_0@,
        outcome is Err ==> final(r).discovered()->Some_0@ == old(r).discovered()->Some_0@,
        outcome is Ok ==> final(r).discovered()->Some_0@.len() == old(r).discovered()->Some_0@.len(),
        final(r).runs() == old(r).runs(),
        final(r).open_endpoint() == old(r).open_endpoint(),
{
}

/// The endpoint and its identifier are there while the replicator holds it, and not before
/// or after.
pub proof fn endpoint_is_there_while_it_is_held<E, A>(
    r: Replicator<E, A>,
    id: Option<EndpointId>,
    endpoint: Result<&E>,
    running: bool,
)
    requires
        call_ensures(Replicator::<E, A>::endpoint_id, (&r,), id),
        call_ensures(Replicator::<E, A>::endpoint, (&r,), endpoint),
        call_ensures(Replicator::<E, A>::is_running, (&r,), running),
    ensures
        id is Some <==> r.open_endpoint() is Some,
        endpoint is Ok <==> r.open_endpoint() is Some,
        r.open_endpoint() is Some ==> id->0 == r.open_endpoint()->Some_0.0 && *endpoint->Ok_0
            == r.open_endpoint()->Some_0.1,
        endpoint is Err ==> endpoint->Err_0 is Other && endpoint->Err_0->Other_0@
            == "replicator not started"@,
        running == r.runs(),
{
}

}
