//! Synchronization state and the change log.
//!
//! The manager keeps the most recent changes, the offset of the next change, and
//! what is known of each peer.

use crate::assoc;
use crate::assoc::{find, put_entry};
use crate::change;
use crate::change::{Change, ChangeModel};
use crate::common;
use crate::common::base64_url_encode;
use crate::error::Result;
use crate::ext::ids;
use crate::ext::ids::uuid_to_u128_le;
use crate::peer;
use crate::peer::EndpointId;
use std::collections::VecDeque;
use std::time::Instant;
use vstd::prelude::*;

verus! {

/// Sync state between two peers.
#[derive(Debug)]
pub enum SyncState {
    /// Not connected to this peer
    Disconnected,
    /// Actively connecting to peer
    Connecting,
    /// Sync in progress
    Syncing,
    /// Fully synchronized with peer
    Synchronized,
    /// Error occurred with this peer
    Error(String),
}

impl Clone for SyncState {
    fn clone(&self) -> (s: Self)
        ensures
            s == *self,
    {
        match self {
            SyncState::Disconnected => SyncState::Disconnected,
            SyncState::Connecting => SyncState::Connecting,
            SyncState::Syncing => SyncState::Syncing,
            SyncState::Synchronized => SyncState::Synchronized,
            SyncState::Error(e) => SyncState::Error(e.clone()),
        }
    }
}

/// A peer's sync state.
#[derive(Debug)]
pub struct PeerSyncState {
    /// Peer identifier
    pub peer_id: EndpointId,
    /// Current sync state
    pub state: SyncState,
    /// Last offset we've seen from this peer
    pub last_offset: u64,
    /// Last time we synced with this peer
    pub last_sync: Option<Instant>,
}

/// What is known of a peer.
pub struct PeerModel {
    pub peer_id: Seq<u8>,
    pub state: SyncState,
    pub last_offset: u64,
    pub last_sync: Option<Instant>,
}

impl View for PeerSyncState {
    type V = PeerModel;

    open spec fn view(&self) -> PeerModel {
        PeerModel {
            peer_id: self.peer_id@,
            state: self.state,
            last_offset: self.last_offset,
            last_sync: self.last_sync,
        }
    }
}

/// What is known of a peer that was never connected, from whom an offset was seen.
pub open spec fn disconnected_peer(peer_id: Seq<u8>, last_offset: u64) -> PeerModel {
    PeerModel { peer_id, state: SyncState::Disconnected, last_offset, last_sync: None }
}

impl Clone for PeerSyncState {
    fn clone(&self) -> (s: Self)
        ensures
            s@ == self@,
    {
        PeerSyncState {
            peer_id: self.peer_id,
            state: self.state.clone(),
            last_offset: self.last_offset,
            last_sync: self.last_sync,
        }
    }
}

impl PeerSyncState {
    /// Create a new peer sync state.
    pub fn new(peer_id: EndpointId) -> (s: Self)
        ensures
            s@ == disconnected_peer(peer_id@, 0),
    {
        PeerSyncState { peer_id, state: SyncState::Disconnected, last_offset: 0, last_sync: None }
    }
}

/// Snapshot of sync state for persistence.
#[derive(Debug)]
pub struct SyncSnapshot {
    /// Current change offset
    pub offset: u64,
    /// Persisted changes (for resumable sync)
    pub changes: Vec<Change>,
    /// Peer states: the base64 of the peer's identifier, and its last offset
    pub peers: Vec<(String, u64)>,
}

/// What a snapshot holds.
#[verifier::ext_equal]
pub struct SnapshotModel {
    pub offset: u64,
    pub changes: Seq<ChangeModel>,
    pub peers: Seq<(Seq<char>, u64)>,
}

impl View for SyncSnapshot {
    type V = SnapshotModel;

    open spec fn view(&self) -> SnapshotModel {
        SnapshotModel {
            offset: self.offset,
            changes: change::changes_view(self.changes@),
            peers: assoc::keyed(self.peers@),
        }
    }
}

impl Clone for SyncSnapshot {
    fn clone(&self) -> (s: Self)
        ensures
            s@ == self@,
    {
        let mut peers: Vec<(String, u64)> = Vec::new();
        let mut i: usize = 0;
        while i < self.peers.len()
            invariant
                i <= self.peers.len(),
                peers.len() == i,
                forall|k: int|
                    0 <= k < i ==> (#[trigger] peers@[k]).0@ == self.peers@[k].0@ && peers@[k].1
                        == self.peers@[k].1,
            decreases self.peers.len() - i,
        {
            peers.push((self.peers[i].0.clone(), self.peers[i].1));
            i = i + 1;
        }
        assert(assoc::keyed(peers@) =~= assoc::keyed(self.peers@));
        SyncSnapshot {
            offset: self.offset,
            changes: crate::change::clone_changes(&self.changes),
            peers,
        }
    }
}

/// Manages synchronization state and change tracking.
#[derive(Debug)]
pub struct SyncManager {
    /// Current offset in the change log
    offset: u64,
    /// In-memory change log
    changes: VecDeque<Change>,
    /// Maximum number of changes to keep in memory
    max_changes: usize,
    /// Peer sync states, keyed by the base64 of the peer's identifier
    peer_states: Vec<(String, PeerSyncState)>,
}

/// What a sync manager holds.
#[verifier::ext_equal]
pub struct SyncModel {
    /// The offset of the next change
    pub offset: u64,
    /// The changes kept, oldest first
    pub changes: Seq<ChangeModel>,
    /// How many changes are kept at most
    pub max_changes: nat,
    /// The peers by key, in the order in which they became known
    pub peers: Seq<(Seq<char>, PeerModel)>,
}

/// The log after a change was added to it: the change comes last, and the oldest
/// change leaves where there would be more than the log may keep.
pub open spec fn logged(
    log: Seq<ChangeModel>,
    max_changes: nat,
    change: ChangeModel,
) -> Seq<ChangeModel> {
    if log.len() + 1 > max_changes {
        log.push(change).drop_first()
    } else {
        log.push(change)
    }
}

/// The newest changes of a log, oldest first: so many, or all if there are fewer.
pub open spec fn newest(log: Seq<ChangeModel>, count: int) -> Seq<ChangeModel> {
    if log.len() <= count {
        log
    } else {
        log.skip(log.len() - count)
    }
}

/// The sequence number that a change carries: the lower half of its identifier,
/// lowest byte first.
pub open spec fn change_sequence(change: ChangeModel) -> u64 {
    (ids::le_value(change.id) % 0x1_0000_0000_0000_0000) as u64
}

/// An offset raised to the sequence numbers of applied changes.
pub open spec fn raised(offset: u64, changes: Seq<ChangeModel>) -> u64
    decreases changes.len(),
{
    if changes.len() == 0 {
        offset
    } else {
        let before = raised(offset, changes.drop_last());
        let seq = change_sequence(changes.last());
        if seq > before {
            seq
        } else {
            before
        }
    }
}

/// The peers after the state of one of them was set.
pub open spec fn with_state(
    peers: Seq<(Seq<char>, PeerModel)>,
    peer_id: Seq<u8>,
    state: SyncState,
) -> Seq<(Seq<char>, PeerModel)> {
    let key = common::base64_of(peer_id);
    let i = assoc::key_index(peers, key);
    if assoc::has_key(peers, key) {
        peers.update(i, (key, PeerModel { state, ..peers[i].1 }))
    } else {
        peers.push((key, PeerModel { state, ..disconnected_peer(peer_id, 0) }))
    }
}

/// The peers that the entries of a snapshot name. Entries that name no peer are left
/// out.
pub open spec fn named_peers(entries: Seq<(Seq<char>, u64)>) -> Seq<(Seq<char>, PeerModel)>
    decreases entries.len(),
{
    if entries.len() == 0 {
        Seq::empty()
    } else {
        let before = named_peers(entries.drop_last());
        let (key, offset) = entries.last();
        match peer::named_endpoint(key) {
            Some(peer_id) => before.push((key, disconnected_peer(peer_id, offset))),
            None => before,
        }
    }
}

/// The key and the last offset of each peer.
pub open spec fn peer_offsets(peers: Seq<(Seq<char>, PeerModel)>) -> Seq<(Seq<char>, u64)> {
    Seq::new(peers.len(), |i: int| (peers[i].0, peers[i].1.last_offset))
}

impl View for SyncManager {
    type V = SyncModel;

    closed spec fn view(&self) -> SyncModel {
        SyncModel {
            offset: self.offset,
            changes: change::changes_view(self.changes@),
            max_changes: self.max_changes as nat,
            peers: assoc::keyed(self.peer_states@),
        }
    }
}

impl SyncModel {
    /// Whether no peer is listed twice, and each peer's key names the peer.
    pub open spec fn wf(self) -> bool {
        &&& assoc::distinct_keys(self.peers)
        &&& forall|i: int|
            0 <= i < self.peers.len() ==> peer::named_endpoint((#[trigger] self.peers[i]).0) == Some(
                self.peers[i].1.peer_id,
            )
    }

    /// The manager after a change was recorded.
    pub open spec fn recorded(self, change: ChangeModel) -> SyncModel {
        SyncModel {
            offset: self.offset.wrapping_add(1),
            changes: logged(self.changes, self.max_changes, change),
            ..self
        }
    }

    /// The manager after several changes were recorded one after another.
    pub open spec fn recorded_all(self, changes: Seq<ChangeModel>) -> SyncModel
        decreases changes.len(),
    {
        if changes.len() == 0 {
            self
        } else {
            self.recorded_all(changes.drop_last()).recorded(changes.last())
        }
    }

    /// The changes since an offset, as far as they are still kept.
    pub open spec fn since(self, offset: u64) -> Seq<ChangeModel> {
        newest(self.changes, if offset < self.offset { self.offset - offset } else { 0 })
    }

    /// What a snapshot of the manager holds.
    pub open spec fn snapshotted(self) -> SnapshotModel {
        SnapshotModel {
            offset: self.offset,
            changes: self.changes,
            peers: peer_offsets(self.peers),
        }
    }

    /// The manager after it was restored from a snapshot.
    pub open spec fn restored(self, snapshot: SnapshotModel) -> SyncModel {
        SyncModel {
            offset: snapshot.offset,
            changes: snapshot.changes,
            max_changes: self.max_changes,
            peers: assoc::put_all(self.peers, named_peers(snapshot.peers)),
        }
    }
}

impl Default for SyncManager {
    fn default() -> (m: Self)
        ensures
            m@ == (SyncModel {
                offset: 0,
                changes: Seq::empty(),
                max_changes: 10000,
                peers: Seq::empty(),
            }),
            m@.wf(),
    {
        Self::new(10000)
    }
}

impl SyncManager {
    /// Create a new sync manager.
    pub fn new(max_changes: usize) -> (m: Self)
        ensures
            m@ == (SyncModel {
                offset: 0,
                changes: Seq::empty(),
                max_changes: max_changes as nat,
                peers: Seq::empty(),
            }),
            m@.wf(),
    {
        let m = SyncManager {
            offset: 0,
            changes: VecDeque::new(),
            max_changes,
            peer_states: Vec::new(),
        };
        assert(m@.changes =~= Seq::<ChangeModel>::empty());
        assert(m@.peers =~= Seq::<(Seq<char>, PeerModel)>::empty());
        m
    }

    /// Get the current offset.
    pub fn offset(&self) -> (r: u64)
        ensures
            r == self@.offset,
    {
        self.offset
    }

    /// The number of changes that are kept.
    pub fn pending_count(&self) -> (n: usize)
        ensures
            n == self@.changes.len(),
    {
        self.changes.len()
    }

    /// Record a new change and return its offset.
    pub fn record_change(&mut self, change: Change) -> (r: u64)
        ensures
            r == old(self)@.offset,
            final(self)@ == old(self)@.recorded(change@),
    {
        let offset = self.offset;
        self.offset = offset.wrapping_add(1);
        self.changes.push_back(change);
        assert(change::changes_view(self.changes@) =~= old(self)@.changes.push(change@));
        if self.changes.len() > self.max_changes {
            self.changes.pop_front();
            assert(change::changes_view(self.changes@) =~= old(self)@.changes.push(change@).drop_first());
        }
        offset
    }

    /// Get all changes since a given offset.
    pub fn get_changes_since(&self, offset: u64) -> (r: Vec<Change>)
        ensures
            change::changes_view(r@) == self@.since(offset),
    {
        let mut r: Vec<Change> = Vec::new();
        if offset >= self.offset {
            assert(change::changes_view(r@) =~= Seq::<ChangeModel>::empty());
            return r;
        }
        let count: u64 = self.offset - offset;
        let len: usize = self.changes.len();
        let skip: usize = if len as u64 > count { (len as u64 - count) as usize } else { 0 };
        let mut i: usize = skip;
        while i < len
            invariant
                skip <= i <= len,
                len == self.changes@.len(),
                r.len() == i - skip,
                forall|k: int| 0 <= k < i - skip ==> (#[trigger] r@[k])@ == self.changes@[k + skip]@,
            decreases len - i,
        {
            r.push(self.changes[i].clone());
            i = i + 1;
        }
        assert(change::changes_view(r@) =~= self@.since(offset));
        r
    }

    /// Apply remote changes to the local state.
    ///
    /// Returns the offset that the log would have if each change took one, and raises
    /// the offset to at least the sequence number of any applied change.
    pub fn apply_changes(&mut self, changes: Vec<Change>) -> (r: Result<u64>)
        requires
            old(self)@.offset + changes@.len() <= u64::MAX,
        ensures
            r is Ok,
            r->Ok_0 == old(self)@.offset + changes@.len(),
            final(self)@ == (SyncModel {
                offset: raised(old(self)@.offset, change::changes_view(changes@)),
                ..old(self)@
            }),
    {
        let mut current_offset: u64 = self.offset;
        let mut i: usize = 0;
        assert(change::changes_view(changes@).take(0) =~= Seq::<ChangeModel>::empty());
        while i < changes.len()
            invariant
                i <= changes.len(),
                current_offset == old(self)@.offset + i,
                old(self)@.offset + changes@.len() <= u64::MAX,
                self@ == (SyncModel {
                    offset: raised(old(self)@.offset, change::changes_view(changes@).take(i as int)),
                    ..old(self)@
                }),
            decreases changes.len() - i,
        {
            current_offset = current_offset + 1;
            let n: u128 = uuid_to_u128_le(&changes[i].id);
            let seq: u64 = n as u64;
            assert(n as u64 == n % 0x1_0000_0000_0000_0000) by (bit_vector);
            if seq > self.offset {
                self.offset = seq;
            }
            assert(change::changes_view(changes@).take(i + 1).drop_last() =~= change::changes_view(
                changes@,
            ).take(
                i as int,
            ));
            i = i + 1;
        }
        assert(change::changes_view(changes@).take(i as int) =~= change::changes_view(changes@));
        Ok(current_offset)
    }

    /// Update the state of a peer.
    pub fn update_peer_state(&mut self, peer_id: &EndpointId, state: SyncState)
        ensures
            final(self)@ == (SyncModel {
                peers: with_state(old(self)@.peers, peer_id@, state),
                ..old(self)@
            }),
            old(self)@.wf() ==> final(self)@.wf(),
    {
        let key = base64_url_encode(peer_id.as_bytes().as_slice());
        let i = find(&self.peer_states, &key);
        let ghost k = key@;
        let ghost peers = self@.peers;
        if i < self.peer_states.len() {
            let old_key = self.peer_states[i].0.clone();
            let mut peer = self.peer_states[i].1.clone();
            peer.state = state;
            self.peer_states.set(i, (old_key, peer));
        } else {
            let mut peer = PeerSyncState::new(*peer_id);
            peer.state = state;
            self.peer_states.push((key, peer));
        }
        proof {
            assoc::lemma_key_index(peers, k);
            assert(self@.peers =~= with_state(peers, peer_id@, state));
            if old(self)@.wf() {
                lemma_with_state_wf(old(self)@, peer_id@, state);
            }
        }
    }

    /// Get the state of all known peers.
    pub fn get_peer_states(&self) -> (r: Vec<PeerSyncState>)
        ensures
            r@.len() == self@.peers.len(),
            forall|i: int| 0 <= i < r@.len() ==> (#[trigger] r@[i])@ == self@.peers[i].1,
    {
        let mut r: Vec<PeerSyncState> = Vec::new();
        let mut i: usize = 0;
        while i < self.peer_states.len()
            invariant
                i <= self.peer_states.len(),
                r.len() == i,
                forall|k: int| 0 <= k < i ==> (#[trigger] r@[k])@ == self.peer_states@[k].1@,
            decreases self.peer_states.len() - i,
        {
            r.push(self.peer_states[i].1.clone());
            i = i + 1;
        }
        r
    }

    /// Get a state snapshot for persistence.
    pub fn snapshot(&self) -> (s: SyncSnapshot)
        ensures
            s@ == self@.snapshotted(),
    {
        let mut changes: Vec<Change> = Vec::new();
        let mut i: usize = 0;
        while i < self.changes.len()
            invariant
                i <= self.changes@.len(),
                changes.len() == i,
                forall|k: int| 0 <= k < i ==> (#[trigger] changes@[k])@ == self.changes@[k]@,
            decreases self.changes@.len() - i,
        {
            changes.push(self.changes[i].clone());
            i = i + 1;
        }
        assert(change::changes_view(changes@) =~= self@.changes);
        let mut peers: Vec<(String, u64)> = Vec::new();
        let mut j: usize = 0;
        while j < self.peer_states.len()
            invariant
                j <= self.peer_states.len(),
                peers.len() == j,
                forall|k: int|
                    0 <= k < j ==> (#[trigger] peers@[k]).0@ == self.peer_states@[k].0@
                        && peers@[k].1 == self.peer_states@[k].1.last_offset,
            decreases self.peer_states.len() - j,
        {
            peers.push((self.peer_states[j].0.clone(), self.peer_states[j].1.last_offset));
            j = j + 1;
        }
        assert(assoc::keyed(peers@) =~= peer_offsets(self@.peers));
        SyncSnapshot { offset: self.offset, changes, peers }
    }

    /// Restore from a snapshot.
    ///
    /// The snapshot's changes and offset replace those of the manager. Peers that the
    /// snapshot names are set; entries that name no peer are skipped. Returns the
    /// number of entries skipped.
    pub fn restore(&mut self, snapshot: SyncSnapshot) -> (skipped: usize)
        ensures
            final(self)@ == old(self)@.restored(snapshot@),
            skipped == snapshot@.peers.len() - named_peers(snapshot@.peers).len(),
            old(self)@.wf() ==> final(self)@.wf(),
    {
        self.changes.clear();
        let mut i: usize = 0;
        assert(self@.changes =~= Seq::<ChangeModel>::empty());
        while i < snapshot.changes.len()
            invariant
                i <= snapshot.changes.len(),
                self.changes@.len() == i,
                forall|k: int| 0 <= k < i ==> (#[trigger] self.changes@[k])@ == snapshot.changes@[k]@,
                self@.max_changes == old(self)@.max_changes,
                self@.peers == old(self)@.peers,
            decreases snapshot.changes.len() - i,
        {
            self.changes.push_back(snapshot.changes[i].clone());
            i = i + 1;
        }
        assert(self@.changes =~= change::changes_view(snapshot.changes@));
        self.offset = snapshot.offset;

        let ghost entries = assoc::keyed(snapshot.peers@);
        let mut failed_peers: usize = 0;
        let mut j: usize = 0;
        assert(entries.take(0) =~= Seq::<(Seq<char>, u64)>::empty());
        while j < snapshot.peers.len()
            invariant
                j <= snapshot.peers.len(),
                entries == assoc::keyed(snapshot.peers@),
                failed_peers == j - named_peers(entries.take(j as int)).len(),
                self@ == (SyncModel {
                    offset: snapshot.offset,
                    changes: change::changes_view(snapshot.changes@),
                    max_changes: old(self)@.max_changes,
                    peers: assoc::put_all(old(self)@.peers, named_peers(entries.take(j as int))),
                }),
            decreases snapshot.peers.len() - j,
        {
            let ghost done = named_peers(entries.take(j as int));
            let ghost more = named_peers(entries.take(j + 1));
            proof {
                assert(entries.take(j + 1).drop_last() =~= entries.take(j as int));
                assert(more.len() > 0 ==> more.drop_last().push(more.last()) =~= more);
            }
            match EndpointId::from_base64(snapshot.peers[j].0.as_str()) {
                Ok(peer_id) => {
                    let peer = PeerSyncState {
                        peer_id,
                        state: SyncState::Disconnected,
                        last_offset: snapshot.peers[j].1,
                        last_sync: None,
                    };
                    put_entry(&mut self.peer_states, snapshot.peers[j].0.clone(), peer);
                    assert(more.drop_last() =~= done);
                },
                Err(_) => {
                    failed_peers = failed_peers + 1;
                },
            }
            j = j + 1;
        }
        assert(entries.take(j as int) =~= entries);
        proof {
            if old(self)@.wf() {
                lemma_restored_wf(old(self)@.peers, entries);
            }
        }
        failed_peers
    }
}

/// Setting a peer's state keeps the peers well formed.
proof fn lemma_with_state_wf(m: SyncModel, peer_id: Seq<u8>, state: SyncState)
    requires
        m.wf(),
        peer_id.len() == 32,
        ids::is_endpoint_key(peer_id),
    ensures
        (SyncModel { peers: with_state(m.peers, peer_id, state), ..m }).wf(),
{
    let key = common::base64_of(peer_id);
    peer::endpoint_name_roundtrip(peer_id);
    assoc::lemma_key_index(m.peers, key);
    let i = assoc::key_index(m.peers, key);
    if assoc::has_key(m.peers, key) {
        assoc::lemma_put(m.peers, key, PeerModel { state, ..m.peers[i].1 });
    } else {
        assoc::lemma_put(m.peers, key, PeerModel { state, ..disconnected_peer(peer_id, 0) });
    }
}

/// The peers of a snapshot's entries, and peers set from them, have keys that name
/// them.
proof fn lemma_restored_wf(peers: Seq<(Seq<char>, PeerModel)>, entries: Seq<(Seq<char>, u64)>)
    requires
        assoc::distinct_keys(peers),
        forall|i: int|
            0 <= i < peers.len() ==> peer::named_endpoint((#[trigger] peers[i]).0) == Some(
                peers[i].1.peer_id,
            ),
    ensures
        ({
            let all = assoc::put_all(peers, named_peers(entries));
            &&& assoc::distinct_keys(all)
            &&& forall|i: int|
                0 <= i < all.len() ==> peer::named_endpoint((#[trigger] all[i]).0) == Some(
                    all[i].1.peer_id,
                )
        }),
    decreases entries.len(),
{
    assoc::lemma_put_all_distinct(peers, named_peers(entries));
    if entries.len() > 0 {
        lemma_restored_wf(peers, entries.drop_last());
        let before = named_peers(entries.drop_last());
        let (key, offset) = entries.last();
        match peer::named_endpoint(key) {
            Some(peer_id) => {
                let more = before.push((key, disconnected_peer(peer_id, offset)));
                assert(more.drop_last() =~= before);
                assoc::lemma_key_index(assoc::put_all(peers, before), key);
            },
            None => {},
        }
    }
}

/// Recording changes into a log that is not over its limit keeps the newest ones, up
/// to the limit, and moves the offset by their number.
pub proof fn recording_keeps_the_newest(m: SyncModel, changes: Seq<ChangeModel>)
    requires
        m.changes.len() <= m.max_changes,
        m.offset + changes.len() <= u64::MAX,
    ensures
        m.recorded_all(changes).changes == newest(m.changes + changes, m.max_changes as int),
        m.recorded_all(changes).offset == m.offset + changes.len(),
        m.recorded_all(changes).max_changes == m.max_changes,
        m.recorded_all(changes).peers == m.peers,
    decreases changes.len(),
{
    if changes.len() == 0 {
        assert(m.changes + changes =~= m.changes);
    } else {
        let init = changes.drop_last();
        recording_keeps_the_newest(m, init);
        let all = m.changes + changes;
        assert((m.changes + init).push(changes.last()) =~= all);
        let kept = newest(m.changes + init, m.max_changes as int);
        assert(logged(kept, m.max_changes, changes.last()) =~= newest(all, m.max_changes as int));
    }
}

/// A peer that asks for the changes since an offset at which the manager once was
/// gets the changes recorded from then on, as far as the limit keeps them.
pub proof fn changes_since_are_the_recorded_ones(
    m: SyncModel,
    before: Seq<ChangeModel>,
    after: Seq<ChangeModel>,
)
    requires
        m.changes.len() <= m.max_changes,
        m.offset + before.len() + after.len() <= u64::MAX,
    ensures
        m.recorded_all(before + after).since(m.recorded_all(before).offset) == newest(
            after,
            m.max_changes as int,
        ),
{
    recording_keeps_the_newest(m, before);
    recording_keeps_the_newest(m, before + after);
    let end = m.recorded_all(before + after);
    let all = m.changes + (before + after);
    assert(end.since(m.recorded_all(before).offset) =~= newest(after, m.max_changes as int));
}

/// A manager without peers that is restored from a snapshot has the offset and the
/// changes of the manager that the snapshot was taken from, and the same peers with
/// their last offsets, all disconnected.
pub proof fn restore_undoes_snapshot(m: SyncModel, fresh: SyncModel)
    requires
        m.wf(),
        fresh.peers.len() == 0,
    ensures
        ({
            let back = fresh.restored(m.snapshotted());
            &&& back.offset == m.offset
            &&& back.changes == m.changes
            &&& back.peers.len() == m.peers.len()
            &&& forall|i: int|
                0 <= i < m.peers.len() ==> #[trigger] back.peers[i] == (
                    m.peers[i].0,
                    disconnected_peer(m.peers[i].1.peer_id, m.peers[i].1.last_offset),
                )
            &&& forall|offset: u64| #[trigger] back.since(offset) == m.since(offset)
        }),
{
    let peers = Seq::new(
        m.peers.len(),
        |i: int|
            (m.peers[i].0, disconnected_peer(m.peers[i].1.peer_id, m.peers[i].1.last_offset)),
    );
    lemma_named_peers(m.peers, m.peers.len() as int);
    assert(m.peers.take(m.peers.len() as int) =~= m.peers);
    assert(named_peers(peer_offsets(m.peers)) =~= peers);
    assert(assoc::distinct_keys(peers)) by {
        assert forall|i: int, j: int| 0 <= i < j < peers.len() implies (#[trigger] peers[i]).0 != (
        #[trigger] peers[j]).0 by {
            assert(m.peers[i].0 != m.peers[j].0);
        }
    }
    assert(fresh.peers =~= Seq::<(Seq<char>, PeerModel)>::empty());
    assoc::lemma_put_all_same(peers);
}

/// The offsets of well-formed peers name these peers.
proof fn lemma_named_peers(peers: Seq<(Seq<char>, PeerModel)>, n: int)
    requires
        0 <= n <= peers.len(),
        forall|i: int|
            0 <= i < peers.len() ==> peer::named_endpoint((#[trigger] peers[i]).0) == Some(
                peers[i].1.peer_id,
            ),
    ensures
        named_peers(peer_offsets(peers.take(n))) == Seq::new(
            n as nat,
            |i: int| (peers[i].0, disconnected_peer(peers[i].1.peer_id, peers[i].1.last_offset)),
        ),
    decreases n,
{
    let want = |k: int|
        Seq::new(
            k as nat,
            |i: int| (peers[i].0, disconnected_peer(peers[i].1.peer_id, peers[i].1.last_offset)),
        );
    if n > 0 {
        lemma_named_peers(peers, n - 1);
        let entries = peer_offsets(peers.take(n));
        assert(entries.drop_last() =~= peer_offsets(peers.take(n - 1)));
        assert(entries.last() == (peers[n - 1].0, peers[n - 1].1.last_offset));
        assert(named_peers(entries) =~= want(n));
    } else {
        assert(named_peers(peer_offsets(peers.take(0))) =~= want(0));
    }
}

/// Applying changes never lowers the offset, and brings it at least to the sequence
/// number of each change; it goes no further than it must.
pub proof fn applying_raises_the_offset(offset: u64, changes: Seq<ChangeModel>)
    ensures
        raised(offset, changes) >= offset,
        forall|i: int|
            0 <= i < changes.len() ==> raised(offset, changes) >= change_sequence(
                #[trigger] changes[i],
            ),
        raised(offset, changes) == offset || exists|i: int|
            0 <= i < changes.len() && raised(offset, changes) == change_sequence(
                #[trigger] changes[i],
            ),
    decreases changes.len(),
{
    if changes.len() > 0 {
        let init = changes.drop_last();
        applying_raises_the_offset(offset, init);
        assert forall|i: int| 0 <= i < changes.len() implies raised(offset, changes)
            >= change_sequence(#[trigger] changes[i]) by {
            if i < init.len() {
                assert(init[i] == changes[i]);
            }
        }
        if raised(offset, changes) == change_sequence(changes.last()) {
            assert(changes[changes.len() - 1] == changes.last());
        } else if raised(offset, init) != offset {
            let i = choose|i: int|
                0 <= i < init.len() && raised(offset, init) == change_sequence(#[trigger] init[i]);
            assert(changes[i] == init[i]);
        }
    }
}

/// After a peer's state was set, the peer is known by the base64 of its identifier
/// and has that state; the other peers are as before.
pub proof fn set_state_is_seen(m: SyncModel, peer_id: Seq<u8>, state: SyncState)
    requires
        m.wf(),
    ensures
        ({
            let after = with_state(m.peers, peer_id, state);
            let key = common::base64_of(peer_id);
            &&& assoc::lookup(after, key) is Some
            &&& assoc::lookup(after, key)->0.state == state
            &&& forall|other: Seq<char>|
                other != key ==> #[trigger] assoc::lookup(after, other) == assoc::lookup(m.peers, other)
        }),
{
    let key = common::base64_of(peer_id);
    let i = assoc::key_index(m.peers, key);
    assoc::lemma_key_index(m.peers, key);
    if assoc::has_key(m.peers, key) {
        assoc::lemma_put(m.peers, key, PeerModel { state, ..m.peers[i].1 });
    } else {
        assoc::lemma_put(m.peers, key, PeerModel { state, ..disconnected_peer(peer_id, 0) });
    }
}

/// Recording gives a change the offset that the log has, moves the offset on by one, and
/// puts the change last. The changes before it stay, but for the oldest where the log
/// would hold more than it may.
pub proof fn recorded_change_comes_last(m: &mut SyncManager, change: Change, at: u64)
    requires
        call_ensures(SyncManager::record_change, (m, change), at),
        old(m)@.offset < u64::MAX,
        old(m)@.changes.len() <= old(m)@.max_changes,
    ensures
        at == old(m)@.offset,
        final(m)@.offset == old(m)@.offset + 1,
        final(m)@.max_changes == old(m)@.max_changes,
        final(m)@.peers == old(m)@.peers,
        final(m)@.changes.len() <= final(m)@.max_changes,
        old(m)@.changes.len() < old(m)@.max_changes ==> {
            &&& final(m)@.changes.len() == old(m)@.changes.len() + 1
            &&& final(m)@.changes.last() == change@
            &&& forall|i: int|
                0 <= i < old(m)@.changes.len() ==> #[trigger] final(m)@.changes[i]
                    == old(m)@.changes[i]
        },
        old(m)@.changes.len() == old(m)@.max_changes && old(m)@.max_changes > 0 ==> {
            &&& final(m)@.changes.len() == old(m)@.changes.len()
            &&& final(m)@.changes.last() == change@
            &&& forall|i: int|
                0 <= i < old(m)@.changes.len() - 1 ==> #[trigger] final(m)@.changes[i]
                    == old(m)@.changes[i + 1]
        },
{
}

/// The changes since an offset are the last ones of the log: as many as the log's offset
/// is ahead of it, or all that the log keeps, in their order. There are none for an offset
/// that the log has not passed.
pub proof fn changes_since_an_offset_are_the_last_ones(
    m: SyncManager,
    offset: u64,
    r: Vec<Change>,
)
    requires
        call_ensures(SyncManager::get_changes_since, (&m, offset), r),
    ensures
        offset >= m@.offset ==> r@.len() == 0,
        offset < m@.offset && m@.offset - offset <= m@.changes.len() ==> r@.len() == m@.offset
            - offset,
        offset < m@.offset && m@.offset - offset > m@.changes.len() ==> r@.len()
            == m@.changes.len(),
        forall|i: int|
            0 <= i < r@.len() ==> (#[trigger] r@[i])@ == m@.changes[m@.changes.len() - r@.len() + i],
{
    let views = change::changes_view(r@);
    assert(views.len() == r@.len());
    assert forall|i: int| 0 <= i < r@.len() implies (#[trigger] r@[i])@
        == m@.changes[m@.changes.len() - r@.len() + i] by {
        assert(views[i] == r@[i]@);
    }
}

/// The sequence number of a change is in the first eight bytes of its identifier, lowest
/// byte first; the other eight do not matter.
pub proof fn sequence_is_in_the_first_half_of_the_identifier(change: ChangeModel)
    requires
        change.id.len() == 16,
    ensures
        change_sequence(change) == change.id[0] + change.id[1] * 0x100 + change.id[2] * 0x1_0000
            + change.id[3] * 0x100_0000 + change.id[4] * 0x1_0000_0000 + change.id[5]
            * 0x100_0000_0000 + change.id[6] * 0x1_0000_0000_0000 + change.id[7]
            * 0x100_0000_0000_0000,
{
    let id = change.id;
    reveal_with_fuel(ids::le_value, 9);
    let high = ids::le_value(id.skip(8));
    let s1 = id.drop_first();
    let s2 = s1.drop_first();
    let s3 = s2.drop_first();
    let s4 = s3.drop_first();
    let s5 = s4.drop_first();
    let s6 = s5.drop_first();
    let s7 = s6.drop_first();
    let s8 = s7.drop_first();
    assert(s8 =~= id.skip(8));
    let low = id[0] + id[1] * 0x100 + id[2] * 0x1_0000 + id[3] * 0x100_0000 + id[4] * 0x1_0000_0000
        + id[5] * 0x100_0000_0000 + id[6] * 0x1_0000_0000_0000 + id[7] * 0x100_0000_0000_0000;
    assert(ids::le_value(s7) == id[7] as nat + 256 * ids::le_value(s8));
    assert(ids::le_value(s6) == id[6] as nat + 256 * ids::le_value(s7));
    assert(ids::le_value(s5) == id[5] as nat + 256 * ids::le_value(s6));
    assert(ids::le_value(s4) == id[4] as nat + 256 * ids::le_value(s5));
    assert(ids::le_value(s3) == id[3] as nat + 256 * ids::le_value(s4));
    assert(ids::le_value(s2) == id[2] as nat + 256 * ids::le_value(s3));
    assert(ids::le_value(s1) == id[1] as nat + 256 * ids::le_value(s2));
    assert(ids::le_value(id) == id[0] as nat + 256 * ids::le_value(s1));
    assert(ids::le_value(id) == low + 0x1_0000_0000_0000_0000 * high);
    assert(0 <= low < 0x1_0000_0000_0000_0000);
    vstd::arithmetic::div_mod::lemma_fundamental_div_mod_converse(
        ids::le_value(id) as int,
        0x1_0000_0000_0000_0000,
        high as int,
        low as int,
    );
}

/// Applying changes says where the offset would be if each took one, and brings the offset
/// to the greatest sequence number among them, unless it is there already. It records
/// nothing and does not touch the peers.
pub proof fn applying_brings_the_offset_to_the_greatest_sequence(
    m: &mut SyncManager,
    changes: Vec<Change>,
    r: Result<u64>,
)
    requires
        call_ensures(SyncManager::apply_changes, (m, changes), r),
        old(m)@.offset + changes@.len() <= u64::MAX,
    ensures
        r is Ok,
        r->Ok_0 == old(m)@.offset + changes@.len(),
        final(m)@.offset >= old(m)@.offset,
        forall|i: int|
            0 <= i < changes@.len() ==> final(m)@.offset >= change_sequence(
                (#[trigger] changes@[i])@,
            ),
        final(m)@.offset == old(m)@.offset || exists|i: int|
            0 <= i < changes@.len() && final(m)@.offset == change_sequence(
                (#[trigger] changes@[i])@,
            ),
        final(m)@.changes == old(m)@.changes,
        final(m)@.peers == old(m)@.peers,
        final(m)@.max_changes == old(m)@.max_changes,
{
    let views = change::changes_view(changes@);
    applying_raises_the_offset(old(m)@.offset, views);
    assert forall|i: int| 0 <= i < changes@.len() implies final(m)@.offset >= change_sequence(
        (#[trigger] changes@[i])@,
    ) by {
        assert(views[i] == changes@[i]@);
    }
    if final(m)@.offset != old(m)@.offset {
        let i = choose|i: int|
            0 <= i < views.len() && raised(old(m)@.offset, views) == change_sequence(
                #[trigger] views[i],
            );
        assert(views[i] == changes@[i]@);
    }
}

/// Setting the state of a peer that is known changes its state and nothing else of it; one
/// that is not known becomes known with that state, and with no offset seen and no sync.
/// The log and the other peers stay.
pub proof fn peer_state_is_set(m: &mut SyncManager, peer_id: EndpointId, state: SyncState, i: int)
    requires
        call_ensures(SyncManager::update_peer_state, (m, &peer_id, state), ()),
        old(m)@.wf(),
        0 <= i < old(m)@.peers.len(),
    ensures
        final(m)@.offset == old(m)@.offset,
        final(m)@.changes == old(m)@.changes,
        final(m)@.max_changes == old(m)@.max_changes,
        final(m)@.peers[i].0 == old(m)@.peers[i].0,
        final(m)@.peers[i].1.peer_id == old(m)@.peers[i].1.peer_id,
        final(m)@.peers[i].1.last_offset == old(m)@.peers[i].1.last_offset,
        final(m)@.peers[i].1.last_sync == old(m)@.peers[i].1.last_sync,
        final(m)@.peers[i].1.state == if old(m)@.peers[i].0 == common::base64_of(peer_id@) {
            state
        } else {
            old(m)@.peers[i].1.state
        },
{
    let key = common::base64_of(peer_id@);
    assoc::lemma_key_index(old(m)@.peers, key);
    let k = assoc::key_index(old(m)@.peers, key);
    if k < i {
        assert(old(m)@.peers[k].0 != old(m)@.peers[i].0);
    }
}

/// A peer that was not known becomes known when its state is set.
pub proof fn new_peer_becomes_known(m: &mut SyncManager, peer_id: EndpointId, state: SyncState)
    requires
        call_ensures(SyncManager::update_peer_state, (m, &peer_id, state), ()),
        forall|i: int|
            0 <= i < old(m)@.peers.len() ==> (#[trigger] old(m)@.peers[i]).0 != common::base64_of(
                peer_id@,
            ),
    ensures
        final(m)@.peers.len() == old(m)@.peers.len() + 1,
        final(m)@.peers.last().0 == common::base64_of(peer_id@),
        final(m)@.peers.last().1.peer_id == peer_id@,
        final(m)@.peers.last().1.state == state,
        final(m)@.peers.last().1.last_offset == 0,
        final(m)@.peers.last().1.last_sync is None,
{
    assoc::lemma_key_index(old(m)@.peers, common::base64_of(peer_id@));
}

/// A snapshot holds the offset, all changes of the log in order, and for each peer its key
/// and its last offset.
pub proof fn snapshot_holds_the_state(m: SyncManager, s: SyncSnapshot)
    requires
        call_ensures(SyncManager::snapshot, (&m,), s),
    ensures
        s.offset == m@.offset,
        s@.changes == m@.changes,
        s.peers@.len() == m@.peers.len(),
        forall|i: int|
            0 <= i < m@.peers.len() ==> (#[trigger] s.peers@[i]).0@ == m@.peers[i].0
                && s.peers@[i].1 == m@.peers[i].1.last_offset,
{
    let entries = assoc::keyed(s.peers@);
    assert(entries == peer_offsets(m@.peers));
    assert(entries.len() == s.peers@.len());
    assert forall|i: int| 0 <= i < m@.peers.len() implies (#[trigger] s.peers@[i]).0@
        == m@.peers[i].0 && s.peers@[i].1 == m@.peers[i].1.last_offset by {
        assert(entries[i] == (s.peers@[i].0@, s.peers@[i].1));
    }
}

/// Restoring takes over the offset and the changes of a snapshot. Of the entries of a peer
/// that the snapshot names the last one counts: the peer is then known, disconnected, at
/// the offset of that entry. A peer that the snapshot does not name is as before, and
/// entries that name no peer are counted and left out.
pub proof fn restoring_takes_over_the_snapshot(
    m: &mut SyncManager,
    snapshot: SyncSnapshot,
    skipped: usize,
    key: Seq<char>,
)
    requires
        call_ensures(SyncManager::restore, (m, snapshot), skipped),
        old(m)@.wf(),
    ensures
        final(m)@.offset == snapshot.offset,
        final(m)@.changes == change::changes_view(snapshot.changes@),
        final(m)@.max_changes == old(m)@.max_changes,
        skipped == assoc::keyed(snapshot.peers@).filter(
            |entry: (Seq<char>, u64)| peer::named_endpoint(entry.0) is None,
        ).len(),
        (forall|i: int|
            0 <= i < snapshot.peers@.len() ==> (#[trigger] snapshot.peers@[i]).0@ != key)
            ==> assoc::lookup(final(m)@.peers, key) == assoc::lookup(old(m)@.peers, key),
        peer::named_endpoint(key) is None ==> assoc::lookup(final(m)@.peers, key)
            == assoc::lookup(old(m)@.peers, key),
        forall|i: int|
            0 <= i < snapshot.peers@.len() && (#[trigger] snapshot.peers@[i]).0@ == key
                && peer::named_endpoint(key) is Some && (forall|j: int|
                i < j < snapshot.peers@.len() ==> (#[trigger] snapshot.peers@[j]).0@ != key) ==> {
                let after = assoc::lookup(final(m)@.peers, key);
                &&& after is Some
                &&& after->0.peer_id == peer::named_endpoint(key)->0
                &&& after->0.state is Disconnected
                &&& after->0.last_offset == snapshot.peers@[i].1
                &&& after->0.last_sync is None
            },
{
    let entries = assoc::keyed(snapshot.peers@);
    lemma_restored_lookup(old(m)@.peers, entries, key);
    lemma_skipped(entries);
    assert forall|i: int| 0 <= i < entries.len() implies (#[trigger] entries[i]).0
        == snapshot.peers@[i].0@ && entries[i].1 == snapshot.peers@[i].1 by {}
    if forall|i: int| 0 <= i < snapshot.peers@.len() ==> (#[trigger] snapshot.peers@[i]).0@ != key {
        assert forall|i: int| 0 <= i < entries.len() implies (#[trigger] entries[i]).0 != key by {
            assert(snapshot.peers@[i].0@ != key);
        }
    }
    assert forall|i: int|
        0 <= i < snapshot.peers@.len() && (#[trigger] snapshot.peers@[i]).0@ == key
            && peer::named_endpoint(key) is Some && (forall|j: int|
            i < j < snapshot.peers@.len() ==> (#[trigger] snapshot.peers@[j]).0@ != key) implies {
        let after = assoc::lookup(final(m)@.peers, key);
        &&& after is Some
        &&& after->0.peer_id == peer::named_endpoint(key)->0
        &&& after->0.state is Disconnected
        &&& after->0.last_offset == snapshot.peers@[i].1
        &&& after->0.last_sync is None
    } by {
        assert(entries[i].0 == key);
        assert forall|j: int| i < j < entries.len() implies (#[trigger] entries[j]).0 != key by {
            assert(snapshot.peers@[j].0@ != key);
        }
    }
}

/// The entries of a snapshot name a peer or are left out.
proof fn lemma_skipped(entries: Seq<(Seq<char>, u64)>)
    ensures
        named_peers(entries).len() + entries.filter(
            |entry: (Seq<char>, u64)| peer::named_endpoint(entry.0) is None,
        ).len() == entries.len(),
    decreases entries.len(),
{
    reveal(Seq::filter);
    if entries.len() > 0 {
        lemma_skipped(entries.drop_last());
    }
}

/// What the peers set from the entries of a snapshot have under a key.
proof fn lemma_restored_lookup(
    peers: Seq<(Seq<char>, PeerModel)>,
    entries: Seq<(Seq<char>, u64)>,
    key: Seq<char>,
)
    requires
        assoc::distinct_keys(peers),
    ensures
        ({
            let after = assoc::lookup(assoc::put_all(peers, named_peers(entries)), key);
            &&& (forall|i: int| 0 <= i < entries.len() ==> (#[trigger] entries[i]).0 != key)
                || peer::named_endpoint(key) is None ==> after == assoc::lookup(peers, key)
            &&& forall|i: int|
                0 <= i < entries.len() && (#[trigger] entries[i]).0 == key && (forall|j: int|
                    i < j < entries.len() ==> (#[trigger] entries[j]).0 != key)
                    && peer::named_endpoint(key) is Some ==> after == Some(
                    disconnected_peer(peer::named_endpoint(key)->0, entries[i].1),
                )
        }),
    decreases entries.len(),
{
    if entries.len() > 0 {
        let init = entries.drop_last();
        let before = named_peers(init);
        let (last, offset) = entries.last();
        lemma_restored_lookup(peers, init, key);
        assoc::lemma_put_all_distinct(peers, before);
        let set = assoc::put_all(peers, before);
        match peer::named_endpoint(last) {
            Some(peer_id) => {
                let more = before.push((last, disconnected_peer(peer_id, offset)));
                assert(more.drop_last() =~= before);
                assoc::lemma_put(set, last, disconnected_peer(peer_id, offset));
            },
            None => {},
        }
        assert(entries[entries.len() - 1].0 == last);
        if forall|i: int| 0 <= i < entries.len() ==> (#[trigger] entries[i]).0 != key {
            assert forall|i: int| 0 <= i < init.len() implies (#[trigger] init[i]).0 != key by {
                assert(entries[i].0 != key);
            }
        }
        assert forall|i: int|
            0 <= i < entries.len() && (#[trigger] entries[i]).0 == key && (forall|j: int|
                i < j < entries.len() ==> (#[trigger] entries[j]).0 != key)
                && peer::named_endpoint(key) is Some implies assoc::lookup(
            assoc::put_all(peers, named_peers(entries)),
            key,
        ) == Some(disconnected_peer(peer::named_endpoint(key)->0, entries[i].1)) by {
            if i < init.len() {
                assert(init[i] == entries[i]);
                assert(last != key);
                assert forall|j: int| i < j < init.len() implies (#[trigger] init[j]).0 != key by {
                    assert(entries[j].0 != key);
                }
            }
        }
    }
}

/// A new manager has an empty log at offset zero and knows nobody; one that nothing else
/// is asked of keeps ten thousand changes.
pub proof fn new_manager_is_empty(max_changes: usize, m: SyncManager, standard: SyncManager)
    requires
        call_ensures(SyncManager::new, (max_changes,), m),
        call_ensures(SyncManager::default, (), standard),
    ensures
        m@.offset == 0,
        m@.changes.len() == 0,
        m@.max_changes == max_changes,
        m@.peers.len() == 0,
        standard@.offset == 0,
        standard@.changes.len() == 0,
        standard@.max_changes == 10_000,
        standard@.peers.len() == 0,
{
}

/// All known peers are listed, in order, each as it is known.
pub proof fn all_known_peers_are_listed(m: SyncManager, r: Vec<PeerSyncState>, i: int)
    requires
        call_ensures(SyncManager::get_peer_states, (&m,), r),
        0 <= i < m@.peers.len(),
    ensures
        r@.len() == m@.peers.len(),
        r@[i].peer_id@ == m@.peers[i].1.peer_id,
        r@[i].state == m@.peers[i].1.state,
        r@[i].last_offset == m@.peers[i].1.last_offset,
        r@[i].last_sync == m@.peers[i].1.last_sync,
{
    assert(r@[i]@ == m@.peers[i].1);
}

}
