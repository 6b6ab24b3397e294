//! Peer reputation: counts of what went well and badly with each peer, and the score
//! that results.
//!
//! Scores are of a type `S`. How a score changes is worked out by the caller; which
//! peers are known, what is counted, and which peers are picked is decided here.

use crate::assoc;
use crate::assoc::find;
use crate::common;
use crate::common::current_timestamp_secs;
use crate::ext::time;
use crate::peer;
use crate::peer::EndpointId;
use std::time::{Duration, SystemTime};
use vstd::prelude::*;

verus! {

/// Reputation of a peer.
#[derive(Debug)]
pub struct PeerReputation<S> {
    /// Peer endpoint ID
    pub peer_id: EndpointId,
    /// Current reputation score
    pub score: S,
    /// Total successful syncs
    pub sync_successes: u64,
    /// Total failed syncs
    pub sync_failures: u64,
    /// Total connection time in seconds
    pub connection_time_secs: u64,
    /// Number of disconnections
    pub disconnections: u64,
    /// When the peer was first seen (epoch seconds)
    pub first_seen_secs: u64,
    /// Last time the reputation was updated (epoch seconds)
    pub last_updated_secs: u64,
}

impl<S> View for PeerReputation<S> {
    type V = PeerReputation<S>;

    open spec fn view(&self) -> PeerReputation<S> {
        *self
    }
}

impl<S: Clone> Clone for PeerReputation<S> {
    fn clone(&self) -> (r: Self)
        ensures
            r.peer_id == self.peer_id,
            cloned::<S>(self.score, r.score),
            r.sync_successes == self.sync_successes,
            r.sync_failures == self.sync_failures,
            r.connection_time_secs == self.connection_time_secs,
            r.disconnections == self.disconnections,
            r.first_seen_secs == self.first_seen_secs,
            r.last_updated_secs == self.last_updated_secs,
    {
        PeerReputation {
            peer_id: self.peer_id,
            score: self.score.clone(),
            sync_successes: self.sync_successes,
            sync_failures: self.sync_failures,
            connection_time_secs: self.connection_time_secs,
            disconnections: self.disconnections,
            first_seen_secs: self.first_seen_secs,
            last_updated_secs: self.last_updated_secs,
        }
    }
}

/// The seconds from one time to another, and zero where the second is the earlier.
pub open spec fn seconds_between(from: u64, to: u64) -> u64 {
    if to >= from {
        (to - from) as u64
    } else {
        0
    }
}

/// Whether a score is below another, by the order of its type.
pub open spec fn below<S: vstd::std_specs::cmp::PartialOrdSpec>(a: S, b: S) -> bool {
    a.partial_cmp_spec(&b) == Some(core::cmp::Ordering::Less)
}

/// Whether a score is above another, by the order of its type.
pub open spec fn above<S: vstd::std_specs::cmp::PartialOrdSpec>(a: S, b: S) -> bool {
    a.partial_cmp_spec(&b) == Some(core::cmp::Ordering::Greater)
}

/// Whether neither score comes before the other, by the order of their type.
pub open spec fn level<S: vstd::std_specs::cmp::PartialOrdSpec>(a: S, b: S) -> bool {
    a.partial_cmp_spec(&b) == Some(core::cmp::Ordering::Equal)
}

/// Whether comparisons of scores follow the order of their type.
pub open spec fn follows_order<S: vstd::std_specs::cmp::PartialOrdSpec>() -> bool {
    S::obeys_partial_cmp_spec()
}

/// Whether no score is below itself, and scores are below one another along a chain.
pub open spec fn is_strict<S: vstd::std_specs::cmp::PartialOrdSpec>() -> bool {
    &&& forall|a: S| !#[trigger] below(a, a)
    &&& forall|a: S, b: S, c: S| #[trigger] below(a, b) && #[trigger] below(b, c) ==> below(a, c)
}

impl<S> PeerReputation<S> {
    /// Create a new reputation entry for a peer seen at a time.
    pub fn new_at(peer_id: EndpointId, initial_score: S, now_secs: u64) -> (rep: Self)
        ensures
            rep == (PeerReputation {
                peer_id,
                score: initial_score,
                sync_successes: 0,
                sync_failures: 0,
                connection_time_secs: 0,
                disconnections: 0,
                first_seen_secs: now_secs,
                last_updated_secs: now_secs,
            }),
    {
        PeerReputation {
            peer_id,
            score: initial_score,
            sync_successes: 0,
            sync_failures: 0,
            connection_time_secs: 0,
            disconnections: 0,
            first_seen_secs: now_secs,
            last_updated_secs: now_secs,
        }
    }

    /// Create a new reputation entry.
    pub fn new(peer_id: EndpointId, initial_score: S) -> (rep: Self)
        ensures
            exists|t: SystemTime|
                rep == (PeerReputation {
                    peer_id,
                    score: initial_score,
                    sync_successes: 0,
                    sync_failures: 0,
                    connection_time_secs: 0,
                    disconnections: 0,
                    first_seen_secs: #[trigger] common::epoch_secs(t),
                    last_updated_secs: common::epoch_secs(t),
                }),
    {
        Self::new_at(peer_id, initial_score, current_timestamp_secs())
    }

    /// Get the age of the reputation entry at a time.
    pub fn age_at(&self, now_secs: u64) -> (d: Duration)
        ensures
            time::duration_nanos(d) == seconds_between(self.last_updated_secs, now_secs)
                * 1_000_000_000,
    {
        Duration::from_secs(now_secs.saturating_sub(self.last_updated_secs))
    }

    /// Get the age of the reputation entry.
    pub fn age(&self) -> (d: Duration)
        ensures
            exists|t: SystemTime|
                time::duration_nanos(d) == seconds_between(
                    self.last_updated_secs,
                    #[trigger] common::epoch_secs(t),
                ) * 1_000_000_000,
    {
        self.age_at(current_timestamp_secs())
    }
}

impl<S: PartialOrd> PeerReputation<S> {
    /// Check if the peer is considered reliable.
    pub fn is_reliable(&self, threshold: &S) -> (r: bool)
        ensures
            follows_order::<S>() ==> r == reliable(*self, *threshold),
    {
        self.score >= *threshold
    }
}

/// A filter for selecting peers based on reputation.
#[derive(Debug)]
pub struct ReputationFilter<S> {
    /// Minimum score threshold
    pub min_score: Option<S>,
    /// Maximum score threshold
    pub max_score: Option<S>,
    /// Minimum successful syncs
    pub min_sync_successes: Option<u64>,
    /// Maximum failures
    pub max_failures: Option<u64>,
}

/// Whether the counts of a reputation are within what a filter asks for.
pub open spec fn counts_pass<S>(filter: ReputationFilter<S>, rep: PeerReputation<S>) -> bool {
    &&& filter.min_sync_successes is Some ==> rep.sync_successes
        >= filter.min_sync_successes->Some_0
    &&& filter.max_failures is Some ==> rep.sync_failures <= filter.max_failures->Some_0
}

/// Whether the score of a reputation is neither below the least nor above the greatest
/// score that a filter asks for.
pub open spec fn score_passes<S: vstd::std_specs::cmp::PartialOrdSpec>(
    filter: ReputationFilter<S>,
    rep: PeerReputation<S>,
) -> bool {
    &&& filter.min_score is Some ==> !below(rep.score, filter.min_score->Some_0)
    &&& filter.max_score is Some ==> !above(rep.score, filter.max_score->Some_0)
}

impl<S> ReputationFilter<S> {
    /// Create a new filter.
    pub fn new() -> (f: Self)
        ensures
            f == (ReputationFilter::<S> {
                min_score: None,
                max_score: None,
                min_sync_successes: None,
                max_failures: None,
            }),
    {
        ReputationFilter {
            min_score: None,
            max_score: None,
            min_sync_successes: None,
            max_failures: None,
        }
    }

    /// Set minimum score threshold.
    pub fn with_min_score(self, score: S) -> (f: Self)
        ensures
            f == (ReputationFilter { min_score: Some(score), ..self }),
    {
        ReputationFilter { min_score: Some(score), ..self }
    }

    /// Set maximum score threshold.
    pub fn with_max_score(self, score: S) -> (f: Self)
        ensures
            f == (ReputationFilter { max_score: Some(score), ..self }),
    {
        ReputationFilter { max_score: Some(score), ..self }
    }

    /// Set minimum successful syncs.
    pub fn with_min_sync_successes(self, count: u64) -> (f: Self)
        ensures
            f == (ReputationFilter { min_sync_successes: Some(count), ..self }),
    {
        ReputationFilter { min_sync_successes: Some(count), ..self }
    }

    /// Set maximum failures.
    pub fn with_max_failures(self, count: u64) -> (f: Self)
        ensures
            f == (ReputationFilter { max_failures: Some(count), ..self }),
    {
        ReputationFilter { max_failures: Some(count), ..self }
    }
}

impl<S: PartialOrd> ReputationFilter<S> {
    /// Check if a reputation passes the filter.
    pub fn passes(&self, rep: &PeerReputation<S>) -> (r: bool)
        ensures
            r ==> counts_pass(*self, *rep),
            self.min_score is None && self.max_score is None ==> r == counts_pass(*self, *rep),
            follows_order::<S>() ==> r == (counts_pass(*self, *rep) && score_passes(*self, *rep)),
    {
        if let Some(min) = &self.min_score {
            if rep.score < *min {
                return false;
            }
        }
        if let Some(max) = &self.max_score {
            if rep.score > *max {
                return false;
            }
        }
        if let Some(min) = self.min_sync_successes {
            if rep.sync_successes < min {
                return false;
            }
        }
        if let Some(max) = self.max_failures {
            if rep.sync_failures > max {
                return false;
            }
        }
        true
    }

    /// Apply filter to a list of reputations: the ones that pass, in their order.
    pub fn apply<'a>(&self, reputations: &'a [PeerReputation<S>]) -> (r: Vec<&'a PeerReputation<S>>)
        ensures
            forall|i: int| 0 <= i < r@.len() ==> counts_pass(*self, *#[trigger] r@[i]),
            follows_order::<S>() ==> picked(r@) == reputations@.filter(
                |rep: PeerReputation<S>| counts_pass(*self, rep) && score_passes(*self, rep),
            ),
    {
        let mut r: Vec<&PeerReputation<S>> = Vec::new();
        let mut i: usize = 0;
        let ghost all = reputations@;
        let ghost wanted = |rep: PeerReputation<S>|
            counts_pass(*self, rep) && score_passes(*self, rep);
        assert(picked(r@) =~= all.take(0).filter(wanted)) by {
            reveal(Seq::filter);
        }
        while i < reputations.len()
            invariant
                i <= all.len(),
                all == reputations@,
                wanted == (|rep: PeerReputation<S>|
                    counts_pass(*self, rep) && score_passes(*self, rep)),
                forall|k: int| 0 <= k < r@.len() ==> counts_pass(*self, *#[trigger] r@[k]),
                follows_order::<S>() ==> picked(r@) == all.take(i as int).filter(wanted),
            decreases all.len() - i,
        {
            let ghost before = r@;
            let rep = &reputations[i];
            proof {
                reveal(Seq::filter);
                assert(all.take(i + 1).drop_last() =~= all.take(i as int));
                assert(picked(before.push(rep)) =~= picked(before).push(*rep));
            }
            if self.passes(rep) {
                r.push(rep);
            }
            i = i + 1;
        }
        assert(all.take(i as int) =~= all);
        r
    }
}

/// The reputations that references refer to.
pub open spec fn picked<S>(refs: Seq<&PeerReputation<S>>) -> Seq<PeerReputation<S>> {
    Seq::new(refs.len(), |i: int| *refs[i])
}

/// The reputations in a list of keys and reputations.
pub open spec fn listed<S>(entries: Seq<(Seq<char>, PeerReputation<S>)>) -> Seq<PeerReputation<S>> {
    Seq::new(entries.len(), |i: int| entries[i].1)
}

/// Whether no reputation has a score below that of a later one.
pub open spec fn best_first<S: vstd::std_specs::cmp::PartialOrdSpec>(
    reps: Seq<PeerReputation<S>>,
) -> bool {
    forall|i: int, j: int|
        0 <= i < j < reps.len() ==> !below((#[trigger] reps[i]).score, (#[trigger] reps[j]).score)
}

/// What the manager knows: the reputation of each peer, and since when each connection
/// lasts.
pub struct ReputationModel<S> {
    pub reputations: Seq<(Seq<char>, PeerReputation<S>)>,
    pub connection_starts: Seq<(Seq<char>, u64)>,
}

/// The list without the entry of a key.
pub open spec fn without<V>(s: Seq<(Seq<char>, V)>, k: Seq<char>) -> Seq<(Seq<char>, V)> {
    if assoc::has_key(s, k) {
        s.remove(assoc::key_index(s, k))
    } else {
        s
    }
}

impl<S> ReputationModel<S> {
    /// Whether every peer has one reputation and one connection at most.
    pub open spec fn wf(self) -> bool {
        &&& assoc::distinct_keys(self.reputations)
        &&& assoc::distinct_keys(self.connection_starts)
    }

    /// How long the connection to a peer has lasted, in seconds.
    pub open spec fn connected_secs(self, k: Seq<char>, now: u64) -> u64 {
        match assoc::lookup(self.connection_starts, k) {
            Some(start) => seconds_between(start, now),
            None => 0,
        }
    }
}

/// Peer reputation manager.
pub struct ReputationManager<S> {
    reputations: Vec<(String, PeerReputation<S>)>,
    connection_starts: Vec<(String, u64)>,
}

impl<S> View for ReputationManager<S> {
    type V = ReputationModel<S>;

    closed spec fn view(&self) -> ReputationModel<S> {
        ReputationModel {
            reputations: assoc::keyed(self.reputations@),
            connection_starts: assoc::keyed(self.connection_starts@),
        }
    }
}

proof fn lemma_without_distinct<V>(s: Seq<(Seq<char>, V)>, k: Seq<char>)
    requires
        assoc::distinct_keys(s),
    ensures
        assoc::distinct_keys(without(s, k)),
        assoc::lookup(without(s, k), k) is None,
        forall|o: Seq<char>|
            o != k ==> #[trigger] assoc::lookup(without(s, k), o) == assoc::lookup(s, o),
{
    assoc::lemma_key_index(s, k);
    let t = without(s, k);
    if assoc::has_key(s, k) {
        let i = assoc::key_index(s, k);
        assert forall|a: int, b: int| 0 <= a < b < t.len() implies (#[trigger] t[a]).0 != (
        #[trigger] t[b]).0 by {
            let a2 = if a < i { a } else { a + 1 };
            let b2 = if b < i { b } else { b + 1 };
            assert(s[a2].0 != s[b2].0);
        }
        assert forall|j: int| 0 <= j < t.len() implies (#[trigger] t[j]).0 != k by {
            if j >= i {
                assert(s[i].0 != s[j + 1].0);
            }
        }
    }
    assoc::lemma_key_index_at(t, k, t.len() as int);
    assert forall|o: Seq<char>| o != k implies #[trigger] assoc::lookup(t, o) == assoc::lookup(
        s,
        o,
    ) by {
        if assoc::has_key(s, k) {
            let i = assoc::key_index(s, k);
            assoc::lemma_key_index(s, o);
            let p = assoc::key_index(s, o);
            let q = if p < i { p } else { p - 1 };
            assert forall|j: int| 0 <= j < q implies (#[trigger] t[j]).0 != o by {
                assert(s[if j < i { j } else { j + 1 }].0 != o);
            }
            assert(p != i);
            assoc::lemma_key_index_at(t, o, q);
        }
    }
}

/// A peer that is removed is no longer known, and neither is its connection; the others
/// keep what they had.
pub proof fn removed_peer_is_unknown<S>(m: ReputationModel<S>, k: Seq<char>)
    requires
        m.wf(),
    ensures
        assoc::lookup(without(m.reputations, k), k) is None,
        assoc::lookup(without(m.connection_starts, k), k) is None,
        assoc::distinct_keys(without(m.reputations, k)),
        assoc::distinct_keys(without(m.connection_starts, k)),
        forall|o: Seq<char>|
            o != k ==> #[trigger] assoc::lookup(without(m.reputations, k), o) == assoc::lookup(
                m.reputations,
                o,
            ),
        forall|o: Seq<char>|
            o != k ==> #[trigger] assoc::lookup(without(m.connection_starts, k), o)
                == assoc::lookup(m.connection_starts, o),
{
    lemma_without_distinct(m.reputations, k);
    lemma_without_distinct(m.connection_starts, k);
}

impl<S> ReputationManager<S> {
    /// Create a new reputation manager.
    pub fn new() -> (m: Self)
        ensures
            m@.reputations == Seq::<(Seq<char>, PeerReputation<S>)>::empty(),
            m@.connection_starts == Seq::<(Seq<char>, u64)>::empty(),
            m@.wf(),
    {
        let m = ReputationManager { reputations: Vec::new(), connection_starts: Vec::new() };
        assert(m@.reputations =~= Seq::<(Seq<char>, PeerReputation<S>)>::empty());
        assert(m@.connection_starts =~= Seq::<(Seq<char>, u64)>::empty());
        m
    }

    /// Start to keep the reputation of a peer, in place of what was kept of it.
    pub fn track(&mut self, rep: PeerReputation<S>)
        ensures
            final(self)@.reputations == assoc::put(
                old(self)@.reputations,
                peer::hex_of(rep.peer_id@),
                rep,
            ),
            final(self)@.connection_starts == old(self)@.connection_starts,
            old(self)@.wf() ==> final(self)@.wf(),
    {
        let key = rep.peer_id.to_hex();
        proof {
            if old(self)@.wf() {
                assoc::lemma_put(old(self)@.reputations, key@, rep);
            }
        }
        assoc::put_entry(&mut self.reputations, key, rep);
    }

    /// Put a reputation in the place of the one at an index.
    fn replace(&mut self, i: usize, rep: PeerReputation<S>)
        requires
            i < old(self)@.reputations.len(),
        ensures
            final(self)@.reputations == old(self)@.reputations.update(
                i as int,
                (old(self)@.reputations[i as int].0, rep),
            ),
            final(self)@.connection_starts == old(self)@.connection_starts,
    {
        self.reputations[i].1 = rep;
        assert(self@.reputations =~= old(self)@.reputations.update(
            i as int,
            (old(self)@.reputations[i as int].0, rep),
        ));
    }
}

/// What a successful sync at a time makes of a reputation, whose new score is given.
pub open spec fn after_success<S>(rep: PeerReputation<S>, score: S, now: u64) -> PeerReputation<S> {
    PeerReputation {
        sync_successes: (rep.sync_successes + 1) as u64,
        score,
        last_updated_secs: now,
        ..rep
    }
}

/// What a failed sync at a time makes of a reputation, whose new score is given.
pub open spec fn after_failure<S>(rep: PeerReputation<S>, score: S, now: u64) -> PeerReputation<S> {
    PeerReputation {
        sync_failures: (rep.sync_failures + 1) as u64,
        score,
        last_updated_secs: now,
        ..rep
    }
}

/// What a disconnection at a time, after a connection of so many seconds, makes of a
/// reputation, whose new score is given.
pub open spec fn after_disconnection<S>(
    rep: PeerReputation<S>,
    score: S,
    connected_secs: u64,
    now: u64,
) -> PeerReputation<S> {
    PeerReputation {
        connection_time_secs: (rep.connection_time_secs + connected_secs) as u64,
        disconnections: (rep.disconnections + 1) as u64,
        score,
        last_updated_secs: now,
        ..rep
    }
}

impl<S: Copy> ReputationManager<S> {
    /// Record a successful sync at a time. `reward` makes the new score of the old one.
    ///
    /// Nothing happens if the peer has no reputation.
    pub fn record_sync_success_at<F: Fn(S) -> S>(
        &mut self,
        peer_id: &EndpointId,
        now_secs: u64,
        reward: F,
    )
        requires
            assoc::lookup(old(self)@.reputations, peer::hex_of(peer_id@)) matches Some(rep) ==> {
                &&& rep.sync_successes < u64::MAX
                &&& call_requires(reward, (rep.score,))
            },
        ensures
            match assoc::lookup(old(self)@.reputations, peer::hex_of(peer_id@)) {
                Some(rep) => exists|score: S|
                    {
                        &&& #[trigger] call_ensures(reward, (rep.score,), score)
                        &&& final(self)@.reputations == assoc::put(
                            old(self)@.reputations,
                            peer::hex_of(peer_id@),
                            after_success(rep, score, now_secs),
                        )
                    },
                None => final(self)@.reputations == old(self)@.reputations,
            },
            final(self)@.connection_starts == old(self)@.connection_starts,
            old(self)@.wf() ==> final(self)@.wf(),
    {
        let key = peer_id.to_hex();
        let i = find(&self.reputations, &key);
        proof {
            assoc::lemma_key_index(self@.reputations, key@);
        }
        if i < self.reputations.len() {
            let rep = &self.reputations[i].1;
            assert(self@.reputations[i as int].1 == *rep);
            let score = reward(rep.score);
            let next = PeerReputation {
                peer_id: rep.peer_id,
                score,
                sync_successes: rep.sync_successes + 1,
                sync_failures: rep.sync_failures,
                connection_time_secs: rep.connection_time_secs,
                disconnections: rep.disconnections,
                first_seen_secs: rep.first_seen_secs,
                last_updated_secs: now_secs,
            };
            proof {
                if old(self)@.wf() {
                    assoc::lemma_put(self@.reputations, key@, next);
                }
            }
            self.replace(i, next);
        }
    }

    /// Record a failed sync at a time. `punish` makes the new score of the old one.
    ///
    /// Nothing happens if the peer has no reputation.
    pub fn record_sync_failure_at<F: Fn(S) -> S>(
        &mut self,
        peer_id: &EndpointId,
        now_secs: u64,
        punish: F,
    )
        requires
            assoc::lookup(old(self)@.reputations, peer::hex_of(peer_id@)) matches Some(rep) ==> {
                &&& rep.sync_failures < u64::MAX
                &&& call_requires(punish, (rep.score,))
            },
        ensures
            match assoc::lookup(old(self)@.reputations, peer::hex_of(peer_id@)) {
                Some(rep) => exists|score: S|
                    {
                        &&& #[trigger] call_ensures(punish, (rep.score,), score)
                        &&& final(self)@.reputations == assoc::put(
                            old(self)@.reputations,
                            peer::hex_of(peer_id@),
                            after_failure(rep, score, now_secs),
                        )
                    },
                None => final(self)@.reputations == old(self)@.reputations,
            },
            final(self)@.connection_starts == old(self)@.connection_starts,
            old(self)@.wf() ==> final(self)@.wf(),
    {
        let key = peer_id.to_hex();
        let i = find(&self.reputations, &key);
        proof {
            assoc::lemma_key_index(self@.reputations, key@);
        }
        if i < self.reputations.len() {
            let rep = &self.reputations[i].1;
            assert(self@.reputations[i as int].1 == *rep);
            let score = punish(rep.score);
            let next = PeerReputation {
                peer_id: rep.peer_id,
                score,
                sync_successes: rep.sync_successes,
                sync_failures: rep.sync_failures + 1,
                connection_time_secs: rep.connection_time_secs,
                disconnections: rep.disconnections,
                first_seen_secs: rep.first_seen_secs,
                last_updated_secs: now_secs,
            };
            proof {
                if old(self)@.wf() {
                    assoc::lemma_put(self@.reputations, key@, next);
                }
            }
            self.replace(i, next);
        }
    }

    /// Record a connection established at a time.
    pub fn record_connection_at(&mut self, peer_id: &EndpointId, now_secs: u64)
        ensures
            match assoc::lookup(old(self)@.reputations, peer::hex_of(peer_id@)) {
                Some(rep) => final(self)@.reputations == assoc::put(
                    old(self)@.reputations,
                    peer::hex_of(peer_id@),
                    PeerReputation { last_updated_secs: now_secs, ..rep },
                ),
                None => final(self)@.reputations == old(self)@.reputations,
            },
            final(self)@.connection_starts == assoc::put(
                old(self)@.connection_starts,
                peer::hex_of(peer_id@),
                now_secs,
            ),
            old(self)@.wf() ==> final(self)@.wf(),
    {
        let key = peer_id.to_hex();
        let i = find(&self.reputations, &key);
        proof {
            assoc::lemma_key_index(self@.reputations, key@);
            if old(self)@.wf() {
                assoc::lemma_put(self@.connection_starts, key@, now_secs);
            }
        }
        if i < self.reputations.len() {
            let rep = &self.reputations[i].1;
            assert(self@.reputations[i as int].1 == *rep);
            let next = PeerReputation {
                peer_id: rep.peer_id,
                score: rep.score,
                sync_successes: rep.sync_successes,
                sync_failures: rep.sync_failures,
                connection_time_secs: rep.connection_time_secs,
                disconnections: rep.disconnections,
                first_seen_secs: rep.first_seen_secs,
                last_updated_secs: now_secs,
            };
            proof {
                if old(self)@.wf() {
                    assoc::lemma_put(self@.reputations, key@, next);
                }
            }
            self.replace(i, next);
        }
        assoc::put_entry(&mut self.connection_starts, key, now_secs);
    }

    /// Record a disconnection at a time. `punish` makes the new score of the old one.
    ///
    /// The connection is over, and how long it lasted is added to the peer's
    /// reputation, if it has one.
    pub fn record_disconnection_at<F: Fn(S) -> S>(
        &mut self,
        peer_id: &EndpointId,
        now_secs: u64,
        punish: F,
    )
        requires
            assoc::lookup(old(self)@.reputations, peer::hex_of(peer_id@)) matches Some(rep) ==> {
                &&& rep.connection_time_secs + old(self)@.connected_secs(
                    peer::hex_of(peer_id@),
                    now_secs,
                ) <= u64::MAX
                &&& rep.disconnections < u64::MAX
                &&& call_requires(punish, (rep.score,))
            },
        ensures
            match assoc::lookup(old(self)@.reputations, peer::hex_of(peer_id@)) {
                Some(rep) => exists|score: S|
                    {
                        &&& #[trigger] call_ensures(punish, (rep.score,), score)
                        &&& final(self)@.reputations == assoc::put(
                            old(self)@.reputations,
                            peer::hex_of(peer_id@),
                            after_disconnection(
                                rep,
                                score,
                                old(self)@.connected_secs(peer::hex_of(peer_id@), now_secs),
                                now_secs,
                            ),
                        )
                    },
                None => final(self)@.reputations == old(self)@.reputations,
            },
            final(self)@.connection_starts == without(
                old(self)@.connection_starts,
                peer::hex_of(peer_id@),
            ),
            old(self)@.wf() ==> final(self)@.wf(),
    {
        let key = peer_id.to_hex();
        let s = find(&self.connection_starts, &key);
        let i = find(&self.reputations, &key);
        proof {
            assoc::lemma_key_index(self@.reputations, key@);
            assoc::lemma_key_index(self@.connection_starts, key@);
            if old(self)@.wf() {
                lemma_without_distinct(self@.connection_starts, key@);
            }
        }
        let mut lasted: u64 = 0;
        if s < self.connection_starts.len() {
            let start: u64 = self.connection_starts[s].1;
            assert(self@.connection_starts[s as int].1 == start);
            lasted = now_secs.saturating_sub(start);
            self.connection_starts.remove(s);
            assert(self@.connection_starts =~= without(old(self)@.connection_starts, key@));
        }
        assert(lasted == old(self)@.connected_secs(key@, now_secs));
        if i < self.reputations.len() {
            let rep = &self.reputations[i].1;
            assert(self@.reputations[i as int].1 == *rep);
            let score = punish(rep.score);
            let next = PeerReputation {
                peer_id: rep.peer_id,
                score,
                sync_successes: rep.sync_successes,
                sync_failures: rep.sync_failures,
                connection_time_secs: rep.connection_time_secs + lasted,
                disconnections: rep.disconnections + 1,
                first_seen_secs: rep.first_seen_secs,
                last_updated_secs: now_secs,
            };
            proof {
                if old(self)@.wf() {
                    assoc::lemma_put(self@.reputations, key@, next);
                }
            }
            self.replace(i, next);
        }
    }

    /// Apply time-based decay to all reputations at a time. `decay` makes the new score
    /// of the old one and of the seconds since the last update.
    pub fn apply_decay_at<F: Fn(S, u64) -> S>(&mut self, now_secs: u64, decay: F)
        requires
            forall|i: int|
                0 <= i < old(self)@.reputations.len() ==> {
                    let rep = (#[trigger] old(self)@.reputations[i]).1;
                    call_requires(
                        decay,
                        (rep.score, seconds_between(rep.last_updated_secs, now_secs)),
                    )
                },
        ensures
            final(self)@.reputations.len() == old(self)@.reputations.len(),
            forall|i: int|
                0 <= i < old(self)@.reputations.len() ==> decayed(
                    #[trigger] old(self)@.reputations[i],
                    final(self)@.reputations[i],
                    now_secs,
                    decay,
                ),
            final(self)@.connection_starts == old(self)@.connection_starts,
            old(self)@.wf() ==> final(self)@.wf(),
    {
        let mut i: usize = 0;
        while i < self.reputations.len()
            invariant
                i <= self@.reputations.len(),
                self@.reputations.len() == old(self)@.reputations.len(),
                self@.connection_starts == old(self)@.connection_starts,
                forall|k: int|
                    0 <= k < old(self)@.reputations.len() ==> {
                        let rep = (#[trigger] old(self)@.reputations[k]).1;
                        call_requires(
                            decay,
                            (rep.score, seconds_between(rep.last_updated_secs, now_secs)),
                        )
                    },
                forall|k: int|
                    0 <= k < i ==> decayed(
                        #[trigger] old(self)@.reputations[k],
                        self@.reputations[k],
                        now_secs,
                        decay,
                    ),
                forall|k: int|
                    i <= k < self@.reputations.len() ==> #[trigger] self@.reputations[k]
                        == old(self)@.reputations[k],
            decreases self@.reputations.len() - i,
        {
            let rep = &self.reputations[i].1;
            assert(self@.reputations[i as int].1 == *rep);
            assert(self@.reputations[i as int] == old(self)@.reputations[i as int]);
            let score = decay(rep.score, now_secs.saturating_sub(rep.last_updated_secs));
            let next = PeerReputation {
                peer_id: rep.peer_id,
                score,
                sync_successes: rep.sync_successes,
                sync_failures: rep.sync_failures,
                connection_time_secs: rep.connection_time_secs,
                disconnections: rep.disconnections,
                first_seen_secs: rep.first_seen_secs,
                last_updated_secs: now_secs,
            };
            self.replace(i, next);
            i = i + 1;
        }
        assert forall|a: int, b: int|
            old(self)@.wf() && 0 <= a < b < self@.reputations.len() implies (
        #[trigger] self@.reputations[a]).0 != (#[trigger] self@.reputations[b]).0 by {
            assert(old(self)@.reputations[a].0 != old(self)@.reputations[b].0);
        }
    }
}

/// Whether an entry is what decay makes of another at a time.
pub open spec fn decayed<S, F: Fn(S, u64) -> S>(
    from: (Seq<char>, PeerReputation<S>),
    to: (Seq<char>, PeerReputation<S>),
    now: u64,
    decay: F,
) -> bool {
    &&& to.0 == from.0
    &&& to.1 == PeerReputation { score: to.1.score, last_updated_secs: now, ..from.1 }
    &&& call_ensures(
        decay,
        (from.1.score, seconds_between(from.1.last_updated_secs, now)),
        to.1.score,
    )
}

impl<S> ReputationManager<S> {
    /// Get reputation for a peer.
    pub fn get_reputation(&self, peer_id: &EndpointId) -> (r: Option<&PeerReputation<S>>)
        ensures
            match r {
                Some(rep) => assoc::lookup(self@.reputations, peer::hex_of(peer_id@)) == Some(*rep),
                None => assoc::lookup(self@.reputations, peer::hex_of(peer_id@)) is None,
            },
    {
        let key = peer_id.to_hex();
        let i = find(&self.reputations, &key);
        if i < self.reputations.len() {
            assert(self@.reputations[i as int].1 == self.reputations@[i as int].1);
            Some(&self.reputations[i].1)
        } else {
            None
        }
    }

    /// Remove a peer's reputation.
    pub fn remove(&mut self, peer_id: &EndpointId)
        ensures
            final(self)@.reputations == without(old(self)@.reputations, peer::hex_of(peer_id@)),
            final(self)@.connection_starts == without(
                old(self)@.connection_starts,
                peer::hex_of(peer_id@),
            ),
            old(self)@.wf() ==> final(self)@.wf(),
    {
        let key = peer_id.to_hex();
        let i = find(&self.reputations, &key);
        let s = find(&self.connection_starts, &key);
        proof {
            if old(self)@.wf() {
                removed_peer_is_unknown(old(self)@, key@);
            }
        }
        if i < self.reputations.len() {
            self.reputations.remove(i);
        }
        if s < self.connection_starts.len() {
            self.connection_starts.remove(s);
        }
        assert(self@.reputations =~= without(old(self)@.reputations, key@));
        assert(self@.connection_starts =~= without(old(self)@.connection_starts, key@));
    }

    /// The number of peers with a reputation.
    pub fn peer_count(&self) -> (n: usize)
        ensures
            n == self@.reputations.len(),
    {
        self.reputations.len()
    }
}

impl<S: PartialOrd> ReputationManager<S> {
    /// Get all reputations sorted by score, the best first.
    pub fn get_all_reputations(&self) -> (r: Vec<&PeerReputation<S>>)
        ensures
            picked(r@).to_multiset() == listed(self@.reputations).to_multiset(),
            follows_order::<S>() && is_strict::<S>() ==> best_first(picked(r@)),
    {
        let mut r: Vec<&PeerReputation<S>> = Vec::new();
        let mut i: usize = 0;
        let ghost all = listed(self@.reputations);
        assert(picked(r@) =~= all.take(0));
        while i < self.reputations.len()
            invariant
                i <= all.len(),
                all == listed(self@.reputations),
                self.reputations@.len() == all.len(),
                picked(r@).to_multiset() == all.take(i as int).to_multiset(),
                follows_order::<S>() && is_strict::<S>() ==> best_first(picked(r@)),
            decreases all.len() - i,
        {
            let rep = &self.reputations[i].1;
            assert(all[i as int] == *rep);
            let mut p: usize = 0;
            let ghost before = picked(r@);
            while p < r.len() && !(r[p].score < rep.score)
                invariant
                    p <= r@.len(),
                    before == picked(r@),
                    follows_order::<S>() ==> forall|k: int|
                        0 <= k < p ==> !below((#[trigger] before[k]).score, rep.score),
                decreases r@.len() - p,
            {
                assert(before[p as int] == *r@[p as int]);
                p = p + 1;
            }
            proof {
                if p < r@.len() {
                    assert(before[p as int] == *r@[p as int]);
                }
                lemma_insert(before, p as int, *rep);
                if follows_order::<S>() && is_strict::<S>() {
                    lemma_best_first(before, p as int, *rep);
                }
                assert(all.take(i + 1) =~= all.take(i as int).push(*rep));
                broadcast use vstd::seq_lib::group_to_multiset_ensures;
            }
            r.insert(p, rep);
            assert(picked(r@) =~= before.insert(p as int, *rep));
            i = i + 1;
        }
        assert(all.take(i as int) =~= all);
        r
    }

    /// Get the best peers to connect to: of the first so many by score, those that are
    /// reliable.
    pub fn get_best_peers(&self, count: usize, threshold: &S) -> (r: Vec<&PeerReputation<S>>)
        ensures
            follows_order::<S>() ==> exists|order: Seq<PeerReputation<S>>|
                {
                    &&& #[trigger] order.to_multiset() == listed(self@.reputations).to_multiset()
                    &&& is_strict::<S>() ==> best_first(order)
                    &&& picked(r@) == order.take(
                        if count < order.len() {
                            count as int
                        } else {
                            order.len() as int
                        },
                    ).filter(|rep: PeerReputation<S>| reliable(rep, *threshold))
                },
            r@.len() <= count,
    {
        let all = self.get_all_reputations();
        let ghost order = picked(all@);
        let n: usize = if count < all.len() {
            count
        } else {
            all.len()
        };
        let ghost wanted = |rep: PeerReputation<S>| reliable(rep, *threshold);
        let mut r: Vec<&PeerReputation<S>> = Vec::new();
        let mut i: usize = 0;
        assert(picked(r@) =~= order.take(0).filter(wanted)) by {
            reveal(Seq::filter);
        }
        while i < n
            invariant
                i <= n <= all@.len(),
                order == picked(all@),
                r@.len() <= i,
                wanted == (|rep: PeerReputation<S>| reliable(rep, *threshold)),
                follows_order::<S>() ==> picked(r@) == order.take(i as int).filter(wanted),
            decreases n - i,
        {
            let rep = all[i];
            let ghost before = r@;
            proof {
                reveal(Seq::filter);
                assert(order.take(i + 1).drop_last() =~= order.take(i as int));
                assert(picked(before.push(rep)) =~= picked(before).push(*rep));
            }
            if rep.is_reliable(threshold) {
                r.push(rep);
            }
            i = i + 1;
        }
        assert(order.to_multiset() == listed(self@.reputations).to_multiset());
        r
    }
}

/// Whether a reputation has at least the score of a threshold.
pub open spec fn reliable<S: vstd::std_specs::cmp::PartialOrdSpec>(
    rep: PeerReputation<S>,
    threshold: S,
) -> bool {
    above(rep.score, threshold) || level(rep.score, threshold)
}

proof fn lemma_insert<A>(s: Seq<A>, p: int, a: A)
    requires
        0 <= p <= s.len(),
    ensures
        s.insert(p, a).to_multiset() == s.to_multiset().insert(a),
{
    broadcast use vstd::seq_lib::group_to_multiset_ensures;

    let t = s.insert(p, a);
    assert(t.remove(p) =~= s);
    assert(t[p] == a);
    assert(t.contains(a));
    assert(t.to_multiset().remove(a).insert(a) =~= t.to_multiset());
}

proof fn lemma_best_first<S: PartialOrd>(
    s: Seq<PeerReputation<S>>,
    p: int,
    rep: PeerReputation<S>,
)
    requires
        best_first(s),
        is_strict::<S>(),
        0 <= p <= s.len(),
        forall|k: int| 0 <= k < p ==> !below((#[trigger] s[k]).score, rep.score),
        p < s.len() ==> below(s[p].score, rep.score),
    ensures
        best_first(s.insert(p, rep)),
{
    let t = s.insert(p, rep);
    assert forall|i: int, j: int| 0 <= i < j < t.len() implies !below(
        (#[trigger] t[i]).score,
        (#[trigger] t[j]).score,
    ) by {
        if i == p {
            if below(rep.score, s[j - 1].score) {
                assert(below(s[p].score, s[j - 1].score));
            }
        } else if j == p {
            assert(t[i] == s[i]);
        } else {
            let a = if i < p { i } else { i - 1 };
            let b = if j < p { j } else { j - 1 };
            assert(t[i] == s[a] && t[j] == s[b]);
        }
    }
}

/// A successful sync of a peer that has a reputation counts as one more success, as of now,
/// and gives it the new score; the other counts stay, and so do the other peers.
pub proof fn success_is_counted<S: Copy, F: Fn(S) -> S>(
    m: &mut ReputationManager<S>,
    peer_id: EndpointId,
    now: u64,
    reward: F,
    i: int,
)
    requires
        call_ensures(
            ReputationManager::<S>::record_sync_success_at::<F>,
            (m, &peer_id, now, reward),
            (),
        ),
        old(m)@.wf(),
        0 <= i < old(m)@.reputations.len(),
        old(m)@.reputations[i].1.sync_successes < u64::MAX,
    ensures
        final(m)@.connection_starts == old(m)@.connection_starts,
        final(m)@.reputations.len() == old(m)@.reputations.len(),
        final(m)@.reputations[i].0 == old(m)@.reputations[i].0,
        old(m)@.reputations[i].0 != peer::hex_of(peer_id@) ==> final(m)@.reputations[i]
            == old(m)@.reputations[i],
        old(m)@.reputations[i].0 == peer::hex_of(peer_id@) ==> {
            let before = old(m)@.reputations[i].1;
            let after = final(m)@.reputations[i].1;
            &&& after.sync_successes == before.sync_successes + 1
            &&& after.sync_failures == before.sync_failures
            &&& after.connection_time_secs == before.connection_time_secs
            &&& after.disconnections == before.disconnections
            &&& after.first_seen_secs == before.first_seen_secs
            &&& after.last_updated_secs == now
            &&& after.peer_id == before.peer_id
            &&& call_ensures(reward, (before.score,), after.score)
        },
{
    let key = peer::hex_of(peer_id@);
    lemma_at(old(m)@.reputations, key, i);
}

/// A failed sync of a peer that has a reputation counts as one more failure, as of now, and
/// gives it the new score; the other counts stay, and so do the other peers.
pub proof fn failure_is_counted<S: Copy, F: Fn(S) -> S>(
    m: &mut ReputationManager<S>,
    peer_id: EndpointId,
    now: u64,
    punish: F,
    i: int,
)
    requires
        call_ensures(
            ReputationManager::<S>::record_sync_failure_at::<F>,
            (m, &peer_id, now, punish),
            (),
        ),
        old(m)@.wf(),
        0 <= i < old(m)@.reputations.len(),
        old(m)@.reputations[i].1.sync_failures < u64::MAX,
    ensures
        final(m)@.connection_starts == old(m)@.connection_starts,
        final(m)@.reputations.len() == old(m)@.reputations.len(),
        final(m)@.reputations[i].0 == old(m)@.reputations[i].0,
        old(m)@.reputations[i].0 != peer::hex_of(peer_id@) ==> final(m)@.reputations[i]
            == old(m)@.reputations[i],
        old(m)@.reputations[i].0 == peer::hex_of(peer_id@) ==> {
            let before = old(m)@.reputations[i].1;
            let after = final(m)@.reputations[i].1;
            &&& after.sync_failures == before.sync_failures + 1
            &&& after.sync_successes == before.sync_successes
            &&& after.connection_time_secs == before.connection_time_secs
            &&& after.disconnections == before.disconnections
            &&& after.first_seen_secs == before.first_seen_secs
            &&& after.last_updated_secs == now
            &&& after.peer_id == before.peer_id
            &&& call_ensures(punish, (before.score,), after.score)
        },
{
    lemma_at(old(m)@.reputations, peer::hex_of(peer_id@), i);
}

/// A connection lasts from when it is recorded to the disconnection; its seconds are then
/// added to the peer's reputation, with one more disconnection and the new score, and the
/// connection is forgotten.
pub proof fn connection_time_is_counted<S: Copy, F: Fn(S) -> S>(
    connected: &mut ReputationManager<S>,
    from: u64,
    m: &mut ReputationManager<S>,
    peer_id: EndpointId,
    now: u64,
    punish: F,
    i: int,
)
    requires
        call_ensures(
            ReputationManager::<S>::record_connection_at,
            (connected, &peer_id, from),
            (),
        ),
        call_ensures(
            ReputationManager::<S>::record_disconnection_at::<F>,
            (m, &peer_id, now, punish),
            (),
        ),
        old(connected)@.wf(),
        old(m)@.wf(),
        0 <= i < old(m)@.reputations.len(),
        old(m)@.reputations[i].0 == peer::hex_of(peer_id@),
        old(m)@.reputations[i].1.disconnections < u64::MAX,
        assoc::lookup(old(m)@.connection_starts, peer::hex_of(peer_id@)) == Some(from),
        from <= now,
        old(m)@.reputations[i].1.connection_time_secs + (now - from) <= u64::MAX,
    ensures
        assoc::lookup(final(connected)@.connection_starts, peer::hex_of(peer_id@)) == Some(from),
        final(m)@.reputations.len() == old(m)@.reputations.len(),
        final(m)@.reputations[i].0 == old(m)@.reputations[i].0,
        ({
            let before = old(m)@.reputations[i].1;
            let after = final(m)@.reputations[i].1;
            &&& after.connection_time_secs == before.connection_time_secs + (now - from)
            &&& after.disconnections == before.disconnections + 1
            &&& after.sync_successes == before.sync_successes
            &&& after.sync_failures == before.sync_failures
            &&& after.first_seen_secs == before.first_seen_secs
            &&& after.last_updated_secs == now
            &&& after.peer_id == before.peer_id
            &&& call_ensures(punish, (before.score,), after.score)
        }),
        assoc::lookup(final(m)@.connection_starts, peer::hex_of(peer_id@)) is None,
{
    let key = peer::hex_of(peer_id@);
    assoc::lemma_put(old(connected)@.connection_starts, key, from);
    lemma_at(old(m)@.reputations, key, i);
    lemma_without_distinct(old(m)@.connection_starts, key);
}

/// The entry with a key among distinct ones is the one that is looked up.
proof fn lemma_at<S>(s: Seq<(Seq<char>, PeerReputation<S>)>, key: Seq<char>, i: int)
    requires
        assoc::distinct_keys(s),
        0 <= i < s.len(),
    ensures
        s[i].0 == key ==> assoc::key_index(s, key) == i && assoc::lookup(s, key) == Some(s[i].1),
        s[i].0 != key ==> assoc::key_index(s, key) != i,
        0 <= assoc::key_index(s, key) <= s.len(),
{
    assoc::lemma_key_index(s, key);
    if s[i].0 == key && assoc::key_index(s, key) < i {
        assert(s[assoc::key_index(s, key)].0 != s[i].0);
    }
}

/// A reputation starts without counts, at the score it is given and as of now; tracking it
/// makes it the one of its peer, and the others stay.
pub proof fn reputation_starts_without_counts<S>(
    peer_id: EndpointId,
    score: S,
    now: u64,
    rep: PeerReputation<S>,
    m: &mut ReputationManager<S>,
    other: Seq<char>,
)
    requires
        call_ensures(PeerReputation::<S>::new_at, (peer_id, score, now), rep),
        call_ensures(ReputationManager::<S>::track, (m, rep), ()),
        old(m)@.wf(),
    ensures
        rep.peer_id == peer_id,
        rep.score == score,
        rep.sync_successes == 0,
        rep.sync_failures == 0,
        rep.connection_time_secs == 0,
        rep.disconnections == 0,
        rep.first_seen_secs == now,
        rep.last_updated_secs == now,
        assoc::lookup(final(m)@.reputations, peer::hex_of(peer_id@)) == Some(rep),
        other != peer::hex_of(peer_id@) ==> assoc::lookup(final(m)@.reputations, other)
            == assoc::lookup(old(m)@.reputations, other),
{
    assoc::lemma_put(old(m)@.reputations, peer::hex_of(peer_id@), rep);
}

/// A reputation passes a filter if and only if it has at least the successes and at most
/// the failures that the filter asks for, and its score is neither below the least nor
/// above the greatest score; what the filter does not ask for does not matter.
pub proof fn filter_asks_for_counts_and_scores<S: PartialOrd>(
    f: ReputationFilter<S>,
    rep: PeerReputation<S>,
    r: bool,
)
    requires
        call_ensures(ReputationFilter::<S>::passes, (&f, &rep), r),
        follows_order::<S>(),
    ensures
        f.min_sync_successes is Some && rep.sync_successes < f.min_sync_successes->0 ==> !r,
        f.max_failures is Some && rep.sync_failures > f.max_failures->0 ==> !r,
        f.min_score is Some && below(rep.score, f.min_score->0) ==> !r,
        f.max_score is Some && above(rep.score, f.max_score->0) ==> !r,
        (f.min_sync_successes is None || rep.sync_successes >= f.min_sync_successes->0) && (
        f.max_failures is None || rep.sync_failures <= f.max_failures->0) && (f.min_score is None
            || !below(rep.score, f.min_score->0)) && (f.max_score is None || !above(
            rep.score,
            f.max_score->0,
        )) ==> r,
{
}

/// The best peers are no more than were asked for, all of them reach the threshold, and
/// none comes before one with a higher score. A peer that reaches the threshold is left out
/// only in favour of peers whose scores are not below its own, and only where there are
/// more peers than were asked for.
pub proof fn best_peers_are_the_best<S: PartialOrd>(
    m: ReputationManager<S>,
    count: usize,
    threshold: S,
    r: Vec<&PeerReputation<S>>,
    i: int,
    left_out: PeerReputation<S>,
)
    requires
        call_ensures(ReputationManager::<S>::get_best_peers, (&m, count, &threshold), r),
        follows_order::<S>(),
        is_strict::<S>(),
    ensures
        r@.len() <= count,
        0 <= i < r@.len() ==> above(r@[i].score, threshold) || level(r@[i].score, threshold),
        0 <= i < r@.len() ==> listed(m@.reputations).contains(*r@[i]),
        forall|a: int, b: int|
            0 <= a < b < r@.len() ==> !below((#[trigger] r@[a]).score, (#[trigger] r@[b]).score),
        listed(m@.reputations).contains(left_out) && (above(left_out.score, threshold) || level(
            left_out.score,
            threshold,
        )) && !picked(r@).contains(left_out) ==> {
            &&& m@.reputations.len() > count
            &&& 0 <= i < r@.len() ==> !below(r@[i].score, left_out.score)
        },
{
    broadcast use vstd::seq_lib::group_to_multiset_ensures;

    let all = listed(m@.reputations);
    let order = choose|order: Seq<PeerReputation<S>>|
        {
            &&& #[trigger] order.to_multiset() == all.to_multiset()
            &&& is_strict::<S>() ==> best_first(order)
            &&& picked(r@) == order.take(
                if count < order.len() {
                    count as int
                } else {
                    order.len() as int
                },
            ).filter(|rep: PeerReputation<S>| reliable(rep, threshold))
        };
    let n = if count < order.len() {
        count as int
    } else {
        order.len() as int
    };
    let top = order.take(n);
    let wanted = |rep: PeerReputation<S>| reliable(rep, threshold);
    assert(order.len() == all.len()) by {
        assert(order.to_multiset().len() == all.to_multiset().len());
    }
    assert(best_first(top)) by {
        assert forall|a: int, b: int| 0 <= a < b < top.len() implies !below(
            (#[trigger] top[a]).score,
            (#[trigger] top[b]).score,
        ) by {
            assert(!below(order[a].score, order[b].score));
        }
    }
    lemma_filter_best_first(top, wanted);
    assert forall|a: int, b: int| 0 <= a < b < r@.len() implies !below(
        (#[trigger] r@[a]).score,
        (#[trigger] r@[b]).score,
    ) by {
        assert(picked(r@)[a] == *r@[a] && picked(r@)[b] == *r@[b]);
    }
    if 0 <= i < r@.len() {
        assert(picked(r@)[i] == *r@[i]);
        assert(picked(r@).contains(*r@[i]));
        lemma_filter_contains(top, wanted, *r@[i]);
        let q = choose|q: int| 0 <= q < top.len() && top[q] == *r@[i];
        assert(order[q] == *r@[i]);
        assert(order.contains(*r@[i]));
        assert(all.to_multiset().count(*r@[i]) > 0);
        if all.contains(left_out) && reliable(left_out, threshold) && !picked(r@).contains(left_out) {
            lemma_filter_contains(top, wanted, left_out);
            assert(order.to_multiset().count(left_out) > 0);
            assert(order.contains(left_out));
            let p = choose|p: int| 0 <= p < order.len() && order[p] == left_out;
            assert(p >= n) by {
                if p < n {
                    assert(top[p] == left_out);
                }
            }
            assert(!below(order[q].score, order[p].score));
        }
    }
    if all.contains(left_out) && reliable(left_out, threshold) && !picked(r@).contains(left_out) {
        lemma_filter_contains(top, wanted, left_out);
        assert(order.to_multiset().count(left_out) > 0);
        assert(order.contains(left_out));
        let p = choose|p: int| 0 <= p < order.len() && order[p] == left_out;
        assert(p >= n) by {
            if p < n {
                assert(top[p] == left_out);
            }
        }
    }
}

/// A filter keeps what is there and wanted, and nothing else.
proof fn lemma_filter_contains<A>(s: Seq<A>, wanted: spec_fn(A) -> bool, a: A)
    ensures
        s.filter(wanted).contains(a) <==> s.contains(a) && wanted(a),
    decreases s.len(),
{
    reveal(Seq::filter);
    if s.len() > 0 {
        let init = s.drop_last();
        let before = init.filter(wanted);
        let all = s.filter(wanted);
        lemma_filter_contains(init, wanted, a);
        assert(s[s.len() - 1] == s.last());
        if s.contains(a) {
            let k = choose|k: int| 0 <= k < s.len() && s[k] == a;
            if k < init.len() {
                assert(init[k] == a);
            }
        }
        if init.contains(a) {
            let k = choose|k: int| 0 <= k < init.len() && init[k] == a;
            assert(s[k] == a);
        }
        if before.contains(a) {
            let k = choose|k: int| 0 <= k < before.len() && before[k] == a;
            assert(all[k] == a);
        }
        if all.contains(a) {
            let k = choose|k: int| 0 <= k < all.len() && all[k] == a;
            if k < before.len() {
                assert(before[k] == a);
            }
        }
        if wanted(s.last()) {
            assert(all[before.len() as int] == s.last());
        }
    }
}

/// What a filter keeps is in the order it was.
proof fn lemma_filter_best_first<S: PartialOrd>(
    s: Seq<PeerReputation<S>>,
    wanted: spec_fn(PeerReputation<S>) -> bool,
)
    requires
        best_first(s),
    ensures
        best_first(s.filter(wanted)),
    decreases s.len(),
{
    reveal(Seq::filter);
    if s.len() > 0 {
        let init = s.drop_last();
        let before = init.filter(wanted);
        let all = s.filter(wanted);
        assert forall|a: int, b: int| 0 <= a < b < init.len() implies !below(
            (#[trigger] init[a]).score,
            (#[trigger] init[b]).score,
        ) by {
            assert(!below(s[a].score, s[b].score));
        }
        lemma_filter_best_first(init, wanted);
        assert forall|a: int, b: int| 0 <= a < b < all.len() implies !below(
            (#[trigger] all[a]).score,
            (#[trigger] all[b]).score,
        ) by {
            assert(all[a] == before[a]);
            if b < before.len() {
                assert(all[b] == before[b]);
            } else {
                assert(before.contains(before[a]));
                lemma_filter_contains(init, wanted, before[a]);
                let k = choose|k: int| 0 <= k < init.len() && init[k] == before[a];
                assert(!below(s[k].score, s[s.len() - 1].score));
            }
        }
    }
}

/// Decay reaches every reputation, as of now: its score becomes what decay makes of it over
/// the seconds since its last update, and nothing else of it changes.
pub proof fn decay_changes_scores_only<S: Copy, F: Fn(S, u64) -> S>(
    m: &mut ReputationManager<S>,
    now: u64,
    decay: F,
    i: int,
)
    requires
        call_ensures(ReputationManager::<S>::apply_decay_at::<F>, (m, now, decay), ()),
        0 <= i < old(m)@.reputations.len(),
        old(m)@.reputations[i].1.last_updated_secs <= now,
    ensures
        final(m)@.reputations.len() == old(m)@.reputations.len(),
        final(m)@.reputations[i].0 == old(m)@.reputations[i].0,
        ({
            let before = old(m)@.reputations[i].1;
            let after = final(m)@.reputations[i].1;
            &&& call_ensures(
                decay,
                (before.score, (now - before.last_updated_secs) as u64),
                after.score,
            )
            &&& after.last_updated_secs == now
            &&& after.sync_successes == before.sync_successes
            &&& after.sync_failures == before.sync_failures
            &&& after.connection_time_secs == before.connection_time_secs
            &&& after.disconnections == before.disconnections
            &&& after.first_seen_secs == before.first_seen_secs
            &&& after.peer_id == before.peer_id
        }),
{
}

/// The age of a reputation is the time since its last update, and zero for an update that
/// is to come.
pub proof fn age_is_since_the_last_update<S>(rep: PeerReputation<S>, now: u64, d: Duration)
    requires
        call_ensures(PeerReputation::<S>::age_at, (&rep, now), d),
    ensures
        now >= rep.last_updated_secs ==> time::duration_nanos(d) == (now - rep.last_updated_secs)
            * 1_000_000_000,
        now < rep.last_updated_secs ==> time::duration_nanos(d) == 0,
{
}

/// All reputations are listed, each as often as it is there, and none before one with a
/// higher score.
pub proof fn reputations_are_listed_by_score<S: PartialOrd>(
    m: ReputationManager<S>,
    r: Vec<&PeerReputation<S>>,
    i: int,
    j: int,
)
    requires
        call_ensures(ReputationManager::<S>::get_all_reputations, (&m,), r),
        follows_order::<S>(),
        is_strict::<S>(),
        0 <= i < j < r@.len(),
    ensures
        r@.len() == m@.reputations.len(),
        picked(r@).to_multiset() == listed(m@.reputations).to_multiset(),
        !below(r@[i].score, r@[j].score),
{
    broadcast use vstd::seq_lib::group_to_multiset_ensures;

    assert(picked(r@).to_multiset().len() == listed(m@.reputations).to_multiset().len());
    assert(!below(picked(r@)[i].score, picked(r@)[j].score));
}

/// Removing a peer forgets its reputation and its connection, and nobody else's.
pub proof fn removing_forgets_the_peer<S>(
    m: &mut ReputationManager<S>,
    peer_id: EndpointId,
    other: Seq<char>,
)
    requires
        call_ensures(ReputationManager::<S>::remove, (m, &peer_id), ()),
        old(m)@.wf(),
    ensures
        assoc::lookup(final(m)@.reputations, peer::hex_of(peer_id@)) is None,
        assoc::lookup(final(m)@.connection_starts, peer::hex_of(peer_id@)) is None,
        other != peer::hex_of(peer_id@) ==> {
            &&& assoc::lookup(final(m)@.reputations, other) == assoc::lookup(
                old(m)@.reputations,
                other,
            )
            &&& assoc::lookup(final(m)@.connection_starts, other) == assoc::lookup(
                old(m)@.connection_starts,
                other,
            )
        },
{
    removed_peer_is_unknown(old(m)@, peer::hex_of(peer_id@));
}

/// A peer is reliable if and only if its score is above the threshold or level with it.
pub proof fn reliability_goes_by_the_threshold<S: PartialOrd>(
    rep: PeerReputation<S>,
    threshold: S,
    r: bool,
)
    requires
        call_ensures(PeerReputation::<S>::is_reliable, (&rep, &threshold), r),
        follows_order::<S>(),
    ensures
        r <==> above(rep.score, threshold) || level(rep.score, threshold),
{
}

/// A filter picks, in order, the reputations that pass it.
pub proof fn filter_picks_what_passes<S: PartialOrd>(
    f: ReputationFilter<S>,
    reps: &[PeerReputation<S>],
    r: Vec<&PeerReputation<S>>,
    any: PeerReputation<S>,
)
    requires
        call_ensures(ReputationFilter::<S>::apply, (&f, reps), r),
        follows_order::<S>(),
    ensures
        picked(r@).contains(any) <==> reps@.contains(any) && (f.min_sync_successes is None
            || any.sync_successes >= f.min_sync_successes->0) && (f.max_failures is None
            || any.sync_failures <= f.max_failures->0) && (f.min_score is None || !below(
            any.score,
            f.min_score->0,
        )) && (f.max_score is None || !above(any.score, f.max_score->0)),
{
    lemma_filter_contains(
        reps@,
        |rep: PeerReputation<S>| counts_pass(f, rep) && score_passes(f, rep),
        any,
    );
}

/// Each condition of a filter is set by itself.
pub proof fn filter_conditions_are_independent<S>(
    f: ReputationFilter<S>,
    score: S,
    n: u64,
    least: ReputationFilter<S>,
    most: ReputationFilter<S>,
    successes: ReputationFilter<S>,
    failures: ReputationFilter<S>,
)
    requires
        call_ensures(ReputationFilter::<S>::with_min_score, (f, score), least),
        call_ensures(ReputationFilter::<S>::with_max_score, (f, score), most),
        call_ensures(ReputationFilter::<S>::with_min_sync_successes, (f, n), successes),
        call_ensures(ReputationFilter::<S>::with_max_failures, (f, n), failures),
    ensures
        least.min_score == Some(score) && least.max_score == f.max_score && least.min_sync_successes
            == f.min_sync_successes && least.max_failures == f.max_failures,
        most.max_score == Some(score) && most.min_score == f.min_score && most.min_sync_successes
            == f.min_sync_successes && most.max_failures == f.max_failures,
        successes.min_sync_successes == Some(n) && successes.max_failures == f.max_failures
            && successes.min_score == f.min_score && successes.max_score == f.max_score,
        failures.max_failures == Some(n) && failures.min_sync_successes == f.min_sync_successes
            && failures.min_score == f.min_score && failures.max_score == f.max_score,
{
}

}
