//! Watch/notify system for event-based change notifications.
//!
//! The notifier keeps who has subscribed to what and decides who gets an event; the
//! caller delivers it.

use crate::change::{Change, ChangeModel, ChangeOperation};
use crate::common;
use crate::common::current_timestamp_secs;
use crate::peer::EndpointId;
use std::time::SystemTime;
use vstd::prelude::*;

verus! {

/// Type of change event.
#[derive(Debug, Clone, Copy, PartialEq, Eq, Hash, Structural)]
pub enum ChangeEventType {
    /// A value was set
    SetValue,
    /// A value was deleted
    Delete,
    /// Multiple changes occurred
    Batch,
}

impl ChangeEventType {
    /// The name of the type.
    pub fn as_str(&self) -> (s: &'static str)
        ensures
            s@ == (match self {
                ChangeEventType::SetValue => "set"@,
                ChangeEventType::Delete => "delete"@,
                ChangeEventType::Batch => "batch"@,
            }),
    {
        match self {
            ChangeEventType::SetValue => "set",
            ChangeEventType::Delete => "delete",
            ChangeEventType::Batch => "batch",
        }
    }
}

/// The type of the event for an operation: a deletion is one, everything else sets a
/// value.
pub open spec fn event_type_of(op: ChangeOperation) -> ChangeEventType {
    match op {
        ChangeOperation::Delete => ChangeEventType::Delete,
        _ => ChangeEventType::SetValue,
    }
}

/// The type of event that an operation brings about.
pub fn operation_event_type(op: ChangeOperation) -> (t: ChangeEventType)
    ensures
        t == event_type_of(op),
{
    match op {
        ChangeOperation::SetValue => ChangeEventType::SetValue,
        ChangeOperation::Delete => ChangeEventType::Delete,
        _ => ChangeEventType::SetValue,
    }
}

/// A change event with metadata.
#[derive(Debug)]
pub struct ChangeEvent {
    /// Type of change
    pub event_type: ChangeEventType,
    /// The change data
    pub change: Change,
    /// Source peer ID (if from sync)
    pub source_peer: Option<EndpointId>,
    /// Sequence number for ordering
    pub sequence: u64,
    /// Timestamp (epoch seconds)
    pub timestamp_secs: u64,
}

impl Clone for ChangeEvent {
    fn clone(&self) -> (e: Self)
        ensures
            e.event_type == self.event_type,
            e.change@ == self.change@,
            e.source_peer == self.source_peer,
            e.sequence == self.sequence,
            e.timestamp_secs == self.timestamp_secs,
    {
        ChangeEvent {
            event_type: self.event_type,
            change: self.change.clone(),
            source_peer: self.source_peer,
            sequence: self.sequence,
            timestamp_secs: self.timestamp_secs,
        }
    }
}

impl ChangeEvent {
    /// Create a new change event.
    pub fn new(event_type: ChangeEventType, change: Change, sequence: u64) -> (e: Self)
        ensures
            e.event_type == event_type,
            e.change == change,
            e.source_peer is None,
            e.sequence == sequence,
            exists|t: SystemTime| e.timestamp_secs == common::epoch_secs(t),
    {
        ChangeEvent {
            event_type,
            change,
            source_peer: None,
            sequence,
            timestamp_secs: current_timestamp_secs(),
        }
    }

    /// Create from a sync source.
    pub fn from_sync(change: Change, sequence: u64, peer: EndpointId) -> (e: Self)
        ensures
            e.event_type == event_type_of(change.operation),
            e.change == change,
            e.source_peer == Some(peer),
            e.sequence == sequence,
            exists|t: SystemTime| e.timestamp_secs == common::epoch_secs(t),
    {
        let event_type = operation_event_type(change.operation);
        ChangeEvent {
            event_type,
            change,
            source_peer: Some(peer),
            sequence,
            timestamp_secs: current_timestamp_secs(),
        }
    }
}

/// Subscription filter for change events.
#[derive(Debug)]
pub struct SubscriptionFilter {
    /// Match specific namespaces
    pub namespaces: Option<Vec<String>>,
    /// Match specific databases
    pub databases: Option<Vec<String>>,
}

/// What a filter lets through: the names listed, or all.
#[verifier::ext_equal]
pub struct FilterModel {
    pub namespaces: Option<Seq<Seq<char>>>,
    pub databases: Option<Seq<Seq<char>>>,
}

/// The texts of a list.
pub open spec fn texts(list: Seq<String>) -> Seq<Seq<char>> {
    Seq::new(list.len(), |i: int| list[i]@)
}

/// The texts of an optional list.
pub open spec fn opt_texts(list: Option<Vec<String>>) -> Option<Seq<Seq<char>>> {
    match list {
        Some(v) => Some(texts(v@)),
        None => None,
    }
}

impl View for SubscriptionFilter {
    type V = FilterModel;

    open spec fn view(&self) -> FilterModel {
        FilterModel {
            namespaces: opt_texts(self.namespaces),
            databases: opt_texts(self.databases),
        }
    }
}

/// Whether a list of names lets a name through.
pub open spec fn lets_through(names: Option<Seq<Seq<char>>>, name: Seq<char>) -> bool {
    names matches Some(list) ==> list.contains(name)
}

/// Whether a filter matches a change.
pub open spec fn filter_matches(filter: FilterModel, change: ChangeModel) -> bool {
    lets_through(filter.namespaces, change.namespace) && lets_through(
        filter.databases,
        change.database,
    )
}

/// A list of names with one more.
pub open spec fn with_name(names: Option<Seq<Seq<char>>>, name: Seq<char>) -> Option<Seq<Seq<char>>> {
    match names {
        Some(list) => Some(list.push(name)),
        None => Some(seq![name]),
    }
}

/// Add a name to a list of names.
fn add_name(names: Option<Vec<String>>, name: &str) -> (r: Option<Vec<String>>)
    ensures
        opt_texts(r) == with_name(opt_texts(names), name@),
{
    let mut list: Vec<String> = match names {
        Some(v) => v,
        None => Vec::new(),
    };
    let ghost before = texts(list@);
    list.push(name.to_owned());
    proof {
        assert(texts(list@) =~= before.push(name@));
        if names is None {
            assert(before.push(name@) =~= seq![name@]);
        }
    }
    Some(list)
}

/// Whether a list of names has a name.
fn has_name(names: &Vec<String>, name: &String) -> (r: bool)
    ensures
        r == texts(names@).contains(name@),
{
    let mut i: usize = 0;
    while i < names.len()
        invariant
            i <= names.len(),
            forall|j: int| 0 <= j < i ==> #[trigger] texts(names@)[j] != name@,
        decreases names.len() - i,
    {
        if names[i] == *name {
            assert(texts(names@)[i as int] == name@);
            return true;
        }
        i = i + 1;
    }
    false
}

fn clone_names(names: &Option<Vec<String>>) -> (r: Option<Vec<String>>)
    ensures
        opt_texts(r) == opt_texts(*names),
{
    match names {
        Some(v) => {
            let mut list: Vec<String> = Vec::new();
            let mut i: usize = 0;
            while i < v.len()
                invariant
                    i <= v.len(),
                    list.len() == i,
                    forall|k: int| 0 <= k < i ==> (#[trigger] list@[k])@ == v@[k]@,
                decreases v.len() - i,
            {
                list.push(v[i].clone());
                i = i + 1;
            }
            assert(texts(list@) =~= texts(v@));
            Some(list)
        },
        None => None,
    }
}

impl Clone for SubscriptionFilter {
    fn clone(&self) -> (f: Self)
        ensures
            f@ == self@,
    {
        SubscriptionFilter {
            namespaces: clone_names(&self.namespaces),
            databases: clone_names(&self.databases),
        }
    }
}

impl Default for SubscriptionFilter {
    fn default() -> (f: Self)
        ensures
            f@ == (FilterModel { namespaces: None, databases: None }),
    {
        SubscriptionFilter { namespaces: None, databases: None }
    }
}

impl SubscriptionFilter {
    /// Create a new filter that matches everything.
    pub fn new() -> (f: Self)
        ensures
            f@ == (FilterModel { namespaces: None, databases: None }),
            forall|c: ChangeModel| filter_matches(f@, c),
    {
        SubscriptionFilter::default()
    }

    /// Create a new filter that matches everything.
    pub fn everything() -> (f: Self)
        ensures
            f@ == (FilterModel { namespaces: None, databases: None }),
            forall|c: ChangeModel| filter_matches(f@, c),
    {
        SubscriptionFilter::default()
    }

    /// Filter by namespace.
    pub fn with_namespace(self, ns: &str) -> (f: Self)
        ensures
            f@ == (FilterModel { namespaces: with_name(self@.namespaces, ns@), ..self@ }),
    {
        SubscriptionFilter {
            namespaces: add_name(self.namespaces, ns),
            databases: self.databases,
        }
    }

    /// Filter by database.
    pub fn with_database(self, db: &str) -> (f: Self)
        ensures
            f@ == (FilterModel { databases: with_name(self@.databases, db@), ..self@ }),
    {
        SubscriptionFilter {
            namespaces: self.namespaces,
            databases: add_name(self.databases, db),
        }
    }

    /// Check if an event matches this filter.
    pub fn matches(&self, event: &ChangeEvent) -> (r: bool)
        ensures
            r == filter_matches(self@, event.change@),
    {
        match &self.namespaces {
            Some(namespaces) => {
                if !has_name(namespaces, &event.change.namespace) {
                    return false;
                }
            },
            None => {},
        }
        match &self.databases {
            Some(databases) => {
                if !has_name(databases, &event.change.database) {
                    return false;
                }
            },
            None => {},
        }
        true
    }
}

/// Event bus for distributing change notifications.
#[derive(Debug)]
pub struct ChangeNotifier {
    /// Subscribers
    subscribers: Vec<(u64, SubscriptionFilter)>,
    /// The next subscription ID
    next_id: u64,
    /// Event sequence counter
    sequence: u64,
    /// How many events are kept for a subscriber
    buffer_size: usize,
}

/// What a notifier holds.
#[verifier::ext_equal]
pub struct NotifierModel {
    /// The subscribers and their filters, in the order in which they subscribed
    pub subscribers: Seq<(u64, FilterModel)>,
    pub next_id: u64,
    pub sequence: u64,
    pub buffer_size: usize,
}

/// The identifiers and filters of subscribers.
pub open spec fn subscribers_view(s: Seq<(u64, SubscriptionFilter)>) -> Seq<(u64, FilterModel)> {
    Seq::new(s.len(), |i: int| (s[i].0, s[i].1@))
}

impl View for ChangeNotifier {
    type V = NotifierModel;

    closed spec fn view(&self) -> NotifierModel {
        NotifierModel {
            subscribers: subscribers_view(self.subscribers@),
            next_id: self.next_id,
            sequence: self.sequence,
            buffer_size: self.buffer_size,
        }
    }
}

impl NotifierModel {
    /// A notifier without subscribers.
    pub open spec fn empty(buffer_size: usize) -> NotifierModel {
        NotifierModel { subscribers: Seq::empty(), next_id: 1, sequence: 0, buffer_size }
    }

    /// Whether identifiers are given out in order, and the next one is not yet taken.
    pub open spec fn wf(self) -> bool {
        &&& forall|i: int| 0 <= i < self.subscribers.len() ==> (#[trigger] self.subscribers[i]).0 < self.next_id
        &&& forall|i: int, j: int|
            0 <= i < j < self.subscribers.len() ==> (#[trigger] self.subscribers[i]).0 < (
            #[trigger] self.subscribers[j]).0
    }

    /// The notifier after a subscription.
    pub open spec fn subscribed(self, filter: FilterModel) -> NotifierModel {
        NotifierModel {
            subscribers: self.subscribers.push((self.next_id, filter)),
            next_id: (self.next_id + 1) as u64,
            ..self
        }
    }

    /// The notifier after a subscription was taken back.
    pub open spec fn unsubscribed(self, id: u64) -> NotifierModel {
        NotifierModel { subscribers: without(self.subscribers, id), ..self }
    }

    /// The subscribers who get an event for a change: those whose filter matches.
    pub open spec fn recipients(self, change: ChangeModel) -> Seq<u64> {
        matching(self.subscribers, change)
    }
}

/// The identifiers of the subscribers whose filter matches a change, in order.
pub open spec fn matching(s: Seq<(u64, FilterModel)>, change: ChangeModel) -> Seq<u64>
    decreases s.len(),
{
    if s.len() == 0 {
        Seq::empty()
    } else {
        let before = matching(s.drop_last(), change);
        if filter_matches(s.last().1, change) {
            before.push(s.last().0)
        } else {
            before
        }
    }
}

/// Subscribers without the one with an identifier.
pub open spec fn without(s: Seq<(u64, FilterModel)>, id: u64) -> Seq<(u64, FilterModel)>
    decreases s.len(),
{
    if s.len() == 0 {
        Seq::empty()
    } else {
        let before = without(s.drop_last(), id);
        if s.last().0 == id {
            before
        } else {
            before.push(s.last())
        }
    }
}

impl ChangeNotifier {
    /// Create a new change notifier.
    pub fn new(buffer_size: usize) -> (n: Self)
        ensures
            n@ == NotifierModel::empty(buffer_size),
            n@.wf(),
    {
        let n = ChangeNotifier { subscribers: Vec::new(), next_id: 1, sequence: 0, buffer_size };
        assert(n@ =~= NotifierModel::empty(buffer_size));
        n
    }

    /// Subscribe to changes with a filter.
    ///
    /// Returns the subscription's identifier, which no other subscription has had.
    pub fn subscribe(&mut self, filter: SubscriptionFilter) -> (id: u64)
        requires
            old(self)@.next_id < u64::MAX,
        ensures
            id == old(self)@.next_id,
            final(self)@ == old(self)@.subscribed(filter@),
            old(self)@.wf() ==> final(self)@.wf(),
    {
        let id = self.next_id;
        self.next_id = id + 1;
        self.subscribers.push((id, filter));
        assert(self@ =~= old(self)@.subscribed(filter@));
        id
    }

    /// Unsubscribe from changes.
    pub fn unsubscribe(&mut self, id: u64)
        ensures
            final(self)@ == old(self)@.unsubscribed(id),
            old(self)@.wf() ==> final(self)@.wf(),
    {
        let mut rest: Vec<(u64, SubscriptionFilter)> = Vec::new();
        let ghost all = self@.subscribers;
        let mut i: usize = 0;
        assert(all.take(0) =~= Seq::<(u64, FilterModel)>::empty());
        assert(subscribers_view(rest@) =~= Seq::<(u64, FilterModel)>::empty());
        while i < self.subscribers.len()
            invariant
                i <= self.subscribers.len(),
                *self == *old(self),
                all == self@.subscribers,
                subscribers_view(rest@) == without(all.take(i as int), id),
            decreases self.subscribers.len() - i,
        {
            assert(all.take(i + 1).drop_last() =~= all.take(i as int));
            if self.subscribers[i].0 != id {
                let ghost before = subscribers_view(rest@);
                rest.push((self.subscribers[i].0, self.subscribers[i].1.clone()));
                assert(subscribers_view(rest@) =~= before.push(all[i as int]));
            }
            i = i + 1;
        }
        assert(all.take(i as int) =~= all);
        self.subscribers = rest;
        proof {
            assert(self@ =~= old(self)@.unsubscribed(id));
            if old(self)@.wf() {
                lemma_without(all, id, old(self)@.next_id);
            }
        }
    }

    /// The subscribers who get an event: those whose filter matches it.
    pub fn recipients(&self, event: &ChangeEvent) -> (r: Vec<u64>)
        ensures
            r@ == self@.recipients(event.change@),
    {
        let mut r: Vec<u64> = Vec::new();
        let ghost all = self@.subscribers;
        let ghost change = event.change@;
        let mut i: usize = 0;
        assert(all.take(0) =~= Seq::<(u64, FilterModel)>::empty());
        while i < self.subscribers.len()
            invariant
                i <= self.subscribers.len(),
                all == self@.subscribers,
                change == event.change@,
                r@ == matching(all.take(i as int), change),
            decreases self.subscribers.len() - i,
        {
            assert(all.take(i + 1).drop_last() =~= all.take(i as int));
            assert(all.take(i + 1).last() == all[i as int]);
            if self.subscribers[i].1.matches(event) {
                r.push(self.subscribers[i].0);
            }
            i = i + 1;
        }
        assert(all.take(i as int) =~= all);
        r
    }

    /// Publish a change from a sync operation.
    ///
    /// Returns the event and the subscribers who get it.
    pub fn notify_sync(&self, change: Change, peer: EndpointId) -> (r: (ChangeEvent, Vec<u64>))
        ensures
            r.0.event_type == event_type_of(change.operation),
            r.0.change == change,
            r.0.source_peer == Some(peer),
            r.0.sequence == 0,
            exists|t: SystemTime| r.0.timestamp_secs == common::epoch_secs(t),
            r.1@ == self@.recipients(change@),
    {
        let event = ChangeEvent::from_sync(change, 0, peer);
        let to = self.recipients(&event);
        (event, to)
    }

    /// Publish a local change, under the next sequence number.
    ///
    /// Returns the event and the subscribers who get it.
    pub fn notify_local(&mut self, change: Change) -> (r: (ChangeEvent, Vec<u64>))
        requires
            old(self)@.sequence < u64::MAX,
        ensures
            r.0.event_type == event_type_of(change.operation),
            r.0.change == change,
            r.0.source_peer is None,
            r.0.sequence == old(self)@.sequence + 1,
            exists|t: SystemTime| r.0.timestamp_secs == common::epoch_secs(t),
            r.1@ == old(self)@.recipients(change@),
            final(self)@ == (NotifierModel {
                sequence: (old(self)@.sequence + 1) as u64,
                ..old(self)@
            }),
    {
        let sequence = self.inc_sequence();
        let event_type = operation_event_type(change.operation);
        let event = ChangeEvent::new(event_type, change, sequence);
        let to = self.recipients(&event);
        (event, to)
    }

    /// Get the number of subscribers.
    pub fn subscriber_count(&self) -> (n: usize)
        ensures
            n == self@.subscribers.len(),
    {
        self.subscribers.len()
    }

    /// Get the current sequence number.
    pub fn sequence(&self) -> (n: u64)
        ensures
            n == self@.sequence,
    {
        self.sequence
    }

    /// How many events are kept for a subscriber.
    pub fn buffer_size(&self) -> (n: usize)
        ensures
            n == self@.buffer_size,
    {
        self.buffer_size
    }

    /// Get the identifier of the next subscription.
    pub fn next_id(&self) -> (n: u64)
        ensures
            n == self@.next_id,
    {
        self.next_id
    }

    /// Increment and return the sequence number.
    pub fn inc_sequence(&mut self) -> (n: u64)
        requires
            old(self)@.sequence < u64::MAX,
        ensures
            n == old(self)@.sequence + 1,
            final(self)@ == (NotifierModel { sequence: n, ..old(self)@ }),
    {
        self.sequence = self.sequence + 1;
        self.sequence
    }
}

impl Default for ChangeNotifier {
    fn default() -> (n: Self)
        ensures
            n@ == NotifierModel::empty(100),
            n@.wf(),
    {
        ChangeNotifier::new(100)
    }
}

/// A change observer that can be integrated with the sync system.
#[derive(Debug)]
pub struct ChangeObserver {
    notifier: ChangeNotifier,
}

impl View for ChangeObserver {
    type V = NotifierModel;

    closed spec fn view(&self) -> NotifierModel {
        self.notifier@
    }
}

impl ChangeObserver {
    /// Create a new change observer.
    pub fn new() -> (o: Self)
        ensures
            o@ == NotifierModel::empty(100),
            o@.wf(),
    {
        ChangeObserver { notifier: ChangeNotifier::new(100) }
    }

    /// Subscribe to changes.
    pub fn subscribe(&mut self, filter: SubscriptionFilter) -> (id: u64)
        requires
            old(self)@.next_id < u64::MAX,
        ensures
            id == old(self)@.next_id,
            final(self)@ == old(self)@.subscribed(filter@),
            old(self)@.wf() ==> final(self)@.wf(),
    {
        self.notifier.subscribe(filter)
    }

    /// Unsubscribe.
    pub fn unsubscribe(&mut self, id: u64)
        ensures
            final(self)@ == old(self)@.unsubscribed(id),
            old(self)@.wf() ==> final(self)@.wf(),
    {
        self.notifier.unsubscribe(id);
    }

    /// Notify of a local change.
    ///
    /// Returns the event, with the next sequence number, and the subscribers who get it.
    pub fn notify_local(&mut self, change: Change) -> (r: (ChangeEvent, Vec<u64>))
        requires
            old(self)@.sequence < u64::MAX,
        ensures
            r.0.event_type == event_type_of(change.operation),
            r.0.change == change,
            r.0.source_peer is None,
            r.0.sequence == old(self)@.sequence + 1,
            exists|t: SystemTime| r.0.timestamp_secs == common::epoch_secs(t),
            r.1@ == old(self)@.recipients(change@),
            final(self)@ == (NotifierModel {
                sequence: (old(self)@.sequence + 1) as u64,
                ..old(self)@
            }),
    {
        self.notifier.notify_local(change)
    }

    /// Notify of a synced change.
    ///
    /// Returns the event and the subscribers who get it.
    pub fn notify_sync(&self, change: Change, peer: EndpointId) -> (r: (ChangeEvent, Vec<u64>))
        ensures
            r.0.event_type == event_type_of(change.operation),
            r.0.change == change,
            r.0.source_peer == Some(peer),
            r.0.sequence == 0,
            exists|t: SystemTime| r.0.timestamp_secs == common::epoch_secs(t),
            r.1@ == self@.recipients(change@),
    {
        self.notifier.notify_sync(change, peer)
    }

    /// Get subscriber count.
    pub fn subscriber_count(&self) -> (n: usize)
        ensures
            n == self@.subscribers.len(),
    {
        self.notifier.subscriber_count()
    }
}

impl Default for ChangeObserver {
    fn default() -> (o: Self)
        ensures
            o@ == NotifierModel::empty(100),
            o@.wf(),
    {
        ChangeObserver::new()
    }
}

/// What is left after a subscriber is gone is in order, was there before, and has not the
/// subscriber.
proof fn lemma_without(s: Seq<(u64, FilterModel)>, id: u64, bound: u64)
    requires
        forall|i: int| 0 <= i < s.len() ==> (#[trigger] s[i]).0 < bound,
        forall|i: int, j: int|
            0 <= i < j < s.len() ==> (#[trigger] s[i]).0 < (#[trigger] s[j]).0,
    ensures
        ({
            let t = without(s, id);
            &&& forall|i: int| 0 <= i < t.len() ==> (#[trigger] t[i]).0 < bound && t[i].0 != id
            &&& forall|i: int, j: int|
                0 <= i < j < t.len() ==> (#[trigger] t[i]).0 < (#[trigger] t[j]).0
        }),
    decreases s.len(),
{
    if s.len() > 0 {
        let init = s.drop_last();
        let last = s.last();
        assert(s[s.len() - 1] == last);
        assert forall|i: int| 0 <= i < init.len() implies (#[trigger] init[i]).0 < last.0 by {
            assert(s[i].0 < s[s.len() - 1].0);
        }
        assert forall|i: int, j: int| 0 <= i < j < init.len() implies (#[trigger] init[i]).0 < (
        #[trigger] init[j]).0 by {
            assert(s[i].0 < s[j].0);
        }
        lemma_without(init, id, last.0);
        let before = without(init, id);
        let t = without(s, id);
        assert forall|i: int| 0 <= i < t.len() implies (#[trigger] t[i]).0 < bound && t[i].0 != id by {
            if i < before.len() {
                assert(t[i] == before[i]);
            }
        }
        assert forall|i: int, j: int| 0 <= i < j < t.len() implies (#[trigger] t[i]).0 < (
        #[trigger] t[j]).0 by {
            assert(t[i] == before[i]);
            if j < before.len() {
                assert(t[j] == before[j]);
            }
        }
    }
}

/// The recipients of a change are the subscribers whose filter matches it, and no others.
proof fn lemma_matching(s: Seq<(u64, FilterModel)>, change: ChangeModel, id: u64)
    ensures
        matching(s, change).contains(id) <==> exists|i: int|
            0 <= i < s.len() && (#[trigger] s[i]).0 == id && filter_matches(s[i].1, change),
    decreases s.len(),
{
    if s.len() > 0 {
        let init = s.drop_last();
        lemma_matching(init, change, id);
        let before = matching(init, change);
        let all = matching(s, change);
        if all.contains(id) {
            let k = choose|k: int| 0 <= k < all.len() && all[k] == id;
            if k < before.len() {
                assert(before[k] == id);
                let i = choose|i: int|
                    0 <= i < init.len() && (#[trigger] init[i]).0 == id && filter_matches(
                        init[i].1,
                        change,
                    );
                assert(s[i] == init[i]);
            } else {
                assert(s[s.len() - 1].0 == id);
            }
        }
        if exists|i: int|
            0 <= i < s.len() && (#[trigger] s[i]).0 == id && filter_matches(s[i].1, change) {
            let i = choose|i: int|
                0 <= i < s.len() && (#[trigger] s[i]).0 == id && filter_matches(s[i].1, change);
            if i < init.len() {
                assert(init[i] == s[i]);
                assert(before.contains(id));
                let k = choose|k: int| 0 <= k < before.len() && before[k] == id;
                assert(all[k] == id);
            } else {
                assert(all[all.len() - 1] == id);
            }
        }
    }
}

/// A new subscriber gets exactly the changes that its filter matches, and the others get
/// what they got before.
pub proof fn new_subscriber_gets_what_its_filter_matches(
    m: NotifierModel,
    filter: FilterModel,
    change: ChangeModel,
)
    requires
        m.wf(),
    ensures
        m.subscribed(filter).recipients(change).contains(m.next_id) <==> filter_matches(
            filter,
            change,
        ),
        forall|id: u64|
            id != m.next_id ==> (#[trigger] m.subscribed(filter).recipients(change).contains(id)
                <==> m.recipients(change).contains(id)),
{
    let after = m.subscribed(filter);
    assert(after.subscribers.drop_last() =~= m.subscribers);
    lemma_matching(m.subscribers, change, m.next_id);
    lemma_matching(after.subscribers, change, m.next_id);
    assert(after.subscribers[m.subscribers.len() as int] == (m.next_id, filter));
    assert forall|id: u64| id != m.next_id implies (#[trigger] after.recipients(change).contains(id)
        <==> m.recipients(change).contains(id)) by {
        lemma_matching(m.subscribers, change, id);
        lemma_matching(after.subscribers, change, id);
        assert forall|i: int| 0 <= i < m.subscribers.len() implies #[trigger] m.subscribers[i]
            == after.subscribers[i] by {}
    }
}

/// A subscriber that is gone gets nothing more.
pub proof fn unsubscribed_gets_nothing(m: NotifierModel, id: u64, change: ChangeModel)
    requires
        m.wf(),
    ensures
        !m.unsubscribed(id).recipients(change).contains(id),
{
    lemma_without(m.subscribers, id, m.next_id);
    lemma_matching(m.unsubscribed(id).subscribers, change, id);
}

/// A filter matches an event if and only if it lists no namespaces or lists that of the
/// change, and it lists no databases or lists that of the change.
pub proof fn filter_goes_by_both_lists(f: SubscriptionFilter, event: ChangeEvent, r: bool)
    requires
        call_ensures(SubscriptionFilter::matches, (&f, &event), r),
    ensures
        r <==> {
            &&& f.namespaces is None || exists|i: int|
                0 <= i < f.namespaces->0@.len() && (#[trigger] f.namespaces->0@[i])@
                    == event.change.namespace@
            &&& f.databases is None || exists|i: int|
                0 <= i < f.databases->0@.len() && (#[trigger] f.databases->0@[i])@
                    == event.change.database@
        },
{
    if f.namespaces is Some {
        lemma_texts_contain(f.namespaces->0@, event.change.namespace@);
    }
    if f.databases is Some {
        lemma_texts_contain(f.databases->0@, event.change.database@);
    }
}

/// A text is among the texts of a list if and only if an entry of the list has it.
proof fn lemma_texts_contain(list: Seq<String>, text: Seq<char>)
    ensures
        texts(list).contains(text) <==> exists|i: int|
            0 <= i < list.len() && (#[trigger] list[i])@ == text,
{
    if texts(list).contains(text) {
        let i = choose|i: int| 0 <= i < texts(list).len() && texts(list)[i] == text;
        assert(list[i]@ == text);
    }
    if exists|i: int| 0 <= i < list.len() && (#[trigger] list[i])@ == text {
        let i = choose|i: int| 0 <= i < list.len() && (#[trigger] list[i])@ == text;
        assert(texts(list)[i] == text);
    }
}

/// A filter lets a change through if and only if both its lists do; a list lets the names
/// through that it has, and no list lets every name through.
pub proof fn both_lists_have_to_let_a_change_through(filter: FilterModel, change: ChangeModel)
    ensures
        filter_matches(filter, change) ==> (filter.namespaces is None
            || filter.namespaces->0.contains(change.namespace)),
        filter_matches(filter, change) ==> (filter.databases is None
            || filter.databases->0.contains(change.database)),
        (filter.namespaces is None || filter.namespaces->0.contains(change.namespace)) && (
        filter.databases is None || filter.databases->0.contains(change.database))
            ==> filter_matches(filter, change),
{
}

/// Who gets an event: a subscriber does if and only if it lists no namespaces or lists
/// that of the change, and lists no databases or lists that of the change. Each gets it
/// once, and the earlier subscriber comes first.
pub proof fn event_goes_to_those_who_want_it(
    n: ChangeNotifier,
    event: ChangeEvent,
    to: Vec<u64>,
    i: int,
)
    requires
        call_ensures(ChangeNotifier::recipients, (&n, &event), to),
        n@.wf(),
        0 <= i < n@.subscribers.len(),
    ensures
        to@.contains(n@.subscribers[i].0) <==> {
            let filter = n@.subscribers[i].1;
            &&& filter.namespaces is None || filter.namespaces->0.contains(
                event.change.namespace@,
            )
            &&& filter.databases is None || filter.databases->0.contains(event.change.database@)
        },
        forall|a: int, b: int| 0 <= a < b < to@.len() ==> (#[trigger] to@[a]) < (#[trigger] to@[b]),
        forall|a: int|
            0 <= a < to@.len() ==> exists|k: int|
                0 <= k < n@.subscribers.len() && (#[trigger] n@.subscribers[k]).0 == #[trigger] to@[a],
{
    let s = n@.subscribers;
    let id = s[i].0;
    lemma_matching(s, event.change@, id);
    lemma_matching_order(s, event.change@, n@.next_id);
    if to@.contains(id) {
        let k = choose|k: int|
            0 <= k < s.len() && (#[trigger] s[k]).0 == id && filter_matches(s[k].1, event.change@);
        assert(k == i) by {
            if k < i {
                assert(s[k].0 < s[i].0);
            } else if i < k {
                assert(s[i].0 < s[k].0);
            }
        }
    }
    assert forall|a: int| 0 <= a < to@.len() implies exists|k: int|
        0 <= k < s.len() && (#[trigger] s[k]).0 == #[trigger] to@[a] by {
        assert(to@.contains(to@[a]));
        lemma_matching(s, event.change@, to@[a]);
    }
}

/// The recipients of a change are in the order of the subscribers.
proof fn lemma_matching_order(s: Seq<(u64, FilterModel)>, change: ChangeModel, bound: u64)
    requires
        forall|i: int| 0 <= i < s.len() ==> (#[trigger] s[i]).0 < bound,
        forall|i: int, j: int|
            0 <= i < j < s.len() ==> (#[trigger] s[i]).0 < (#[trigger] s[j]).0,
    ensures
        forall|i: int| 0 <= i < matching(s, change).len() ==> (#[trigger] matching(s, change)[i]) < bound,
        forall|i: int, j: int|
            0 <= i < j < matching(s, change).len() ==> (#[trigger] matching(s, change)[i]) < (
            #[trigger] matching(s, change)[j]),
    decreases s.len(),
{
    if s.len() > 0 {
        let init = s.drop_last();
        let last = s.last();
        assert(s[s.len() - 1] == last);
        assert forall|i: int| 0 <= i < init.len() implies (#[trigger] init[i]).0 < last.0 by {
            assert(s[i].0 < s[s.len() - 1].0);
        }
        assert forall|i: int, j: int| 0 <= i < j < init.len() implies (#[trigger] init[i]).0 < (
        #[trigger] init[j]).0 by {
            assert(s[i].0 < s[j].0);
        }
        lemma_matching_order(init, change, last.0);
        let before = matching(init, change);
        let all = matching(s, change);
        assert forall|i: int| 0 <= i < all.len() implies (#[trigger] all[i]) < bound by {
            if i < before.len() {
                assert(all[i] == before[i]);
            }
        }
        assert forall|i: int, j: int| 0 <= i < j < all.len() implies (#[trigger] all[i]) < (
        #[trigger] all[j]) by {
            assert(all[i] == before[i]);
            if j < before.len() {
                assert(all[j] == before[j]);
            }
        }
    }
}

/// A filter that is given a namespace lets that namespace through and those that were
/// given before, and no other; its databases stay. So it is for a database.
pub proof fn filter_lets_through_what_it_was_given(
    f: SubscriptionFilter,
    name: &str,
    by_namespace: SubscriptionFilter,
    by_database: SubscriptionFilter,
    other: Seq<char>,
)
    requires
        call_ensures(SubscriptionFilter::with_namespace, (f, name), by_namespace),
        call_ensures(SubscriptionFilter::with_database, (f, name), by_database),
    ensures
        by_namespace@.namespaces is Some,
        by_namespace@.namespaces->0.contains(other) <==> other == name@ || (f@.namespaces is Some
            && f@.namespaces->0.contains(other)),
        by_namespace@.databases == f@.databases,
        by_database@.databases is Some,
        by_database@.databases->0.contains(other) <==> other == name@ || (f@.databases is Some
            && f@.databases->0.contains(other)),
        by_database@.namespaces == f@.namespaces,
{
    lemma_with_name(f@.namespaces, name@, other);
    lemma_with_name(f@.databases, name@, other);
}

proof fn lemma_with_name(names: Option<Seq<Seq<char>>>, name: Seq<char>, other: Seq<char>)
    ensures
        with_name(names, name)->0.contains(other) <==> other == name || (names is Some
            && names->0.contains(other)),
{
    let after = with_name(names, name)->0;
    let before = if names is Some { names->0 } else { Seq::empty() };
    assert(after =~= before.push(name));
    assert(after[before.len() as int] == name);
    if before.contains(other) {
        let k = choose|k: int| 0 <= k < before.len() && before[k] == other;
        assert(after[k] == other);
    }
    if after.contains(other) {
        let k = choose|k: int| 0 <= k < after.len() && after[k] == other;
        if k < before.len() {
            assert(before[k] == other);
        }
    }
}

/// A filter that was given nothing lets every change through.
pub proof fn empty_filter_lets_everything_through(f: SubscriptionFilter, event: ChangeEvent, r: bool)
    requires
        call_ensures(SubscriptionFilter::new, (), f) || call_ensures(
            SubscriptionFilter::everything,
            (),
            f,
        ),
        call_ensures(SubscriptionFilter::matches, (&f, &event), r),
    ensures
        r,
{
}

/// A subscription gets an identifier that nobody else has, and its filter is kept with it;
/// the other subscriptions stay.
pub proof fn subscription_is_kept(n: &mut ChangeNotifier, filter: SubscriptionFilter, id: u64)
    requires
        call_ensures(ChangeNotifier::subscribe, (n, filter), id),
        old(n)@.wf(),
        old(n)@.next_id < u64::MAX,
    ensures
        final(n)@.subscribers.len() == old(n)@.subscribers.len() + 1,
        final(n)@.subscribers.last() == (id, filter@),
        forall|i: int|
            0 <= i < old(n)@.subscribers.len() ==> (#[trigger] final(n)@.subscribers[i]) == old(n)@.subscribers[i] && old(n)@.subscribers[i].0 != id,
        final(n)@.sequence == old(n)@.sequence,
        final(n)@.buffer_size == old(n)@.buffer_size,
        final(n)@.next_id > id,
{
}

/// Taking a subscription back removes it and no other.
pub proof fn unsubscribing_leaves_the_others(
    n: &mut ChangeNotifier,
    id: u64,
    other: (u64, FilterModel),
)
    requires
        call_ensures(ChangeNotifier::unsubscribe, (n, id), ()),
    ensures
        final(n)@.subscribers.contains(other) <==> old(n)@.subscribers.contains(other) && other.0
            != id,
        final(n)@.next_id == old(n)@.next_id,
        final(n)@.sequence == old(n)@.sequence,
        final(n)@.buffer_size == old(n)@.buffer_size,
{
    lemma_without_contains(old(n)@.subscribers, id, other);
}

proof fn lemma_without_contains(s: Seq<(u64, FilterModel)>, id: u64, other: (u64, FilterModel))
    ensures
        without(s, id).contains(other) <==> s.contains(other) && other.0 != id,
    decreases s.len(),
{
    if s.len() > 0 {
        let init = s.drop_last();
        let last = s.last();
        let before = without(init, id);
        let all = without(s, id);
        lemma_without_contains(init, id, other);
        assert(s[s.len() - 1] == last);
        if s.contains(other) {
            let k = choose|k: int| 0 <= k < s.len() && s[k] == other;
            if k < init.len() {
                assert(init[k] == other);
            }
        }
        if init.contains(other) {
            let k = choose|k: int| 0 <= k < init.len() && init[k] == other;
            assert(s[k] == other);
        }
        if before.contains(other) {
            let k = choose|k: int| 0 <= k < before.len() && before[k] == other;
            assert(all[k] == other);
        }
        if all.contains(other) {
            let k = choose|k: int| 0 <= k < all.len() && all[k] == other;
            if k < before.len() {
                assert(before[k] == other);
            }
        }
        if last.0 != id {
            assert(all[before.len() as int] == last);
        }
    }
}

/// A local change becomes an event under the next number, which deletes where the change
/// does and sets a value otherwise; a synced one names its peer.
pub proof fn change_becomes_an_event(
    n: &mut ChangeNotifier,
    change: Change,
    local: (ChangeEvent, Vec<u64>),
    m: ChangeNotifier,
    peer: EndpointId,
    synced: (ChangeEvent, Vec<u64>),
)
    requires
        call_ensures(ChangeNotifier::notify_local, (n, change), local),
        call_ensures(ChangeNotifier::notify_sync, (&m, change, peer), synced),
        old(n)@.sequence < u64::MAX,
    ensures
        local.0.change == change,
        local.0.source_peer is None,
        local.0.sequence == old(n)@.sequence + 1,
        final(n)@.sequence == old(n)@.sequence + 1,
        final(n)@.subscribers == old(n)@.subscribers,
        synced.0.change == change,
        synced.0.source_peer == Some(peer),
        synced.0.sequence == 0,
        change.operation is Delete <==> local.0.event_type is Delete,
        !(change.operation is Delete) <==> local.0.event_type is SetValue,
        synced.0.event_type == local.0.event_type,
        local.1@ == matching(old(n)@.subscribers, change@),
        synced.1@ == matching(m@.subscribers, change@),
{
}

/// An observer does as its notifier does: it keeps subscriptions, takes them back, numbers
/// local changes, and says who gets an event.
pub proof fn observer_notifies_its_subscribers(
    subscribed: &mut ChangeObserver,
    filter: SubscriptionFilter,
    id: u64,
    left: &mut ChangeObserver,
    gone: u64,
    other: (u64, FilterModel),
    o: &mut ChangeObserver,
    change: Change,
    local: (ChangeEvent, Vec<u64>),
    to: u64,
)
    requires
        call_ensures(ChangeObserver::subscribe, (subscribed, filter), id),
        old(subscribed)@.next_id < u64::MAX,
        call_ensures(ChangeObserver::unsubscribe, (left, gone), ()),
        call_ensures(ChangeObserver::notify_local, (o, change), local),
        old(o)@.sequence < u64::MAX,
    ensures
        final(subscribed)@.subscribers == old(subscribed)@.subscribers.push((id, filter@)),
        final(left)@.subscribers.contains(other) <==> old(left)@.subscribers.contains(other)
            && other.0 != gone,
        local.0.sequence == old(o)@.sequence + 1,
        final(o)@.sequence == old(o)@.sequence + 1,
        local.0.change == change,
        local.0.source_peer is None,
        change.operation is Delete <==> local.0.event_type is Delete,
        local.1@.contains(to) <==> exists|i: int|
            0 <= i < old(o)@.subscribers.len() && (#[trigger] old(o)@.subscribers[i]).0 == to && {
                let f = old(o)@.subscribers[i].1;
                &&& f.namespaces is None || f.namespaces->0.contains(change.namespace@)
                &&& f.databases is None || f.databases->0.contains(change.database@)
            },
{
    lemma_without_contains(old(left)@.subscribers, gone, other);
    lemma_matching(old(o)@.subscribers, change@, to);
}

/// A new event holds what it is made of; one from a sync names its peer.
pub proof fn event_holds_what_it_is_made_of(
    kind: ChangeEventType,
    change: Change,
    sequence: u64,
    e: ChangeEvent,
    peer: EndpointId,
    synced: ChangeEvent,
)
    requires
        call_ensures(ChangeEvent::new, (kind, change, sequence), e),
        call_ensures(ChangeEvent::from_sync, (change, sequence, peer), synced),
    ensures
        e.event_type == kind && e.change == change && e.sequence == sequence
            && e.source_peer is None,
        synced.change == change && synced.sequence == sequence && synced.source_peer == Some(peer),
        change.operation is Delete <==> synced.event_type is Delete,
        !(change.operation is Delete) <==> synced.event_type is SetValue,
{
}

}
