//! Change batching for efficient sync transmission.
//!
//! This module provides batching functionality to accumulate changes
//! before sending them over the wire, reducing overhead and improving
//! throughput. Batches that are ready are handed to the caller, who sends them.

use crate::change;
use crate::change::{Change, ChangeModel};
use crate::ext::time;
use crate::sync::{SyncManager, SyncModel};
use std::time::{Duration, Instant};
use vstd::prelude::*;

verus! {

/// Configuration for change batching.
#[derive(Debug, Clone, Copy)]
pub struct BatchConfig {
    /// Maximum number of changes per batch
    pub max_batch_size: usize,
    /// Maximum time to wait before flushing a batch
    pub max_batch_age: Duration,
    /// Enable batching
    pub enabled: bool,
}

/// Whether a configuration has the default values: a hundred changes, a tenth of a
/// second, enabled.
pub open spec fn is_default_batch_config(c: BatchConfig) -> bool {
    &&& c.max_batch_size == 100
    &&& time::duration_nanos(c.max_batch_age) == 100_000_000
    &&& c.enabled
}

impl Default for BatchConfig {
    fn default() -> (c: Self)
        ensures
            is_default_batch_config(c),
    {
        BatchConfig {
            max_batch_size: 100,
            max_batch_age: Duration::from_millis(100),
            enabled: true,
        }
    }
}

impl BatchConfig {
    /// Create a new config with default values.
    pub fn new() -> (c: Self)
        ensures
            is_default_batch_config(c),
    {
        BatchConfig::default()
    }

    /// Set the maximum batch size.
    pub fn with_max_batch_size(self, size: usize) -> (c: Self)
        ensures
            c == (BatchConfig { max_batch_size: size, ..self }),
    {
        BatchConfig { max_batch_size: size, ..self }
    }

    /// Set the maximum batch age.
    pub fn with_max_batch_age(self, age: Duration) -> (c: Self)
        ensures
            c == (BatchConfig { max_batch_age: age, ..self }),
    {
        BatchConfig { max_batch_age: age, ..self }
    }

    /// Enable or disable batching.
    pub fn with_enabled(self, enabled: bool) -> (c: Self)
        ensures
            c == (BatchConfig { enabled, ..self }),
    {
        BatchConfig { enabled, ..self }
    }
}

/// A batch of changes ready for transmission.
#[derive(Debug)]
pub struct ChangeBatch {
    /// The changes in this batch
    pub changes: Vec<Change>,
    /// When the batch was created
    pub created_at: Instant,
    /// Batch sequence number
    pub sequence: u64,
}

/// What a batch holds. The time is in nanoseconds of the clock.
#[verifier::ext_equal]
pub struct ReadyBatch {
    pub changes: Seq<ChangeModel>,
    pub created_at: int,
    pub sequence: u64,
}

impl View for ChangeBatch {
    type V = ReadyBatch;

    open spec fn view(&self) -> ReadyBatch {
        ReadyBatch {
            changes: change::changes_view(self.changes@),
            created_at: time::instant_nanos(self.created_at),
            sequence: self.sequence,
        }
    }
}

impl Clone for ChangeBatch {
    fn clone(&self) -> (b: Self)
        ensures
            b@ == self@,
    {
        ChangeBatch {
            changes: crate::change::clone_changes(&self.changes),
            created_at: self.created_at,
            sequence: self.sequence,
        }
    }
}

impl ChangeBatch {
    /// Create a new batch, as of a reading of the clock.
    pub fn new_at(changes: Vec<Change>, sequence: u64, now: Instant) -> (b: Self)
        ensures
            b == (ChangeBatch { changes, created_at: now, sequence }),
    {
        ChangeBatch { changes, created_at: now, sequence }
    }

    /// Create a new batch.
    pub fn new(changes: Vec<Change>, sequence: u64) -> (b: Self)
        ensures
            b.changes == changes,
            b.sequence == sequence,
    {
        ChangeBatch::new_at(changes, sequence, Instant::now())
    }

    /// Get the number of changes in this batch.
    pub fn len(&self) -> (n: usize)
        ensures
            n == self.changes@.len(),
    {
        self.changes.len()
    }

    /// Check if the batch is empty.
    pub fn is_empty(&self) -> (r: bool)
        ensures
            r == (self.changes@.len() == 0),
    {
        self.changes.is_empty()
    }
}

/// Manages batching of changes before sync.
#[derive(Debug)]
pub struct ChangeBatcher {
    /// Configuration
    config: BatchConfig,
    /// Pending changes not yet batched
    pending: Vec<Change>,
    /// When the current batch was started
    batch_start: Option<Instant>,
    /// Current batch sequence number
    sequence: u64,
    /// Whether the background flush task runs
    task_running: bool,
    /// Flag indicating if the background task crashed
    task_has_crashed: bool,
}

/// What a batcher holds.
#[verifier::ext_equal]
pub struct BatcherModel {
    pub config: BatchConfig,
    pub pending: Seq<ChangeModel>,
    pub batch_start: Option<int>,
    pub sequence: u64,
    pub task_running: bool,
    pub task_has_crashed: bool,
}

/// Where an optional reading lies on the clock.
pub open spec fn opt_nanos(i: Option<Instant>) -> Option<int> {
    match i {
        Some(t) => Some(time::instant_nanos(t)),
        None => None,
    }
}

impl View for ChangeBatcher {
    type V = BatcherModel;

    closed spec fn view(&self) -> BatcherModel {
        BatcherModel {
            config: self.config,
            pending: change::changes_view(self.pending@),
            batch_start: opt_nanos(self.batch_start),
            sequence: self.sequence,
            task_running: self.task_running,
            task_has_crashed: self.task_has_crashed,
        }
    }
}

impl BatcherModel {
    /// The batcher before a change is added: that the task crashed is forgotten, unless
    /// a task runs.
    pub open spec fn checked(self) -> BatcherModel {
        BatcherModel {
            task_has_crashed: self.task_has_crashed && self.task_running,
            ..self
        }
    }

    /// The batch of the pending changes at a time; none, if nothing is pending.
    pub open spec fn batch(self, now: int) -> Option<ReadyBatch> {
        if self.pending.len() > 0 {
            Some(
                ReadyBatch {
                    changes: self.pending,
                    created_at: now,
                    sequence: (self.sequence + 1) as u64,
                },
            )
        } else {
            None
        }
    }

    /// The batcher after the pending changes went into a batch.
    pub open spec fn flushed(self) -> BatcherModel {
        if self.pending.len() > 0 {
            BatcherModel {
                pending: Seq::empty(),
                batch_start: None,
                sequence: (self.sequence + 1) as u64,
                ..self
            }
        } else {
            self
        }
    }

    /// The batcher with one more change pending, at a time.
    pub open spec fn pushed(self, change: ChangeModel, now: int) -> BatcherModel {
        BatcherModel {
            pending: self.pending.push(change),
            batch_start: if self.batch_start is Some { self.batch_start } else { Some(now) },
            ..self
        }
    }

    /// What adding a change at a time does: the batcher after it, and the batch that is
    /// ready, if one is. Without batching each change is a batch of its own.
    pub open spec fn added(self, change: ChangeModel, now: int) -> (BatcherModel, Option<ReadyBatch>) {
        let m = self.checked();
        if !m.config.enabled {
            (
                BatcherModel { sequence: (m.sequence + 1) as u64, ..m },
                Some(
                    ReadyBatch {
                        changes: seq![change],
                        created_at: now,
                        sequence: (m.sequence + 1) as u64,
                    },
                ),
            )
        } else {
            let p = m.pushed(change, now);
            if p.pending.len() >= p.config.max_batch_size {
                (p.flushed(), p.batch(now))
            } else {
                (p, None)
            }
        }
    }

    /// Whether the pending changes are due at a time: the first of them has waited for
    /// as long as a batch may.
    pub open spec fn is_due(self, now: int) -> bool {
        &&& self.batch_start is Some
        &&& time::elapsed_nanos(self.batch_start->0, now) >= time::duration_nanos(self.config.max_batch_age)
        &&& self.pending.len() > 0
    }

    /// What adding changes one after another does, each at a time.
    pub open spec fn added_all(
        self,
        changes: Seq<ChangeModel>,
        times: Seq<int>,
    ) -> (BatcherModel, Seq<ReadyBatch>)
        decreases changes.len(),
    {
        if changes.len() == 0 {
            (self, Seq::empty())
        } else {
            let (m, ready) = self.added_all(changes.drop_last(), times.drop_last());
            let (after, batch) = m.added(changes.last(), times.last());
            (
                after,
                match batch {
                    Some(b) => ready.push(b),
                    None => ready,
                },
            )
        }
    }
}

/// The changes of batches, one after another.
pub open spec fn batched_changes(batches: Seq<ReadyBatch>) -> Seq<ChangeModel>
    decreases batches.len(),
{
    if batches.len() == 0 {
        Seq::empty()
    } else {
        batched_changes(batches.drop_last()) + batches.last().changes
    }
}

/// No change is lost, doubled or moved: the changes of the batches that became ready and
/// those still pending are the changes that were pending and those added, in order. And
/// the batches are numbered one after another.
pub proof fn every_change_is_batched_once(
    m: BatcherModel,
    changes: Seq<ChangeModel>,
    times: Seq<int>,
)
    requires
        times.len() == changes.len(),
        m.sequence + changes.len() <= u64::MAX,
        !m.config.enabled ==> m.pending.len() == 0,
    ensures
        ({
            let (after, ready) = m.added_all(changes, times);
            &&& batched_changes(ready) + after.pending == m.pending + changes
            &&& after.config == m.config
            &&& !m.config.enabled ==> after.pending.len() == 0
            &&& after.sequence == m.sequence + ready.len()
            &&& ready.len() <= changes.len()
            &&& forall|i: int|
                0 <= i < ready.len() ==> (#[trigger] ready[i]).sequence == m.sequence + i + 1
        }),
    decreases changes.len(),
{
    if changes.len() == 0 {
        assert(batched_changes(Seq::empty()) + m.pending =~= m.pending + changes);
    } else {
        every_change_is_batched_once(m, changes.drop_last(), times.drop_last());
        let (mid, ready) = m.added_all(changes.drop_last(), times.drop_last());
        let (after, batch) = mid.added(changes.last(), times.last());
        let (end, all) = m.added_all(changes, times);
        let before = m.pending + changes.drop_last();
        assert(before.push(changes.last()) =~= m.pending + changes);
        match batch {
            Some(b) => {
                assert(all.drop_last() =~= ready);
                assert(batched_changes(all) + end.pending =~= m.pending + changes);
            },
            None => {
                assert(batched_changes(all) + end.pending =~= m.pending + changes);
            },
        }
    }
}

/// With batching, fewer changes are pending after one was added than fit a batch.
pub proof fn pending_stays_below_the_batch_size(m: BatcherModel, change: ChangeModel, now: int)
    requires
        m.config.enabled,
        m.config.max_batch_size > 0,
    ensures
        m.added(change, now).0.pending.len() < m.config.max_batch_size,
{
}

impl ChangeBatcher {
    /// Create a new change batcher.
    pub fn new(config: BatchConfig) -> (b: Self)
        ensures
            b@ == (BatcherModel {
                config,
                pending: Seq::empty(),
                batch_start: None,
                sequence: 0,
                task_running: false,
                task_has_crashed: false,
            }),
    {
        let b = ChangeBatcher {
            config,
            pending: Vec::new(),
            batch_start: None,
            sequence: 0,
            task_running: false,
            task_has_crashed: false,
        };
        assert(b@.pending =~= Seq::<ChangeModel>::empty());
        b
    }

    /// Start the background flush task.
    ///
    /// Returns whether the task is to be spawned; it is not, if one runs already.
    pub fn start_task(&mut self) -> (spawn: bool)
        ensures
            spawn == !old(self)@.task_running,
            final(self)@ == (BatcherModel { task_running: true, ..old(self)@ }),
    {
        if self.task_running {
            return false;
        }
        self.task_running = true;
        true
    }

    /// Take in that the background flush task has ended, normally or not.
    pub fn task_ended(&mut self, crashed: bool)
        ensures
            final(self)@ == (BatcherModel {
                task_running: false,
                task_has_crashed: old(self)@.task_has_crashed || crashed,
                ..old(self)@
            }),
    {
        self.task_running = false;
        if crashed {
            self.task_has_crashed = true;
        }
    }

    /// Check if the background flush task has crashed.
    ///
    /// Returns true if the task has exited abnormally.
    pub fn has_task_crashed(&self) -> (r: bool)
        ensures
            r == self@.task_has_crashed,
    {
        self.task_has_crashed
    }

    /// Check if a background flush task is currently running.
    pub fn is_task_running(&self) -> (r: bool)
        ensures
            r == self@.task_running,
    {
        self.task_running
    }

    /// Flush pending changes into a batch, at a reading of the clock.
    pub fn flush_at(&mut self, now: Instant) -> (batch: Option<ChangeBatch>)
        requires
            old(self)@.sequence < u64::MAX,
        ensures
            match batch {
                Some(b) => old(self)@.batch(time::instant_nanos(now)) == Some(b@),
                None => old(self)@.batch(time::instant_nanos(now)) is None,
            },
            final(self)@ == old(self)@.flushed(),
    {
        if self.pending.is_empty() {
            return None;
        }
        self.batch_start = None;
        let mut changes: Vec<Change> = Vec::new();
        std::mem::swap(&mut changes, &mut self.pending);
        self.sequence = self.sequence + 1;
        assert(self@.pending =~= Seq::<ChangeModel>::empty());
        Some(ChangeBatch::new_at(changes, self.sequence, now))
    }

    /// Try to restart the background task if it crashed.
    fn try_restart_task(&mut self)
        ensures
            final(self)@ == old(self)@.checked(),
    {
        if self.task_has_crashed && !self.task_running {
            self.task_has_crashed = false;
        }
    }

    /// Check if we should flush the pending changes.
    fn check_flush(&mut self, now: Instant) -> (batch: Option<ChangeBatch>)
        requires
            old(self)@.sequence < u64::MAX,
        ensures
            if old(self)@.pending.len() >= old(self)@.config.max_batch_size {
                &&& final(self)@ == old(self)@.flushed()
                &&& match batch {
                    Some(b) => old(self)@.batch(time::instant_nanos(now)) == Some(b@),
                    None => old(self)@.batch(time::instant_nanos(now)) is None,
                }
            } else {
                final(self)@ == old(self)@ && batch is None
            },
    {
        if self.pending.len() >= self.config.max_batch_size {
            self.flush_at(now)
        } else {
            None
        }
    }

    /// Add a change to the pending buffer, at a reading of the clock.
    ///
    /// Returns the batch that is ready, if one is.
    pub fn add_at(&mut self, change: Change, now: Instant) -> (batch: Option<ChangeBatch>)
        requires
            old(self)@.sequence < u64::MAX,
        ensures
            final(self)@ == old(self)@.added(change@, time::instant_nanos(now)).0,
            match batch {
                Some(b) => old(self)@.added(change@, time::instant_nanos(now)).1 == Some(b@),
                None => old(self)@.added(change@, time::instant_nanos(now)).1 is None,
            },
    {
        self.try_restart_task();
        if !self.config.enabled {
            self.sequence = self.sequence + 1;
            let mut changes: Vec<Change> = Vec::new();
            changes.push(change);
            assert(change::changes_view(changes@) =~= seq![change@]);
            return Some(ChangeBatch::new_at(changes, self.sequence, now));
        }
        if self.batch_start.is_none() {
            self.batch_start = Some(now);
        }
        let ghost m = old(self)@.checked();
        self.pending.push(change);
        assert(self@ =~= m.pushed(change@, time::instant_nanos(now)));
        self.check_flush(now)
    }

    /// Whether adding a change counts as having flushed a batch: one was made, and, with
    /// batching, it could be handed on.
    pub fn counts_as_flushed(&self, made: bool, handed_on: bool) -> (r: bool)
        ensures
            r == (made && (handed_on || !self@.config.enabled)),
    {
        made && (handed_on || !self.config.enabled)
    }

    /// Flush the pending changes at a reading of the clock, if they are due.
    pub fn tick_at(&mut self, now: Instant) -> (batch: Option<ChangeBatch>)
        requires
            old(self)@.sequence < u64::MAX,
        ensures
            if old(self)@.is_due(time::instant_nanos(now)) {
                &&& final(self)@ == old(self)@.flushed()
                &&& match batch {
                    Some(b) => old(self)@.batch(time::instant_nanos(now)) == Some(b@),
                    None => false,
                }
            } else {
                final(self)@ == old(self)@ && batch is None
            },
    {
        let due: bool = match self.batch_start {
            Some(start) => now.duration_since(start).as_nanos()
                >= self.config.max_batch_age.as_nanos() && self.pending.len() > 0,
            None => false,
        };
        if due {
            self.flush_at(now)
        } else {
            None
        }
    }

    /// Force flush any pending changes.
    pub fn force_flush(&mut self) -> (batch: Option<ChangeBatch>)
        requires
            old(self)@.sequence < u64::MAX,
        ensures
            final(self)@ == old(self)@.flushed(),
            match batch {
                Some(b) => b@.changes == old(self)@.pending && b.sequence == old(self)@.sequence + 1
                    && old(self)@.pending.len() > 0,
                None => old(self)@.pending.len() == 0,
            },
    {
        self.flush_at(Instant::now())
    }

    /// Get the number of pending changes.
    pub fn pending_count(&self) -> (n: usize)
        ensures
            n == self@.pending.len(),
    {
        self.pending.len()
    }

    /// Get the number of ready batches. Batches are handed on when they become ready, so
    /// none is kept.
    pub fn ready_batch_count(&self) -> (n: usize)
        ensures
            n == 0,
    {
        0
    }

    /// Get the sequence number of the last batch.
    pub fn sequence(&self) -> (n: u64)
        ensures
            n == self@.sequence,
    {
        self.sequence
    }

    /// Get batch configuration.
    pub fn config(&self) -> (c: &BatchConfig)
        ensures
            *c == self@.config,
    {
        &self.config
    }
}

/// A change collector that wraps a sync manager and adds batching.
#[derive(Debug)]
pub struct BatchingSyncManager {
    /// Inner sync manager
    sync_manager: SyncManager,
    /// Change batcher
    batcher: ChangeBatcher,
}

impl View for BatchingSyncManager {
    type V = (SyncModel, BatcherModel);

    closed spec fn view(&self) -> (SyncModel, BatcherModel) {
        (self.sync_manager@, self.batcher@)
    }
}

impl BatchingSyncManager {
    /// Create a new batching sync manager. Its background flush task is to be spawned.
    pub fn new(sync_manager: SyncManager, config: BatchConfig) -> (b: Self)
        ensures
            b@.0 == sync_manager@,
            b@.1 == (BatcherModel {
                config,
                pending: Seq::empty(),
                batch_start: None,
                sequence: 0,
                task_running: true,
                task_has_crashed: false,
            }),
    {
        let mut batcher = ChangeBatcher::new(config);
        let _ = batcher.start_task();
        BatchingSyncManager { sync_manager, batcher }
    }

    /// Record a change with batching, at a reading of the clock.
    ///
    /// Returns the batch that is ready, if one is.
    pub fn record_change_at(&mut self, change: Change, now: Instant) -> (batch: Option<ChangeBatch>)
        requires
            old(self)@.1.sequence < u64::MAX,
        ensures
            final(self)@.0 == old(self)@.0.recorded(change@),
            final(self)@.1 == old(self)@.1.added(change@, time::instant_nanos(now)).0,
            match batch {
                Some(b) => old(self)@.1.added(change@, time::instant_nanos(now)).1 == Some(b@),
                None => old(self)@.1.added(change@, time::instant_nanos(now)).1 is None,
            },
    {
        let _ = self.sync_manager.record_change(change.clone());
        self.batcher.add_at(change, now)
    }

    /// Record a change with batching.
    pub fn record_change(&mut self, change: Change) -> (batch: Option<ChangeBatch>)
        requires
            old(self)@.1.sequence < u64::MAX,
        ensures
            final(self)@.0 == old(self)@.0.recorded(change@),
            exists|now: Instant|
                final(self)@.1 == old(self)@.1.added(change@, #[trigger] time::instant_nanos(now)).0
                    && match batch {
                    Some(b) => old(self)@.1.added(change@, time::instant_nanos(now)).1 == Some(b@),
                    None => old(self)@.1.added(change@, time::instant_nanos(now)).1 is None,
                },
    {
        self.record_change_at(change, Instant::now())
    }

    /// Flush pending batches.
    pub fn flush(&mut self) -> (batch: Option<ChangeBatch>)
        requires
            old(self)@.1.sequence < u64::MAX,
        ensures
            final(self)@.0 == old(self)@.0,
            final(self)@.1 == old(self)@.1.flushed(),
            match batch {
                Some(b) => b@.changes == old(self)@.1.pending && b.sequence == old(self)@.1.sequence
                    + 1 && old(self)@.1.pending.len() > 0,
                None => old(self)@.1.pending.len() == 0,
            },
    {
        self.batcher.force_flush()
    }

    /// Flush the pending changes at a reading of the clock, if they are due.
    pub fn tick_at(&mut self, now: Instant) -> (batch: Option<ChangeBatch>)
        requires
            old(self)@.1.sequence < u64::MAX,
        ensures
            final(self)@.0 == old(self)@.0,
            if old(self)@.1.is_due(time::instant_nanos(now)) {
                &&& final(self)@.1 == old(self)@.1.flushed()
                &&& match batch {
                    Some(b) => old(self)@.1.batch(time::instant_nanos(now)) == Some(b@),
                    None => false,
                }
            } else {
                final(self)@.1 == old(self)@.1 && batch is None
            },
    {
        self.batcher.tick_at(now)
    }

    /// Get the underlying sync manager.
    pub fn sync_manager(&self) -> (m: &SyncManager)
        ensures
            m@ == self@.0,
    {
        &self.sync_manager
    }

    /// Get pending change count.
    pub fn pending_count(&self) -> (n: usize)
        ensures
            n == self@.1.pending.len(),
    {
        self.batcher.pending_count()
    }
}

/// The deadline of pending changes is fixed by the first of them. Where a batcher with
/// nothing pending takes in changes and no batch becomes ready, the changes are due as
/// soon as the first has waited for the longest time that a batch may, and not before;
/// when the later ones came makes no difference.
pub proof fn first_change_fixes_the_deadline(
    m: BatcherModel,
    changes: Seq<ChangeModel>,
    times: Seq<int>,
    now: int,
)
    requires
        m.config.enabled,
        m.pending.len() == 0,
        m.batch_start is None,
        changes.len() > 0,
        times.len() == changes.len(),
        m.added_all(changes, times).1.len() == 0,
        now >= times[0],
    ensures
        m.added_all(changes, times).0.is_due(now) <==> now - times[0] >= time::duration_nanos(
            m.config.max_batch_age,
        ),
        m.added_all(changes, times).0.pending == changes,
{
    lemma_start_stays(m, changes, times);
}

/// While no batch becomes ready, the start of the batch is the time of its first change.
proof fn lemma_start_stays(m: BatcherModel, changes: Seq<ChangeModel>, times: Seq<int>)
    requires
        m.config.enabled,
        m.pending.len() == 0,
        m.batch_start is None,
        changes.len() > 0,
        times.len() == changes.len(),
        m.added_all(changes, times).1.len() == 0,
    ensures
        m.added_all(changes, times).0.batch_start == Some(times[0]),
        m.added_all(changes, times).0.pending == changes,
        m.added_all(changes, times).0.config == m.config,
    decreases changes.len(),
{
    let init = changes.drop_last();
    let earlier = times.drop_last();
    let (mid, ready) = m.added_all(init, earlier);
    if init.len() > 0 {
        lemma_start_stays(m, init, earlier);
        assert(init.push(changes.last()) =~= changes);
    } else {
        assert(mid == m);
        assert(m.pending.push(changes.last()) =~= changes);
    }
}

/// What adding a change does to a batcher. With batching the change joins those that
/// wait, behind them; the wait began with the first of them. The change that makes a
/// batch full sends all of them off. Without batching the change is sent off alone.
pub proof fn added_change_waits_or_completes_the_batch(
    b: &mut ChangeBatcher,
    change: Change,
    now: Instant,
    r: Option<ChangeBatch>,
)
    requires
        call_ensures(ChangeBatcher::add_at, (b, change, now), r),
        old(b)@.sequence < u64::MAX,
    ensures
        final(b)@.config == old(b)@.config,
        final(b)@.task_running == old(b)@.task_running,
        final(b)@.task_has_crashed ==> old(b)@.task_has_crashed && old(b)@.task_running,
        old(b)@.task_has_crashed && old(b)@.task_running ==> final(b)@.task_has_crashed,
        !old(b)@.config.enabled ==> {
            &&& r is Some
            &&& r->0@.changes == seq![change@]
            &&& final(b)@.pending == old(b)@.pending
            &&& final(b)@.batch_start == old(b)@.batch_start
        },
        old(b)@.config.enabled && old(b)@.pending.len() + 1 < old(b)@.config.max_batch_size ==> {
            &&& r is None
            &&& final(b)@.pending == old(b)@.pending.push(change@)
            &&& old(b)@.batch_start is Some ==> final(b)@.batch_start == old(b)@.batch_start
            &&& old(b)@.batch_start is None ==> final(b)@.batch_start == Some(
                time::instant_nanos(now),
            )
            &&& final(b)@.sequence == old(b)@.sequence
        },
        old(b)@.config.enabled && old(b)@.pending.len() + 1 >= old(b)@.config.max_batch_size ==> {
            &&& r is Some
            &&& r->0@.changes == old(b)@.pending.push(change@)
            &&& final(b)@.pending.len() == 0
            &&& final(b)@.batch_start is None
        },
        r is Some ==> {
            &&& r->0@.created_at == time::instant_nanos(now)
            &&& r->0.sequence == old(b)@.sequence + 1
            &&& final(b)@.sequence == old(b)@.sequence + 1
        },
{
}

/// A check of the age sends off the waiting changes, all of them and in order, if the
/// first has waited for the longest time that a batch may; otherwise nothing happens.
pub proof fn changes_that_waited_long_enough_are_sent_off(
    b: &mut ChangeBatcher,
    now: Instant,
    r: Option<ChangeBatch>,
)
    requires
        call_ensures(ChangeBatcher::tick_at, (b, now), r),
        old(b)@.sequence < u64::MAX,
        old(b)@.batch_start is Some ==> old(b)@.batch_start->0 <= time::instant_nanos(now),
    ensures
        r is Some <==> old(b)@.pending.len() > 0 && old(b)@.batch_start is Some
            && time::instant_nanos(now) - old(b)@.batch_start->0 >= time::duration_nanos(
            old(b)@.config.max_batch_age,
        ),
        r is Some ==> {
            &&& r->0@.changes == old(b)@.pending
            &&& r->0@.created_at == time::instant_nanos(now)
            &&& r->0.sequence == old(b)@.sequence + 1
            &&& final(b)@.pending.len() == 0
            &&& final(b)@.batch_start is None
            &&& final(b)@.sequence == old(b)@.sequence + 1
            &&& final(b)@.config == old(b)@.config
            &&& final(b)@.task_running == old(b)@.task_running
            &&& final(b)@.task_has_crashed == old(b)@.task_has_crashed
        },
        r is None ==> final(b)@ == old(b)@,
{
}

/// A flush sends off the waiting changes, all of them and in order, however long they
/// have waited; the next change begins a new wait. With nothing waiting it does nothing.
pub proof fn flush_sends_everything_off(
    b: &mut ChangeBatcher,
    now: Instant,
    r: Option<ChangeBatch>,
)
    requires
        call_ensures(ChangeBatcher::flush_at, (b, now), r),
        old(b)@.sequence < u64::MAX,
    ensures
        r is Some <==> old(b)@.pending.len() > 0,
        r is Some ==> {
            &&& r->0@.changes == old(b)@.pending
            &&& r->0@.created_at == time::instant_nanos(now)
            &&& r->0.sequence == old(b)@.sequence + 1
            &&& final(b)@.pending.len() == 0
            &&& final(b)@.batch_start is None
            &&& final(b)@.sequence == old(b)@.sequence + 1
            &&& final(b)@.config == old(b)@.config
        },
        r is None ==> final(b)@ == old(b)@,
{
}

/// What goes through a batching manager is recorded in the log as well as batched, in one
/// step.
pub proof fn batched_change_is_recorded_too(
    b: &mut BatchingSyncManager,
    change: Change,
    now: Instant,
    r: Option<ChangeBatch>,
)
    requires
        call_ensures(BatchingSyncManager::record_change_at, (b, change, now), r),
        old(b)@.1.sequence < u64::MAX,
        old(b)@.0.offset < u64::MAX,
        old(b)@.0.max_changes > 0,
    ensures
        final(b)@.0.offset == old(b)@.0.offset + 1,
        final(b)@.0.changes.len() > 0,
        final(b)@.0.changes.last() == change@,
        r is Some ==> r->0@.changes.len() > 0 && r->0@.changes.last() == change@,
        r is None ==> final(b)@.1.pending.len() > 0 && final(b)@.1.pending.last() == change@,
{
}

/// The batching that is set up where nothing else is asked for: a hundred changes, a tenth
/// of a second, and batching on.
pub proof fn default_batching(c: BatchConfig)
    requires
        call_ensures(BatchConfig::new, (), c) || call_ensures(BatchConfig::default, (), c),
    ensures
        c.max_batch_size == 100,
        time::duration_nanos(c.max_batch_age) == 100_000_000,
        c.enabled,
{
}

/// One background task runs at a time: it is to be spawned only where none runs. That it
/// crashed is remembered when it ends.
pub proof fn one_task_runs_at_a_time(
    started: &mut ChangeBatcher,
    spawn: bool,
    ended: &mut ChangeBatcher,
    crashed: bool,
    config: BatchConfig,
    fresh: ChangeBatcher,
)
    requires
        call_ensures(ChangeBatcher::start_task, (started,), spawn),
        call_ensures(ChangeBatcher::task_ended, (ended, crashed), ()),
        call_ensures(ChangeBatcher::new, (config,), fresh),
    ensures
        spawn <==> !old(started)@.task_running,
        final(started)@.task_running,
        final(started)@.pending == old(started)@.pending,
        !final(ended)@.task_running,
        final(ended)@.task_has_crashed <==> crashed || old(ended)@.task_has_crashed,
        final(ended)@.pending == old(ended)@.pending,
        fresh@.pending.len() == 0,
        fresh@.batch_start is None,
        fresh@.sequence == 0,
        fresh@.config == config,
        !fresh@.task_running && !fresh@.task_has_crashed,
{
}

/// Flushing a batching manager, and checking the age of what waits in it, sends changes off
/// as a batcher does; the log is not touched.
pub proof fn batching_manager_sends_off_what_waits(
    flushed: &mut BatchingSyncManager,
    all: Option<ChangeBatch>,
    ticked: &mut BatchingSyncManager,
    now: Instant,
    due: Option<ChangeBatch>,
)
    requires
        call_ensures(BatchingSyncManager::flush, (flushed,), all),
        old(flushed)@.1.sequence < u64::MAX,
        call_ensures(BatchingSyncManager::tick_at, (ticked, now), due),
        old(ticked)@.1.sequence < u64::MAX,
        old(ticked)@.1.batch_start is Some ==> old(ticked)@.1.batch_start->0
            <= time::instant_nanos(now),
    ensures
        final(flushed)@.0 == old(flushed)@.0,
        all is Some <==> old(flushed)@.1.pending.len() > 0,
        all is Some ==> all->0@.changes == old(flushed)@.1.pending,
        final(flushed)@.1.pending.len() == 0,
        final(ticked)@.0 == old(ticked)@.0,
        due is Some <==> old(ticked)@.1.pending.len() > 0 && old(ticked)@.1.batch_start is Some
            && time::instant_nanos(now) - old(ticked)@.1.batch_start->0 >= time::duration_nanos(
            old(ticked)@.1.config.max_batch_age,
        ),
        due is Some ==> due->0@.changes == old(ticked)@.1.pending && final(ticked)@.1.pending.len()
            == 0,
        due is None ==> final(ticked)@.1 == old(ticked)@.1,
{
}

/// Each setting sets what it names and leaves the others.
pub proof fn batch_settings_are_independent(
    c: BatchConfig,
    size: usize,
    age: Duration,
    on: bool,
    sized: BatchConfig,
    aged: BatchConfig,
    switched: BatchConfig,
)
    requires
        call_ensures(BatchConfig::with_max_batch_size, (c, size), sized),
        call_ensures(BatchConfig::with_max_batch_age, (c, age), aged),
        call_ensures(BatchConfig::with_enabled, (c, on), switched),
    ensures
        sized.max_batch_size == size && sized.max_batch_age == c.max_batch_age && sized.enabled
            == c.enabled,
        aged.max_batch_age == age && aged.max_batch_size == c.max_batch_size && aged.enabled
            == c.enabled,
        switched.enabled == on && switched.max_batch_size == c.max_batch_size
            && switched.max_batch_age == c.max_batch_age,
{
}

/// A forced flush sends off all that waits, as of now.
pub proof fn forced_flush_sends_everything_off(b: &mut ChangeBatcher, r: Option<ChangeBatch>)
    requires
        call_ensures(ChangeBatcher::force_flush, (b,), r),
        old(b)@.sequence < u64::MAX,
    ensures
        r is Some <==> old(b)@.pending.len() > 0,
        r is Some ==> r->0@.changes == old(b)@.pending && r->0.sequence == old(b)@.sequence + 1,
        final(b)@.pending.len() == 0,
        r is Some ==> final(b)@.batch_start is None,
{
}

/// Adding a change counts as having flushed where a batch was made and could be handed on;
/// without batching it is enough that it was made.
pub proof fn made_batch_counts_as_flushed(
    b: ChangeBatcher,
    made: bool,
    handed_on: bool,
    r: bool,
)
    requires
        call_ensures(ChangeBatcher::counts_as_flushed, (&b, made, handed_on), r),
    ensures
        !made ==> !r,
        made && handed_on ==> r,
        made && !handed_on ==> (r <==> !b@.config.enabled),
{
}

}
