//! The scheduler turns tasks, each a list of shards with a priority, into
//! pairs of stream and shard. It serves the four priority classes from the
//! most urgent down, and moves tasks up a class when they have waited too
//! long.

use std::collections::VecDeque;
use vstd::prelude::*;
use crate::bytes::same_bytes;
use crate::clock::{elapsed, elapsed_between, Clock, NANOS_PER_SEC};
use crate::stream::pool::{idle_ids, stats_of, PoolState, PoolStats, StreamPool};
use crate::whisper::{copy_frame, frame_views, FecFrame, FecFrameView, Priority};

verus! {

/// Default time after which a waiting task moves up a class, in nanoseconds.
pub const DEFAULT_MAX_WAIT: u64 = 10 * NANOS_PER_SEC;

/// Least time between two boosts of whole queues, in nanoseconds.
pub const BOOST_INTERVAL: u64 = 5 * NANOS_PER_SEC;

/// Shards that wait for streams.
#[derive(Debug)]
pub struct FECTask {
    pub frames: Vec<FecFrame>,
    pub session_id: [u8; 16],
    pub priority: Priority,
    /// Clock reading at which the task joined its queue.
    pub enqueue_time: u64,
}

/// A task as a value.
pub struct TaskView {
    pub frames: Seq<FecFrameView>,
    pub session_id: Seq<u8>,
    pub priority: Priority,
    pub enqueue_time: u64,
}

impl View for FECTask {
    type V = TaskView;

    open spec fn view(&self) -> TaskView {
        TaskView {
            frames: frame_views(self.frames@),
            session_id: self.session_id@,
            priority: self.priority,
            enqueue_time: self.enqueue_time,
        }
    }
}

/// What the scheduler remembers of a session's last dispatch.
#[derive(Debug)]
pub struct ActiveSession {
    pub session_id: [u8; 16],
    pub sent_frames: usize,
    pub total_frames: usize,
    pub assigned_streams: Vec<u64>,
    pub start_time: u64,
}

/// The record of a session as a value.
pub struct ActiveSessionView {
    pub session_id: Seq<u8>,
    pub sent_frames: usize,
    pub total_frames: usize,
    pub assigned_streams: Seq<u64>,
    pub start_time: u64,
}

impl View for ActiveSession {
    type V = ActiveSessionView;

    open spec fn view(&self) -> ActiveSessionView {
        ActiveSessionView {
            session_id: self.session_id@,
            sent_frames: self.sent_frames,
            total_frames: self.total_frames,
            assigned_streams: self.assigned_streams@,
            start_time: self.start_time,
        }
    }
}

/// How many tasks wait in each class.
#[derive(Debug, Clone, Copy, PartialEq, Eq, Structural)]
pub struct PendingCounts {
    pub low: usize,
    pub normal: usize,
    pub high: usize,
    pub urgent: usize,
}

/// Counts over a scheduler.
#[derive(Debug, Clone, Copy)]
pub struct SchedulerStats {
    pub pool_stats: PoolStats,
    pub pending_counts: PendingCounts,
    pub active_sessions: usize,
}

/// Whether a class may preempt low-priority streams.
pub open spec fn high_class(priority: Priority) -> bool {
    priority == Priority::High || priority == Priority::Urgent
}

/// Whether a class may preempt low-priority streams.
pub fn is_high_priority(priority: Priority) -> (b: bool)
    ensures
        b == high_class(priority),
{
    match priority {
        Priority::High => true,
        Priority::Urgent => true,
        _ => false,
    }
}

/// Tasks as values.
pub open spec fn task_views(tasks: Seq<FECTask>) -> Seq<TaskView> {
    Seq::new(tasks.len(), |i: int| tasks[i]@)
}

/// Session records as values.
pub open spec fn active_views(sessions: Seq<ActiveSession>) -> Seq<ActiveSessionView> {
    Seq::new(sessions.len(), |i: int| sessions[i]@)
}

/// Pairs of stream and shard as values.
pub open spec fn dispatch_views(pairs: Seq<(u64, FecFrame)>) -> Seq<(u64, FecFrameView)> {
    Seq::new(pairs.len(), |i: int| (pairs[i].0, pairs[i].1@))
}

/// Acquiring up to `count` streams one after the other, up to the first
/// refusal.
pub open spec fn acquire_many(pool: PoolState, count: nat, is_high: bool, now: u64) -> (PoolState, Seq<u64>)
    decreases count,
{
    if count == 0 {
        (pool, Seq::<u64>::empty())
    } else {
        match pool.acquire(is_high, now).1 {
            Some(id) => {
                let rest = acquire_many(pool.acquire(is_high, now).0, (count - 1) as nat, is_high, now);
                (rest.0, seq![id] + rest.1)
            },
            None => (pool, Seq::<u64>::empty()),
        }
    }
}

/// Releasing each of `ids` in turn.
pub open spec fn release_all(pool: PoolState, ids: Seq<u64>, now: u64) -> PoolState
    decreases ids.len(),
{
    if ids.len() == 0 {
        pool
    } else {
        release_all(pool.release(ids[0], now), ids.drop_first(), now)
    }
}

/// The index of the first record from `from` on under `id`.
pub open spec fn first_active(sessions: Seq<ActiveSessionView>, id: Seq<u8>, from: int) -> Option<int>
    decreases sessions.len() - from,
{
    if from < 0 || from >= sessions.len() {
        None
    } else if sessions[from].session_id == id {
        Some(from)
    } else {
        first_active(sessions, id, from + 1)
    }
}

/// The records with `entry` in the place of the record under its
/// identifier, or at the end where there was none.
pub open spec fn recorded(sessions: Seq<ActiveSessionView>, entry: ActiveSessionView) -> Seq<ActiveSessionView> {
    match first_active(sessions, entry.session_id, 0) {
        Some(at) => sessions.update(at, entry),
        None => sessions.push(entry),
    }
}

/// Every task of `tasks` put into class `priority`.
pub open spec fn reclassed(tasks: Seq<TaskView>, priority: Priority) -> Seq<TaskView> {
    Seq::new(tasks.len(), |i: int| TaskView { priority, ..tasks[i] })
}

/// Whether the head of a queue has waited longer than `max_wait`.
pub open spec fn head_starves(queue: Seq<TaskView>, max_wait: u64, now: u64) -> bool {
    queue.len() > 0 && elapsed(now, queue[0].enqueue_time) > max_wait
}

/// Whether every task of `tasks` is of class `class`.
pub open spec fn all_of_class(tasks: Seq<TaskView>, class: Priority) -> bool {
    forall|i: int| 0 <= i < tasks.len() ==> (#[trigger] tasks[i]).priority == class
}

/// A scheduler as a value.
#[verifier::ext_equal]
pub struct SchedulerState {
    pub pool: PoolState,
    pub low: Seq<TaskView>,
    pub normal: Seq<TaskView>,
    pub high: Seq<TaskView>,
    pub urgent: Seq<TaskView>,
    pub active_sessions: Seq<ActiveSessionView>,
    pub max_wait_time: u64,
    pub last_priority_boost: u64,
}

/// Whether each task waits in the queue of its own class.
pub open spec fn classes_agree(state: SchedulerState) -> bool {
    &&& all_of_class(state.low, Priority::Low)
    &&& all_of_class(state.normal, Priority::Normal)
    &&& all_of_class(state.high, Priority::High)
    &&& all_of_class(state.urgent, Priority::Urgent)
}

/// What serving tasks gives: the scheduler afterwards, the tasks that stay
/// behind, and the pairs to send.
#[verifier::ext_equal]
pub struct Served {
    pub state: SchedulerState,
    pub remaining: Seq<TaskView>,
    pub dispatched: Seq<(u64, FecFrameView)>,
}

impl SchedulerState {
    /// What every scheduler keeps: its pool is well formed, and each task
    /// waits in the queue of its own class.
    pub open spec fn wf(self) -> bool {
        self.pool.wf() && classes_agree(self)
    }

    /// The queue of a class.
    pub open spec fn queue(self, priority: Priority) -> Seq<TaskView> {
        match priority {
            Priority::Low => self.low,
            Priority::Normal => self.normal,
            Priority::High => self.high,
            Priority::Urgent => self.urgent,
        }
    }

    /// The scheduler with `tasks` as the queue of a class.
    pub open spec fn with_queue(self, priority: Priority, tasks: Seq<TaskView>) -> SchedulerState {
        match priority {
            Priority::Low => SchedulerState { low: tasks, ..self },
            Priority::Normal => SchedulerState { normal: tasks, ..self },
            Priority::High => SchedulerState { high: tasks, ..self },
            Priority::Urgent => SchedulerState { urgent: tasks, ..self },
        }
    }

    /// Submitting a task at `now`: it joins the end of its class's queue.
    pub open spec fn submit(
        self,
        frames: Seq<FecFrameView>,
        session_id: Seq<u8>,
        priority: Priority,
        now: u64,
    ) -> SchedulerState {
        self.with_queue(
            priority,
            self.queue(priority).push(TaskView { frames, session_id, priority, enqueue_time: now }),
        )
    }

    /// The boost at `now`, at most once per interval: where the head of the
    /// low queue starves, all its tasks join the end of the normal queue;
    /// then the same from normal to high.
    pub open spec fn boosted(self, now: u64) -> SchedulerState {
        if elapsed(now, self.last_priority_boost) < BOOST_INTERVAL {
            self
        } else {
            let first = if head_starves(self.low, self.max_wait_time, now) {
                SchedulerState {
                    normal: self.normal + reclassed(self.low, Priority::Normal),
                    low: Seq::<TaskView>::empty(),
                    ..self
                }
            } else {
                self
            };
            let second = if head_starves(first.normal, first.max_wait_time, now) {
                SchedulerState {
                    high: first.high + reclassed(first.normal, Priority::High),
                    normal: Seq::<TaskView>::empty(),
                    ..first
                }
            } else {
                first
            };
            SchedulerState { last_priority_boost: now, ..second }
        }
    }

    /// Serving one task of class `class` at `now`. A task that has waited
    /// longer than the maximum moves to the head of the next class's queue
    /// with its waiting time reset. Any other gets one stream per shard, up
    /// to the first refusal: the shards that got one are dispatched and the
    /// session is recorded, the rest stays behind.
    pub open spec fn serve_task(self, task: TaskView, class: Priority, now: u64) -> Served {
        if elapsed(now, task.enqueue_time) > self.max_wait_time {
            let moved = TaskView { priority: task.priority.promoted(), enqueue_time: now, ..task };
            Served {
                state: self.with_queue(moved.priority, seq![moved] + self.queue(moved.priority)),
                remaining: Seq::<TaskView>::empty(),
                dispatched: Seq::<(u64, FecFrameView)>::empty(),
            }
        } else {
            let acquired = acquire_many(self.pool, task.frames.len(), high_class(class), now);
            let ids = acquired.1;
            if ids.len() == 0 {
                Served {
                    state: SchedulerState { pool: acquired.0, ..self },
                    remaining: seq![task],
                    dispatched: Seq::<(u64, FecFrameView)>::empty(),
                }
            } else {
                Served {
                    state: SchedulerState {
                        pool: acquired.0,
                        active_sessions: recorded(
                            self.active_sessions,
                            ActiveSessionView {
                                session_id: task.session_id,
                                sent_frames: ids.len() as usize,
                                total_frames: task.frames.len() as usize,
                                assigned_streams: ids,
                                start_time: now,
                            },
                        ),
                        ..self
                    },
                    remaining: if ids.len() < task.frames.len() {
                        seq![TaskView { frames: task.frames.skip(ids.len() as int), ..task }]
                    } else {
                        Seq::<TaskView>::empty()
                    },
                    dispatched: Seq::new(ids.len(), |i: int| (ids[i], task.frames[i])),
                }
            }
        }
    }

    /// Serving `tasks` of class `class` one after the other.
    pub open spec fn serve_tasks(self, tasks: Seq<TaskView>, class: Priority, now: u64) -> Served
        decreases tasks.len(),
    {
        if tasks.len() == 0 {
            Served {
                state: self,
                remaining: Seq::<TaskView>::empty(),
                dispatched: Seq::<(u64, FecFrameView)>::empty(),
            }
        } else {
            let one = self.serve_task(tasks[0], class, now);
            let rest = one.state.serve_tasks(tasks.drop_first(), class, now);
            Served {
                state: rest.state,
                remaining: one.remaining + rest.remaining,
                dispatched: one.dispatched + rest.dispatched,
            }
        }
    }

    /// Serving a class at `now`: its queue is taken, each task is served, and
    /// the tasks that stay behind join the end of the queue again.
    pub open spec fn serve_class(self, class: Priority, now: u64) -> Served {
        let served = self.with_queue(class, Seq::<TaskView>::empty()).serve_tasks(
            self.queue(class),
            class,
            now,
        );
        Served {
            state: served.state.with_queue(class, served.state.queue(class) + served.remaining),
            remaining: Seq::<TaskView>::empty(),
            dispatched: served.dispatched,
        }
    }

    /// One round at `now`: the boost, then the classes from urgent down to
    /// low, then the pool's idle streams are closed.
    pub open spec fn try_send(self, now: u64) -> Served {
        let urgent = self.boosted(now).serve_class(Priority::Urgent, now);
        let high = urgent.state.serve_class(Priority::High, now);
        let normal = high.state.serve_class(Priority::Normal, now);
        let low = normal.state.serve_class(Priority::Low, now);
        Served {
            state: SchedulerState { pool: low.state.pool.cleanup_idle(now), ..low.state },
            remaining: Seq::<TaskView>::empty(),
            dispatched: urgent.dispatched + high.dispatched + normal.dispatched + low.dispatched,
        }
    }

    /// A shard was sent on `stream_id`: the stream is released.
    pub open spec fn frame_sent(self, stream_id: u64, now: u64) -> SchedulerState {
        SchedulerState { pool: self.pool.release(stream_id, now), ..self }
    }

    /// A session is complete: its record goes and the streams that the
    /// record names are released.
    pub open spec fn session_complete(self, session_id: Seq<u8>, now: u64) -> SchedulerState {
        match first_active(self.active_sessions, session_id, 0) {
            Some(at) => SchedulerState {
                pool: release_all(self.pool, self.active_sessions[at].assigned_streams, now),
                active_sessions: self.active_sessions.remove(at),
                ..self
            },
            None => self,
        }
    }
}

/// The scheduler without tasks, over the pool without streams.
pub open spec fn empty_scheduler(max_streams: usize) -> SchedulerState {
    SchedulerState {
        pool: crate::stream::pool::empty_pool(max_streams),
        low: Seq::<TaskView>::empty(),
        normal: Seq::<TaskView>::empty(),
        high: Seq::<TaskView>::empty(),
        urgent: Seq::<TaskView>::empty(),
        active_sessions: Seq::<ActiveSessionView>::empty(),
        max_wait_time: DEFAULT_MAX_WAIT,
        last_priority_boost: 0,
    }
}

/// The counts over a scheduler.
pub open spec fn scheduler_stats_of(state: SchedulerState, stats: SchedulerStats) -> bool {
    &&& stats_of(state.pool, stats.pool_stats)
    &&& stats.pending_counts.low == state.low.len()
    &&& stats.pending_counts.normal == state.normal.len()
    &&& stats.pending_counts.high == state.high.len()
    &&& stats.pending_counts.urgent == state.urgent.len()
    &&& stats.active_sessions == state.active_sessions.len()
}

/// The counts over a scheduler, as one value.
pub open spec fn counts_of(state: SchedulerState) -> SchedulerStats {
    SchedulerStats {
        pool_stats: PoolStats {
            total_streams: state.pool.slots.len() as usize,
            free_streams: state.pool.free.len() as usize,
            high_priority_streams: crate::stream::pool::count_state(
                state.pool.slots,
                crate::stream::pool::StreamState::HighPriority,
            ) as usize,
            low_priority_streams: crate::stream::pool::count_state(
                state.pool.slots,
                crate::stream::pool::StreamState::LowPriority,
            ) as usize,
            max_streams: state.pool.max_streams,
        },
        pending_counts: PendingCounts {
            low: state.low.len() as usize,
            normal: state.normal.len() as usize,
            high: state.high.len() as usize,
            urgent: state.urgent.len() as usize,
        },
        active_sessions: state.active_sessions.len() as usize,
    }
}

/// Counts that are the counts over a scheduler are that one value.
pub proof fn lemma_counts_are_one_value(state: SchedulerState, stats: SchedulerStats)
    requires
        scheduler_stats_of(state, stats),
    ensures
        stats == counts_of(state),
{
}

/// A task never gets more streams than it has shards.
pub proof fn lemma_acquire_many_bounded(pool: PoolState, count: nat, is_high: bool, now: u64)
    ensures
        acquire_many(pool, count, is_high, now).1.len() <= count,
    decreases count,
{
    if count > 0 {
        lemma_acquire_many_bounded(pool.acquire(is_high, now).0, (count - 1) as nat, is_high, now);
    }
}

/// Whether a pool has room for `count` more streams in use: free ones or
/// ones that it can still mint.
pub open spec fn has_room(pool: PoolState, count: nat) -> bool {
    &&& pool.free.len() + (pool.max_streams - pool.slots.len()) >= count
    &&& pool.next_stream_id + crate::stream::pool::STREAM_ID_STEP * count <= u64::MAX
}

/// A pool with room for `count` streams hands out `count` streams.
pub proof fn lemma_room_gives_streams(pool: PoolState, count: nat, is_high: bool, now: u64)
    requires
        has_room(pool, count),
    ensures
        acquire_many(pool, count, is_high, now).1.len() == count,
    decreases count,
{
    if count > 0 {
        let next = pool.acquire(is_high, now).0;
        assert(pool.acquire(is_high, now).1 is Some);
        if pool.free.len() > 0 {
            assert(next.slots.len() == pool.slots.len());
        }
        lemma_room_gives_streams(next, (count - 1) as nat, is_high, now);
    }
}

/// A task that has waited longer than the maximum is not served: it moves
/// to the head of the next class's queue, never a lower one, with its
/// waiting time reset.
pub proof fn lemma_starving_task_moves_up(state: SchedulerState, task: TaskView, class: Priority, now: u64)
    requires
        elapsed(now, task.enqueue_time) > state.max_wait_time,
    ensures
        state.serve_task(task, class, now).dispatched.len() == 0,
        state.serve_task(task, class, now).remaining.len() == 0,
        state.serve_task(task, class, now).state.queue(task.priority.promoted())[0] == (TaskView {
            priority: task.priority.promoted(),
            enqueue_time: now,
            ..task
        }),
        task.priority.promoted().rank() >= task.priority.rank(),
        task.priority.rank() < 2 ==> task.priority.promoted().rank() == task.priority.rank() + 1,
{
}

/// A task that has not waited longer than the maximum and finds room in
/// the pool leaves with all its shards, each on a stream of its own, in
/// their order.
pub proof fn lemma_task_with_room_is_dispatched(state: SchedulerState, task: TaskView, class: Priority, now: u64)
    requires
        elapsed(now, task.enqueue_time) <= state.max_wait_time,
        task.frames.len() > 0,
        has_room(state.pool, task.frames.len()),
    ensures
        state.serve_task(task, class, now).remaining.len() == 0,
        state.serve_task(task, class, now).dispatched.len() == task.frames.len(),
        forall|i: int|
            0 <= i < task.frames.len() ==> (#[trigger] state.serve_task(task, class, now).dispatched[i]).1
                == task.frames[i],
{
    lemma_room_gives_streams(state.pool, task.frames.len(), high_class(class), now);
}

/// Whether `task` is the only task that waits, and waits in the queue of
/// its own class.
pub open spec fn holds_only(state: SchedulerState, task: TaskView) -> bool {
    &&& state.low == if task.priority == Priority::Low {
        seq![task]
    } else {
        Seq::<TaskView>::empty()
    }
    &&& state.normal == if task.priority == Priority::Normal {
        seq![task]
    } else {
        Seq::<TaskView>::empty()
    }
    &&& state.high == if task.priority == Priority::High {
        seq![task]
    } else {
        Seq::<TaskView>::empty()
    }
    &&& state.urgent == if task.priority == Priority::Urgent {
        seq![task]
    } else {
        Seq::<TaskView>::empty()
    }
}

/// Whether no task waits.
pub open spec fn holds_none(state: SchedulerState) -> bool {
    state.low.len() == 0 && state.normal.len() == 0 && state.high.len() == 0 && state.urgent.len() == 0
}

/// Whether a pool has no stream yet and room for `count`.
pub open spec fn untouched_with_room(pool: PoolState, count: nat) -> bool {
    pool.slots.len() == 0 && pool.free.len() == 0 && has_room(pool, count)
}

/// Whether `pairs` are the shards of `task`, each with a stream, in their
/// order.
pub open spec fn carries(pairs: Seq<(u64, FecFrameView)>, task: TaskView) -> bool {
    pairs.len() == task.frames.len() && forall|i: int|
        0 <= i < pairs.len() ==> (#[trigger] pairs[i]).1 == task.frames[i]
}

/// Serving a class whose queue is empty changes nothing.
pub proof fn lemma_serve_empty_class(state: SchedulerState, class: Priority, now: u64)
    requires
        state.queue(class).len() == 0,
    ensures
        state.serve_class(class, now).state == state,
        state.serve_class(class, now).dispatched.len() == 0,
{
    let emptied = state.with_queue(class, Seq::<TaskView>::empty());
    assert(state.queue(class) =~= Seq::<TaskView>::empty());
    assert(emptied =~= state);
    let served = emptied.serve_tasks(state.queue(class), class, now);
    assert(served.state == state);
    assert(served.state.queue(class) + served.remaining =~= state.queue(class));
    assert(state.serve_class(class, now).state =~= state);
}

/// Serving the class of the only task that waits: a task that has waited
/// too long moves up and nothing is sent; any other leaves with all its
/// shards where the pool has room.
pub proof fn lemma_serve_lone_task(state: SchedulerState, task: TaskView, now: u64)
    requires
        holds_only(state, task),
        task.frames.len() > 0,
        has_room(state.pool, task.frames.len()),
    ensures
        elapsed(now, task.enqueue_time) > state.max_wait_time ==> {
            &&& state.serve_class(task.priority, now).dispatched.len() == 0
            &&& holds_only(
                state.serve_class(task.priority, now).state,
                TaskView { priority: task.priority.promoted(), enqueue_time: now, ..task },
            )
            &&& state.serve_class(task.priority, now).state.pool == state.pool
            &&& state.serve_class(task.priority, now).state.max_wait_time == state.max_wait_time
        },
        elapsed(now, task.enqueue_time) <= state.max_wait_time ==> {
            &&& carries(state.serve_class(task.priority, now).dispatched, task)
            &&& holds_none(state.serve_class(task.priority, now).state)
        },
{
    reveal_with_fuel(SchedulerState::serve_tasks, 3);
    let class = task.priority;
    let emptied = state.with_queue(class, Seq::<TaskView>::empty());
    assert(state.queue(class) == seq![task]);
    assert(seq![task].drop_first() =~= Seq::<TaskView>::empty());
    let one = emptied.serve_task(task, class, now);
    let served = emptied.serve_tasks(seq![task], class, now);
    assert(served.state == one.state);
    assert(served.remaining =~= one.remaining);
    assert(served.dispatched =~= one.dispatched);
    if elapsed(now, task.enqueue_time) > state.max_wait_time {
        let moved = TaskView { priority: task.priority.promoted(), enqueue_time: now, ..task };
        assert(emptied.queue(moved.priority) =~= Seq::<TaskView>::empty());
        assert(seq![moved] + emptied.queue(moved.priority) =~= seq![moved]);
        assert(served.state.queue(class) + served.remaining =~= served.state.queue(class));
        assert(state.serve_class(class, now).state =~= served.state);
    } else {
        lemma_room_gives_streams(state.pool, task.frames.len(), high_class(class), now);
        assert(served.state.queue(class) + served.remaining =~= Seq::<TaskView>::empty());
    }
}

/// A boost leaves the only task that waits the only task, in whatever class,
/// with its shards and its waiting time.
pub proof fn lemma_boost_keeps_lone_task(state: SchedulerState, task: TaskView, now: u64)
    requires
        holds_only(state, task),
    ensures
        exists|class: Priority| #[trigger]
            holds_only(state.boosted(now), TaskView { priority: class, ..task }),
        state.boosted(now).pool == state.pool,
        state.boosted(now).max_wait_time == state.max_wait_time,
{
    let after = state.boosted(now);
    if elapsed(now, state.last_priority_boost) < BOOST_INTERVAL {
        assert(holds_only(after, TaskView { priority: task.priority, ..task }));
    } else {
        let first = if head_starves(state.low, state.max_wait_time, now) {
            SchedulerState {
                normal: state.normal + reclassed(state.low, Priority::Normal),
                low: Seq::<TaskView>::empty(),
                ..state
            }
        } else {
            state
        };
        let to_normal = TaskView { priority: Priority::Normal, ..task };
        let to_high = TaskView { priority: Priority::High, ..task };
        if task.priority == Priority::Low && head_starves(state.low, state.max_wait_time, now) {
            assert(reclassed(state.low, Priority::Normal) =~= seq![to_normal]);
            assert(first.normal =~= seq![to_normal]);
            assert(head_starves(first.normal, first.max_wait_time, now));
            assert(reclassed(first.normal, Priority::High) =~= seq![to_high]);
            assert(after.high =~= seq![to_high]);
            assert(holds_only(after, to_high));
        } else if task.priority == Priority::Normal && head_starves(state.normal, state.max_wait_time, now) {
            assert(first == state);
            assert(reclassed(first.normal, Priority::High) =~= seq![to_high]);
            assert(after.high =~= seq![to_high]);
            assert(holds_only(after, to_high));
        } else {
            assert(first == state);
            assert(holds_only(after, TaskView { priority: task.priority, ..task }));
        }
    }
}

/// One round over the only task that waits, on a pool that has no stream
/// yet and room for the task's shards: a task that has waited too long moves
/// up and nothing is sent; any other leaves with all its shards.
pub proof fn lemma_round_over_lone_task(state: SchedulerState, task: TaskView, now: u64)
    requires
        holds_only(state, task),
        task.frames.len() > 0,
        untouched_with_room(state.pool, task.frames.len()),
    ensures
        elapsed(now, task.enqueue_time) > state.max_wait_time ==> {
            &&& state.try_send(now).dispatched.len() == 0
            &&& exists|class: Priority| #[trigger]
                holds_only(state.try_send(now).state, TaskView { priority: class, enqueue_time: now, ..task })
            &&& state.try_send(now).state.pool == state.pool
            &&& state.try_send(now).state.max_wait_time == state.max_wait_time
        },
        elapsed(now, task.enqueue_time) <= state.max_wait_time ==> carries(state.try_send(now).dispatched, task),
{
    lemma_boost_keeps_lone_task(state, task, now);
    let boosted = state.boosted(now);
    let class = choose|class: Priority| #[trigger] holds_only(boosted, TaskView { priority: class, ..task });
    let waiting = TaskView { priority: class, ..task };
    let urgent = boosted.serve_class(Priority::Urgent, now);
    let high = urgent.state.serve_class(Priority::High, now);
    let normal = high.state.serve_class(Priority::Normal, now);
    let low = normal.state.serve_class(Priority::Low, now);
    let starving = elapsed(now, task.enqueue_time) > state.max_wait_time;
    let moved = TaskView { priority: class.promoted(), enqueue_time: now, ..task };
    assert(moved == (TaskView { priority: class.promoted(), enqueue_time: now, ..waiting }));
    // the classes above the task's own
    if class != Priority::Urgent {
        lemma_serve_empty_class(boosted, Priority::Urgent, now);
        if class != Priority::High {
            lemma_serve_empty_class(urgent.state, Priority::High, now);
            if class != Priority::Normal {
                lemma_serve_empty_class(high.state, Priority::Normal, now);
            }
        }
    }
    // the task's own class, and the classes below it
    match class {
        Priority::Urgent => {
            lemma_serve_lone_task(boosted, waiting, now);
            lemma_serve_empty_class(urgent.state, Priority::High, now);
            lemma_serve_empty_class(high.state, Priority::Normal, now);
            lemma_serve_empty_class(normal.state, Priority::Low, now);
        },
        Priority::High => {
            lemma_serve_lone_task(urgent.state, waiting, now);
            lemma_serve_empty_class(high.state, Priority::Normal, now);
            lemma_serve_empty_class(normal.state, Priority::Low, now);
        },
        Priority::Normal => {
            lemma_serve_lone_task(high.state, waiting, now);
            lemma_serve_empty_class(normal.state, Priority::Low, now);
        },
        Priority::Low => {
            lemma_serve_lone_task(normal.state, waiting, now);
        },
    }
    let total = urgent.dispatched + high.dispatched + normal.dispatched + low.dispatched;
    if starving {
        assert(total =~= Seq::<(u64, FecFrameView)>::empty());
        assert(low.state.pool == state.pool);
        assert(idle_ids(state.pool.slots, state.pool.idle_timeout, now) =~= Seq::<u64>::empty());
        assert(state.pool.cleanup_idle(now) == state.pool);
        assert(holds_only(state.try_send(now).state, TaskView { priority: class.promoted(), enqueue_time: now, ..task }));
    } else {
        let own = match class {
            Priority::Urgent => urgent.dispatched,
            Priority::High => high.dispatched,
            Priority::Normal => normal.dispatched,
            Priority::Low => low.dispatched,
        };
        assert(total =~= own);
        assert(carries(own, waiting));
    }
}

/// A task that waits alone, before a pool that has no stream yet and room
/// for its shards, leaves with all its shards in the first of two rounds
/// or, where it had waited too long by then and moved up a class instead,
/// in the second, provided the second round follows within the maximum
/// waiting time.
pub proof fn lemma_lone_task_leaves_within_two_rounds(
    state: SchedulerState,
    task: TaskView,
    first: u64,
    second: u64,
)
    requires
        holds_only(state, task),
        task.frames.len() > 0,
        untouched_with_room(state.pool, task.frames.len()),
        elapsed(second, first) <= state.max_wait_time,
    ensures
        carries(state.try_send(first).dispatched, task) || (state.try_send(first).dispatched.len() == 0
            && carries(state.try_send(first).state.try_send(second).dispatched, task)),
{
    lemma_round_over_lone_task(state, task, first);
    if elapsed(first, task.enqueue_time) > state.max_wait_time {
        let after = state.try_send(first).state;
        let class = choose|class: Priority| #[trigger]
            holds_only(after, TaskView { priority: class, enqueue_time: first, ..task });
        let moved = TaskView { priority: class, enqueue_time: first, ..task };
        lemma_round_over_lone_task(after, moved, second);
    }
}

/// Serving a task leaves each task in the queue of its own class, and what
/// stays behind of the task keeps the task's class.
pub proof fn lemma_serve_task_keeps_classes(state: SchedulerState, task: TaskView, class: Priority, now: u64)
    requires
        classes_agree(state),
    ensures
        classes_agree(state.serve_task(task, class, now).state),
        all_of_class(state.serve_task(task, class, now).remaining, task.priority),
{
    if elapsed(now, task.enqueue_time) > state.max_wait_time {
        let moved = TaskView { priority: task.priority.promoted(), enqueue_time: now, ..task };
        let queue = seq![moved] + state.queue(moved.priority);
        assert forall|i: int| 0 <= i < queue.len() implies (#[trigger] queue[i]).priority == moved.priority by {
            if i > 0 {
                assert(queue[i] == state.queue(moved.priority)[i - 1]);
            }
        }
    }
}

/// A boost leaves each task in the queue of its own class.
pub proof fn lemma_boost_keeps_classes(state: SchedulerState, now: u64)
    requires
        classes_agree(state),
    ensures
        classes_agree(state.boosted(now)),
{
    if elapsed(now, state.last_priority_boost) >= BOOST_INTERVAL {
        let first = if head_starves(state.low, state.max_wait_time, now) {
            SchedulerState {
                normal: state.normal + reclassed(state.low, Priority::Normal),
                low: Seq::<TaskView>::empty(),
                ..state
            }
        } else {
            state
        };
        assert(all_of_class(first.normal, Priority::Normal)) by {
            assert forall|i: int| 0 <= i < first.normal.len() implies (#[trigger] first.normal[i]).priority
                == Priority::Normal by {
                if head_starves(state.low, state.max_wait_time, now) {
                    if i < state.normal.len() {
                        assert(first.normal[i] == state.normal[i]);
                    } else {
                        assert(first.normal[i] == reclassed(state.low, Priority::Normal)[i
                            - state.normal.len()]);
                    }
                }
            }
        }
        if head_starves(first.normal, first.max_wait_time, now) {
            let high = first.high + reclassed(first.normal, Priority::High);
            assert forall|i: int| 0 <= i < high.len() implies (#[trigger] high[i]).priority
                == Priority::High by {
                if i < first.high.len() {
                    assert(high[i] == first.high[i]);
                } else {
                    assert(high[i] == reclassed(first.normal, Priority::High)[i - first.high.len()]);
                }
            }
        }
    }
}

/// Acquires up to `count` streams, up to the first refusal.
fn acquire_streams(pool: &mut StreamPool, count: usize, is_high: bool, now: u64) -> (ids: Vec<u64>)
    requires
        old(pool)@.wf(),
    ensures
        final(pool)@.wf(),
        (final(pool)@, ids@) == acquire_many(old(pool)@, count as nat, is_high, now),
        ids@.len() <= count,
{
    let mut ids: Vec<u64> = Vec::new();
    let mut n: usize = 0;
    let mut open = true;
    while open && n < count
        invariant
            0 <= n <= count,
            pool@.wf(),
            ids@.len() == n,
            open ==> acquire_many(old(pool)@, count as nat, is_high, now) == (
                acquire_many(pool@, (count - n) as nat, is_high, now).0,
                ids@ + acquire_many(pool@, (count - n) as nat, is_high, now).1,
            ),
            !open ==> acquire_many(old(pool)@, count as nat, is_high, now) == (pool@, ids@),
        decreases (if open { 1nat } else { 0nat }), count - n,
    {
        let ghost before = pool@;
        let ghost got = ids@;
        match pool.acquire_stream_at(is_high, now) {
            Some(id) => {
                ids.push(id);
                n += 1;
                proof {
                    let rest = acquire_many(pool@, (count - n) as nat, is_high, now);
                    assert(got + (seq![id] + rest.1) =~= ids@ + rest.1);
                }
            },
            None => {
                open = false;
                proof {
                    assert(got + Seq::<u64>::empty() =~= got);
                }
            },
        }
    }
    proof {
        if open {
            assert(ids@ + Seq::<u64>::empty() =~= ids@);
        }
    }
    ids
}

/// Schedules shards onto the streams of its pool.
pub struct StreamScheduler {
    pool: StreamPool,
    low: VecDeque<FECTask>,
    normal: VecDeque<FECTask>,
    high: VecDeque<FECTask>,
    urgent: VecDeque<FECTask>,
    active_sessions: Vec<ActiveSession>,
    max_wait_time: u64,
    last_priority_boost: u64,
    clock: Clock,
}

impl View for StreamScheduler {
    type V = SchedulerState;

    closed spec fn view(&self) -> SchedulerState {
        SchedulerState {
            pool: self.pool@,
            low: task_views(self.low@),
            normal: task_views(self.normal@),
            high: task_views(self.high@),
            urgent: task_views(self.urgent@),
            active_sessions: active_views(self.active_sessions@),
            max_wait_time: self.max_wait_time,
            last_priority_boost: self.last_priority_boost,
        }
    }
}

impl StreamScheduler {
    /// A scheduler without tasks over an empty pool of at most
    /// `max_streams_per_connection` streams. Tasks move up a class after 10
    /// seconds of waiting.
    pub fn new(max_streams_per_connection: usize) -> (scheduler: Self)
        ensures
            scheduler@.wf(),
            scheduler@ == empty_scheduler(max_streams_per_connection),
    {
        let scheduler = StreamScheduler {
            pool: StreamPool::new(max_streams_per_connection),
            low: VecDeque::new(),
            normal: VecDeque::new(),
            high: VecDeque::new(),
            urgent: VecDeque::new(),
            active_sessions: Vec::new(),
            max_wait_time: DEFAULT_MAX_WAIT,
            last_priority_boost: 0,
            clock: Clock::start(),
        };
        assert(scheduler@.low =~= Seq::<TaskView>::empty());
        assert(scheduler@.normal =~= Seq::<TaskView>::empty());
        assert(scheduler@.high =~= Seq::<TaskView>::empty());
        assert(scheduler@.urgent =~= Seq::<TaskView>::empty());
        assert(scheduler@.active_sessions =~= Seq::<ActiveSessionView>::empty());
        scheduler
    }

    /// The scheduler's clock, read now.
    pub fn now(&self) -> (now: u64) {
        self.clock.now()
    }

    /// Submits a task at the time the scheduler's clock shows.
    pub fn submit_fec_task(&mut self, frames: Vec<FecFrame>, session_id: [u8; 16], priority: Priority)
        requires
            old(self)@.wf(),
        ensures
            final(self)@.wf(),
            exists|now: u64|
                final(self)@ == #[trigger] old(self)@.submit(frame_views(frames@), session_id@, priority, now),
    {
        let now = self.clock.now();
        self.submit_fec_task_at(frames, session_id, priority, now);
    }

    /// Submits a task at clock reading `now`: it joins the end of its
    /// class's queue.
    pub fn submit_fec_task_at(
        &mut self,
        frames: Vec<FecFrame>,
        session_id: [u8; 16],
        priority: Priority,
        now: u64,
    )
        requires
            old(self)@.wf(),
        ensures
            final(self)@.wf(),
            final(self)@ == old(self)@.submit(frame_views(frames@), session_id@, priority, now),
    {
        let task = FECTask { frames, session_id, priority, enqueue_time: now };
        self.push_back(priority, task);
    }

    /// Puts a task at the end of a class's queue.
    fn push_back(&mut self, priority: Priority, task: FECTask)
        ensures
            final(self)@ == old(self)@.with_queue(priority, old(self)@.queue(priority).push(task@)),
    {
        match priority {
            Priority::Low => {
                self.low.push_back(task);
                assert(task_views(self.low@) =~= task_views(old(self).low@).push(task@));
            },
            Priority::Normal => {
                self.normal.push_back(task);
                assert(task_views(self.normal@) =~= task_views(old(self).normal@).push(task@));
            },
            Priority::High => {
                self.high.push_back(task);
                assert(task_views(self.high@) =~= task_views(old(self).high@).push(task@));
            },
            Priority::Urgent => {
                self.urgent.push_back(task);
                assert(task_views(self.urgent@) =~= task_views(old(self).urgent@).push(task@));
            },
        }
    }

    /// Puts a task at the head of a class's queue.
    fn push_front(&mut self, priority: Priority, task: FECTask)
        ensures
            final(self)@ == old(self)@.with_queue(priority, seq![task@] + old(self)@.queue(priority)),
    {
        match priority {
            Priority::Low => {
                self.low.push_front(task);
                assert(task_views(self.low@) =~= seq![task@] + task_views(old(self).low@));
            },
            Priority::Normal => {
                self.normal.push_front(task);
                assert(task_views(self.normal@) =~= seq![task@] + task_views(old(self).normal@));
            },
            Priority::High => {
                self.high.push_front(task);
                assert(task_views(self.high@) =~= seq![task@] + task_views(old(self).high@));
            },
            Priority::Urgent => {
                self.urgent.push_front(task);
                assert(task_views(self.urgent@) =~= seq![task@] + task_views(old(self).urgent@));
            },
        }
    }

    /// Takes the whole queue of a class.
    fn take_queue(&mut self, priority: Priority) -> (tasks: VecDeque<FECTask>)
        ensures
            final(self)@ == old(self)@.with_queue(priority, Seq::<TaskView>::empty()),
            task_views(tasks@) == old(self)@.queue(priority),
    {
        let mut tasks: VecDeque<FECTask> = VecDeque::new();
        match priority {
            Priority::Low => {
                std::mem::swap(&mut self.low, &mut tasks);
                assert(task_views(self.low@) =~= Seq::<TaskView>::empty());
            },
            Priority::Normal => {
                std::mem::swap(&mut self.normal, &mut tasks);
                assert(task_views(self.normal@) =~= Seq::<TaskView>::empty());
            },
            Priority::High => {
                std::mem::swap(&mut self.high, &mut tasks);
                assert(task_views(self.high@) =~= Seq::<TaskView>::empty());
            },
            Priority::Urgent => {
                std::mem::swap(&mut self.urgent, &mut tasks);
                assert(task_views(self.urgent@) =~= Seq::<TaskView>::empty());
            },
        }
        tasks
    }

    /// Puts tasks at the end of a class's queue.
    fn append_queue(&mut self, priority: Priority, tasks: &mut VecDeque<FECTask>)
        ensures
            final(self)@ == old(self)@.with_queue(
                priority,
                old(self)@.queue(priority) + task_views(old(tasks)@),
            ),
    {
        match priority {
            Priority::Low => {
                self.low.append(tasks);
                assert(task_views(self.low@) =~= task_views(old(self).low@) + task_views(old(tasks)@));
            },
            Priority::Normal => {
                self.normal.append(tasks);
                assert(task_views(self.normal@) =~= task_views(old(self).normal@) + task_views(old(tasks)@));
            },
            Priority::High => {
                self.high.append(tasks);
                assert(task_views(self.high@) =~= task_views(old(self).high@) + task_views(old(tasks)@));
            },
            Priority::Urgent => {
                self.urgent.append(tasks);
                assert(task_views(self.urgent@) =~= task_views(old(self).urgent@) + task_views(old(tasks)@));
            },
        }
    }

    /// One round at the time the scheduler's clock shows.
    pub fn try_send(&mut self) -> (dispatched: Vec<(u64, FecFrame)>)
        requires
            old(self)@.wf(),
        ensures
            final(self)@.wf(),
            exists|now: u64|
                {
                    &&& final(self)@ == (#[trigger] old(self)@.try_send(now)).state
                    &&& dispatch_views(dispatched@) == old(self)@.try_send(now).dispatched
                },
    {
        let now = self.clock.now();
        self.try_send_at(now)
    }

    /// One round at clock reading `now`: the pairs of stream and shard to
    /// send, the most urgent class first.
    pub fn try_send_at(&mut self, now: u64) -> (dispatched: Vec<(u64, FecFrame)>)
        requires
            old(self)@.wf(),
        ensures
            final(self)@.wf(),
            final(self)@ == old(self)@.try_send(now).state,
            dispatch_views(dispatched@) == old(self)@.try_send(now).dispatched,
    {
        let mut dispatched: Vec<(u64, FecFrame)> = Vec::new();
        assert(dispatch_views(dispatched@) =~= Seq::<(u64, FecFrameView)>::empty());
        self.check_starvation(now);
        let ghost s0 = self@;
        self.serve_class(Priority::Urgent, now, &mut dispatched);
        let ghost s1 = self@;
        let ghost d1 = dispatch_views(dispatched@);
        self.serve_class(Priority::High, now, &mut dispatched);
        let ghost s2 = self@;
        self.serve_class(Priority::Normal, now, &mut dispatched);
        let ghost s3 = self@;
        self.serve_class(Priority::Low, now, &mut dispatched);
        self.pool.cleanup_idle_streams_at(now);
        proof {
            let urgent = s0.serve_class(Priority::Urgent, now);
            let high = s1.serve_class(Priority::High, now);
            let normal = s2.serve_class(Priority::Normal, now);
            let low = s3.serve_class(Priority::Low, now);
            assert(d1 =~= urgent.dispatched);
            assert(dispatch_views(dispatched@) =~= urgent.dispatched + high.dispatched + normal.dispatched
                + low.dispatched);
        }
        dispatched
    }

    /// Serves one class.
    fn serve_class(&mut self, class: Priority, now: u64, dispatched: &mut Vec<(u64, FecFrame)>)
        requires
            old(self)@.wf(),
        ensures
            final(self)@.wf(),
            final(self)@ == old(self)@.serve_class(class, now).state,
            dispatch_views(final(dispatched)@) == dispatch_views(old(dispatched)@) + old(self)@.serve_class(
                class,
                now,
            ).dispatched,
    {
        let mut tasks = self.take_queue(class);
        let ghost start = self@;
        let ghost all = task_views(tasks@);
        let ghost goal = start.serve_tasks(all, class, now);
        let mut remaining: VecDeque<FECTask> = VecDeque::new();
        assert(task_views(remaining@) =~= Seq::<TaskView>::empty());
        proof {
            let r = self@.serve_tasks(task_views(tasks@), class, now);
            assert(task_views(remaining@) + r.remaining =~= r.remaining);
            assert(dispatch_views(dispatched@) + r.dispatched =~= dispatch_views(old(dispatched)@)
                + goal.dispatched);
        }
        while tasks.len() > 0
            invariant
                self@.wf(),
                all_of_class(task_views(tasks@), class),
                all_of_class(task_views(remaining@), class),
                goal.state == self@.serve_tasks(task_views(tasks@), class, now).state,
                goal.remaining == task_views(remaining@) + self@.serve_tasks(
                    task_views(tasks@),
                    class,
                    now,
                ).remaining,
                dispatch_views(old(dispatched)@) + goal.dispatched == dispatch_views(dispatched@)
                    + self@.serve_tasks(task_views(tasks@), class, now).dispatched,
            decreases tasks@.len(),
        {
            let ghost before = self@;
            let ghost waiting = task_views(tasks@);
            let ghost kept = task_views(remaining@);
            let ghost sent = dispatch_views(dispatched@);
            let task = tasks.pop_front().unwrap();
            proof {
                assert(waiting[0] == task@);
                assert(task_views(tasks@) =~= waiting.drop_first());
            }
            self.serve_task(task, class, now, &mut remaining, dispatched);
            proof {
                lemma_serve_task_keeps_classes(before, waiting[0], class, now);
                assert forall|i: int| 0 <= i < task_views(tasks@).len() implies (
                #[trigger] task_views(tasks@)[i]).priority == class by {
                    assert(task_views(tasks@)[i] == waiting[i + 1]);
                }
                assert forall|i: int| 0 <= i < task_views(remaining@).len() implies (
                #[trigger] task_views(remaining@)[i]).priority == class by {
                    if i < kept.len() {
                        assert(task_views(remaining@)[i] == kept[i]);
                    } else {
                        assert(task_views(remaining@)[i] == before.serve_task(
                            waiting[0],
                            class,
                            now,
                        ).remaining[i - kept.len()]);
                    }
                }
                let one = before.serve_task(waiting[0], class, now);
                let rest = one.state.serve_tasks(waiting.drop_first(), class, now);
                assert(kept + (one.remaining + rest.remaining) =~= (kept + one.remaining) + rest.remaining);
                assert(sent + (one.dispatched + rest.dispatched) =~= (sent + one.dispatched)
                    + rest.dispatched);
            }
        }
        proof {
            assert(task_views(tasks@) =~= Seq::<TaskView>::empty());
            assert(task_views(remaining@) + Seq::<TaskView>::empty() =~= task_views(remaining@));
            assert(dispatch_views(dispatched@) + Seq::<(u64, FecFrameView)>::empty() =~= dispatch_views(
                dispatched@,
            ));
        }
        let ghost kept = task_views(remaining@);
        let ghost served = self@;
        self.append_queue(class, &mut remaining);
        proof {
            let queue = served.queue(class) + kept;
            assert forall|i: int| 0 <= i < queue.len() implies (#[trigger] queue[i]).priority == class by {
                if i < served.queue(class).len() {
                    assert(queue[i] == served.queue(class)[i]);
                } else {
                    assert(queue[i] == kept[i - served.queue(class).len()]);
                }
            }
        }
    }

    /// Serves one task.
    fn serve_task(
        &mut self,
        task: FECTask,
        class: Priority,
        now: u64,
        remaining: &mut VecDeque<FECTask>,
        dispatched: &mut Vec<(u64, FecFrame)>,
    )
        requires
            old(self)@.wf(),
        ensures
            final(self)@.wf(),
            final(self)@ == old(self)@.serve_task(task@, class, now).state,
            task_views(final(remaining)@) == task_views(old(remaining)@) + old(self)@.serve_task(
                task@,
                class,
                now,
            ).remaining,
            dispatch_views(final(dispatched)@) == dispatch_views(old(dispatched)@) + old(self)@.serve_task(
                task@,
                class,
                now,
            ).dispatched,
    {
        if elapsed_between(now, task.enqueue_time) > self.max_wait_time {
            self.resubmit_with_higher_priority(task, now);
            proof {
                assert(task_views(remaining@) + Seq::<TaskView>::empty() =~= task_views(remaining@));
                assert(dispatch_views(dispatched@) + Seq::<(u64, FecFrameView)>::empty() =~= dispatch_views(
                    dispatched@,
                ));
            }
            return ;
        }
        let total_frames = task.frames.len();
        let streams = acquire_streams(&mut self.pool, total_frames, is_high_priority(class), now);
        let sent_count = streams.len();
        if sent_count == 0 {
            let ghost kept = remaining@;
            remaining.push_back(task);
            proof {
                assert(task_views(remaining@) =~= task_views(kept) + seq![task@]);
                assert(dispatch_views(dispatched@) + Seq::<(u64, FecFrameView)>::empty() =~= dispatch_views(
                    dispatched@,
                ));
            }
            return ;
        }
        let ghost sent = dispatch_views(dispatched@);
        let mut i: usize = 0;
        while i < sent_count
            invariant
                0 <= i <= sent_count,
                sent_count == streams@.len(),
                sent_count <= task.frames@.len(),
                dispatch_views(dispatched@) == sent + Seq::new(
                    i as nat,
                    |j: int| (streams@[j], task@.frames[j]),
                ),
            decreases sent_count - i,
        {
            let ghost so_far = dispatch_views(dispatched@);
            let frame = copy_frame(&task.frames[i]);
            assert(frame@ == task@.frames[i as int]);
            dispatched.push((streams[i], frame));
            proof {
                assert(dispatch_views(dispatched@) =~= so_far.push((streams@[i as int], task@.frames[i as int])));
                assert(dispatch_views(dispatched@) =~= sent + Seq::new(
                    (i + 1) as nat,
                    |j: int| (streams@[j], task@.frames[j]),
                ));
            }
            i += 1;
        }
        let ghost ids = streams@;
        self.record_session(
            ActiveSession {
                session_id: task.session_id,
                sent_frames: sent_count,
                total_frames,
                assigned_streams: streams,
                start_time: now,
            },
        );
        if sent_count < total_frames {
            let mut task = task;
            let ghost whole = task@;
            let rest = task.frames.split_off(sent_count);
            let ghost kept = remaining@;
            let left = FECTask {
                frames: rest,
                session_id: task.session_id,
                priority: task.priority,
                enqueue_time: task.enqueue_time,
            };
            proof {
                assert(left@.frames =~= whole.frames.skip(sent_count as int));
            }
            remaining.push_back(left);
            proof {
                assert(task_views(remaining@) =~= task_views(kept) + seq![left@]);
            }
        } else {
            proof {
                assert(task_views(remaining@) + Seq::<TaskView>::empty() =~= task_views(remaining@));
            }
        }
    }

    /// Records the last dispatch of a session in the place of the record
    /// under its identifier, or at the end where there is none.
    fn record_session(&mut self, entry: ActiveSession)
        ensures
            final(self)@ == (SchedulerState {
                active_sessions: recorded(old(self)@.active_sessions, entry@),
                ..old(self)@
            }),
    {
        match self.find_active(entry.session_id.as_slice()) {
            Some(at) => {
                let ghost listed = active_views(self.active_sessions@);
                self.active_sessions.set(at, entry);
                assert(active_views(self.active_sessions@) =~= listed.update(at as int, entry@));
            },
            None => {
                let ghost listed = active_views(self.active_sessions@);
                self.active_sessions.push(entry);
                assert(active_views(self.active_sessions@) =~= listed.push(entry@));
            },
        }
    }

    /// The index of the record under `id`.
    fn find_active(&self, id: &[u8]) -> (found: Option<usize>)
        ensures
            match found {
                Some(at) => first_active(self@.active_sessions, id@, 0) == Some(at as int) && at
                    < self.active_sessions@.len(),
                None => first_active(self@.active_sessions, id@, 0) is None,
            },
    {
        let mut i: usize = 0;
        while i < self.active_sessions.len()
            invariant
                0 <= i <= self.active_sessions@.len(),
                first_active(self@.active_sessions, id@, 0) == first_active(
                    self@.active_sessions,
                    id@,
                    i as int,
                ),
            decreases self.active_sessions@.len() - i,
        {
            assert(self@.active_sessions[i as int] == self.active_sessions@[i as int]@);
            if same_bytes(self.active_sessions[i].session_id.as_slice(), id) {
                return Some(i);
            }
            i += 1;
        }
        None
    }

    /// A shard was sent on `stream_id`, at the time the scheduler's clock
    /// shows.
    pub fn mark_frame_sent(&mut self, stream_id: u64)
        requires
            old(self)@.wf(),
        ensures
            final(self)@.wf(),
            exists|now: u64| final(self)@ == #[trigger] old(self)@.frame_sent(stream_id, now),
    {
        let now = self.clock.now();
        self.mark_frame_sent_at(stream_id, now);
    }

    /// A shard was sent on `stream_id`, at clock reading `now`: the stream
    /// is released.
    pub fn mark_frame_sent_at(&mut self, stream_id: u64, now: u64)
        requires
            old(self)@.wf(),
        ensures
            final(self)@.wf(),
            final(self)@ == old(self)@.frame_sent(stream_id, now),
    {
        self.pool.release_stream_at(stream_id, now);
    }

    /// A session is complete, at the time the scheduler's clock shows.
    pub fn mark_session_complete(&mut self, session_id: [u8; 16])
        requires
            old(self)@.wf(),
        ensures
            final(self)@.wf(),
            exists|now: u64| final(self)@ == #[trigger] old(self)@.session_complete(session_id@, now),
    {
        let now = self.clock.now();
        self.mark_session_complete_at(session_id, now);
    }

    /// A session is complete, at clock reading `now`: its record goes and
    /// the streams that the record names are released.
    pub fn mark_session_complete_at(&mut self, session_id: [u8; 16], now: u64)
        requires
            old(self)@.wf(),
        ensures
            final(self)@.wf(),
            final(self)@ == old(self)@.session_complete(session_id@, now),
    {
        match self.find_active(session_id.as_slice()) {
            Some(at) => {
                let ghost listed = active_views(self.active_sessions@);
                let session = self.active_sessions.remove(at);
                assert(active_views(self.active_sessions@) =~= listed.remove(at as int));
                assert(session@ == listed[at as int]);
                let mut n: usize = 0;
                assert(session.assigned_streams@.skip(0) =~= session.assigned_streams@);
                while n < session.assigned_streams.len()
                    invariant
                        0 <= n <= session.assigned_streams@.len(),
                        self.pool@.wf(),
                        release_all(self.pool@, session.assigned_streams@.skip(n as int), now) == release_all(
                            old(self).pool@,
                            session.assigned_streams@,
                            now,
                        ),
                        self@ == (SchedulerState {
                            pool: self.pool@,
                            active_sessions: listed.remove(at as int),
                            ..old(self)@
                        }),
                    decreases session.assigned_streams@.len() - n,
                {
                    proof {
                        assert(session.assigned_streams@.skip(n as int).drop_first()
                            =~= session.assigned_streams@.skip(n + 1));
                    }
                    self.pool.release_stream_at(session.assigned_streams[n], now);
                    n += 1;
                }
            },
            None => {},
        }
    }

    /// The class of `stream_id` in the scheduler's pool, or `None` where it
    /// is not allocated there.
    pub fn stream_state(&self, stream_id: u64) -> (state: Option<crate::stream::pool::StreamState>)
        requires
            self@.wf(),
        ensures
            state == self@.pool.state_of(stream_id),
    {
        self.pool.stream_state(stream_id)
    }

    /// The counts over the scheduler.
    pub fn stats(&self) -> (stats: SchedulerStats)
        requires
            self@.wf(),
        ensures
            scheduler_stats_of(self@, stats),
            stats == counts_of(self@),
    {
        SchedulerStats {
            pool_stats: self.pool.stats(),
            pending_counts: PendingCounts {
                low: self.low.len(),
                normal: self.normal.len(),
                high: self.high.len(),
                urgent: self.urgent.len(),
            },
            active_sessions: self.active_sessions.len(),
        }
    }

    /// The boost: at most once per interval, a queue whose head starves
    /// moves into the next class.
    fn check_starvation(&mut self, now: u64)
        ensures
            final(self)@ == old(self)@.boosted(now),
    {
        if elapsed_between(now, self.last_priority_boost) < BOOST_INTERVAL {
            return ;
        }
        if self.low.len() > 0 && elapsed_between(now, self.low[0].enqueue_time) > self.max_wait_time {
            assert(task_views(self.low@)[0] == self.low@[0]@);
            let mut moving = self.take_queue(Priority::Low);
            reclass(&mut moving, Priority::Normal);
            self.append_queue(Priority::Normal, &mut moving);
        } else {
            proof {
                if self.low@.len() > 0 {
                    assert(task_views(self.low@)[0] == self.low@[0]@);
                }
            }
        }
        if self.normal.len() > 0 && elapsed_between(now, self.normal[0].enqueue_time) > self.max_wait_time {
            assert(task_views(self.normal@)[0] == self.normal@[0]@);
            let mut moving = self.take_queue(Priority::Normal);
            reclass(&mut moving, Priority::High);
            self.append_queue(Priority::High, &mut moving);
        } else {
            proof {
                if self.normal@.len() > 0 {
                    assert(task_views(self.normal@)[0] == self.normal@[0]@);
                }
            }
        }
        self.last_priority_boost = now;
    }

    /// Moves a task that waited too long to the head of the next class's
    /// queue, with its waiting time reset.
    fn resubmit_with_higher_priority(&mut self, task: FECTask, now: u64)
        ensures
            final(self)@ == old(self)@.with_queue(
                task@.priority.promoted(),
                seq![TaskView { priority: task@.priority.promoted(), enqueue_time: now, ..task@ }] + old(
                    self,
                )@.queue(task@.priority.promoted()),
            ),
    {
        let priority = task.priority.promote();
        let moved = FECTask { frames: task.frames, session_id: task.session_id, priority, enqueue_time: now };
        self.push_front(priority, moved);
    }
}

/// Puts every task of a queue into class `priority`.
fn reclass(tasks: &mut VecDeque<FECTask>, priority: Priority)
    ensures
        task_views(final(tasks)@) == reclassed(task_views(old(tasks)@), priority),
{
    let mut moved: VecDeque<FECTask> = VecDeque::new();
    let ghost given = task_views(tasks@);
    while tasks.len() > 0
        invariant
            given.len() == moved@.len() + tasks@.len(),
            forall|i: int|
                0 <= i < moved@.len() ==> (#[trigger] moved@[i])@ == (TaskView { priority, ..given[i] }),
            forall|i: int| 0 <= i < tasks@.len() ==> (#[trigger] tasks@[i])@ == given[moved@.len() + i],
        decreases tasks@.len(),
    {
        let task = tasks.pop_front().unwrap();
        moved.push_back(
            FECTask {
                frames: task.frames,
                session_id: task.session_id,
                priority,
                enqueue_time: task.enqueue_time,
            },
        );
    }
    std::mem::swap(tasks, &mut moved);
    assert(task_views(tasks@) =~= reclassed(given, priority));
}

} // verus!
