//! The manager is the one door to the streams: it keeps a pool for plain
//! messages, a scheduler for shards, a set of reserved streams, and a queue
//! of plain messages that found no stream yet.

use std::collections::HashSet;
use std::collections::VecDeque;
use vstd::prelude::*;
use crate::clock::{elapsed, elapsed_between, Clock, NANOS_PER_SEC};
use crate::stream::pool::{PoolState, StreamPool, StreamState, STREAM_ID_STEP};
use crate::stream::scheduler::{dispatch_views, SchedulerState, SchedulerStats, StreamScheduler};
use crate::whisper::{frame_views, FecFrame, FecFrameView, Priority};

verus! {

broadcast use vstd::std_specs::hash::group_hash_axioms;

/// Time after which a waiting message is dropped, in nanoseconds.
pub const MESSAGE_MAX_AGE: u64 = 30 * NANOS_PER_SEC;

/// Default number of tries after which a waiting message is dropped.
pub const DEFAULT_MAX_RETRY_COUNT: u32 = 3;

/// A plain message that waits for a stream.
#[derive(Debug)]
pub struct NormalMessage {
    pub data: Vec<u8>,
    pub priority: Priority,
    /// Clock reading at which the message joined the queue.
    pub enqueue_time: u64,
    pub retry_count: u32,
}

/// A waiting message as a value.
pub struct MessageView {
    pub data: Seq<u8>,
    pub priority: Priority,
    pub enqueue_time: u64,
    pub retry_count: u32,
}

impl View for NormalMessage {
    type V = MessageView;

    open spec fn view(&self) -> MessageView {
        MessageView {
            data: self.data@,
            priority: self.priority,
            enqueue_time: self.enqueue_time,
            retry_count: self.retry_count,
        }
    }
}

/// Counts over a manager.
#[derive(Debug, Clone, Copy, PartialEq, Eq, Structural)]
pub struct ManagerStats {
    pub total_streams_allocated: usize,
    pub reserved_streams: usize,
    pub pending_normal_messages: usize,
    pub failed_allocations: usize,
    /// Clock reading of the last operation that touched the counts.
    pub last_operation_time: Option<u64>,
}

impl Default for ManagerStats {
    fn default() -> (stats: Self)
        ensures
            stats == (ManagerStats {
                total_streams_allocated: 0,
                reserved_streams: 0,
                pending_normal_messages: 0,
                failed_allocations: 0,
                last_operation_time: None,
            }),
    {
        ManagerStats {
            total_streams_allocated: 0,
            reserved_streams: 0,
            pending_normal_messages: 0,
            failed_allocations: 0,
            last_operation_time: None,
        }
    }
}

/// Waiting messages as values.
pub open spec fn message_views(messages: Seq<NormalMessage>) -> Seq<MessageView> {
    Seq::new(messages.len(), |i: int| messages[i]@)
}

/// Pairs of stream and message as values.
pub open spec fn sent_views(pairs: Seq<(u64, Vec<u8>)>) -> Seq<(u64, Seq<u8>)> {
    Seq::new(pairs.len(), |i: int| (pairs[i].0, pairs[i].1@))
}

/// A counter moved on by one, stopping at the largest number it can hold.
pub open spec fn bumped(counter: usize) -> usize {
    if counter == usize::MAX {
        counter
    } else {
        (counter + 1) as usize
    }
}

/// Whether a class goes to the head of the waiting queue.
pub open spec fn jumps_queue(priority: Priority) -> bool {
    priority == Priority::Urgent || priority == Priority::High
}

/// How many more streams a pool can hand out without taking one over: its
/// free streams and those that the cap still lets it mint.
pub open spec fn room(pool: PoolState) -> nat {
    pool.free.len() + if pool.max_streams > pool.slots.len() {
        (pool.max_streams - pool.slots.len()) as nat
    } else {
        0nat
    }
}

/// Acquiring streams of low priority at `now` until one comes that is not
/// reserved, or the pool refuses. A reserved stream that the pool hands out
/// on the way stays taken: the pool does not hand it out again before it is
/// released.
pub open spec fn acquire_unreserved(pool: PoolState, reserved: Set<u64>, now: u64) -> (PoolState, Option<u64>)
    decreases room(pool),
{
    match pool.acquire(false, now).1 {
        Some(id) => if reserved.contains(id) {
            acquire_unreserved(pool.acquire(false, now).0, reserved, now)
        } else {
            (pool.acquire(false, now).0, Some(id))
        },
        None => (pool.acquire(false, now).0, None),
    }
}

/// The first stream that is not reserved among those that a pool can hand
/// out without taking one over: its free streams in their order, then new
/// identifiers in steps of four while the cap and the range of identifiers
/// allow. `allocated` is the number of streams that the pool holds.
pub open spec fn next_unreserved(
    free: Seq<u64>,
    allocated: nat,
    next_stream_id: u64,
    max_streams: usize,
    reserved: Set<u64>,
) -> Option<u64>
    decreases free.len() + if max_streams > allocated {
        (max_streams - allocated) as nat
    } else {
        0nat
    },
{
    if free.len() > 0 {
        if reserved.contains(free[0]) {
            next_unreserved(free.drop_first(), allocated, next_stream_id, max_streams, reserved)
        } else {
            Some(free[0])
        }
    } else if allocated < max_streams && next_stream_id <= u64::MAX - STREAM_ID_STEP {
        if reserved.contains(next_stream_id) {
            next_unreserved(
                free,
                allocated + 1,
                (next_stream_id + STREAM_ID_STEP) as u64,
                max_streams,
                reserved,
            )
        } else {
            Some(next_stream_id)
        }
    } else {
        None
    }
}

/// The search finds the first stream that is not reserved among those that
/// the pool can hand out, whatever the time.
pub proof fn lemma_search_finds_next_unreserved(pool: PoolState, reserved: Set<u64>, now: u64)
    ensures
        acquire_unreserved(pool, reserved, now).1 == next_unreserved(
            pool.free,
            pool.slots.len(),
            pool.next_stream_id,
            pool.max_streams,
            reserved,
        ),
    decreases room(pool),
{
    match pool.acquire(false, now).1 {
        Some(id) => {
            if reserved.contains(id) {
                lemma_acquire_takes_room(pool, now);
                lemma_search_finds_next_unreserved(pool.acquire(false, now).0, reserved, now);
            }
        },
        None => {},
    }
}

/// Each stream that a pool hands out without taking one over uses up one
/// unit of its room.
pub proof fn lemma_acquire_takes_room(pool: PoolState, now: u64)
    requires
        pool.acquire(false, now).1 is Some,
    ensures
        room(pool.acquire(false, now).0) + 1 == room(pool),
{
}

/// The stream that the search finds is not reserved, and no stream is found
/// only where the pool, at the end, has no free stream and can mint none.
pub proof fn lemma_search_finds_unreserved(pool: PoolState, reserved: Set<u64>, now: u64)
    ensures
        acquire_unreserved(pool, reserved, now).1 matches Some(id) ==> !reserved.contains(id),
        acquire_unreserved(pool, reserved, now).1 is None ==> acquire_unreserved(pool, reserved, now).0.free.len()
            == 0 && !acquire_unreserved(pool, reserved, now).0.can_mint(),
    decreases room(pool),
{
    match pool.acquire(false, now).1 {
        Some(id) => {
            if reserved.contains(id) {
                lemma_acquire_takes_room(pool, now);
                lemma_search_finds_unreserved(pool.acquire(false, now).0, reserved, now);
            }
        },
        None => {},
    }
}

/// A pool without free streams that can still mint two, of which the next
/// is reserved and the one after it is not, hands out the one after it.
pub proof fn lemma_search_skips_reserved_mint(pool: PoolState, reserved: Set<u64>, now: u64)
    requires
        pool.free.len() == 0,
        pool.slots.len() + 2 <= pool.max_streams,
        pool.next_stream_id + 2 * STREAM_ID_STEP <= u64::MAX,
        reserved.contains(pool.next_stream_id),
        !reserved.contains((pool.next_stream_id + STREAM_ID_STEP) as u64),
    ensures
        acquire_unreserved(pool, reserved, now).1 == Some((pool.next_stream_id + STREAM_ID_STEP) as u64),
{
    reveal_with_fuel(acquire_unreserved, 3);
}

/// A manager as a value.
pub struct ManagerState {
    pub pool: PoolState,
    pub scheduler: SchedulerState,
    pub reserved: Set<u64>,
    pub pending: Seq<MessageView>,
    pub next_client_stream_id: u64,
    pub max_retry_count: u32,
    pub stats: ManagerStats,
}

/// What retrying waiting messages gives: the manager afterwards, the
/// messages that go on waiting, and the pairs to send.
pub struct Retried {
    pub state: ManagerState,
    pub remaining: Seq<MessageView>,
    pub sent: Seq<(u64, Seq<u8>)>,
}

impl ManagerState {
    /// What every manager keeps.
    pub open spec fn wf(self) -> bool {
        self.pool.wf() && self.scheduler.wf()
    }

    /// The counts brought up to date at `now`.
    pub open spec fn touched(self, now: u64) -> ManagerState {
        ManagerState {
            stats: ManagerStats {
                reserved_streams: self.reserved.len() as usize,
                pending_normal_messages: self.pending.len() as usize,
                last_operation_time: Some(now),
                ..self.stats
            },
            ..self
        }
    }

    /// Whether `id` carries traffic, plain or shards.
    pub open spec fn in_use(self, id: u64) -> bool {
        self.pool.in_use(id) || self.scheduler.pool.in_use(id)
    }

    /// Whether `id` is neither reserved nor in use.
    pub open spec fn available(self, id: u64) -> bool {
        !self.reserved.contains(id) && !self.in_use(id)
    }

    /// Reserving `id` at `now`: a stream that is reserved already stays so;
    /// any other is refused where it is in use, and reserved where it is
    /// not.
    pub open spec fn reserve(self, id: u64, now: u64) -> (ManagerState, bool) {
        if !self.reserved.contains(id) && self.in_use(id) {
            (self, false)
        } else {
            (ManagerState { reserved: self.reserved.insert(id), ..self }.touched(now), true)
        }
    }

    /// Giving up the reservation of `id` at `now`: the stream also returns to
    /// the pool's free queue, should the pool have handed it out and kept it
    /// taken meanwhile.
    pub open spec fn release_reserved(self, id: u64, now: u64) -> ManagerState {
        ManagerState { reserved: self.reserved.remove(id), pool: self.pool.release(id, now), ..self }.touched(
            now,
        )
    }

    /// The search for a stream at `now`: the first stream of low priority
    /// that the pool hands out and that is not reserved, or none once the
    /// pool refuses.
    pub open spec fn find_available(self, now: u64) -> (PoolState, Option<u64>) {
        acquire_unreserved(self.pool, self.reserved, now)
    }

    /// The waiting queue with one more message: urgent and high ones at the
    /// head, the others at the end.
    pub open spec fn enqueued(self, data: Seq<u8>, priority: Priority, now: u64) -> Seq<MessageView> {
        let message = MessageView { data, priority, enqueue_time: now, retry_count: 0 };
        if jumps_queue(priority) {
            seq![message] + self.pending
        } else {
            self.pending.push(message)
        }
    }

    /// A plain message asks for a stream at `now`: with a stream it is
    /// handed back for sending; without one it joins the waiting queue.
    pub open spec fn allocate_normal(self, data: Seq<u8>, priority: Priority, now: u64) -> (
        ManagerState,
        Option<(u64, Seq<u8>)>,
    ) {
        let found = self.find_available(now);
        match found.1 {
            Some(id) => (
                ManagerState {
                    pool: found.0,
                    stats: ManagerStats {
                        total_streams_allocated: bumped(self.stats.total_streams_allocated),
                        ..self.stats
                    },
                    ..self
                }.touched(now),
                Some((id, data)),
            ),
            None => {
                let queued = ManagerState {
                    pool: found.0,
                    pending: self.enqueued(data, priority, now),
                    ..self
                }.touched(now);
                (
                    ManagerState {
                        stats: ManagerStats {
                            failed_allocations: bumped(queued.stats.failed_allocations),
                            ..queued.stats
                        },
                        ..queued
                    },
                    None,
                )
            },
        }
    }

    /// Shards ask for streams at `now`: the task is submitted and the
    /// scheduler runs one round.
    pub open spec fn allocate_fec(
        self,
        frames: Seq<FecFrameView>,
        session_id: Seq<u8>,
        priority: Priority,
        now: u64,
    ) -> (ManagerState, Seq<(u64, FecFrameView)>) {
        let submitted = self.scheduler.submit(frames, session_id, priority, now);
        (
            ManagerState { scheduler: submitted.try_send(now).state, ..self }.touched(now),
            submitted.try_send(now).dispatched,
        )
    }

    /// A shard was sent on `stream_id` at `now`.
    pub open spec fn frame_sent(self, stream_id: u64, now: u64) -> ManagerState {
        ManagerState { scheduler: self.scheduler.frame_sent(stream_id, now), ..self }.touched(now)
    }

    /// A session is complete at `now`.
    pub open spec fn session_complete(self, session_id: Seq<u8>, now: u64) -> ManagerState {
        ManagerState { scheduler: self.scheduler.session_complete(session_id, now), ..self }.touched(now)
    }

    /// The idle streams of the pool are closed at `now`.
    pub open spec fn cleaned(self, now: u64) -> ManagerState {
        ManagerState { pool: self.pool.cleanup_idle(now), ..self }.touched(now)
    }

    /// One waiting message is tried again at `now`: too old or tried too
    /// often, it is dropped; with a stream it is sent; without one it goes on
    /// waiting with one more try on its count.
    pub open spec fn retry_one(self, message: MessageView, now: u64) -> Retried {
        if elapsed(now, message.enqueue_time) > MESSAGE_MAX_AGE || message.retry_count
            >= self.max_retry_count {
            Retried {
                state: self,
                remaining: Seq::<MessageView>::empty(),
                sent: Seq::<(u64, Seq<u8>)>::empty(),
            }
        } else {
            let found = self.find_available(now);
            match found.1 {
                Some(id) => Retried {
                    state: ManagerState {
                        pool: found.0,
                        stats: ManagerStats {
                            total_streams_allocated: bumped(self.stats.total_streams_allocated),
                            ..self.stats
                        },
                        ..self
                    },
                    remaining: Seq::<MessageView>::empty(),
                    sent: seq![(id, message.data)],
                },
                None => Retried {
                    state: ManagerState { pool: found.0, ..self },
                    remaining: seq![
                        MessageView { retry_count: (message.retry_count + 1) as u32, ..message },
                    ],
                    sent: Seq::<(u64, Seq<u8>)>::empty(),
                },
            }
        }
    }

    /// The waiting messages are tried again one after the other.
    pub open spec fn retry_all(self, messages: Seq<MessageView>, now: u64) -> Retried
        decreases messages.len(),
    {
        if messages.len() == 0 {
            Retried {
                state: self,
                remaining: Seq::<MessageView>::empty(),
                sent: Seq::<(u64, Seq<u8>)>::empty(),
            }
        } else {
            let one = self.retry_one(messages[0], now);
            let rest = one.state.retry_all(messages.drop_first(), now);
            Retried { state: rest.state, remaining: one.remaining + rest.remaining, sent: one.sent + rest.sent }
        }
    }

    /// The waiting queue is worked through at `now`.
    pub open spec fn process_pending(self, now: u64) -> (ManagerState, Seq<(u64, Seq<u8>)>) {
        let retried = self.retry_all(self.pending, now);
        (ManagerState { pending: retried.remaining, ..retried.state }.touched(now), retried.sent)
    }
}

/// The manager without reservations and waiting messages, over the pool
/// without streams and the scheduler without tasks.
pub open spec fn empty_manager(max_streams: usize) -> ManagerState {
    ManagerState {
        pool: crate::stream::pool::empty_pool(max_streams),
        scheduler: crate::stream::scheduler::empty_scheduler(max_streams),
        reserved: Set::<u64>::empty(),
        pending: Seq::<MessageView>::empty(),
        next_client_stream_id: 0,
        max_retry_count: DEFAULT_MAX_RETRY_COUNT,
        stats: ManagerStats {
            total_streams_allocated: 0,
            reserved_streams: 0,
            pending_normal_messages: 0,
            failed_allocations: 0,
            last_operation_time: None,
        },
    }
}

/// The text that `format!` makes of the `Debug` form of the counts.
pub uninterp spec fn stats_text(stats: SchedulerStats) -> Seq<char>;

/// Calls `format!` with the `Debug` form of the counts. The text is a
/// function of the counts alone: equal counts read the same.
#[verifier::external_body]
pub(crate) fn debug_text(stats: &SchedulerStats) -> (text: String)
    ensures
        text@ == stats_text(*stats),
{
    format!("{:?}", stats)
}

/// The one door to the streams of a connection.
pub struct UnifiedStreamManager {
    stream_pool: StreamPool,
    stream_scheduler: StreamScheduler,
    reserved_streams: HashSet<u64>,
    pending_normal_messages: VecDeque<NormalMessage>,
    next_client_stream_id: u64,
    max_retry_count: u32,
    stats: ManagerStats,
    clock: Clock,
}

impl View for UnifiedStreamManager {
    type V = ManagerState;

    closed spec fn view(&self) -> ManagerState {
        ManagerState {
            pool: self.stream_pool@,
            scheduler: self.stream_scheduler@,
            reserved: self.reserved_streams@,
            pending: message_views(self.pending_normal_messages@),
            next_client_stream_id: self.next_client_stream_id,
            max_retry_count: self.max_retry_count,
            stats: self.stats,
        }
    }
}

impl UnifiedStreamManager {
    /// A manager over an empty pool and an empty scheduler, each of at most
    /// `max_streams_per_connection` streams. Waiting messages are dropped
    /// after 3 tries.
    pub fn new(max_streams_per_connection: usize) -> (manager: Self)
        ensures
            manager@.wf(),
            manager@ == empty_manager(max_streams_per_connection),
    {
        let manager = UnifiedStreamManager {
            stream_pool: StreamPool::new(max_streams_per_connection),
            stream_scheduler: StreamScheduler::new(max_streams_per_connection),
            reserved_streams: HashSet::new(),
            pending_normal_messages: VecDeque::new(),
            next_client_stream_id: 0,
            max_retry_count: DEFAULT_MAX_RETRY_COUNT,
            stats: ManagerStats::default(),
            clock: Clock::start(),
        };
        assert(manager@.pending =~= Seq::<MessageView>::empty());
        manager
    }

    /// The manager's clock, read now.
    pub fn now(&self) -> (now: u64) {
        self.clock.now()
    }

    /// Brings the counts up to date.
    fn update_stats(&mut self, now: u64)
        requires
            old(self)@.wf(),
        ensures
            final(self)@ == old(self)@.touched(now),
            final(self)@.wf(),
    {
        self.stats.reserved_streams = self.reserved_streams.len();
        self.stats.pending_normal_messages = self.pending_normal_messages.len();
        self.stats.last_operation_time = Some(now);
    }

    /// Whether `stream_id` carries traffic.
    fn stream_in_use(&self, stream_id: u64) -> (used: bool)
        requires
            self@.wf(),
        ensures
            used == self@.in_use(stream_id),
    {
        let own = self.stream_pool.stream_state(stream_id);
        let scheduled = self.stream_scheduler.stream_state(stream_id);
        let own_used = match own {
            Some(StreamState::HighPriority) => true,
            Some(StreamState::LowPriority) => true,
            _ => false,
        };
        let scheduled_used = match scheduled {
            Some(StreamState::HighPriority) => true,
            Some(StreamState::LowPriority) => true,
            _ => false,
        };
        own_used || scheduled_used
    }

    /// Reserves a stream at the time the manager's clock shows.
    pub fn reserve_stream(&mut self, stream_id: u64) -> (reserved: bool)
        requires
            old(self)@.wf(),
        ensures
            final(self)@.wf(),
            exists|now: u64| (final(self)@, reserved) == #[trigger] old(self)@.reserve(stream_id, now),
    {
        let now = self.clock.now();
        self.reserve_stream_at(stream_id, now)
    }

    /// Reserves a stream at clock reading `now`, for a purpose of the
    /// caller's: refused where the stream is in use and not reserved
    /// already.
    pub fn reserve_stream_at(&mut self, stream_id: u64, now: u64) -> (reserved: bool)
        requires
            old(self)@.wf(),
        ensures
            final(self)@.wf(),
            (final(self)@, reserved) == old(self)@.reserve(stream_id, now),
    {
        if !self.reserved_streams.contains(&stream_id) && self.stream_in_use(stream_id) {
            return false;
        }
        self.reserved_streams.insert(stream_id);
        self.update_stats(now);
        true
    }

    /// Whether `stream_id` is reserved.
    pub fn is_reserved(&self, stream_id: u64) -> (reserved: bool)
        ensures
            reserved == self@.reserved.contains(stream_id),
    {
        self.reserved_streams.contains(&stream_id)
    }

    /// Gives up a reservation at the time the manager's clock shows.
    pub fn release_reserved_stream(&mut self, stream_id: u64)
        requires
            old(self)@.wf(),
        ensures
            final(self)@.wf(),
            exists|now: u64| final(self)@ == #[trigger] old(self)@.release_reserved(stream_id, now),
    {
        let now = self.clock.now();
        self.release_reserved_stream_at(stream_id, now);
    }

    /// Gives up a reservation at clock reading `now`.
    pub fn release_reserved_stream_at(&mut self, stream_id: u64, now: u64)
        requires
            old(self)@.wf(),
        ensures
            final(self)@.wf(),
            final(self)@ == old(self)@.release_reserved(stream_id, now),
    {
        self.reserved_streams.remove(&stream_id);
        self.stream_pool.release_stream_at(stream_id, now);
        self.update_stats(now);
    }

    /// Acquires streams until one comes that is not reserved, or the pool
    /// refuses.
    fn find_available_stream(&mut self, now: u64) -> (found: Option<u64>)
        requires
            old(self)@.wf(),
        ensures
            final(self)@.wf(),
            final(self)@ == (ManagerState { pool: old(self)@.find_available(now).0, ..old(self)@ }),
            found == old(self)@.find_available(now).1,
    {
        loop
            invariant
                self@.wf(),
                self@ == (ManagerState { pool: self@.pool, ..old(self)@ }),
                acquire_unreserved(self@.pool, self@.reserved, now) == acquire_unreserved(
                    old(self)@.pool,
                    old(self)@.reserved,
                    now,
                ),
            decreases room(self@.pool),
        {
            proof {
                if self@.pool.acquire(false, now).1 is Some {
                    lemma_acquire_takes_room(self@.pool, now);
                }
            }
            match self.stream_pool.acquire_stream_at(false, now) {
                Some(stream_id) => {
                    if !self.reserved_streams.contains(&stream_id) {
                        return Some(stream_id);
                    }
                },
                None => {
                    return None;
                },
            }
        }
    }

    /// Puts a message into the waiting queue.
    fn enqueue_normal_message(&mut self, data: Vec<u8>, priority: Priority, now: u64)
        requires
            old(self)@.wf(),
        ensures
            final(self)@.wf(),
            final(self)@ == (ManagerState {
                pending: old(self)@.enqueued(data@, priority, now),
                ..old(self)@
            }).touched(now),
    {
        let message = NormalMessage { data, priority, enqueue_time: now, retry_count: 0 };
        let ghost queued = message_views(self.pending_normal_messages@);
        match priority {
            Priority::Urgent => {
                self.pending_normal_messages.push_front(message);
                assert(message_views(self.pending_normal_messages@) =~= seq![message@] + queued);
            },
            Priority::High => {
                self.pending_normal_messages.push_front(message);
                assert(message_views(self.pending_normal_messages@) =~= seq![message@] + queued);
            },
            _ => {
                self.pending_normal_messages.push_back(message);
                assert(message_views(self.pending_normal_messages@) =~= queued.push(message@));
            },
        }
        self.update_stats(now);
    }

    /// A plain message asks for a stream, at the time the manager's clock
    /// shows.
    pub fn allocate_stream_for_normal_message(&mut self, data: Vec<u8>, priority: Priority) -> (r: Option<
        (u64, Vec<u8>),
    >)
        requires
            old(self)@.wf(),
        ensures
            final(self)@.wf(),
            exists|now: u64|
                {
                    &&& final(self)@ == (#[trigger] old(self)@.allocate_normal(data@, priority, now)).0
                    &&& allocation_matches(r, old(self)@.allocate_normal(data@, priority, now).1)
                },
            allocation_is_owed(old(self)@, final(self)@, data@, priority, r),
    {
        let now = self.clock.now();
        self.allocate_stream_for_normal_message_at(data, priority, now)
    }

    /// A plain message asks for a stream at clock reading `now`. It gets the
    /// first stream that is not reserved among those that the pool can hand
    /// out, and comes back with it for sending. Only where there is no such
    /// stream the message joins the waiting queue and `None` comes back.
    pub fn allocate_stream_for_normal_message_at(&mut self, data: Vec<u8>, priority: Priority, now: u64) -> (r:
        Option<(u64, Vec<u8>)>)
        requires
            old(self)@.wf(),
        ensures
            final(self)@.wf(),
            final(self)@ == old(self)@.allocate_normal(data@, priority, now).0,
            allocation_matches(r, old(self)@.allocate_normal(data@, priority, now).1),
            allocation_is_owed(old(self)@, final(self)@, data@, priority, r),
    {
        proof {
            lemma_search_finds_next_unreserved(self@.pool, self@.reserved, now);
            lemma_search_finds_unreserved(self@.pool, self@.reserved, now);
        }
        match self.find_available_stream(now) {
            Some(stream_id) => {
                self.stats.total_streams_allocated = self.stats.total_streams_allocated.saturating_add(1);
                self.update_stats(now);
                Some((stream_id, data))
            },
            None => {
                self.enqueue_normal_message(data, priority, now);
                self.stats.failed_allocations = self.stats.failed_allocations.saturating_add(1);
                None
            },
        }
    }

    /// Shards ask for streams, at the time the manager's clock shows.
    pub fn allocate_streams_for_fec(&mut self, frames: Vec<FecFrame>, session_id: [u8; 16], priority: Priority) -> (r:
        Vec<(u64, FecFrame)>)
        requires
            old(self)@.wf(),
        ensures
            final(self)@.wf(),
            exists|now: u64|
                {
                    &&& final(self)@ == (#[trigger] old(self)@.allocate_fec(
                        frame_views(frames@),
                        session_id@,
                        priority,
                        now,
                    )).0
                    &&& dispatch_views(r@) == old(self)@.allocate_fec(
                        frame_views(frames@),
                        session_id@,
                        priority,
                        now,
                    ).1
                },
    {
        let now = self.clock.now();
        self.allocate_streams_for_fec_at(frames, session_id, priority, now)
    }

    /// Shards ask for streams at clock reading `now`: the pairs of stream
    /// and shard that the scheduler's round gives.
    pub fn allocate_streams_for_fec_at(
        &mut self,
        frames: Vec<FecFrame>,
        session_id: [u8; 16],
        priority: Priority,
        now: u64,
    ) -> (r: Vec<(u64, FecFrame)>)
        requires
            old(self)@.wf(),
        ensures
            final(self)@.wf(),
            final(self)@ == old(self)@.allocate_fec(frame_views(frames@), session_id@, priority, now).0,
            dispatch_views(r@) == old(self)@.allocate_fec(
                frame_views(frames@),
                session_id@,
                priority,
                now,
            ).1,
    {
        self.stream_scheduler.submit_fec_task_at(frames, session_id, priority, now);
        self.update_stats(now);
        self.stream_scheduler.try_send_at(now)
    }

    /// A shard was sent on `stream_id`: the scheduler releases the stream.
    pub fn mark_frame_sent(&mut self, stream_id: u64)
        requires
            old(self)@.wf(),
        ensures
            final(self)@.wf(),
            exists|now: u64|
                final(self)@ == #[trigger] old(self)@.frame_sent(stream_id, now),
    {
        let now = self.clock.now();
        self.stream_scheduler.mark_frame_sent_at(stream_id, now);
        self.update_stats(now);
        assert(self@ == old(self)@.frame_sent(stream_id, now));
    }

    /// A session is complete: the scheduler releases its streams.
    pub fn mark_session_complete(&mut self, session_id: [u8; 16])
        requires
            old(self)@.wf(),
        ensures
            final(self)@.wf(),
            exists|now: u64|
                final(self)@ == #[trigger] old(self)@.session_complete(session_id@, now),
    {
        let now = self.clock.now();
        self.stream_scheduler.mark_session_complete_at(session_id, now);
        self.update_stats(now);
        assert(self@ == old(self)@.session_complete(session_id@, now));
    }

    /// Works through the waiting queue, at the time the manager's clock
    /// shows.
    pub fn process_pending_messages(&mut self) -> (sent: Vec<(u64, Vec<u8>)>)
        requires
            old(self)@.wf(),
        ensures
            final(self)@.wf(),
            exists|now: u64|
                {
                    &&& final(self)@ == (#[trigger] old(self)@.process_pending(now)).0
                    &&& sent_views(sent@) == old(self)@.process_pending(now).1
                },
    {
        let now = self.clock.now();
        self.process_pending_messages_at(now)
    }

    /// Works through the waiting queue at clock reading `now`: the pairs of
    /// stream and message to send.
    pub fn process_pending_messages_at(&mut self, now: u64) -> (sent: Vec<(u64, Vec<u8>)>)
        requires
            old(self)@.wf(),
        ensures
            final(self)@.wf(),
            final(self)@ == old(self)@.process_pending(now).0,
            sent_views(sent@) == old(self)@.process_pending(now).1,
            forall|i: int| 0 <= i < sent@.len() ==> !old(self)@.reserved.contains((#[trigger] sent@[i]).0),
    {
        let mut result: Vec<(u64, Vec<u8>)> = Vec::new();
        let mut remaining_messages: VecDeque<NormalMessage> = VecDeque::new();
        let ghost goal = old(self)@.retry_all(old(self)@.pending, now);
        proof {
            assert(message_views(remaining_messages@) =~= Seq::<MessageView>::empty());
            assert(sent_views(result@) =~= Seq::<(u64, Seq<u8>)>::empty());
            assert(message_views(remaining_messages@) + goal.remaining =~= goal.remaining);
            assert(sent_views(result@) + goal.sent =~= goal.sent);
            lemma_retry_all_ignores_pending(old(self)@, old(self)@, old(self)@.pending, now);
        }
        while self.pending_normal_messages.len() > 0
            invariant
                self@.wf(),
                goal.state == (ManagerState {
                    pending: old(self)@.pending,
                    ..self@.retry_all(self@.pending, now).state
                }),
                goal.remaining == message_views(remaining_messages@) + self@.retry_all(
                    self@.pending,
                    now,
                ).remaining,
                goal.sent == sent_views(result@) + self@.retry_all(self@.pending, now).sent,
                self@.pending == message_views(self.pending_normal_messages@),
            decreases self.pending_normal_messages@.len(),
        {
            let ghost before = self@;
            let ghost waiting = self@.pending;
            let ghost kept = message_views(remaining_messages@);
            let ghost gone = sent_views(result@);
            let message = self.pending_normal_messages.pop_front().unwrap();
            proof {
                assert(waiting[0] == message@);
                assert(self@.pending =~= waiting.drop_first());
            }
            let ghost lifted = self@;
            let ghost one = before.retry_one(message@, now);
            proof {
                // the messages behind this one are retried on the state that this one leaves
                lemma_retry_ignores_pending(before, lifted, message@, now);
            }
            if elapsed_between(now, message.enqueue_time) > MESSAGE_MAX_AGE || message.retry_count
                >= self.max_retry_count {
                proof {
                    assert(kept + Seq::<MessageView>::empty() =~= kept);
                    assert(gone + Seq::<(u64, Seq<u8>)>::empty() =~= gone);
                }
            } else {
                match self.find_available_stream(now) {
                    Some(stream_id) => {
                        self.stats.total_streams_allocated = self.stats.total_streams_allocated.saturating_add(
                            1,
                        );
                        let ghost data = message@.data;
                        result.push((stream_id, message.data));
                        proof {
                            assert(sent_views(result@) =~= gone + seq![(stream_id, data)]);
                            assert(kept + Seq::<MessageView>::empty() =~= kept);
                        }
                    },
                    None => {
                        let again = NormalMessage {
                            data: message.data,
                            priority: message.priority,
                            enqueue_time: message.enqueue_time,
                            retry_count: message.retry_count + 1,
                        };
                        remaining_messages.push_back(again);
                        proof {
                            assert(message_views(remaining_messages@) =~= kept + seq![again@]);
                            assert(gone + Seq::<(u64, Seq<u8>)>::empty() =~= gone);
                        }
                    },
                }
            }
            proof {
                let rest = one.state.retry_all(waiting.drop_first(), now);
                lemma_retry_all_ignores_pending(one.state, self@, waiting.drop_first(), now);
                assert(kept + (one.remaining + rest.remaining) =~= (kept + one.remaining) + rest.remaining);
                assert(gone + (one.sent + rest.sent) =~= (gone + one.sent) + rest.sent);
            }
        }
        proof {
            assert(self@.pending =~= Seq::<MessageView>::empty());
            assert(message_views(remaining_messages@) + Seq::<MessageView>::empty() =~= message_views(
                remaining_messages@,
            ));
            assert(sent_views(result@) + Seq::<(u64, Seq<u8>)>::empty() =~= sent_views(result@));
        }
        self.pending_normal_messages = remaining_messages;
        self.update_stats(now);
        proof {
            lemma_retried_streams_unreserved(old(self)@, old(self)@.pending, now);
            assert forall|i: int| 0 <= i < result@.len() implies !old(self)@.reserved.contains(
                (#[trigger] result@[i]).0,
            ) by {
                assert(sent_views(result@)[i].0 == result@[i].0);
            }
        }
        result
    }

    /// Hands out the next stream identifier of the client's own.
    pub fn get_next_client_stream_id(&mut self) -> (stream_id: u64)
        requires
            old(self)@.next_client_stream_id <= u64::MAX - STREAM_ID_STEP,
        ensures
            stream_id == old(self)@.next_client_stream_id,
            final(self)@ == (ManagerState {
                next_client_stream_id: (old(self)@.next_client_stream_id + STREAM_ID_STEP) as u64,
                ..old(self)@
            }),
    {
        let stream_id = self.next_client_stream_id;
        self.next_client_stream_id = stream_id + STREAM_ID_STEP;
        stream_id
    }

    /// Whether `stream_id` is neither reserved nor in use.
    pub fn is_stream_available(&self, stream_id: u64) -> (available: bool)
        requires
            self@.wf(),
        ensures
            available == self@.available(stream_id),
    {
        !self.reserved_streams.contains(&stream_id) && !self.stream_in_use(stream_id)
    }

    /// The counts as they were last brought up to date.
    pub fn get_stats(&self) -> (stats: ManagerStats)
        ensures
            stats == self@.stats,
    {
        self.stats
    }

    /// The scheduler's counts as text: the `Debug` form of the counts that
    /// `scheduler_stats` returns.
    pub fn get_scheduler_stats(&self) -> (text: String)
        requires
            self@.wf(),
        ensures
            text@ == stats_text(crate::stream::scheduler::counts_of(self@.scheduler)),
    {
        let stats = self.stream_scheduler.stats();
        debug_text(&stats)
    }

    /// The scheduler's counts.
    pub fn scheduler_stats(&self) -> (stats: SchedulerStats)
        requires
            self@.wf(),
        ensures
            crate::stream::scheduler::scheduler_stats_of(self@.scheduler, stats),
            stats == crate::stream::scheduler::counts_of(self@.scheduler),
    {
        self.stream_scheduler.stats()
    }

    /// Closes the idle streams of the pool, at the time the manager's clock
    /// shows.
    pub fn cleanup(&mut self)
        requires
            old(self)@.wf(),
        ensures
            final(self)@.wf(),
            exists|now: u64|
                final(self)@ == #[trigger] old(self)@.cleaned(now),
    {
        let now = self.clock.now();
        self.stream_pool.cleanup_idle_streams_at(now);
        self.update_stats(now);
        assert(self@ == old(self)@.cleaned(now));
    }
}

/// Whether `r` is the answer that a plain message is owed: the first
/// stream that is not reserved among those that the pool can hand out, with
/// the message as it came and nothing new in the waiting queue; none, and
/// the message at its place in the waiting queue, only where there is no
/// such stream.
pub open spec fn allocation_is_owed(
    before: ManagerState,
    after: ManagerState,
    data: Seq<u8>,
    priority: Priority,
    r: Option<(u64, Vec<u8>)>,
) -> bool {
    let next = next_unreserved(
        before.pool.free,
        before.pool.slots.len(),
        before.pool.next_stream_id,
        before.pool.max_streams,
        before.reserved,
    );
    match r {
        Some((id, message)) => {
            &&& next == Some(id)
            &&& !before.reserved.contains(id)
            &&& message@ == data
            &&& after.pending == before.pending
            &&& after.reserved == before.reserved
        },
        None => {
            &&& next is None
            &&& after.pending.len() == before.pending.len() + 1
            &&& after.pending[if jumps_queue(priority) {
                0
            } else {
                before.pending.len() as int
            }].data == data
            &&& after.reserved == before.reserved
        },
    }
}

/// Whether the exec answer `r` is the spec answer `s`.
pub open spec fn allocation_matches(r: Option<(u64, Vec<u8>)>, s: Option<(u64, Seq<u8>)>) -> bool {
    match r {
        Some((id, data)) => s == Some((id, data@)),
        None => s is None,
    }
}

/// Retrying one message does not read the waiting queue.
proof fn lemma_retry_ignores_pending(a: ManagerState, b: ManagerState, message: MessageView, now: u64)
    requires
        b == (ManagerState { pending: b.pending, ..a }),
    ensures
        b.retry_one(message, now).remaining == a.retry_one(message, now).remaining,
        b.retry_one(message, now).sent == a.retry_one(message, now).sent,
        b.retry_one(message, now).state == (ManagerState {
            pending: b.pending,
            ..a.retry_one(message, now).state
        }),
{
}

/// Retrying messages does not read the waiting queue.
proof fn lemma_retry_all_ignores_pending(a: ManagerState, b: ManagerState, messages: Seq<MessageView>, now: u64)
    requires
        b == (ManagerState { pending: b.pending, ..a }),
    ensures
        b.retry_all(messages, now).remaining == a.retry_all(messages, now).remaining,
        b.retry_all(messages, now).sent == a.retry_all(messages, now).sent,
        b.retry_all(messages, now).state == (ManagerState {
            pending: b.pending,
            ..a.retry_all(messages, now).state
        }),
    decreases messages.len(),
{
    if messages.len() > 0 {
        lemma_retry_ignores_pending(a, b, messages[0], now);
        lemma_retry_all_ignores_pending(
            a.retry_one(messages[0], now).state,
            b.retry_one(messages[0], now).state,
            messages.drop_first(),
            now,
        );
    }
}

/// No message that was waiting is sent on a reserved stream.
pub proof fn lemma_retried_streams_unreserved(state: ManagerState, messages: Seq<MessageView>, now: u64)
    ensures
        forall|i: int|
            0 <= i < state.retry_all(messages, now).sent.len() ==> !state.reserved.contains(
                (#[trigger] state.retry_all(messages, now).sent[i]).0,
            ),
        state.retry_all(messages, now).state.reserved == state.reserved,
    decreases messages.len(),
{
    if messages.len() > 0 {
        let one = state.retry_one(messages[0], now);
        lemma_search_finds_unreserved(state.pool, state.reserved, now);
        lemma_retried_streams_unreserved(one.state, messages.drop_first(), now);
        let rest = one.state.retry_all(messages.drop_first(), now);
        assert forall|i: int| 0 <= i < state.retry_all(messages, now).sent.len() implies !state.reserved.contains(
            (#[trigger] state.retry_all(messages, now).sent[i]).0,
        ) by {
            if i >= one.sent.len() {
                assert(state.retry_all(messages, now).sent[i] == rest.sent[i - one.sent.len()]);
            }
        }
    }
}

} // verus!
