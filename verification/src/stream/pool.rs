//! The stream pool hands out stream identifiers under a cap, keeps a
//! priority class per stream in use, and lets high-priority traffic take
//! over the least recently used low-priority stream once the cap is reached.

use std::collections::VecDeque;
use vstd::prelude::*;
use crate::clock::{elapsed, elapsed_between, Clock, NANOS_PER_SEC};

verus! {

/// Distance between two stream identifiers that one side opens.
pub const STREAM_ID_STEP: u64 = 4;

/// Default time after which a free stream counts as idle, in nanoseconds.
pub const DEFAULT_IDLE_TIMEOUT: u64 = 30 * NANOS_PER_SEC;

/// What a stream is doing.
#[derive(Debug, Clone, Copy, PartialEq, Eq, Structural)]
pub enum StreamState {
    /// Allocated and waiting to be used again.
    Free,
    /// In use by high-priority traffic.
    HighPriority,
    /// In use by low-priority traffic, and open to preemption.
    LowPriority,
    /// On its way out.
    Closing,
}

/// One allocated stream.
#[derive(Debug, Clone, Copy)]
pub struct StreamSlot {
    pub stream_id: u64,
    pub state: StreamState,
    /// Clock reading of the last acquisition or release.
    pub last_activity: u64,
}

/// Counts over a pool.
#[derive(Debug, Clone, Copy)]
pub struct PoolStats {
    pub total_streams: usize,
    pub free_streams: usize,
    pub high_priority_streams: usize,
    pub low_priority_streams: usize,
    pub max_streams: usize,
}

/// The class that an acquisition gives a stream.
pub open spec fn used_state(is_high_priority: bool) -> StreamState {
    if is_high_priority {
        StreamState::HighPriority
    } else {
        StreamState::LowPriority
    }
}

/// Whether `id` is allocated.
pub open spec fn has_slot(slots: Seq<StreamSlot>, id: u64) -> bool {
    exists|i: int| 0 <= i < slots.len() && (#[trigger] slots[i]).stream_id == id
}

/// Where the slot of `id` stands, if `id` is allocated.
pub open spec fn slot_of(slots: Seq<StreamSlot>, id: u64) -> int {
    choose|i: int| 0 <= i < slots.len() && (#[trigger] slots[i]).stream_id == id
}

/// No identifier is allocated twice.
pub open spec fn distinct_ids(slots: Seq<StreamSlot>) -> bool {
    forall|i: int, j: int|
        0 <= i < j < slots.len() ==> (#[trigger] slots[i]).stream_id != (#[trigger] slots[j]).stream_id
}

/// Among the first `n` slots, the low-priority one that was active least
/// recently; of several such, the one allocated first.
pub open spec fn lru_low(slots: Seq<StreamSlot>, n: int) -> Option<int>
    decreases n,
{
    if n <= 0 {
        None
    } else {
        let before = lru_low(slots, n - 1);
        if slots[n - 1].state == StreamState::LowPriority && (before is None || slots[n - 1].last_activity
            < slots[before.unwrap()].last_activity) {
            Some(n - 1)
        } else {
            before
        }
    }
}

/// How many slots are in `state`.
pub open spec fn count_state(slots: Seq<StreamSlot>, state: StreamState) -> nat
    decreases slots.len(),
{
    if slots.len() == 0 {
        0
    } else {
        count_state(slots.drop_last(), state) + if slots.last().state == state {
            1nat
        } else {
            0nat
        }
    }
}

/// Whether a slot is free and was last active more than `timeout` before
/// `now`.
pub open spec fn is_idle(slot: StreamSlot, timeout: u64, now: u64) -> bool {
    slot.state == StreamState::Free && elapsed(now, slot.last_activity) > timeout
}

/// The identifiers of the idle slots, in the order of the slots.
pub open spec fn idle_ids(slots: Seq<StreamSlot>, timeout: u64, now: u64) -> Seq<u64>
    decreases slots.len(),
{
    if slots.len() == 0 {
        Seq::<u64>::empty()
    } else if is_idle(slots.last(), timeout, now) {
        idle_ids(slots.drop_last(), timeout, now).push(slots.last().stream_id)
    } else {
        idle_ids(slots.drop_last(), timeout, now)
    }
}

/// A pool as a value: the allocated streams in the order of their
/// allocation, and the free ones in the order of their release.
#[verifier::ext_equal]
pub struct PoolState {
    pub slots: Seq<StreamSlot>,
    pub free: Seq<u64>,
    pub next_stream_id: u64,
    pub max_streams: usize,
    pub idle_timeout: u64,
}

impl PoolState {
    /// What every pool keeps: identifiers are allocated once, are multiples
    /// of four and lie below the next one to mint, the free queue names each
    /// free stream once and nothing else, no stream is closing, and the cap
    /// holds.
    pub open spec fn wf(self) -> bool {
        &&& distinct_ids(self.slots)
        &&& self.free.no_duplicates()
        &&& forall|k: int| 0 <= k < self.free.len() ==> has_slot(self.slots, #[trigger] self.free[k])
        &&& forall|i: int|
            0 <= i < self.slots.len() ==> ((#[trigger] self.slots[i]).state == StreamState::Free
                <==> self.free.contains(self.slots[i].stream_id))
        &&& forall|i: int|
            0 <= i < self.slots.len() ==> (#[trigger] self.slots[i]).state != StreamState::Closing
        &&& forall|i: int|
            0 <= i < self.slots.len() ==> (#[trigger] self.slots[i]).stream_id < self.next_stream_id
        &&& forall|i: int|
            0 <= i < self.slots.len() ==> (#[trigger] self.slots[i]).stream_id % STREAM_ID_STEP == 0
        &&& self.next_stream_id % STREAM_ID_STEP == 0
        &&& self.slots.len() <= self.max_streams
    }

    /// The class of `id`, or `None` where `id` is not allocated.
    pub open spec fn state_of(self, id: u64) -> Option<StreamState> {
        if has_slot(self.slots, id) {
            Some(self.slots[slot_of(self.slots, id)].state)
        } else {
            None
        }
    }

    /// The slots with `id`, if allocated, put into `state` at `now`.
    pub open spec fn marked(self, id: u64, state: StreamState, now: u64) -> Seq<StreamSlot> {
        if has_slot(self.slots, id) {
            self.slots.update(
                slot_of(self.slots, id),
                StreamSlot { stream_id: id, state, last_activity: now },
            )
        } else {
            self.slots
        }
    }

    /// Whether a new identifier can be minted.
    pub open spec fn can_mint(self) -> bool {
        self.slots.len() < self.max_streams && self.next_stream_id <= u64::MAX - STREAM_ID_STEP
    }

    /// Acquiring a stream at `now`: the stream at the head of the free queue;
    /// else a new one while the cap allows; else, for high priority, the
    /// least recently used low-priority stream; else none.
    pub open spec fn acquire(self, is_high_priority: bool, now: u64) -> (PoolState, Option<u64>) {
        if self.free.len() > 0 {
            (
                PoolState {
                    slots: self.marked(self.free[0], used_state(is_high_priority), now),
                    free: self.free.drop_first(),
                    ..self
                },
                Some(self.free[0]),
            )
        } else if self.can_mint() {
            (
                PoolState {
                    slots: self.slots.push(
                        StreamSlot {
                            stream_id: self.next_stream_id,
                            state: used_state(is_high_priority),
                            last_activity: now,
                        },
                    ),
                    next_stream_id: (self.next_stream_id + STREAM_ID_STEP) as u64,
                    ..self
                },
                Some(self.next_stream_id),
            )
        } else if is_high_priority && lru_low(self.slots, self.slots.len() as int) is Some {
            let victim = lru_low(self.slots, self.slots.len() as int).unwrap();
            (
                PoolState {
                    slots: self.slots.update(
                        victim,
                        StreamSlot {
                            stream_id: self.slots[victim].stream_id,
                            state: StreamState::HighPriority,
                            last_activity: now,
                        },
                    ),
                    ..self
                },
                Some(self.slots[victim].stream_id),
            )
        } else {
            (self, None)
        }
    }

    /// Whether `id` is in use.
    pub open spec fn in_use(self, id: u64) -> bool {
        self.state_of(id) == Some(StreamState::HighPriority) || self.state_of(id) == Some(
            StreamState::LowPriority,
        )
    }

    /// Releasing `id` at `now`: a stream in use becomes free and joins the
    /// end of the free queue; anything else changes nothing.
    pub open spec fn release(self, id: u64, now: u64) -> PoolState {
        if self.in_use(id) {
            PoolState { slots: self.marked(id, StreamState::Free, now), free: self.free.push(id), ..self }
        } else {
            self
        }
    }

    /// Closing `id`: the stream leaves the pool, whatever it was doing.
    pub open spec fn close(self, id: u64) -> PoolState {
        PoolState {
            slots: if has_slot(self.slots, id) {
                self.slots.remove(slot_of(self.slots, id))
            } else {
                self.slots
            },
            free: if self.free.contains(id) {
                self.free.remove(self.free.index_of(id))
            } else {
                self.free
            },
            ..self
        }
    }

    /// Closing each of `ids` in turn.
    pub open spec fn close_all(self, ids: Seq<u64>) -> PoolState
        decreases ids.len(),
    {
        if ids.len() == 0 {
            self
        } else {
            self.close(ids[0]).close_all(ids.drop_first())
        }
    }

    /// Closing every stream that is idle at `now`.
    pub open spec fn cleanup_idle(self, now: u64) -> PoolState {
        self.close_all(idle_ids(self.slots, self.idle_timeout, now))
    }
}

/// The pool without streams, of at most `max_streams` streams.
pub open spec fn empty_pool(max_streams: usize) -> PoolState {
    PoolState {
        slots: Seq::<StreamSlot>::empty(),
        free: Seq::<u64>::empty(),
        next_stream_id: 0,
        max_streams,
        idle_timeout: DEFAULT_IDLE_TIMEOUT,
    }
}

/// The counts over a pool.
pub open spec fn stats_of(state: PoolState, stats: PoolStats) -> bool {
    &&& stats.total_streams == state.slots.len()
    &&& stats.free_streams == state.free.len()
    &&& stats.high_priority_streams == count_state(state.slots, StreamState::HighPriority)
    &&& stats.low_priority_streams == count_state(state.slots, StreamState::LowPriority)
    &&& stats.max_streams == state.max_streams
}

/// In a pool that is well formed, the slot found for an identifier is the
/// slot that holds it.
pub proof fn lemma_slot_of(slots: Seq<StreamSlot>, i: int)
    requires
        distinct_ids(slots),
        0 <= i < slots.len(),
    ensures
        has_slot(slots, slots[i].stream_id),
        slot_of(slots, slots[i].stream_id) == i,
{
    let id = slots[i].stream_id;
    let j = slot_of(slots, id);
    assert(0 <= j < slots.len() && slots[j].stream_id == id);
    if j < i {
        assert(slots[j].stream_id != slots[i].stream_id);
    } else if i < j {
        assert(slots[i].stream_id != slots[j].stream_id);
    }
}

/// The stream chosen for preemption is a low-priority one, and no
/// low-priority stream was active earlier than it.
pub proof fn lemma_lru_low_is_least_recent(slots: Seq<StreamSlot>, n: int)
    requires
        0 <= n <= slots.len(),
    ensures
        match lru_low(slots, n) {
            Some(v) => {
                &&& 0 <= v < n
                &&& slots[v].state == StreamState::LowPriority
                &&& forall|j: int|
                    0 <= j < n && (#[trigger] slots[j]).state == StreamState::LowPriority
                        ==> slots[v].last_activity <= slots[j].last_activity
            },
            None => forall|j: int| 0 <= j < n ==> (#[trigger] slots[j]).state != StreamState::LowPriority,
        },
    decreases n,
{
    if n > 0 {
        lemma_lru_low_is_least_recent(slots, n - 1);
    }
}

/// A high-priority acquisition on a pool that has no free stream and can
/// mint none takes over a low-priority stream, where there is one: the
/// stream it returns was of low priority, no low-priority stream was active
/// earlier, it is of high priority afterwards, and no other stream changes.
pub proof fn lemma_preemption_takes_least_recent_low(pool: PoolState, now: u64)
    requires
        pool.free.len() == 0,
        !pool.can_mint(),
        exists|j: int| 0 <= j < pool.slots.len() && (#[trigger] pool.slots[j]).state == StreamState::LowPriority,
    ensures
        lru_low(pool.slots, pool.slots.len() as int) matches Some(victim) && {
            &&& 0 <= victim < pool.slots.len()
            &&& pool.acquire(true, now).1 == Some(pool.slots[victim].stream_id)
            &&& pool.slots[victim].state == StreamState::LowPriority
            &&& forall|j: int|
                0 <= j < pool.slots.len() && (#[trigger] pool.slots[j]).state == StreamState::LowPriority
                    ==> pool.slots[victim].last_activity <= pool.slots[j].last_activity
            &&& pool.acquire(true, now).0.slots.len() == pool.slots.len()
            &&& pool.acquire(true, now).0.slots[victim] == (StreamSlot {
                stream_id: pool.slots[victim].stream_id,
                state: StreamState::HighPriority,
                last_activity: now,
            })
            &&& forall|j: int|
                0 <= j < pool.slots.len() && j != victim ==> #[trigger] pool.acquire(true, now).0.slots[j]
                    == pool.slots[j]
        },
{
    lemma_lru_low_is_least_recent(pool.slots, pool.slots.len() as int);
}

/// Every identifier is in exactly one of four places: the free queue, the
/// high-priority class, the low-priority class, or outside the pool.
pub proof fn lemma_exclusive_membership(state: PoolState, id: u64)
    requires
        state.wf(),
    ensures
        state.free.contains(id) <==> state.state_of(id) == Some(StreamState::Free),
        state.state_of(id) is None || state.state_of(id) == Some(StreamState::Free) || state.state_of(id)
            == Some(StreamState::HighPriority) || state.state_of(id) == Some(StreamState::LowPriority),
        state.state_of(id) is None <==> !has_slot(state.slots, id),
{
    if has_slot(state.slots, id) {
        let i = slot_of(state.slots, id);
        assert(state.slots[i].stream_id == id);
    }
    if state.free.contains(id) {
        let k = choose|k: int| 0 <= k < state.free.len() && state.free[k] == id;
        assert(has_slot(state.slots, state.free[k]));
    }
}

/// In a pool that is well formed the free, the high-priority and the
/// low-priority streams are all the streams there are: the length of the
/// free queue and the two counts add up to the number of streams.
pub proof fn lemma_counts_add_up(state: PoolState)
    requires
        state.wf(),
    ensures
        state.free.len() + count_state(state.slots, StreamState::HighPriority) + count_state(
            state.slots,
            StreamState::LowPriority,
        ) == state.slots.len(),
        state.free.len() == count_state(state.slots, StreamState::Free),
        count_state(state.slots, StreamState::Closing) == 0,
    decreases state.slots.len(),
{
    if state.slots.len() == 0 {
        if state.free.len() > 0 {
            assert(has_slot(state.slots, state.free[0]));
        }
    } else {
        let last = state.slots.last();
        let at = state.slots.len() - 1;
        assert(state.slots[at] == last);
        lemma_slot_of(state.slots, at);
        lemma_close_keeps_wf(state, last.stream_id);
        let after = state.close(last.stream_id);
        assert(after.slots =~= state.slots.drop_last());
        lemma_counts_add_up(after);
        if last.state == StreamState::Free {
            assert(state.free.contains(last.stream_id));
        } else {
            assert(!state.free.contains(last.stream_id));
        }
    }
}

/// A bounded pool of stream identifiers.
pub struct StreamPool {
    slots: Vec<StreamSlot>,
    free_streams: VecDeque<u64>,
    next_stream_id: u64,
    max_streams: usize,
    idle_timeout: u64,
    clock: Clock,
}

impl View for StreamPool {
    type V = PoolState;

    closed spec fn view(&self) -> PoolState {
        PoolState {
            slots: self.slots@,
            free: self.free_streams@,
            next_stream_id: self.next_stream_id,
            max_streams: self.max_streams,
            idle_timeout: self.idle_timeout,
        }
    }
}

impl StreamPool {
    /// An empty pool of at most `max_streams` streams. Free streams count as
    /// idle after 30 seconds.
    pub fn new(max_streams: usize) -> (pool: Self)
        ensures
            pool@.wf(),
            pool@ == empty_pool(max_streams),
    {
        StreamPool {
            slots: Vec::new(),
            free_streams: VecDeque::new(),
            next_stream_id: 0,
            max_streams,
            idle_timeout: DEFAULT_IDLE_TIMEOUT,
            clock: Clock::start(),
        }
    }

    /// The pool's clock, read now.
    pub fn now(&self) -> (now: u64) {
        self.clock.now()
    }

    /// Acquires a stream at the time the pool's clock shows.
    pub fn acquire_stream(&mut self, is_high_priority: bool) -> (r: Option<u64>)
        requires
            old(self)@.wf(),
        ensures
            final(self)@.wf(),
            exists|now: u64| (final(self)@, r) == #[trigger] old(self)@.acquire(is_high_priority, now),
    {
        let now = self.clock.now();
        self.acquire_stream_at(is_high_priority, now)
    }

    /// Acquires a stream at clock reading `now`.
    pub fn acquire_stream_at(&mut self, is_high_priority: bool, now: u64) -> (r: Option<u64>)
        requires
            old(self)@.wf(),
        ensures
            final(self)@.wf(),
            (final(self)@, r) == old(self)@.acquire(is_high_priority, now),
    {
        if let Some(stream_id) = self.free_streams.pop_front() {
            proof {
                assert(old(self)@.free[0] == stream_id);
                assert(has_slot(old(self)@.slots, old(self)@.free[0]));
                assert(self.free_streams@ =~= old(self)@.free.drop_first());
            }
            self.mark_stream_used(stream_id, is_high_priority, now);
            proof {
                let i = slot_of(old(self)@.slots, stream_id);
                lemma_slot_of(old(self)@.slots, i);
                assert forall|j: int| 0 <= j < self@.slots.len() implies ((#[trigger] self@.slots[j]).state
                    == StreamState::Free <==> self@.free.contains(self@.slots[j].stream_id)) by {
                    if j == i {
                        if self@.free.contains(stream_id) {
                            let k = choose|k: int| 0 <= k < self@.free.len() && self@.free[k] == stream_id;
                            assert(old(self)@.free[k + 1] == stream_id);
                        }
                    } else {
                        lemma_slot_of(old(self)@.slots, j);
                        let other = old(self)@.slots[j].stream_id;
                        if old(self)@.free.contains(other) {
                            let k = choose|k: int| 0 <= k < old(self)@.free.len() && old(self)@.free[k] == other;
                            assert(k != 0);
                            assert(self@.free[k - 1] == other);
                        }
                        if self@.free.contains(other) {
                            let k = choose|k: int| 0 <= k < self@.free.len() && self@.free[k] == other;
                            assert(old(self)@.free[k + 1] == other);
                        }
                    }
                }
                assert forall|k: int| 0 <= k < self@.free.len() implies has_slot(
                    self@.slots,
                    #[trigger] self@.free[k],
                ) by {
                    let id = old(self)@.free[k + 1];
                    assert(has_slot(old(self)@.slots, id));
                    let s = slot_of(old(self)@.slots, id);
                    assert(self@.slots[s].stream_id == id);
                }
                assert(distinct_ids(self@.slots));
            }
            return Some(stream_id);
        }
        if self.slots.len() < self.max_streams && self.next_stream_id <= u64::MAX - STREAM_ID_STEP {
            let stream_id = self.next_stream_id;
            self.next_stream_id = stream_id + STREAM_ID_STEP;
            self.slots.push(
                StreamSlot {
                    stream_id,
                    state: if is_high_priority {
                        StreamState::HighPriority
                    } else {
                        StreamState::LowPriority
                    },
                    last_activity: now,
                },
            );
            proof {
                assert(old(self)@.free =~= Seq::<u64>::empty());
                assert forall|k: int| 0 <= k < self@.free.len() implies has_slot(
                    self@.slots,
                    #[trigger] self@.free[k],
                ) by {}
            }
            return Some(stream_id);
        }
        if is_high_priority {
            if let Some(victim) = self.find_stream_to_preempt() {
                let stream_id = self.slots[victim].stream_id;
                proof {
                    lemma_lru_low_is_least_recent(self@.slots, self@.slots.len() as int);
                }
                self.slots.set(
                    victim,
                    StreamSlot { stream_id, state: StreamState::HighPriority, last_activity: now },
                );
                proof {
                    assert(old(self)@.free =~= Seq::<u64>::empty());
                }
                return Some(stream_id);
            }
        }
        None
    }

    /// Releases a stream at the time the pool's clock shows.
    pub fn release_stream(&mut self, stream_id: u64)
        requires
            old(self)@.wf(),
        ensures
            final(self)@.wf(),
            exists|now: u64| final(self)@ == #[trigger] old(self)@.release(stream_id, now),
    {
        let now = self.clock.now();
        self.release_stream_at(stream_id, now);
    }

    /// Releases a stream at clock reading `now`.
    pub fn release_stream_at(&mut self, stream_id: u64, now: u64)
        requires
            old(self)@.wf(),
        ensures
            final(self)@.wf(),
            final(self)@ == old(self)@.release(stream_id, now),
    {
        match self.find_slot(stream_id) {
            Some(i) => {
                let state = self.slots[i].state;
                if state == StreamState::HighPriority || state == StreamState::LowPriority {
                    self.slots.set(i, StreamSlot { stream_id, state: StreamState::Free, last_activity: now });
                    self.free_streams.push_back(stream_id);
                    proof {
                        lemma_slot_of(old(self)@.slots, i as int);
                        assert(!old(self)@.free.contains(stream_id));
                        assert forall|j: int| 0 <= j < self@.slots.len() implies ((
                        #[trigger] self@.slots[j]).state == StreamState::Free <==> self@.free.contains(
                            self@.slots[j].stream_id,
                        )) by {
                            if j == i {
                                assert(self@.free[old(self)@.free.len() as int] == stream_id);
                            } else {
                                lemma_slot_of(old(self)@.slots, j);
                                let other = old(self)@.slots[j].stream_id;
                                if old(self)@.free.contains(other) {
                                    let k = choose|k: int|
                                        0 <= k < old(self)@.free.len() && old(self)@.free[k] == other;
                                    assert(self@.free[k] == other);
                                }
                                if self@.free.contains(other) {
                                    let k = choose|k: int| 0 <= k < self@.free.len() && self@.free[k] == other;
                                    assert(old(self)@.free[k] == other);
                                }
                            }
                        }
                        assert forall|k: int| 0 <= k < self@.free.len() implies has_slot(
                            self@.slots,
                            #[trigger] self@.free[k],
                        ) by {
                            if k < old(self)@.free.len() {
                                let id = old(self)@.free[k];
                                assert(has_slot(old(self)@.slots, id));
                                let s = slot_of(old(self)@.slots, id);
                                assert(self@.slots[s].stream_id == id);
                            } else {
                                assert(self@.slots[i as int].stream_id == stream_id);
                            }
                        }
                        assert(self@.free.no_duplicates()) by {
                            assert forall|a: int, b: int|
                                0 <= a < self@.free.len() && 0 <= b < self@.free.len() && a != b implies self@.free[a]
                                != self@.free[b] by {
                                if a < old(self)@.free.len() && b < old(self)@.free.len() {
                                } else if a < old(self)@.free.len() {
                                    assert(old(self)@.free[a] == self@.free[a]);
                                } else {
                                    assert(old(self)@.free[b] == self@.free[b]);
                                }
                            }
                        }
                        assert(distinct_ids(self@.slots));
                    }
                }
            },
            None => {},
        }
    }

    /// Removes a stream from the pool, whatever it was doing.
    pub fn close_stream(&mut self, stream_id: u64)
        requires
            old(self)@.wf(),
        ensures
            final(self)@.wf(),
            final(self)@ == old(self)@.close(stream_id),
    {
        match self.find_slot(stream_id) {
            Some(i) => {
                proof {
                    lemma_slot_of(self@.slots, i as int);
                }
                self.slots.remove(i);
            },
            None => {},
        }
        let mut k: usize = 0;
        let mut found: Option<usize> = None;
        while k < self.free_streams.len()
            invariant_except_break
                forall|j: int| 0 <= j < k ==> self.free_streams@[j] != stream_id,
                found is None,
            invariant
                0 <= k <= self.free_streams@.len(),
                self.free_streams@ == old(self)@.free,
            ensures
                self.free_streams@ == old(self)@.free,
                match found {
                    Some(at) => at < self.free_streams@.len() && self.free_streams@[at as int] == stream_id,
                    None => !self.free_streams@.contains(stream_id),
                },
            decreases self.free_streams@.len() - k,
        {
            if self.free_streams[k] == stream_id {
                found = Some(k);
                break ;
            }
            k += 1;
        }
        if let Some(at) = found {
            proof {
                let idx = old(self)@.free.index_of(stream_id);
                assert(old(self)@.free.contains(stream_id));
                assert(old(self)@.free[idx] == stream_id);
                assert(idx == at);
            }
            self.free_streams.remove(at);
        }
        proof {
            lemma_close_keeps_wf(old(self)@, stream_id);
        }
    }

    /// Closes every stream that is idle at the time the pool's clock shows.
    pub fn cleanup_idle_streams(&mut self)
        requires
            old(self)@.wf(),
        ensures
            final(self)@.wf(),
            exists|now: u64| final(self)@ == #[trigger] old(self)@.cleanup_idle(now),
    {
        let now = self.clock.now();
        self.cleanup_idle_streams_at(now);
    }

    /// Closes every stream that is idle at clock reading `now`.
    pub fn cleanup_idle_streams_at(&mut self, now: u64)
        requires
            old(self)@.wf(),
        ensures
            final(self)@.wf(),
            final(self)@ == old(self)@.cleanup_idle(now),
    {
        let mut to_remove: Vec<u64> = Vec::new();
        let mut i: usize = 0;
        while i < self.slots.len()
            invariant
                0 <= i <= self.slots@.len(),
                self@ == old(self)@,
                to_remove@ == idle_ids(self.slots@.take(i as int), self.idle_timeout, now),
            decreases self.slots@.len() - i,
        {
            let slot = self.slots[i];
            proof {
                assert(self.slots@.take(i + 1).drop_last() =~= self.slots@.take(i as int));
            }
            if slot.state == StreamState::Free && elapsed_between(now, slot.last_activity) > self.idle_timeout {
                to_remove.push(slot.stream_id);
            }
            i += 1;
        }
        proof {
            assert(self.slots@.take(self.slots@.len() as int) =~= self.slots@);
        }
        proof {
            assert(to_remove@.skip(0) =~= to_remove@);
        }
        let mut n: usize = 0;
        while n < to_remove.len()
            invariant
                0 <= n <= to_remove@.len(),
                self@.wf(),
                self@.close_all(to_remove@.skip(n as int)) == old(self)@.cleanup_idle(now),
            decreases to_remove@.len() - n,
        {
            proof {
                assert(to_remove@.skip(n as int).drop_first() =~= to_remove@.skip(n + 1));
            }
            self.close_stream(to_remove[n]);
            n += 1;
        }
    }

    /// The counts over the pool.
    pub fn stats(&self) -> (stats: PoolStats)
        requires
            self@.wf(),
        ensures
            stats_of(self@, stats),
            stats.free_streams + stats.high_priority_streams + stats.low_priority_streams
                == stats.total_streams,
    {
        proof {
            lemma_counts_add_up(self@);
        }
        let mut high: usize = 0;
        let mut low: usize = 0;
        let mut i: usize = 0;
        while i < self.slots.len()
            invariant
                0 <= i <= self.slots@.len(),
                high == count_state(self.slots@.take(i as int), StreamState::HighPriority),
                low == count_state(self.slots@.take(i as int), StreamState::LowPriority),
                high <= i,
                low <= i,
            decreases self.slots@.len() - i,
        {
            proof {
                assert(self.slots@.take(i + 1).drop_last() =~= self.slots@.take(i as int));
            }
            match self.slots[i].state {
                StreamState::HighPriority => {
                    high += 1;
                },
                StreamState::LowPriority => {
                    low += 1;
                },
                _ => {},
            }
            i += 1;
        }
        proof {
            assert(self.slots@.take(self.slots@.len() as int) =~= self.slots@);
        }
        PoolStats {
            total_streams: self.slots.len(),
            free_streams: self.free_streams.len(),
            high_priority_streams: high,
            low_priority_streams: low,
            max_streams: self.max_streams,
        }
    }

    /// The class of `stream_id`, or `None` where it is not allocated.
    pub fn stream_state(&self, stream_id: u64) -> (state: Option<StreamState>)
        requires
            self@.wf(),
        ensures
            state == self@.state_of(stream_id),
    {
        match self.find_slot(stream_id) {
            Some(i) => {
                proof {
                    lemma_slot_of(self@.slots, i as int);
                }
                Some(self.slots[i].state)
            },
            None => None,
        }
    }

    /// Where the slot of `stream_id` stands.
    fn find_slot(&self, stream_id: u64) -> (found: Option<usize>)
        ensures
            match found {
                Some(i) => i < self@.slots.len() && self@.slots[i as int].stream_id == stream_id,
                None => !has_slot(self@.slots, stream_id),
            },
    {
        let mut i: usize = 0;
        while i < self.slots.len()
            invariant
                0 <= i <= self.slots@.len(),
                forall|j: int| 0 <= j < i ==> (#[trigger] self.slots@[j]).stream_id != stream_id,
            decreases self.slots@.len() - i,
        {
            if self.slots[i].stream_id == stream_id {
                return Some(i);
            }
            i += 1;
        }
        None
    }

    /// Puts an allocated stream into the class of the traffic that takes it.
    fn mark_stream_used(&mut self, stream_id: u64, is_high_priority: bool, now: u64)
        requires
            has_slot(old(self)@.slots, stream_id),
            distinct_ids(old(self)@.slots),
        ensures
            final(self)@ == (PoolState {
                slots: old(self)@.marked(stream_id, used_state(is_high_priority), now),
                ..old(self)@
            }),
    {
        let state = if is_high_priority {
            StreamState::HighPriority
        } else {
            StreamState::LowPriority
        };
        match self.find_slot(stream_id) {
            Some(i) => {
                proof {
                    lemma_slot_of(self@.slots, i as int);
                }
                self.slots.set(i, StreamSlot { stream_id, state, last_activity: now });
            },
            None => {},
        }
    }

    /// The low-priority stream that was active least recently.
    fn find_stream_to_preempt(&self) -> (victim: Option<usize>)
        ensures
            match victim {
                Some(v) => lru_low(self@.slots, self@.slots.len() as int) == Some(v as int) && v
                    < self@.slots.len(),
                None => lru_low(self@.slots, self@.slots.len() as int) is None,
            },
    {
        let mut best: Option<usize> = None;
        let mut i: usize = 0;
        while i < self.slots.len()
            invariant
                0 <= i <= self.slots@.len(),
                match best {
                    Some(b) => lru_low(self@.slots, i as int) == Some(b as int) && b < i,
                    None => lru_low(self@.slots, i as int) is None,
                },
            decreases self.slots@.len() - i,
        {
            if self.slots[i].state == StreamState::LowPriority {
                match best {
                    Some(b) => {
                        if self.slots[i].last_activity < self.slots[b].last_activity {
                            best = Some(i);
                        }
                    },
                    None => {
                        best = Some(i);
                    },
                }
            }
            i += 1;
        }
        best
    }
}

/// Closing a stream keeps a pool well formed.
pub proof fn lemma_close_keeps_wf(state: PoolState, id: u64)
    requires
        state.wf(),
    ensures
        state.close(id).wf(),
{
    let after = state.close(id);
    lemma_exclusive_membership(state, id);
    if has_slot(state.slots, id) {
        let i = slot_of(state.slots, id);
        assert(state.slots[i].stream_id == id);
        assert forall|j: int| 0 <= j < after.slots.len() implies (#[trigger] after.slots[j]).stream_id != id by {
            if j < i {
                assert(after.slots[j] == state.slots[j]);
                assert(state.slots[j].stream_id != state.slots[i].stream_id);
            } else {
                assert(after.slots[j] == state.slots[j + 1]);
                assert(state.slots[i].stream_id != state.slots[j + 1].stream_id);
            }
        }
        assert forall|a: int, b: int| 0 <= a < b < after.slots.len() implies (#[trigger] after.slots[a]).stream_id
            != (#[trigger] after.slots[b]).stream_id by {
            let a0 = if a < i {
                a
            } else {
                a + 1
            };
            let b0 = if b < i {
                b
            } else {
                b + 1
            };
            assert(after.slots[a] == state.slots[a0]);
            assert(after.slots[b] == state.slots[b0]);
            assert(state.slots[a0].stream_id != state.slots[b0].stream_id);
        }
    } else {
        assert forall|j: int| 0 <= j < after.slots.len() implies (#[trigger] after.slots[j]).stream_id != id by {
            if after.slots[j].stream_id == id {
                assert(state.slots[j].stream_id == id);
                assert(has_slot(state.slots, id));
            }
        }
    }
    if state.free.contains(id) {
        let at = state.free.index_of(id);
        assert(state.free[at] == id);
        assert forall|k: int| 0 <= k < after.free.len() implies (#[trigger] after.free[k]) != id by {
            if k < at {
                assert(after.free[k] == state.free[k]);
            } else {
                assert(after.free[k] == state.free[k + 1]);
            }
        }
        assert(after.free.no_duplicates()) by {
            assert forall|a: int, b: int|
                0 <= a < after.free.len() && 0 <= b < after.free.len() && a != b implies after.free[a]
                != after.free[b] by {
                let a0 = if a < at {
                    a
                } else {
                    a + 1
                };
                let b0 = if b < at {
                    b
                } else {
                    b + 1
                };
                assert(after.free[a] == state.free[a0]);
                assert(after.free[b] == state.free[b0]);
            }
        }
    }
    assert forall|k: int| 0 <= k < after.free.len() implies has_slot(after.slots, #[trigger] after.free[k]) by {
        let other = after.free[k];
        assert(other != id);
        let k0 = if state.free.contains(id) && k >= state.free.index_of(id) {
            k + 1
        } else {
            k
        };
        assert(state.free[k0] == other);
        assert(has_slot(state.slots, state.free[k0]));
        let s = slot_of(state.slots, other);
        assert(state.slots[s].stream_id == other);
        if has_slot(state.slots, id) {
            let i = slot_of(state.slots, id);
            assert(state.slots[i].stream_id == id);
            if s < i {
                assert(after.slots[s].stream_id == other);
            } else {
                assert(after.slots[s - 1].stream_id == other);
            }
        } else {
            assert(after.slots[s].stream_id == other);
        }
    }
    assert forall|j: int| 0 <= j < after.slots.len() implies ((#[trigger] after.slots[j]).state
        == StreamState::Free <==> after.free.contains(after.slots[j].stream_id)) by {
        let j0 = if has_slot(state.slots, id) && j >= slot_of(state.slots, id) {
            j + 1
        } else {
            j
        };
        assert(after.slots[j] == state.slots[j0]);
        let other = state.slots[j0].stream_id;
        assert(other != id);
        if state.free.contains(other) {
            let k = choose|k: int| 0 <= k < state.free.len() && state.free[k] == other;
            if state.free.contains(id) {
                let at = state.free.index_of(id);
                assert(state.free[at] == id);
                if k < at {
                    assert(after.free[k] == other);
                } else {
                    assert(after.free[k - 1] == other);
                }
            } else {
                assert(after.free[k] == other);
            }
        }
        if after.free.contains(other) {
            let k = choose|k: int| 0 <= k < after.free.len() && after.free[k] == other;
            let k0 = if state.free.contains(id) && k >= state.free.index_of(id) {
                k + 1
            } else {
                k
            };
            assert(state.free[k0] == other);
        }
    }
    assert forall|j: int| 0 <= j < after.slots.len() implies (#[trigger] after.slots[j]).state
        != StreamState::Closing && after.slots[j].stream_id < after.next_stream_id by {
        let j0 = if has_slot(state.slots, id) && j >= slot_of(state.slots, id) {
            j + 1
        } else {
            j
        };
        assert(after.slots[j] == state.slots[j0]);
    }
}

} // verus!
