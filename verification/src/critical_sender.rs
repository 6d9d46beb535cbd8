//! The sender of critical messages: a message is cut into shards, and each
//! shard gets a stream of the connection it is to travel on.

use vstd::prelude::*;
use crate::fec::codec::FecError;
use crate::fec::encoder::{encoded_frames, fresh_session_id, FECEncoder, MAX_MESSAGE_LEN};
use crate::stream::manager::{debug_text, stats_text};
use crate::stream::scheduler::{dispatch_views, release_all, SchedulerState, StreamScheduler};
use crate::whisper::{copy_frame, frame_views, FecFrame, FecFrameView, FecWhisper, Priority};

verus! {

/// Why a critical message could not be prepared.
#[derive(Debug, Clone, Copy, PartialEq, Eq, Structural)]
pub enum SenderError {
    /// The message could not be cut into shards.
    Encoding(FecError),
    /// The connection was never registered.
    NotRegistered(u64),
    /// The connection has too few streams for all shards.
    AllocationFailed { needed: usize, allocated: usize },
}

/// A connection as a value: its identifier and its scheduler.
pub struct ConnectionView {
    pub id: u64,
    pub scheduler: SchedulerState,
}

/// A registered connection.
struct Connection {
    id: u64,
    scheduler: StreamScheduler,
}

impl View for Connection {
    type V = ConnectionView;

    closed spec fn view(&self) -> ConnectionView {
        ConnectionView { id: self.id, scheduler: self.scheduler@ }
    }
}

/// The index of the first connection from `from` on with identifier `id`.
pub open spec fn first_connection(connections: Seq<ConnectionView>, id: u64, from: int) -> Option<int>
    decreases connections.len() - from,
{
    if from < 0 || from >= connections.len() {
        None
    } else if connections[from].id == id {
        Some(from)
    } else {
        first_connection(connections, id, from + 1)
    }
}

/// The streams of a list of pairs.
pub open spec fn streams_of(pairs: Seq<(u64, FecFrameView)>) -> Seq<u64> {
    Seq::new(pairs.len(), |i: int| pairs[i].0)
}

/// What the rounds of allocation give: the scheduler afterwards and the
/// streams that were found, or none where a round came back empty.
pub struct Allocation {
    pub scheduler: SchedulerState,
    pub streams: Option<Seq<u64>>,
}

/// Up to `rounds` rounds of allocation at `now`, with `allocated` found
/// before: each round submits the shards as a task and runs the scheduler
/// once; the streams that the round dispatched on are noted and released
/// again at once. The rounds end when as many streams are noted as there are
/// shards. A round without a stream releases what was noted and gives up.
pub open spec fn allocation_rounds(
    scheduler: SchedulerState,
    frames: Seq<FecFrameView>,
    session_id: Seq<u8>,
    priority: Priority,
    now: u64,
    rounds: nat,
    allocated: Seq<u64>,
) -> Allocation
    decreases rounds,
{
    if rounds == 0 || allocated.len() >= frames.len() {
        Allocation { scheduler, streams: Some(allocated) }
    } else {
        let round = scheduler.submit(frames, session_id, priority, now).try_send(now);
        if round.dispatched.len() == 0 {
            Allocation {
                scheduler: SchedulerState {
                    pool: release_all(round.state.pool, allocated, now),
                    ..round.state
                },
                streams: None,
            }
        } else {
            allocation_rounds(
                SchedulerState {
                    pool: release_all(round.state.pool, streams_of(round.dispatched), now),
                    ..round.state
                },
                frames,
                session_id,
                priority,
                now,
                (rounds - 1) as nat,
                allocated + streams_of(round.dispatched),
            )
        }
    }
}

/// What preparing a message gives on a connection's scheduler: the scheduler
/// afterwards, and the pairs of stream and shard, shard `i` on the `i`-th
/// stream that was found.
pub open spec fn prepared(
    scheduler: SchedulerState,
    frames: Seq<FecFrameView>,
    session_id: Seq<u8>,
    priority: Priority,
    now: u64,
) -> (SchedulerState, Result<Seq<(u64, FecFrameView)>, SenderError>) {
    let allocation = allocation_rounds(
        scheduler,
        frames,
        session_id,
        priority,
        now,
        frames.len(),
        Seq::<u64>::empty(),
    );
    match allocation.streams {
        None => (
            allocation.scheduler,
            Err(SenderError::AllocationFailed { needed: frames.len() as usize, allocated: 0 }),
        ),
        Some(streams) => if streams.len() < frames.len() {
            (
                SchedulerState {
                    pool: release_all(allocation.scheduler.pool, streams, now),
                    ..allocation.scheduler
                },
                Err(
                    SenderError::AllocationFailed {
                        needed: frames.len() as usize,
                        allocated: streams.len() as usize,
                    },
                ),
            )
        } else {
            (allocation.scheduler, Ok(Seq::new(frames.len(), |i: int| (streams[i], frames[i]))))
        },
    }
}

/// A sender as a value.
pub struct SenderState {
    pub connections: Seq<ConnectionView>,
    pub default_k: usize,
    pub default_m: usize,
    pub max_streams_per_conn: usize,
}

impl SenderState {
    /// What every sender keeps: each connection's scheduler is well formed.
    pub open spec fn wf(self) -> bool {
        forall|i: int| 0 <= i < self.connections.len() ==> (#[trigger] self.connections[i]).scheduler.wf()
    }

    /// Whether a connection is registered.
    pub open spec fn is_registered(self, id: u64) -> bool {
        first_connection(self.connections, id, 0) is Some
    }
}

/// Pairs of stream and envelope payload as values.
pub open spec fn whisper_views(pairs: Seq<(u64, FecWhisper)>) -> Seq<(u64, Option<FecFrameView>)> {
    Seq::new(
        pairs.len(),
        |i: int|
            (
                pairs[i].0,
                match pairs[i].1.fec_frame {
                    Some(frame) => Some(frame@),
                    None => None,
                },
            ),
    )
}

/// The pairs that go out for the pairs of stream and shard.
pub open spec fn wrapped(pairs: Seq<(u64, FecFrameView)>) -> Seq<(u64, Option<FecFrameView>)> {
    Seq::new(pairs.len(), |i: int| (pairs[i].0, Some(pairs[i].1)))
}

/// Connections as values.
spec fn connection_views(connections: Seq<Connection>) -> Seq<ConnectionView> {
    Seq::new(connections.len(), |i: int| connections[i]@)
}

/// Copies of shards.
fn copy_frames(frames: &Vec<FecFrame>) -> (copies: Vec<FecFrame>)
    ensures
        frame_views(copies@) == frame_views(frames@),
{
    let mut copies: Vec<FecFrame> = Vec::new();
    let mut i: usize = 0;
    while i < frames.len()
        invariant
            0 <= i <= frames@.len(),
            copies@.len() == i,
            forall|j: int| 0 <= j < i ==> (#[trigger] copies@[j])@ == frames@[j]@,
        decreases frames@.len() - i,
    {
        copies.push(copy_frame(&frames[i]));
        i += 1;
    }
    assert(frame_views(copies@) =~= frame_views(frames@));
    copies
}

/// Prepares critical messages for the connections that were registered.
pub struct CriticalSender {
    encoder: FECEncoder,
    connections: Vec<Connection>,
    default_k: usize,
    default_m: usize,
    max_streams_per_conn: usize,
}

impl View for CriticalSender {
    type V = SenderState;

    closed spec fn view(&self) -> SenderState {
        SenderState {
            connections: connection_views(self.connections@),
            default_k: self.default_k,
            default_m: self.default_m,
            max_streams_per_conn: self.max_streams_per_conn,
        }
    }
}

impl CriticalSender {
    /// What every sender keeps: its encoder and its connections' schedulers
    /// are well formed, and the encoder cuts into `default_k` and `default_m`
    /// shards.
    pub closed spec fn wf(&self) -> bool {
        &&& self@.wf()
        &&& self.encoder.wf()
        &&& self.encoder.data_shards() == self.default_k
        &&& self.encoder.parity_shards() == self.default_m
    }

    /// A sender without connections that cuts messages into `default_k` data
    /// shards and `default_m` parity shards. Fails where no such code
    /// exists.
    pub fn new(default_k: usize, default_m: usize, max_streams_per_conn: usize) -> (r: Result<Self, FecError>)
        ensures
            match r {
                Ok(sender) => {
                    &&& sender.wf()
                    &&& crate::fec::codec::codec_accepts(default_k as nat, default_m as nat)
                    &&& sender@ == (SenderState {
                        connections: Seq::<ConnectionView>::empty(),
                        default_k,
                        default_m,
                        max_streams_per_conn,
                    })
                },
                Err(e) => !crate::fec::codec::codec_accepts(default_k as nat, default_m as nat) && e
                    == FecError::InvalidParameters,
            },
    {
        match FECEncoder::new(default_k, default_m) {
            Ok(encoder) => {
                let sender = CriticalSender {
                    encoder,
                    connections: Vec::new(),
                    default_k,
                    default_m,
                    max_streams_per_conn,
                };
                assert(sender@.connections =~= Seq::<ConnectionView>::empty());
                Ok(sender)
            },
            Err(e) => Err(e),
        }
    }

    /// The index of the connection with identifier `id`.
    fn find_connection(&self, id: u64) -> (found: Option<usize>)
        ensures
            match found {
                Some(at) => first_connection(self@.connections, id, 0) == Some(at as int) && at
                    < self.connections@.len(),
                None => first_connection(self@.connections, id, 0) is None,
            },
    {
        let mut i: usize = 0;
        while i < self.connections.len()
            invariant
                0 <= i <= self.connections@.len(),
                first_connection(self@.connections, id, 0) == first_connection(self@.connections, id, i as int),
            decreases self.connections@.len() - i,
        {
            assert(self@.connections[i as int] == self.connections@[i as int]@);
            if self.connections[i].id == id {
                return Some(i);
            }
            i += 1;
        }
        None
    }

    /// Registers a connection with a scheduler of its own. A connection that
    /// is registered already stays as it is.
    pub fn register_connection(&mut self, connection_id: u64)
        requires
            old(self).wf(),
        ensures
            final(self).wf(),
            final(self)@.is_registered(connection_id),
            old(self)@.is_registered(connection_id) ==> final(self)@ == old(self)@,
            !old(self)@.is_registered(connection_id) ==> final(self)@ == (SenderState {
                connections: old(self)@.connections.push(
                    ConnectionView {
                        id: connection_id,
                        scheduler: crate::stream::scheduler::empty_scheduler(old(self)@.max_streams_per_conn),
                    },
                ),
                ..old(self)@
            }),
    {
        match self.find_connection(connection_id) {
            Some(at) => {},
            None => {
                let ghost listed = self@.connections;
                let scheduler = StreamScheduler::new(self.max_streams_per_conn);
                self.connections.push(Connection { id: connection_id, scheduler });
                proof {
                    assert(self@.connections =~= listed.push(
                        ConnectionView {
                            id: connection_id,
                            scheduler: crate::stream::scheduler::empty_scheduler(self.max_streams_per_conn),
                        },
                    ));
                    lemma_last_connection_found(self@.connections, connection_id, 0);
                    assert forall|i: int| 0 <= i < self@.connections.len() implies (
                    #[trigger] self@.connections[i]).scheduler.wf() by {
                        if i < listed.len() {
                            assert(self@.connections[i] == listed[i]);
                        }
                    }
                }
            },
        }
    }

    /// Prepares a critical message with a fresh session identifier, at the
    /// time the connection's clock shows.
    pub fn prepare_critical_message(&mut self, conn_id: u64, data: &[u8], priority: Priority) -> (r: Result<
        Vec<(u64, FecWhisper)>,
        SenderError,
    >)
        requires
            old(self).wf(),
        ensures
            final(self).wf(),
            data@.len() > MAX_MESSAGE_LEN ==> r == Err::<Vec<(u64, FecWhisper)>, SenderError>(
                SenderError::Encoding(FecError::InputTooLarge),
            ) && final(self)@ == old(self)@,
            data@.len() <= MAX_MESSAGE_LEN && !old(self)@.is_registered(conn_id) ==> r == Err::<
                Vec<(u64, FecWhisper)>,
                SenderError,
            >(SenderError::NotRegistered(conn_id)) && final(self)@ == old(self)@,
            data@.len() <= MAX_MESSAGE_LEN && old(self)@.is_registered(conn_id) ==> exists|
                session_id: Seq<u8>,
                now: u64,
            |
                #[trigger] outcome_matches(
                    old(self)@,
                    final(self)@,
                    r,
                    conn_id,
                    encoded_frames(
                        old(self)@.default_k as nat,
                        old(self)@.default_m as nat,
                        session_id,
                        data@,
                    ),
                    session_id,
                    priority,
                    now,
                ),
    {
        let session_id = fresh_session_id();
        let now = match self.find_connection(conn_id) {
            Some(at) => self.connections[at].scheduler.now(),
            None => 0,
        };
        let r = self.prepare_critical_message_at(conn_id, data, priority, session_id, now);
        proof {
            if data@.len() <= MAX_MESSAGE_LEN && old(self)@.is_registered(conn_id) {
                assert(outcome_matches(
                    old(self)@,
                    self@,
                    r,
                    conn_id,
                    encoded_frames(
                        old(self)@.default_k as nat,
                        old(self)@.default_m as nat,
                        session_id@,
                        data@,
                    ),
                    session_id@,
                    priority,
                    now,
                ));
            }
        }
        r
    }

    /// Prepares a critical message under `session_id` at clock reading
    /// `now`: the message is cut into shards, the connection's scheduler
    /// finds one stream per shard in rounds, and shard `i` comes back with
    /// the `i`-th stream.
    pub fn prepare_critical_message_at(
        &mut self,
        conn_id: u64,
        data: &[u8],
        priority: Priority,
        session_id: [u8; 16],
        now: u64,
    ) -> (r: Result<Vec<(u64, FecWhisper)>, SenderError>)
        requires
            old(self).wf(),
        ensures
            final(self).wf(),
            data@.len() > MAX_MESSAGE_LEN ==> r == Err::<Vec<(u64, FecWhisper)>, SenderError>(
                SenderError::Encoding(FecError::InputTooLarge),
            ) && final(self)@ == old(self)@,
            data@.len() <= MAX_MESSAGE_LEN && !old(self)@.is_registered(conn_id) ==> r == Err::<
                Vec<(u64, FecWhisper)>,
                SenderError,
            >(SenderError::NotRegistered(conn_id)) && final(self)@ == old(self)@,
            data@.len() <= MAX_MESSAGE_LEN && old(self)@.is_registered(conn_id) ==> outcome_matches(
                old(self)@,
                final(self)@,
                r,
                conn_id,
                encoded_frames(old(self)@.default_k as nat, old(self)@.default_m as nat, session_id@, data@),
                session_id@,
                priority,
                now,
            ),
    {
        let frames = match self.encoder.encode_with_session(data, session_id) {
            Ok(frames) => frames,
            Err(e) => {
                return Err(SenderError::Encoding(e));
            },
        };
        let at = match self.find_connection(conn_id) {
            Some(at) => at,
            None => {
                return Err(SenderError::NotRegistered(conn_id));
            },
        };
        let ghost listed = self@.connections;
        let ghost shards = frame_views(frames@);
        let connection = self.connections.remove(at);
        assert(connection@ == listed[at as int]);
        let Connection { id, scheduler } = connection;
        let mut scheduler = scheduler;
        let ghost start = scheduler@;
        let total_frames = frames.len();
        let found = allocate_in_rounds(&mut scheduler, &frames, session_id, priority, now);
        let failed = found.is_none();
        let allocated_streams: Vec<u64> = match found {
            Some(streams) => streams,
            None => Vec::new(),
        };
        let ghost allocation = allocation_rounds(
            start,
            shards,
            session_id@,
            priority,
            now,
            total_frames as nat,
            Seq::<u64>::empty(),
        );
        let result = if failed {
            Err(SenderError::AllocationFailed { needed: total_frames, allocated: 0 })
        } else if allocated_streams.len() < total_frames {
            release_streams(&mut scheduler, &allocated_streams, now);
            Err(SenderError::AllocationFailed { needed: total_frames, allocated: allocated_streams.len() })
        } else {
            let mut pairs: Vec<(u64, FecWhisper)> = Vec::new();
            let mut i: usize = 0;
            while i < total_frames
                invariant
                    0 <= i <= total_frames,
                    total_frames == frames@.len(),
                    total_frames <= allocated_streams@.len(),
                    shards == frame_views(frames@),
                    pairs@.len() == i,
                    forall|j: int|
                        0 <= j < i ==> (#[trigger] pairs@[j]).0 == allocated_streams@[j] && pairs@[j].1.fec_frame
                            is Some && pairs@[j].1.fec_frame.unwrap()@ == shards[j],
                decreases total_frames - i,
            {
                let frame = copy_frame(&frames[i]);
                assert(frame@ == shards[i as int]);
                pairs.push((allocated_streams[i], FecWhisper { fec_frame: Some(frame) }));
                i += 1;
            }
            proof {
                assert(whisper_views(pairs@) =~= wrapped(
                    Seq::new(shards.len(), |i: int| (allocated_streams@[i], shards[i])),
                ));
            }
            Ok(pairs)
        };
        self.connections.insert(at, Connection { id, scheduler });
        proof {
            let after = self@.connections;
            assert(after.len() == listed.len());
            assert forall|i: int| 0 <= i < after.len() && i != at implies after[i] == listed[i] by {
                if i < at {
                    assert(self.connections@[i] == old(self).connections@[i]);
                } else {
                    assert(self.connections@[i] == old(self).connections@[i]);
                }
            }
            assert forall|i: int| 0 <= i < after.len() implies (#[trigger] after[i]).scheduler.wf() by {
                if i != at {
                    assert(after[i] == listed[i]);
                }
            }
            assert(after =~= listed.update(
                at as int,
                ConnectionView { id: listed[at as int].id, scheduler: after[at as int].scheduler },
            ));
        }
        result
    }

    /// A shard was sent on `stream_id` of a connection: the stream is
    /// released.
    pub fn mark_frame_sent(&mut self, conn_id: u64, stream_id: u64) -> (r: Result<(), SenderError>)
        requires
            old(self).wf(),
        ensures
            final(self).wf(),
            r is Ok <==> old(self)@.is_registered(conn_id),
            r matches Err(e) ==> e == SenderError::NotRegistered(conn_id) && final(self)@ == old(self)@,
            r is Ok ==> exists|now: u64|
                final(self)@.connections == old(self)@.connections.update(
                    first_connection(old(self)@.connections, conn_id, 0).unwrap(),
                    ConnectionView {
                        id: conn_id,
                        scheduler: #[trigger] old(self)@.connections[first_connection(
                            old(self)@.connections,
                            conn_id,
                            0,
                        ).unwrap()].scheduler.frame_sent(stream_id, now),
                    },
                ),
    {
        match self.find_connection(conn_id) {
            Some(at) => {
                let ghost listed = self@.connections;
                let connection = self.connections.remove(at);
                assert(connection@ == listed[at as int]);
                let Connection { id, scheduler } = connection;
                let mut scheduler = scheduler;
                let now = scheduler.now();
                scheduler.mark_frame_sent_at(stream_id, now);
                self.connections.insert(at, Connection { id, scheduler });
                proof {
                    lemma_first_connection_id(listed, conn_id, 0);
                    let after = self@.connections;
                    assert forall|i: int| 0 <= i < after.len() && i != at implies after[i] == listed[i] by {
                        assert(self.connections@[i] == old(self).connections@[i]);
                    }
                    assert(after =~= listed.update(
                        at as int,
                        ConnectionView {
                            id: conn_id,
                            scheduler: listed[at as int].scheduler.frame_sent(stream_id, now),
                        },
                    ));
                    assert forall|i: int| 0 <= i < after.len() implies (#[trigger] after[i]).scheduler.wf() by {
                        if i != at {
                            assert(after[i] == listed[i]);
                        }
                    }
                }
                Ok(())
            },
            None => Err(SenderError::NotRegistered(conn_id)),
        }
    }

    /// A session is complete on a connection: the streams of its last
    /// dispatch are released.
    pub fn mark_session_complete(&mut self, conn_id: u64, session_id: [u8; 16]) -> (r: Result<(), SenderError>)
        requires
            old(self).wf(),
        ensures
            final(self).wf(),
            r is Ok <==> old(self)@.is_registered(conn_id),
            r matches Err(e) ==> e == SenderError::NotRegistered(conn_id) && final(self)@ == old(self)@,
            r is Ok ==> exists|now: u64|
                final(self)@.connections == old(self)@.connections.update(
                    first_connection(old(self)@.connections, conn_id, 0).unwrap(),
                    ConnectionView {
                        id: conn_id,
                        scheduler: #[trigger] old(self)@.connections[first_connection(
                            old(self)@.connections,
                            conn_id,
                            0,
                        ).unwrap()].scheduler.session_complete(session_id@, now),
                    },
                ),
    {
        match self.find_connection(conn_id) {
            Some(at) => {
                let ghost listed = self@.connections;
                let connection = self.connections.remove(at);
                assert(connection@ == listed[at as int]);
                let Connection { id, scheduler } = connection;
                let mut scheduler = scheduler;
                let now = scheduler.now();
                scheduler.mark_session_complete_at(session_id, now);
                self.connections.insert(at, Connection { id, scheduler });
                proof {
                    lemma_first_connection_id(listed, conn_id, 0);
                    let after = self@.connections;
                    assert forall|i: int| 0 <= i < after.len() && i != at implies after[i] == listed[i] by {
                        assert(self.connections@[i] == old(self).connections@[i]);
                    }
                    assert(after =~= listed.update(
                        at as int,
                        ConnectionView {
                            id: conn_id,
                            scheduler: listed[at as int].scheduler.session_complete(session_id@, now),
                        },
                    ));
                    assert forall|i: int| 0 <= i < after.len() implies (#[trigger] after[i]).scheduler.wf() by {
                        if i != at {
                            assert(after[i] == listed[i]);
                        }
                    }
                }
                Ok(())
            },
            None => Err(SenderError::NotRegistered(conn_id)),
        }
    }

    /// The counts of a connection's scheduler as text, or `None` where the
    /// connection is not registered.
    pub fn get_stats(&self, conn_id: u64) -> (text: Option<String>)
        requires
            self.wf(),
        ensures
            text is Some <==> self@.is_registered(conn_id),
            text matches Some(counts) ==> first_connection(self@.connections, conn_id, 0) matches Some(at)
                && counts@ == stats_text(crate::stream::scheduler::counts_of(self@.connections[at].scheduler)),
    {
        match self.find_connection(conn_id) {
            Some(at) => {
                assert(self@.connections[at as int] == self.connections@[at as int]@);
                let stats = self.connections[at].scheduler.stats();
                Some(debug_text(&stats))
            },
            None => None,
        }
    }

    /// The counts of a connection's scheduler, or `None` where the
    /// connection is not registered.
    pub fn connection_stats(&self, conn_id: u64) -> (stats: Option<crate::stream::scheduler::SchedulerStats>)
        requires
            self.wf(),
        ensures
            match stats {
                Some(counts) => first_connection(self@.connections, conn_id, 0) matches Some(at)
                    && crate::stream::scheduler::scheduler_stats_of(self@.connections[at].scheduler, counts),
                None => !self@.is_registered(conn_id),
            },
    {
        match self.find_connection(conn_id) {
            Some(at) => {
                assert(self@.connections[at as int] == self.connections@[at as int]@);
                Some(self.connections[at].scheduler.stats())
            },
            None => None,
        }
    }

    /// The identifiers of the registered connections, in the order of their
    /// registration.
    pub fn get_connections(&self) -> (ids: Vec<u64>)
        ensures
            ids@.len() == self@.connections.len(),
            forall|i: int| 0 <= i < ids@.len() ==> ids@[i] == (#[trigger] self@.connections[i]).id,
    {
        let mut ids: Vec<u64> = Vec::new();
        let mut i: usize = 0;
        while i < self.connections.len()
            invariant
                0 <= i <= self.connections@.len(),
                ids@.len() == i,
                forall|j: int| 0 <= j < i ==> ids@[j] == (#[trigger] self@.connections[j]).id,
            decreases self.connections@.len() - i,
        {
            assert(self@.connections[i as int] == self.connections@[i as int]@);
            ids.push(self.connections[i].id);
            i += 1;
        }
        ids
    }

    /// The numbers of data and parity shards.
    pub fn get_fec_params(&self) -> (params: (usize, usize))
        ensures
            params == (self@.default_k, self@.default_m),
    {
        (self.default_k, self.default_m)
    }
}

/// What `prepare_critical_message_at` did on a registered connection: only
/// that connection's scheduler changed, as `prepared` says, and the answer
/// is the one that `prepared` gives.
pub open spec fn outcome_matches(
    before: SenderState,
    after: SenderState,
    r: Result<Vec<(u64, FecWhisper)>, SenderError>,
    conn_id: u64,
    frames: Seq<FecFrameView>,
    session_id: Seq<u8>,
    priority: Priority,
    now: u64,
) -> bool {
    let at = first_connection(before.connections, conn_id, 0).unwrap();
    let outcome = prepared(before.connections[at].scheduler, frames, session_id, priority, now);
    &&& after == (SenderState {
        connections: before.connections.update(
            at,
            ConnectionView { id: before.connections[at].id, scheduler: outcome.0 },
        ),
        ..before
    })
    &&& match r {
        Ok(pairs) => outcome.1 is Ok && whisper_views(pairs@) == wrapped(outcome.1->Ok_0),
        Err(e) => outcome.1 == Err::<Seq<(u64, FecFrameView)>, SenderError>(e),
    }
}

/// The streams of an answer as values.
pub open spec fn stream_views(streams: Option<Vec<u64>>) -> Option<Seq<u64>> {
    match streams {
        Some(found) => Some(found@),
        None => None,
    }
}

/// Notes the streams of a round and releases each of them again.
fn note_and_release(
    scheduler: &mut StreamScheduler,
    scheduled: &Vec<(u64, FecFrame)>,
    allocated: &mut Vec<u64>,
    now: u64,
)
    requires
        old(scheduler)@.wf(),
    ensures
        final(scheduler)@.wf(),
        final(allocated)@ == old(allocated)@ + streams_of(dispatch_views(scheduled@)),
        final(scheduler)@ == (SchedulerState {
            pool: release_all(old(scheduler)@.pool, streams_of(dispatch_views(scheduled@)), now),
            ..old(scheduler)@
        }),
{
    let ghost pairs = dispatch_views(scheduled@);
    let ghost noted = allocated@;
    let mut n: usize = 0;
    assert(streams_of(pairs).skip(0) =~= streams_of(pairs));
    assert(noted + streams_of(pairs).take(0) =~= noted);
    while n < scheduled.len()
        invariant
            0 <= n <= scheduled@.len(),
            pairs == dispatch_views(scheduled@),
            scheduler@.wf(),
            allocated@ == noted + streams_of(pairs).take(n as int),
            release_all(scheduler@.pool, streams_of(pairs).skip(n as int), now) == release_all(
                old(scheduler)@.pool,
                streams_of(pairs),
                now,
            ),
            scheduler@ == (SchedulerState { pool: scheduler@.pool, ..old(scheduler)@ }),
        decreases scheduled@.len() - n,
    {
        let stream_id = scheduled[n].0;
        proof {
            assert(streams_of(pairs)[n as int] == stream_id);
            assert(streams_of(pairs).skip(n as int).drop_first() =~= streams_of(pairs).skip(n + 1));
            assert(streams_of(pairs).take(n + 1) =~= streams_of(pairs).take(n as int).push(stream_id));
        }
        allocated.push(stream_id);
        scheduler.mark_frame_sent_at(stream_id, now);
        proof {
            assert(allocated@ =~= noted + streams_of(pairs).take(n + 1));
        }
        n += 1;
    }
    proof {
        assert(streams_of(pairs).take(scheduled@.len() as int) =~= streams_of(pairs));
    }
}

/// Finds streams for the shards in rounds.
fn allocate_in_rounds(
    scheduler: &mut StreamScheduler,
    frames: &Vec<FecFrame>,
    session_id: [u8; 16],
    priority: Priority,
    now: u64,
) -> (streams: Option<Vec<u64>>)
    requires
        old(scheduler)@.wf(),
    ensures
        final(scheduler)@.wf(),
        allocation_rounds(
            old(scheduler)@,
            frame_views(frames@),
            session_id@,
            priority,
            now,
            frames@.len(),
            Seq::<u64>::empty(),
        ) == (Allocation { scheduler: final(scheduler)@, streams: stream_views(streams) }),
{
    let total_frames = frames.len();
    let ghost shards = frame_views(frames@);
    let mut allocated_streams: Vec<u64> = Vec::new();
    let mut round: usize = 0;
    while round < total_frames && allocated_streams.len() < total_frames
        invariant
            0 <= round <= total_frames,
            total_frames == frames@.len(),
            shards == frame_views(frames@),
            scheduler@.wf(),
            allocation_rounds(
                old(scheduler)@,
                shards,
                session_id@,
                priority,
                now,
                total_frames as nat,
                Seq::<u64>::empty(),
            ) == allocation_rounds(
                scheduler@,
                shards,
                session_id@,
                priority,
                now,
                (total_frames - round) as nat,
                allocated_streams@,
            ),
        decreases total_frames - round,
    {
        scheduler.submit_fec_task_at(copy_frames(frames), session_id, priority, now);
        let scheduled = scheduler.try_send_at(now);
        if scheduled.len() == 0 {
            release_streams(scheduler, &allocated_streams, now);
            return None;
        }
        note_and_release(scheduler, &scheduled, &mut allocated_streams, now);
        round += 1;
    }
    Some(allocated_streams)
}

/// Releases each of `streams` on a scheduler.
fn release_streams(scheduler: &mut StreamScheduler, streams: &Vec<u64>, now: u64)
    requires
        old(scheduler)@.wf(),
    ensures
        final(scheduler)@.wf(),
        final(scheduler)@ == (SchedulerState {
            pool: release_all(old(scheduler)@.pool, streams@, now),
            ..old(scheduler)@
        }),
{
    let mut n: usize = 0;
    assert(streams@.skip(0) =~= streams@);
    while n < streams.len()
        invariant
            0 <= n <= streams@.len(),
            scheduler@.wf(),
            release_all(scheduler@.pool, streams@.skip(n as int), now) == release_all(
                old(scheduler)@.pool,
                streams@,
                now,
            ),
            scheduler@ == (SchedulerState { pool: scheduler@.pool, ..old(scheduler)@ }),
        decreases streams@.len() - n,
    {
        proof {
            assert(streams@.skip(n as int).drop_first() =~= streams@.skip(n + 1));
        }
        scheduler.mark_frame_sent_at(streams[n], now);
        n += 1;
    }
}

/// A connection at the end of the list is found under its identifier.
proof fn lemma_last_connection_found(connections: Seq<ConnectionView>, id: u64, from: int)
    requires
        connections.len() > 0,
        connections.last().id == id,
        0 <= from < connections.len(),
    ensures
        first_connection(connections, id, from) is Some,
    decreases connections.len() - from,
{
    if connections[from].id != id {
        lemma_last_connection_found(connections, id, from + 1);
    }
}

/// The connection found under an identifier carries that identifier.
proof fn lemma_first_connection_id(connections: Seq<ConnectionView>, id: u64, from: int)
    requires
        0 <= from,
    ensures
        first_connection(connections, id, from) matches Some(at) ==> from <= at < connections.len()
            && connections[at].id == id,
    decreases connections.len() - from,
{
    if from < connections.len() && connections[from].id != id {
        lemma_first_connection_id(connections, id, from + 1);
    }
}

} // verus!
