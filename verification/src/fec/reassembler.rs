//! The receiver's sessions: shards are collected per session identifier
//! until the code can restore the message.
//!
//! ```text
//! (none)     -- first shard -->             Collecting
//! Collecting -- new shard, fewer than k --> Collecting
//! Collecting -- new shard, k or more -->    Completed   where decoding succeeds
//! Collecting -- past the session timeout --> Failed
//! Completed, Failed -- past the cleanup timeout --> (none)
//! ```

use std::collections::VecDeque;
use vstd::prelude::*;
use crate::bytes::{copy_bytes, same_bytes};
use crate::clock::{elapsed, elapsed_between, Clock, NANOS_PER_MILLI, NANOS_PER_SEC};
use crate::fec::codec::FecError;
use crate::fec::decoder::{decode_blocks, decode_blocks_spec, has_block, received_views, ReceivedBlock};
use crate::fec::frame::{frame_is_valid, validate_frame};
use crate::whisper::{FecFrame, FecFrameView};

verus! {

/// Length in bytes of a session identifier.
pub const SESSION_ID_LEN: usize = 16;

/// Default time from a session's first shard to its failure, in nanoseconds.
pub const DEFAULT_SESSION_TIMEOUT: u64 = 30 * NANOS_PER_SEC;

/// Default time for which finished sessions are kept, in nanoseconds.
pub const DEFAULT_CLEANUP_TIMEOUT: u64 = 300 * NANOS_PER_SEC;

/// Where a session stands.
#[derive(Debug)]
pub enum SessionState {
    /// Shards are coming in.
    Collecting { received_blocks: Vec<ReceivedBlock>, start_time: u64 },
    /// The code is at work. No session rests in this state.
    Decoding,
    /// The message was restored.
    Completed { original_data: Vec<u8>, recovery_time: u64 },
    /// The message was given up.
    Failed { reason: FecError, failure_time: u64 },
}

/// A session's state as a value.
pub enum SessionModel {
    Collecting { blocks: Seq<(u32, Seq<u8>)>, start_time: u64 },
    Decoding,
    Completed { data: Seq<u8>, recovery_time: u64 },
    Failed { reason: FecError, failure_time: u64 },
}

impl View for SessionState {
    type V = SessionModel;

    open spec fn view(&self) -> SessionModel {
        match self {
            SessionState::Collecting { received_blocks, start_time } => SessionModel::Collecting {
                blocks: received_views(received_blocks@),
                start_time: *start_time,
            },
            SessionState::Decoding => SessionModel::Decoding,
            SessionState::Completed { original_data, recovery_time } => SessionModel::Completed {
                data: original_data@,
                recovery_time: *recovery_time,
            },
            SessionState::Failed { reason, failure_time } => SessionModel::Failed {
                reason: *reason,
                failure_time: *failure_time,
            },
        }
    }
}

/// Where a session stands, without its data.
#[derive(Debug, Clone, Copy, PartialEq, Eq, Structural)]
pub enum SessionPhase {
    /// Collecting, with this many shards so far.
    Collecting { received: usize },
    Decoding,
    Completed,
    /// Failed, for this reason.
    Failed { reason: FecError },
}

/// The phase of a session.
pub open spec fn phase_of(state: SessionModel) -> SessionPhase {
    match state {
        SessionModel::Collecting { blocks, start_time } => SessionPhase::Collecting {
            received: blocks.len() as usize,
        },
        SessionModel::Decoding => SessionPhase::Decoding,
        SessionModel::Completed { data, recovery_time } => SessionPhase::Completed,
        SessionModel::Failed { reason, failure_time } => SessionPhase::Failed { reason },
    }
}

/// A session as a value: its identifier and its state.
pub struct SessionEntry {
    pub id: Seq<u8>,
    pub state: SessionModel,
}

/// A session under its identifier.
struct Session {
    id: Vec<u8>,
    state: SessionState,
}

impl View for Session {
    type V = SessionEntry;

    closed spec fn view(&self) -> SessionEntry {
        SessionEntry { id: self.id@, state: self.state@ }
    }
}

/// A message that was restored.
#[derive(Debug)]
pub struct RecoveredMessage {
    pub session_id: Vec<u8>,
    pub original_data: Vec<u8>,
    /// Clock reading at which the message was restored.
    pub recovery_time: u64,
    /// Number of shards that the session held when it decoded.
    pub blocks_used: usize,
    /// Number of shards that were sent: `k + m`.
    pub blocks_total: usize,
}

/// A restored message as a value.
pub struct RecoveredView {
    pub session_id: Seq<u8>,
    pub original_data: Seq<u8>,
    pub recovery_time: u64,
    pub blocks_used: usize,
    pub blocks_total: usize,
}

impl View for RecoveredMessage {
    type V = RecoveredView;

    open spec fn view(&self) -> RecoveredView {
        RecoveredView {
            session_id: self.session_id@,
            original_data: self.original_data@,
            recovery_time: self.recovery_time,
            blocks_used: self.blocks_used,
            blocks_total: self.blocks_total,
        }
    }
}

/// Counts over a reassembler. The mean recovery time is kept in whole
/// milliseconds.
#[derive(Debug, Clone, Copy, PartialEq, Eq, Structural)]
pub struct ReassemblerStats {
    pub total_sessions: usize,
    pub successful_recoveries: usize,
    pub failed_recoveries: usize,
    pub pending_sessions: usize,
    pub average_recovery_time_ms: u64,
}

/// The index of the first session from `from` on whose identifier is `id`.
pub open spec fn first_session(sessions: Seq<SessionEntry>, id: Seq<u8>, from: int) -> Option<int>
    decreases sessions.len() - from,
{
    if from < 0 || from >= sessions.len() {
        None
    } else if sessions[from].id == id {
        Some(from)
    } else {
        first_session(sessions, id, from + 1)
    }
}

/// What a sweep at `now` makes of one session: a collecting session past
/// the session timeout fails, a finished one past the cleanup timeout goes,
/// every other stays as it is.
pub open spec fn swept_session(
    entry: SessionEntry,
    session_timeout: u64,
    cleanup_timeout: u64,
    now: u64,
) -> Option<SessionEntry> {
    match entry.state {
        SessionModel::Collecting { blocks, start_time } => if elapsed(now, start_time) > session_timeout {
            Some(
                SessionEntry {
                    id: entry.id,
                    state: SessionModel::Failed { reason: FecError::SessionTimeout, failure_time: now },
                },
            )
        } else {
            Some(entry)
        },
        SessionModel::Completed { data, recovery_time } => if elapsed(now, recovery_time) > cleanup_timeout {
            None
        } else {
            Some(entry)
        },
        SessionModel::Failed { reason, failure_time } => if elapsed(now, failure_time) > cleanup_timeout {
            None
        } else {
            Some(entry)
        },
        SessionModel::Decoding => Some(entry),
    }
}

/// Whether a sweep at `now` fails this session.
pub open spec fn times_out(entry: SessionEntry, session_timeout: u64, now: u64) -> bool {
    entry.state matches SessionModel::Collecting { blocks, start_time } && elapsed(now, start_time)
        > session_timeout
}

/// The sessions after a sweep at `now`, in their old order.
pub open spec fn swept(
    sessions: Seq<SessionEntry>,
    session_timeout: u64,
    cleanup_timeout: u64,
    now: u64,
) -> Seq<SessionEntry>
    decreases sessions.len(),
{
    if sessions.len() == 0 {
        Seq::<SessionEntry>::empty()
    } else {
        match swept_session(sessions.last(), session_timeout, cleanup_timeout, now) {
            Some(entry) => swept(sessions.drop_last(), session_timeout, cleanup_timeout, now).push(entry),
            None => swept(sessions.drop_last(), session_timeout, cleanup_timeout, now),
        }
    }
}

/// How many sessions a sweep at `now` fails.
pub open spec fn timed_out_count(sessions: Seq<SessionEntry>, session_timeout: u64, now: u64) -> nat
    decreases sessions.len(),
{
    if sessions.len() == 0 {
        0
    } else {
        timed_out_count(sessions.drop_last(), session_timeout, now) + if times_out(
            sessions.last(),
            session_timeout,
            now,
        ) {
            1nat
        } else {
            0nat
        }
    }
}

/// How many sessions are collecting.
pub open spec fn collecting_count(sessions: Seq<SessionEntry>) -> nat
    decreases sessions.len(),
{
    if sessions.len() == 0 {
        0
    } else {
        collecting_count(sessions.drop_last()) + if sessions.last().state is Collecting {
            1nat
        } else {
            0nat
        }
    }
}

/// A counter moved on by `by`, stopping at the largest number it can hold.
pub open spec fn counted(counter: usize, by: nat) -> usize {
    if counter + by > usize::MAX {
        usize::MAX
    } else {
        (counter + by) as usize
    }
}

/// The mean recovery time after one more recovery that took `sample`
/// milliseconds: the sample itself while fewer than two recoveries went
/// before, else nine parts of the old mean and one part of the sample.
pub open spec fn smoothed(recoveries_before: usize, average: u64, sample: u64) -> u64 {
    if recoveries_before <= 1 {
        sample
    } else {
        (average - average / 10 + sample / 10) as u64
    }
}

/// A reassembler as a value.
pub struct ReassemblerState {
    pub sessions: Seq<SessionEntry>,
    pub pending_messages: Seq<RecoveredView>,
    pub total_sessions: usize,
    pub successful_recoveries: usize,
    pub failed_recoveries: usize,
    pub average_recovery_time_ms: u64,
    pub session_timeout: u64,
    pub cleanup_timeout: u64,
}

/// What handling a shard gives: the reassembler afterwards and the answer.
pub struct Handled {
    pub state: ReassemblerState,
    pub result: Result<Option<RecoveredView>, FecError>,
}

impl ReassemblerState {
    /// What every reassembler keeps: no two sessions share an identifier,
    /// and no collecting session holds two shards of one index.
    pub open spec fn wf(self) -> bool {
        distinct_sessions(self.sessions) && unique_shards(self.sessions)
    }

    /// The sweep at `now`.
    pub open spec fn cleanup(self, now: u64) -> ReassemblerState {
        ReassemblerState {
            sessions: swept(self.sessions, self.session_timeout, self.cleanup_timeout, now),
            failed_recoveries: counted(
                self.failed_recoveries,
                timed_out_count(self.sessions, self.session_timeout, now),
            ),
            ..self
        }
    }

    /// The reassembler with session `at` in `state`.
    pub open spec fn with_session(self, at: int, state: SessionModel) -> ReassemblerState {
        ReassemblerState {
            sessions: self.sessions.update(at, SessionEntry { id: self.sessions[at].id, state }),
            ..self
        }
    }

    /// A new shard for the collecting session `at`, which then holds
    /// `blocks`: below `k` shards the session goes on collecting; from `k`
    /// shards on it decodes, and completes where that succeeds. Where it
    /// fails, the session goes on collecting with all its shards, unless it
    /// is past its timeout, when it fails for good.
    pub open spec fn collect(
        self,
        at: int,
        blocks: Seq<(u32, Seq<u8>)>,
        start_time: u64,
        frame: FecFrameView,
        now: u64,
    ) -> Handled {
        if blocks.len() < frame.k {
            Handled {
                state: self.with_session(at, SessionModel::Collecting { blocks, start_time }),
                result: Ok(None),
            }
        } else {
            match decode_blocks_spec(frame.k as nat, frame.m as nat, blocks) {
                Ok(data) => {
                    let message = RecoveredView {
                        session_id: frame.session_id,
                        original_data: data,
                        recovery_time: now,
                        blocks_used: blocks.len() as usize,
                        blocks_total: (frame.k + frame.m) as usize,
                    };
                    Handled {
                        state: ReassemblerState {
                            pending_messages: self.pending_messages.push(message),
                            successful_recoveries: counted(self.successful_recoveries, 1),
                            average_recovery_time_ms: smoothed(
                                self.successful_recoveries,
                                self.average_recovery_time_ms,
                                elapsed(now, start_time) / NANOS_PER_MILLI,
                            ),
                            ..self.with_session(at, SessionModel::Completed { data, recovery_time: now })
                        },
                        result: Ok(Some(message)),
                    }
                },
                Err(e) => if elapsed(now, start_time) > self.session_timeout {
                    Handled {
                        state: ReassemblerState {
                            failed_recoveries: counted(self.failed_recoveries, 1),
                            ..self.with_session(at, SessionModel::Failed { reason: e, failure_time: now })
                        },
                        result: Err(e),
                    }
                } else {
                    Handled {
                        state: self.with_session(at, SessionModel::Collecting { blocks, start_time }),
                        result: Ok(None),
                    }
                },
            }
        }
    }

    /// Handling a shard at `now`, after the sweep: a shard with a bad
    /// identifier, hash or index is refused; the first shard of a session
    /// opens it; a shard that the session holds already, or one for a
    /// finished session, changes nothing; any other is collected.
    pub open spec fn accept(self, frame: FecFrameView, now: u64) -> Handled {
        if frame.session_id.len() != SESSION_ID_LEN {
            Handled { state: self, result: Err(FecError::InvalidSessionId) }
        } else if !frame_is_valid(frame) {
            Handled { state: self, result: Err(FecError::CorruptFrame) }
        } else if frame.block_index >= frame.k + frame.m {
            Handled { state: self, result: Err(FecError::InvalidBlockIndex(frame.block_index)) }
        } else {
            match first_session(self.sessions, frame.session_id, 0) {
                None => Handled {
                    state: ReassemblerState {
                        sessions: self.sessions.push(
                            SessionEntry {
                                id: frame.session_id,
                                state: SessionModel::Collecting {
                                    blocks: seq![(frame.block_index, frame.payload)],
                                    start_time: now,
                                },
                            },
                        ),
                        total_sessions: counted(self.total_sessions, 1),
                        ..self
                    },
                    result: Ok(None),
                },
                Some(at) => match self.sessions[at].state {
                    SessionModel::Collecting { blocks, start_time } => if has_block(
                        blocks,
                        frame.block_index,
                    ) {
                        Handled { state: self, result: Ok(None) }
                    } else {
                        self.collect(
                            at,
                            blocks.push((frame.block_index, frame.payload)),
                            start_time,
                            frame,
                            now,
                        )
                    },
                    _ => Handled { state: self, result: Ok(None) },
                },
            }
        }
    }

    /// Handling a shard at `now`: the sweep, then the shard.
    pub open spec fn process(self, frame: FecFrameView, now: u64) -> Handled {
        self.cleanup(now).accept(frame, now)
    }

    /// The counts.
    pub open spec fn stats(self) -> ReassemblerStats {
        ReassemblerStats {
            total_sessions: self.total_sessions,
            successful_recoveries: self.successful_recoveries,
            failed_recoveries: self.failed_recoveries,
            pending_sessions: collecting_count(self.sessions) as usize,
            average_recovery_time_ms: self.average_recovery_time_ms,
        }
    }
}

/// Whether the exec answer `r` is the spec answer `s`.
pub open spec fn answer_matches(
    r: Result<Option<RecoveredMessage>, FecError>,
    s: Result<Option<RecoveredView>, FecError>,
) -> bool {
    match r {
        Ok(Some(message)) => s == Ok::<Option<RecoveredView>, FecError>(Some(message@)),
        Ok(None) => s == Ok::<Option<RecoveredView>, FecError>(None),
        Err(e) => s == Err::<Option<RecoveredView>, FecError>(e),
    }
}

/// The sessions of an exec list as values.
spec fn session_views(sessions: Seq<Session>) -> Seq<SessionEntry> {
    Seq::new(sessions.len(), |i: int| sessions[i]@)
}

/// The messages of an exec queue as values.
pub open spec fn message_views(messages: Seq<RecoveredMessage>) -> Seq<RecoveredView> {
    Seq::new(messages.len(), |i: int| messages[i]@)
}

/// Putting a session back where one was lifted out changes that entry only.
proof fn lemma_session_put_back(before: Seq<SessionEntry>, lifted: Seq<Session>, at: int, session: Session)
    requires
        0 <= at < before.len(),
        session_views(lifted) == before.remove(at),
    ensures
        session_views(lifted.insert(at, session)) == before.update(at, session@),
{
    let a = session_views(lifted.insert(at, session));
    let b = before.update(at, session@);
    assert(session_views(lifted).len() == lifted.len());
    assert forall|j: int| 0 <= j < b.len() implies a[j] == b[j] by {
        if j < at {
            assert(session_views(lifted)[j] == lifted[j]@);
            assert(before.remove(at)[j] == before[j]);
        } else if j > at {
            assert(session_views(lifted)[j - 1] == lifted[j - 1]@);
            assert(before.remove(at)[j - 1] == before[j]);
        }
    }
    assert(a =~= b);
}

/// Collects shards per session and restores the messages.
pub struct FECReassembler {
    sessions: Vec<Session>,
    pending_messages: VecDeque<RecoveredMessage>,
    total_sessions: usize,
    successful_recoveries: usize,
    failed_recoveries: usize,
    average_recovery_time_ms: u64,
    session_timeout: u64,
    cleanup_timeout: u64,
    k: usize,
    m: usize,
    clock: Clock,
}

impl View for FECReassembler {
    type V = ReassemblerState;

    closed spec fn view(&self) -> ReassemblerState {
        ReassemblerState {
            sessions: session_views(self.sessions@),
            pending_messages: message_views(self.pending_messages@),
            total_sessions: self.total_sessions,
            successful_recoveries: self.successful_recoveries,
            failed_recoveries: self.failed_recoveries,
            average_recovery_time_ms: self.average_recovery_time_ms,
            session_timeout: self.session_timeout,
            cleanup_timeout: self.cleanup_timeout,
        }
    }
}

/// Whether a shard of index `index` is among `blocks`.
fn holds_block(blocks: &Vec<ReceivedBlock>, index: u32) -> (held: bool)
    ensures
        held == has_block(received_views(blocks@), index),
{
    let mut i: usize = 0;
    while i < blocks.len()
        invariant
            0 <= i <= blocks@.len(),
            forall|j: int| 0 <= j < i ==> (#[trigger] received_views(blocks@)[j]).0 != index,
        decreases blocks@.len() - i,
    {
        if blocks[i].index == index {
            assert(received_views(blocks@)[i as int].0 == index);
            return true;
        }
        i += 1;
    }
    false
}

impl FECReassembler {
    /// A reassembler without sessions. Sessions fail 30 seconds after their
    /// first shard, and finished sessions are kept for 300 seconds. `k` and
    /// `m` are the numbers that the sender is expected to use; each shard
    /// brings its own.
    pub fn new(k: usize, m: usize) -> (reassembler: Self)
        ensures
            reassembler@.sessions == Seq::<SessionEntry>::empty(),
            reassembler@.pending_messages == Seq::<RecoveredView>::empty(),
            reassembler@.total_sessions == 0,
            reassembler@.successful_recoveries == 0,
            reassembler@.failed_recoveries == 0,
            reassembler@.average_recovery_time_ms == 0,
            reassembler@.session_timeout == DEFAULT_SESSION_TIMEOUT,
            reassembler@.cleanup_timeout == DEFAULT_CLEANUP_TIMEOUT,
            reassembler.expected_shards() == (k, m),
            reassembler@.wf(),
    {
        let reassembler = FECReassembler {
            sessions: Vec::new(),
            pending_messages: VecDeque::new(),
            total_sessions: 0,
            successful_recoveries: 0,
            failed_recoveries: 0,
            average_recovery_time_ms: 0,
            session_timeout: DEFAULT_SESSION_TIMEOUT,
            cleanup_timeout: DEFAULT_CLEANUP_TIMEOUT,
            k,
            m,
            clock: Clock::start(),
        };
        assert(reassembler@.sessions =~= Seq::<SessionEntry>::empty());
        assert(reassembler@.pending_messages =~= Seq::<RecoveredView>::empty());
        reassembler
    }

    /// The reassembler's clock, read now.
    pub fn now(&self) -> (now: u64) {
        self.clock.now()
    }

    /// The numbers of data and parity shards that the reassembler was made
    /// for.
    pub closed spec fn expected_shards(&self) -> (usize, usize) {
        (self.k, self.m)
    }

    /// The numbers of data and parity shards that the reassembler was made
    /// for.
    pub fn params(&self) -> (params: (usize, usize))
        ensures
            params == self.expected_shards(),
    {
        (self.k, self.m)
    }

    /// Handles a shard at the time the reassembler's clock shows.
    pub fn process_fec_frame(&mut self, frame: &FecFrame) -> (r: Result<Option<RecoveredMessage>, FecError>)
        ensures
            exists|now: u64|
                {
                    &&& final(self)@ == (#[trigger] old(self)@.process(frame@, now)).state
                    &&& answer_matches(r, old(self)@.process(frame@, now).result)
                },
            old(self)@.wf() ==> final(self)@.wf(),
    {
        let now = self.clock.now();
        self.process_fec_frame_at(frame, now)
    }

    /// Handles a shard at clock reading `now`: sweeps the sessions, then
    /// takes the shard. `Ok(Some(..))` is the message that this shard
    /// completed; it also joins the queue of restored messages.
    pub fn process_fec_frame_at(&mut self, frame: &FecFrame, now: u64) -> (r: Result<
        Option<RecoveredMessage>,
        FecError,
    >)
        ensures
            final(self)@ == old(self)@.process(frame@, now).state,
            answer_matches(r, old(self)@.process(frame@, now).result),
            old(self)@.wf() ==> final(self)@.wf(),
    {
        proof {
            if old(self)@.wf() {
                lemma_process_keeps_wf(old(self)@, frame@, now);
            }
        }
        self.cleanup_timeout_sessions_at(now);
        if frame.session_id.len() != SESSION_ID_LEN {
            return Err(FecError::InvalidSessionId);
        }
        if !validate_frame(frame) {
            return Err(FecError::CorruptFrame);
        }
        if frame.block_index as u64 >= frame.k as u64 + frame.m as u64 {
            return Err(FecError::InvalidBlockIndex(frame.block_index));
        }
        let ghost swept_state = self@;
        match self.find_session(frame.session_id.as_slice()) {
            None => {
                let mut received_blocks: Vec<ReceivedBlock> = Vec::new();
                received_blocks.push(
                    ReceivedBlock { index: frame.block_index, data: copy_bytes(frame.payload.as_slice()) },
                );
                assert(received_views(received_blocks@) =~= seq![(frame@.block_index, frame@.payload)]);
                self.sessions.push(
                    Session {
                        id: copy_bytes(frame.session_id.as_slice()),
                        state: SessionState::Collecting { received_blocks, start_time: now },
                    },
                );
                self.total_sessions = self.total_sessions.saturating_add(1);
                assert(self@.sessions =~= swept_state.accept(frame@, now).state.sessions);
                Ok(None)
            },
            Some(at) => {
                let session = self.sessions.remove(at);
                assert(self@.sessions =~= swept_state.sessions.remove(at as int));
                assert(session@ == swept_state.sessions[at as int]);
                let Session { id, state } = session;
                match state {
                    SessionState::Collecting { received_blocks, start_time } => {
                        if holds_block(&received_blocks, frame.block_index) {
                            self.sessions.insert(
                                at,
                                Session { id, state: SessionState::Collecting { received_blocks, start_time } },
                            );
                            assert(self@.sessions =~= swept_state.sessions);
                            Ok(None)
                        } else {
                            self.collect(at, id, received_blocks, start_time, frame, now, Ghost(swept_state))
                        }
                    },
                    other => {
                        self.sessions.insert(at, Session { id, state: other });
                        assert(self@.sessions =~= swept_state.sessions);
                        Ok(None)
                    },
                }
            },
        }
    }

    /// Takes a new shard into a collecting session that was lifted out of
    /// the list at `at`, and puts the session back.
    fn collect(
        &mut self,
        at: usize,
        id: Vec<u8>,
        received_blocks: Vec<ReceivedBlock>,
        start_time: u64,
        frame: &FecFrame,
        now: u64,
        before: Ghost<ReassemblerState>,
    ) -> (r: Result<Option<RecoveredMessage>, FecError>)
        requires
            at < before@.sessions.len(),
            before@.sessions[at as int] == (SessionEntry {
                id: id@,
                state: SessionModel::Collecting { blocks: received_views(received_blocks@), start_time },
            }),
            old(self)@ == (ReassemblerState { sessions: before@.sessions.remove(at as int), ..before@ }),
            id@ == frame@.session_id,
        ensures
            final(self)@ == before@.collect(
                at as int,
                received_views(received_blocks@).push((frame@.block_index, frame@.payload)),
                start_time,
                frame@,
                now,
            ).state,
            answer_matches(
                r,
                before@.collect(
                    at as int,
                    received_views(received_blocks@).push((frame@.block_index, frame@.payload)),
                    start_time,
                    frame@,
                    now,
                ).result,
            ),
    {
        assert(self@.sessions.len() == self.sessions@.len());
        assert(self.sessions@.len() == before@.sessions.len() - 1);
        let ghost lifted = self.sessions@;
        let mut received_blocks = received_blocks;
        let ghost held = received_views(received_blocks@);
        received_blocks.push(
            ReceivedBlock { index: frame.block_index, data: copy_bytes(frame.payload.as_slice()) },
        );
        let ghost blocks = held.push((frame@.block_index, frame@.payload));
        assert(received_views(received_blocks@) =~= blocks);
        if received_blocks.len() < frame.k as usize {
            self.sessions.insert(at, Session { id, state: SessionState::Collecting { received_blocks, start_time } });
            proof {
                lemma_session_put_back(before@.sessions, lifted, at as int, self.sessions@[at as int]);
                assert(self.sessions@ =~= lifted.insert(at as int, self.sessions@[at as int]));
            }
            assert(self@.sessions =~= before@.with_session(
                at as int,
                SessionModel::Collecting { blocks, start_time },
            ).sessions);
            return Ok(None);
        }
        match decode_blocks(frame.k as usize, frame.m as usize, &received_blocks) {
            Ok(original_data) => {
                let sample = elapsed_between(now, start_time) / NANOS_PER_MILLI;
                self.average_recovery_time_ms = if self.successful_recoveries <= 1 {
                    sample
                } else {
                    self.average_recovery_time_ms - self.average_recovery_time_ms / 10 + sample / 10
                };
                self.successful_recoveries = self.successful_recoveries.saturating_add(1);
                let message = RecoveredMessage {
                    session_id: copy_bytes(id.as_slice()),
                    original_data: copy_bytes(original_data.as_slice()),
                    recovery_time: now,
                    blocks_used: received_blocks.len(),
                    blocks_total: frame.k as usize + frame.m as usize,
                };
                let queued = RecoveredMessage {
                    session_id: copy_bytes(id.as_slice()),
                    original_data: copy_bytes(original_data.as_slice()),
                    recovery_time: now,
                    blocks_used: received_blocks.len(),
                    blocks_total: frame.k as usize + frame.m as usize,
                };
                let ghost queue_before = self.pending_messages@;
                self.pending_messages.push_back(queued);
                assert(message_views(self.pending_messages@) =~= message_views(queue_before).push(message@));
                self.sessions.insert(
                    at,
                    Session { id, state: SessionState::Completed { original_data, recovery_time: now } },
                );
                proof {
                lemma_session_put_back(before@.sessions, lifted, at as int, self.sessions@[at as int]);
                assert(self.sessions@ =~= lifted.insert(at as int, self.sessions@[at as int]));
            }
            assert(self@.sessions =~= before@.with_session(
                    at as int,
                    SessionModel::Completed { data: message@.original_data, recovery_time: now },
                ).sessions);
                Ok(Some(message))
            },
            Err(e) => {
                if elapsed_between(now, start_time) > self.session_timeout {
                    self.failed_recoveries = self.failed_recoveries.saturating_add(1);
                    self.sessions.insert(
                        at,
                        Session { id, state: SessionState::Failed { reason: e, failure_time: now } },
                    );
                    proof {
                lemma_session_put_back(before@.sessions, lifted, at as int, self.sessions@[at as int]);
                assert(self.sessions@ =~= lifted.insert(at as int, self.sessions@[at as int]));
            }
            assert(self@.sessions =~= before@.with_session(
                        at as int,
                        SessionModel::Failed { reason: e, failure_time: now },
                    ).sessions);
                    Err(e)
                } else {
                    self.sessions.insert(
                        at,
                        Session { id, state: SessionState::Collecting { received_blocks, start_time } },
                    );
                    proof {
                lemma_session_put_back(before@.sessions, lifted, at as int, self.sessions@[at as int]);
                assert(self.sessions@ =~= lifted.insert(at as int, self.sessions@[at as int]));
            }
            assert(self@.sessions =~= before@.with_session(
                        at as int,
                        SessionModel::Collecting { blocks, start_time },
                    ).sessions);
                    Ok(None)
                }
            },
        }
    }

    /// The index of the session under `id`.
    fn find_session(&self, id: &[u8]) -> (found: Option<usize>)
        ensures
            match found {
                Some(at) => first_session(self@.sessions, id@, 0) == Some(at as int) && at
                    < self@.sessions.len() && self@.sessions[at as int].id == id@,
                None => first_session(self@.sessions, id@, 0) is None,
            },
    {
        let mut i: usize = 0;
        while i < self.sessions.len()
            invariant
                0 <= i <= self.sessions@.len(),
                first_session(self@.sessions, id@, 0) == first_session(self@.sessions, id@, i as int),
            decreases self.sessions@.len() - i,
        {
            assert(self@.sessions[i as int] == self.sessions@[i as int]@);
            if same_bytes(self.sessions[i].id.as_slice(), id) {
                return Some(i);
            }
            i += 1;
        }
        None
    }

    /// Sweeps the sessions at the time the reassembler's clock shows.
    pub fn cleanup_timeout_sessions(&mut self)
        ensures
            exists|now: u64| final(self)@ == #[trigger] old(self)@.cleanup(now),
            old(self)@.wf() ==> final(self)@.wf(),
    {
        let now = self.clock.now();
        self.cleanup_timeout_sessions_at(now);
    }

    /// Sweeps the sessions at clock reading `now`: collecting sessions past
    /// the session timeout fail, finished sessions past the cleanup timeout
    /// go.
    pub fn cleanup_timeout_sessions_at(&mut self, now: u64)
        ensures
            final(self)@ == old(self)@.cleanup(now),
            old(self)@.wf() ==> final(self)@.wf(),
    {
        proof {
            if old(self)@.wf() {
                lemma_swept_distinct(old(self)@.sessions, self.session_timeout, self.cleanup_timeout, now);
                lemma_swept_unique_shards(
                    old(self)@.sessions,
                    self.session_timeout,
                    self.cleanup_timeout,
                    now,
                );
            }
        }
        let ghost given = self@.sessions;
        let mut i: usize = 0;
        let ghost mut done: int = 0;
        let ghost mut failed: nat = 0;
        while i < self.sessions.len()
            invariant
                0 <= done <= given.len(),
                i == swept(given.take(done), self.session_timeout, self.cleanup_timeout, now).len(),
                self@.sessions == swept(given.take(done), self.session_timeout, self.cleanup_timeout, now)
                    + given.skip(done),
                failed == timed_out_count(given.take(done), self.session_timeout, now),
                self.failed_recoveries == counted(old(self).failed_recoveries, failed),
                self@ == (ReassemblerState {
                    sessions: self@.sessions,
                    failed_recoveries: self.failed_recoveries,
                    ..old(self)@
                }),
            decreases self.sessions@.len() - i, given.len() - done,
        {
            let ghost current = self@.sessions;
            let ghost entry = given[done];
            proof {
                assert(given.take(done + 1).drop_last() =~= given.take(done));
                assert(given.take(done + 1).last() == entry);
                assert(current[i as int] == entry);
                assert(self.sessions@[i as int]@ == entry);
            }
            let outcome = sweep_verdict(&self.sessions[i].state, self.session_timeout, self.cleanup_timeout, now);
            match outcome {
                Verdict::Keep => {
                    proof {
                        assert(current =~= swept(
                            given.take(done + 1),
                            self.session_timeout,
                            self.cleanup_timeout,
                            now,
                        ) + given.skip(done + 1));
                    }
                    i += 1;
                },
                Verdict::Fail => {
                    let ghost listed = self.sessions@;
                    let session = self.sessions.remove(i);
                    self.sessions.insert(
                        i,
                        Session {
                            id: session.id,
                            state: SessionState::Failed { reason: FecError::SessionTimeout, failure_time: now },
                        },
                    );
                    self.failed_recoveries = self.failed_recoveries.saturating_add(1);
                    proof {
                        let failed_entry = SessionEntry {
                            id: entry.id,
                            state: SessionModel::Failed { reason: FecError::SessionTimeout, failure_time: now },
                        };
                        assert(self.sessions@.len() == listed.len());
                        assert forall|j: int| 0 <= j < listed.len() && j != i implies self.sessions@[j]
                            == listed[j] by {}
                        assert(self.sessions@[i as int]@ == failed_entry);
                        assert(self@.sessions =~= current.update(i as int, failed_entry));
                        assert(swept(given.take(done + 1), self.session_timeout, self.cleanup_timeout, now)
                            == swept(given.take(done), self.session_timeout, self.cleanup_timeout, now).push(
                            failed_entry,
                        ));
                        assert(self@.sessions =~= swept(
                            given.take(done + 1),
                            self.session_timeout,
                            self.cleanup_timeout,
                            now,
                        ) + given.skip(done + 1));
                    }
                    i += 1;
                },
                Verdict::Drop => {
                    let ghost listed = self.sessions@;
                    self.sessions.remove(i);
                    proof {
                        assert(self.sessions@ =~= listed.remove(i as int));
                        assert(self@.sessions =~= current.remove(i as int));
                        assert(swept(given.take(done + 1), self.session_timeout, self.cleanup_timeout, now)
                            == swept(given.take(done), self.session_timeout, self.cleanup_timeout, now));
                        assert(self@.sessions =~= swept(
                            given.take(done + 1),
                            self.session_timeout,
                            self.cleanup_timeout,
                            now,
                        ) + given.skip(done + 1));
                    }
                },
            }
            proof {
                failed = failed + if times_out(entry, self.session_timeout, now) {
                    1nat
                } else {
                    0nat
                };
                done = done + 1;
            }
        }
        proof {
            assert(self@.sessions.len() == i + given.skip(done).len());
            assert(done == given.len());
            assert(given.take(done) =~= given);
            assert(self@.sessions =~= swept(given, self.session_timeout, self.cleanup_timeout, now));
        }
    }

    /// Where the session under `session_id` stands, or `None` where there is
    /// no such session.
    pub fn session_phase(&self, session_id: &[u8]) -> (phase: Option<SessionPhase>)
        ensures
            phase == match first_session(self@.sessions, session_id@, 0) {
                Some(at) => Some(phase_of(self@.sessions[at].state)),
                None => None,
            },
    {
        match self.find_session(session_id) {
            Some(at) => {
                assert(self@.sessions[at as int] == self.sessions@[at as int]@);
                Some(
                    match &self.sessions[at].state {
                        SessionState::Collecting { received_blocks, start_time } => SessionPhase::Collecting {
                            received: received_blocks.len(),
                        },
                        SessionState::Decoding => SessionPhase::Decoding,
                        SessionState::Completed { original_data, recovery_time } => SessionPhase::Completed,
                        SessionState::Failed { reason, failure_time } => SessionPhase::Failed { reason: *reason },
                    },
                )
            },
            None => None,
        }
    }

    /// The counts. Pending sessions are those that are collecting.
    pub fn get_stats(&self) -> (stats: ReassemblerStats)
        ensures
            stats == self@.stats(),
    {
        let mut pending: usize = 0;
        let mut i: usize = 0;
        while i < self.sessions.len()
            invariant
                0 <= i <= self.sessions@.len(),
                pending == collecting_count(self@.sessions.take(i as int)),
                pending <= i,
            decreases self.sessions@.len() - i,
        {
            proof {
                assert(self@.sessions.take(i + 1).drop_last() =~= self@.sessions.take(i as int));
                assert(self@.sessions.take(i + 1).last() == self.sessions@[i as int]@);
            }
            match &self.sessions[i].state {
                SessionState::Collecting { received_blocks, start_time } => {
                    pending += 1;
                },
                _ => {},
            }
            i += 1;
        }
        proof {
            assert(self@.sessions.take(self.sessions@.len() as int) =~= self@.sessions);
        }
        ReassemblerStats {
            total_sessions: self.total_sessions,
            successful_recoveries: self.successful_recoveries,
            failed_recoveries: self.failed_recoveries,
            pending_sessions: pending,
            average_recovery_time_ms: self.average_recovery_time_ms,
        }
    }

    /// Takes the oldest restored message from the queue.
    pub fn next_recovered_message(&mut self) -> (message: Option<RecoveredMessage>)
        ensures
            match message {
                Some(m) => old(self)@.pending_messages.len() > 0 && m@ == old(self)@.pending_messages[0]
                    && final(self)@ == (ReassemblerState {
                    pending_messages: old(self)@.pending_messages.drop_first(),
                    ..old(self)@
                }),
                None => old(self)@.pending_messages.len() == 0 && final(self)@ == old(self)@,
            },
    {
        let message = self.pending_messages.pop_front();
        proof {
            if message is Some {
                assert(self@.pending_messages =~= old(self)@.pending_messages.drop_first());
            } else {
                assert(self@.pending_messages =~= old(self)@.pending_messages);
            }
        }
        message
    }

    /// Number of restored messages in the queue.
    pub fn pending_message_count(&self) -> (n: usize)
        ensures
            n == self@.pending_messages.len(),
    {
        self.pending_messages.len()
    }

    /// Sets the time from a session's first shard to its failure, in
    /// nanoseconds.
    pub fn set_session_timeout(&mut self, timeout: u64)
        ensures
            final(self)@ == (ReassemblerState { session_timeout: timeout, ..old(self)@ }),
    {
        self.session_timeout = timeout;
    }

    /// Sets the time for which finished sessions are kept, in nanoseconds.
    pub fn set_session_cleanup_timeout(&mut self, timeout: u64)
        ensures
            final(self)@ == (ReassemblerState { cleanup_timeout: timeout, ..old(self)@ }),
    {
        self.cleanup_timeout = timeout;
    }
}

/// What a sweep does with a session.
enum Verdict {
    Keep,
    Fail,
    Drop,
}

/// What a sweep at `now` does with a session in `state`.
fn sweep_verdict(state: &SessionState, session_timeout: u64, cleanup_timeout: u64, now: u64) -> (verdict:
    Verdict)
    ensures
        forall|id: Seq<u8>|
            match verdict {
                Verdict::Keep => #[trigger] swept_session(
                    SessionEntry { id, state: state@ },
                    session_timeout,
                    cleanup_timeout,
                    now,
                ) == Some(SessionEntry { id, state: state@ }) && !times_out(
                    SessionEntry { id, state: state@ },
                    session_timeout,
                    now,
                ),
                Verdict::Fail => #[trigger] swept_session(
                    SessionEntry { id, state: state@ },
                    session_timeout,
                    cleanup_timeout,
                    now,
                ) == Some(
                    SessionEntry {
                        id,
                        state: SessionModel::Failed { reason: FecError::SessionTimeout, failure_time: now },
                    },
                ) && times_out(SessionEntry { id, state: state@ }, session_timeout, now),
                Verdict::Drop => #[trigger] swept_session(
                    SessionEntry { id, state: state@ },
                    session_timeout,
                    cleanup_timeout,
                    now,
                ) is None && !times_out(SessionEntry { id, state: state@ }, session_timeout, now),
            },
{
    match state {
        SessionState::Collecting { received_blocks, start_time } => {
            if elapsed_between(now, *start_time) > session_timeout {
                Verdict::Fail
            } else {
                Verdict::Keep
            }
        },
        SessionState::Completed { original_data, recovery_time } => {
            if elapsed_between(now, *recovery_time) > cleanup_timeout {
                Verdict::Drop
            } else {
                Verdict::Keep
            }
        },
        SessionState::Failed { reason, failure_time } => {
            if elapsed_between(now, *failure_time) > cleanup_timeout {
                Verdict::Drop
            } else {
                Verdict::Keep
            }
        },
        SessionState::Decoding => Verdict::Keep,
    }
}

/// No two sessions share an identifier.
pub open spec fn distinct_sessions(sessions: Seq<SessionEntry>) -> bool {
    forall|i: int, j: int|
        0 <= i < j < sessions.len() ==> (#[trigger] sessions[i]).id != (#[trigger] sessions[j]).id
}

/// Whether no two of `blocks` share an index.
pub open spec fn distinct_indices(blocks: Seq<(u32, Seq<u8>)>) -> bool {
    forall|i: int, j: int| 0 <= i < j < blocks.len() ==> (#[trigger] blocks[i]).0 != (#[trigger] blocks[j]).0
}

/// Whether a session, where it is collecting, holds no two shards of one
/// index.
pub open spec fn session_shards_unique(entry: SessionEntry) -> bool {
    entry.state matches SessionModel::Collecting { blocks, start_time } ==> distinct_indices(blocks)
}

/// Whether no collecting session holds two shards of one index.
pub open spec fn unique_shards(sessions: Seq<SessionEntry>) -> bool {
    forall|i: int| 0 <= i < sessions.len() ==> session_shards_unique(#[trigger] sessions[i])
}

/// Whether no session carries `id`.
pub open spec fn unknown_session(sessions: Seq<SessionEntry>, id: Seq<u8>) -> bool {
    forall|i: int| 0 <= i < sessions.len() ==> (#[trigger] sessions[i]).id != id
}

/// Whether the session of a shard, if there is one and it is collecting,
/// holds a shard of that index already.
pub open spec fn holds_shard(sessions: Seq<SessionEntry>, frame: FecFrameView) -> bool {
    match first_session(sessions, frame.session_id, 0) {
        Some(at) => sessions[at].state matches SessionModel::Collecting { blocks, start_time } ==> has_block(
            blocks,
            frame.block_index,
        ),
        None => true,
    }
}

/// Whether a shard passes the door: a 16-byte identifier, the right hash,
/// and an index below the number of shards.
pub open spec fn admissible(frame: FecFrameView) -> bool {
    frame.session_id.len() == SESSION_ID_LEN && frame_is_valid(frame) && frame.block_index < frame.k
        + frame.m
}

/// What the search for a session finds.
pub proof fn lemma_first_session(sessions: Seq<SessionEntry>, id: Seq<u8>, from: int)
    requires
        0 <= from,
    ensures
        match first_session(sessions, id, from) {
            Some(at) => from <= at < sessions.len() && sessions[at].id == id && forall|j: int|
                from <= j < at ==> (#[trigger] sessions[j]).id != id,
            None => forall|j: int| from <= j < sessions.len() ==> (#[trigger] sessions[j]).id != id,
        },
    decreases sessions.len() - from,
{
    if from < sessions.len() && sessions[from].id != id {
        lemma_first_session(sessions, id, from + 1);
    }
}

/// The search finds the session at `at` where that is the first one under
/// the identifier.
pub proof fn lemma_first_session_is(sessions: Seq<SessionEntry>, id: Seq<u8>, from: int, at: int)
    requires
        0 <= from <= at < sessions.len(),
        sessions[at].id == id,
        forall|j: int| from <= j < at ==> (#[trigger] sessions[j]).id != id,
    ensures
        first_session(sessions, id, from) == Some(at),
    decreases at - from,
{
    if from < at {
        lemma_first_session_is(sessions, id, from + 1, at);
    }
}

/// The search finds nothing where no session carries the identifier.
pub proof fn lemma_first_session_none(sessions: Seq<SessionEntry>, id: Seq<u8>, from: int)
    requires
        0 <= from,
        forall|j: int| from <= j < sessions.len() ==> (#[trigger] sessions[j]).id != id,
    ensures
        first_session(sessions, id, from) is None,
    decreases sessions.len() - from,
{
    if from < sessions.len() {
        lemma_first_session_none(sessions, id, from + 1);
    }
}

/// A sweep brings no identifier that was not there.
pub proof fn lemma_swept_unknown(
    sessions: Seq<SessionEntry>,
    id: Seq<u8>,
    session_timeout: u64,
    cleanup_timeout: u64,
    now: u64,
)
    requires
        unknown_session(sessions, id),
    ensures
        unknown_session(swept(sessions, session_timeout, cleanup_timeout, now), id),
    decreases sessions.len(),
{
    if sessions.len() > 0 {
        let before = sessions.drop_last();
        assert forall|i: int| 0 <= i < before.len() implies (#[trigger] before[i]).id != id by {
            assert(before[i] == sessions[i]);
        }
        lemma_swept_unknown(before, id, session_timeout, cleanup_timeout, now);
        assert(sessions.last() == sessions[sessions.len() - 1]);
    }
}

/// A sweep keeps identifiers apart.
pub proof fn lemma_swept_distinct(sessions: Seq<SessionEntry>, session_timeout: u64, cleanup_timeout: u64, now: u64)
    requires
        distinct_sessions(sessions),
    ensures
        distinct_sessions(swept(sessions, session_timeout, cleanup_timeout, now)),
    decreases sessions.len(),
{
    if sessions.len() > 0 {
        let before = sessions.drop_last();
        let last = sessions.last();
        assert forall|i: int, j: int| 0 <= i < j < before.len() implies (#[trigger] before[i]).id != (
        #[trigger] before[j]).id by {
            assert(before[i] == sessions[i]);
            assert(before[j] == sessions[j]);
        }
        lemma_swept_distinct(before, session_timeout, cleanup_timeout, now);
        assert forall|i: int| 0 <= i < before.len() implies (#[trigger] before[i]).id != last.id by {
            assert(before[i] == sessions[i]);
            assert(last == sessions[sessions.len() - 1]);
        }
        lemma_swept_unknown(before, last.id, session_timeout, cleanup_timeout, now);
    }
}

/// After a sweep, the search for an identifier finds what the sweep made of
/// the one session that carried it.
pub proof fn lemma_swept_session_found(
    sessions: Seq<SessionEntry>,
    at: int,
    session_timeout: u64,
    cleanup_timeout: u64,
    now: u64,
)
    requires
        distinct_sessions(sessions),
        0 <= at < sessions.len(),
    ensures
        match swept_session(sessions[at], session_timeout, cleanup_timeout, now) {
            Some(entry) => first_session(
                swept(sessions, session_timeout, cleanup_timeout, now),
                sessions[at].id,
                0,
            ) matches Some(found) && swept(sessions, session_timeout, cleanup_timeout, now)[found] == entry,
            None => first_session(
                swept(sessions, session_timeout, cleanup_timeout, now),
                sessions[at].id,
                0,
            ) is None,
        },
    decreases sessions.len(),
{
    let id = sessions[at].id;
    let before = sessions.drop_last();
    let last = sessions.last();
    let swept_before = swept(before, session_timeout, cleanup_timeout, now);
    let swept_all = swept(sessions, session_timeout, cleanup_timeout, now);
    assert(last == sessions[sessions.len() - 1]);
    assert forall|i: int, j: int| 0 <= i < j < before.len() implies (#[trigger] before[i]).id != (
    #[trigger] before[j]).id by {
        assert(before[i] == sessions[i]);
        assert(before[j] == sessions[j]);
    }
    if at == sessions.len() - 1 {
        assert forall|i: int| 0 <= i < before.len() implies (#[trigger] before[i]).id != id by {
            assert(before[i] == sessions[i]);
        }
        lemma_swept_unknown(before, id, session_timeout, cleanup_timeout, now);
        match swept_session(last, session_timeout, cleanup_timeout, now) {
            Some(entry) => {
                assert(swept_all == swept_before.push(entry));
                assert forall|j: int| 0 <= j < swept_before.len() implies (#[trigger] swept_all[j]).id != id by {
                    assert(swept_all[j] == swept_before[j]);
                }
                lemma_first_session_is(swept_all, id, 0, swept_before.len() as int);
            },
            None => {
                lemma_first_session_none(swept_all, id, 0);
            },
        }
    } else {
        assert(before[at] == sessions[at]);
        assert(last.id != id);
        lemma_swept_session_found(before, at, session_timeout, cleanup_timeout, now);
        lemma_first_session(swept_before, id, 0);
        match swept_session(last, session_timeout, cleanup_timeout, now) {
            Some(kept) => {
                assert(swept_all == swept_before.push(kept));
                assert(kept.id == last.id);
                match first_session(swept_before, id, 0) {
                    Some(found) => {
                        assert forall|j: int| 0 <= j < found implies (#[trigger] swept_all[j]).id != id by {
                            assert(swept_all[j] == swept_before[j]);
                        }
                        assert(swept_all[found] == swept_before[found]);
                        lemma_first_session_is(swept_all, id, 0, found);
                    },
                    None => {
                        assert forall|j: int| 0 <= j < swept_all.len() implies (#[trigger] swept_all[j]).id
                            != id by {
                            if j < swept_before.len() {
                                assert(swept_all[j] == swept_before[j]);
                            }
                        }
                        lemma_first_session_none(swept_all, id, 0);
                    },
                }
            },
            None => {},
        }
    }
}

/// A sweep keeps identifiers apart, and a session that held a shard still
/// does where it is still collecting.
pub proof fn lemma_cleanup_keeps_shard(state: ReassemblerState, frame: FecFrameView, now: u64)
    requires
        distinct_sessions(state.sessions),
        holds_shard(state.sessions, frame),
    ensures
        distinct_sessions(state.cleanup(now).sessions),
        holds_shard(state.cleanup(now).sessions, frame),
{
    lemma_swept_distinct(state.sessions, state.session_timeout, state.cleanup_timeout, now);
    lemma_first_session(state.sessions, frame.session_id, 0);
    match first_session(state.sessions, frame.session_id, 0) {
        Some(at) => {
            lemma_swept_session_found(state.sessions, at, state.session_timeout, state.cleanup_timeout, now);
        },
        None => {
            lemma_swept_unknown(
                state.sessions,
                frame.session_id,
                state.session_timeout,
                state.cleanup_timeout,
                now,
            );
            lemma_first_session_none(state.cleanup(now).sessions, frame.session_id, 0);
        },
    }
}

/// Once a shard that passes the door was taken, its session holds it, or is
/// no longer collecting; and identifiers stay apart.
pub proof fn lemma_accept_holds_shard(state: ReassemblerState, frame: FecFrameView, now: u64)
    requires
        distinct_sessions(state.sessions),
    ensures
        distinct_sessions(state.accept(frame, now).state.sessions),
        admissible(frame) ==> holds_shard(state.accept(frame, now).state.sessions, frame),
{
    let after = state.accept(frame, now).state.sessions;
    lemma_first_session(state.sessions, frame.session_id, 0);
    if admissible(frame) {
        match first_session(state.sessions, frame.session_id, 0) {
            None => {
                let opened = SessionEntry {
                    id: frame.session_id,
                    state: SessionModel::Collecting {
                        blocks: seq![(frame.block_index, frame.payload)],
                        start_time: now,
                    },
                };
                assert(after == state.sessions.push(opened));
                assert forall|j: int| 0 <= j < state.sessions.len() implies (#[trigger] after[j]).id
                    != frame.session_id by {
                    assert(after[j] == state.sessions[j]);
                }
                lemma_first_session_is(after, frame.session_id, 0, state.sessions.len() as int);
                assert(seq![(frame.block_index, frame.payload)][0].0 == frame.block_index);
                assert forall|i: int, j: int| 0 <= i < j < after.len() implies (#[trigger] after[i]).id != (
                #[trigger] after[j]).id by {
                    assert(after[i] == state.sessions[i]);
                    if j < state.sessions.len() {
                        assert(after[j] == state.sessions[j]);
                    }
                }
            },
            Some(at) => {
                assert(after.len() == state.sessions.len());
                assert forall|j: int| 0 <= j < after.len() implies (#[trigger] after[j]).id
                    == state.sessions[j].id by {}
                assert forall|j: int| 0 <= j < at implies (#[trigger] after[j]).id != frame.session_id by {
                    assert(after[j].id == state.sessions[j].id);
                }
                lemma_first_session_is(after, frame.session_id, 0, at);
                match state.sessions[at].state {
                    SessionModel::Collecting { blocks, start_time } => {
                        if !has_block(blocks, frame.block_index) {
                            let more = blocks.push((frame.block_index, frame.payload));
                            assert(more[blocks.len() as int].0 == frame.block_index);
                            assert(has_block(more, frame.block_index));
                        }
                    },
                    _ => {},
                }
                assert forall|i: int, j: int| 0 <= i < j < after.len() implies (#[trigger] after[i]).id != (
                #[trigger] after[j]).id by {
                    assert(after[i].id == state.sessions[i].id);
                    assert(after[j].id == state.sessions[j].id);
                }
            },
        }
    } else {
        assert(after == state.sessions);
    }
}

/// A sweep leaves no collecting session with two shards of one index.
pub proof fn lemma_swept_unique_shards(
    sessions: Seq<SessionEntry>,
    session_timeout: u64,
    cleanup_timeout: u64,
    now: u64,
)
    requires
        unique_shards(sessions),
    ensures
        unique_shards(swept(sessions, session_timeout, cleanup_timeout, now)),
    decreases sessions.len(),
{
    if sessions.len() > 0 {
        let before = sessions.drop_last();
        assert forall|i: int| 0 <= i < before.len() implies session_shards_unique(#[trigger] before[i]) by {
            assert(before[i] == sessions[i]);
        }
        lemma_swept_unique_shards(before, session_timeout, cleanup_timeout, now);
        assert(session_shards_unique(sessions[sessions.len() - 1]));
    }
}

/// Taking a shard leaves no collecting session with two shards of one
/// index.
pub proof fn lemma_accept_unique_shards(state: ReassemblerState, frame: FecFrameView, now: u64)
    requires
        unique_shards(state.sessions),
    ensures
        unique_shards(state.accept(frame, now).state.sessions),
{
    let after = state.accept(frame, now).state.sessions;
    lemma_first_session(state.sessions, frame.session_id, 0);
    if admissible(frame) {
        match first_session(state.sessions, frame.session_id, 0) {
            None => {
                assert forall|i: int| 0 <= i < after.len() implies session_shards_unique(#[trigger] after[i]) by {
                    if i < state.sessions.len() {
                        assert(after[i] == state.sessions[i]);
                    }
                }
            },
            Some(at) => {
                assert(session_shards_unique(state.sessions[at]));
                match state.sessions[at].state {
                    SessionModel::Collecting { blocks, start_time } => {
                        if !has_block(blocks, frame.block_index) {
                            let more = blocks.push((frame.block_index, frame.payload));
                            assert forall|i: int, j: int| 0 <= i < j < more.len() implies (#[trigger] more[i]).0
                                != (#[trigger] more[j]).0 by {
                                assert(more[i] == blocks[i]);
                                if j < blocks.len() {
                                    assert(more[j] == blocks[j]);
                                }
                            }
                        }
                    },
                    _ => {},
                }
                assert forall|i: int| 0 <= i < after.len() implies session_shards_unique(#[trigger] after[i]) by {
                    if i != at {
                        assert(after[i] == state.sessions[i]);
                    }
                }
            },
        }
    } else {
        assert(after == state.sessions);
    }
}

/// Handling a shard keeps a reassembler well formed.
pub proof fn lemma_process_keeps_wf(state: ReassemblerState, frame: FecFrameView, now: u64)
    requires
        state.wf(),
    ensures
        state.process(frame, now).state.wf(),
{
    lemma_process_keeps_sessions_distinct(state, frame, now);
    lemma_swept_unique_shards(state.sessions, state.session_timeout, state.cleanup_timeout, now);
    lemma_accept_unique_shards(state.cleanup(now), frame, now);
}

/// Handling a shard keeps the identifiers of the sessions apart.
pub proof fn lemma_process_keeps_sessions_distinct(state: ReassemblerState, frame: FecFrameView, now: u64)
    requires
        distinct_sessions(state.sessions),
    ensures
        distinct_sessions(state.process(frame, now).state.sessions),
{
    lemma_swept_distinct(state.sessions, state.session_timeout, state.cleanup_timeout, now);
    lemma_accept_holds_shard(state.cleanup(now), frame, now);
}

/// A shard that is handed in a second time, whenever that is, restores
/// nothing: the answer is `Ok(None)`, or the error that it met the first
/// time.
pub proof fn lemma_same_shard_twice(state: ReassemblerState, frame: FecFrameView, first: u64, second: u64)
    requires
        distinct_sessions(state.sessions),
    ensures
        admissible(frame) ==> state.process(frame, first).state.process(frame, second).result == Ok::<
            Option<RecoveredView>,
            FecError,
        >(None),
        !admissible(frame) ==> state.process(frame, first).state.process(frame, second).result
            == state.process(frame, first).result && state.process(frame, first).result is Err,
{
    lemma_swept_distinct(state.sessions, state.session_timeout, state.cleanup_timeout, first);
    lemma_accept_holds_shard(state.cleanup(first), frame, first);
    let once = state.process(frame, first).state;
    if admissible(frame) {
        lemma_cleanup_keeps_shard(once, frame, second);
    }
}

/// The first shard of a session opens it: the answer is `Ok(None)`, and the
/// session stands at the end of the list, collecting, with that one shard
/// and `now` as its start.
pub proof fn lemma_first_shard_opens_session(state: ReassemblerState, frame: FecFrameView, now: u64)
    requires
        admissible(frame),
        first_session(state.sessions, frame.session_id, 0) is None,
    ensures
        state.accept(frame, now).result == Ok::<Option<RecoveredView>, FecError>(None),
        state.accept(frame, now).state.sessions == state.sessions.push(
            SessionEntry {
                id: frame.session_id,
                state: SessionModel::Collecting {
                    blocks: seq![(frame.block_index, frame.payload)],
                    start_time: now,
                },
            },
        ),
        state.accept(frame, now).state.total_sessions == counted(state.total_sessions, 1),
{
}

/// A shard that its collecting session holds already changes nothing, and
/// neither does any shard for a session that is completed or failed: the
/// answer is `Ok(None)`.
pub proof fn lemma_known_shard_changes_nothing(state: ReassemblerState, frame: FecFrameView, now: u64, at: int)
    requires
        admissible(frame),
        first_session(state.sessions, frame.session_id, 0) == Some(at),
        match state.sessions[at].state {
            SessionModel::Collecting { blocks, start_time } => has_block(blocks, frame.block_index),
            _ => true,
        },
    ensures
        state.accept(frame, now) == (Handled { state, result: Ok(None) }),
{
}

/// A new shard that leaves its collecting session below `k` shards is taken
/// and nothing else happens: the answer is `Ok(None)`, and the session goes
/// on collecting with the shard behind those that it held, under its old
/// start.
pub proof fn lemma_new_shard_is_collected(state: ReassemblerState, frame: FecFrameView, now: u64, at: int)
    requires
        admissible(frame),
        first_session(state.sessions, frame.session_id, 0) == Some(at),
        state.sessions[at].state is Collecting,
        !has_block(state.sessions[at].state->Collecting_blocks, frame.block_index),
        state.sessions[at].state->Collecting_blocks.len() + 1 < frame.k,
    ensures
        state.accept(frame, now).result == Ok::<Option<RecoveredView>, FecError>(None),
        state.accept(frame, now).state == state.with_session(
            at,
            SessionModel::Collecting {
                blocks: state.sessions[at].state->Collecting_blocks.push((frame.block_index, frame.payload)),
                start_time: state.sessions[at].state->Collecting_start_time,
            },
        ),
{
}

/// A new shard that brings its collecting session to `k` shards or more
/// makes the session decode. Where that works the session completes, and
/// the answer carries the message with the number of shards used and sent.
/// Where it does not, the session goes on collecting with all its shards
/// and the answer is `Ok(None)`, unless the session is past its timeout,
/// when it fails with the error of the decoding.
pub proof fn lemma_kth_shard_decodes(state: ReassemblerState, frame: FecFrameView, now: u64, at: int)
    requires
        admissible(frame),
        first_session(state.sessions, frame.session_id, 0) == Some(at),
        state.sessions[at].state is Collecting,
        !has_block(state.sessions[at].state->Collecting_blocks, frame.block_index),
        state.sessions[at].state->Collecting_blocks.len() + 1 >= frame.k,
    ensures
        ({
            let blocks = state.sessions[at].state->Collecting_blocks.push((frame.block_index, frame.payload));
            let start_time = state.sessions[at].state->Collecting_start_time;
            let after = state.accept(frame, now);
            match decode_blocks_spec(frame.k as nat, frame.m as nat, blocks) {
                Ok(data) => {
                    &&& after.result == Ok::<Option<RecoveredView>, FecError>(
                        Some(
                            RecoveredView {
                                session_id: frame.session_id,
                                original_data: data,
                                recovery_time: now,
                                blocks_used: blocks.len() as usize,
                                blocks_total: (frame.k + frame.m) as usize,
                            },
                        ),
                    )
                    &&& after.state.sessions == state.sessions.update(
                        at,
                        SessionEntry {
                            id: state.sessions[at].id,
                            state: SessionModel::Completed { data, recovery_time: now },
                        },
                    )
                    &&& after.state.successful_recoveries == counted(state.successful_recoveries, 1)
                    &&& after.state.pending_messages.len() == state.pending_messages.len() + 1
                },
                Err(e) => if elapsed(now, start_time) > state.session_timeout {
                    &&& after.result == Err::<Option<RecoveredView>, FecError>(e)
                    &&& after.state.sessions == state.sessions.update(
                        at,
                        SessionEntry {
                            id: state.sessions[at].id,
                            state: SessionModel::Failed { reason: e, failure_time: now },
                        },
                    )
                    &&& after.state.failed_recoveries == counted(state.failed_recoveries, 1)
                } else {
                    &&& after.result == Ok::<Option<RecoveredView>, FecError>(None)
                    &&& after.state == state.with_session(at, SessionModel::Collecting { blocks, start_time })
                },
            }
        }),
{
}

/// The shard that brings a collecting session to `k` different shards of
/// one message restores that message, whatever the order in which the
/// shards came: the answer carries the message, and the session completes.
pub proof fn lemma_kth_shard_restores(
    state: ReassemblerState,
    at: int,
    blocks: Seq<(u32, Seq<u8>)>,
    start_time: u64,
    frame: FecFrameView,
    now: u64,
    data: Seq<u8>,
)
    requires
        0 <= at < state.sessions.len(),
        crate::fec::encoder::shards_decode_in_any_order(frame.k as nat, frame.m as nat, data),
        crate::fec::decoder::drawn_from(
            crate::fec::encoder::shard_payloads(frame.k as nat, frame.m as nat, data),
            blocks,
        ),
        crate::fec::decoder::covered((frame.k + frame.m) as nat, blocks) >= frame.k,
    ensures
        state.collect(at, blocks, start_time, frame, now).result matches Ok(Some(message))
            && message.original_data == data && message.session_id == frame.session_id,
        state.collect(at, blocks, start_time, frame, now).state.sessions[at].state
            == (SessionModel::Completed { data, recovery_time: now }),
{
    crate::fec::decoder::lemma_gathered_bounded((frame.k + frame.m) as nat, blocks, blocks.len() as int);
}

} // verus!
