use silent_speaker::fec::codec::FecError;
use silent_speaker::fec::encoder::FECEncoder;
use silent_speaker::fec::frame::create_fec_frame;
use silent_speaker::fec::reassembler::{FECReassembler, SessionPhase};
use silent_speaker::whisper::{BlockType, FecFrame};

const SECOND: u64 = 1_000_000_000;
const MILLI: u64 = 1_000_000;

fn shards(message: &[u8], session: u8) -> Vec<FecFrame> {
    FECEncoder::new(4, 2).unwrap().encode_with_session(message, [session; 16]).unwrap()
}

#[test]
fn message_is_restored_with_the_fourth_shard() {
    let frames = shards(b"Critical Alert: System Failure!", 1);
    let mut reassembler = FECReassembler::new(4, 2);
    assert!(reassembler.process_fec_frame_at(&frames[0], 10).unwrap().is_none());
    assert!(reassembler.process_fec_frame_at(&frames[1], 20).unwrap().is_none());
    assert!(reassembler.process_fec_frame_at(&frames[3], 30).unwrap().is_none());
    assert_eq!(reassembler.get_stats().pending_sessions, 1);
    assert_eq!(reassembler.session_phase(&[1u8; 16]), Some(SessionPhase::Collecting { received: 3 }));
    assert_eq!(reassembler.session_phase(&[2u8; 16]), None);
    let recovered = reassembler.process_fec_frame_at(&frames[4], 40).unwrap().unwrap();
    assert_eq!(recovered.original_data, b"Critical Alert: System Failure!");
    assert_eq!(recovered.session_id, vec![1u8; 16]);
    assert_eq!(recovered.blocks_used, 4);
    assert_eq!(recovered.blocks_total, 6);
    assert_eq!(recovered.recovery_time, 40);
    assert_eq!(reassembler.session_phase(&[1u8; 16]), Some(SessionPhase::Completed));

    let stats = reassembler.get_stats();
    assert_eq!(stats.total_sessions, 1);
    assert_eq!(stats.successful_recoveries, 1);
    assert_eq!(stats.failed_recoveries, 0);
    assert_eq!(stats.pending_sessions, 0);

    assert_eq!(reassembler.pending_message_count(), 1);
    let queued = reassembler.next_recovered_message().unwrap();
    assert_eq!(queued.original_data, b"Critical Alert: System Failure!");
    assert_eq!(reassembler.pending_message_count(), 0);
    assert!(reassembler.next_recovered_message().is_none());
}

#[test]
fn every_order_of_shards_restores_the_same_message() {
    let frames = shards(b"order does not matter", 2);
    let orders: [[usize; 4]; 4] = [[0, 1, 2, 3], [5, 4, 3, 2], [2, 5, 0, 4], [4, 1, 5, 3]];
    for order in orders {
        let mut reassembler = FECReassembler::new(4, 2);
        let mut outcomes = Vec::new();
        for &i in &order {
            outcomes.push(reassembler.process_fec_frame_at(&frames[i], 5).unwrap());
        }
        assert!(outcomes[..3].iter().all(|o| o.is_none()));
        assert_eq!(outcomes[3].as_ref().unwrap().original_data, b"order does not matter");
    }
}

#[test]
fn a_shard_fed_twice_counts_once() {
    let frames = shards(b"idempotent", 3);
    let mut reassembler = FECReassembler::new(4, 2);
    for _ in 0..3 {
        assert!(reassembler.process_fec_frame_at(&frames[0], 1).unwrap().is_none());
    }
    assert!(reassembler.process_fec_frame_at(&frames[1], 1).unwrap().is_none());
    assert!(reassembler.process_fec_frame_at(&frames[1], 1).unwrap().is_none());
    assert!(reassembler.process_fec_frame_at(&frames[2], 1).unwrap().is_none());
    let first = reassembler.process_fec_frame_at(&frames[5], 2).unwrap();
    assert!(first.is_some());
    // the completing shard again, and a late one: accepted silently
    assert!(reassembler.process_fec_frame_at(&frames[5], 3).unwrap().is_none());
    assert!(reassembler.process_fec_frame_at(&frames[4], 3).unwrap().is_none());
    assert_eq!(reassembler.get_stats().successful_recoveries, 1);
    assert_eq!(reassembler.pending_message_count(), 1);
}

#[test]
fn corrupt_and_misplaced_shards_are_refused() {
    let frames = shards(b"integrity", 4);
    let mut reassembler = FECReassembler::new(4, 2);

    let mut bad_hash = frames[0].clone();
    bad_hash.payload[0] ^= 0xFF;
    assert_eq!(reassembler.process_fec_frame_at(&bad_hash, 1).unwrap_err(), FecError::CorruptFrame);

    let beyond = create_fec_frame([4u8; 16], 6, 4, 2, vec![0u8; 64], BlockType::Redundant);
    assert_eq!(
        reassembler.process_fec_frame_at(&beyond, 1).unwrap_err(),
        FecError::InvalidBlockIndex(6)
    );

    let mut short_id = frames[0].clone();
    short_id.session_id.truncate(15);
    assert_eq!(
        reassembler.process_fec_frame_at(&short_id, 1).unwrap_err(),
        FecError::InvalidSessionId
    );

    assert_eq!(reassembler.get_stats().total_sessions, 0);
    assert_eq!(reassembler.get_stats().pending_sessions, 0);
}

#[test]
fn sessions_are_kept_apart_by_identifier() {
    let a = shards(b"message A", 0xA);
    let b = shards(b"message B", 0xB);
    let mut reassembler = FECReassembler::new(4, 2);
    for i in 0..3 {
        assert!(reassembler.process_fec_frame_at(&a[i], 1).unwrap().is_none());
        assert!(reassembler.process_fec_frame_at(&b[i + 2], 1).unwrap().is_none());
    }
    assert_eq!(reassembler.get_stats().pending_sessions, 2);
    assert_eq!(reassembler.process_fec_frame_at(&b[0], 2).unwrap().unwrap().original_data, b"message B");
    assert_eq!(reassembler.process_fec_frame_at(&a[5], 3).unwrap().unwrap().original_data, b"message A");
    assert_eq!(reassembler.get_stats().total_sessions, 2);
    assert_eq!(reassembler.next_recovered_message().unwrap().session_id, vec![0xBu8; 16]);
    assert_eq!(reassembler.next_recovered_message().unwrap().session_id, vec![0xAu8; 16]);
}

#[test]
fn collecting_session_fails_after_thirty_seconds() {
    let frames = shards(b"too slow", 5);
    let mut reassembler = FECReassembler::new(4, 2);
    reassembler.process_fec_frame_at(&frames[0], 0).unwrap();
    reassembler.process_fec_frame_at(&frames[1], 30 * SECOND).unwrap();
    assert_eq!(reassembler.get_stats().pending_sessions, 1);
    // one nanosecond past the timeout the sweep fails the session
    assert!(reassembler.process_fec_frame_at(&frames[2], 30 * SECOND + 1).unwrap().is_none());
    let stats = reassembler.get_stats();
    assert_eq!(stats.pending_sessions, 0);
    assert_eq!(stats.failed_recoveries, 1);
    assert_eq!(
        reassembler.session_phase(&[5u8; 16]),
        Some(SessionPhase::Failed { reason: FecError::SessionTimeout })
    );
    // later shards of the failed session change nothing
    assert!(reassembler.process_fec_frame_at(&frames[3], 31 * SECOND).unwrap().is_none());
    assert!(reassembler.process_fec_frame_at(&frames[4], 31 * SECOND).unwrap().is_none());
    assert_eq!(reassembler.get_stats().successful_recoveries, 0);
    assert_eq!(reassembler.get_stats().total_sessions, 1);
}

#[test]
fn finished_sessions_are_forgotten_after_the_cleanup_timeout() {
    let frames = shards(b"late duplicates", 6);
    let mut reassembler = FECReassembler::new(4, 2);
    for i in 0..4 {
        reassembler.process_fec_frame_at(&frames[i], 0).unwrap();
    }
    assert_eq!(reassembler.get_stats().successful_recoveries, 1);
    // within 300 seconds a late shard is suppressed
    assert!(reassembler.process_fec_frame_at(&frames[4], 300 * SECOND).unwrap().is_none());
    assert_eq!(reassembler.get_stats().total_sessions, 1);
    // after that the session is gone and the shard opens a new one
    assert!(reassembler.process_fec_frame_at(&frames[4], 300 * SECOND + 1).unwrap().is_none());
    let stats = reassembler.get_stats();
    assert_eq!(stats.total_sessions, 2);
    assert_eq!(stats.pending_sessions, 1);
}

#[test]
fn timeouts_can_be_set() {
    let frames = shards(b"short fuse", 7);
    let mut reassembler = FECReassembler::new(4, 2);
    reassembler.set_session_timeout(5);
    reassembler.set_session_cleanup_timeout(10);
    reassembler.process_fec_frame_at(&frames[0], 0).unwrap();
    reassembler.cleanup_timeout_sessions_at(5);
    assert_eq!(reassembler.get_stats().pending_sessions, 1);
    reassembler.cleanup_timeout_sessions_at(6);
    assert_eq!(reassembler.get_stats().pending_sessions, 0);
    assert_eq!(reassembler.get_stats().failed_recoveries, 1);
    // the failed session is swept ten ticks after it failed
    reassembler.cleanup_timeout_sessions_at(16);
    reassembler.process_fec_frame_at(&frames[0], 16).unwrap();
    assert_eq!(reassembler.get_stats().total_sessions, 1);
    reassembler.cleanup_timeout_sessions_at(17);
    reassembler.process_fec_frame_at(&frames[0], 17).unwrap();
    assert_eq!(reassembler.get_stats().total_sessions, 2);
}

#[test]
fn failed_decoding_keeps_the_shards_for_later() {
    // shards that claim k = 2 but are of different lengths cannot be restored
    let one = create_fec_frame([8u8; 16], 0, 2, 1, vec![1u8; 8], BlockType::Original);
    let two = create_fec_frame([8u8; 16], 1, 2, 1, vec![1u8; 9], BlockType::Original);
    let mut reassembler = FECReassembler::new(2, 1);
    assert!(reassembler.process_fec_frame_at(&one, 0).unwrap().is_none());
    assert!(reassembler.process_fec_frame_at(&two, 1).unwrap().is_none());
    let stats = reassembler.get_stats();
    assert_eq!(stats.pending_sessions, 1);
    assert_eq!(stats.failed_recoveries, 0);
    assert_eq!(stats.successful_recoveries, 0);
}

#[test]
fn mean_recovery_time_is_smoothed_from_the_third_recovery_on() {
    let mut reassembler = FECReassembler::new(4, 2);
    let mut feed = |session: u8, start: u64, took_ms: u64, reassembler: &mut FECReassembler| {
        let frames = shards(b"timing", session);
        reassembler.process_fec_frame_at(&frames[0], start).unwrap();
        reassembler.process_fec_frame_at(&frames[1], start).unwrap();
        reassembler.process_fec_frame_at(&frames[2], start).unwrap();
        reassembler.process_fec_frame_at(&frames[3], start + took_ms * MILLI).unwrap().unwrap();
    };
    feed(1, 0, 100, &mut reassembler);
    assert_eq!(reassembler.get_stats().average_recovery_time_ms, 100);
    feed(2, SECOND, 200, &mut reassembler);
    assert_eq!(reassembler.get_stats().average_recovery_time_ms, 200);
    feed(3, 2 * SECOND, 1000, &mut reassembler);
    // 200 - 20 + 100
    assert_eq!(reassembler.get_stats().average_recovery_time_ms, 280);
    feed(4, 4 * SECOND, 5, &mut reassembler);
    // 280 - 28 + 0
    assert_eq!(reassembler.get_stats().average_recovery_time_ms, 252);
}

#[test]
fn reassembler_reads_its_own_clock() {
    let frames = shards(b"wall clock", 9);
    let mut reassembler = FECReassembler::new(4, 2);
    assert_eq!(reassembler.params(), (4, 2));
    let mut restored = None;
    for frame in frames.iter().take(4) {
        restored = reassembler.process_fec_frame(frame).unwrap();
    }
    assert_eq!(restored.unwrap().original_data, b"wall clock");
    reassembler.cleanup_timeout_sessions();
    assert_eq!(reassembler.get_stats().successful_recoveries, 1);
}
