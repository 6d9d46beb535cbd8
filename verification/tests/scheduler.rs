use silent_speaker::fec::encoder::FECEncoder;
use silent_speaker::stream::pool::StreamState;
use silent_speaker::stream::scheduler::{is_high_priority, StreamScheduler};
use silent_speaker::whisper::{FecFrame, Priority};

const SECOND: u64 = 1_000_000_000;

fn shards(session: u8) -> Vec<FecFrame> {
    FECEncoder::new(4, 2).unwrap().encode_with_session(b"scheduled", [session; 16]).unwrap()
}

#[test]
fn high_and_urgent_are_the_high_classes() {
    assert!(is_high_priority(Priority::Urgent));
    assert!(is_high_priority(Priority::High));
    assert!(!is_high_priority(Priority::Normal));
    assert!(!is_high_priority(Priority::Low));
}

#[test]
fn all_shards_get_their_own_stream() {
    let mut scheduler = StreamScheduler::new(10);
    let frames = shards(1);
    scheduler.submit_fec_task_at(frames.clone(), [1u8; 16], Priority::Urgent, 0);
    assert_eq!(scheduler.stats().pending_counts.urgent, 1);
    let dispatched = scheduler.try_send_at(1);
    assert_eq!(dispatched.len(), 6);
    for (i, (stream_id, frame)) in dispatched.iter().enumerate() {
        assert_eq!(*stream_id, 4 * i as u64);
        assert_eq!(frame, &frames[i]);
    }
    let stats = scheduler.stats();
    assert_eq!(stats.pending_counts.urgent, 0);
    assert_eq!(stats.active_sessions, 1);
    assert_eq!(stats.pool_stats.high_priority_streams, 6);
    assert_eq!(scheduler.stream_state(0), Some(StreamState::HighPriority));
}

#[test]
fn partial_dispatch_keeps_the_rest_queued() {
    let mut scheduler = StreamScheduler::new(4);
    let frames = shards(2);
    scheduler.submit_fec_task_at(frames.clone(), [2u8; 16], Priority::Normal, 0);
    let first = scheduler.try_send_at(1);
    assert_eq!(first.len(), 4);
    assert_eq!(scheduler.stats().pending_counts.normal, 1);
    assert_eq!(scheduler.stats().pool_stats.low_priority_streams, 4);
    // nothing is free: the rest waits
    assert_eq!(scheduler.try_send_at(2).len(), 0);
    scheduler.mark_frame_sent_at(0, 3);
    scheduler.mark_frame_sent_at(4, 3);
    scheduler.mark_frame_sent_at(8, 3);
    let second = scheduler.try_send_at(4);
    assert_eq!(second.len(), 2);
    assert_eq!(second[0], (0, frames[4].clone()));
    assert_eq!(second[1], (4, frames[5].clone()));
    assert_eq!(scheduler.stats().pending_counts.normal, 0);
}

#[test]
fn classes_are_served_from_urgent_down() {
    let mut scheduler = StreamScheduler::new(12);
    scheduler.submit_fec_task_at(shards(1), [1u8; 16], Priority::Low, 0);
    scheduler.submit_fec_task_at(shards(2), [2u8; 16], Priority::Urgent, 0);
    let dispatched = scheduler.try_send_at(1);
    assert_eq!(dispatched.len(), 12);
    assert!(dispatched[..6].iter().all(|(_, f)| f.session_id == vec![2u8; 16]));
    assert!(dispatched[6..].iter().all(|(_, f)| f.session_id == vec![1u8; 16]));
    assert_eq!(scheduler.stats().pool_stats.high_priority_streams, 6);
    assert_eq!(scheduler.stats().pool_stats.low_priority_streams, 6);
    assert_eq!(scheduler.stats().active_sessions, 2);
}

#[test]
fn high_class_preempts_low_streams_when_the_pool_is_full() {
    let mut scheduler = StreamScheduler::new(6);
    scheduler.submit_fec_task_at(shards(1), [1u8; 16], Priority::Low, 0);
    assert_eq!(scheduler.try_send_at(1).len(), 6);
    scheduler.submit_fec_task_at(shards(2), [2u8; 16], Priority::High, 2);
    let dispatched = scheduler.try_send_at(3);
    assert_eq!(dispatched.len(), 6);
    assert_eq!(scheduler.stats().pool_stats.low_priority_streams, 0);
    assert_eq!(scheduler.stats().pool_stats.high_priority_streams, 6);
    // a normal task finds nothing to take
    scheduler.submit_fec_task_at(shards(3), [3u8; 16], Priority::Normal, 4);
    assert_eq!(scheduler.try_send_at(5).len(), 0);
    assert_eq!(scheduler.stats().pending_counts.normal, 1);
}

#[test]
fn session_completion_releases_the_recorded_streams() {
    let mut scheduler = StreamScheduler::new(10);
    scheduler.submit_fec_task_at(shards(1), [1u8; 16], Priority::High, 0);
    assert_eq!(scheduler.try_send_at(1).len(), 6);
    scheduler.mark_session_complete_at([9u8; 16], 2);
    assert_eq!(scheduler.stats().pool_stats.free_streams, 0);
    scheduler.mark_session_complete_at([1u8; 16], 2);
    let stats = scheduler.stats();
    assert_eq!(stats.active_sessions, 0);
    assert_eq!(stats.pool_stats.free_streams, 6);
    assert_eq!(stats.pool_stats.high_priority_streams, 0);
    assert_eq!(scheduler.stream_state(20), Some(StreamState::Free));
}

#[test]
fn a_task_that_waited_too_long_moves_up_a_class() {
    let mut scheduler = StreamScheduler::new(0);
    scheduler.submit_fec_task_at(shards(1), [1u8; 16], Priority::Low, 4 * SECOND);
    // at ten seconds of waiting nothing moves yet; the boost has had its turn
    scheduler.try_send_at(14 * SECOND);
    assert_eq!(scheduler.stats().pending_counts.low, 1);
    // past ten seconds the round moves the task up one class
    scheduler.try_send_at(14 * SECOND + 1);
    let counts = scheduler.stats().pending_counts;
    assert_eq!((counts.low, counts.normal, counts.high, counts.urgent), (0, 1, 0, 0));
}

#[test]
fn a_starving_queue_is_boosted_class_by_class() {
    let mut scheduler = StreamScheduler::new(0);
    scheduler.submit_fec_task_at(shards(1), [1u8; 16], Priority::Low, 0);
    scheduler.submit_fec_task_at(shards(2), [2u8; 16], Priority::Low, 9 * SECOND);
    // the head of the low queue starves: the whole queue joins the normal queue, whose head
    // then starves as well
    scheduler.try_send_at(10 * SECOND + 1);
    let counts = scheduler.stats().pending_counts;
    assert_eq!((counts.low, counts.normal, counts.high, counts.urgent), (0, 0, 2, 0));
}

#[test]
fn between_boosts_a_starving_task_is_promoted_one_class_per_round() {
    let mut scheduler = StreamScheduler::new(0);
    // the boost ran at 5 s and will not run again before 10 s
    scheduler.try_send_at(5 * SECOND);
    scheduler.submit_fec_task_at(shards(1), [1u8; 16], Priority::Low, 0);
    scheduler.try_send_at(10 * SECOND - 1);
    assert_eq!(scheduler.stats().pending_counts.low, 1);
    scheduler.submit_fec_task_at(shards(2), [2u8; 16], Priority::Normal, 9 * SECOND);
    // at 10 s + 1 the boost runs first: the low queue's head starves, the normal queue's
    // head, which is the younger task, does not
    scheduler.try_send_at(10 * SECOND + 1);
    let counts = scheduler.stats().pending_counts;
    assert_eq!((counts.low, counts.normal, counts.high), (0, 1, 1));
}

#[test]
fn promotion_resets_the_waiting_time_and_goes_to_the_head() {
    let mut scheduler = StreamScheduler::new(0);
    scheduler.try_send_at(20 * SECOND);
    scheduler.submit_fec_task_at(shards(1), [1u8; 16], Priority::Normal, 0);
    scheduler.submit_fec_task_at(shards(2), [2u8; 16], Priority::High, 21 * SECOND);
    // no boost before 25 s: the round itself promotes the starving normal task
    scheduler.try_send_at(22 * SECOND);
    let counts = scheduler.stats().pending_counts;
    assert_eq!((counts.normal, counts.high), (0, 2));
    // with its time reset at 22 s it stays where it is for another ten seconds
    scheduler.try_send_at(32 * SECOND);
    let counts = scheduler.stats().pending_counts;
    assert_eq!((counts.normal, counts.high, counts.urgent), (0, 2, 0));
}

#[test]
fn round_closes_streams_idle_past_thirty_seconds() {
    let mut scheduler = StreamScheduler::new(10);
    scheduler.submit_fec_task_at(shards(1), [1u8; 16], Priority::Normal, 0);
    assert_eq!(scheduler.try_send_at(0).len(), 6);
    scheduler.mark_session_complete_at([1u8; 16], SECOND);
    assert_eq!(scheduler.stats().pool_stats.total_streams, 6);
    scheduler.try_send_at(31 * SECOND);
    assert_eq!(scheduler.stats().pool_stats.total_streams, 6);
    scheduler.try_send_at(31 * SECOND + 1);
    assert_eq!(scheduler.stats().pool_stats.total_streams, 0);
}

#[test]
fn scheduler_reads_its_own_clock() {
    let mut scheduler = StreamScheduler::new(10);
    scheduler.submit_fec_task(shards(1), [1u8; 16], Priority::Urgent);
    let dispatched = scheduler.try_send();
    assert_eq!(dispatched.len(), 6);
    scheduler.mark_frame_sent(dispatched[0].0);
    assert_eq!(scheduler.stats().pool_stats.free_streams, 1);
    scheduler.mark_session_complete([1u8; 16]);
    assert_eq!(scheduler.stats().pool_stats.free_streams, 6);
}

#[test]
fn a_lone_task_leaves_in_the_second_round_at_the_latest() {
    let mut scheduler = StreamScheduler::new(10);
    let frames = shards(1);
    scheduler.submit_fec_task_at(frames.clone(), [1u8; 16], Priority::Low, 0);
    // it has waited too long: it moves up instead of being sent
    assert!(scheduler.try_send_at(10 * SECOND + 1).is_empty());
    assert_eq!(scheduler.stats().pending_counts.high, 1);
    // the next round, within the maximum waiting time, sends it whole
    let dispatched = scheduler.try_send_at(15 * SECOND);
    assert_eq!(dispatched.len(), 6);
    for (i, (_, frame)) in dispatched.iter().enumerate() {
        assert_eq!(frame, &frames[i]);
    }
    assert_eq!(scheduler.stats().pool_stats.high_priority_streams, 6);

    // a task that has not waited too long leaves in the first round
    let mut scheduler = StreamScheduler::new(10);
    scheduler.submit_fec_task_at(frames.clone(), [1u8; 16], Priority::Low, 0);
    assert_eq!(scheduler.try_send_at(10 * SECOND).len(), 6);
    assert_eq!(scheduler.stats().pool_stats.low_priority_streams, 6);
}
