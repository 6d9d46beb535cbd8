use silent_speaker::fec::encoder::FECEncoder;
use silent_speaker::stream::manager::UnifiedStreamManager;
use silent_speaker::whisper::Priority;

const SECOND: u64 = 1_000_000_000;

#[test]
fn test_unified_stream_manager_basic() {
    let mut manager = UnifiedStreamManager::new(10);

    assert!(manager.reserve_stream(2));
    assert!(manager.is_reserved(2));

    let data = b"test message".to_vec();
    let result = manager.allocate_stream_for_normal_message(data.clone(), Priority::Normal);
    assert!(result.is_some());

    let (stream_id, returned_data) = result.unwrap();
    assert_eq!(returned_data, data);
    assert!(!manager.is_reserved(stream_id));
}

#[test]
fn test_stream_availability() {
    let mut manager = UnifiedStreamManager::new(5);

    manager.reserve_stream(2);

    assert!(!manager.is_stream_available(2));

    assert!(manager.is_stream_available(0) || manager.is_stream_available(4));
}

#[test]
fn reserving_is_idempotent_and_refused_for_streams_in_use() {
    let mut manager = UnifiedStreamManager::new(5);
    assert!(manager.reserve_stream_at(12, 1));
    assert!(manager.reserve_stream_at(12, 2));
    assert_eq!(manager.get_stats().reserved_streams, 1);
    assert_eq!(manager.get_stats().last_operation_time, Some(2));

    let (stream_id, _) = manager.allocate_stream_for_normal_message_at(vec![1], Priority::Low, 3).unwrap();
    assert_eq!(stream_id, 0);
    assert!(!manager.is_stream_available(0));
    assert!(!manager.reserve_stream_at(0, 4));
    assert!(!manager.is_reserved(0));
    assert_eq!(manager.get_stats().last_operation_time, Some(3));
}

#[test]
fn released_reservation_is_available_again() {
    let mut manager = UnifiedStreamManager::new(5);
    assert!(manager.reserve_stream_at(8, 1));
    manager.release_reserved_stream_at(8, 2);
    assert!(!manager.is_reserved(8));
    assert!(manager.is_stream_available(8));
    assert_eq!(manager.get_stats().reserved_streams, 0);
    manager.reserve_stream(8);
    manager.release_reserved_stream(8);
    assert!(manager.is_stream_available(8));
}

#[test]
fn message_without_a_stream_waits_and_is_retried() {
    let mut manager = UnifiedStreamManager::new(1);
    assert_eq!(
        manager.allocate_stream_for_normal_message_at(b"first".to_vec(), Priority::Normal, 0),
        Some((0, b"first".to_vec()))
    );
    assert_eq!(manager.allocate_stream_for_normal_message_at(b"second".to_vec(), Priority::Normal, 1), None);
    let stats = manager.get_stats();
    assert_eq!(stats.total_streams_allocated, 1);
    assert_eq!(stats.failed_allocations, 1);
    assert_eq!(stats.pending_normal_messages, 1);

    // no stream yet: the message goes on waiting
    assert!(manager.process_pending_messages_at(2).is_empty());
    assert_eq!(manager.get_stats().pending_normal_messages, 1);
}

#[test]
fn waiting_message_is_dropped_after_three_tries() {
    let mut manager = UnifiedStreamManager::new(0);
    assert_eq!(manager.allocate_stream_for_normal_message_at(vec![7], Priority::Low, 0), None);
    for round in 1..=3u64 {
        assert!(manager.process_pending_messages_at(round).is_empty());
        assert_eq!(manager.get_stats().pending_normal_messages, 1);
    }
    assert!(manager.process_pending_messages_at(4).is_empty());
    assert_eq!(manager.get_stats().pending_normal_messages, 0);
}

#[test]
fn waiting_message_is_dropped_after_thirty_seconds() {
    let mut manager = UnifiedStreamManager::new(0);
    assert_eq!(manager.allocate_stream_for_normal_message_at(vec![7], Priority::Low, 0), None);
    assert!(manager.process_pending_messages_at(30 * SECOND).is_empty());
    assert_eq!(manager.get_stats().pending_normal_messages, 1);
    assert!(manager.process_pending_messages_at(30 * SECOND + 1).is_empty());
    assert_eq!(manager.get_stats().pending_normal_messages, 0);
}

#[test]
fn urgent_and_high_messages_jump_the_waiting_queue() {
    let mut manager = UnifiedStreamManager::new(0);
    for (payload, priority) in [
        (b"n".to_vec(), Priority::Normal),
        (b"h".to_vec(), Priority::High),
        (b"l".to_vec(), Priority::Low),
        (b"u".to_vec(), Priority::Urgent),
    ] {
        assert_eq!(manager.allocate_stream_for_normal_message_at(payload, priority, 0), None);
    }
    assert_eq!(manager.get_stats().pending_normal_messages, 4);
    assert_eq!(manager.get_stats().failed_allocations, 4);
}

#[test]
fn reserved_control_stream_is_passed_over() {
    let mut manager = UnifiedStreamManager::new(10);
    assert!(manager.reserve_stream(0));
    assert_eq!(
        manager.allocate_stream_for_normal_message(b"hello".to_vec(), Priority::Normal),
        Some((4, b"hello".to_vec()))
    );
    let stats = manager.get_stats();
    assert_eq!(stats.pending_normal_messages, 0);
    assert_eq!(stats.failed_allocations, 0);
    assert_eq!(stats.total_streams_allocated, 1);
    // the reserved stream is never handed out while it is reserved
    assert_eq!(manager.allocate_stream_for_normal_message_at(vec![1], Priority::Low, 5), Some((8, vec![1])));
    assert_eq!(manager.allocate_stream_for_normal_message_at(vec![2], Priority::High, 6), Some((12, vec![2])));
    assert!(manager.is_reserved(0));
    assert!(!manager.is_stream_available(0));
    // reserving it again changes nothing
    assert!(manager.reserve_stream_at(0, 7));
    assert_eq!(manager.get_stats().reserved_streams, 1);
}

#[test]
fn several_reserved_streams_are_passed_over() {
    let mut manager = UnifiedStreamManager::new(10);
    for id in [0u64, 4, 8, 16] {
        assert!(manager.reserve_stream_at(id, 0));
    }
    assert_eq!(manager.allocate_stream_for_normal_message_at(vec![1], Priority::Normal, 1), Some((12, vec![1])));
    assert_eq!(manager.allocate_stream_for_normal_message_at(vec![2], Priority::Normal, 2), Some((20, vec![2])));
    assert_eq!(manager.get_stats().pending_normal_messages, 0);
}

#[test]
fn message_waits_only_where_every_stream_is_reserved_or_taken() {
    let mut manager = UnifiedStreamManager::new(2);
    assert!(manager.reserve_stream_at(0, 0));
    assert_eq!(manager.allocate_stream_for_normal_message_at(vec![1], Priority::Normal, 1), Some((4, vec![1])));
    // the cap is reached: stream 0 is reserved, stream 4 is in use
    assert_eq!(manager.allocate_stream_for_normal_message_at(vec![2], Priority::Normal, 2), None);
    assert_eq!(manager.get_stats().failed_allocations, 1);
    assert_eq!(manager.get_stats().pending_normal_messages, 1);
    assert!(manager.process_pending_messages_at(3).is_empty());
    // with the reservation given up, the stream goes to the waiting message
    manager.release_reserved_stream_at(0, 4);
    assert!(manager.is_stream_available(0));
    assert_eq!(manager.process_pending_messages_at(5), vec![(0, vec![2])]);
    assert_eq!(manager.get_stats().total_streams_allocated, 2);
    assert_eq!(manager.get_stats().pending_normal_messages, 0);
}

#[test]
fn reserved_stream_in_the_free_queue_is_passed_over() {
    let mut manager = UnifiedStreamManager::new(3);
    assert_eq!(manager.allocate_stream_for_normal_message_at(vec![1], Priority::Normal, 1), Some((0, vec![1])));
    assert_eq!(manager.allocate_stream_for_normal_message_at(vec![2], Priority::Normal, 1), Some((4, vec![2])));
    // a stream in use cannot be reserved
    assert!(!manager.reserve_stream_at(0, 2));
    // both streams come back to the manager's pool when their reservations are given up
    manager.release_reserved_stream_at(0, 3);
    manager.release_reserved_stream_at(4, 3);
    assert!(manager.reserve_stream_at(0, 4));
    // the free queue holds 0 and 4: 0 is passed over
    assert_eq!(manager.allocate_stream_for_normal_message_at(vec![3], Priority::Normal, 5), Some((4, vec![3])));
    assert_eq!(manager.allocate_stream_for_normal_message_at(vec![4], Priority::Normal, 6), Some((8, vec![4])));
    assert_eq!(manager.allocate_stream_for_normal_message_at(vec![5], Priority::Normal, 7), None);
}

#[test]
fn shards_go_through_the_scheduler() {
    let mut manager = UnifiedStreamManager::new(10);
    let frames = FECEncoder::new(4, 2).unwrap().encode_with_session(b"critical", [5u8; 16]).unwrap();
    let dispatched = manager.allocate_streams_for_fec_at(frames.clone(), [5u8; 16], Priority::Urgent, 1);
    assert_eq!(dispatched.len(), 6);
    for (i, (stream_id, frame)) in dispatched.iter().enumerate() {
        assert_eq!(*stream_id, 4 * i as u64);
        assert_eq!(frame, &frames[i]);
    }
    assert!(!manager.is_stream_available(4));
    let stats = manager.scheduler_stats();
    assert_eq!(stats.active_sessions, 1);
    assert_eq!(stats.pool_stats.high_priority_streams, 6);
    assert!(manager.get_scheduler_stats().contains("active_sessions: 1"));

    manager.mark_frame_sent(0);
    assert_eq!(manager.scheduler_stats().pool_stats.free_streams, 1);
    manager.mark_session_complete([5u8; 16]);
    assert_eq!(manager.scheduler_stats().pool_stats.free_streams, 6);
    assert!(manager.is_stream_available(4));
    manager.cleanup();
}

#[test]
fn client_stream_identifiers_step_by_four() {
    let mut manager = UnifiedStreamManager::new(10);
    assert_eq!(manager.get_next_client_stream_id(), 0);
    assert_eq!(manager.get_next_client_stream_id(), 4);
    assert_eq!(manager.get_next_client_stream_id(), 8);
}

#[test]
fn scheduler_stats_text_is_the_debug_form_of_the_counts() {
    let mut manager = UnifiedStreamManager::new(10);
    assert_eq!(manager.get_scheduler_stats(), format!("{:?}", manager.scheduler_stats()));
    let frames = FECEncoder::new(2, 1).unwrap().encode_with_session(b"text", [1u8; 16]).unwrap();
    manager.allocate_streams_for_fec_at(frames, [1u8; 16], Priority::Low, 1);
    let text = manager.get_scheduler_stats();
    assert_eq!(text, format!("{:?}", manager.scheduler_stats()));
    assert!(text.contains("low_priority_streams: 3"));
    assert!(text.contains("total_streams: 3"));
}
