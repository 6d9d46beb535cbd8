use silent_speaker::stream::pool::{StreamPool, StreamState};

#[test]
fn test_stream_pool_basic() {
    let mut pool = StreamPool::new(10);

    let stream1 = pool.acquire_stream(true).unwrap();
    let stream2 = pool.acquire_stream(false).unwrap();

    assert_ne!(stream1, stream2);

    assert_eq!(pool.stats().total_streams, 2);
    assert_eq!(pool.stats().free_streams, 0);
    assert_eq!(pool.stats().high_priority_streams, 1);
    assert_eq!(pool.stats().low_priority_streams, 1);

    pool.release_stream(stream1);
    assert_eq!(pool.stats().free_streams, 1);

    let stream3 = pool.acquire_stream(false).unwrap();
    assert_eq!(stream3, stream1);
}

#[test]
fn test_stream_preemption() {
    let mut pool = StreamPool::new(2);

    let _low1 = pool.acquire_stream(false).unwrap();
    let _low2 = pool.acquire_stream(false).unwrap();

    let high = pool.acquire_stream(true);
    assert!(high.is_some());

    assert_eq!(pool.stats().low_priority_streams, 1);
    assert_eq!(pool.stats().high_priority_streams, 1);
}

#[test]
fn new_streams_step_by_four_from_zero() {
    let mut pool = StreamPool::new(3);
    assert_eq!(pool.acquire_stream_at(false, 10), Some(0));
    assert_eq!(pool.acquire_stream_at(true, 11), Some(4));
    assert_eq!(pool.acquire_stream_at(false, 12), Some(8));
    assert_eq!(pool.stats().total_streams, 3);
    assert_eq!(pool.stats().max_streams, 3);
    assert_eq!(pool.stream_state(0), Some(StreamState::LowPriority));
    assert_eq!(pool.stream_state(4), Some(StreamState::HighPriority));
    assert_eq!(pool.stream_state(12), None);
}

#[test]
fn saturated_pool_refuses_low_priority() {
    let mut pool = StreamPool::new(2);
    assert_eq!(pool.acquire_stream_at(false, 1), Some(0));
    assert_eq!(pool.acquire_stream_at(true, 2), Some(4));
    assert_eq!(pool.acquire_stream_at(false, 3), None);
    assert_eq!(pool.stats().total_streams, 2);
}

#[test]
fn saturated_pool_without_low_refuses_high() {
    let mut pool = StreamPool::new(1);
    assert_eq!(pool.acquire_stream_at(true, 1), Some(0));
    assert_eq!(pool.acquire_stream_at(true, 2), None);
}

#[test]
fn empty_cap_never_allocates() {
    let mut pool = StreamPool::new(0);
    assert_eq!(pool.acquire_stream_at(true, 1), None);
    assert_eq!(pool.acquire_stream_at(false, 1), None);
}

#[test]
fn preemption_takes_least_recently_used_low() {
    let mut pool = StreamPool::new(3);
    assert_eq!(pool.acquire_stream_at(false, 30), Some(0));
    assert_eq!(pool.acquire_stream_at(false, 10), Some(4));
    assert_eq!(pool.acquire_stream_at(false, 20), Some(8));
    // stream 4 was active least recently
    assert_eq!(pool.acquire_stream_at(true, 40), Some(4));
    assert_eq!(pool.stream_state(4), Some(StreamState::HighPriority));
    assert_eq!(pool.stream_state(0), Some(StreamState::LowPriority));
    assert_eq!(pool.stream_state(8), Some(StreamState::LowPriority));
    // then stream 8, then stream 0
    assert_eq!(pool.acquire_stream_at(true, 41), Some(8));
    assert_eq!(pool.acquire_stream_at(true, 42), Some(0));
    assert_eq!(pool.acquire_stream_at(true, 43), None);
    assert_eq!(pool.stats().high_priority_streams, 3);
    assert_eq!(pool.stats().low_priority_streams, 0);
}

#[test]
fn preemption_tie_goes_to_the_stream_allocated_first() {
    let mut pool = StreamPool::new(2);
    assert_eq!(pool.acquire_stream_at(false, 5), Some(0));
    assert_eq!(pool.acquire_stream_at(false, 5), Some(4));
    assert_eq!(pool.acquire_stream_at(true, 6), Some(0));
}

#[test]
fn free_streams_are_reused_first_in_first_out() {
    let mut pool = StreamPool::new(4);
    for expected in [0u64, 4, 8] {
        assert_eq!(pool.acquire_stream_at(false, 1), Some(expected));
    }
    pool.release_stream_at(8, 2);
    pool.release_stream_at(0, 3);
    assert_eq!(pool.stats().free_streams, 2);
    assert_eq!(pool.stream_state(8), Some(StreamState::Free));
    assert_eq!(pool.acquire_stream_at(true, 4), Some(8));
    assert_eq!(pool.acquire_stream_at(false, 5), Some(0));
    assert_eq!(pool.acquire_stream_at(false, 6), Some(12));
}

#[test]
fn release_of_free_or_unknown_stream_changes_nothing() {
    let mut pool = StreamPool::new(4);
    assert_eq!(pool.acquire_stream_at(false, 1), Some(0));
    pool.release_stream_at(0, 2);
    pool.release_stream_at(0, 3);
    pool.release_stream_at(44, 3);
    assert_eq!(pool.stats().free_streams, 1);
    assert_eq!(pool.stats().total_streams, 1);
}

#[test]
fn close_removes_a_stream_from_every_index() {
    let mut pool = StreamPool::new(2);
    assert_eq!(pool.acquire_stream_at(false, 1), Some(0));
    assert_eq!(pool.acquire_stream_at(true, 1), Some(4));
    pool.release_stream_at(0, 2);
    pool.close_stream(0);
    assert_eq!(pool.stream_state(0), None);
    assert_eq!(pool.stats().total_streams, 1);
    assert_eq!(pool.stats().free_streams, 0);
    pool.close_stream(4);
    assert_eq!(pool.stats().high_priority_streams, 0);
    // identifiers are never minted twice
    assert_eq!(pool.acquire_stream_at(false, 3), Some(8));
}

#[test]
fn cleanup_closes_only_free_streams_idle_past_thirty_seconds() {
    let second: u64 = 1_000_000_000;
    let mut pool = StreamPool::new(4);
    assert_eq!(pool.acquire_stream_at(false, 0), Some(0));
    assert_eq!(pool.acquire_stream_at(false, 0), Some(4));
    assert_eq!(pool.acquire_stream_at(false, 0), Some(8));
    pool.release_stream_at(0, second);
    pool.release_stream_at(4, 5 * second);
    // exactly thirty seconds is not yet idle
    pool.cleanup_idle_streams_at(31 * second);
    assert_eq!(pool.stats().total_streams, 3);
    pool.cleanup_idle_streams_at(31 * second + 1);
    assert_eq!(pool.stream_state(0), None);
    assert_eq!(pool.stream_state(4), Some(StreamState::Free));
    assert_eq!(pool.stream_state(8), Some(StreamState::LowPriority));
    pool.cleanup_idle_streams_at(1000 * second);
    assert_eq!(pool.stats().total_streams, 1);
    assert_eq!(pool.stats().free_streams, 0);
}

#[test]
fn every_stream_is_in_exactly_one_class() {
    let mut pool = StreamPool::new(3);
    pool.acquire_stream_at(false, 1);
    pool.acquire_stream_at(true, 2);
    pool.acquire_stream_at(false, 3);
    pool.release_stream_at(8, 4);
    pool.acquire_stream_at(true, 5);
    pool.release_stream_at(0, 6);
    let stats = pool.stats();
    assert_eq!(
        stats.free_streams + stats.high_priority_streams + stats.low_priority_streams,
        stats.total_streams
    );
    assert_eq!(stats.free_streams, 1);
    assert_eq!(stats.high_priority_streams, 2);
}
