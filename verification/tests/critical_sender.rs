use silent_speaker::critical_sender::{CriticalSender, SenderError};
use silent_speaker::fec::codec::FecError;
use silent_speaker::fec::frame::validate_frame;
use silent_speaker::fec::reassembler::FECReassembler;
use silent_speaker::whisper::Priority;

#[test]
fn sender_needs_a_code_that_exists() {
    assert_eq!(CriticalSender::new(0, 2, 10).err(), Some(FecError::InvalidParameters));
    assert_eq!(CriticalSender::new(4, 0, 10).err(), Some(FecError::InvalidParameters));
    let sender = CriticalSender::new(4, 2, 10).unwrap();
    assert_eq!(sender.get_fec_params(), (4, 2));
    assert!(sender.get_connections().is_empty());
}

#[test]
fn connections_register_once() {
    let mut sender = CriticalSender::new(4, 2, 10).unwrap();
    sender.register_connection(7);
    sender.register_connection(3);
    sender.register_connection(7);
    assert_eq!(sender.get_connections(), vec![7, 3]);
    assert!(sender.get_stats(7).is_some());
    assert!(sender.get_stats(8).is_none());
}

#[test]
fn unregistered_connection_is_an_error() {
    let mut sender = CriticalSender::new(4, 2, 10).unwrap();
    assert_eq!(
        sender.prepare_critical_message(1, b"x", Priority::High).unwrap_err(),
        SenderError::NotRegistered(1)
    );
    assert_eq!(sender.mark_frame_sent(1, 0).unwrap_err(), SenderError::NotRegistered(1));
    assert_eq!(sender.mark_session_complete(1, [0u8; 16]).unwrap_err(), SenderError::NotRegistered(1));
}

#[test]
fn each_shard_comes_back_with_a_stream() {
    let mut sender = CriticalSender::new(4, 2, 10).unwrap();
    sender.register_connection(1);
    let pairs = sender
        .prepare_critical_message_at(1, b"Critical Alert: System Failure!", Priority::Urgent, [6u8; 16], 5)
        .unwrap();
    assert_eq!(pairs.len(), 6);
    let mut reassembler = FECReassembler::new(4, 2);
    let mut restored = None;
    for (i, (stream_id, whisper)) in pairs.iter().enumerate() {
        assert_eq!(*stream_id, 4 * i as u64);
        let frame = whisper.fec_frame.as_ref().unwrap();
        assert_eq!(frame.block_index, i as u32);
        assert_eq!(frame.session_id, vec![6u8; 16]);
        assert!(validate_frame(frame));
        if i != 2 {
            if let Some(message) = reassembler.process_fec_frame_at(frame, 1).unwrap() {
                restored = Some(message.original_data);
            }
        }
    }
    assert_eq!(restored.unwrap(), b"Critical Alert: System Failure!");
    // the streams were only noted: they are free again
    let stats = sender.connection_stats(1).unwrap();
    assert_eq!(stats.pool_stats.total_streams, 6);
    assert_eq!(stats.pool_stats.free_streams, 6);
    assert!(sender.connection_stats(2).is_none());
    assert!(sender.mark_frame_sent(1, 0).is_ok());
    assert!(sender.mark_session_complete(1, [6u8; 16]).is_ok());
}

#[test]
fn connection_without_streams_cannot_send() {
    let mut sender = CriticalSender::new(4, 2, 0).unwrap();
    sender.register_connection(1);
    assert_eq!(
        sender.prepare_critical_message_at(1, b"nowhere to go", Priority::Urgent, [0u8; 16], 0).unwrap_err(),
        SenderError::AllocationFailed { needed: 6, allocated: 0 }
    );
}

#[test]
fn fresh_session_identifiers_differ() {
    let mut sender = CriticalSender::new(2, 1, 10).unwrap();
    sender.register_connection(1);
    let a = sender.prepare_critical_message(1, b"one", Priority::High).unwrap();
    let b = sender.prepare_critical_message(1, b"two", Priority::High).unwrap();
    assert_eq!(a.len(), 3);
    assert_ne!(
        a[0].1.fec_frame.as_ref().unwrap().session_id,
        b[0].1.fec_frame.as_ref().unwrap().session_id
    );
}

#[test]
fn stats_text_is_the_debug_form_of_the_connection_counts() {
    let mut sender = CriticalSender::new(2, 1, 10).unwrap();
    sender.register_connection(5);
    sender.prepare_critical_message_at(5, b"abc", Priority::Normal, [2u8; 16], 7).unwrap();
    let text = sender.get_stats(5).unwrap();
    assert_eq!(text, format!("{:?}", sender.connection_stats(5).unwrap()));
    assert!(text.contains("free_streams: 3"));
}
