use prost::encoding::{decode_key, decode_varint, skip_field, DecodeContext};
use silent_speaker::dynamic_framing::{build_dynamic_frame, DynamicStreamParser, SaltGenerator, SilentConfig};
use silent_speaker::fec::{FECEncoder, FECReassembler};
use silent_speaker::stream::UnifiedStreamManager;
use silent_speaker::whisper::{BlockType, FecFrame, Priority};
use std::collections::HashMap;

const TEST_SESSION_SEED: [u8; 32] = [0xAA; 32];

/// The envelope's payload: text, or a shard.
enum Payload {
    Content(String),
    FecPayload(Option<FecFrame>),
}

fn priority_number(priority: Priority) -> i32 {
    priority.number() as i32
}

fn encode_fec_frame(frame: &FecFrame) -> Vec<u8> {
    let mut out: Vec<u8> = Vec::new();
    if !frame.session_id.is_empty() {
        prost::encoding::bytes::encode(1, &frame.session_id, &mut out);
    }
    if frame.block_index != 0 {
        prost::encoding::uint32::encode(2, &frame.block_index, &mut out);
    }
    if frame.k != 0 {
        prost::encoding::uint32::encode(3, &frame.k, &mut out);
    }
    if frame.m != 0 {
        prost::encoding::uint32::encode(4, &frame.m, &mut out);
    }
    if !frame.payload.is_empty() {
        prost::encoding::bytes::encode(5, &frame.payload, &mut out);
    }
    if frame.xxhash64 != 0 {
        prost::encoding::fixed64::encode(6, &frame.xxhash64, &mut out);
    }
    let block_type = frame.block_type.number() as i32;
    if block_type != 0 {
        prost::encoding::int32::encode(7, &block_type, &mut out);
    }
    if frame.version != 0 {
        prost::encoding::uint32::encode(8, &frame.version, &mut out);
    }
    out
}

fn decode_fec_frame(bytes: &[u8]) -> FecFrame {
    let mut buf: &[u8] = bytes;
    let mut frame = FecFrame {
        session_id: Vec::new(),
        block_index: 0,
        k: 0,
        m: 0,
        payload: Vec::new(),
        xxhash64: 0,
        block_type: BlockType::Original,
        version: 0,
    };
    while !buf.is_empty() {
        let (tag, wire_type) = decode_key(&mut buf).unwrap();
        let ctx = DecodeContext::default();
        match tag {
            1 => prost::encoding::bytes::merge(wire_type, &mut frame.session_id, &mut buf, ctx).unwrap(),
            2 => prost::encoding::uint32::merge(wire_type, &mut frame.block_index, &mut buf, ctx).unwrap(),
            3 => prost::encoding::uint32::merge(wire_type, &mut frame.k, &mut buf, ctx).unwrap(),
            4 => prost::encoding::uint32::merge(wire_type, &mut frame.m, &mut buf, ctx).unwrap(),
            5 => prost::encoding::bytes::merge(wire_type, &mut frame.payload, &mut buf, ctx).unwrap(),
            6 => prost::encoding::fixed64::merge(wire_type, &mut frame.xxhash64, &mut buf, ctx).unwrap(),
            7 => {
                let mut number = 0i32;
                prost::encoding::int32::merge(wire_type, &mut number, &mut buf, ctx).unwrap();
                frame.block_type = if number == 1 { BlockType::Redundant } else { BlockType::Original };
            }
            8 => prost::encoding::uint32::merge(wire_type, &mut frame.version, &mut buf, ctx).unwrap(),
            _ => skip_field(wire_type, tag, &mut buf, ctx).unwrap(),
        }
    }
    frame
}

fn encode_whisper(id: &Vec<u8>, timestamp_ns: u64, priority: Priority, payload: &Payload) -> Vec<u8> {
    let mut out: Vec<u8> = Vec::new();
    if !id.is_empty() {
        prost::encoding::bytes::encode(1, id, &mut out);
    }
    if timestamp_ns != 0 {
        prost::encoding::uint64::encode(2, &timestamp_ns, &mut out);
    }
    let number = priority_number(priority);
    if number != 0 {
        prost::encoding::int32::encode(3, &number, &mut out);
    }
    match payload {
        Payload::Content(text) => prost::encoding::string::encode(4, text, &mut out),
        Payload::FecPayload(frame) => {
            let mut inner: Vec<u8> = Vec::new();
            if let Some(frame) = frame {
                prost::encoding::bytes::encode(1, &encode_fec_frame(frame), &mut inner);
            }
            prost::encoding::bytes::encode(5, &inner, &mut out);
        }
    }
    out
}

fn decode_whisper(bytes: &[u8]) -> Option<Payload> {
    let mut buf: &[u8] = bytes;
    let mut payload = None;
    while !buf.is_empty() {
        let (tag, wire_type) = decode_key(&mut buf).unwrap();
        let ctx = DecodeContext::default();
        match tag {
            4 => {
                let mut text = String::new();
                prost::encoding::string::merge(wire_type, &mut text, &mut buf, ctx).unwrap();
                payload = Some(Payload::Content(text));
            }
            5 => {
                let mut inner: Vec<u8> = Vec::new();
                prost::encoding::bytes::merge(wire_type, &mut inner, &mut buf, ctx).unwrap();
                let mut inner_buf: &[u8] = &inner;
                let mut frame = None;
                while !inner_buf.is_empty() {
                    let (inner_tag, inner_type) = decode_key(&mut inner_buf).unwrap();
                    if inner_tag == 1 {
                        let len = decode_varint(&mut inner_buf).unwrap() as usize;
                        frame = Some(decode_fec_frame(&inner_buf[..len]));
                        inner_buf = &inner_buf[len..];
                    } else {
                        skip_field(inner_type, inner_tag, &mut inner_buf, DecodeContext::default()).unwrap();
                    }
                }
                payload = Some(Payload::FecPayload(frame));
            }
            _ => skip_field(wire_type, tag, &mut buf, ctx).unwrap(),
        }
    }
    payload
}

#[test]
fn test_integrated_stack_normal_message() {
    let mut manager = UnifiedStreamManager::new(10);
    let mut sender_generators = HashMap::new();
    let mut receiver_parsers = HashMap::new();

    let original_text = "Phase 4 Integrated Test Message";
    let whisper_bytes = encode_whisper(
        &vec![1, 2, 3, 4],
        0,
        Priority::Normal,
        &Payload::Content(original_text.to_string()),
    );

    let allocation = manager.allocate_stream_for_normal_message(whisper_bytes.clone(), Priority::Normal);
    assert!(allocation.is_some(), "Stream allocation failed");
    let (stream_id, data_to_send) = allocation.unwrap();

    let generator = sender_generators
        .entry(stream_id)
        .or_insert_with(|| SaltGenerator::new_diversified(TEST_SESSION_SEED, stream_id));

    let config = SilentConfig::default();
    let frame = build_dynamic_frame(generator, &data_to_send, config).expect("Framing failed");

    let parser = receiver_parsers.entry(stream_id).or_insert_with(|| {
        let generator = SaltGenerator::new_diversified(TEST_SESSION_SEED, stream_id);
        DynamicStreamParser::new(generator)
    });

    parser.append_data(&frame).expect("Append failed");
    let parsed_opt = parser.try_parse_next(config).expect("Parse failed");
    assert!(parsed_opt.is_some(), "Should parse one frame");
    let parsed_bytes = parsed_opt.unwrap();

    assert_eq!(parsed_bytes, whisper_bytes, "Decrypted bytes match original");

    if let Some(Payload::Content(text)) = decode_whisper(&parsed_bytes) {
        assert_eq!(text, original_text);
    } else {
        panic!("Wrong payload type");
    }
}

#[test]
fn test_integrated_stack_fec_message() {
    let mut manager = UnifiedStreamManager::new(10);
    let encoder = FECEncoder::new(4, 2).unwrap();
    let mut reassembler = FECReassembler::new(4, 2);
    let mut sender_generators = HashMap::new();
    let mut receiver_parsers = HashMap::new();

    let critical_text = "Critical Alert: System Failure!";

    let (frames, session_id) = encoder.encode(critical_text.as_bytes()).unwrap();
    let allocated_streams = manager.allocate_streams_for_fec(frames.clone(), session_id, Priority::Urgent);

    assert_eq!(allocated_streams.len(), frames.len());

    let drop_index = 2;

    for (i, (stream_id, frame)) in allocated_streams.iter().enumerate() {
        if i == drop_index {
            println!("Simulating packet loss for index {}", i);
            continue;
        }

        let bytes = encode_whisper(
            &vec![0; 16],
            0,
            Priority::Urgent,
            &Payload::FecPayload(Some(frame.clone())),
        );

        let generator = sender_generators
            .entry(*stream_id)
            .or_insert_with(|| SaltGenerator::new_diversified(TEST_SESSION_SEED, *stream_id));
        let wired_frame = build_dynamic_frame(generator, &bytes, SilentConfig::default()).unwrap();

        let parser = receiver_parsers.entry(*stream_id).or_insert_with(|| {
            let generator = SaltGenerator::new_diversified(TEST_SESSION_SEED, *stream_id);
            DynamicStreamParser::new(generator)
        });
        parser.append_data(&wired_frame).unwrap();

        let decrypted_bytes = parser.try_parse_next(SilentConfig::default()).unwrap().unwrap();

        if let Some(Payload::FecPayload(Some(f))) = decode_whisper(&decrypted_bytes) {
            assert_eq!(&f, frame);
            match reassembler.process_fec_frame(&f) {
                Ok(Some(recovered)) => {
                    assert_eq!(recovered.original_data, critical_text.as_bytes(), "Restored data matches");
                    assert_eq!(i, 4);
                    println!("FEC Recovery Successful!");
                    return;
                }
                Ok(None) => {}
                Err(e) => panic!("Reassembly error: {:?}", e),
            }
        }
    }

    panic!("FEC Reassembly did not complete (should have recovered)");
}

#[test]
fn preemption_under_load() {
    let mut pool = silent_speaker::stream::StreamPool::new(2);
    let low1 = pool.acquire_stream(false).unwrap();
    let low2 = pool.acquire_stream(false).unwrap();
    let high = pool.acquire_stream(true).unwrap();
    assert!(high == low1 || high == low2);
    assert_eq!(pool.stats().low_priority_streams, 1);
    assert_eq!(pool.stats().high_priority_streams, 1);
    assert_eq!(pool.stats().total_streams, 2);
}

#[test]
fn base_seed_is_thirty_two_bytes_of_0x42() {
    assert_eq!(silent_speaker::session_base_seed(), [0x42u8; 32]);
}
