use prost::encoding::{decode_key, skip_field, DecodeContext, WireType};
use silent_speaker::framing::{frame_message, parse_framed_message, FramingError, StreamParser};

const PRIORITY_HIGH: i32 = 2;

/// Encodes a text message in the wire envelope: id, timestamp, priority, content.
fn encode_text_whisper(id: &Vec<u8>, timestamp_ns: u64, priority: i32, content: &str) -> Vec<u8> {
    let mut out: Vec<u8> = Vec::new();
    if !id.is_empty() {
        prost::encoding::bytes::encode(1, id, &mut out);
    }
    if timestamp_ns != 0 {
        prost::encoding::uint64::encode(2, &timestamp_ns, &mut out);
    }
    if priority != 0 {
        prost::encoding::int32::encode(3, &priority, &mut out);
    }
    prost::encoding::string::encode(4, &content.to_string(), &mut out);
    out
}

/// Decodes the id and the text content of an envelope.
fn decode_text_whisper(bytes: &[u8]) -> (Vec<u8>, Option<String>) {
    let mut buf: &[u8] = bytes;
    let mut id: Vec<u8> = Vec::new();
    let mut content: Option<String> = None;
    while !buf.is_empty() {
        let (tag, wire_type) = decode_key(&mut buf).unwrap();
        match tag {
            1 => prost::encoding::bytes::merge(wire_type, &mut id, &mut buf, DecodeContext::default()).unwrap(),
            4 => {
                let mut text = String::new();
                prost::encoding::string::merge(wire_type, &mut text, &mut buf, DecodeContext::default()).unwrap();
                content = Some(text);
            }
            _ => skip_field(wire_type, tag, &mut buf, DecodeContext::default()).unwrap(),
        }
    }
    assert_eq!(WireType::LengthDelimited, WireType::try_from(2u64).unwrap());
    (id, content)
}

#[test]
fn test_framing_roundtrip() {
    let id = vec![1, 2, 3, 4, 5, 6, 7, 8, 9, 10, 11, 12, 13, 14, 15, 16];
    let original = encode_text_whisper(&id, 123456789, PRIORITY_HIGH, "测试消息");

    let framed = frame_message(&original);
    let (parsed, consumed) = parse_framed_message(&framed).unwrap();

    assert_eq!(consumed, framed.len());
    let (parsed_id, parsed_content) = decode_text_whisper(&parsed);
    assert_eq!(parsed_id, id);
    match parsed_content {
        Some(text) => assert_eq!(text, "测试消息"),
        None => panic!("Payload mismatch"),
    }
}

#[test]
fn test_stream_parser() {
    let mut parser = StreamParser::new();

    let whisper = encode_text_whisper(&Vec::new(), 0, 0, "test");
    let framed = frame_message(&whisper);

    let half_len = framed.len() / 2;
    parser.append_data(&framed[..half_len]).unwrap();
    assert!(parser.try_parse_next().unwrap().is_none());

    parser.append_data(&framed[half_len..]).unwrap();
    let parsed = parser.try_parse_next().unwrap().expect("a message should be parsed");

    match decode_text_whisper(&parsed).1 {
        Some(content) => assert_eq!(content, "test"),
        None => panic!("wrong payload"),
    }
}

#[test]
fn frame_is_big_endian_length_then_message() {
    assert_eq!(frame_message(&[0xAB, 0xCD, 0xEF]), vec![0, 0, 0, 3, 0xAB, 0xCD, 0xEF]);
    assert_eq!(frame_message(&[]), vec![0, 0, 0, 0]);
    let long = vec![7u8; 0x0102];
    let framed = frame_message(&long);
    assert_eq!(&framed[..4], &[0, 0, 1, 2]);
    assert_eq!(framed.len(), 4 + 0x0102);
}

#[test]
fn parse_reports_incomplete_header_and_body() {
    assert_eq!(
        parse_framed_message(&[0, 0, 0]).unwrap_err(),
        FramingError::IncompleteData { current: 3, needed: 4 }
    );
    assert_eq!(
        parse_framed_message(&[0, 0, 0, 5, 1, 2]).unwrap_err(),
        FramingError::IncompleteData { current: 6, needed: 9 }
    );
}

#[test]
fn parse_rejects_lengths_over_ten_mebibytes() {
    let limit: usize = 10 * 1024 * 1024;
    let over = (limit as u32 + 1).to_be_bytes();
    assert_eq!(
        parse_framed_message(&over).unwrap_err(),
        FramingError::MessageTooLarge { length: limit + 1, max: limit }
    );
    let at = (limit as u32).to_be_bytes();
    assert_eq!(
        parse_framed_message(&at).unwrap_err(),
        FramingError::IncompleteData { current: 4, needed: 4 + limit }
    );
}

#[test]
fn parse_takes_only_the_first_frame() {
    let mut data = frame_message(b"one");
    data.extend_from_slice(&frame_message(b"second"));
    let (first, consumed) = parse_framed_message(&data).unwrap();
    assert_eq!(first, b"one");
    assert_eq!(consumed, 7);
    let (second, consumed) = parse_framed_message(&data[7..]).unwrap();
    assert_eq!(second, b"second");
    assert_eq!(consumed, 10);
}

#[test]
fn stream_parser_yields_frames_in_order_until_incomplete() {
    let mut parser = StreamParser::new();
    let mut data = frame_message(b"alpha");
    data.extend_from_slice(&frame_message(b"beta"));
    data.extend_from_slice(&[0, 0]);
    parser.append_data(&data).unwrap();
    assert_eq!(parser.buffer_size(), data.len());
    assert_eq!(parser.try_parse_next().unwrap(), Some(b"alpha".to_vec()));
    assert_eq!(parser.try_parse_next().unwrap(), Some(b"beta".to_vec()));
    assert_eq!(parser.try_parse_next().unwrap(), None);
    assert_eq!(parser.buffer_size(), 2);
    parser.clear();
    assert_eq!(parser.buffer_size(), 0);
}

#[test]
fn stream_parser_overflow_empties_the_buffer() {
    let mut parser = StreamParser::new();
    parser.append_data(&vec![0u8; 1024 * 1024]).unwrap();
    assert_eq!(parser.buffer_size(), 1024 * 1024);
    assert_eq!(
        parser.append_data(&[1, 2, 3]).unwrap_err(),
        FramingError::MessageTooLarge { length: 3, max: 1024 * 1024 }
    );
    assert_eq!(parser.buffer_size(), 0);
}

#[test]
fn stream_parser_clears_on_oversized_length() {
    let mut parser = StreamParser::new();
    parser.append_data(&[0xFF, 0xFF, 0xFF, 0xFF, 1, 2, 3]).unwrap();
    assert_eq!(
        parser.try_parse_next().unwrap_err(),
        FramingError::MessageTooLarge { length: 0xFFFF_FFFF, max: 10 * 1024 * 1024 }
    );
    assert_eq!(parser.buffer_size(), 0);
}
