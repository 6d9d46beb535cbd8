use silent_speaker::fec::codec::FecError;
use silent_speaker::fec::decoder::{decode_blocks, decode_fec_data, ReceivedBlock};
use silent_speaker::fec::encoder::FECEncoder;
use silent_speaker::fec::frame::{calculate_frame_hash, create_fec_frame, validate_frame};
use silent_speaker::whisper::{BlockType, FecFrame};

#[test]
fn test_fec_encoder_basic() {
    let encoder = FECEncoder::new(4, 2).unwrap();
    let test_data = b"Test data for FEC encoding verification.";

    let (frames, session_id) = encoder.encode(test_data).unwrap();

    assert_eq!(frames.len(), 6);

    for frame in &frames {
        assert_eq!(frame.session_id, session_id.to_vec());
        assert_eq!(frame.k, 4);
        assert_eq!(frame.m, 2);
        assert!(validate_frame(frame));
    }
}

#[test]
fn encoder_rejects_degenerate_parameters() {
    assert_eq!(FECEncoder::new(0, 2).err(), Some(FecError::InvalidParameters));
    assert_eq!(FECEncoder::new(4, 0).err(), Some(FecError::InvalidParameters));
    assert_eq!(FECEncoder::new(200, 57).err(), Some(FecError::InvalidParameters));
    assert_eq!(FECEncoder::new(usize::MAX, 1).err(), Some(FecError::InvalidParameters));
    assert_eq!(FECEncoder::new(200, 56).unwrap().params(), (200, 56));
    assert_eq!(FECEncoder::new(1, 1).unwrap().params(), (1, 1));
}

#[test]
fn shards_hold_length_prefix_data_and_zero_padding() {
    let encoder = FECEncoder::new(4, 2).unwrap();
    let data: Vec<u8> = (1..=100u8).collect();
    let frames = encoder.encode_with_session(&data, [7u8; 16]).unwrap();
    // 104 framed bytes over 4 shards: 26 bytes each, rounded up to 64
    for (i, frame) in frames.iter().enumerate() {
        assert_eq!(frame.payload.len(), 64);
        assert_eq!(frame.block_index, i as u32);
        assert_eq!(frame.version, 1);
        assert_eq!(frame.session_id, vec![7u8; 16]);
        let expected = if i < 4 { BlockType::Original } else { BlockType::Redundant };
        assert_eq!(frame.block_type, expected);
    }
    let mut framed = vec![100u8, 0, 0, 0];
    framed.extend_from_slice(&data);
    assert_eq!(&frames[0].payload[..], &framed[..64]);
    assert_eq!(&frames[1].payload[..40], &framed[64..]);
    assert_eq!(&frames[1].payload[40..], &[0u8; 24][..]);
    assert_eq!(frames[2].payload, vec![0u8; 64]);
    assert_eq!(frames[3].payload, vec![0u8; 64]);
}

#[test]
fn block_size_is_a_multiple_of_64_with_a_floor_of_64() {
    let encoder = FECEncoder::new(4, 2).unwrap();
    assert_eq!(encoder.encode_with_session(&[], [0u8; 16]).unwrap()[0].payload.len(), 64);
    assert_eq!(encoder.encode_with_session(&[1u8; 252], [0u8; 16]).unwrap()[0].payload.len(), 64);
    assert_eq!(encoder.encode_with_session(&[1u8; 253], [0u8; 16]).unwrap()[0].payload.len(), 128);
    assert_eq!(encoder.encode_with_session(&[1u8; 1000], [0u8; 16]).unwrap()[5].payload.len(), 256);
}

#[test]
fn parity_is_what_the_code_computes() {
    let encoder = FECEncoder::new(3, 2).unwrap();
    let frames = encoder.encode_with_session(b"parity check", [1u8; 16]).unwrap();
    let codec = reed_solomon_erasure::galois_8::ReedSolomon::new(3, 2).unwrap();
    let shards: Vec<Vec<u8>> = frames.iter().map(|f| f.payload.clone()).collect();
    assert!(codec.verify(&shards).unwrap());
    let mut damaged = shards.clone();
    damaged[4][0] ^= 1;
    assert!(!codec.verify(&damaged).unwrap());
}

#[test]
fn encoding_is_deterministic_for_a_session() {
    let encoder = FECEncoder::new(4, 2).unwrap();
    let a = encoder.encode_with_session(b"same input", [9u8; 16]).unwrap();
    let b = encoder.encode_with_session(b"same input", [9u8; 16]).unwrap();
    assert_eq!(a, b);
    let (c, id_c) = encoder.encode(b"same input").unwrap();
    let (_, id_d) = encoder.encode(b"same input").unwrap();
    assert_ne!(id_c, id_d);
    assert_eq!(c[0].payload, a[0].payload);
}

fn subsets_of_size(n: usize, size: usize) -> Vec<Vec<usize>> {
    let mut all = Vec::new();
    for mask in 0u32..(1 << n) {
        if mask.count_ones() as usize == size {
            all.push((0..n).filter(|i| mask & (1 << i) != 0).collect());
        }
    }
    all
}

#[test]
fn any_k_shards_decode_and_fewer_do_not() {
    let encoder = FECEncoder::new(4, 2).unwrap();
    let message = b"Critical Alert: System Failure!";
    let frames = encoder.encode_with_session(message, [3u8; 16]).unwrap();
    for keep in subsets_of_size(6, 4) {
        let kept: Vec<FecFrame> = keep.iter().map(|&i| frames[i].clone()).collect();
        assert_eq!(encoder.decode(&kept).unwrap(), message);
    }
    for keep in subsets_of_size(6, 3) {
        let kept: Vec<FecFrame> = keep.iter().map(|&i| frames[i].clone()).collect();
        assert_eq!(
            encoder.decode(&kept).unwrap_err(),
            FecError::InsufficientData { have: 3, need: 4 }
        );
    }
    assert_eq!(encoder.decode(&frames).unwrap(), message);
}

#[test]
fn shards_decode_in_any_order() {
    let encoder = FECEncoder::new(3, 3).unwrap();
    let message: Vec<u8> = (0..5000u32).map(|i| (i % 251) as u8).collect();
    let frames = encoder.encode_with_session(&message, [4u8; 16]).unwrap();
    let order = [5usize, 1, 3];
    let kept: Vec<FecFrame> = order.iter().map(|&i| frames[i].clone()).collect();
    assert_eq!(encoder.decode(&kept).unwrap(), message);
    let reversed: Vec<FecFrame> = order.iter().rev().map(|&i| frames[i].clone()).collect();
    assert_eq!(encoder.decode(&reversed).unwrap(), message);
}

#[test]
fn decode_of_empty_and_large_messages() {
    let encoder = FECEncoder::new(2, 1).unwrap();
    let frames = encoder.encode_with_session(&[], [0u8; 16]).unwrap();
    assert_eq!(encoder.decode(&frames[1..]).unwrap(), Vec::<u8>::new());
    let big = vec![0xA5u8; 64 * 1024];
    let frames = encoder.encode_with_session(&big, [0u8; 16]).unwrap();
    assert_eq!(encoder.decode(&[frames[2].clone(), frames[0].clone()]).unwrap(), big);
}

#[test]
fn decode_rejects_bad_index_and_bad_shapes() {
    let encoder = FECEncoder::new(2, 1).unwrap();
    let mut frames = encoder.encode_with_session(b"abc", [0u8; 16]).unwrap();
    frames[1].block_index = 3;
    assert_eq!(encoder.decode(&frames).unwrap_err(), FecError::InvalidBlockIndex(3));

    assert_eq!(
        decode_fec_data(2, 1, vec![Some(vec![1u8; 4]), None]).unwrap_err(),
        FecError::InvalidParameters
    );
    assert_eq!(decode_fec_data(0, 1, vec![None]).unwrap_err(), FecError::InvalidParameters);
    assert_eq!(
        decode_fec_data(2, 1, vec![Some(vec![1u8; 4]), Some(vec![1u8; 5]), None]).unwrap_err(),
        FecError::ReconstructionFailed
    );
    assert_eq!(
        decode_fec_data(2, 1, vec![Some(vec![1u8; 4]), None, None]).unwrap_err(),
        FecError::InsufficientData { have: 1, need: 2 }
    );
}

#[test]
fn decode_rejects_a_length_prefix_beyond_the_data() {
    // two data shards of four bytes: the prefix says 5, four bytes follow
    let shards = vec![Some(vec![5u8, 0, 0, 0]), Some(vec![1u8, 2, 3, 4]), None];
    assert_eq!(decode_fec_data(2, 1, shards).unwrap_err(), FecError::LengthPrefixExceedsData);
    let shards = vec![Some(vec![4u8, 0, 0, 0]), Some(vec![1u8, 2, 3, 4]), None];
    assert_eq!(decode_fec_data(2, 1, shards).unwrap(), vec![1u8, 2, 3, 4]);
    let shards = vec![Some(vec![2u8, 0]), Some(vec![0u8, 0]), Some(vec![2u8, 0])];
    assert_eq!(decode_fec_data(2, 1, shards).unwrap_err(), FecError::LengthPrefixExceedsData);
    let shards = vec![Some(vec![1u8]), None, Some(vec![7u8])];
    assert_eq!(decode_fec_data(1, 2, shards).unwrap_err(), FecError::LengthPrefixExceedsData);
}

#[test]
fn decode_blocks_fills_slots_by_index() {
    let encoder = FECEncoder::new(2, 2).unwrap();
    let frames = encoder.encode_with_session(b"by index", [0u8; 16]).unwrap();
    let blocks = vec![
        ReceivedBlock { index: 3, data: frames[3].payload.clone() },
        ReceivedBlock { index: 2, data: frames[2].payload.clone() },
    ];
    assert_eq!(decode_blocks(2, 2, &blocks).unwrap(), b"by index");
    assert_eq!(decode_blocks(2, 300, &blocks).unwrap_err(), FecError::InvalidParameters);
}

#[test]
fn frame_hash_is_xxh64_over_the_fields_in_order() {
    let frame = create_fec_frame([0xABu8; 16], 0x01020304, 4, 2, vec![9, 8, 7], BlockType::Redundant);
    let mut input = vec![0xABu8; 16];
    input.extend_from_slice(&[4, 3, 2, 1]);
    input.extend_from_slice(&[4, 0, 0, 0]);
    input.extend_from_slice(&[2, 0, 0, 0]);
    input.extend_from_slice(&[9, 8, 7]);
    input.push(1);
    assert_eq!(frame.xxhash64, twox_hash::XxHash64::oneshot(0, &input));
    assert_eq!(calculate_frame_hash(&frame), frame.xxhash64);
    assert_eq!(frame.version, 1);
    assert!(validate_frame(&frame));
}

#[test]
fn any_changed_field_invalidates_the_hash() {
    let frame = create_fec_frame([1u8; 16], 2, 4, 2, vec![1, 2, 3], BlockType::Original);
    let mut changed = frame.clone();
    changed.payload[0] ^= 1;
    assert!(!validate_frame(&changed));
    let mut changed = frame.clone();
    changed.block_index = 3;
    assert!(!validate_frame(&changed));
    let mut changed = frame.clone();
    changed.block_type = BlockType::Redundant;
    assert!(!validate_frame(&changed));
    let mut changed = frame.clone();
    changed.xxhash64 = changed.xxhash64.wrapping_add(1);
    assert!(!validate_frame(&changed));
    // the version is not hashed
    let mut changed = frame.clone();
    changed.version = 2;
    assert!(validate_frame(&changed));
}

#[test]
fn every_code_restores_every_size_from_its_last_k_shards() {
    for k in 1..=5usize {
        for m in 1..=3usize {
            let encoder = FECEncoder::new(k, m).unwrap();
            for size in [0usize, 1, 59, 60, 61, 64, 1000, 65_536] {
                let message: Vec<u8> = (0..size).map(|i| (i * 7 % 251) as u8).collect();
                let frames = encoder.encode_with_session(&message, [k as u8; 16]).unwrap();
                assert_eq!(frames.len(), k + m);
                let expected_size = ((size + 4 + k - 1) / k + 63) / 64 * 64;
                assert!(frames.iter().all(|f| f.payload.len() == expected_size));
                assert_eq!(encoder.decode(&frames[m..]).unwrap(), message);
                assert_eq!(encoder.decode(&frames[..k]).unwrap(), message);
                if k > 1 {
                    assert_eq!(
                        encoder.decode(&frames[..k - 1]).unwrap_err(),
                        FecError::InsufficientData { have: k - 1, need: k }
                    );
                }
            }
        }
    }
}
