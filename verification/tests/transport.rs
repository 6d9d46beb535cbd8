use silent_speaker::clock::{elapsed_between, saturate};
use silent_speaker::responder::{
    parsers_need_cleanup, plan_reply, Received, Reply, ReplyFraming, ReplyKind, ShardOutcome,
};
use silent_speaker::retry_token::{mint_token, validate_token};
use silent_speaker::whisper::{BlockType, Priority};

#[test]
fn token_is_prefix_address_and_connection_id() {
    let token = mint_token(&[127, 0, 0, 1], &[0xA, 0xB, 0xC]);
    assert_eq!(token, b"quiche\x7f\x00\x00\x01\x0a\x0b\x0c".to_vec());
    assert_eq!(mint_token(&[], &[]), b"quiche".to_vec());
}

#[test]
fn minted_token_validates_for_its_address_only() {
    let v6 = [0x20u8, 0x01, 0x0d, 0xb8, 0, 0, 0, 0, 0, 0, 0, 0, 0, 0, 0, 1];
    let token = mint_token(&v6, &[1, 2, 3, 4, 5, 6, 7, 8]);
    assert_eq!(validate_token(&v6, &token), Some(vec![1, 2, 3, 4, 5, 6, 7, 8]));
    let mut other = v6;
    other[15] = 2;
    assert_eq!(validate_token(&other, &token), None);
    assert_eq!(validate_token(&[127, 0, 0, 1], &mint_token(&[127, 0, 0, 1], &[])), Some(vec![]));
}

#[test]
fn malformed_tokens_are_refused() {
    let addr = [10u8, 0, 0, 7];
    assert_eq!(validate_token(&addr, b""), None);
    assert_eq!(validate_token(&addr, b"quich"), None);
    assert_eq!(validate_token(&addr, b"quichE\x0a\x00\x00\x07"), None);
    assert_eq!(validate_token(&addr, b"Quiche\x0a\x00\x00\x07"), None);
    assert_eq!(validate_token(&addr, b"quiche\x0a\x00\x00"), None);
    assert_eq!(validate_token(&addr, b"quiche\x0a\x00\x00\x07"), Some(vec![]));
    assert_eq!(validate_token(&addr, b"quiche\x0a\x00\x00\x07\xff"), Some(vec![0xff]));
}

#[test]
fn text_is_acknowledged_at_its_own_priority() {
    for priority in [Priority::Low, Priority::Normal, Priority::High, Priority::Urgent] {
        assert_eq!(
            plan_reply(Received::Content { priority }),
            Reply { kind: ReplyKind::Acknowledge, priority, framing: ReplyFraming::Dynamic }
        );
    }
}

#[test]
fn shards_are_answered_by_what_became_of_them() {
    assert_eq!(
        plan_reply(Received::Shard { block_index: 3, outcome: ShardOutcome::Recovered }),
        Reply { kind: ReplyKind::Recovered, priority: Priority::High, framing: ReplyFraming::Dynamic }
    );
    assert_eq!(
        plan_reply(Received::Shard { block_index: 3, outcome: ShardOutcome::Collecting }),
        Reply { kind: ReplyKind::BlockReceived(3), priority: Priority::Normal, framing: ReplyFraming::Dynamic }
    );
    assert_eq!(
        plan_reply(Received::Shard { block_index: 3, outcome: ShardOutcome::Failed }),
        Reply { kind: ReplyKind::ShardError, priority: Priority::Normal, framing: ReplyFraming::LengthPrefixed }
    );
}

#[test]
fn empty_envelopes_are_reported() {
    assert_eq!(
        plan_reply(Received::EmptyShard),
        Reply { kind: ReplyKind::EmptyShard, priority: Priority::Normal, framing: ReplyFraming::LengthPrefixed }
    );
    assert_eq!(
        plan_reply(Received::Empty),
        Reply { kind: ReplyKind::EmptyMessage, priority: Priority::Normal, framing: ReplyFraming::LengthPrefixed }
    );
}

#[test]
fn parsers_are_cleaned_up_beyond_one_hundred() {
    assert!(!parsers_need_cleanup(0));
    assert!(!parsers_need_cleanup(100));
    assert!(parsers_need_cleanup(101));
}

#[test]
fn wire_numbers_of_priorities_and_block_types() {
    assert_eq!(Priority::Low.number(), 0);
    assert_eq!(Priority::Normal.number(), 1);
    assert_eq!(Priority::High.number(), 2);
    assert_eq!(Priority::Urgent.number(), 3);
    for n in 0..4u8 {
        assert_eq!(Priority::from_number(n).unwrap().number(), n);
    }
    assert_eq!(Priority::from_number(4), None);
    assert_eq!(Priority::Low.promote(), Priority::Normal);
    assert_eq!(Priority::Normal.promote(), Priority::High);
    assert_eq!(Priority::High.promote(), Priority::High);
    assert_eq!(Priority::Urgent.promote(), Priority::Urgent);
    assert_eq!(BlockType::Original.number(), 0);
    assert_eq!(BlockType::Redundant.number(), 1);
}

#[test]
fn nanosecond_counts_saturate_at_the_largest_u64() {
    assert_eq!(saturate(0), 0);
    assert_eq!(saturate(1_500_000_000), 1_500_000_000);
    assert_eq!(saturate(u64::MAX as u128), u64::MAX);
    assert_eq!(saturate(u64::MAX as u128 + 1), u64::MAX);
    assert_eq!(saturate(u128::MAX), u64::MAX);
    assert_eq!(elapsed_between(10, 3), 7);
    assert_eq!(elapsed_between(3, 10), 0);
}

#[test]
fn clock_readings_do_not_go_back() {
    let pool = silent_speaker::stream::StreamPool::new(1);
    let scheduler = silent_speaker::stream::StreamScheduler::new(1);
    let manager = silent_speaker::stream::UnifiedStreamManager::new(1);
    let reassembler = silent_speaker::fec::FECReassembler::new(4, 2);
    let first = (pool.now(), scheduler.now(), manager.now(), reassembler.now());
    let second = (pool.now(), scheduler.now(), manager.now(), reassembler.now());
    assert!(second.0 >= first.0);
    assert!(second.1 >= first.1);
    assert!(second.2 >= first.2);
    assert!(second.3 >= first.3);
    // a clock that was just started shows less than a minute
    assert!(second.0 < 60_000_000_000);
}
