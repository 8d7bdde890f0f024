use bp_messages::DeliveredMessages;
use bp_messages::InboundLaneData;
use bp_messages::LaneState;
use bp_messages::MessageNonce;
use bp_messages::OutboundLaneData;
use bp_messages::UnrewardedRelayer;
use bp_messages::UnrewardedRelayersState;
use parity_scale_codec::Encode;
use std::collections::VecDeque;

#[test]
fn lane_is_closed_by_default() {
    assert_eq!(InboundLaneData::<()>::default().state, LaneState::Closed);
    assert_eq!(OutboundLaneData::default().state, LaneState::Closed);
}

#[test]
fn total_unrewarded_messages_does_not_overflow() {
    let lane_data = InboundLaneData {
        state: LaneState::Opened,
        relayers: vec![
            UnrewardedRelayer { relayer: 1, messages: DeliveredMessages::new(0) },
            UnrewardedRelayer { relayer: 2, messages: DeliveredMessages::new(MessageNonce::MAX) },
        ]
        .into_iter()
        .collect(),
        last_confirmed_nonce: 0,
    };
    assert_eq!(lane_data.total_unrewarded_messages(), MessageNonce::MAX);
}

#[test]
fn inbound_lane_data_returns_correct_hint() {
    let test_cases = vec![
        // single relayer, multiple messages
        (1, 128u8),
        // multiple relayers, single message per relayer
        (128u8, 128u8),
        // several messages per relayer
        (13u8, 128u8),
    ];
    for (relayer_entries, messages_count) in test_cases {
        let expected_size = InboundLaneData::<u8>::encoded_size_hint(relayer_entries as _);
        let actual_size = InboundLaneData {
            state: LaneState::Opened,
            relayers: (1u8..=relayer_entries)
                .map(|i| UnrewardedRelayer { relayer: i, messages: DeliveredMessages::new(i as _) })
                .collect(),
            last_confirmed_nonce: messages_count as _,
        }
        .encode()
        .len();
        let difference = (expected_size.unwrap() as f64 - actual_size as f64).abs();
        assert!(
            difference / (std::cmp::min(actual_size, expected_size.unwrap()) as f64) < 0.1,
            "Too large difference between actual ({actual_size}) and expected ({expected_size:?}) inbound lane data size. Test case: {relayer_entries}+{messages_count}",
        );
    }
}

#[test]
fn contains_result_works() {
    let delivered_messages = DeliveredMessages { begin: 100, end: 150 };

    assert!(!delivered_messages.contains_message(99));
    assert!(delivered_messages.contains_message(100));
    assert!(delivered_messages.contains_message(150));
    assert!(!delivered_messages.contains_message(151));
}

fn entry(relayer: u64, begin: MessageNonce, end: MessageNonce) -> UnrewardedRelayer<u64> {
    UnrewardedRelayer { relayer, messages: DeliveredMessages { begin, end } }
}

fn lane(entries: Vec<UnrewardedRelayer<u64>>, last_confirmed_nonce: MessageNonce) -> InboundLaneData<u64> {
    InboundLaneData {
        state: LaneState::Opened,
        relayers: entries.into_iter().collect::<VecDeque<_>>(),
        last_confirmed_nonce,
    }
}

#[test]
fn opened_lanes_start_empty() {
    let inbound = InboundLaneData::<u64>::opened();
    assert_eq!(inbound.state, LaneState::Opened);
    assert_eq!(inbound.last_confirmed_nonce, 0);
    assert!(inbound.relayers.is_empty());
    let outbound = OutboundLaneData::opened();
    assert_eq!(
        outbound,
        OutboundLaneData {
            oldest_unpruned_nonce: 1,
            latest_received_nonce: 0,
            latest_generated_nonce: 0,
            state: LaneState::Opened,
        }
    );
    assert_eq!(OutboundLaneData::default().oldest_unpruned_nonce, 1);
    assert_eq!(OutboundLaneData::default().latest_received_nonce, 0);
    assert_eq!(OutboundLaneData::default().latest_generated_nonce, 0);
}

#[test]
fn last_delivered_nonce_of_empty_queue_is_last_confirmed_nonce() {
    assert_eq!(lane(vec![], 0).last_delivered_nonce(), 0);
    assert_eq!(lane(vec![], 17).last_delivered_nonce(), 17);
    assert_eq!(lane(vec![], MessageNonce::MAX).last_delivered_nonce(), MessageNonce::MAX);
}

#[test]
fn last_delivered_nonce_is_end_of_newest_entry() {
    assert_eq!(lane(vec![entry(1, 1, 3), entry(2, 4, 9)], 0).last_delivered_nonce(), 9);
    assert_eq!(lane(vec![entry(1, 8, 8)], 7).last_delivered_nonce(), 8);
}

#[test]
fn total_unrewarded_messages_counts_from_oldest_to_newest() {
    assert_eq!(lane(vec![], 5).total_unrewarded_messages(), 0);
    assert_eq!(lane(vec![entry(1, 6, 6)], 5).total_unrewarded_messages(), 1);
    assert_eq!(lane(vec![entry(1, 1, 3), entry(2, 4, 9)], 0).total_unrewarded_messages(), 9);
    // an inverted span holds nothing
    assert_eq!(lane(vec![entry(1, 9, 9), entry(2, 3, 4)], 0).total_unrewarded_messages(), 0);
    assert_eq!(
        lane(vec![entry(1, 1, MessageNonce::MAX)], 0).total_unrewarded_messages(),
        MessageNonce::MAX
    );
    assert_eq!(
        lane(vec![entry(1, 0, MessageNonce::MAX)], 0).total_unrewarded_messages(),
        MessageNonce::MAX
    );
}

#[test]
fn delivered_messages_count_their_nonces() {
    assert_eq!(DeliveredMessages::new(7), DeliveredMessages { begin: 7, end: 7 });
    assert_eq!(DeliveredMessages::new(7).total_messages(), 1);
    assert_eq!(DeliveredMessages { begin: 100, end: 150 }.total_messages(), 51);
    assert_eq!(DeliveredMessages { begin: 5, end: 4 }.total_messages(), 0);
    assert_eq!(
        DeliveredMessages { begin: 0, end: MessageNonce::MAX }.total_messages(),
        MessageNonce::MAX
    );
    assert_eq!(
        DeliveredMessages { begin: 1, end: MessageNonce::MAX }.total_messages(),
        MessageNonce::MAX
    );
    assert_eq!(DeliveredMessages::default(), DeliveredMessages { begin: 0, end: 0 });
}

#[test]
fn note_dispatched_message_extends_the_range_by_one() {
    let mut messages = DeliveredMessages::new(3);
    messages.note_dispatched_message();
    assert_eq!(messages, DeliveredMessages { begin: 3, end: 4 });
    messages.note_dispatched_message();
    assert_eq!(messages.total_messages(), 3);
    assert!(messages.contains_message(5));
    assert!(!messages.contains_message(6));
}

#[test]
fn relayers_state_summarises_the_queue() {
    let data = lane(vec![entry(1, 1, 3), entry(2, 4, 9), entry(1, 10, 10)], 0);
    let state = UnrewardedRelayersState::from(&data);
    assert_eq!(
        state,
        UnrewardedRelayersState {
            unrewarded_relayer_entries: 3,
            messages_in_oldest_entry: 3,
            total_messages: 10,
            last_delivered_nonce: 10,
        }
    );
    assert!(state.is_valid(&data));
    assert!(!UnrewardedRelayersState { total_messages: 9, ..state }.is_valid(&data));
    assert!(!UnrewardedRelayersState { unrewarded_relayer_entries: 2, ..state }.is_valid(&data));
    assert!(!UnrewardedRelayersState { messages_in_oldest_entry: 2, ..state }.is_valid(&data));
    assert!(!UnrewardedRelayersState { last_delivered_nonce: 11, ..state }.is_valid(&data));
}

#[test]
fn relayers_state_of_empty_queue() {
    let data = lane(vec![], 42);
    assert_eq!(
        UnrewardedRelayersState::from(&data),
        UnrewardedRelayersState {
            unrewarded_relayer_entries: 0,
            messages_in_oldest_entry: 0,
            total_messages: 0,
            last_delivered_nonce: 42,
        }
    );
    assert!(!UnrewardedRelayersState::default().is_valid(&data));
    assert!(UnrewardedRelayersState::default().is_valid(&lane(vec![], 0)));
}

#[test]
fn size_hint_counts_entries_and_last_confirmed_nonce() {
    assert_eq!(InboundLaneData::<u8>::encoded_size_hint(0), Some(8));
    assert_eq!(InboundLaneData::<u8>::encoded_size_hint(1), Some(25));
    assert_eq!(InboundLaneData::<u8>::encoded_size_hint(13), Some(13 * 17 + 8));
    assert_eq!(InboundLaneData::<u64>::encoded_size_hint(128), Some(128 * 24 + 8));
    assert_eq!(InboundLaneData::<()>::encoded_size_hint(3), Some(3 * 16 + 8));
    assert_eq!(InboundLaneData::<[u8; 32]>::encoded_size_hint(2), Some(2 * 48 + 8));
    assert_eq!(InboundLaneData::<u8>::encoded_size_hint(usize::MAX), None);
    assert_eq!(InboundLaneData::<u8>::encoded_size_hint(usize::MAX / 17), None);
    assert_eq!(InboundLaneData::<u8>::encoded_size_hint_u32(13), 13 * 17 + 8);
    assert_eq!(InboundLaneData::<u8>::encoded_size_hint_u32(usize::MAX), u32::MAX);
    assert_eq!(InboundLaneData::<u8>::encoded_size_hint_u32(u32::MAX as usize), u32::MAX);
}

#[test]
fn size_hint_is_short_of_encoded_size_by_prefix_and_state() {
    for entries in [0u64, 1, 13, 63, 64, 128] {
        let data = lane((1..=entries).map(|i| entry(i, i, i)).collect(), 0);
        let hint = InboundLaneData::<u64>::encoded_size_hint(entries as usize).unwrap();
        let prefix = if entries < 64 { 1 } else { 2 };
        assert_eq!(data.encode().len(), hint + prefix + 1);
    }
}

#[test]
fn inbound_lane_encodes_as_the_codec_encodes_its_fields() {
    let data = lane(vec![entry(7, 1, 3), entry(u64::MAX, 4, 0x0102_0304_0506_0708)], 0x1122);
    let fields = (
        vec![(7u64, (1u64, 3u64)), (u64::MAX, (4u64, 0x0102_0304_0506_0708u64))],
        0x1122u64,
        0u8,
    );
    assert_eq!(data.encode(), fields.encode());
    let mut appended = vec![0xffu8];
    data.encode_to(&mut appended);
    assert_eq!(appended[0], 0xff);
    assert_eq!(appended[1..], fields.encode()[..]);

    let closed = InboundLaneData::<u8>::default();
    assert_eq!(closed.encode(), vec![0, 0, 0, 0, 0, 0, 0, 0, 0, 1]);
}

#[test]
fn long_queue_gets_two_byte_length_prefix() {
    let data = lane((1..=100u64).map(|i| entry(i, i, i)).collect(), 0);
    let fields = ((1..=100u64).map(|i| (i, (i, i))).collect::<Vec<_>>(), 0u64, 0u8);
    let bytes = data.encode();
    assert_eq!(bytes, fields.encode());
    assert_eq!(bytes[0..2], [0x91, 0x01]);
}
