use bp_messages::ConfirmationError;
use bp_messages::DeliveredMessages;
use bp_messages::Encode;
use bp_messages::LaneState;
use bp_messages::MaxEncodedLen;
use bp_messages::MessageNonce;
use bp_messages::OutboundLaneData;
use bp_messages::SendMessageError;

fn lane(oldest: MessageNonce, received: MessageNonce, generated: MessageNonce) -> OutboundLaneData {
    OutboundLaneData {
        oldest_unpruned_nonce: oldest,
        latest_received_nonce: received,
        latest_generated_nonce: generated,
        state: LaneState::Opened,
    }
}

#[test]
fn queued_messages_lie_between_received_and_generated() {
    assert_eq!(lane(1, 5, 10).queued_messages(), 6..=10);
    assert_eq!(OutboundLaneData::opened().queued_messages(), 1..=0);
    assert!(OutboundLaneData::opened().queued_messages().is_empty());
    assert_eq!(lane(8, 7, 7).queued_messages().count(), 0);
    assert_eq!(lane(1, 0, 3).queued_messages().collect::<Vec<_>>(), vec![1, 2, 3]);
}

#[test]
fn send_message_assigns_nonces_from_one() {
    let mut data = OutboundLaneData::opened();
    assert_eq!(data.send_message(&vec![1, 2, 3], 3), Ok(1));
    assert_eq!(data.send_message(&vec![], 3), Ok(2));
    assert_eq!(data, lane(1, 0, 2));
    assert_eq!(data.queued_messages(), 1..=2);
}

#[test]
fn closed_lane_refuses_to_send_without_change() {
    let mut data = OutboundLaneData::default();
    let before = data;
    assert_eq!(data.send_message(&vec![1], 10), Err(SendMessageError::LaneClosed));
    // a closed lane says so even where the message is too large as well
    assert_eq!(data.send_message(&vec![1; 11], 10), Err(SendMessageError::LaneClosed));
    assert_eq!(data, before);
}

#[test]
fn too_large_message_is_refused() {
    let mut data = lane(1, 0, 4);
    assert_eq!(data.send_message(&vec![0; 11], 10), Err(SendMessageError::MessageTooLarge));
    assert_eq!(data, lane(1, 0, 4));
    assert_eq!(data.send_message(&vec![0; 10], 10), Ok(5));
    assert_eq!(data.send_message(&vec![0; 1], 0), Err(SendMessageError::MessageTooLarge));
    assert_eq!(data.send_message(&vec![], 0), Ok(6));
}

#[test]
fn lane_runs_out_of_nonces() {
    let mut data = lane(1, 0, MessageNonce::MAX - 1);
    assert_eq!(data.send_message(&vec![], 10), Ok(MessageNonce::MAX));
    assert_eq!(data.send_message(&vec![], 10), Err(SendMessageError::NonceOverflow));
    assert_eq!(data, lane(1, 0, MessageNonce::MAX));
}

#[test]
fn confirmation_advances_received_nonce_and_prunes() {
    let mut data = lane(1, 0, 10);
    assert_eq!(data.confirm_delivery(&(1..=4)), Ok(Some(DeliveredMessages { begin: 1, end: 4 })));
    assert_eq!(data, lane(5, 4, 10));
    // the lower bound of the range is not read
    assert_eq!(data.confirm_delivery(&(7..=9)), Ok(Some(DeliveredMessages { begin: 5, end: 9 })));
    assert_eq!(data, lane(10, 9, 10));
    assert_eq!(data.confirm_delivery(&(10..=10)), Ok(Some(DeliveredMessages { begin: 10, end: 10 })));
    assert_eq!(data, lane(11, 10, 10));
    assert_eq!(data.queued_messages().count(), 0);
}

#[test]
fn confirmation_never_moves_backward() {
    let mut data = lane(6, 5, 10);
    assert_eq!(data.confirm_delivery(&(1..=5)), Ok(None));
    assert_eq!(data.confirm_delivery(&(1..=3)), Ok(None));
    assert_eq!(data.confirm_delivery(&(0..=0)), Ok(None));
    assert_eq!(data, lane(6, 5, 10));
}

#[test]
fn confirmation_of_future_messages_is_refused() {
    let mut data = lane(6, 5, 10);
    assert_eq!(data.confirm_delivery(&(6..=11)), Err(ConfirmationError::FailedToConfirmFutureMessages));
    assert_eq!(data, lane(6, 5, 10));
}

#[test]
fn closed_lane_refuses_confirmation() {
    let mut data = lane(6, 5, 10);
    data.state = LaneState::Closed;
    let before = data;
    assert_eq!(data.confirm_delivery(&(6..=8)), Err(ConfirmationError::LaneClosed));
    assert_eq!(data.confirm_delivery(&(6..=11)), Err(ConfirmationError::LaneClosed));
    assert_eq!(data, before);
}

#[test]
fn confirmation_up_to_the_largest_nonce() {
    let mut data = lane(1, 0, MessageNonce::MAX);
    assert_eq!(
        data.confirm_delivery(&(1..=MessageNonce::MAX)),
        Ok(Some(DeliveredMessages { begin: 1, end: MessageNonce::MAX }))
    );
    assert_eq!(data, lane(MessageNonce::MAX, MessageNonce::MAX, MessageNonce::MAX));
}

#[test]
fn prune_stops_at_latest_received_nonce() {
    let mut data = lane(1, 5, 10);
    assert_eq!(data.prune(3), 3);
    assert_eq!(data, lane(4, 5, 10));
    assert_eq!(data.prune(2), 0);
    assert_eq!(data.prune(3), 0);
    assert_eq!(data, lane(4, 5, 10));
    assert_eq!(data.prune(8), 2);
    assert_eq!(data, lane(6, 5, 10));
    assert_eq!(data.prune(MessageNonce::MAX), 0);
    assert_eq!(data, lane(6, 5, 10));
    let mut fresh = OutboundLaneData::opened();
    assert_eq!(fresh.prune(0), 0);
    assert_eq!(fresh.prune(7), 0);
    assert_eq!(fresh, OutboundLaneData::opened());
}

#[test]
fn outbound_lane_encodes_three_nonces_and_state() {
    let data = lane(0x0102, 1, u64::MAX);
    let mut expected = vec![0x02, 0x01, 0, 0, 0, 0, 0, 0];
    expected.extend([1, 0, 0, 0, 0, 0, 0, 0]);
    expected.extend([0xff; 8]);
    expected.push(0);
    assert_eq!(data.encode(), expected);
    assert_eq!(
        parity_scale_codec::Encode::encode(&(0x0102u64, 1u64, u64::MAX, 0u8)),
        expected
    );
    let closed = OutboundLaneData::default().encode();
    assert_eq!(closed.len(), 25);
    assert_eq!(closed[24], 1);
    assert_eq!(OutboundLaneData::max_encoded_len(), 25);
}
