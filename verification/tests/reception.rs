use bp_messages::DeliveredMessages;
use bp_messages::InboundLaneData;
use bp_messages::InboundLaneLimits;
use bp_messages::LaneClosed;
use bp_messages::LaneState;
use bp_messages::MessageDispatch;
use bp_messages::MessageDispatchResult;
use bp_messages::MessageKey;
use bp_messages::MessageNonce;
use bp_messages::MessagePayload;
use bp_messages::OutboundLaneData;
use bp_messages::ReceivedMessages;
use bp_messages::ReceptionResult;
use bp_messages::Rejection;
use bp_messages::UnrewardedRelayer;
use bp_messages::Weight;
use std::collections::VecDeque;

const LANE: [u8; 4] = [0, 0, 0, 1];

/// Dispatcher that remembers what it was given and reports the size of the payload.
struct Recorder {
    dispatched: Vec<(MessageKey<[u8; 4]>, MessagePayload)>,
}

impl MessageDispatch<[u8; 4]> for Recorder {
    type DispatchLevelResult = usize;

    fn dispatch(
        &mut self,
        key: MessageKey<[u8; 4]>,
        payload: &MessagePayload,
    ) -> MessageDispatchResult<usize> {
        self.dispatched.push((key, payload.clone()));
        MessageDispatchResult {
            unspent_weight: Weight::from_parts(key.nonce, 0),
            dispatch_level_result: payload.len(),
        }
    }
}

fn recorder() -> Recorder {
    Recorder { dispatched: Vec::new() }
}

fn limits(entries: MessageNonce, messages: MessageNonce) -> InboundLaneLimits {
    InboundLaneLimits { max_unrewarded_relayer_entries: entries, max_unconfirmed_messages: messages }
}

fn entry(relayer: u64, begin: MessageNonce, end: MessageNonce) -> UnrewardedRelayer<u64> {
    UnrewardedRelayer { relayer, messages: DeliveredMessages { begin, end } }
}

fn lane(entries: Vec<UnrewardedRelayer<u64>>, last_confirmed_nonce: MessageNonce) -> InboundLaneData<u64> {
    InboundLaneData {
        state: LaneState::Opened,
        relayers: entries.into_iter().collect::<VecDeque<_>>(),
        last_confirmed_nonce,
    }
}

fn dispatched(nonce: MessageNonce, size: usize) -> ReceptionResult<usize> {
    ReceptionResult::Dispatched(MessageDispatchResult {
        unspent_weight: Weight::from_parts(nonce, 0),
        dispatch_level_result: size,
    })
}

#[test]
fn closed_lane_refuses_messages_without_change() {
    let mut data = InboundLaneData::<u64>::default();
    let before = data.clone();
    let mut dispatch = recorder();
    let batch = vec![(1, vec![1u8])];
    assert_eq!(
        data.receive_messages(LANE, &7, &batch, &mut dispatch, &limits(10, 10)),
        Err(LaneClosed)
    );
    assert_eq!(
        data.receive_message(LANE, &7, 1, &vec![1u8], &mut dispatch, &limits(10, 10)),
        Err(LaneClosed)
    );
    assert_eq!(data, before);
    assert!(dispatch.dispatched.is_empty());
}

#[test]
fn gap_in_nonces_is_refused_and_state_does_not_advance() {
    let mut data = lane(vec![entry(1, 1, 3)], 0);
    assert_eq!(data.last_delivered_nonce(), 3);
    let before = data.clone();
    let mut dispatch = recorder();
    let batch = vec![(5, vec![5u8]), (6, vec![6u8]), (7, vec![7u8])];
    let received = data.receive_messages(LANE, &1, &batch, &mut dispatch, &limits(10, 10)).unwrap();
    assert_eq!(received.lane, LANE);
    assert_eq!(received.receive_results, vec![(5, ReceptionResult::InvalidNonce)]);
    assert_eq!(data, before);
    assert_eq!(data.last_delivered_nonce(), 3);
    assert!(dispatch.dispatched.is_empty());
}

#[test]
fn consecutive_messages_are_dispatched_in_order() {
    let mut data = InboundLaneData::<u64>::opened();
    let mut dispatch = recorder();
    let batch = vec![(1, vec![1u8]), (2, vec![2u8, 2]), (3, vec![])];
    let received = data.receive_messages(LANE, &9, &batch, &mut dispatch, &limits(1, 3)).unwrap();
    assert_eq!(
        received,
        ReceivedMessages::new(LANE, vec![(1, dispatched(1, 1)), (2, dispatched(2, 2)), (3, dispatched(3, 0))])
    );
    assert_eq!(data, lane(vec![entry(9, 1, 3)], 0));
    assert_eq!(
        dispatch.dispatched,
        vec![
            (MessageKey { lane_id: LANE, nonce: 1 }, vec![1u8]),
            (MessageKey { lane_id: LANE, nonce: 2 }, vec![2u8, 2]),
            (MessageKey { lane_id: LANE, nonce: 3 }, vec![]),
        ]
    );
}

#[test]
fn batch_ends_at_first_refused_message() {
    let mut data = InboundLaneData::<u64>::opened();
    let mut dispatch = recorder();
    let batch = vec![(1, vec![1u8]), (3, vec![3u8]), (2, vec![2u8])];
    let received = data.receive_messages(LANE, &9, &batch, &mut dispatch, &limits(5, 5)).unwrap();
    assert_eq!(received.receive_results, vec![(1, dispatched(1, 1)), (3, ReceptionResult::InvalidNonce)]);
    assert_eq!(data, lane(vec![entry(9, 1, 1)], 0));
    assert_eq!(dispatch.dispatched.len(), 1);
}

#[test]
fn empty_batch_changes_nothing() {
    let mut data = lane(vec![entry(1, 4, 6)], 3);
    let before = data.clone();
    let mut dispatch = recorder();
    let received = data.receive_messages(LANE, &1, &vec![], &mut dispatch, &limits(1, 1)).unwrap();
    assert!(received.receive_results.is_empty());
    assert_eq!(data, before);
}

#[test]
fn other_relayer_gets_a_new_entry() {
    let mut data = lane(vec![entry(1, 1, 3)], 0);
    let mut dispatch = recorder();
    let result = data.receive_message(LANE, &2, 4, &vec![0u8; 3], &mut dispatch, &limits(2, 10));
    assert_eq!(result, Ok(dispatched(4, 3)));
    assert_eq!(data, lane(vec![entry(1, 1, 3), entry(2, 4, 4)], 0));
    // the first relayer comes back: its old entry is not the newest one any more
    let result = data.receive_message(LANE, &1, 5, &vec![], &mut dispatch, &limits(3, 10));
    assert_eq!(result, Ok(dispatched(5, 0)));
    assert_eq!(data, lane(vec![entry(1, 1, 3), entry(2, 4, 4), entry(1, 5, 5)], 0));
}

#[test]
fn full_queue_refuses_new_relayer_but_lets_newest_entry_grow() {
    let mut data = lane(vec![entry(1, 1, 3), entry(2, 4, 4)], 0);
    let before = data.clone();
    let mut dispatch = recorder();
    let result = data.receive_message(LANE, &3, 5, &vec![], &mut dispatch, &limits(2, 10));
    assert_eq!(result, Ok(ReceptionResult::TooManyUnrewardedRelayers));
    assert_eq!(data, before);
    let result = data.receive_message(LANE, &1, 5, &vec![], &mut dispatch, &limits(2, 10));
    assert_eq!(result, Ok(ReceptionResult::TooManyUnrewardedRelayers));
    assert_eq!(data, before);
    assert!(dispatch.dispatched.is_empty());
    let result = data.receive_message(LANE, &2, 5, &vec![], &mut dispatch, &limits(2, 10));
    assert_eq!(result, Ok(dispatched(5, 0)));
    assert_eq!(data, lane(vec![entry(1, 1, 3), entry(2, 4, 5)], 0));
}

#[test]
fn empty_queue_with_no_room_for_entries_refuses_everything() {
    let mut data = InboundLaneData::<u64>::opened();
    let mut dispatch = recorder();
    let result = data.receive_message(LANE, &1, 1, &vec![], &mut dispatch, &limits(0, 10));
    assert_eq!(result, Ok(ReceptionResult::TooManyUnrewardedRelayers));
    assert!(data.relayers.is_empty());
}

#[test]
fn too_many_unconfirmed_messages_are_refused() {
    let mut data = lane(vec![entry(1, 6, 7)], 5);
    let mut dispatch = recorder();
    let batch = vec![(8, vec![]), (9, vec![]), (10, vec![])];
    let received = data.receive_messages(LANE, &1, &batch, &mut dispatch, &limits(4, 4)).unwrap();
    assert_eq!(
        received.receive_results,
        vec![(8, dispatched(8, 0)), (9, dispatched(9, 0)), (10, ReceptionResult::TooManyUnconfirmedMessages)]
    );
    assert_eq!(data, lane(vec![entry(1, 6, 9)], 5));
    assert_eq!(data.total_unrewarded_messages(), 4);

    let mut empty = InboundLaneData::<u64>::opened();
    let result = empty.receive_message(LANE, &1, 1, &vec![], &mut dispatch, &limits(4, 0));
    assert_eq!(result, Ok(ReceptionResult::TooManyUnconfirmedMessages));
}

#[test]
fn entry_count_is_checked_before_message_count() {
    let mut data = lane(vec![entry(1, 1, 2)], 0);
    let mut dispatch = recorder();
    let result = data.receive_message(LANE, &2, 3, &vec![], &mut dispatch, &limits(1, 2));
    assert_eq!(result, Ok(ReceptionResult::TooManyUnrewardedRelayers));
    let result = data.receive_message(LANE, &2, 4, &vec![], &mut dispatch, &limits(1, 2));
    assert_eq!(result, Ok(ReceptionResult::InvalidNonce));
}

#[test]
fn check_message_names_the_refusal() {
    let data = lane(vec![entry(1, 1, 3)], 0);
    assert_eq!(data.check_message(&1, 4, &limits(1, 4)), None);
    assert_eq!(data.check_message(&1, 3, &limits(1, 4)), Some(Rejection::InvalidNonce));
    assert_eq!(data.check_message(&1, 0, &limits(1, 4)), Some(Rejection::InvalidNonce));
    assert_eq!(data.check_message(&2, 4, &limits(1, 4)), Some(Rejection::TooManyUnrewardedRelayers));
    assert_eq!(data.check_message(&1, 4, &limits(1, 3)), Some(Rejection::TooManyUnconfirmedMessages));
    assert_eq!(data.check_message(&2, 4, &limits(2, 4)), None);
}

#[test]
fn no_message_follows_the_largest_nonce() {
    let data = lane(vec![entry(1, MessageNonce::MAX, MessageNonce::MAX)], MessageNonce::MAX - 1);
    assert_eq!(
        data.check_message(&1, 0, &limits(MessageNonce::MAX, MessageNonce::MAX)),
        Some(Rejection::InvalidNonce)
    );
    assert_eq!(
        data.check_message(&1, MessageNonce::MAX, &limits(MessageNonce::MAX, MessageNonce::MAX)),
        Some(Rejection::InvalidNonce)
    );
}

#[test]
fn span_of_all_nonces_is_over_every_limit() {
    let data = lane(vec![entry(1, 0, MessageNonce::MAX - 1)], 0);
    assert_eq!(
        data.check_message(&1, MessageNonce::MAX, &limits(MessageNonce::MAX, MessageNonce::MAX)),
        Some(Rejection::TooManyUnconfirmedMessages)
    );
}

#[test]
fn accept_message_records_delivery_and_carries_result() {
    let mut data = lane(vec![entry(1, 1, 3)], 0);
    let outcome = MessageDispatchResult { unspent_weight: Weight::zero(), dispatch_level_result: "done" };
    let result = data.accept_message(1, 4, outcome.clone());
    assert_eq!(result, ReceptionResult::Dispatched(outcome));
    assert!(result.is_dispatched());
    assert_eq!(data, lane(vec![entry(1, 1, 4)], 0));
    data.note_delivery(5, 5);
    assert_eq!(data, lane(vec![entry(1, 1, 4), entry(5, 5, 5)], 0));
}

#[test]
fn rejection_becomes_reception_result() {
    assert_eq!(ReceptionResult::<()>::from_rejection(Rejection::InvalidNonce), ReceptionResult::InvalidNonce);
    assert_eq!(
        ReceptionResult::<()>::from_rejection(Rejection::TooManyUnrewardedRelayers),
        ReceptionResult::TooManyUnrewardedRelayers
    );
    assert_eq!(
        ReceptionResult::<()>::from_rejection(Rejection::TooManyUnconfirmedMessages),
        ReceptionResult::TooManyUnconfirmedMessages
    );
    assert!(!ReceptionResult::<()>::InvalidNonce.is_dispatched());
}

#[test]
fn received_messages_collect_results() {
    let mut received = ReceivedMessages::<(), u8>::new(3, vec![(1, ReceptionResult::InvalidNonce)]);
    received.push(2, ReceptionResult::TooManyUnconfirmedMessages);
    assert_eq!(received.lane, 3);
    assert_eq!(
        received.receive_results,
        vec![(1, ReceptionResult::InvalidNonce), (2, ReceptionResult::TooManyUnconfirmedMessages)]
    );
}

fn outbound(latest_received_nonce: MessageNonce) -> OutboundLaneData {
    OutboundLaneData {
        oldest_unpruned_nonce: latest_received_nonce + 1,
        latest_received_nonce,
        latest_generated_nonce: 100,
        state: LaneState::Opened,
    }
}

#[test]
fn state_update_drops_confirmed_entries_and_trims_the_oldest_left() {
    let mut data = lane(vec![entry(1, 1, 3), entry(2, 4, 9), entry(1, 10, 10)], 0);
    assert_eq!(data.receive_state_update(&outbound(5)), Ok(Some(5)));
    assert_eq!(data, lane(vec![entry(2, 6, 9), entry(1, 10, 10)], 5));
    assert_eq!(data.last_delivered_nonce(), 10);
    assert_eq!(data.total_unrewarded_messages(), 5);
    assert_eq!(data.receive_state_update(&outbound(9)), Ok(Some(9)));
    assert_eq!(data, lane(vec![entry(1, 10, 10)], 9));
    assert_eq!(data.receive_state_update(&outbound(10)), Ok(Some(10)));
    assert_eq!(data, lane(vec![], 10));
    assert_eq!(data.last_delivered_nonce(), 10);
}

#[test]
fn state_update_that_tells_nothing_new_is_ignored() {
    let mut data = lane(vec![entry(1, 6, 8)], 5);
    let before = data.clone();
    assert_eq!(data.receive_state_update(&outbound(5)), Ok(None));
    assert_eq!(data.receive_state_update(&outbound(3)), Ok(None));
    assert_eq!(data.receive_state_update(&outbound(0)), Ok(None));
    // more than has been delivered cannot have been confirmed
    assert_eq!(data.receive_state_update(&outbound(9)), Ok(None));
    assert_eq!(data, before);
}

#[test]
fn closed_lane_refuses_state_update() {
    let mut data = lane(vec![entry(1, 6, 8)], 5);
    data.state = LaneState::Closed;
    let before = data.clone();
    assert_eq!(data.receive_state_update(&outbound(7)), Err(LaneClosed));
    assert_eq!(data, before);
}

#[test]
fn delivery_and_confirmation_keep_the_queue_unbroken() {
    let mut data = InboundLaneData::<u64>::opened();
    let mut dispatch = recorder();
    let mut next = 1;
    for round in 0..20u64 {
        let relayer = round % 3;
        let batch: Vec<(MessageNonce, MessagePayload)> = (next..next + 4).map(|n| (n, vec![])).collect();
        let received = data.receive_messages(LANE, &relayer, &batch, &mut dispatch, &limits(3, 10)).unwrap();
        next += received.receive_results.iter().filter(|(_, result)| result.is_dispatched()).count() as u64;
        if round % 2 == 1 {
            let confirmed = data.last_confirmed_nonce + 3;
            data.receive_state_update(&outbound(confirmed)).unwrap();
        }
        let mut expected_begin = data.last_confirmed_nonce + 1;
        for queued in data.relayers.iter() {
            assert_eq!(queued.messages.begin, expected_begin);
            assert!(queued.messages.begin <= queued.messages.end);
            expected_begin = queued.messages.end + 1;
        }
        assert_eq!(data.last_delivered_nonce(), next - 1);
        assert_eq!(data.total_unrewarded_messages(), data.last_delivered_nonce() - data.last_confirmed_nonce);
        assert!(data.relayers.len() <= 3);
        assert!(data.total_unrewarded_messages() <= 10);
    }
}
