use bp_messages::mock::build_and_execute;
use bp_messages::mock::RecordingDispatch;
use bp_messages::mock::TestLanes;
use bp_messages::DeliveredMessages;
use bp_messages::InboundLaneData;
use bp_messages::InboundLaneLimits;
use bp_messages::LaneState;
use bp_messages::MessageDispatch;
use bp_messages::MessageKey;
use bp_messages::MessageNonce;
use bp_messages::OutboundLaneData;
use bp_messages::ReceptionResult;
use bp_messages::UnrewardedRelayer;
use bp_messages::Weight;

#[test]
fn genesis_config_works() {
    let (_, sound) = build_and_execute(|lanes| {
        assert_eq!(lanes.inbound.total_unrewarded_messages(), 0);
        assert_eq!(lanes.outbound.latest_generated_nonce, 0);
        lanes
    });
    assert!(sound);
}

#[test]
fn harness_starts_from_closed_lanes_and_checks_invariants() {
    let (lanes, sound) = build_and_execute(|mut lanes| {
        assert_eq!(lanes.outbound, OutboundLaneData::default());
        assert_eq!(lanes.inbound, InboundLaneData::default());
        lanes.outbound.state = LaneState::Opened;
        assert_eq!(lanes.outbound.send_message(&vec![1], 10), Ok(1));
        lanes
    });
    assert!(sound);
    assert_eq!(lanes.outbound.latest_generated_nonce, 1);

    let (_, sound) = build_and_execute(|mut lanes| {
        lanes.outbound.latest_received_nonce = 5;
        lanes
    });
    assert!(!sound);

    let (_, sound) = build_and_execute(|mut lanes| {
        lanes.inbound.relayers.push_back(UnrewardedRelayer { relayer: 1, messages: DeliveredMessages::new(2) });
        lanes
    });
    assert!(!sound);
}

fn entry(relayer: u64, begin: MessageNonce, end: MessageNonce) -> UnrewardedRelayer<u64> {
    UnrewardedRelayer { relayer, messages: DeliveredMessages { begin, end } }
}

fn inbound(entries: Vec<UnrewardedRelayer<u64>>, last_confirmed_nonce: MessageNonce) -> InboundLaneData<u64> {
    InboundLaneData { state: LaneState::Opened, relayers: entries.into_iter().collect(), last_confirmed_nonce }
}

fn outbound(oldest: MessageNonce, received: MessageNonce, generated: MessageNonce) -> OutboundLaneData {
    OutboundLaneData {
        oldest_unpruned_nonce: oldest,
        latest_received_nonce: received,
        latest_generated_nonce: generated,
        state: LaneState::Opened,
    }
}

#[test]
fn inbound_try_state_accepts_unbroken_queues_only() {
    assert!(inbound(vec![], 0).try_state());
    assert!(inbound(vec![], MessageNonce::MAX).try_state());
    assert!(inbound(vec![entry(1, 1, 3), entry(2, 4, 4), entry(1, 5, 9)], 0).try_state());
    assert!(inbound(vec![entry(1, 8, MessageNonce::MAX)], 7).try_state());
    // the queue does not begin right after the last confirmed nonce
    assert!(!inbound(vec![entry(1, 2, 3)], 0).try_state());
    assert!(!inbound(vec![entry(1, 1, 3)], 1).try_state());
    assert!(!inbound(vec![entry(1, 0, 3)], MessageNonce::MAX).try_state());
    // a gap, an overlap, an empty range
    assert!(!inbound(vec![entry(1, 1, 3), entry(2, 5, 6)], 0).try_state());
    assert!(!inbound(vec![entry(1, 1, 3), entry(2, 3, 6)], 0).try_state());
    assert!(!inbound(vec![entry(1, 1, 0)], 0).try_state());
    assert!(!inbound(vec![entry(1, 1, 3), entry(2, 4, 3)], 0).try_state());
    // nothing follows the largest nonce
    assert!(!inbound(vec![entry(1, 1, MessageNonce::MAX), entry(2, 0, 0)], 0).try_state());
}

#[test]
fn outbound_try_state_checks_the_order_of_the_nonces() {
    assert!(OutboundLaneData::default().try_state());
    assert!(outbound(1, 5, 10).try_state());
    assert!(outbound(6, 5, 5).try_state());
    assert!(outbound(MessageNonce::MAX, MessageNonce::MAX, MessageNonce::MAX).try_state());
    assert!(!outbound(7, 5, 10).try_state());
    assert!(!outbound(1, 11, 10).try_state());
    assert!(TestLanes::new().try_state());
}

#[test]
fn killed_accounts_are_recorded_in_order() {
    let mut record = bp_messages::mock::RecordKilled::new();
    assert!(record.killed.is_empty());
    record.on_killed_account(&5);
    record.on_killed_account(&2);
    record.on_killed_account(&5);
    assert_eq!(record.killed, vec![5, 2, 5]);
}

#[test]
fn default_nonce_is_the_block_number() {
    assert_eq!(bp_messages::mock::DefaultNonceProvider { block_number: 0 }.get(), 0);
    assert_eq!(bp_messages::mock::DefaultNonceProvider { block_number: 42 }.get(), 42);
}

#[test]
fn mocked_migrator_takes_no_weight() {
    let idle = bp_messages::mock::MockedMigrator { ongoing: false };
    let busy = bp_messages::mock::MockedMigrator { ongoing: true };
    assert!(!idle.ongoing());
    assert!(busy.ongoing());
    assert_eq!(busy.step(), Weight::zero());
}

#[test]
fn members_start_as_ten_to_fourteen_and_stay_sorted() {
    let mut members = bp_messages::mock::TenToFourteen::new();
    assert_eq!(members.sorted_members(), vec![10, 11, 12, 13, 14]);
    assert_eq!(members.max_len(), 5);
    assert_eq!(members.min_len(), 0);
    members.add(&12);
    members.add(&1);
    members.add(&20);
    members.add(&13);
    assert_eq!(members.sorted_members(), vec![1, 10, 11, 12, 12, 13, 13, 14, 20]);
    assert_eq!(members.max_len(), 9);
    assert_eq!(members.min_len(), 0);
}

#[test]
fn recording_dispatch_keeps_what_it_is_handed() {
    let mut dispatch = RecordingDispatch::<u8>::new();
    let outcome = dispatch.dispatch(MessageKey { lane_id: 9, nonce: 1 }, &vec![1, 2, 3]);
    assert_eq!(outcome.dispatch_level_result, 3);
    assert_eq!(outcome.unspent_weight, Weight::zero());
    assert_eq!(dispatch.messages, vec![(MessageKey { lane_id: 9, nonce: 1 }, vec![1, 2, 3])]);

    let mut lane = InboundLaneData::<u64>::opened();
    let mut dispatch = RecordingDispatch::<u8>::new();
    let limits = InboundLaneLimits { max_unrewarded_relayer_entries: 1, max_unconfirmed_messages: 2 };
    let batch = vec![(1, vec![7u8]), (2, vec![]), (3, vec![8u8, 9])];
    let received = lane.receive_messages(4, &5, &batch, &mut dispatch, &limits).unwrap();
    assert_eq!(received.receive_results.len(), 3);
    assert_eq!(received.receive_results[2], (3, ReceptionResult::TooManyUnconfirmedMessages));
    // accepted messages are dispatched once and in order, the refused one not at all
    assert_eq!(
        dispatch.messages,
        vec![(MessageKey { lane_id: 4, nonce: 1 }, vec![7u8]), (MessageKey { lane_id: 4, nonce: 2 }, vec![])]
    );
}
