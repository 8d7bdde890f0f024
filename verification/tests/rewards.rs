use bp_messages::calc_relayers_rewards;
use bp_messages::range::checked_len;
use bp_messages::range::saturating_len;
use bp_messages::range::saturating_overlap_len;
use bp_messages::DeliveredMessages;
use bp_messages::MessageNonce;
use bp_messages::RelayersRewards;
use bp_messages::UnrewardedRelayer;
use std::collections::VecDeque;

fn entry(relayer: u64, begin: MessageNonce, end: MessageNonce) -> UnrewardedRelayer<u64> {
    UnrewardedRelayer { relayer, messages: DeliveredMessages { begin, end } }
}

fn queue(entries: Vec<UnrewardedRelayer<u64>>) -> VecDeque<UnrewardedRelayer<u64>> {
    entries.into_iter().collect()
}

fn rewards(pairs: Vec<(u64, MessageNonce)>) -> RelayersRewards<u64> {
    pairs.into_iter().collect()
}

#[test]
fn rewards_are_the_overlap_with_the_confirmed_range() {
    let a = 1;
    let b = 2;
    let result = calc_relayers_rewards(queue(vec![entry(a, 0, 10), entry(b, 11, 20)]), &(5..=15));
    assert_eq!(result, rewards(vec![(a, 6), (b, 5)]));
}

#[test]
fn relayer_without_confirmed_message_gets_no_place() {
    let result = calc_relayers_rewards(queue(vec![entry(1, 1, 4), entry(2, 5, 8), entry(3, 9, 9)]), &(5..=8));
    assert_eq!(result, rewards(vec![(2, 4)]));
    assert!(!result.contains_key(&1));
    assert!(!result.contains_key(&3));
}

#[test]
fn entries_of_the_same_relayer_add_up() {
    let result =
        calc_relayers_rewards(queue(vec![entry(1, 1, 3), entry(2, 4, 4), entry(1, 5, 9)]), &(2..=6));
    assert_eq!(result, rewards(vec![(1, 4), (2, 1)]));
}

#[test]
fn empty_queue_and_inverted_ranges_reward_nobody() {
    assert_eq!(calc_relayers_rewards(queue(vec![]), &(1..=10)), rewards(vec![]));
    assert_eq!(calc_relayers_rewards(queue(vec![entry(1, 1, 10)]), &(6..=5)), rewards(vec![]));
    assert_eq!(calc_relayers_rewards(queue(vec![entry(1, 10, 1)]), &(1..=10)), rewards(vec![]));
    assert_eq!(calc_relayers_rewards(queue(vec![entry(1, 1, 4)]), &(5..=9)), rewards(vec![]));
    assert_eq!(calc_relayers_rewards(queue(vec![entry(1, 7, 9)]), &(1..=6)), rewards(vec![]));
}

#[test]
fn rewards_saturate_over_the_whole_nonce_space() {
    let all = 0..=MessageNonce::MAX;
    assert_eq!(
        calc_relayers_rewards(queue(vec![entry(1, 0, MessageNonce::MAX)]), &all),
        rewards(vec![(1, MessageNonce::MAX)])
    );
    assert_eq!(
        calc_relayers_rewards(
            queue(vec![entry(1, 1, MessageNonce::MAX), entry(1, 1, MessageNonce::MAX), entry(2, 3, 3)]),
            &all
        ),
        rewards(vec![(1, MessageNonce::MAX), (2, 1)])
    );
}

#[test]
fn single_nonce_overlap() {
    assert_eq!(calc_relayers_rewards(queue(vec![entry(9, 5, 5)]), &(5..=5)), rewards(vec![(9, 1)]));
    assert_eq!(calc_relayers_rewards(queue(vec![entry(9, 1, 5)]), &(5..=9)), rewards(vec![(9, 1)]));
}

#[test]
fn range_lengths_saturate() {
    assert_eq!(saturating_len(100, 150), 51);
    assert_eq!(saturating_len(7, 7), 1);
    assert_eq!(saturating_len(8, 7), 0);
    assert_eq!(saturating_len(MessageNonce::MAX, 0), 0);
    assert_eq!(saturating_len(0, MessageNonce::MAX), MessageNonce::MAX);
    assert_eq!(saturating_len(1, MessageNonce::MAX), MessageNonce::MAX);
    assert_eq!(saturating_len(2, MessageNonce::MAX), MessageNonce::MAX - 1);
}

#[test]
fn checked_range_lengths() {
    assert_eq!(checked_len(100, 150), Some(51));
    assert_eq!(checked_len(7, 7), Some(1));
    assert_eq!(checked_len(8, 7), None);
    assert_eq!(checked_len(0, MessageNonce::MAX), None);
    assert_eq!(checked_len(1, MessageNonce::MAX), Some(MessageNonce::MAX));
}

#[test]
fn overlap_lengths() {
    assert_eq!(saturating_overlap_len(0, 10, 5, 15), 6);
    assert_eq!(saturating_overlap_len(11, 20, 5, 15), 5);
    assert_eq!(saturating_overlap_len(5, 15, 0, 10), 6);
    assert_eq!(saturating_overlap_len(1, 4, 5, 9), 0);
    assert_eq!(saturating_overlap_len(1, 9, 3, 4), 2);
    assert_eq!(saturating_overlap_len(9, 1, 0, 20), 0);
    assert_eq!(saturating_overlap_len(0, MessageNonce::MAX, 0, MessageNonce::MAX), MessageNonce::MAX);
}
