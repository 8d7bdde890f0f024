//! Rewards of relayers: how many of the messages that a relayer has delivered a
//! delivery confirmation covers.

use crate::delivered::UnrewardedRelayer;
use crate::inbound::InboundLaneModel;
use crate::range::lemma_saturated_sum;
use crate::range::overlap_len;
use crate::range::range_len;
use crate::range::saturated;
use crate::range::saturating_overlap_len;
use crate::range::MessageNonce;
use std::collections::BTreeMap;
use std::collections::VecDeque;
use std::ops::RangeInclusive;
use vstd::laws_cmp::obeys_cmp;
use vstd::prelude::*;

verus! {

/// Number of messages that each relayer is rewarded for.
pub type RelayersRewards<AccountId> = BTreeMap<AccountId, MessageNonce>;

/// Number of messages of `entry` that lie in the range `begin..=end`.
pub open spec fn confirmed_in_entry<AccountId>(
    entry: UnrewardedRelayer<AccountId>,
    begin: MessageNonce,
    end: MessageNonce,
) -> nat {
    overlap_len(entry.messages.begin, entry.messages.end, begin, end)
}

/// Number of messages in the range `begin..=end` that `relayer` has delivered
/// according to the entries of `queue`.
pub open spec fn reward_of<AccountId>(
    queue: Seq<UnrewardedRelayer<AccountId>>,
    begin: MessageNonce,
    end: MessageNonce,
    relayer: AccountId,
) -> nat
    decreases queue.len(),
{
    if queue.len() == 0 {
        0
    } else if queue.last().relayer == relayer {
        reward_of(queue.drop_last(), begin, end, relayer) + confirmed_in_entry(
            queue.last(),
            begin,
            end,
        )
    } else {
        reward_of(queue.drop_last(), begin, end, relayer)
    }
}

/// Calculate the number of messages that the relayers have delivered.
///
/// Every entry of `messages_relayers` adds to the reward of its relayer the number of
/// its messages that lie in `received_range`. A relayer gets a place in the result
/// with its first such message; a relayer without one gets none. Counts saturate at
/// the largest nonce. The entries need not be in order, nor apart from one another.
pub fn calc_relayers_rewards<AccountId: Ord>(
    messages_relayers: VecDeque<UnrewardedRelayer<AccountId>>,
    received_range: &RangeInclusive<MessageNonce>,
) -> (rewards: RelayersRewards<AccountId>)
    requires
        obeys_cmp::<AccountId>(),
    ensures
        forall|relayer: AccountId| #[trigger]
            rewards@.contains_key(relayer) <==> reward_of(
                messages_relayers@,
                received_range@.start,
                received_range@.end,
                relayer,
            ) > 0,
        forall|relayer: AccountId| #[trigger]
            rewards@.contains_key(relayer) ==> rewards@[relayer] == saturated(
                reward_of(
                    messages_relayers@,
                    received_range@.start,
                    received_range@.end,
                    relayer,
                ),
            ),
{
    let begin: MessageNonce = *received_range.start();
    let end: MessageNonce = *received_range.end();
    let ghost queue = messages_relayers@;
    let ghost mut done: int = 0;
    let mut remaining = messages_relayers;
    let mut relayers_rewards: RelayersRewards<AccountId> = BTreeMap::new();
    assert(queue.take(0) =~= Seq::empty());
    while remaining.len() > 0
        invariant
            obeys_cmp::<AccountId>(),
            0 <= done <= queue.len(),
            remaining@ == queue.skip(done),
            forall|relayer: AccountId| #[trigger]
                relayers_rewards@.contains_key(relayer) <==> reward_of(
                    queue.take(done),
                    begin,
                    end,
                    relayer,
                ) > 0,
            forall|relayer: AccountId| #[trigger]
                relayers_rewards@.contains_key(relayer) ==> relayers_rewards@[relayer]
                    == saturated(reward_of(queue.take(done), begin, end, relayer)),
        decreases queue.len() - done,
    {
        let ghost rewards_before = relayers_rewards@;
        let next = remaining.pop_front();
        match next {
            Some(entry) => {
                proof {
                    assert(entry == queue[done]);
                    assert(remaining@ =~= queue.skip(done + 1));
                    assert(queue.take(done + 1).drop_last() =~= queue.take(done));
                    assert(queue.take(done + 1).last() == entry);
                }
                let confirmed: MessageNonce = saturating_overlap_len(
                    entry.messages.begin,
                    entry.messages.end,
                    begin,
                    end,
                );
                if confirmed > 0 {
                    let so_far: MessageNonce = match relayers_rewards.get(&entry.relayer) {
                        Some(reward) => *reward,
                        None => 0,
                    };
                    let ghost who = entry.relayer;
                    proof {
                        lemma_saturated_sum(
                            reward_of(queue.take(done), begin, end, who),
                            confirmed_in_entry(entry, begin, end),
                        );
                    }
                    relayers_rewards.insert(entry.relayer, so_far.saturating_add(confirmed));
                    proof {
                        assert forall|relayer: AccountId| #[trigger]
                            relayers_rewards@.contains_key(relayer) <==> reward_of(
                                queue.take(done + 1),
                                begin,
                                end,
                                relayer,
                            ) > 0 by {
                            if relayer != who {
                                assert(rewards_before.contains_key(relayer)
                                    == relayers_rewards@.contains_key(relayer));
                            }
                        }
                        assert forall|relayer: AccountId| #[trigger]
                            relayers_rewards@.contains_key(relayer) implies relayers_rewards@[relayer]
                            == saturated(reward_of(queue.take(done + 1), begin, end, relayer)) by {
                            if relayer != who {
                                assert(rewards_before.contains_key(relayer));
                            }
                        }
                    }
                }
                proof {
                    done = done + 1;
                }
            },
            None => {},
        }
    }
    proof {
        assert(queue.take(done) =~= queue);
    }
    relayers_rewards
}

/// Number of messages in the range `begin..=end` that the entries of `queue` hold,
/// every entry counted for itself.
pub open spec fn confirmed_total<AccountId>(
    queue: Seq<UnrewardedRelayer<AccountId>>,
    begin: MessageNonce,
    end: MessageNonce,
) -> nat
    decreases queue.len(),
{
    if queue.len() == 0 {
        0
    } else {
        confirmed_total(queue.drop_last(), begin, end) + confirmed_in_entry(
            queue.last(),
            begin,
            end,
        )
    }
}

/// No relayer is rewarded for more messages than the entries of the queue hold in the
/// confirmed range.
pub proof fn lemma_reward_within_total<AccountId>(
    queue: Seq<UnrewardedRelayer<AccountId>>,
    begin: MessageNonce,
    end: MessageNonce,
    relayer: AccountId,
)
    ensures
        reward_of(queue, begin, end, relayer) <= confirmed_total(queue, begin, end),
    decreases queue.len(),
{
    if queue.len() > 0 {
        lemma_reward_within_total(queue.drop_last(), begin, end, relayer);
    }
}

/// A relayer that holds no entry with a message in the confirmed range is rewarded
/// for nothing, and a relayer that is rewarded holds such an entry.
pub proof fn lemma_reward_needs_confirmed_entry<AccountId>(
    queue: Seq<UnrewardedRelayer<AccountId>>,
    begin: MessageNonce,
    end: MessageNonce,
    relayer: AccountId,
)
    ensures
        reward_of(queue, begin, end, relayer) > 0 <==> exists|i: int|
            0 <= i < queue.len() && (#[trigger] queue[i]).relayer == relayer
                && confirmed_in_entry(queue[i], begin, end) > 0,
    decreases queue.len(),
{
    if queue.len() > 0 {
        let shorter = queue.drop_last();
        lemma_reward_needs_confirmed_entry(shorter, begin, end, relayer);
        let last = queue.len() - 1;
        if reward_of(queue, begin, end, relayer) > 0 {
            if reward_of(shorter, begin, end, relayer) > 0 {
                let i = choose|i: int|
                    0 <= i < shorter.len() && (#[trigger] shorter[i]).relayer == relayer
                        && confirmed_in_entry(shorter[i], begin, end) > 0;
                assert(queue[i] == shorter[i]);
            } else {
                assert(queue[last].relayer == relayer && confirmed_in_entry(
                    queue[last],
                    begin,
                    end,
                ) > 0);
            }
        }
        if exists|i: int|
            0 <= i < queue.len() && (#[trigger] queue[i]).relayer == relayer
                && confirmed_in_entry(queue[i], begin, end) > 0 {
            let i = choose|i: int|
                0 <= i < queue.len() && (#[trigger] queue[i]).relayer == relayer
                    && confirmed_in_entry(queue[i], begin, end) > 0;
            if i < last {
                assert(shorter[i] == queue[i]);
            }
        }
    }
}

/// Every confirmed message is rewarded once: the entries of an unbroken queue hold,
/// taken together, exactly the messages of the confirmed range that lie between the
/// first message of the oldest entry and the last message of the newest entry.
pub proof fn lemma_confirmed_messages_counted_once<AccountId>(
    lane: InboundLaneModel<AccountId>,
    begin: MessageNonce,
    end: MessageNonce,
)
    requires
        lane.wf(),
        lane.relayers.len() > 0,
    ensures
        confirmed_total(lane.relayers, begin, end) == overlap_len(
            lane.relayers.first().messages.begin,
            lane.relayers.last().messages.end,
            begin,
            end,
        ),
    decreases lane.relayers.len(),
{
    let last = lane.relayers.len() - 1;
    assert(lane.relayers[last].messages.wf());
    if lane.relayers.len() == 1 {
        assert(lane.relayers.drop_last() =~= Seq::empty());
        assert(confirmed_total(lane.relayers.drop_last(), begin, end) == 0);
    } else {
        let shorter = InboundLaneModel { relayers: lane.relayers.drop_last(), ..lane };
        assert(shorter.wf()) by {
            assert forall|i: int| 0 <= i < shorter.relayers.len() implies (
            #[trigger] shorter.relayers[i]).messages.wf() by {
                assert(lane.relayers[i].messages.wf());
            }
            assert forall|i: int| 0 < i < shorter.relayers.len() implies (
            #[trigger] shorter.relayers[i]).messages.begin == shorter.relayers[i
                - 1].messages.end + 1 by {
                assert(lane.relayers[i].messages.begin == lane.relayers[i - 1].messages.end + 1);
            }
        }
        lemma_confirmed_messages_counted_once(shorter, begin, end);
        crate::inbound::lemma_queue_is_ordered(shorter);
        assert(shorter.relayers.first() == lane.relayers.first());
        assert(shorter.relayers.last() == lane.relayers[last - 1]);
        assert(lane.relayers[last].messages.begin == lane.relayers[last - 1].messages.end + 1);
        assert(lane.relayers[0].messages.wf());
        assert(lane.relayers[last - 1].messages.wf());
        if last - 1 > 0 {
            assert(shorter.relayers[0].messages.end < shorter.relayers[last - 1].messages.begin);
        }
    }
}

/// The rewards for a confirmation add up to the confirmed messages: where the
/// confirmed range lies among the messages that an unbroken queue holds, the entries
/// of the queue hold, taken together, every message of the range once.
pub proof fn lemma_rewards_cover_confirmed_range<AccountId>(
    lane: InboundLaneModel<AccountId>,
    begin: MessageNonce,
    end: MessageNonce,
)
    requires
        lane.wf(),
        lane.last_confirmed_nonce < begin <= end <= lane.last_delivered_nonce(),
    ensures
        confirmed_total(lane.relayers, begin, end) == range_len(begin, end),
{
    lemma_confirmed_messages_counted_once(lane, begin, end);
}

} // verus!
