//! The inbound end of a lane: the queue of relayers that have delivered messages and
//! wait for their reward.

use crate::delivered::DeliveredMessages;
use crate::delivered::UnrewardedRelayer;
use crate::lane::LaneClosed;
use crate::lane::LaneState;
use crate::outbound::OutboundLaneData;
use crate::range::range_len;
use crate::range::saturated;
use crate::range::saturating_len;
use crate::range::MessageNonce;
use std::collections::VecDeque;
use vstd::prelude::*;

verus! {

/// Inbound lane data.
#[derive(Clone, Debug, PartialEq, Eq)]
pub struct InboundLaneData<RelayerId> {
    /// Identifiers of relayers and messages that they have delivered to this lane
    /// (ordered by message nonce, the oldest entry at the front).
    ///
    /// It lets the source chain pay rewards to the relayers that have delivered
    /// messages to this chain. All nonces in this queue lie in the range
    /// `(last_confirmed_nonce; last_delivered_nonce()]`. The same relayer may hold
    /// several entries that do not follow one another.
    pub relayers: VecDeque<UnrewardedRelayer<RelayerId>>,
    /// Nonce of the last message that has been delivered to this chain and whose
    /// delivery is known here to have been confirmed on the source chain.
    pub last_confirmed_nonce: MessageNonce,
    /// Inbound lane state. If it is `Closed`, every attempt to deliver messages to
    /// this end fails.
    pub state: LaneState,
}

/// Mathematical model of the inbound lane data: the queue as a sequence.
pub struct InboundLaneModel<RelayerId> {
    /// The unrewarded relayer entries, the oldest first.
    pub relayers: Seq<UnrewardedRelayer<RelayerId>>,
    /// Nonce of the last message whose delivery is known to be confirmed.
    pub last_confirmed_nonce: MessageNonce,
    /// State of the lane end.
    pub state: LaneState,
}

impl<RelayerId> View for InboundLaneData<RelayerId> {
    type V = InboundLaneModel<RelayerId>;

    open spec fn view(&self) -> InboundLaneModel<RelayerId> {
        InboundLaneModel {
            relayers: self.relayers@,
            last_confirmed_nonce: self.last_confirmed_nonce,
            state: self.state,
        }
    }
}

impl<RelayerId> InboundLaneModel<RelayerId> {
    /// The lane as it is created: nothing delivered, nothing confirmed.
    pub open spec fn fresh(state: LaneState) -> Self {
        InboundLaneModel { relayers: Seq::empty(), last_confirmed_nonce: 0, state }
    }

    /// Nonce of the last message that has been delivered to this end of the lane.
    pub open spec fn last_delivered_nonce(self) -> MessageNonce {
        if self.relayers.len() == 0 {
            self.last_confirmed_nonce
        } else {
            self.relayers.last().messages.end
        }
    }

    /// Number of nonces from the first message of the oldest entry to the last
    /// message of the newest entry.
    pub open spec fn unrewarded_messages(self) -> nat {
        if self.relayers.len() == 0 {
            0
        } else {
            range_len(self.relayers.first().messages.begin, self.relayers.last().messages.end)
        }
    }

    /// The queue is an unbroken chain of non-empty ranges: the first entry begins right
    /// after the last confirmed nonce and every other entry begins right after the
    /// entry before it ends.
    pub open spec fn wf(self) -> bool {
        &&& forall|i: int|
            0 <= i < self.relayers.len() ==> (#[trigger] self.relayers[i]).messages.wf()
        &&& self.relayers.len() > 0 ==> self.relayers[0].messages.begin
            == self.last_confirmed_nonce + 1
        &&& forall|i: int|
            0 < i < self.relayers.len() ==> (#[trigger] self.relayers[i]).messages.begin
                == self.relayers[i - 1].messages.end + 1
    }
}

impl<RelayerId> InboundLaneData<RelayerId> {
    /// Whether the queue obeys the invariant of the lane, see `InboundLaneModel::wf`.
    pub open spec fn wf(&self) -> bool {
        self@.wf()
    }

    /// Returns default inbound lane data with opened state.
    pub fn opened() -> (lane: Self)
        ensures
            lane@ == InboundLaneModel::<RelayerId>::fresh(LaneState::Opened),
            lane.wf(),
    {
        InboundLaneData {
            state: LaneState::Opened,
            relayers: VecDeque::new(),
            last_confirmed_nonce: 0,
        }
    }

    /// Nonce of the last message that has been delivered to this (target) chain.
    pub fn last_delivered_nonce(&self) -> (nonce: MessageNonce)
        ensures
            nonce == self@.last_delivered_nonce(),
            self.relayers@.len() == 0 ==> nonce == self.last_confirmed_nonce,
    {
        let len: usize = self.relayers.len();
        if len == 0 {
            self.last_confirmed_nonce
        } else {
            self.relayers[len - 1].messages.end
        }
    }

    /// Returns the total number of messages in the `relayers` queue, saturating in
    /// case of underflow or overflow.
    pub fn total_unrewarded_messages(&self) -> (total: MessageNonce)
        ensures
            total == saturated(self@.unrewarded_messages()),
            self.relayers@.len() == 0 ==> total == 0,
    {
        let len: usize = self.relayers.len();
        if len == 0 {
            0
        } else {
            saturating_len(self.relayers[0].messages.begin, self.relayers[len - 1].messages.end)
        }
    }
}

impl<RelayerId> InboundLaneData<RelayerId> {
    /// Checks the invariant of the lane: returns true if the queue is an unbroken
    /// chain of non-empty ranges that begins right after the last confirmed nonce.
    pub fn try_state(&self) -> (sound: bool)
        ensures
            sound == self.wf(),
    {
        let len: usize = self.relayers.len();
        if len == 0 {
            return true;
        }
        if self.last_confirmed_nonce == MessageNonce::MAX {
            return false;
        }
        let mut expected_begin: MessageNonce = self.last_confirmed_nonce + 1;
        let mut index: usize = 0;
        while index < len
            invariant
                len == self.relayers@.len(),
                0 <= index <= len,
                forall|i: int|
                    0 <= i < index ==> (#[trigger] self.relayers@[i]).messages.wf(),
                index > 0 ==> self.relayers@[0].messages.begin == self.last_confirmed_nonce + 1,
                forall|i: int|
                    0 < i < index ==> (#[trigger] self.relayers@[i]).messages.begin
                        == self.relayers@[i - 1].messages.end + 1,
                expected_begin == if index == 0 {
                    self.last_confirmed_nonce + 1
                } else {
                    self.relayers@[index - 1].messages.end + 1
                },
            decreases len - index,
        {
            let messages = self.relayers[index].messages;
            if messages.begin != expected_begin || messages.begin > messages.end {
                return false;
            }
            if messages.end == MessageNonce::MAX {
                // nothing can follow the largest nonce
                proof {
                    if index + 1 < len {
                        let follower = self.relayers@[index + 1];
                        assert(follower.messages.begin != self.relayers@[index as int].messages.end
                            + 1);
                    } else {
                        assert forall|i: int| 0 < i < len implies (
                        #[trigger] self.relayers@[i]).messages.begin == self.relayers@[i
                            - 1].messages.end + 1 by {
                            if i == index {
                                assert(self.relayers@[i].messages.begin == expected_begin);
                            }
                        }
                    }
                }
                return index + 1 == len;
            }
            expected_begin = messages.end + 1;
            index = index + 1;
        }
        true
    }
}

impl<RelayerId> Default for InboundLaneData<RelayerId> {
    /// A lane is closed until its owner opens it.
    fn default() -> (lane: Self)
        ensures
            lane@ == InboundLaneModel::<RelayerId>::fresh(LaneState::Closed),
            lane.wf(),
    {
        InboundLaneData {
            state: LaneState::Closed,
            relayers: VecDeque::new(),
            last_confirmed_nonce: 0,
        }
    }
}

/// The queue `relayers` without the entries at its oldest end whose messages have all
/// been confirmed up to `nonce`.
pub open spec fn skip_confirmed<RelayerId>(
    relayers: Seq<UnrewardedRelayer<RelayerId>>,
    nonce: MessageNonce,
) -> Seq<UnrewardedRelayer<RelayerId>>
    decreases relayers.len(),
{
    if relayers.len() > 0 && relayers[0].messages.end <= nonce {
        skip_confirmed(relayers.drop_first(), nonce)
    } else {
        relayers
    }
}

/// The queue `relayers` whose oldest entry no longer holds the messages up to `nonce`.
pub open spec fn trim_oldest<RelayerId>(
    relayers: Seq<UnrewardedRelayer<RelayerId>>,
    nonce: MessageNonce,
) -> Seq<UnrewardedRelayer<RelayerId>> {
    if relayers.len() > 0 && relayers[0].messages.begin <= nonce < relayers[0].messages.end {
        relayers.update(
            0,
            UnrewardedRelayer {
                relayer: relayers[0].relayer,
                messages: DeliveredMessages {
                    begin: (nonce + 1) as MessageNonce,
                    end: relayers[0].messages.end,
                },
            },
        )
    } else {
        relayers
    }
}

impl<RelayerId> InboundLaneModel<RelayerId> {
    /// Whether the source chain's report that it has seen the confirmation of every
    /// message up to `nonce` tells this lane anything new that can be true: the nonce
    /// must lie above the last confirmed one and not above the last delivered one.
    pub open spec fn accepts_confirmation(self, nonce: MessageNonce) -> bool {
        self.last_confirmed_nonce < nonce <= self.last_delivered_nonce()
    }

    /// The lane after the delivery of every message up to `nonce` has been confirmed:
    /// entries that are confirmed as a whole leave the queue, and the oldest entry
    /// that is left keeps only its unconfirmed messages.
    pub open spec fn confirm(self, nonce: MessageNonce) -> Self {
        InboundLaneModel {
            relayers: trim_oldest(skip_confirmed(self.relayers, nonce), nonce),
            last_confirmed_nonce: nonce,
            state: self.state,
        }
    }

    /// Whether the entry at `index` holds the message `nonce`.
    pub open spec fn entry_holds(self, index: int, nonce: MessageNonce) -> bool {
        0 <= index < self.relayers.len() && self.relayers[index].messages.contains(nonce)
    }

    /// Whether some entry of the queue holds the message `nonce`.
    pub open spec fn holds(self, nonce: MessageNonce) -> bool {
        exists|index: int| self.entry_holds(index, nonce)
    }
}

impl<RelayerId> InboundLaneData<RelayerId> {
    /// Receives the state of the outbound end of this lane, as proved by a relayer.
    ///
    /// The outbound end reports the latest nonce whose delivery it has seen confirmed.
    /// If that nonce lies above the last confirmed nonce of this lane and not above
    /// its last delivered nonce, it becomes the last confirmed nonce, entries whose
    /// messages are all confirmed leave the queue, the oldest entry that is left
    /// keeps only its unconfirmed messages, and the new last confirmed nonce is
    /// returned. Any other report changes nothing and returns `None`. A closed lane
    /// refuses the update.
    pub fn receive_state_update(&mut self, outbound_lane_data: &OutboundLaneData) -> (result: Result<
        Option<MessageNonce>,
        LaneClosed,
    >)
        ensures
            result is Err <==> old(self).state == LaneState::Closed,
            result is Err ==> final(self)@ == old(self)@,
            result is Ok ==> ({
                let confirmed = outbound_lane_data.latest_received_nonce;
                if old(self)@.accepts_confirmation(confirmed) {
                    &&& result->Ok_0 == Some(confirmed)
                    &&& final(self)@ == old(self)@.confirm(confirmed)
                } else {
                    &&& result->Ok_0 is None
                    &&& final(self)@ == old(self)@
                }
            }),
            old(self).wf() ==> final(self).wf(),
    {
        if !self.state.is_opened() {
            return Err(LaneClosed);
        }
        let confirmed: MessageNonce = outbound_lane_data.latest_received_nonce;
        if confirmed > self.last_delivered_nonce() || confirmed <= self.last_confirmed_nonce {
            return Ok(None);
        }
        proof {
            if self.wf() {
                lemma_confirmation_keeps_queue_unbroken(self@, confirmed);
            }
        }
        self.last_confirmed_nonce = confirmed;
        while self.relayers.len() > 0 && self.relayers[0].messages.end <= confirmed
            invariant
                skip_confirmed(self.relayers@, confirmed) == skip_confirmed(
                    old(self).relayers@,
                    confirmed,
                ),
                self.last_confirmed_nonce == confirmed,
                self.state == old(self).state,
            decreases self.relayers@.len(),
        {
            let ghost before = self.relayers@;
            let dropped = self.relayers.pop_front();
            assert(self.relayers@ =~= before.drop_first());
        }
        if self.relayers.len() > 0 && self.relayers[0].messages.begin <= confirmed {
            let ghost before = self.relayers@;
            match self.relayers.pop_front() {
                Some(entry) => {
                    self.relayers.push_front(
                        UnrewardedRelayer {
                            relayer: entry.relayer,
                            messages: DeliveredMessages {
                                begin: confirmed + 1,
                                end: entry.messages.end,
                            },
                        },
                    );
                    assert(self.relayers@ =~= trim_oldest(before, confirmed));
                },
                None => {},
            }
        }
        Ok(Some(confirmed))
    }
}

/// In an unbroken queue the entries that are confirmed as a whole are the oldest ones:
/// what `skip_confirmed` keeps is the queue from some index on, every entry before
/// that index ends at or below `nonce`, and every entry from it on ends above.
pub proof fn lemma_skip_confirmed_is_suffix<RelayerId>(
    lane: InboundLaneModel<RelayerId>,
    nonce: MessageNonce,
) -> (kept_from: int)
    requires
        lane.wf(),
    ensures
        0 <= kept_from <= lane.relayers.len(),
        skip_confirmed(lane.relayers, nonce) == lane.relayers.skip(kept_from),
        forall|i: int| 0 <= i < kept_from ==> (#[trigger] lane.relayers[i]).messages.end <= nonce,
        forall|i: int|
            kept_from <= i < lane.relayers.len() ==> (#[trigger] lane.relayers[i]).messages.end
                > nonce,
    decreases lane.relayers.len(),
{
    if lane.relayers.len() > 0 && lane.relayers[0].messages.end <= nonce {
        let rest = InboundLaneModel {
            relayers: lane.relayers.drop_first(),
            last_confirmed_nonce: lane.relayers[0].messages.end,
            state: lane.state,
        };
        assert(rest.wf()) by {
            assert forall|i: int| 0 <= i < rest.relayers.len() implies (
            #[trigger] rest.relayers[i]).messages.wf() by {
                assert(lane.relayers[i + 1].messages.wf());
            }
            if rest.relayers.len() > 0 {
                assert(lane.relayers[1].messages.begin == lane.relayers[0].messages.end + 1);
            }
            assert forall|i: int| 0 < i < rest.relayers.len() implies (
            #[trigger] rest.relayers[i]).messages.begin == rest.relayers[i - 1].messages.end
                + 1 by {
                assert(lane.relayers[i + 1].messages.begin == lane.relayers[i].messages.end + 1);
            }
        }
        let rest_from = lemma_skip_confirmed_is_suffix(rest, nonce);
        assert(rest.relayers.skip(rest_from) =~= lane.relayers.skip(rest_from + 1));
        assert forall|i: int| 0 <= i < rest_from + 1 implies (
        #[trigger] lane.relayers[i]).messages.end <= nonce by {
            if i > 0 {
                assert(rest.relayers[i - 1].messages.end <= nonce);
            }
        }
        assert forall|i: int| rest_from + 1 <= i < lane.relayers.len() implies (
        #[trigger] lane.relayers[i]).messages.end > nonce by {
            assert(rest.relayers[i - 1].messages.end > nonce);
        }
        rest_from + 1
    } else {
        assert(lane.relayers.skip(0) =~= lane.relayers);
        lemma_queue_is_ordered(lane);
        0
    }
}

/// In an unbroken queue every entry begins above the last confirmed nonce and the
/// entries follow one another in the order of their nonces.
pub proof fn lemma_queue_is_ordered<RelayerId>(lane: InboundLaneModel<RelayerId>)
    requires
        lane.wf(),
    ensures
        forall|i: int|
            0 <= i < lane.relayers.len() ==> lane.last_confirmed_nonce < (
            #[trigger] lane.relayers[i]).messages.begin,
        forall|i: int, j: int|
            0 <= i < j < lane.relayers.len() ==> (#[trigger] lane.relayers[i]).messages.end < (
            #[trigger] lane.relayers[j]).messages.begin,
        forall|i: int|
            0 <= i < lane.relayers.len() ==> (#[trigger] lane.relayers[i]).messages.end
                <= lane.last_delivered_nonce(),
    decreases lane.relayers.len(),
{
    if lane.relayers.len() > 0 {
        let shorter = InboundLaneModel { relayers: lane.relayers.drop_last(), ..lane };
        assert(shorter.wf()) by {
            assert forall|i: int| 0 <= i < shorter.relayers.len() implies (
            #[trigger] shorter.relayers[i]).messages.wf() by {
                assert(lane.relayers[i].messages.wf());
            }
            assert forall|i: int| 0 < i < shorter.relayers.len() implies (
            #[trigger] shorter.relayers[i]).messages.begin == shorter.relayers[i
                - 1].messages.end + 1 by {
                assert(lane.relayers[i].messages.begin == lane.relayers[i - 1].messages.end + 1);
            }
        }
        lemma_queue_is_ordered(shorter);
        let last = lane.relayers.len() - 1;
        assert(lane.relayers[last].messages.wf());
        assert forall|i: int| 0 <= i < lane.relayers.len() implies lane.last_confirmed_nonce < (
        #[trigger] lane.relayers[i]).messages.begin by {
            if i < last {
                assert(shorter.relayers[i] == lane.relayers[i]);
            } else if last > 0 {
                assert(shorter.relayers[last - 1] == lane.relayers[last - 1]);
                assert(lane.relayers[last - 1].messages.wf());
                assert(lane.relayers[last].messages.begin == lane.relayers[last
                    - 1].messages.end + 1);
            }
        }
        assert forall|i: int, j: int| 0 <= i < j < lane.relayers.len() implies (
        #[trigger] lane.relayers[i]).messages.end < (#[trigger] lane.relayers[j]).messages.begin by {
            assert(shorter.relayers[i] == lane.relayers[i]);
            if j < last {
                assert(shorter.relayers[j] == lane.relayers[j]);
            } else {
                assert(lane.relayers[last].messages.begin == lane.relayers[last
                    - 1].messages.end + 1);
                if i < last - 1 {
                    assert(shorter.relayers[last - 1] == lane.relayers[last - 1]);
                    assert(lane.relayers[last - 1].messages.wf());
                }
            }
        }
        assert forall|i: int| 0 <= i < lane.relayers.len() implies (
        #[trigger] lane.relayers[i]).messages.end <= lane.last_delivered_nonce() by {
            if i < last {
                assert(lane.relayers[i].messages.end < lane.relayers[last].messages.begin);
            }
        }
    }
}

/// A confirmation that an unbroken queue accepts leaves it unbroken, and moves neither
/// the last delivered nonce nor the state of the lane.
pub proof fn lemma_confirmation_keeps_queue_unbroken<RelayerId>(
    lane: InboundLaneModel<RelayerId>,
    nonce: MessageNonce,
)
    requires
        lane.wf(),
        lane.accepts_confirmation(nonce),
    ensures
        lane.confirm(nonce).wf(),
        lane.confirm(nonce).last_confirmed_nonce == nonce,
        lane.confirm(nonce).last_delivered_nonce() == lane.last_delivered_nonce(),
        lane.confirm(nonce).state == lane.state,
{
    let kept_from = lemma_skip_confirmed_is_suffix(lane, nonce);
    lemma_queue_is_ordered(lane);
    let kept = lane.relayers.skip(kept_from);
    let after = lane.confirm(nonce);
    let len = lane.relayers.len() as int;
    if kept_from == len {
        assert(kept =~= Seq::empty());
        assert(lane.relayers[len - 1].messages.end <= nonce);
    } else {
        assert(kept[0] == lane.relayers[kept_from]);
        assert(kept[0].messages.wf());
        assert(kept[0].messages.begin <= nonce + 1) by {
            if kept_from > 0 {
                assert(lane.relayers[kept_from - 1].messages.end <= nonce);
                assert(lane.relayers[kept_from].messages.begin == lane.relayers[kept_from
                    - 1].messages.end + 1);
            }
        }
        assert(after.relayers.len() == kept.len());
        assert forall|i: int| 0 <= i < after.relayers.len() implies (
        #[trigger] after.relayers[i]).messages.wf() by {
            assert(kept[i] == lane.relayers[kept_from + i]);
            assert(lane.relayers[kept_from + i].messages.wf());
        }
        assert forall|i: int| 0 < i < after.relayers.len() implies (
        #[trigger] after.relayers[i]).messages.begin == after.relayers[i - 1].messages.end
            + 1 by {
            assert(kept[i] == lane.relayers[kept_from + i]);
            assert(kept[i - 1] == lane.relayers[kept_from + i - 1]);
            assert(lane.relayers[kept_from + i].messages.begin == lane.relayers[kept_from + i
                - 1].messages.end + 1);
        }
        assert(after.relayers.last().messages.end == lane.relayers.last().messages.end) by {
            assert(kept[kept.len() - 1] == lane.relayers[len - 1]);
        }
    }
}

/// An unbroken queue holds every message that has been delivered and not confirmed,
/// and no other: the nonces above the last confirmed and up to the last delivered one.
/// No message is held by two entries.
pub proof fn lemma_queue_holds_unconfirmed<RelayerId>(
    lane: InboundLaneModel<RelayerId>,
    nonce: MessageNonce,
)
    requires
        lane.wf(),
    ensures
        lane.holds(nonce) <==> lane.last_confirmed_nonce < nonce <= lane.last_delivered_nonce(),
        forall|i: int, j: int|
            lane.entry_holds(i, nonce) && lane.entry_holds(j, nonce) ==> i == j,
    decreases lane.relayers.len(),
{
    lemma_queue_is_ordered(lane);
    assert forall|i: int, j: int|
        lane.entry_holds(i, nonce) && lane.entry_holds(j, nonce) implies i == j by {
        if i < j {
            assert(lane.relayers[i].messages.end < lane.relayers[j].messages.begin);
        } else if j < i {
            assert(lane.relayers[j].messages.end < lane.relayers[i].messages.begin);
        }
    }
    if lane.holds(nonce) {
        let index = choose|index: int| lane.entry_holds(index, nonce);
        assert(lane.last_confirmed_nonce < lane.relayers[index].messages.begin);
        assert(lane.relayers[index].messages.end <= lane.last_delivered_nonce());
    }
    if lane.last_confirmed_nonce < nonce <= lane.last_delivered_nonce() {
        let last = lane.relayers.len() - 1;
        if lane.relayers[last].messages.begin <= nonce {
            assert(lane.entry_holds(last, nonce));
        } else {
            assert(lane.relayers[last].messages.begin == lane.relayers[last - 1].messages.end
                + 1);
            let shorter = InboundLaneModel { relayers: lane.relayers.drop_last(), ..lane };
            assert(shorter.wf()) by {
                assert forall|i: int| 0 <= i < shorter.relayers.len() implies (
                #[trigger] shorter.relayers[i]).messages.wf() by {
                    assert(lane.relayers[i].messages.wf());
                }
                assert forall|i: int| 0 < i < shorter.relayers.len() implies (
                #[trigger] shorter.relayers[i]).messages.begin == shorter.relayers[i
                    - 1].messages.end + 1 by {
                    assert(lane.relayers[i].messages.begin == lane.relayers[i - 1].messages.end
                        + 1);
                }
            }
            lemma_queue_holds_unconfirmed(shorter, nonce);
            let index = choose|index: int| shorter.entry_holds(index, nonce);
            assert(lane.entry_holds(index, nonce));
        }
    }
}

/// In an unbroken queue the number of unrewarded messages is the distance from the
/// last confirmed nonce to the last delivered one. It fits a nonce, so the total that
/// `total_unrewarded_messages` returns is exact.
pub proof fn lemma_unrewarded_messages_of_unbroken_queue<RelayerId>(
    lane: InboundLaneModel<RelayerId>,
)
    requires
        lane.wf(),
    ensures
        lane.last_confirmed_nonce <= lane.last_delivered_nonce(),
        lane.unrewarded_messages() == lane.last_delivered_nonce() - lane.last_confirmed_nonce,
        saturated(lane.unrewarded_messages()) == lane.unrewarded_messages(),
{
    lemma_queue_is_ordered(lane);
    if lane.relayers.len() > 0 {
        let last = lane.relayers.len() - 1;
        assert(lane.relayers[0].messages.wf());
        assert(lane.relayers[last].messages.wf());
        if last > 0 {
            assert(lane.relayers[0].messages.end < lane.relayers[last].messages.begin);
        }
    }
}

/// A confirmation takes the confirmed messages out of an unbroken queue and no other:
/// afterwards the queue holds the messages above the confirmed nonce and up to the
/// last delivered one.
pub proof fn lemma_confirmation_drops_confirmed_messages<RelayerId>(
    lane: InboundLaneModel<RelayerId>,
    nonce: MessageNonce,
    message: MessageNonce,
)
    requires
        lane.wf(),
        lane.accepts_confirmation(nonce),
    ensures
        lane.confirm(nonce).holds(message) <==> nonce < message <= lane.last_delivered_nonce(),
        lane.confirm(nonce).holds(message) ==> lane.holds(message),
{
    lemma_confirmation_keeps_queue_unbroken(lane, nonce);
    lemma_queue_holds_unconfirmed(lane.confirm(nonce), message);
    lemma_queue_holds_unconfirmed(lane, message);
}

} // verus!
