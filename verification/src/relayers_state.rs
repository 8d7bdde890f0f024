//! A summary of the queue of unrewarded relayers, for those who watch a lane without
//! reading its whole queue.

use crate::inbound::InboundLaneData;
use crate::inbound::InboundLaneModel;
use crate::range::saturated;
use crate::range::MessageNonce;
use vstd::prelude::*;

verus! {

/// Gist of `InboundLaneData::relayers` field used by runtime APIs.
#[derive(Clone, Copy, Debug, PartialEq, Eq, Structural)]
pub struct UnrewardedRelayersState {
    /// Number of entries in the `InboundLaneData::relayers` set.
    pub unrewarded_relayer_entries: MessageNonce,
    /// Number of messages in the oldest entry of `InboundLaneData::relayers`. This is
    /// the minimal number of reward proofs required to push out this entry from the
    /// set.
    pub messages_in_oldest_entry: MessageNonce,
    /// Total number of messages in the relayers vector.
    pub total_messages: MessageNonce,
    /// Nonce of the latest message that has been delivered to the target chain.
    ///
    /// This corresponds to the result of the `InboundLaneData::last_delivered_nonce`
    /// call at the bridged chain.
    pub last_delivered_nonce: MessageNonce,
}

impl UnrewardedRelayersState {
    /// The summary of the queue of `lane`.
    pub open spec fn of<RelayerId>(lane: InboundLaneModel<RelayerId>) -> Self {
        UnrewardedRelayersState {
            unrewarded_relayer_entries: lane.relayers.len() as MessageNonce,
            messages_in_oldest_entry: if lane.relayers.len() == 0 {
                0
            } else {
                saturated(lane.relayers.first().messages.count())
            },
            total_messages: saturated(lane.unrewarded_messages()),
            last_delivered_nonce: lane.last_delivered_nonce(),
        }
    }

    /// Verify that the relayers state corresponds with the `InboundLaneData`.
    pub fn is_valid<RelayerId>(&self, lane_data: &InboundLaneData<RelayerId>) -> (valid: bool)
        ensures
            valid == (*self == Self::of(lane_data@)),
    {
        let expected = UnrewardedRelayersState::from(lane_data);
        self.unrewarded_relayer_entries == expected.unrewarded_relayer_entries
            && self.messages_in_oldest_entry == expected.messages_in_oldest_entry
            && self.total_messages == expected.total_messages && self.last_delivered_nonce
            == expected.last_delivered_nonce
    }
}

impl<RelayerId> From<&InboundLaneData<RelayerId>> for UnrewardedRelayersState {
    /// Summarises the queue of unrewarded relayers of `lane`.
    fn from(lane: &InboundLaneData<RelayerId>) -> (state: UnrewardedRelayersState) {
        let entries: usize = lane.relayers.len();
        UnrewardedRelayersState {
            unrewarded_relayer_entries: entries as MessageNonce,
            messages_in_oldest_entry: if entries == 0 {
                0
            } else {
                lane.relayers[0].messages.total_messages()
            },
            total_messages: lane.total_unrewarded_messages(),
            last_delivered_nonce: lane.last_delivered_nonce(),
        }
    }
}

impl<RelayerId> vstd::std_specs::convert::FromSpecImpl<&InboundLaneData<RelayerId>> for UnrewardedRelayersState {
    open spec fn obeys_from_spec() -> bool {
        true
    }

    open spec fn from_spec(lane: &InboundLaneData<RelayerId>) -> Self {
        Self::of(lane@)
    }
}

impl Default for UnrewardedRelayersState {
    fn default() -> (state: Self)
        ensures
            state == (UnrewardedRelayersState {
                unrewarded_relayer_entries: 0,
                messages_in_oldest_entry: 0,
                total_messages: 0,
                last_delivered_nonce: 0,
            }),
    {
        UnrewardedRelayersState {
            unrewarded_relayer_entries: 0,
            messages_in_oldest_entry: 0,
            total_messages: 0,
            last_delivered_nonce: 0,
        }
    }
}

} // verus!
