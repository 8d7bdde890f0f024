//! Messages and the keys under which they are stored.

use crate::codec::Encode;
use crate::decode::begins_with;
use crate::decode::Decode;
use crate::range::MessageNonce;
use crate::weight::Weight;
use vstd::prelude::*;

verus! {

/// Opaque message payload. It is only decoded when the message is dispatched.
pub type MessagePayload = Vec<u8>;

/// Message key (unique message identifier) as it is stored in the storage.
#[derive(Clone, Copy, Debug, PartialEq, Eq)]
pub struct MessageKey<LaneId> {
    /// ID of the message lane.
    pub lane_id: LaneId,
    /// Message nonce.
    pub nonce: MessageNonce,
}

impl<LaneId: Encode> Encode for MessageKey<LaneId> {
    open spec fn encoding(&self) -> Seq<u8> {
        self.lane_id.encoding() + self.nonce.encoding()
    }

    fn encode_to(&self, dest: &mut Vec<u8>) {
        self.lane_id.encode_to(dest);
        self.nonce.encode_to(dest);
        assert(final(dest)@ =~= old(dest)@ + self.encoding());
    }
}

/// Message as it is stored in the storage.
#[derive(Clone, Debug, PartialEq, Eq)]
pub struct Message<LaneId> {
    /// Message key.
    pub key: MessageKey<LaneId>,
    /// Message payload.
    pub payload: MessagePayload,
}

/// Outbound message details, as reported to relayers.
#[derive(Clone, Copy, Debug, PartialEq, Eq, Structural)]
pub struct OutboundMessageDetails {
    /// Nonce assigned to the message.
    pub nonce: MessageNonce,
    /// Message dispatch weight. It may be declared by the message submitter, computed
    /// or zero if the dispatch fee is paid at the target chain.
    pub dispatch_weight: Weight,
    /// Size of the encoded message.
    pub size: u32,
}

/// Inbound message details, as reported to relayers.
#[derive(Clone, Copy, Debug, PartialEq, Eq, Structural)]
pub struct InboundMessageDetails {
    /// Computed message dispatch weight. It is zero for a message that cannot be
    /// decoded, because such a message cannot be dispatched.
    pub dispatch_weight: Weight,
}

impl<LaneId: Decode> Decode for MessageKey<LaneId> {
    fn decode(input: &[u8]) -> (result: Option<(Self, usize)>) {
        proof {
            assert forall|value: MessageKey<LaneId>|
                begins_with(input@, #[trigger] value.encoding()) implies begins_with(
                input@,
                (value.lane_id, value.nonce).encoding(),
            ) by {}
        }
        match <(LaneId, MessageNonce)>::decode(input) {
            Some(((lane_id, nonce), consumed)) => Some((MessageKey { lane_id, nonce }, consumed)),
            None => None,
        }
    }

    proof fn lemma_encoding_is_prefix_free(first: Self, second: Self) {
        <(LaneId, MessageNonce)>::lemma_encoding_is_prefix_free(
            (first.lane_id, first.nonce),
            (second.lane_id, second.nonce),
        );
    }
}

} // verus!
