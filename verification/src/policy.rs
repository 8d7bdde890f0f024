//! How large and how heavy a message may be, derived from the limits that a chain
//! sets for its transactions.

use crate::range::MessageNonce;
use crate::reception::InboundLaneLimits;
use crate::weight::Weight;
use vstd::prelude::*;

verus! {

/// Hard limit on message size that can be sent over the bridge.
pub const HARD_MESSAGE_SIZE_LIMIT: u32 = 64 * 1024;

/// Two thirds of `max_extrinsic_size`, rounded down, or the hard limit if that is less.
pub open spec fn incoming_message_size_bound(max_extrinsic_size: u32) -> u32 {
    if max_extrinsic_size * 2 / 3 < HARD_MESSAGE_SIZE_LIMIT {
        (max_extrinsic_size * 2 / 3) as u32
    } else {
        HARD_MESSAGE_SIZE_LIMIT
    }
}

/// Return maximal size of the message the chain with `max_extrinsic_size` is able to
/// receive.
///
/// A delivery transaction holds the storage proof of the message, which is always
/// larger than the message, and signatures besides. A third of the transaction is
/// kept for them, so that a lane cannot get stuck on a message that fits no delivery
/// transaction. A large message also costs more to decode and to dispatch, hence the
/// hard limit, which in practice bounds the message size on every chain.
pub fn maximal_incoming_message_size(max_extrinsic_size: u32) -> (size: u32)
    ensures
        size == incoming_message_size_bound(max_extrinsic_size),
        size <= HARD_MESSAGE_SIZE_LIMIT,
        size <= max_extrinsic_size,
{
    let two_thirds: u64 = (max_extrinsic_size as u64) * 2 / 3;
    if two_thirds < HARD_MESSAGE_SIZE_LIMIT as u64 {
        two_thirds as u32
    } else {
        HARD_MESSAGE_SIZE_LIMIT
    }
}

/// Chain with messaging support: the constants of a chain that a lane depends on.
pub trait ChainWithMessages {
    /// Maximal size of a transaction of the chain.
    spec fn extrinsic_size_limit(&self) -> u32;

    /// Maximal weight of a transaction of the chain.
    spec fn extrinsic_weight_limit(&self) -> Weight;

    /// Maximal number of unrewarded relayer entries of a lane of the chain.
    spec fn unrewarded_relayers_limit(&self) -> MessageNonce;

    /// Maximal number of unconfirmed messages of a lane of the chain.
    spec fn unconfirmed_messages_limit(&self) -> MessageNonce;

    /// Returns the maximal size of a transaction of the chain.
    fn max_extrinsic_size(&self) -> (size: u32)
        ensures
            size == self.extrinsic_size_limit(),
    ;

    /// Returns the maximal weight of a transaction of the chain.
    fn max_extrinsic_weight(&self) -> (weight: Weight)
        ensures
            weight == self.extrinsic_weight_limit(),
    ;

    /// Maximal number of unrewarded relayers in a single confirmation transaction at
    /// this chain. A relayer is unrewarded while it has delivered messages of which
    /// either the confirmation has not reached the source chain, or the confirmation
    /// of the reward has not come back. The same relayer may take several entries.
    fn max_unrewarded_relayers_in_confirmation_tx(&self) -> (limit: MessageNonce)
        ensures
            limit == self.unrewarded_relayers_limit(),
    ;

    /// Maximal number of unconfirmed messages in a single confirmation transaction at
    /// this chain: how far the last message of the newest entry of the queue may lie
    /// from the first message of its oldest entry. It is also the maximal number of
    /// messages in a single delivery transaction.
    fn max_unconfirmed_messages_in_confirmation_tx(&self) -> (limit: MessageNonce)
        ensures
            limit == self.unconfirmed_messages_limit(),
    ;

    /// Return maximal dispatch weight of the message we're able to receive: one half
    /// of the weight of a transaction is left for the delivery transaction itself.
    fn maximal_incoming_message_dispatch_weight(&self) -> (weight: Weight)
        ensures
            weight == self.extrinsic_weight_limit().divided(2),
    {
        self.max_extrinsic_weight().div(2)
    }

    /// Return maximal size of the message we're able to receive.
    fn maximal_incoming_message_size(&self) -> (size: u32)
        ensures
            size == incoming_message_size_bound(self.extrinsic_size_limit()),
    {
        maximal_incoming_message_size(self.max_extrinsic_size())
    }
}

/// Return the bounds that `chain` sets for the queue of unrewarded relayers of its
/// inbound lanes.
pub fn inbound_lane_limits<Chain: ChainWithMessages>(chain: &Chain) -> (limits: InboundLaneLimits)
    ensures
        limits == (InboundLaneLimits {
            max_unrewarded_relayer_entries: chain.unrewarded_relayers_limit(),
            max_unconfirmed_messages: chain.unconfirmed_messages_limit(),
        }),
{
    InboundLaneLimits {
        max_unrewarded_relayer_entries: chain.max_unrewarded_relayers_in_confirmation_tx(),
        max_unconfirmed_messages: chain.max_unconfirmed_messages_in_confirmation_tx(),
    }
}

/// The constants of a chain, written out.
#[derive(Clone, Copy, Debug, PartialEq, Eq, Structural)]
pub struct ChainConstants {
    /// Maximal size of a transaction of the chain.
    pub max_extrinsic_size: u32,
    /// Maximal weight of a transaction of the chain.
    pub max_extrinsic_weight: Weight,
    /// Maximal number of unrewarded relayer entries of a lane.
    pub max_unrewarded_relayers_in_confirmation_tx: MessageNonce,
    /// Maximal number of unconfirmed messages of a lane.
    pub max_unconfirmed_messages_in_confirmation_tx: MessageNonce,
}

impl ChainWithMessages for ChainConstants {
    open spec fn extrinsic_size_limit(&self) -> u32 {
        self.max_extrinsic_size
    }

    open spec fn extrinsic_weight_limit(&self) -> Weight {
        self.max_extrinsic_weight
    }

    open spec fn unrewarded_relayers_limit(&self) -> MessageNonce {
        self.max_unrewarded_relayers_in_confirmation_tx
    }

    open spec fn unconfirmed_messages_limit(&self) -> MessageNonce {
        self.max_unconfirmed_messages_in_confirmation_tx
    }

    fn max_extrinsic_size(&self) -> (size: u32) {
        self.max_extrinsic_size
    }

    fn max_extrinsic_weight(&self) -> (weight: Weight) {
        self.max_extrinsic_weight
    }

    fn max_unrewarded_relayers_in_confirmation_tx(&self) -> (limit: MessageNonce) {
        self.max_unrewarded_relayers_in_confirmation_tx
    }

    fn max_unconfirmed_messages_in_confirmation_tx(&self) -> (limit: MessageNonce) {
        self.max_unconfirmed_messages_in_confirmation_tx
    }
}

/// A chain that is built on another chain and has the constants of that chain.
#[derive(Clone, Copy, Debug, PartialEq, Eq)]
pub struct UnderlyingChainProvider<Chain> {
    /// The chain whose constants this chain takes over.
    pub underlying: Chain,
}

impl<Chain: ChainWithMessages> ChainWithMessages for UnderlyingChainProvider<Chain> {
    open spec fn extrinsic_size_limit(&self) -> u32 {
        self.underlying.extrinsic_size_limit()
    }

    open spec fn extrinsic_weight_limit(&self) -> Weight {
        self.underlying.extrinsic_weight_limit()
    }

    open spec fn unrewarded_relayers_limit(&self) -> MessageNonce {
        self.underlying.unrewarded_relayers_limit()
    }

    open spec fn unconfirmed_messages_limit(&self) -> MessageNonce {
        self.underlying.unconfirmed_messages_limit()
    }

    fn max_extrinsic_size(&self) -> (size: u32) {
        self.underlying.max_extrinsic_size()
    }

    fn max_extrinsic_weight(&self) -> (weight: Weight) {
        self.underlying.max_extrinsic_weight()
    }

    fn max_unrewarded_relayers_in_confirmation_tx(&self) -> (limit: MessageNonce) {
        self.underlying.max_unrewarded_relayers_in_confirmation_tx()
    }

    fn max_unconfirmed_messages_in_confirmation_tx(&self) -> (limit: MessageNonce) {
        self.underlying.max_unconfirmed_messages_in_confirmation_tx()
    }
}

} // verus!
