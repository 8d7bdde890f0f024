//! Primitives of a cross-chain message lane: lane records, nonce accounting,
//! message reception, relayer rewards and the wire encoding of lane state.
//!
//! A lane carries messages from a source chain to a target chain in the order of
//! their nonces. The source chain keeps the outbound end of the lane, the target
//! chain the inbound end with the queue of relayers that have delivered messages and
//! wait for their reward.
//!
//! Two choices shape the queue. Messages that one relayer delivers one after another
//! share one entry of the queue, so that a relayer takes a new entry only behind an
//! entry of another relayer. And a confirmation takes every confirmed message out of
//! the queue: entries that are confirmed as a whole leave it, and an entry that is
//! confirmed in part keeps its unconfirmed messages.

pub mod codec;
pub mod decode;
pub mod delivered;
pub mod error;
pub mod inbound;
pub mod inbound_codec;
pub mod lane;
pub mod message;
pub mod mock;
pub mod mode;
pub mod outbound;
pub mod policy;
pub mod range;
pub mod reception;
pub mod relayers_state;
pub mod rewards;
pub mod weight;

pub use codec::Encode;
pub use codec::MaxEncodedLen;
pub use decode::decode_all;
pub use decode::Decode;
pub use delivered::DeliveredMessages;
pub use delivered::UnrewardedRelayer;
pub use error::VerificationError;
pub use inbound::InboundLaneData;
pub use lane::LaneClosed;
pub use lane::LaneState;
pub use message::InboundMessageDetails;
pub use message::Message;
pub use message::MessageKey;
pub use message::MessagePayload;
pub use message::OutboundMessageDetails;
pub use mode::BasicOperatingMode;
pub use mode::MessagesOperatingMode;
pub use mode::OperatingMode;
pub use outbound::ConfirmationError;
pub use outbound::OutboundLaneData;
pub use outbound::SendMessageError;
pub use policy::maximal_incoming_message_size;
pub use policy::ChainConstants;
pub use policy::ChainWithMessages;
pub use policy::UnderlyingChainProvider;
pub use policy::HARD_MESSAGE_SIZE_LIMIT;
pub use range::MessageNonce;
pub use reception::InboundLaneLimits;
pub use reception::MessageDispatch;
pub use reception::MessageDispatchResult;
pub use reception::ReceivedMessages;
pub use reception::ReceptionResult;
pub use reception::Rejection;
pub use relayers_state::UnrewardedRelayersState;
pub use rewards::calc_relayers_rewards;
pub use rewards::RelayersRewards;
pub use weight::Weight;
