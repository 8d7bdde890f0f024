//! The outbound end of a lane: the nonces that the source chain has generated, and
//! what it knows of their delivery.

use crate::codec::Encode;
use crate::codec::MaxEncodedLen;
use crate::codec::lemma_le_bytes_len;
use crate::decode::begins_with;
use crate::decode::Decode;
use crate::delivered::DeliveredMessages;
use crate::lane::LaneState;
use crate::message::MessagePayload;
use crate::range::MessageNonce;
use std::ops::RangeInclusive;
use vstd::prelude::*;

verus! {

/// Outbound lane data.
#[derive(Clone, Copy, Debug, PartialEq, Eq, Structural)]
pub struct OutboundLaneData {
    /// Nonce of the oldest message that we haven't yet pruned. May point to a
    /// not-yet-generated message if all sent messages are already pruned.
    pub oldest_unpruned_nonce: MessageNonce,
    /// Nonce of the latest message, received by bridged chain.
    pub latest_received_nonce: MessageNonce,
    /// Nonce of the latest message, generated by us.
    pub latest_generated_nonce: MessageNonce,
    /// Lane state. If it is `Closed`, every attempt to send messages at this end fails.
    pub state: LaneState,
}

/// Why a message cannot be sent over a lane.
#[derive(Clone, Copy, Debug, PartialEq, Eq, Structural)]
pub enum SendMessageError {
    /// The lane is closed.
    LaneClosed,
    /// The message is larger than the bridged chain is able to receive.
    MessageTooLarge,
    /// The lane has used up all nonces.
    NonceOverflow,
}

/// Why a delivery confirmation cannot be applied to a lane.
#[derive(Clone, Copy, Debug, PartialEq, Eq, Structural)]
pub enum ConfirmationError {
    /// The lane is closed.
    LaneClosed,
    /// The confirmation covers messages that this lane has not generated yet.
    FailedToConfirmFutureMessages,
}

impl OutboundLaneData {
    /// Nothing is pruned that the bridged chain has not received, and nothing is
    /// received that has not been generated.
    pub open spec fn wf(self) -> bool {
        &&& self.oldest_unpruned_nonce <= self.latest_received_nonce + 1
        &&& self.latest_received_nonce <= self.latest_generated_nonce
    }

    /// The lane as it is created: no message generated yet.
    pub open spec fn fresh(state: LaneState) -> Self {
        OutboundLaneData {
            oldest_unpruned_nonce: 1,
            latest_received_nonce: 0,
            latest_generated_nonce: 0,
            state,
        }
    }

    /// Whether the message `nonce` has been generated and is not known to be delivered.
    pub open spec fn is_queued(self, nonce: MessageNonce) -> bool {
        self.latest_received_nonce < nonce <= self.latest_generated_nonce
    }

    /// The lane with every message up to `up_to_nonce` pruned that may be pruned: the
    /// messages that the bridged chain has received.
    pub open spec fn pruned(self, up_to_nonce: MessageNonce) -> Self {
        let last_prunable = if up_to_nonce <= self.latest_received_nonce {
            up_to_nonce
        } else {
            self.latest_received_nonce
        };
        let next = if last_prunable == MessageNonce::MAX {
            MessageNonce::MAX
        } else {
            (last_prunable + 1) as MessageNonce
        };
        if next > self.oldest_unpruned_nonce {
            OutboundLaneData { oldest_unpruned_nonce: next, ..self }
        } else {
            self
        }
    }

    /// Checks the invariant of the lane: returns true if nothing is pruned that the
    /// bridged chain has not received and nothing is received that has not been
    /// generated.
    pub fn try_state(&self) -> (sound: bool)
        ensures
            sound == self.wf(),
    {
        self.latest_received_nonce <= self.latest_generated_nonce && (self.latest_received_nonce
            == MessageNonce::MAX || self.oldest_unpruned_nonce <= self.latest_received_nonce + 1)
    }

    /// Returns default outbound lane data with opened state.
    pub fn opened() -> (lane: Self)
        ensures
            lane == Self::fresh(LaneState::Opened),
            lane.wf(),
    {
        OutboundLaneData {
            state: LaneState::Opened,
            oldest_unpruned_nonce: 1,
            latest_received_nonce: 0,
            latest_generated_nonce: 0,
        }
    }

    /// Return nonces of all currently queued messages (i.e. messages that we believe
    /// are not delivered yet).
    pub fn queued_messages(&self) -> (queued: RangeInclusive<MessageNonce>)
        requires
            self.latest_received_nonce < MessageNonce::MAX,
        ensures
            queued@.start == self.latest_received_nonce + 1,
            queued@.end == self.latest_generated_nonce,
            !queued@.exhausted,
            forall|nonce: MessageNonce|
                self.is_queued(nonce) <==> queued@.start <= nonce <= queued@.end,
    {
        RangeInclusive::new(self.latest_received_nonce + 1, self.latest_generated_nonce)
    }

    /// Assigns the next nonce of the lane to a message with `payload`.
    ///
    /// The message is refused if the lane is closed, if the payload is larger than
    /// `maximal_message_size`, the largest message that the bridged chain is able to
    /// receive, or if the lane has no nonce left. A refused message leaves the lane
    /// as it was. Storing the payload under the returned nonce is left to the caller.
    pub fn send_message(&mut self, payload: &MessagePayload, maximal_message_size: u32) -> (result:
        Result<MessageNonce, SendMessageError>)
        ensures
            match result {
                Ok(nonce) => {
                    &&& old(self).state == LaneState::Opened
                    &&& payload@.len() <= maximal_message_size
                    &&& nonce == old(self).latest_generated_nonce + 1
                    &&& *final(self) == (OutboundLaneData {
                        latest_generated_nonce: nonce,
                        ..*old(self)
                    })
                },
                Err(error) => {
                    &&& *final(self) == *old(self)
                    &&& error == if old(self).state == LaneState::Closed {
                        SendMessageError::LaneClosed
                    } else if payload@.len() > maximal_message_size {
                        SendMessageError::MessageTooLarge
                    } else {
                        SendMessageError::NonceOverflow
                    }
                    &&& error == SendMessageError::NonceOverflow ==> old(
                        self,
                    ).latest_generated_nonce == MessageNonce::MAX
                },
            },
            old(self).wf() ==> final(self).wf(),
            old(self).wf() && result is Ok ==> final(self).is_queued(result->Ok_0)
                && !old(self).is_queued(result->Ok_0),
    {
        if !self.state.is_opened() {
            return Err(SendMessageError::LaneClosed);
        }
        if payload.len() > maximal_message_size as usize {
            return Err(SendMessageError::MessageTooLarge);
        }
        match self.latest_generated_nonce.checked_add(1) {
            Some(nonce) => {
                self.latest_generated_nonce = nonce;
                Ok(nonce)
            },
            None => Err(SendMessageError::NonceOverflow),
        }
    }

    /// Prunes the messages up to `up_to_nonce` that the bridged chain has received.
    ///
    /// The nonce of the oldest unpruned message only ever advances, and never past
    /// the message that follows the latest received one. Returns the number of
    /// messages that have been pruned; zero if there was nothing new to prune.
    pub fn prune(&mut self, up_to_nonce: MessageNonce) -> (pruned: MessageNonce)
        ensures
            *final(self) == old(self).pruned(up_to_nonce),
            pruned == final(self).oldest_unpruned_nonce - old(self).oldest_unpruned_nonce,
            old(self).wf() ==> final(self).wf(),
    {
        let last_prunable: MessageNonce = if up_to_nonce <= self.latest_received_nonce {
            up_to_nonce
        } else {
            self.latest_received_nonce
        };
        let next: MessageNonce = last_prunable.saturating_add(1);
        if next > self.oldest_unpruned_nonce {
            let pruned: MessageNonce = next - self.oldest_unpruned_nonce;
            self.oldest_unpruned_nonce = next;
            pruned
        } else {
            0
        }
    }

    /// Notes that the bridged chain has received every message up to the upper bound
    /// of `confirmed_range`, and prunes those messages.
    ///
    /// The lane itself knows where its unconfirmed messages begin, so the lower bound
    /// of the range is not read. A confirmation that brings nothing new changes
    /// nothing and returns `None`: the latest received nonce never moves backward.
    /// Otherwise the range of the newly confirmed messages is returned. The
    /// confirmation is refused, and the lane left as it was, if the lane is closed or
    /// if the range ends above the latest generated nonce.
    pub fn confirm_delivery(&mut self, confirmed_range: &RangeInclusive<MessageNonce>) -> (result:
        Result<Option<DeliveredMessages>, ConfirmationError>)
        ensures
            match result {
                Err(error) => {
                    &&& *final(self) == *old(self)
                    &&& error == if old(self).state == LaneState::Closed {
                        ConfirmationError::LaneClosed
                    } else {
                        ConfirmationError::FailedToConfirmFutureMessages
                    }
                    &&& old(self).state == LaneState::Closed || (confirmed_range@.end > old(
                        self,
                    ).latest_received_nonce && confirmed_range@.end > old(
                        self,
                    ).latest_generated_nonce)
                },
                Ok(None) => {
                    &&& *final(self) == *old(self)
                    &&& old(self).state == LaneState::Opened
                    &&& confirmed_range@.end <= old(self).latest_received_nonce
                },
                Ok(Some(confirmed)) => {
                    &&& old(self).state == LaneState::Opened
                    &&& old(self).latest_received_nonce < confirmed_range@.end <= old(
                        self,
                    ).latest_generated_nonce
                    &&& confirmed == (DeliveredMessages {
                        begin: (old(self).latest_received_nonce + 1) as MessageNonce,
                        end: confirmed_range@.end,
                    })
                    &&& *final(self) == (OutboundLaneData {
                        latest_received_nonce: confirmed_range@.end,
                        ..*old(self)
                    }).pruned(confirmed_range@.end)
                },
            },
            old(self).wf() ==> final(self).wf(),
            result matches Ok(Some(confirmed)) ==> forall|nonce: MessageNonce|
                (#[trigger] confirmed.contains(nonce)) <==> old(self).is_queued(nonce)
                    && !final(self).is_queued(nonce),
    {
        if !self.state.is_opened() {
            return Err(ConfirmationError::LaneClosed);
        }
        let latest_delivered: MessageNonce = *confirmed_range.end();
        if latest_delivered <= self.latest_received_nonce {
            return Ok(None);
        }
        if latest_delivered > self.latest_generated_nonce {
            return Err(ConfirmationError::FailedToConfirmFutureMessages);
        }
        let confirmed = DeliveredMessages {
            begin: self.latest_received_nonce + 1,
            end: latest_delivered,
        };
        self.latest_received_nonce = latest_delivered;
        self.prune(latest_delivered);
        Ok(Some(confirmed))
    }
}

impl Default for OutboundLaneData {
    /// A lane is closed until its owner opens it. The oldest unpruned nonce is 1,
    /// because everything between it and the latest received nonce is pruned.
    fn default() -> (lane: Self)
        ensures
            lane == Self::fresh(LaneState::Closed),
            lane.wf(),
    {
        OutboundLaneData {
            state: LaneState::Closed,
            oldest_unpruned_nonce: 1,
            latest_received_nonce: 0,
            latest_generated_nonce: 0,
        }
    }
}

impl Encode for OutboundLaneData {
    open spec fn encoding(&self) -> Seq<u8> {
        self.oldest_unpruned_nonce.encoding() + self.latest_received_nonce.encoding()
            + self.latest_generated_nonce.encoding() + self.state.encoding()
    }

    fn encode_to(&self, dest: &mut Vec<u8>) {
        self.oldest_unpruned_nonce.encode_to(dest);
        self.latest_received_nonce.encode_to(dest);
        self.latest_generated_nonce.encode_to(dest);
        self.state.encode_to(dest);
        assert(final(dest)@ =~= old(dest)@ + self.encoding());
    }
}

impl MaxEncodedLen for OutboundLaneData {
    open spec fn max_encoding_len() -> nat {
        25
    }

    fn max_encoded_len() -> (len: usize) {
        let nonce_len: usize = MessageNonce::max_encoded_len();
        nonce_len + nonce_len + nonce_len + LaneState::max_encoded_len()
    }

    proof fn lemma_encoding_fits(&self) {
        lemma_le_bytes_len(self.oldest_unpruned_nonce as nat, 8);
        lemma_le_bytes_len(self.latest_received_nonce as nat, 8);
        lemma_le_bytes_len(self.latest_generated_nonce as nat, 8);
    }
}

impl OutboundLaneData {
    /// The fields of the lane in the order of their encoding, as nested pairs.
    pub open spec fn fields(self) -> (((MessageNonce, MessageNonce), MessageNonce), LaneState) {
        (
            ((self.oldest_unpruned_nonce, self.latest_received_nonce), self.latest_generated_nonce),
            self.state,
        )
    }

    /// The lane encodes as its fields do.
    pub proof fn lemma_encoding_of_fields(self)
        ensures
            self.encoding() == self.fields().encoding(),
    {
        assert(self.encoding() =~= self.fields().encoding());
    }
}

impl Decode for OutboundLaneData {
    fn decode(input: &[u8]) -> (result: Option<(Self, usize)>) {
        proof {
            assert forall|value: OutboundLaneData|
                begins_with(input@, #[trigger] value.encoding()) implies begins_with(
                input@,
                value.fields().encoding(),
            ) by {
                value.lemma_encoding_of_fields();
            }
        }
        match <(((MessageNonce, MessageNonce), MessageNonce), LaneState)>::decode(input) {
            Some(((((oldest_unpruned_nonce, latest_received_nonce), latest_generated_nonce), state), consumed)) => {
                let lane = OutboundLaneData {
                    oldest_unpruned_nonce,
                    latest_received_nonce,
                    latest_generated_nonce,
                    state,
                };
                proof {
                    lane.lemma_encoding_of_fields();
                }
                Some((lane, consumed))
            },
            None => None,
        }
    }

    proof fn lemma_encoding_is_prefix_free(first: Self, second: Self) {
        first.lemma_encoding_of_fields();
        second.lemma_encoding_of_fields();
        <(((MessageNonce, MessageNonce), MessageNonce), LaneState)>::lemma_encoding_is_prefix_free(
            first.fields(),
            second.fields(),
        );
    }
}

} // verus!
