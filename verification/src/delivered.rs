//! Ranges of delivered messages and the relayers that delivered them.

use crate::codec::Encode;
use crate::codec::MaxEncodedLen;
use crate::codec::lemma_le_bytes_len;
use crate::decode::begins_with;
use crate::decode::Decode;
use crate::range::range_len;
use crate::range::saturated;
use crate::range::saturating_len;
use crate::range::MessageNonce;
use vstd::prelude::*;

verus! {

/// Inclusive range of nonces of messages that have been delivered.
#[derive(Clone, Copy, Debug, PartialEq, Eq, Structural)]
pub struct DeliveredMessages {
    /// Nonce of the first message that has been delivered (inclusive).
    pub begin: MessageNonce,
    /// Nonce of the last message that has been delivered (inclusive).
    pub end: MessageNonce,
}

impl DeliveredMessages {
    /// A range holds at least one message: it never ends before it begins.
    pub open spec fn wf(self) -> bool {
        self.begin <= self.end
    }

    /// Number of nonces in the range, as a mathematical integer.
    pub open spec fn count(self) -> nat {
        range_len(self.begin, self.end)
    }

    /// Whether `nonce` lies in the range.
    pub open spec fn contains(self, nonce: MessageNonce) -> bool {
        self.begin <= nonce <= self.end
    }

    /// Creates the range that holds the single message `nonce`.
    pub fn new(nonce: MessageNonce) -> (messages: Self)
        ensures
            messages == (DeliveredMessages { begin: nonce, end: nonce }),
            messages.wf(),
            messages.count() == 1,
    {
        DeliveredMessages { begin: nonce, end: nonce }
    }

    /// Returns the total count of delivered messages, saturating at the largest nonce.
    pub fn total_messages(&self) -> (total: MessageNonce)
        ensures
            total == saturated(self.count()),
    {
        saturating_len(self.begin, self.end)
    }

    /// Notes that the message following the last one of the range has been dispatched.
    pub fn note_dispatched_message(&mut self)
        requires
            old(self).end < MessageNonce::MAX,
        ensures
            final(self).begin == old(self).begin,
            final(self).end == old(self).end + 1,
            old(self).wf() ==> final(self).wf() && final(self).count() == old(self).count() + 1,
    {
        self.end = self.end + 1;
    }

    /// Returns true if the delivered messages contain the message with the given nonce.
    pub fn contains_message(&self, nonce: MessageNonce) -> (contained: bool)
        ensures
            contained == self.contains(nonce),
    {
        self.begin <= nonce && nonce <= self.end
    }
}

impl Default for DeliveredMessages {
    fn default() -> (messages: Self)
        ensures
            messages == (DeliveredMessages { begin: 0, end: 0 }),
    {
        DeliveredMessages { begin: 0, end: 0 }
    }
}

impl Encode for DeliveredMessages {
    open spec fn encoding(&self) -> Seq<u8> {
        self.begin.encoding() + self.end.encoding()
    }

    fn encode_to(&self, dest: &mut Vec<u8>) {
        self.begin.encode_to(dest);
        self.end.encode_to(dest);
        assert(final(dest)@ =~= old(dest)@ + self.encoding());
    }
}

impl MaxEncodedLen for DeliveredMessages {
    open spec fn max_encoding_len() -> nat {
        16
    }

    fn max_encoded_len() -> (len: usize) {
        let nonce_len: usize = MessageNonce::max_encoded_len();
        nonce_len + nonce_len
    }

    proof fn lemma_encoding_fits(&self) {
        lemma_le_bytes_len(self.begin as nat, 8);
        lemma_le_bytes_len(self.end as nat, 8);
    }
}

/// Unrewarded relayer entry stored in the inbound lane data.
///
/// It stands for a continuous range of messages that have been delivered by the same
/// relayer and whose confirmations are still pending.
#[derive(Clone, Copy, Debug, PartialEq, Eq)]
pub struct UnrewardedRelayer<RelayerId> {
    /// Identifier of the relayer.
    pub relayer: RelayerId,
    /// Messages range, delivered by this relayer.
    pub messages: DeliveredMessages,
}

impl<RelayerId: Encode> Encode for UnrewardedRelayer<RelayerId> {
    open spec fn encoding(&self) -> Seq<u8> {
        self.relayer.encoding() + self.messages.encoding()
    }

    fn encode_to(&self, dest: &mut Vec<u8>) {
        self.relayer.encode_to(dest);
        self.messages.encode_to(dest);
        assert(final(dest)@ =~= old(dest)@ + self.encoding());
    }
}

/// Length bound of an encoded entry whose relayer identifier takes at most
/// `relayer_len` bytes, saturating at the largest `usize`.
pub open spec fn entry_max_encoding_len(relayer_len: nat) -> nat {
    if relayer_len + 16 > usize::MAX {
        usize::MAX as nat
    } else {
        relayer_len + 16
    }
}

impl<RelayerId: MaxEncodedLen> UnrewardedRelayer<RelayerId> {
    /// Upper bound, in bytes, of the encoded size of an entry, saturating at the
    /// largest `usize`.
    pub fn max_encoded_len() -> (len: usize)
        ensures
            len == entry_max_encoding_len(RelayerId::max_encoding_len()),
    {
        let relayer_len: usize = RelayerId::max_encoded_len();
        let messages_len: usize = DeliveredMessages::max_encoded_len();
        relayer_len.saturating_add(messages_len)
    }

    /// An entry encodes to its relayer identifier followed by sixteen bytes.
    pub proof fn lemma_encoding_len(&self)
        ensures
            self.encoding().len() == self.relayer.encoding().len() + 16,
            self.encoding().len() <= RelayerId::max_encoding_len() + 16,
    {
        self.relayer.lemma_encoding_fits();
        self.messages.lemma_encoding_fits();
        lemma_le_bytes_len(self.messages.begin as nat, 8);
        lemma_le_bytes_len(self.messages.end as nat, 8);
    }
}

impl Decode for DeliveredMessages {
    fn decode(input: &[u8]) -> (result: Option<(Self, usize)>) {
        proof {
            assert forall|value: DeliveredMessages| begins_with(input@, #[trigger] value.encoding())
                implies begins_with(input@, (value.begin, value.end).encoding()) by {}
        }
        match <(MessageNonce, MessageNonce)>::decode(input) {
            Some(((begin, end), consumed)) => Some((DeliveredMessages { begin, end }, consumed)),
            None => None,
        }
    }

    proof fn lemma_encoding_is_prefix_free(first: Self, second: Self) {
        <(MessageNonce, MessageNonce)>::lemma_encoding_is_prefix_free(
            (first.begin, first.end),
            (second.begin, second.end),
        );
    }
}

impl<RelayerId: Decode> Decode for UnrewardedRelayer<RelayerId> {
    fn decode(input: &[u8]) -> (result: Option<(Self, usize)>) {
        proof {
            assert forall|value: UnrewardedRelayer<RelayerId>|
                begins_with(input@, #[trigger] value.encoding()) implies begins_with(
                input@,
                (value.relayer, value.messages).encoding(),
            ) by {}
        }
        match <(RelayerId, DeliveredMessages)>::decode(input) {
            Some(((relayer, messages), consumed)) => Some(
                (UnrewardedRelayer { relayer, messages }, consumed),
            ),
            None => None,
        }
    }

    proof fn lemma_encoding_is_prefix_free(first: Self, second: Self) {
        <(RelayerId, DeliveredMessages)>::lemma_encoding_is_prefix_free(
            (first.relayer, first.messages),
            (second.relayer, second.messages),
        );
    }
}

} // verus!
