//! The wire encoding of the inbound lane data and the estimate of its size.

use crate::codec::compact_encoding;
use crate::codec::compact_len;
use crate::codec::encode_len_prefix_to;
use crate::codec::lemma_compact_encoding_len;
use crate::codec::lemma_le_bytes_len;
use crate::codec::Encode;
use crate::codec::MaxEncodedLen;
use crate::decode::begins_with;
use crate::decode::decode_len_prefix;
use crate::decode::lemma_begins_with_both;
use crate::decode::lemma_decoded_len_prefix_is_unique;
use crate::decode::lemma_decoded_value_is_unique;
use crate::decode::skip_bytes;
use crate::decode::Decode;
use crate::delivered::entry_max_encoding_len;
use crate::delivered::UnrewardedRelayer;
use crate::inbound::InboundLaneData;
use crate::inbound::InboundLaneModel;
use crate::lane::LaneState;
use crate::range::MessageNonce;
use std::collections::VecDeque;
use vstd::prelude::*;

verus! {

/// The encodings of the entries of a queue, one after another, the oldest first.
pub open spec fn entries_encoding<RelayerId: Encode>(
    entries: Seq<UnrewardedRelayer<RelayerId>>,
) -> Seq<u8>
    decreases entries.len(),
{
    if entries.len() == 0 {
        Seq::empty()
    } else {
        entries_encoding(entries.drop_last()) + entries.last().encoding()
    }
}

/// What `encoded_size_hint` returns for a queue of `relayers_entries` entries whose
/// relayer identifiers take at most `relayer_len` bytes: the entries and the last
/// confirmed nonce, if their size fits a `usize`.
pub open spec fn size_hint(relayers_entries: nat, relayer_len: nat) -> Option<nat> {
    let size = relayers_entries * entry_max_encoding_len(relayer_len) + 8;
    if size <= usize::MAX {
        Some(size)
    } else {
        None
    }
}

impl<RelayerId: Encode> InboundLaneModel<RelayerId> {
    /// The bytes that stand for the lane on the wire: the number of entries in compact
    /// form, the entries, the last confirmed nonce and the state.
    pub open spec fn encoding(self) -> Seq<u8>
        recommends
            self.relayers.len() <= u32::MAX,
    {
        compact_encoding(self.relayers.len() as u32) + entries_encoding(self.relayers)
            + self.last_confirmed_nonce.encoding() + self.state.encoding()
    }
}

impl<RelayerId: Encode> InboundLaneData<RelayerId> {
    /// Appends the encoding of the lane to `dest`. The queue must not hold more
    /// entries than its length prefix can count.
    pub fn encode_to(&self, dest: &mut Vec<u8>)
        requires
            self.relayers@.len() <= u32::MAX,
        ensures
            final(dest)@ == old(dest)@ + self@.encoding(),
    {
        let len: usize = self.relayers.len();
        encode_len_prefix_to(len as u32, dest);
        let ghost prefixed = dest@;
        let mut index: usize = 0;
        assert(self.relayers@.take(0) =~= Seq::empty());
        while index < len
            invariant
                len == self.relayers@.len(),
                0 <= index <= len,
                dest@ == prefixed + entries_encoding(self.relayers@.take(index as int)),
            decreases len - index,
        {
            self.relayers[index].encode_to(dest);
            proof {
                let done = self.relayers@.take(index + 1);
                assert(done.drop_last() =~= self.relayers@.take(index as int));
                assert(done.last() == self.relayers@[index as int]);
                assert(dest@ =~= prefixed + entries_encoding(done));
            }
            index = index + 1;
        }
        assert(self.relayers@.take(len as int) =~= self.relayers@);
        self.last_confirmed_nonce.encode_to(dest);
        self.state.encode_to(dest);
        assert(final(dest)@ =~= old(dest)@ + self@.encoding());
    }

    /// Returns the encoding of the lane. The queue must not hold more entries than
    /// its length prefix can count.
    pub fn encode(&self) -> (bytes: Vec<u8>)
        requires
            self.relayers@.len() <= u32::MAX,
        ensures
            bytes@ == self@.encoding(),
    {
        let mut bytes: Vec<u8> = Vec::new();
        self.encode_to(&mut bytes);
        assert(Seq::<u8>::empty() + self@.encoding() =~= self@.encoding());
        bytes
    }
}

impl<RelayerId: MaxEncodedLen> InboundLaneData<RelayerId> {
    /// Returns approximate size of the struct, given a number of entries in the
    /// `relayers` set and size of each entry.
    ///
    /// Returns `None` if size overflows `usize` limits.
    pub fn encoded_size_hint(relayers_entries: usize) -> (hint: Option<usize>)
        ensures
            match size_hint(relayers_entries as nat, RelayerId::max_encoding_len()) {
                Some(size) => hint == Some(size as usize),
                None => hint is None,
            },
    {
        let entry_len: usize = UnrewardedRelayer::<RelayerId>::max_encoded_len();
        match relayers_entries.checked_mul(entry_len) {
            Some(entries_len) => entries_len.checked_add(MessageNonce::max_encoded_len()),
            None => None,
        }
    }

    /// Returns the approximate size of the struct as u32, given a number of entries in
    /// the `relayers` set and the size of each entry.
    ///
    /// Returns `u32::MAX` if size overflows `u32` limits.
    pub fn encoded_size_hint_u32(relayers_entries: usize) -> (hint: u32)
        ensures
            match size_hint(relayers_entries as nat, RelayerId::max_encoding_len()) {
                Some(size) => hint == if size <= u32::MAX {
                    size as u32
                } else {
                    u32::MAX
                },
                None => hint == u32::MAX,
            },
    {
        match Self::encoded_size_hint(relayers_entries) {
            Some(size) => if size <= u32::MAX as usize {
                size as u32
            } else {
                u32::MAX
            },
            None => u32::MAX,
        }
    }
}

/// The entries of a queue encode to no more bytes than their number times the
/// length bound of one entry.
pub proof fn lemma_entries_encoding_len<RelayerId: MaxEncodedLen>(
    entries: Seq<UnrewardedRelayer<RelayerId>>,
)
    ensures
        entries_encoding(entries).len() <= entries.len() * (RelayerId::max_encoding_len() + 16),
    decreases entries.len(),
{
    if entries.len() > 0 {
        lemma_entries_encoding_len(entries.drop_last());
        entries.last().lemma_encoding_len();
        assert(entries.len() * (RelayerId::max_encoding_len() + 16) == (entries.len() - 1) * (
        RelayerId::max_encoding_len() + 16) + (RelayerId::max_encoding_len() + 16))
            by (nonlinear_arith);
    }
}

/// The size hint tracks the encoded size of a lane: where the hint for the number of
/// entries of the lane exists, the lane encodes to at most the hint and the bytes
/// that the hint leaves out, which are the length prefix of the queue and the state
/// of the lane, six bytes at the most.
pub proof fn lemma_encoded_size_within_hint<RelayerId: MaxEncodedLen>(
    lane: InboundLaneModel<RelayerId>,
)
    requires
        lane.relayers.len() <= u32::MAX,
        size_hint(lane.relayers.len(), RelayerId::max_encoding_len()) is Some,
    ensures
        lane.encoding().len() <= size_hint(lane.relayers.len(), RelayerId::max_encoding_len())->0
            + compact_len(lane.relayers.len() as u32) + 1,
        lane.encoding().len() <= size_hint(lane.relayers.len(), RelayerId::max_encoding_len())->0
            + 6,
{
    let entries = lane.relayers.len();
    let relayer_len = RelayerId::max_encoding_len();
    lemma_entries_encoding_len(lane.relayers);
    lemma_compact_encoding_len(entries as u32);
    lemma_le_bytes_len(lane.last_confirmed_nonce as nat, 8);
    if entries > 0 {
        let entry_len = entry_max_encoding_len(relayer_len);
        assert(entry_len <= entries * entry_len) by (nonlinear_arith)
            requires
                entries >= 1,
        ;
        assert(entry_len == relayer_len + 16);
    }
}

/// Where every relayer identifier of the queue encodes to as many bytes as the bound
/// of its type allows, the size hint is exact but for the bytes that it leaves out:
/// the length prefix of the queue and the state of the lane.
pub proof fn lemma_encoded_size_of_full_length_relayers<RelayerId: MaxEncodedLen>(
    lane: InboundLaneModel<RelayerId>,
)
    requires
        lane.relayers.len() <= u32::MAX,
        size_hint(lane.relayers.len(), RelayerId::max_encoding_len()) is Some,
        forall|i: int|
            0 <= i < lane.relayers.len() ==> (#[trigger] lane.relayers[i]).relayer.encoding().len()
                == RelayerId::max_encoding_len(),
    ensures
        lane.encoding().len() == size_hint(lane.relayers.len(), RelayerId::max_encoding_len())->0
            + compact_len(lane.relayers.len() as u32) + 1,
{
    let entries = lane.relayers.len();
    let relayer_len = RelayerId::max_encoding_len();
    lemma_full_length_entries_encoding_len(lane.relayers);
    lemma_compact_encoding_len(entries as u32);
    lemma_le_bytes_len(lane.last_confirmed_nonce as nat, 8);
    if entries > 0 {
        let entry_len = entry_max_encoding_len(relayer_len);
        assert(entry_len <= entries * entry_len) by (nonlinear_arith)
            requires
                entries >= 1,
        ;
        assert(entry_len == relayer_len + 16);
    } else {
        assert(entries * entry_max_encoding_len(relayer_len) == 0)
            by (nonlinear_arith)
            requires
                entries == 0,
        ;
    }
}

/// Entries whose relayer identifiers all take the full length encode to their number
/// times that length and sixteen bytes more for each.
pub proof fn lemma_full_length_entries_encoding_len<RelayerId: MaxEncodedLen>(
    entries: Seq<UnrewardedRelayer<RelayerId>>,
)
    requires
        forall|i: int|
            0 <= i < entries.len() ==> (#[trigger] entries[i]).relayer.encoding().len()
                == RelayerId::max_encoding_len(),
    ensures
        entries_encoding(entries).len() == entries.len() * (RelayerId::max_encoding_len() + 16),
    decreases entries.len(),
{
    if entries.len() > 0 {
        assert forall|i: int| 0 <= i < entries.drop_last().len() implies (
        #[trigger] entries.drop_last()[i]).relayer.encoding().len()
            == RelayerId::max_encoding_len() by {
            assert(entries.drop_last()[i] == entries[i]);
        }
        lemma_full_length_entries_encoding_len(entries.drop_last());
        entries.last().lemma_encoding_len();
        assert(entries[entries.len() - 1].relayer.encoding().len()
            == RelayerId::max_encoding_len());
        assert(entries.len() * (RelayerId::max_encoding_len() + 16) == (entries.len() - 1) * (
        RelayerId::max_encoding_len() + 16) + (RelayerId::max_encoding_len() + 16))
            by (nonlinear_arith);
    } else {
        assert(entries.len() * (RelayerId::max_encoding_len() + 16) == 0) by (nonlinear_arith)
            requires
                entries.len() == 0,
        ;
    }
}

/// The encoding of a queue made of two queues is the encoding of the first followed
/// by the encoding of the second.
pub proof fn lemma_entries_encoding_of_both<RelayerId: Encode>(
    first: Seq<UnrewardedRelayer<RelayerId>>,
    second: Seq<UnrewardedRelayer<RelayerId>>,
)
    ensures
        entries_encoding(first + second) == entries_encoding(first) + entries_encoding(second),
    decreases second.len(),
{
    if second.len() == 0 {
        assert(first + second =~= first);
        assert(entries_encoding(first) + entries_encoding(second) =~= entries_encoding(first));
    } else {
        assert((first + second).drop_last() =~= first + second.drop_last());
        assert((first + second).last() == second.last());
        lemma_entries_encoding_of_both(first, second.drop_last());
        assert(entries_encoding(first + second) =~= entries_encoding(first) + entries_encoding(
            second,
        ));
    }
}

/// An input that begins with the encodings of two queues goes on, behind the shorter
/// one, with the entry that the longer one has at that place.
pub proof fn lemma_next_entry_follows<RelayerId: Decode>(
    input: Seq<u8>,
    done: Seq<UnrewardedRelayer<RelayerId>>,
    all: Seq<UnrewardedRelayer<RelayerId>>,
)
    requires
        done.len() < all.len(),
        begins_with(input, entries_encoding(done)),
        begins_with(input, entries_encoding(all)),
    ensures
        done == all.take(done.len() as int),
        begins_with(
            input.skip(entries_encoding(done).len() as int),
            all[done.len() as int].encoding(),
        ),
    decreases done.len(),
{
    let count = done.len() as int;
    if count > 0 {
        let before = done.drop_last();
        lemma_begins_with_both(input, entries_encoding(before), done.last().encoding());
        lemma_next_entry_follows(input, before, all);
        lemma_decoded_value_is_unique(
            input.skip(entries_encoding(before).len() as int),
            done.last(),
            all[count - 1],
        );
        assert(done =~= all.take(count));
    } else {
        assert(done =~= all.take(count));
    }
    let head = all.take(count);
    let next = seq![all[count]];
    let tail = all.skip(count + 1);
    assert(all =~= head + next + tail);
    lemma_entries_encoding_of_both(head + next, tail);
    lemma_entries_encoding_of_both(head, next);
    assert(next.drop_last() =~= Seq::<UnrewardedRelayer<RelayerId>>::empty());
    assert(entries_encoding(next.drop_last()) =~= Seq::<u8>::empty());
    assert(next.last() == all[count]);
    assert(entries_encoding(next) =~= all[count].encoding());
    assert(entries_encoding(all) =~= entries_encoding(done) + (all[count].encoding()
        + entries_encoding(tail)));
    lemma_begins_with_both(
        input,
        entries_encoding(done),
        all[count].encoding() + entries_encoding(tail),
    );
    lemma_begins_with_both(
        input.skip(entries_encoding(done).len() as int),
        all[count].encoding(),
        entries_encoding(tail),
    );
}

/// An input that begins with the encodings of two queues of the same length begins
/// with one queue only.
pub proof fn lemma_decoded_entries_are_unique<RelayerId: Decode>(
    input: Seq<u8>,
    done: Seq<UnrewardedRelayer<RelayerId>>,
    all: Seq<UnrewardedRelayer<RelayerId>>,
)
    requires
        done.len() == all.len(),
        begins_with(input, entries_encoding(done)),
        begins_with(input, entries_encoding(all)),
    ensures
        done == all,
{
    if done.len() > 0 {
        let before = done.drop_last();
        lemma_begins_with_both(input, entries_encoding(before), done.last().encoding());
        lemma_next_entry_follows(input, before, all);
        lemma_decoded_value_is_unique(
            input.skip(entries_encoding(before).len() as int),
            done.last(),
            all[all.len() - 1],
        );
        assert forall|i: int| 0 <= i < done.len() implies done[i] == all[i] by {
            if i < before.len() {
                assert(before[i] == done[i]);
                assert(all.take(before.len() as int)[i] == all[i]);
            }
        }
        assert(done =~= all);
    } else {
        assert(done =~= all);
    }
}

/// The parts of an encoded lane: an input begins with the encoding of a lane exactly
/// if it begins with the length prefix of its queue, goes on with its entries and
/// then with its last confirmed nonce and its state.
pub proof fn lemma_lane_encoding_parts<RelayerId: Encode>(
    input: Seq<u8>,
    lane: InboundLaneModel<RelayerId>,
)
    ensures
        begins_with(input, lane.encoding()) <==> {
            let prefix = compact_encoding(lane.relayers.len() as u32);
            let entries = entries_encoding(lane.relayers);
            &&& begins_with(input, prefix)
            &&& begins_with(input.skip(prefix.len() as int), entries)
            &&& begins_with(
                input.skip(prefix.len() as int).skip(entries.len() as int),
                (lane.last_confirmed_nonce, lane.state).encoding(),
            )
        },
        lane.encoding().len() == compact_encoding(lane.relayers.len() as u32).len()
            + entries_encoding(lane.relayers).len() + 9,
{
    let prefix = compact_encoding(lane.relayers.len() as u32);
    let entries = entries_encoding(lane.relayers);
    let tail = (lane.last_confirmed_nonce, lane.state).encoding();
    assert(lane.encoding() =~= prefix + (entries + tail));
    lemma_begins_with_both(input, prefix, entries + tail);
    lemma_begins_with_both(input.skip(prefix.len() as int), entries, tail);
    lemma_le_bytes_len(lane.last_confirmed_nonce as nat, 8);
}

impl<RelayerId: Decode> InboundLaneData<RelayerId> {
    /// Reads a lane from the head of `input`. Returns the lane and the number of the
    /// bytes that stand for it, or `None` if the input does not begin with the
    /// encoding of any lane.
    pub fn decode(input: &[u8]) -> (result: Option<(Self, usize)>)
        ensures
            match result {
                Some((lane, consumed)) => {
                    &&& lane.relayers@.len() <= u32::MAX
                    &&& consumed == lane@.encoding().len()
                    &&& begins_with(input@, lane@.encoding())
                },
                None => forall|lane: InboundLaneModel<RelayerId>|
                    lane.relayers.len() <= u32::MAX ==> !begins_with(
                        input@,
                        #[trigger] lane.encoding(),
                    ),
            },
    {
        let input_len: usize = input.len();
        let (entries, prefix_len) = match decode_len_prefix(input) {
            Some(prefix) => prefix,
            None => {
                proof {
                    assert forall|lane: InboundLaneModel<RelayerId>|
                        lane.relayers.len() <= u32::MAX implies !begins_with(
                        input@,
                        #[trigger] lane.encoding(),
                    ) by {
                        lemma_lane_encoding_parts(input@, lane);
                    }
                }
                return None;
            },
        };
        let ghost body = input@.skip(prefix_len as int);
        let mut relayers: VecDeque<UnrewardedRelayer<RelayerId>> = VecDeque::new();
        let mut position: usize = prefix_len;
        let mut index: u32 = 0;
        assert(body.subrange(0, 0) =~= entries_encoding(relayers@));
        while index < entries
            invariant
                input_len == input@.len(),
                body == input@.skip(prefix_len as int),
                prefix_len == compact_encoding(entries).len(),
                begins_with(input@, compact_encoding(entries)),
                0 <= index <= entries,
                relayers@.len() == index,
                prefix_len <= position <= input_len,
                position == prefix_len + entries_encoding(relayers@).len(),
                begins_with(body, entries_encoding(relayers@)),
            decreases entries - index,
        {
            let rest = skip_bytes(input, position);
            proof {
                assert(rest@ =~= body.skip(entries_encoding(relayers@).len() as int));
            }
            match UnrewardedRelayer::<RelayerId>::decode(rest) {
                Some((entry, entry_len)) => {
                    proof {
                        lemma_begins_with_both(
                            body,
                            entries_encoding(relayers@),
                            entry.encoding(),
                        );
                        assert(relayers@.push(entry).drop_last() =~= relayers@);
                    }
                    relayers.push_back(entry);
                    position = position + entry_len;
                    index = index + 1;
                },
                None => {
                    proof {
                        assert forall|lane: InboundLaneModel<RelayerId>|
                            lane.relayers.len() <= u32::MAX implies !begins_with(
                            input@,
                            #[trigger] lane.encoding(),
                        ) by {
                            lemma_lane_encoding_parts(input@, lane);
                            if begins_with(input@, lane.encoding()) {
                                lemma_decoded_len_prefix_is_unique(
                                    input@,
                                    entries,
                                    lane.relayers.len() as u32,
                                );
                                lemma_next_entry_follows(body, relayers@, lane.relayers);
                            }
                        }
                    }
                    return None;
                },
            }
        }
        let rest = skip_bytes(input, position);
        proof {
            assert(rest@ =~= body.skip(entries_encoding(relayers@).len() as int));
        }
        match <(MessageNonce, LaneState)>::decode(rest) {
            Some(((last_confirmed_nonce, state), tail_len)) => {
                let lane = InboundLaneData { relayers, last_confirmed_nonce, state };
                proof {
                    lemma_lane_encoding_parts(input@, lane@);
                }
                Some((lane, position + tail_len))
            },
            None => {
                proof {
                    assert forall|lane: InboundLaneModel<RelayerId>|
                        lane.relayers.len() <= u32::MAX implies !begins_with(
                        input@,
                        #[trigger] lane.encoding(),
                    ) by {
                        lemma_lane_encoding_parts(input@, lane);
                        if begins_with(input@, lane.encoding()) {
                            lemma_decoded_len_prefix_is_unique(
                                input@,
                                entries,
                                lane.relayers.len() as u32,
                            );
                            lemma_decoded_entries_are_unique(body, relayers@, lane.relayers);
                        }
                    }
                }
                None
            },
        }
    }
}

/// No two lanes share an encoding, and no encoding of a lane continues the encoding
/// of another lane.
pub proof fn lemma_lane_encoding_is_prefix_free<RelayerId: Decode>(
    first: InboundLaneModel<RelayerId>,
    second: InboundLaneModel<RelayerId>,
)
    requires
        first.relayers.len() <= u32::MAX,
        second.relayers.len() <= u32::MAX,
        begins_with(first.encoding(), second.encoding()),
    ensures
        first == second,
{
    let input = first.encoding();
    assert(input.subrange(0, input.len() as int) =~= input);
    lemma_lane_encoding_parts(input, first);
    lemma_lane_encoding_parts(input, second);
    lemma_decoded_len_prefix_is_unique(
        input,
        first.relayers.len() as u32,
        second.relayers.len() as u32,
    );
    let body = input.skip(compact_encoding(first.relayers.len() as u32).len() as int);
    lemma_decoded_entries_are_unique(body, first.relayers, second.relayers);
    lemma_decoded_value_is_unique(
        body.skip(entries_encoding(first.relayers).len() as int),
        (first.last_confirmed_nonce, first.state),
        (second.last_confirmed_nonce, second.state),
    );
}

} // verus!
