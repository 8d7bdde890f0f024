//! The lifecycle state shared by both ends of a lane.

use crate::codec::Encode;
use crate::codec::MaxEncodedLen;
use crate::decode::begins_with;
use crate::decode::Decode;
use vstd::prelude::*;

verus! {

/// State of one end of a lane.
///
/// The two ends of a lane are switched independently. The switch itself belongs to
/// whoever owns the lane; the operations of this crate only read the state.
#[derive(Clone, Copy, Debug, PartialEq, Eq, Structural)]
pub enum LaneState {
    /// Messages may be sent and received over the lane.
    Opened,
    /// Every attempt to send or receive messages over this end of the lane fails.
    Closed,
}

/// The lane is closed: the operation has been refused and nothing has changed.
#[derive(Clone, Copy, Debug, PartialEq, Eq, Structural)]
pub struct LaneClosed;

impl LaneState {
    /// The byte that stands for this state on the wire.
    pub open spec fn discriminant(self) -> u8 {
        match self {
            LaneState::Opened => 0,
            LaneState::Closed => 1,
        }
    }

    /// Returns true if messages may pass through this end of the lane.
    pub fn is_opened(&self) -> (opened: bool)
        ensures
            opened == (*self == LaneState::Opened),
    {
        match self {
            LaneState::Opened => true,
            LaneState::Closed => false,
        }
    }
}

impl Default for LaneState {
    /// A lane that nobody has opened yet is closed.
    fn default() -> (state: Self)
        ensures
            state == LaneState::Closed,
    {
        LaneState::Closed
    }
}

impl Encode for LaneState {
    open spec fn encoding(&self) -> Seq<u8> {
        seq![self.discriminant()]
    }

    fn encode_to(&self, dest: &mut Vec<u8>) {
        let byte: u8 = match self {
            LaneState::Opened => 0,
            LaneState::Closed => 1,
        };
        dest.push(byte);
        assert(old(dest)@.push(byte) =~= old(dest)@ + seq![byte]);
    }
}

impl MaxEncodedLen for LaneState {
    open spec fn max_encoding_len() -> nat {
        1
    }

    fn max_encoded_len() -> (len: usize) {
        1
    }

    proof fn lemma_encoding_fits(&self) {
    }
}

impl Decode for LaneState {
    fn decode(input: &[u8]) -> (result: Option<(Self, usize)>) {
        proof {
            assert forall|value: LaneState| begins_with(input@, #[trigger] value.encoding())
                implies input@.len() > 0 && input@[0] == value.discriminant() by {
                assert(input@.subrange(0, 1)[0] == value.encoding()[0]);
            }
        }
        if input.len() == 0 {
            return None;
        }
        let byte: u8 = input[0];
        if byte == 0 {
            assert(input@.subrange(0, 1) =~= LaneState::Opened.encoding());
            Some((LaneState::Opened, 1))
        } else if byte == 1 {
            assert(input@.subrange(0, 1) =~= LaneState::Closed.encoding());
            Some((LaneState::Closed, 1))
        } else {
            None
        }
    }

    proof fn lemma_encoding_is_prefix_free(first: Self, second: Self) {
        assert(first.encoding().subrange(0, 1)[0] == first.discriminant());
        assert(second.encoding()[0] == second.discriminant());
    }
}

} // verus!
