//! Stand-ins for services of a chain and a harness for scenarios on a lane, for tests
//! of code that runs on a chain.

use crate::inbound::InboundLaneData;
use crate::inbound::InboundLaneModel;
use crate::lane::LaneState;
use crate::message::MessageKey;
use crate::message::MessagePayload;
use crate::outbound::OutboundLaneData;
use crate::reception::MessageDispatch;
use crate::reception::MessageDispatchResult;
use crate::weight::Weight;
use vstd::prelude::*;
use vstd::slice::slice_to_vec;

verus! {

/// Hook that records the accounts that have been removed from the chain, in the order
/// of their removal.
#[derive(Clone, Debug)]
pub struct RecordKilled {
    /// The accounts removed so far, the first removed first.
    pub killed: Vec<u64>,
}

impl RecordKilled {
    /// Creates a record that holds no account.
    pub fn new() -> (record: Self)
        ensures
            record.killed@ == Seq::<u64>::empty(),
    {
        RecordKilled { killed: Vec::new() }
    }

    /// Notes that the account `who` has been removed.
    pub fn on_killed_account(&mut self, who: &u64)
        ensures
            final(self).killed@ == old(self).killed@.push(*who),
    {
        self.killed.push(*who);
    }
}

/// Provider of the nonce that a new account starts with: the number of the block in
/// which the account is created.
#[derive(Clone, Copy, Debug, PartialEq, Eq, Structural)]
pub struct DefaultNonceProvider {
    /// Number of the current block.
    pub block_number: u64,
}

impl DefaultNonceProvider {
    /// Returns the nonce of an account created in the current block.
    pub fn get(&self) -> (nonce: u64)
        ensures
            nonce == self.block_number,
    {
        self.block_number
    }
}

/// Migrator of a chain whose migrations take no weight and are switched on and off by
/// the test.
#[derive(Clone, Copy, Debug, PartialEq, Eq, Structural)]
pub struct MockedMigrator {
    /// Whether a migration is under way.
    pub ongoing: bool,
}

impl MockedMigrator {
    /// Returns true while a migration is under way.
    pub fn ongoing(&self) -> (ongoing: bool)
        ensures
            ongoing == self.ongoing,
    {
        self.ongoing
    }

    /// Makes one step of the migration and returns the weight that it has taken,
    /// which is none.
    pub fn step(&self) -> (weight: Weight)
        ensures
            weight == (Weight { ref_time: 0, proof_size: 0 }),
    {
        Weight::zero()
    }
}

/// Whether `members` is in ascending order.
pub open spec fn sorted(members: Seq<u128>) -> bool {
    forall|i: int, j: int| 0 <= i <= j < members.len() ==> members[i] <= members[j]
}

/// Number of the members at the head of `members` that are not greater than `new`:
/// the place that `new` takes when it joins members in ascending order.
pub open spec fn place_of(members: Seq<u128>, new: u128) -> int
    decreases members.len(),
{
    if members.len() == 0 || members[0] > new {
        0
    } else {
        1 + place_of(members.drop_first(), new)
    }
}

/// A set of members in ascending order that starts as the accounts 10 to 14.
#[derive(Clone, Debug)]
pub struct TenToFourteen {
    /// The members, in ascending order.
    pub members: Vec<u128>,
}

impl TenToFourteen {
    /// Creates the set of the accounts 10, 11, 12, 13 and 14.
    pub fn new() -> (set: Self)
        ensures
            set.members@ == seq![10u128, 11u128, 12u128, 13u128, 14u128],
            sorted(set.members@),
    {
        let mut members: Vec<u128> = Vec::new();
        members.push(10);
        members.push(11);
        members.push(12);
        members.push(13);
        members.push(14);
        assert(members@ =~= seq![10u128, 11u128, 12u128, 13u128, 14u128]);
        TenToFourteen { members }
    }

    /// Returns the members in ascending order.
    pub fn sorted_members(&self) -> (members: Vec<u128>)
        ensures
            members@ == self.members@,
    {
        let mut members: Vec<u128> = Vec::new();
        let mut index: usize = 0;
        while index < self.members.len()
            invariant
                0 <= index <= self.members@.len(),
                members@ == self.members@.take(index as int),
            decreases self.members@.len() - index,
        {
            members.push(self.members[index]);
            assert(members@ =~= self.members@.take(index + 1));
            index = index + 1;
        }
        assert(self.members@.take(index as int) =~= self.members@);
        members
    }

    /// Adds `new` to the members, behind the members that are not greater than it.
    /// Members in ascending order stay in ascending order.
    pub fn add(&mut self, new: &u128)
        ensures
            final(self).members@ == old(self).members@.insert(
                place_of(old(self).members@, *new),
                *new,
            ),
            sorted(old(self).members@) ==> sorted(final(self).members@),
    {
        let mut place: usize = 0;
        while place < self.members.len() && self.members[place] <= *new
            invariant
                self.members@ == old(self).members@,
                0 <= place <= self.members@.len(),
                forall|i: int| 0 <= i < place ==> self.members@[i] <= *new,
            decreases self.members@.len() - place,
        {
            place = place + 1;
        }
        proof {
            lemma_place_is_unique(self.members@, *new, place as int);
            if sorted(self.members@) {
                lemma_insert_keeps_order(self.members@, *new, place as int);
            }
        }
        self.members.insert(place, *new);
    }

    /// Returns the upper bound of the number of members: the number of the members
    /// that the set holds now.
    pub fn max_len(&self) -> (len: usize)
        ensures
            len == self.members@.len(),
    {
        self.members.len()
    }

    /// Returns the lower bound of the number of members: none.
    pub fn min_len(&self) -> (len: usize)
        ensures
            len == 0,
    {
        0
    }
}

/// The place of `new` among `members` is the one index with no greater member before
/// it and a greater member, or none, at it.
pub proof fn lemma_place_is_unique(members: Seq<u128>, new: u128, place: int)
    requires
        0 <= place <= members.len(),
        forall|i: int| 0 <= i < place ==> members[i] <= new,
        place < members.len() ==> members[place] > new,
    ensures
        place_of(members, new) == place,
    decreases members.len(),
{
    if place > 0 {
        let rest = members.drop_first();
        assert forall|i: int| 0 <= i < place - 1 implies rest[i] <= new by {
            assert(rest[i] == members[i + 1]);
        }
        if place - 1 < rest.len() {
            assert(rest[place - 1] == members[place]);
        }
        lemma_place_is_unique(rest, new, place - 1);
    }
}

/// Members in ascending order stay so when a member joins them at its place.
pub proof fn lemma_insert_keeps_order(members: Seq<u128>, new: u128, place: int)
    requires
        sorted(members),
        0 <= place <= members.len(),
        forall|i: int| 0 <= i < place ==> members[i] <= new,
        place < members.len() ==> members[place] > new,
    ensures
        sorted(members.insert(place, new)),
{
    let after = members.insert(place, new);
    assert forall|i: int, j: int| 0 <= i <= j < after.len() implies after[i] <= after[j] by {
        if j < place {
            assert(after[i] == members[i] && after[j] == members[j]);
        } else if i > place {
            assert(after[i] == members[i - 1] && after[j] == members[j - 1]);
        } else if i == place {
            if j > place {
                assert(after[j] == members[j - 1]);
                assert(members[place] <= members[j - 1]);
            }
        } else {
            assert(after[i] == members[i]);
            if j > place {
                assert(after[j] == members[j - 1]);
                assert(members[i] <= members[j - 1]);
            }
        }
    }
}

/// Dispatcher that keeps every message that it is handed and reports the size of its
/// payload as the outcome of the dispatch.
#[derive(Clone, Debug)]
pub struct RecordingDispatch<LaneId> {
    /// The messages handed to the dispatcher so far, the first handed first.
    pub messages: Vec<(MessageKey<LaneId>, MessagePayload)>,
}

impl<LaneId> RecordingDispatch<LaneId> {
    /// Creates a dispatcher that has not been handed any message.
    pub fn new() -> (dispatch: Self)
        ensures
            dispatch.messages@ == Seq::<(MessageKey<LaneId>, MessagePayload)>::empty(),
    {
        RecordingDispatch { messages: Vec::new() }
    }
}

impl<LaneId> MessageDispatch<LaneId> for RecordingDispatch<LaneId> {
    type DispatchLevelResult = usize;

    fn dispatch(&mut self, key: MessageKey<LaneId>, payload: &MessagePayload) -> (result:
        MessageDispatchResult<usize>)
        ensures
            result.dispatch_level_result == payload@.len(),
            result.unspent_weight == (Weight { ref_time: 0, proof_size: 0 }),
            final(self).messages@.len() == old(self).messages@.len() + 1,
            final(self).messages@.drop_last() == old(self).messages@,
            final(self).messages@.last().0 == key,
            final(self).messages@.last().1@ == payload@,
    {
        let copy: MessagePayload = slice_to_vec(payload.as_slice());
        self.messages.push((key, copy));
        assert(self.messages@.drop_last() =~= old(self).messages@);
        MessageDispatchResult { unspent_weight: Weight::zero(), dispatch_level_result: payload.len() }
    }
}

/// Both ends of a lane between two chains, as a scenario drives them.
#[derive(Clone, Debug)]
pub struct TestLanes {
    /// The end of the lane at the chain that sends the messages.
    pub outbound: OutboundLaneData,
    /// The end of the lane at the chain that receives the messages.
    pub inbound: InboundLaneData<u64>,
}

impl TestLanes {
    /// Both ends of the lane obey their invariants.
    pub open spec fn wf(&self) -> bool {
        self.outbound.wf() && self.inbound.wf()
    }

    /// Both ends of the lane are as they are created: closed, with nothing sent and
    /// nothing delivered.
    pub open spec fn is_genesis(&self) -> bool {
        &&& self.outbound == OutboundLaneData::fresh(LaneState::Closed)
        &&& self.inbound@ == InboundLaneModel::<u64>::fresh(LaneState::Closed)
    }

    /// Creates both ends of a lane as they are at the genesis of their chains.
    pub fn new() -> (lanes: Self)
        ensures
            lanes.is_genesis(),
            lanes.wf(),
    {
        TestLanes { outbound: OutboundLaneData::default(), inbound: InboundLaneData::default() }
    }

    /// Checks the invariants of both ends of the lane.
    pub fn try_state(&self) -> (sound: bool)
        ensures
            sound == self.wf(),
    {
        self.outbound.try_state() && self.inbound.try_state()
    }
}

/// Runs the scenario `test` on the ends of a lane at their genesis and checks their
/// invariants at the end. Returns what the scenario has left of the lane, and whether
/// all invariants hold of it.
pub fn build_and_execute<Test: FnOnce(TestLanes) -> TestLanes>(test: Test) -> (outcome: (
    TestLanes,
    bool,
))
    requires
        forall|genesis: TestLanes| genesis.is_genesis() ==> test.requires((genesis,)),
    ensures
        exists|genesis: TestLanes| genesis.is_genesis() && test.ensures((genesis,), outcome.0),
        outcome.1 == outcome.0.wf(),
{
    let genesis = TestLanes::new();
    let lanes = test(genesis);
    let sound = lanes.try_state();
    (lanes, sound)
}

} // verus!
