//! Reception of messages at the inbound end of a lane: every message is checked
//! against the lane, dispatched if the lane admits it, and recorded for its relayer.

use crate::delivered::DeliveredMessages;
use crate::delivered::UnrewardedRelayer;
use crate::inbound::InboundLaneData;
use crate::inbound::InboundLaneModel;
use crate::lane::LaneClosed;
use crate::lane::LaneState;
use crate::message::MessageKey;
use crate::message::MessagePayload;
use crate::range::range_len;
use crate::range::checked_len;
use crate::range::MessageNonce;
use crate::weight::Weight;
use vstd::laws_eq::obeys_concrete_eq;
use vstd::prelude::*;

verus! {

/// Bounds of the queue of unrewarded relayers of an inbound lane.
#[derive(Clone, Copy, Debug, PartialEq, Eq, Structural)]
pub struct InboundLaneLimits {
    /// Maximal number of entries in the queue of unrewarded relayers.
    pub max_unrewarded_relayer_entries: MessageNonce,
    /// Maximal number of messages that may be delivered and not yet confirmed.
    pub max_unconfirmed_messages: MessageNonce,
}

/// Why a lane refuses a message.
#[derive(Clone, Copy, Debug, PartialEq, Eq, Structural)]
pub enum Rejection {
    /// The message does not directly follow the last delivered message.
    InvalidNonce,
    /// There are too many unrewarded relayer entries at the lane.
    TooManyUnrewardedRelayers,
    /// There are too many unconfirmed messages at the lane.
    TooManyUnconfirmedMessages,
}

/// What the dispatcher reports after it has dispatched a message.
#[derive(Clone, Debug, PartialEq, Eq)]
pub struct MessageDispatchResult<DispatchLevelResult> {
    /// Part of the weight declared for the message that its dispatch has not used.
    pub unspent_weight: Weight,
    /// Outcome of the dispatch, in the terms of the dispatcher.
    pub dispatch_level_result: DispatchLevelResult,
}

/// Result of single message receival.
#[derive(Clone, Debug, PartialEq, Eq)]
pub enum ReceptionResult<DispatchLevelResult> {
    /// Message has been received and dispatched. Whether the dispatch itself has been
    /// successful does not matter here; its result is carried along.
    Dispatched(MessageDispatchResult<DispatchLevelResult>),
    /// Message has invalid nonce and lane has rejected to accept this message.
    InvalidNonce,
    /// There are too many unrewarded relayer entries at the lane.
    TooManyUnrewardedRelayers,
    /// There are too many unconfirmed messages at the lane.
    TooManyUnconfirmedMessages,
}

impl<DispatchLevelResult> ReceptionResult<DispatchLevelResult> {
    /// The reception result that reports `rejection`.
    pub open spec fn rejected(rejection: Rejection) -> Self {
        match rejection {
            Rejection::InvalidNonce => ReceptionResult::InvalidNonce,
            Rejection::TooManyUnrewardedRelayers => ReceptionResult::TooManyUnrewardedRelayers,
            Rejection::TooManyUnconfirmedMessages => ReceptionResult::TooManyUnconfirmedMessages,
        }
    }

    /// Turns the refusal of a lane into the result reported for the message.
    pub fn from_rejection(rejection: Rejection) -> (result: Self)
        ensures
            result == Self::rejected(rejection),
    {
        match rejection {
            Rejection::InvalidNonce => ReceptionResult::InvalidNonce,
            Rejection::TooManyUnrewardedRelayers => ReceptionResult::TooManyUnrewardedRelayers,
            Rejection::TooManyUnconfirmedMessages => ReceptionResult::TooManyUnconfirmedMessages,
        }
    }

    /// Returns true if the message has been accepted by the lane and dispatched.
    pub fn is_dispatched(&self) -> (dispatched: bool)
        ensures
            dispatched == (*self is Dispatched),
    {
        match self {
            ReceptionResult::Dispatched(_) => true,
            _ => false,
        }
    }
}

/// Received messages with their dispatch result.
#[derive(Clone, Debug, PartialEq, Eq)]
pub struct ReceivedMessages<DispatchLevelResult, LaneId> {
    /// Id of the lane which is receiving messages.
    pub lane: LaneId,
    /// Result of messages which we tried to dispatch.
    pub receive_results: Vec<(MessageNonce, ReceptionResult<DispatchLevelResult>)>,
}

impl<DispatchLevelResult, LaneId> ReceivedMessages<DispatchLevelResult, LaneId> {
    /// Creates new `ReceivedMessages` structure from given results.
    pub fn new(
        lane: LaneId,
        receive_results: Vec<(MessageNonce, ReceptionResult<DispatchLevelResult>)>,
    ) -> (received: Self)
        ensures
            received.lane == lane,
            received.receive_results == receive_results,
    {
        ReceivedMessages { lane, receive_results }
    }

    /// Push `result` of the `message` delivery onto `receive_results` vector.
    pub fn push(&mut self, message: MessageNonce, result: ReceptionResult<DispatchLevelResult>)
        ensures
            final(self).lane == old(self).lane,
            final(self).receive_results@ == old(self).receive_results@.push((message, result)),
    {
        self.receive_results.push((message, result));
    }
}

/// The party that executes the messages that a lane has accepted.
pub trait MessageDispatch<LaneId> {
    /// Fine-grained outcome of a dispatch.
    type DispatchLevelResult;

    /// Dispatches the message stored under `key`. A lane calls this once for every
    /// message that it accepts, in the order of their nonces.
    fn dispatch(&mut self, key: MessageKey<LaneId>, payload: &MessagePayload) -> MessageDispatchResult<
        Self::DispatchLevelResult,
    >;
}

impl<RelayerId> InboundLaneModel<RelayerId> {
    /// Whether a message delivered by `relayer` would be added to the newest entry of
    /// the queue rather than get an entry of its own.
    pub open spec fn extends_last_entry(self, relayer: RelayerId) -> bool {
        self.relayers.len() > 0 && self.relayers.last().relayer == relayer
    }

    /// Number of unrewarded messages in the queue once the message `nonce` has been
    /// added at its newest end.
    pub open spec fn unrewarded_messages_with(self, nonce: MessageNonce) -> nat {
        if self.relayers.len() == 0 {
            1
        } else {
            range_len(self.relayers.first().messages.begin, nonce)
        }
    }

    /// Why the lane refuses the message `nonce` from `relayer`, if it does.
    ///
    /// The message must directly follow the last delivered one. It must not need a
    /// new entry in a queue that is full of entries. And with it the queue must not
    /// hold more unrewarded messages than the lane allows.
    pub open spec fn rejection(
        self,
        relayer: RelayerId,
        nonce: MessageNonce,
        limits: InboundLaneLimits,
    ) -> Option<Rejection> {
        if nonce != self.last_delivered_nonce() + 1 {
            Some(Rejection::InvalidNonce)
        } else if !self.extends_last_entry(relayer) && self.relayers.len()
            >= limits.max_unrewarded_relayer_entries {
            Some(Rejection::TooManyUnrewardedRelayers)
        } else if self.unrewarded_messages_with(nonce) > limits.max_unconfirmed_messages {
            Some(Rejection::TooManyUnconfirmedMessages)
        } else {
            None
        }
    }

    /// The lane after the message `nonce` has been delivered by `relayer`: the newest
    /// entry grows if it belongs to that relayer, else the relayer gets a new entry.
    pub open spec fn deliver(self, relayer: RelayerId, nonce: MessageNonce) -> Self {
        if self.extends_last_entry(relayer) {
            let last = self.relayers.last();
            InboundLaneModel {
                relayers: self.relayers.drop_last().push(
                    UnrewardedRelayer {
                        relayer: last.relayer,
                        messages: DeliveredMessages { begin: last.messages.begin, end: nonce },
                    },
                ),
                ..self
            }
        } else {
            InboundLaneModel {
                relayers: self.relayers.push(
                    UnrewardedRelayer {
                        relayer,
                        messages: DeliveredMessages { begin: nonce, end: nonce },
                    },
                ),
                ..self
            }
        }
    }

    /// The lane after `relayer` has delivered all of `nonces`, one after another.
    pub open spec fn deliver_all(self, relayer: RelayerId, nonces: Seq<MessageNonce>) -> Self
        decreases nonces.len(),
    {
        if nonces.len() == 0 {
            self
        } else {
            self.deliver_all(relayer, nonces.drop_last()).deliver(relayer, nonces.last())
        }
    }

    /// Index of the first of `nonces`, counting from `from`, that the lane refuses
    /// when `relayer` delivers them one after another; their number if it takes all.
    pub open spec fn first_rejected(
        self,
        relayer: RelayerId,
        nonces: Seq<MessageNonce>,
        limits: InboundLaneLimits,
        from: int,
    ) -> int
        decreases nonces.len() - from,
    {
        if from < 0 || from >= nonces.len() {
            nonces.len() as int
        } else if self.rejection(relayer, nonces[from], limits) is Some {
            from
        } else {
            self.deliver(relayer, nonces[from]).first_rejected(relayer, nonces, limits, from + 1)
        }
    }

    /// Number of messages at the head of `nonces` that the lane accepts from `relayer`
    /// before it refuses one.
    pub open spec fn accepted_count(
        self,
        relayer: RelayerId,
        nonces: Seq<MessageNonce>,
        limits: InboundLaneLimits,
    ) -> int {
        self.first_rejected(relayer, nonces, limits, 0)
    }
}

/// The nonces of a batch of messages, in the order of the batch.
pub open spec fn nonces_of(messages: Seq<(MessageNonce, MessagePayload)>) -> Seq<MessageNonce> {
    messages.map_values(|message: (MessageNonce, MessagePayload)| message.0)
}

impl<RelayerId: Copy + PartialEq> InboundLaneData<RelayerId> {
    /// Checks the message `nonce` that `relayer` wants to deliver against the lane.
    /// Returns the reason of the refusal, or `None` if the lane admits the message.
    pub fn check_message(
        &self,
        relayer: &RelayerId,
        nonce: MessageNonce,
        limits: &InboundLaneLimits,
    ) -> (rejection: Option<Rejection>)
        requires
            obeys_concrete_eq::<RelayerId>(),
        ensures
            rejection == self@.rejection(*relayer, nonce, *limits),
    {
        proof {
            reveal(obeys_concrete_eq);
        }
        let last_delivered: MessageNonce = self.last_delivered_nonce();
        if last_delivered == MessageNonce::MAX || nonce != last_delivered + 1 {
            return Some(Rejection::InvalidNonce);
        }
        let len: usize = self.relayers.len();
        let extends: bool = len > 0 && self.relayers[len - 1].relayer == *relayer;
        if !extends && len as u64 >= limits.max_unrewarded_relayer_entries {
            return Some(Rejection::TooManyUnrewardedRelayers);
        }
        let oldest: MessageNonce = if len == 0 {
            nonce
        } else {
            self.relayers[0].messages.begin
        };
        let fits: bool = if oldest <= nonce {
            match checked_len(oldest, nonce) {
                Some(unrewarded) => unrewarded <= limits.max_unconfirmed_messages,
                None => false,
            }
        } else {
            true
        };
        if !fits {
            return Some(Rejection::TooManyUnconfirmedMessages);
        }
        None
    }

    /// Records that `relayer` has delivered the message `nonce`.
    ///
    /// The newest entry of the queue grows by this message if it belongs to `relayer`;
    /// otherwise the relayer gets a new entry at the newest end of the queue.
    pub fn note_delivery(&mut self, relayer: RelayerId, nonce: MessageNonce)
        requires
            obeys_concrete_eq::<RelayerId>(),
        ensures
            final(self)@ == old(self)@.deliver(relayer, nonce),
    {
        proof {
            reveal(obeys_concrete_eq);
        }
        let len: usize = self.relayers.len();
        let extends: bool = len > 0 && self.relayers[len - 1].relayer == relayer;
        if extends {
            let last = self.relayers.pop_back();
            match last {
                Some(entry) => {
                    self.relayers.push_back(
                        UnrewardedRelayer {
                            relayer: entry.relayer,
                            messages: DeliveredMessages { begin: entry.messages.begin, end: nonce },
                        },
                    );
                },
                None => {},
            }
        } else {
            self.relayers.push_back(
                UnrewardedRelayer { relayer, messages: DeliveredMessages::new(nonce) },
            );
        }
    }

    /// Records the delivery of a message that the lane has admitted and that has been
    /// dispatched with `dispatch_result`, and reports the message as dispatched.
    pub fn accept_message<DispatchLevelResult>(
        &mut self,
        relayer: RelayerId,
        nonce: MessageNonce,
        dispatch_result: MessageDispatchResult<DispatchLevelResult>,
    ) -> (result: ReceptionResult<DispatchLevelResult>)
        requires
            obeys_concrete_eq::<RelayerId>(),
        ensures
            result == ReceptionResult::Dispatched(dispatch_result),
            final(self)@ == old(self)@.deliver(relayer, nonce),
    {
        self.note_delivery(relayer, nonce);
        ReceptionResult::Dispatched(dispatch_result)
    }

    /// Receives one message: checks it against the lane, and if the lane admits it,
    /// hands it to `dispatch` and records its delivery by `relayer`.
    ///
    /// A refused message is not dispatched and leaves the lane as it was.
    fn receive_admitted<LaneId, Dispatch: MessageDispatch<LaneId>>(
        &mut self,
        lane: LaneId,
        relayer: &RelayerId,
        nonce: MessageNonce,
        payload: &MessagePayload,
        dispatch: &mut Dispatch,
        limits: &InboundLaneLimits,
    ) -> (result: ReceptionResult<Dispatch::DispatchLevelResult>)
        requires
            obeys_concrete_eq::<RelayerId>(),
        ensures
            match old(self)@.rejection(*relayer, nonce, *limits) {
                Some(rejection) => {
                    &&& result == ReceptionResult::<Dispatch::DispatchLevelResult>::rejected(
                        rejection,
                    )
                    &&& final(self)@ == old(self)@
                },
                None => {
                    &&& result is Dispatched
                    &&& final(self)@ == old(self)@.deliver(*relayer, nonce)
                },
            },
            old(self).wf() ==> final(self).wf(),
    {
        match self.check_message(relayer, nonce, limits) {
            Some(rejection) => ReceptionResult::from_rejection(rejection),
            None => {
                proof {
                    if self.wf() {
                        lemma_delivery_keeps_queue_unbroken(self@, *relayer, nonce, *limits);
                    }
                }
                let dispatch_result = dispatch.dispatch(
                    MessageKey { lane_id: lane, nonce },
                    payload,
                );
                self.accept_message(*relayer, nonce, dispatch_result)
            },
        }
    }

    /// Receives the message `nonce` with `payload` that `relayer` has brought.
    ///
    /// Fails without touching the lane if the lane is closed. Otherwise the message
    /// is checked against the lane; if the lane admits it, it is dispatched and its
    /// delivery is recorded, else the reason of the refusal is returned and the lane
    /// stays as it was.
    pub fn receive_message<LaneId, Dispatch: MessageDispatch<LaneId>>(
        &mut self,
        lane: LaneId,
        relayer: &RelayerId,
        nonce: MessageNonce,
        payload: &MessagePayload,
        dispatch: &mut Dispatch,
        limits: &InboundLaneLimits,
    ) -> (result: Result<ReceptionResult<Dispatch::DispatchLevelResult>, LaneClosed>)
        requires
            obeys_concrete_eq::<RelayerId>(),
        ensures
            result is Err <==> old(self).state == LaneState::Closed,
            result is Err ==> final(self)@ == old(self)@,
            result is Ok ==> match old(self)@.rejection(*relayer, nonce, *limits) {
                Some(rejection) => {
                    &&& result->Ok_0 == ReceptionResult::<
                        Dispatch::DispatchLevelResult,
                    >::rejected(rejection)
                    &&& final(self)@ == old(self)@
                },
                None => {
                    &&& result->Ok_0 is Dispatched
                    &&& final(self)@ == old(self)@.deliver(*relayer, nonce)
                },
            },
            old(self).wf() ==> final(self).wf(),
    {
        if !self.state.is_opened() {
            return Err(LaneClosed);
        }
        Ok(self.receive_admitted(lane, relayer, nonce, payload, dispatch, limits))
    }

    /// Receives a batch of messages that `relayer` has brought to the lane `lane`.
    ///
    /// Fails without touching the lane if the lane is closed. Otherwise the messages
    /// are received one after another, in the order of the batch. Every message that
    /// the lane admits is dispatched and recorded. The first message that the lane
    /// refuses ends the batch: it is reported with the reason of the refusal, and the
    /// messages behind it are not attempted, because a lane takes messages without
    /// gaps only. The result holds one entry for every attempted message.
    pub fn receive_messages<LaneId: Copy, Dispatch: MessageDispatch<LaneId>>(
        &mut self,
        lane: LaneId,
        relayer: &RelayerId,
        messages: &Vec<(MessageNonce, MessagePayload)>,
        dispatch: &mut Dispatch,
        limits: &InboundLaneLimits,
    ) -> (result: Result<ReceivedMessages<Dispatch::DispatchLevelResult, LaneId>, LaneClosed>)
        requires
            obeys_concrete_eq::<RelayerId>(),
        ensures
            result is Err <==> old(self).state == LaneState::Closed,
            result is Err ==> final(self)@ == old(self)@,
            result is Ok ==> ({
                let nonces = nonces_of(messages@);
                let accepted = old(self)@.accepted_count(*relayer, nonces, *limits);
                let before_refusal = old(self)@.deliver_all(*relayer, nonces.take(accepted));
                let results = result->Ok_0.receive_results@;
                &&& result->Ok_0.lane == lane
                &&& 0 <= accepted <= nonces.len()
                &&& final(self)@ == before_refusal
                &&& results.len() == if accepted < nonces.len() {
                    accepted + 1
                } else {
                    accepted
                }
                &&& forall|i: int|
                    0 <= i < accepted ==> (#[trigger] results[i]).0 == nonces[i]
                        && results[i].1 is Dispatched
                &&& accepted < nonces.len() ==> {
                    &&& before_refusal.rejection(*relayer, nonces[accepted], *limits) is Some
                    &&& results[accepted] == (
                        nonces[accepted],
                        ReceptionResult::<Dispatch::DispatchLevelResult>::rejected(
                            before_refusal.rejection(*relayer, nonces[accepted], *limits)->0,
                        ),
                    )
                }
            }),
            old(self).wf() ==> final(self).wf(),
    {
        if !self.state.is_opened() {
            return Err(LaneClosed);
        }
        let ghost nonces = nonces_of(messages@);
        let ghost accepted = old(self)@.accepted_count(*relayer, nonces, *limits);
        let mut received = ReceivedMessages::new(lane, Vec::new());
        let mut index: usize = 0;
        let mut refused: bool = false;
        assert(nonces.take(0) =~= Seq::<MessageNonce>::empty());
        while index < messages.len() && !refused
            invariant
                obeys_concrete_eq::<RelayerId>(),
                nonces == nonces_of(messages@),
                nonces.len() == messages@.len(),
                accepted == old(self)@.accepted_count(*relayer, nonces, *limits),
                received.lane == lane,
                0 <= index <= messages@.len(),
                old(self).wf() ==> self.wf(),
                !refused ==> {
                    &&& accepted == self@.first_rejected(*relayer, nonces, *limits, index as int)
                    &&& self@ == old(self)@.deliver_all(*relayer, nonces.take(index as int))
                    &&& received.receive_results@.len() == index
                    &&& forall|i: int|
                        0 <= i < index ==> (#[trigger] received.receive_results@[i]).0 == nonces[i]
                            && received.receive_results@[i].1 is Dispatched
                },
                refused ==> {
                    &&& 0 <= accepted < nonces.len()
                    &&& index == accepted + 1
                    &&& self@ == old(self)@.deliver_all(*relayer, nonces.take(accepted))
                    &&& received.receive_results@.len() == accepted + 1
                    &&& forall|i: int|
                        0 <= i < accepted ==> (#[trigger] received.receive_results@[i]).0
                            == nonces[i] && received.receive_results@[i].1 is Dispatched
                    &&& self@.rejection(*relayer, nonces[accepted], *limits) is Some
                    &&& received.receive_results@[accepted] == (
                        nonces[accepted],
                        ReceptionResult::<Dispatch::DispatchLevelResult>::rejected(
                            self@.rejection(*relayer, nonces[accepted], *limits)->0,
                        ),
                    )
                },
            decreases messages@.len() - index,
        {
            let nonce: MessageNonce = messages[index].0;
            let ghost before = self@;
            let ghost results_before = received.receive_results@;
            assert(nonces[index as int] == nonce);
            let outcome = self.receive_admitted(
                lane,
                relayer,
                nonce,
                &messages[index].1,
                dispatch,
                limits,
            );
            refused = !outcome.is_dispatched();
            received.push(nonce, outcome);
            proof {
                assert(nonces.take(index + 1).drop_last() =~= nonces.take(index as int));
                assert(nonces.take(index + 1).last() == nonce);
                assert forall|i: int| 0 <= i < index implies (
                #[trigger] received.receive_results@[i]).0 == nonces[i]
                    && received.receive_results@[i].1 is Dispatched by {
                    assert(received.receive_results@[i] == results_before[i]);
                }
            }
            index = index + 1;
        }
        proof {
            if !refused {
                assert(nonces.take(accepted) =~= nonces.take(index as int));
            }
        }
        Ok(received)
    }
}

/// A lane with an unbroken queue keeps it unbroken when it accepts a message.
pub proof fn lemma_delivery_keeps_queue_unbroken<RelayerId>(
    lane: InboundLaneModel<RelayerId>,
    relayer: RelayerId,
    nonce: MessageNonce,
    limits: InboundLaneLimits,
)
    requires
        lane.wf(),
        lane.rejection(relayer, nonce, limits) is None,
    ensures
        lane.deliver(relayer, nonce).wf(),
        lane.deliver(relayer, nonce).last_delivered_nonce() == nonce,
        lane.deliver(relayer, nonce).last_confirmed_nonce == lane.last_confirmed_nonce,
        lane.deliver(relayer, nonce).state == lane.state,
{
    let after = lane.deliver(relayer, nonce);
    let len = lane.relayers.len() as int;
    if lane.extends_last_entry(relayer) {
        assert(after.relayers.len() == len);
        assert forall|i: int| 0 <= i < len - 1 implies after.relayers[i] == lane.relayers[i] by {}
        assert(lane.relayers[len - 1].messages.wf());
        assert forall|i: int| 0 < i < after.relayers.len() implies (
        #[trigger] after.relayers[i]).messages.begin == after.relayers[i - 1].messages.end + 1 by {
            assert(lane.relayers[i].messages.begin == lane.relayers[i - 1].messages.end + 1);
        }
    } else {
        assert forall|i: int| 0 <= i < len implies after.relayers[i] == lane.relayers[i] by {}
        assert forall|i: int| 0 < i < after.relayers.len() implies (
        #[trigger] after.relayers[i]).messages.begin == after.relayers[i - 1].messages.end + 1 by {
            if i < len {
                assert(lane.relayers[i].messages.begin == lane.relayers[i - 1].messages.end + 1);
            }
        }
    }
}

/// In an unbroken queue the number of unrewarded messages with the next message is the
/// distance of that message from the last confirmed nonce.
pub proof fn lemma_unconfirmed_count_of_unbroken_queue<RelayerId>(
    lane: InboundLaneModel<RelayerId>,
    nonce: MessageNonce,
)
    requires
        lane.wf(),
        nonce == lane.last_delivered_nonce() + 1,
    ensures
        lane.unrewarded_messages_with(nonce) == nonce - lane.last_confirmed_nonce,
{
    crate::inbound::lemma_unrewarded_messages_of_unbroken_queue(lane);
    if lane.relayers.len() > 0 {
        assert(lane.relayers[0].messages.wf());
    }
}

/// A queue within the limits of the lane stays within them when the lane accepts a
/// message: it gets no more entries and holds no more messages than the lane allows.
pub proof fn lemma_delivery_respects_limits<RelayerId>(
    lane: InboundLaneModel<RelayerId>,
    relayer: RelayerId,
    nonce: MessageNonce,
    limits: InboundLaneLimits,
)
    requires
        lane.relayers.len() <= limits.max_unrewarded_relayer_entries,
        lane.rejection(relayer, nonce, limits) is None,
    ensures
        lane.deliver(relayer, nonce).relayers.len() <= limits.max_unrewarded_relayer_entries,
        lane.deliver(relayer, nonce).unrewarded_messages() <= limits.max_unconfirmed_messages,
        lane.deliver(relayer, nonce).unrewarded_messages() == lane.unrewarded_messages_with(nonce),
{
    let after = lane.deliver(relayer, nonce);
    if lane.extends_last_entry(relayer) {
        if lane.relayers.len() > 1 {
            assert(after.relayers.first() == lane.relayers.first());
        }
    } else if lane.relayers.len() > 0 {
        assert(after.relayers.first() == lane.relayers.first());
    }
}

/// A batch whose first message does not directly follow the last delivered message
/// is refused as a whole: its first message has an invalid nonce, no message of the
/// batch is accepted and the lane stays as it was.
pub proof fn lemma_gap_refuses_batch<RelayerId>(
    lane: InboundLaneModel<RelayerId>,
    relayer: RelayerId,
    nonces: Seq<MessageNonce>,
    limits: InboundLaneLimits,
)
    requires
        nonces.len() > 0,
        nonces[0] != lane.last_delivered_nonce() + 1,
    ensures
        lane.rejection(relayer, nonces[0], limits) == Some(Rejection::InvalidNonce),
        lane.accepted_count(relayer, nonces, limits) == 0,
        lane.deliver_all(relayer, nonces.take(0)) == lane,
{
    assert(nonces.take(0) =~= Seq::<MessageNonce>::empty());
}

/// A lane accepts the messages of a batch for as long as they follow one another; it
/// never accepts a message behind a gap. If it accepts the first `count` messages,
/// these continue the nonces of the lane without a gap.
pub proof fn lemma_accepted_messages_are_consecutive<RelayerId>(
    lane: InboundLaneModel<RelayerId>,
    relayer: RelayerId,
    nonces: Seq<MessageNonce>,
    limits: InboundLaneLimits,
    from: int,
)
    requires
        lane.wf(),
        0 <= from <= nonces.len(),
    ensures
        from <= lane.first_rejected(relayer, nonces, limits, from) <= nonces.len(),
        forall|i: int|
            from <= i < lane.first_rejected(relayer, nonces, limits, from) ==> #[trigger] nonces[i]
                == lane.last_delivered_nonce() + 1 + (i - from),
    decreases nonces.len() - from,
{
    if from < nonces.len() && lane.rejection(relayer, nonces[from], limits) is None {
        lemma_delivery_keeps_queue_unbroken(lane, relayer, nonces[from], limits);
        lemma_accepted_messages_are_consecutive(
            lane.deliver(relayer, nonces[from]),
            relayer,
            nonces,
            limits,
            from + 1,
        );
    }
}

} // verus!
