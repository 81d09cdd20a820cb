use std::collections::HashMap;
use std::collections::VecDeque;
use std::marker::PhantomData;
use std::sync::Arc;
use vstd::prelude::*;

use crate::abstractions::MyServiceBusSubscriberClient;
use crate::message_id::MessageId;
use crate::my_sb_message::MySbMessage;
use crate::queue_with_intervals::QueueWithIntervals;

verus! {

/// Decodes a message's payload into the application's contract type.
pub trait MySbMessageDeserializer {
    type Item;

    fn deserialize(
        src: &[u8],
        headers: &Option<HashMap<String, String>>,
    ) -> Result<Self::Item, String>;
}

/// A delivered message whose payload has been decoded.
pub struct MySbDeliveredMessage<TMessageModel> {
    pub id: MessageId,
    pub attempt_no: i32,
    pub headers: Option<HashMap<String, String>>,
    pub content: TMessageModel,
    pub raw: Vec<u8>,
}

/// The one acknowledgment a batch resolves to.
pub enum DeliveryConfirmation {
    /// Every message was handled.
    Delivered,
    /// No message was handled.
    AllFailed,
    /// Only the ids in the set were handled.
    Partial(QueueWithIntervals),
}

/// The ids of a sequence of delivered messages, as message ids.
pub open spec fn raw_ids(s: Seq<MySbMessage>) -> Seq<MessageId> {
    s.map_values(|m: MySbMessage| m.id)
}

/// `m` was decoded from `raw`.
pub open spec fn delivered_from<TMessageModel>(
    m: MySbDeliveredMessage<TMessageModel>,
    raw: MySbMessage,
) -> bool {
    &&& m.id == raw.id
    &&& m.attempt_no == raw.attempt_no
    &&& m.headers == raw.headers
    &&& m.raw == raw.content
}

/// Each of `r` was decoded from a message of `src`, in the order of `src`.
pub open spec fn decoded_in_order<TMessageModel>(
    r: Seq<MySbDeliveredMessage<TMessageModel>>,
    src: Seq<MySbMessage>,
) -> bool {
    exists|idx: Seq<int>| #[trigger] decoded_at(r, src, idx)
}

/// `r[j]` was decoded from `src[idx[j]]`, and `idx` ascends.
pub open spec fn decoded_at<TMessageModel>(
    r: Seq<MySbDeliveredMessage<TMessageModel>>,
    src: Seq<MySbMessage>,
    idx: Seq<int>,
) -> bool {
    &&& idx.len() == r.len()
    &&& forall|j: int|
        0 <= j < idx.len() ==> 0 <= #[trigger] idx[j] < src.len() && delivered_from(
            r[j],
            src[idx[j]],
        )
    &&& forall|j: int, k: int| 0 <= j < k < idx.len() ==> #[trigger] idx[j] < #[trigger] idx[k]
}

/// The acknowledgment owed for a batch of `total` messages of which the ids in
/// `handled` were handled.
pub open spec fn confirmation_for(
    r: DeliveryConfirmation,
    handled: Set<int>,
    total: nat,
) -> bool {
    if handled.len() == total {
        r is Delivered
    } else if handled.len() == 0 {
        r is AllFailed
    } else {
        r matches DeliveryConfirmation::Partial(q) && q.wf() && q@ == handled
    }
}

/// How a batch of `total` distinct ids resolves: every id handled gives one
/// full confirmation as delivered, none handled one full confirmation as
/// failed, and anything between one partial confirmation of exactly the
/// handled ids.
pub proof fn lemma_batch_resolution(
    r: DeliveryConfirmation,
    handled: Set<int>,
    batch: Set<int>,
    total: nat,
)
    requires
        confirmation_for(r, handled, total),
        handled.subset_of(batch),
        batch.finite(),
        batch.len() == total,
    ensures
        handled == batch ==> r is Delivered,
        handled.is_empty() && total > 0 ==> r is AllFailed,
        !handled.is_empty() && handled != batch ==> (r matches DeliveryConfirmation::Partial(q)
            && q.wf() && q@ == handled),
{
    vstd::set_lib::lemma_len_subset(handled, batch);
    if handled.len() == batch.len() {
        vstd::set_lib::lemma_subset_equality(handled, batch);
    }
    vstd::set_lib::lemma_set_empty_equivalency_len(handled);
}

/// One inbound batch under one confirmation id. Messages are handed out in the
/// order of delivery; those the application marks as handled are collected,
/// and `release` sends the one acknowledgment the batch resolves to.
pub struct MessagesReader<TMessageModel> {
    topic_id: String,
    queue_id: String,
    confirmation_id: i64,
    total_messages_amount: usize,
    messages: VecDeque<MySbMessage>,
    taken: bool,
    delivered: QueueWithIntervals,
    released: bool,
    deserialize_errors: Vec<(MessageId, String)>,
    model: PhantomData<TMessageModel>,
}

impl<TMessageModel> MessagesReader<TMessageModel> {
    /// The handled ids are held as well-formed ranges.
    pub closed spec fn wf(&self) -> bool {
        self.delivered.wf()
    }

    /// Number of messages in the batch as delivered.
    pub closed spec fn total(&self) -> nat {
        self.total_messages_amount as nat
    }

    /// Ids marked as handled.
    pub closed spec fn handled(&self) -> Set<int> {
        self.delivered@
    }

    /// Messages not yet handed out.
    pub closed spec fn pending(&self) -> Seq<MySbMessage> {
        self.messages@
    }

    /// Whether `get_all` has already handed out the pending messages.
    pub closed spec fn is_taken(&self) -> bool {
        self.taken
    }

    /// The broker's token for this batch's acknowledgment.
    pub closed spec fn confirmation(&self) -> i64 {
        self.confirmation_id
    }

    /// The messages that did not decode, with the decoder's reason, in order
    /// of delivery.
    pub closed spec fn errors(&self) -> Seq<(MessageId, String)> {
        self.deserialize_errors@
    }

    /// Ids of the messages that did not decode, in order of delivery.
    pub open spec fn failed(&self) -> Seq<MessageId> {
        self.errors().map_values(|e: (MessageId, String)| e.0)
    }

    pub closed spec fn is_released(&self) -> bool {
        self.released
    }

    /// `self` is the same batch as `other`, in the same state of release.
    pub open spec fn same_batch(&self, other: &Self) -> bool {
        &&& self.total() == other.total()
        &&& self.confirmation() == other.confirmation()
        &&& self.topic() == other.topic()
        &&& self.queue() == other.queue()
        &&& self.is_released() == other.is_released()
    }

    pub closed spec fn topic(&self) -> Seq<char> {
        self.topic_id@
    }

    pub closed spec fn queue(&self) -> Seq<char> {
        self.queue_id@
    }
}

impl<TMessageModel: MySbMessageDeserializer<Item = TMessageModel>> MessagesReader<TMessageModel> {
    pub fn new(
        topic_id: String,
        queue_id: String,
        messages: Vec<MySbMessage>,
        confirmation_id: i64,
    ) -> (r: Self)
        ensures
            r.wf(),
            r.total() == messages@.len(),
            r.pending() == messages@,
            r.handled() == Set::<int>::empty(),
            r.errors() == Seq::<(MessageId, String)>::empty(),
            !r.is_taken(),
            !r.is_released(),
            r.confirmation() == confirmation_id,
            r.topic() == topic_id@,
            r.queue() == queue_id@,
    {
        let total_messages_amount = messages.len();
        let mut queue: VecDeque<MySbMessage> = VecDeque::with_capacity(total_messages_amount);
        for msg in it: messages
            invariant
                it.seq() == messages@,
                queue@ == messages@.take(it.index() as int),
        {
            queue.push_back(msg);
            proof {
                assert(queue@ =~= messages@.take(it.index() + 1));
            }
        }
        proof {
            assert(queue@ =~= messages@);
        }
        MessagesReader {
            topic_id,
            queue_id,
            confirmation_id,
            total_messages_amount,
            messages: queue,
            taken: false,
            delivered: QueueWithIntervals::new(),
            released: false,
            deserialize_errors: Vec::new(),
            model: PhantomData,
        }
    }

    /// The broker's token for this batch's acknowledgment.
    pub fn confirmation_id(&self) -> (r: i64)
        ensures
            r == self.confirmation(),
    {
        self.confirmation_id
    }

    /// The handled ids, as the ranges a partial confirmation carries.
    pub fn handled_snapshot(&self) -> (r: QueueWithIntervals)
        requires
            self.wf(),
        ensures
            r.wf(),
            r@ == self.handled(),
    {
        self.delivered.get_snapshot()
    }

    /// Number of messages in the batch as delivered.
    pub fn total_messages_amount(&self) -> (r: usize)
        ensures
            r == self.total(),
    {
        self.total_messages_amount
    }

    /// Marks `msg` as handled; marking an id twice counts it once.
    pub fn handled_ok(&mut self, msg: &MySbDeliveredMessage<TMessageModel>)
        requires
            old(self).wf(),
        ensures
            final(self).wf(),
            final(self).same_batch(old(self)),
            final(self).pending() == old(self).pending(),
            final(self).is_taken() == old(self).is_taken(),
            final(self).errors() == old(self).errors(),
            final(self).handled() == old(self).handled().insert(msg.id.0 as int),
    {
        self.delivered.enqueue(msg.id.0);
    }

    /// Takes in the decoder's result for `raw`: a decoded message is handed
    /// out as it came, a failure is recorded with its reason and hands out
    /// nothing.
    pub fn accept_decoded(&mut self, raw: MySbMessage, decoded: Result<TMessageModel, String>) -> (r:
        Option<MySbDeliveredMessage<TMessageModel>>)
        requires
            old(self).wf(),
        ensures
            final(self).wf(),
            final(self).same_batch(old(self)),
            final(self).pending() == old(self).pending(),
            final(self).is_taken() == old(self).is_taken(),
            final(self).handled() == old(self).handled(),
            match decoded {
                Ok(content) => {
                    &&& r == Some(
                        MySbDeliveredMessage {
                            id: raw.id,
                            attempt_no: raw.attempt_no,
                            headers: raw.headers,
                            content,
                            raw: raw.content,
                        },
                    )
                    &&& final(self).errors() == old(self).errors()
                },
                Err(reason) => {
                    &&& r is None
                    &&& final(self).errors() == old(self).errors().push((raw.id, reason))
                },
            },
    {
        match decoded {
            Ok(content) => Some(
                MySbDeliveredMessage {
                    id: raw.id,
                    attempt_no: raw.attempt_no,
                    headers: raw.headers,
                    content,
                    raw: raw.content,
                },
            ),
            Err(reason) => {
                self.deserialize_errors.push((raw.id, reason));
                None
            },
        }
    }

    /// Hands out the next pending message that decodes. A message that does
    /// not decode leaves the pending ones with its id and the decoder's reason
    /// recorded; it still counts toward the batch's total, never as handled.
    pub fn get_next_message(&mut self) -> (r: Option<MySbDeliveredMessage<TMessageModel>>)
        requires
            old(self).wf(),
        ensures
            final(self).wf(),
            final(self).same_batch(old(self)),
            final(self).handled() == old(self).handled(),
            final(self).is_taken() == old(self).is_taken(),
            final(self).pending().len() <= old(self).pending().len(),
            final(self).pending() == old(self).pending().skip(
                old(self).pending().len() - final(self).pending().len(),
            ),
            r is None ==> {
                &&& final(self).pending().len() == 0
                &&& final(self).failed() == old(self).failed() + raw_ids(old(self).pending())
            },
            r is Some ==> {
                let taken = old(self).pending().len() - final(self).pending().len();
                &&& taken > 0
                &&& delivered_from(r.unwrap(), old(self).pending()[taken - 1])
                &&& final(self).failed() == old(self).failed() + raw_ids(
                    old(self).pending().take(taken - 1),
                )
            },
    {
        let ghost start = self.pending();
        loop
            invariant
                self.wf(),
                self.same_batch(old(self)),
                self.handled() == old(self).handled(),
                self.is_taken() == old(self).is_taken(),
                start == old(self).pending(),
                self.pending().len() <= start.len(),
                self.pending() == start.skip(start.len() - self.pending().len()),
                self.failed() == old(self).failed() + raw_ids(
                    start.take(start.len() - self.pending().len()),
                ),
            decreases self.pending().len(),
        {
            let ghost before = self.pending();
            let ghost failed_before = self.failed();
            match self.messages.pop_front() {
                None => {
                    proof {
                        assert(start.take(start.len() as int) =~= start);
                    }
                    return None;
                },
                Some(raw) => {
                    proof {
                        assert(self.pending() =~= start.skip(start.len() - self.pending().len()));
                        assert(raw == start[start.len() - before.len()]);
                    }
                    let ghost raw_id = raw.id;
                    let decoded = TMessageModel::deserialize(raw.content.as_slice(), &raw.headers);
                    let delivered = self.accept_decoded(raw, decoded);
                    if delivered.is_some() {
                        return delivered;
                    }
                    proof {
                        let c = start.len() - before.len();
                        assert(start.take(c + 1) =~= start.take(c).push(start[c]));
                        assert(raw_ids(start.take(c + 1)) =~= raw_ids(start.take(c)).push(
                            raw_id,
                        ));
                        assert(self.failed() =~= failed_before.push(raw_id));
                    }
                },
            }
        }
    }

    /// On its first call, hands out every pending message that decodes, in
    /// order of delivery (possibly none); every later call gives `None`.
    pub fn get_all(&mut self) -> (r: Option<VecDeque<MySbDeliveredMessage<TMessageModel>>>)
        requires
            old(self).wf(),
        ensures
            final(self).wf(),
            final(self).same_batch(old(self)),
            final(self).handled() == old(self).handled(),
            final(self).is_taken(),
            r is None <==> old(self).is_taken(),
            r is None ==> final(self).pending() == old(self).pending() && final(self).errors()
                == old(self).errors(),
            r is Some ==> {
                &&& final(self).pending().len() == 0
                &&& decoded_in_order(r.unwrap()@, old(self).pending())
                &&& final(self).failed().len() + r.unwrap()@.len() == old(self).failed().len()
                    + old(self).pending().len()
                &&& final(self).failed().take(old(self).failed().len() as int)
                    == old(self).failed()
            },
    {
        if self.taken {
            return None;
        }
        let ghost start = self.pending();
        let mut result: VecDeque<MySbDeliveredMessage<TMessageModel>> = VecDeque::new();
        let ghost mut idx: Seq<int> = Seq::empty();
        loop
            invariant
                self.wf(),
                !self.taken,
                !old(self).is_taken(),
                self.same_batch(old(self)),
                self.handled() == old(self).handled(),
                start == old(self).pending(),
                self.pending().len() <= start.len(),
                self.pending() == start.skip(start.len() - self.pending().len()),
                decoded_at(result@, start, idx),
                forall|j: int|
                    0 <= j < idx.len() ==> #[trigger] idx[j] < start.len() - self.pending().len(),
                self.failed().len() + result@.len() == old(self).failed().len() + start.len()
                    - self.pending().len(),
                old(self).failed().len() <= self.failed().len(),
                self.failed().take(old(self).failed().len() as int) == old(self).failed(),
            decreases self.pending().len(),
        {
            let ghost before = self.pending();
            let ghost failed_before = self.failed();
            match self.get_next_message() {
                None => {
                    proof {
                        assert(self.failed().take(old(self).failed().len() as int)
                            =~= failed_before.take(old(self).failed().len() as int));
                    }
                    self.taken = true;
                    return Some(result);
                },
                Some(m) => {
                    let ghost prev = result@;
                    proof {
                        assert(self.failed().take(old(self).failed().len() as int)
                            =~= failed_before.take(old(self).failed().len() as int));
                        let k = start.len() - self.pending().len() - 1;
                        assert(before == start.skip(start.len() - before.len()));
                        assert(start[k] == before[before.len() - self.pending().len() - 1]);
                        idx = idx.push(k);
                    }
                    result.push_back(m);
                    proof {
                        let r = result@;
                        assert forall|j: int, l: int| 0 <= j < l < idx.len() implies #[trigger] idx[j]
                            < #[trigger] idx[l] by {
                            if l == idx.len() - 1 {
                                assert(idx[j] < start.len() - before.len());
                            }
                        }
                        assert forall|j: int| 0 <= j < idx.len() implies 0 <= #[trigger] idx[j]
                            < start.len() && delivered_from(r[j], start[idx[j]]) by {
                            if j < idx.len() - 1 {
                                assert(r[j] == prev[j]);
                            }
                        }
                    }
                },
            }
        }
    }

    /// The messages that did not decode, with the decoder's reason.
    pub fn get_deserialize_errors(&self) -> (r: &[(MessageId, String)])
        ensures
            r@ == self.errors(),
    {
        self.deserialize_errors.as_slice()
    }

    /// The acknowledgment the batch resolves to as it stands.
    pub fn acknowledgment(&self) -> (r: DeliveryConfirmation)
        requires
            self.wf(),
        ensures
            confirmation_for(r, self.handled(), self.total()),
    {
        let handled = self.delivered.capped_count(self.total_messages_amount as u128 + 1);
        if handled == self.total_messages_amount as u128 {
            DeliveryConfirmation::Delivered
        } else if handled == 0 {
            DeliveryConfirmation::AllFailed
        } else {
            DeliveryConfirmation::Partial(self.delivered.get_snapshot())
        }
    }

    /// Resolves the batch, once: the first call returns the acknowledgment to
    /// send to the transport, later calls return `None`.
    pub fn release(&mut self) -> (r: Option<DeliveryConfirmation>)
        requires
            old(self).wf(),
        ensures
            final(self).wf(),
            final(self).is_released(),
            final(self).handled() == old(self).handled(),
            final(self).pending() == old(self).pending(),
            final(self).is_taken() == old(self).is_taken(),
            final(self).errors() == old(self).errors(),
            final(self).total() == old(self).total(),
            final(self).confirmation() == old(self).confirmation(),
            old(self).is_released() ==> r is None,
            !old(self).is_released() ==> r is Some && confirmation_for(
                r.unwrap(),
                old(self).handled(),
                old(self).total(),
            ),
    {
        if self.released {
            return None;
        }
        let decision = self.acknowledgment();
        self.released = true;
        Some(decision)
    }
}

/// What every batch of one subscription shares: where it comes from and the
/// transport that acknowledges it.
pub struct SubscriberData<TClient> {
    pub topic_id: String,
    pub queue_id: String,
    pub client: Arc<TClient>,
}

impl<TClient: MyServiceBusSubscriberClient> SubscriberData<TClient> {
    /// Wraps a delivered batch for handling; nothing is decoded yet.
    pub fn new_messages_reader<TMessageModel: MySbMessageDeserializer<Item = TMessageModel>>(
        &self,
        messages: Vec<MySbMessage>,
        confirmation_id: i64,
    ) -> (r: MessagesReader<TMessageModel>)
        ensures
            r.wf(),
            r.total() == messages@.len(),
            r.pending() == messages@,
            r.handled() == Set::<int>::empty(),
            r.errors() == Seq::<(MessageId, String)>::empty(),
            !r.is_taken(),
            !r.is_released(),
            r.confirmation() == confirmation_id,
            r.topic() == self.topic_id@,
            r.queue() == self.queue_id@,
    {
        MessagesReader::new(
            self.topic_id.clone(),
            self.queue_id.clone(),
            messages,
            confirmation_id,
        )
    }
}

} // verus!
