use std::collections::VecDeque;
use vstd::prelude::*;

use crate::errors::PublishError;
use crate::message_to_publish::MessageToPublishContent;

verus! {

/// Pause before a failed batch is sent again, in milliseconds.
pub const PUBLISH_RETRY_DELAY_MS: u64 = 3000;

/// What the draining task does once a send of the batch in flight ended.
pub enum DrainStep {
    /// The batch went through: take the next one.
    NextBatch,
    /// The batch is kept: wait this long, then send it again.
    RetryAfter { delay_ms: u64 },
}

/// The outbound queue of a publisher that sends in the background: messages
/// waiting to be sent, how many are being sent, and whether a draining task
/// is running.
pub struct QueueToPublish {
    queue: VecDeque<MessageToPublishContent>,
    being_published: usize,
    draining: bool,
}

impl QueueToPublish {
    /// Messages waiting, oldest first.
    pub closed spec fn queued(&self) -> Seq<MessageToPublishContent> {
        self.queue@
    }

    /// Messages taken out to be sent and not yet confirmed as sent.
    pub closed spec fn in_flight(&self) -> nat {
        self.being_published as nat
    }

    pub closed spec fn is_draining(&self) -> bool {
        self.draining
    }

    /// All outstanding messages.
    pub open spec fn size(&self) -> nat {
        self.queued().len() + self.in_flight()
    }

    pub open spec fn wf(&self) -> bool {
        self.size() <= usize::MAX
    }

    pub fn new() -> (r: Self)
        ensures
            r.wf(),
            r.queued() == Seq::<MessageToPublishContent>::empty(),
            r.in_flight() == 0,
            !r.is_draining(),
    {
        QueueToPublish { queue: VecDeque::new(), being_published: 0, draining: false }
    }

    /// Appends a message. Returns whether a draining task has to be started:
    /// that is when none is running, and from then on one is.
    pub fn enqueue(&mut self, message: MessageToPublishContent) -> (start_drainer: bool)
        requires
            old(self).size() < usize::MAX,
        ensures
            final(self).wf(),
            final(self).queued() == old(self).queued().push(message),
            final(self).in_flight() == old(self).in_flight(),
            final(self).is_draining(),
            start_drainer == !old(self).is_draining(),
    {
        self.queue.push_back(message);
        let start_drainer = !self.draining;
        self.draining = true;
        start_drainer
    }

    /// Takes every waiting message out as one batch to send, which then
    /// counts as in flight. With nothing waiting there is no batch, and the
    /// draining task is to stop.
    pub fn get_messages_to_publish(&mut self) -> (r: Option<Vec<MessageToPublishContent>>)
        requires
            old(self).wf(),
        ensures
            final(self).wf(),
            r is None <==> old(self).queued().len() == 0,
            r matches Some(batch) ==> {
                &&& batch@ == old(self).queued()
                &&& final(self).queued().len() == 0
                &&& final(self).in_flight() == old(self).in_flight() + batch@.len()
                &&& final(self).is_draining() == old(self).is_draining()
            },
            r is None ==> {
                &&& final(self).queued() == old(self).queued()
                &&& final(self).in_flight() == old(self).in_flight()
                &&& !final(self).is_draining()
            },
    {
        if self.queue.len() == 0 {
            self.draining = false;
            return None;
        }
        let ghost start = self.queue@;
        let mut batch: Vec<MessageToPublishContent> = Vec::with_capacity(self.queue.len());
        while self.queue.len() > 0
            invariant
                batch@ + self.queue@ == start,
                self.draining == old(self).draining,
                self.being_published == old(self).being_published,
            decreases self.queue@.len(),
        {
            let ghost before = self.queue@;
            match self.queue.pop_front() {
                Some(message) => {
                    batch.push(message);
                    proof {
                        assert(batch@ + self.queue@ =~= start);
                    }
                },
                None => {},
            }
        }
        proof {
            assert(batch@ =~= start);
        }
        self.being_published = self.being_published + batch.len();
        Some(batch)
    }

    /// The batch in flight was sent.
    pub fn messages_are_published(&mut self)
        ensures
            final(self).queued() == old(self).queued(),
            final(self).in_flight() == 0,
            final(self).is_draining() == old(self).is_draining(),
    {
        self.being_published = 0;
    }

    /// Takes in how a send of the batch in flight ended: on success the batch
    /// is done; on failure it stays in flight and is sent again after a pause,
    /// so no message is lost.
    pub fn after_publish(&mut self, result: &Result<(), PublishError>) -> (r: DrainStep)
        requires
            old(self).wf(),
        ensures
            final(self).wf(),
            final(self).queued() == old(self).queued(),
            final(self).is_draining() == old(self).is_draining(),
            result is Ok ==> r is NextBatch && final(self).in_flight() == 0,
            result is Err ==> r == (DrainStep::RetryAfter { delay_ms: PUBLISH_RETRY_DELAY_MS })
                && final(self).in_flight() == old(self).in_flight(),
    {
        match result {
            Ok(()) => {
                self.messages_are_published();
                DrainStep::NextBatch
            },
            Err(_) => DrainStep::RetryAfter { delay_ms: PUBLISH_RETRY_DELAY_MS },
        }
    }

    /// Outstanding messages: those waiting and those in flight.
    pub fn get_queue_size(&self) -> (r: usize)
        requires
            self.wf(),
        ensures
            r == self.size(),
    {
        self.queue.len() + self.being_published
    }
}

} // verus!
