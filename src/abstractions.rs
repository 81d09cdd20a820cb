use vstd::prelude::*;

use crate::queue_with_intervals::QueueWithIntervals;

verus! {

/// The transport's side of acknowledging an inbound batch. Both calls are
/// fire-and-forget.
pub trait MyServiceBusSubscriberClient {
    /// Acknowledges the whole batch, as handled or as failed.
    fn confirm_delivery(
        &self,
        topic_id: &str,
        queue_id: &str,
        confirmation_id: i64,
        delivered: bool,
    );

    /// Acknowledges the ids in `ok_messages` as handled; the broker takes the
    /// rest of the batch as failed.
    fn confirm_some_messages_ok(
        &self,
        topic_id: &str,
        queue_id: &str,
        confirmation_id: i64,
        ok_messages: QueueWithIntervals,
    );
}

} // verus!
