use vstd::prelude::*;

use crate::errors::PublishError;

verus! {

/// Attempts made before giving up, unless configured otherwise.
pub const DEFAULT_RETRIES_COUNT: usize = 5;

/// Pause between two attempts, in milliseconds, unless configured otherwise.
pub const DEFAULT_RETRIES_DELAY_MS: u64 = 5000;

/// What to do once an attempt to publish has ended.
pub enum RetryDecision {
    /// Hand the attempt's result to the caller.
    Finish,
    /// Wait this long, then attempt again with the same messages.
    RetryAfter { delay_ms: u64 },
}

/// Publishing to one topic with bounded retries and a fixed pause between
/// attempts.
pub struct MyServiceBusPublisherWithRetries {
    pub topic_name: String,
    /// The most attempts made for one publish.
    pub retires_count: usize,
    pub retries_delay_ms: u64,
}

impl MyServiceBusPublisherWithRetries {
    pub fn new(topic_name: String) -> (r: Self)
        ensures
            r.topic_name@ == topic_name@,
            r.retires_count == DEFAULT_RETRIES_COUNT,
            r.retries_delay_ms == DEFAULT_RETRIES_DELAY_MS,
    {
        MyServiceBusPublisherWithRetries {
            topic_name,
            retires_count: DEFAULT_RETRIES_COUNT,
            retries_delay_ms: DEFAULT_RETRIES_DELAY_MS,
        }
    }

    /// Decides after attempt number `attempts_made` (counting from one) ended
    /// with `result`: success, a serialization failure and the last allowed
    /// attempt finish; any other failure is retried after the fixed pause.
    pub fn after_attempt(&self, attempts_made: usize, result: &Result<(), PublishError>) -> (r:
        RetryDecision)
        ensures
            r is Finish <==> (result is Ok || !result->Err_0.retryable() || attempts_made
                >= self.retires_count),
            r matches RetryDecision::RetryAfter { delay_ms } ==> delay_ms == self.retries_delay_ms,
    {
        match result {
            Ok(()) => RetryDecision::Finish,
            Err(err) => {
                if !err.is_retryable() || attempts_made >= self.retires_count {
                    RetryDecision::Finish
                } else {
                    RetryDecision::RetryAfter { delay_ms: self.retries_delay_ms }
                }
            },
        }
    }
}

} // verus!
