//! Client-side reliability layer for a topic/queue message bus: acknowledgment
//! of inbound batches and resilient publishing of outbound messages.
mod abstractions;
mod errors;
mod message_id;
mod message_to_publish;
mod my_sb_message;
mod publisher_with_internal_queue;
mod publisher_with_retries;
pub mod queue_with_intervals;
pub mod subscriber;

pub use abstractions::MyServiceBusSubscriberClient;
pub use errors::PublishError;
pub use message_id::MessageId;
pub use message_to_publish::{
    collect_serialized, serialize_message, serialize_messages, serialize_messages_with_headers,
    to_content, MessageToPublish, MessageToPublishContent, MySbMessageSerializer, Serialized,
};
pub use my_sb_message::MySbMessage;
pub use publisher_with_internal_queue::{DrainStep, QueueToPublish, PUBLISH_RETRY_DELAY_MS};
pub use publisher_with_retries::{
    MyServiceBusPublisherWithRetries, RetryDecision, DEFAULT_RETRIES_COUNT,
    DEFAULT_RETRIES_DELAY_MS,
};
pub use queue_with_intervals::{QueueIndexRange, QueueWithIntervals};
pub use subscriber::{
    DeliveryConfirmation, MessagesReader, MySbDeliveredMessage, MySbMessageDeserializer,
    SubscriberData,
};
