use std::collections::HashMap;
use vstd::prelude::*;

use crate::errors::PublishError;

verus! {

/// One outbound message: optional headers and the serialized payload.
#[derive(Clone)]
pub struct MessageToPublishContent {
    pub headers: Option<HashMap<String, String>>,
    pub content: Vec<u8>,
}

/// A value that turns itself into an outbound message.
pub trait MessageToPublish {
    fn get_content(self) -> MessageToPublishContent;
}

/// Serializes an application contract, with optional headers, into a payload
/// and the headers to send with it.
pub trait MySbMessageSerializer {
    fn serialize(
        &self,
        headers: Option<HashMap<String, String>>,
    ) -> Result<(Vec<u8>, Option<HashMap<String, String>>), String>;
}

/// Turns a serializer's result into the message to send: the payload with
/// the headers it came with, or the serializer's reason as a serialization
/// error.
pub fn to_content(serialized: Result<(Vec<u8>, Option<HashMap<String, String>>), String>) -> (r:
    Result<MessageToPublishContent, PublishError>)
    ensures
        match serialized {
            Ok((content, headers)) => r matches Ok(m) && m.content == content && m.headers
                == headers,
            Err(reason) => r matches Err(PublishError::SerializationError(e)) && e == reason,
        },
{
    match serialized {
        Ok((content, headers)) => Ok(MessageToPublishContent { headers, content }),
        Err(reason) => Err(PublishError::SerializationError(reason)),
    }
}

/// Serializes one contract with the given headers. A failure comes back as a
/// serialization error.
pub fn serialize_message<TContract: MySbMessageSerializer>(
    message: &TContract,
    headers: Option<HashMap<String, String>>,
) -> (r: Result<MessageToPublishContent, PublishError>)
    ensures
        r matches Err(e) ==> e is SerializationError,
{
    to_content(message.serialize(headers))
}

/// A serializer's result: the payload and headers, or the reason it failed.
pub type Serialized = Result<(Vec<u8>, Option<HashMap<String, String>>), String>;

/// `m` is the message that the serializer's result `s` describes.
pub open spec fn carries(m: MessageToPublishContent, s: Serialized) -> bool {
    s matches Ok((content, headers)) && m.content == content && m.headers == headers
}

/// Assembles a batch from the serializer's results, in order. It succeeds
/// when every item serialized; otherwise it fails with the reason of the
/// first item that did not.
pub fn collect_serialized(results: Vec<Serialized>) -> (r: Result<
    Vec<MessageToPublishContent>,
    PublishError,
>)
    ensures
        r is Ok <==> forall|i: int| 0 <= i < results@.len() ==> #[trigger] results@[i] is Ok,
        r matches Ok(v) ==> v@.len() == results@.len() && forall|i: int|
            0 <= i < v@.len() ==> carries(#[trigger] v@[i], results@[i]),
        r matches Err(e) ==> exists|j: int|
            0 <= j < results@.len() && #[trigger] results@[j] is Err && (forall|k: int|
                0 <= k < j ==> #[trigger] results@[k] is Ok) && e == PublishError::SerializationError(
                results@[j]->Err_0,
            ),
{
    let mut batch: Vec<MessageToPublishContent> = Vec::with_capacity(results.len());
    for item in it: results
        invariant
            it.seq() == results@,
            batch@.len() == it.index(),
            forall|i: int| 0 <= i < it.index() ==> #[trigger] results@[i] is Ok,
            forall|i: int| 0 <= i < it.index() ==> carries(#[trigger] batch@[i], results@[i]),
    {
        let ghost j = it.index() as int;
        proof {
            assert(item == results@[j]);
        }
        match item {
            Ok((content, headers)) => {
                batch.push(MessageToPublishContent { headers, content });
                proof {
                    assert(carries(batch@[j], results@[j]));
                }
            },
            Err(reason) => {
                proof {
                    assert(results@[j] is Err);
                }
                return Err(PublishError::SerializationError(reason));
            },
        }
    }
    Ok(batch)
}

/// Serializes every contract, without headers, in order, and assembles the
/// batch with `collect_serialized`. The first failure ends the batch: no item
/// after it is serialized, and nothing is to be sent.
pub fn serialize_messages<TContract: MySbMessageSerializer>(messages: &[TContract]) -> (r: Result<
    Vec<MessageToPublishContent>,
    PublishError,
>)
    ensures
        messages@.len() == 0 ==> (r matches Ok(v) && v@.len() == 0),
        r matches Ok(v) ==> v@.len() == messages@.len(),
        r matches Err(e) ==> e is SerializationError,
{
    let mut results: Vec<Serialized> = Vec::with_capacity(messages.len());
    let mut i: usize = 0;
    while i < messages.len()
        invariant
            i <= messages@.len(),
            results@.len() == i,
            forall|k: int| 0 <= k < i ==> #[trigger] results@[k] is Ok,
        decreases messages@.len() - i,
    {
        let serialized = messages[i].serialize(None);
        let failed = serialized.is_err();
        results.push(serialized);
        if failed {
            proof {
                assert(results@[i as int] is Err);
            }
            return collect_serialized(results);
        }
        i = i + 1;
    }
    collect_serialized(results)
}

/// Serializes every contract with its own headers, in order, and assembles
/// the batch with `collect_serialized`. The first failure ends the batch: no
/// item after it is serialized, and nothing is to be sent.
pub fn serialize_messages_with_headers<TContract: MySbMessageSerializer>(
    messages: Vec<(TContract, Option<HashMap<String, String>>)>,
) -> (r: Result<Vec<MessageToPublishContent>, PublishError>)
    ensures
        messages@.len() == 0 ==> (r matches Ok(v) && v@.len() == 0),
        r matches Ok(v) ==> v@.len() == messages@.len(),
        r matches Err(e) ==> e is SerializationError,
{
    let mut results: Vec<Serialized> = Vec::with_capacity(messages.len());
    for item in it: messages
        invariant
            it.seq() == messages@,
            results@.len() == it.index(),
            forall|k: int| 0 <= k < it.index() ==> #[trigger] results@[k] is Ok,
    {
        let (contract, headers) = item;
        let serialized = contract.serialize(headers);
        let failed = serialized.is_err();
        results.push(serialized);
        if failed {
            proof {
                assert(results@[results@.len() - 1] is Err);
            }
            return collect_serialized(results);
        }
    }
    collect_serialized(results)
}

} // verus!
