use std::collections::HashMap;
use std::sync::{Arc, Mutex};

use my_service_bus_client::{
    DeliveryConfirmation, MessageId, MessagesReader, MySbDeliveredMessage, MySbMessage,
    MySbMessageDeserializer, MyServiceBusSubscriberClient, QueueWithIntervals, SubscriberData,
};

#[derive(Debug, PartialEq)]
enum Sent {
    Full {
        topic: String,
        queue: String,
        confirmation_id: i64,
        delivered: bool,
    },
    Partial {
        topic: String,
        queue: String,
        confirmation_id: i64,
        ranges: Vec<(i64, i64)>,
    },
}

#[derive(Default)]
struct RecordingClient {
    sent: Mutex<Vec<Sent>>,
}

impl MyServiceBusSubscriberClient for RecordingClient {
    fn confirm_delivery(&self, topic_id: &str, queue_id: &str, confirmation_id: i64, delivered: bool) {
        self.sent.lock().unwrap().push(Sent::Full {
            topic: topic_id.to_string(),
            queue: queue_id.to_string(),
            confirmation_id,
            delivered,
        });
    }

    fn confirm_some_messages_ok(
        &self,
        topic_id: &str,
        queue_id: &str,
        confirmation_id: i64,
        ok_messages: QueueWithIntervals,
    ) {
        self.sent.lock().unwrap().push(Sent::Partial {
            topic: topic_id.to_string(),
            queue: queue_id.to_string(),
            confirmation_id,
            ranges: ok_messages
                .intervals()
                .iter()
                .map(|r| (r.from_id, r.to_id))
                .collect(),
        });
    }
}

/// Decodes UTF-8 text; a payload that starts with `!` does not decode.
#[derive(Debug, PartialEq)]
struct Text(String);

impl MySbMessageDeserializer for Text {
    type Item = Text;

    fn deserialize(src: &[u8], _headers: &Option<HashMap<String, String>>) -> Result<Text, String> {
        if src.first() == Some(&b'!') {
            return Err("bad payload".to_string());
        }
        String::from_utf8(src.to_vec()).map(Text).map_err(|e| e.to_string())
    }
}

fn raw(id: i64, text: &str) -> MySbMessage {
    MySbMessage {
        id: MessageId::new(id),
        attempt_no: 1,
        headers: None,
        content: text.as_bytes().to_vec(),
    }
}

fn batch(ids: &[i64]) -> Vec<MySbMessage> {
    ids.iter().map(|id| raw(*id, &format!("m{}", id))).collect()
}

fn data(client: &Arc<RecordingClient>) -> SubscriberData<RecordingClient> {
    SubscriberData {
        topic_id: "orders".to_string(),
        queue_id: "billing".to_string(),
        client: client.clone(),
    }
}

fn full(delivered: bool) -> Sent {
    Sent::Full {
        topic: "orders".to_string(),
        queue: "billing".to_string(),
        confirmation_id: 77,
        delivered,
    }
}

fn partial(ranges: Vec<(i64, i64)>) -> Sent {
    Sent::Partial {
        topic: "orders".to_string(),
        queue: "billing".to_string(),
        confirmation_id: 77,
        ranges,
    }
}

/// Sends what the reader resolves to, as the subscriber does when a batch is
/// dropped, and returns it.
fn release_as(
    reader: &mut MessagesReader<Text>,
    client: &RecordingClient,
    topic: &str,
    queue: &str,
) -> Option<DeliveryConfirmation> {
    let id = reader.confirmation_id();
    let decision = reader.release();
    match &decision {
        Some(DeliveryConfirmation::Delivered) => client.confirm_delivery(topic, queue, id, true),
        Some(DeliveryConfirmation::AllFailed) => client.confirm_delivery(topic, queue, id, false),
        Some(DeliveryConfirmation::Partial(q)) => {
            client.confirm_some_messages_ok(topic, queue, id, q.get_snapshot())
        }
        None => {}
    }
    decision
}

fn release(reader: &mut MessagesReader<Text>, client: &RecordingClient) -> Option<DeliveryConfirmation> {
    release_as(reader, client, "orders", "billing")
}

fn handle_all(reader: &mut MessagesReader<Text>, keep: impl Fn(i64) -> bool) -> Vec<i64> {
    let mut seen = Vec::new();
    while let Some(msg) = reader.get_next_message() {
        seen.push(msg.id.get_value());
        if keep(msg.id.get_value()) {
            reader.handled_ok(&msg);
        }
    }
    seen
}

#[test]
fn all_handled_sends_one_full_confirm_true() {
    let client = Arc::new(RecordingClient::default());
    let mut reader: MessagesReader<Text> = data(&client).new_messages_reader(batch(&[1, 2, 3, 4]), 77);
    let seen = handle_all(&mut reader, |_| true);
    assert_eq!(seen, vec![1, 2, 3, 4]);
    assert!(matches!(release(&mut reader, &client), Some(DeliveryConfirmation::Delivered)));
    assert!(release(&mut reader, &client).is_none());
    assert_eq!(*client.sent.lock().unwrap(), vec![full(true)]);
}

#[test]
fn none_handled_sends_one_full_confirm_false() {
    let client = Arc::new(RecordingClient::default());
    let mut reader: MessagesReader<Text> = data(&client).new_messages_reader(batch(&[1, 2, 3]), 77);
    let seen = handle_all(&mut reader, |_| false);
    assert_eq!(seen, vec![1, 2, 3]);
    assert!(matches!(release(&mut reader, &client), Some(DeliveryConfirmation::AllFailed)));
    assert!(release(&mut reader, &client).is_none());
    assert_eq!(*client.sent.lock().unwrap(), vec![full(false)]);
}

#[test]
fn some_handled_sends_one_partial_confirm_of_those_ids() {
    let client = Arc::new(RecordingClient::default());
    let ids = [10, 11, 12, 13, 14, 15, 16];
    let mut reader: MessagesReader<Text> = data(&client).new_messages_reader(batch(&ids), 77);
    handle_all(&mut reader, |id| id != 13 && id != 16);
    match release(&mut reader, &client) {
        Some(DeliveryConfirmation::Partial(q)) => {
            assert_eq!(q.len(), 5);
        }
        _ => panic!("expected a partial confirmation"),
    }
    assert!(release(&mut reader, &client).is_none());
    assert_eq!(
        *client.sent.lock().unwrap(),
        vec![partial(vec![(10, 12), (14, 15)])]
    );
}

#[test]
fn one_undecodable_message_of_five_gives_partial_confirm() {
    let client = Arc::new(RecordingClient::default());
    let mut messages = batch(&[1, 2, 3, 4, 5]);
    messages[2] = raw(3, "!broken");
    let mut reader: MessagesReader<Text> = data(&client).new_messages_reader(messages, 77);
    let mut decoded = Vec::new();
    while let Some(msg) = reader.get_next_message() {
        decoded.push(msg.content.0.clone());
        reader.handled_ok(&msg);
    }
    assert_eq!(decoded, vec!["m1", "m2", "m4", "m5"]);
    assert_eq!(
        reader.get_deserialize_errors().to_vec(),
        vec![(MessageId::new(3), "bad payload".to_string())]
    );
    assert!(matches!(release(&mut reader, &client), Some(DeliveryConfirmation::Partial(_))));
    assert_eq!(
        *client.sent.lock().unwrap(),
        vec![partial(vec![(1, 2), (4, 5)])]
    );
}

#[test]
fn no_decodable_message_gives_full_confirm_false() {
    let client = Arc::new(RecordingClient::default());
    let messages = vec![raw(1, "!a"), raw(2, "!b")];
    let mut reader: MessagesReader<Text> = data(&client).new_messages_reader(messages, 77);
    assert!(reader.get_next_message().is_none());
    let failed: Vec<i64> = reader
        .get_deserialize_errors()
        .iter()
        .map(|(id, _)| id.get_value())
        .collect();
    assert_eq!(failed, vec![1, 2]);
    release(&mut reader, &client);
    assert_eq!(*client.sent.lock().unwrap(), vec![full(false)]);
}

#[test]
fn marking_twice_counts_once() {
    let client = Arc::new(RecordingClient::default());
    let mut reader: MessagesReader<Text> = data(&client).new_messages_reader(batch(&[1, 2]), 77);
    let first = reader.get_next_message().unwrap();
    reader.handled_ok(&first);
    reader.handled_ok(&first);
    assert!(matches!(reader.acknowledgment(), DeliveryConfirmation::Partial(_)));
    release(&mut reader, &client);
    assert_eq!(*client.sent.lock().unwrap(), vec![partial(vec![(1, 1)])]);
}

#[test]
fn an_id_from_elsewhere_is_counted_too() {
    let client = Arc::new(RecordingClient::default());
    let mut reader: MessagesReader<Text> = data(&client).new_messages_reader(batch(&[1]), 77);
    let stranger = MySbDeliveredMessage {
        id: MessageId::new(99),
        attempt_no: 1,
        headers: None,
        content: Text("x".to_string()),
        raw: vec![b'x'],
    };
    reader.handled_ok(&stranger);
    assert!(matches!(reader.acknowledgment(), DeliveryConfirmation::Delivered));
    let own = reader.get_next_message().unwrap();
    reader.handled_ok(&own);
    release(&mut reader, &client);
    assert_eq!(*client.sent.lock().unwrap(), vec![partial(vec![(1, 1), (99, 99)])]);
}

#[test]
fn handled_ids_in_sequence_form_one_range() {
    let client = Arc::new(RecordingClient::default());
    let ids: Vec<i64> = (100..110).collect();
    let mut reader: MessagesReader<Text> = data(&client).new_messages_reader(batch(&ids), 77);
    handle_all(&mut reader, |_| true);
    let handled: Vec<(i64, i64)> = reader
        .handled_snapshot()
        .intervals()
        .iter()
        .map(|r| (r.from_id, r.to_id))
        .collect();
    assert_eq!(handled, vec![(100, 109)]);
    match reader.acknowledgment() {
        DeliveryConfirmation::Delivered => {}
        _ => panic!("expected a full confirmation"),
    }
    assert_eq!(reader.total_messages_amount(), 10);
}

#[test]
fn accepting_a_decode_result() {
    let client = Arc::new(RecordingClient::default());
    let mut reader: MessagesReader<Text> = data(&client).new_messages_reader(Vec::new(), 77);
    let m = reader
        .accept_decoded(raw(4, "four"), Ok(Text("four".to_string())))
        .unwrap();
    assert_eq!(m.id, MessageId::new(4));
    assert_eq!(m.content, Text("four".to_string()));
    assert_eq!(m.raw, b"four".to_vec());
    assert!(reader.get_deserialize_errors().is_empty());
    assert!(reader
        .accept_decoded(raw(5, "five"), Err("nope".to_string()))
        .is_none());
    assert_eq!(
        reader.get_deserialize_errors().to_vec(),
        vec![(MessageId::new(5), "nope".to_string())]
    );
}

#[test]
fn messages_come_out_in_delivery_order_with_their_fields() {
    let client = Arc::new(RecordingClient::default());
    let mut headers = HashMap::new();
    headers.insert("process-id".to_string(), "5".to_string());
    let first = MySbMessage {
        id: MessageId::new(8),
        attempt_no: 3,
        headers: Some(headers.clone()),
        content: b"hello".to_vec(),
    };
    let mut reader: MessagesReader<Text> =
        data(&client).new_messages_reader(vec![first, raw(9, "world")], 77);
    let m = reader.get_next_message().unwrap();
    assert_eq!(m.id, MessageId::new(8));
    assert_eq!(m.attempt_no, 3);
    assert_eq!(m.headers, Some(headers));
    assert_eq!(m.content, Text("hello".to_string()));
    assert_eq!(m.raw, b"hello".to_vec());
    let m = reader.get_next_message().unwrap();
    assert_eq!(m.id, MessageId::new(9));
    assert!(reader.get_next_message().is_none());
}

#[test]
fn get_all_hands_out_the_decodable_rest() {
    let client = Arc::new(RecordingClient::default());
    let messages = vec![raw(1, "a"), raw(2, "!b"), raw(3, "c"), raw(4, "d")];
    let mut reader: MessagesReader<Text> = data(&client).new_messages_reader(messages, 77);
    let first = reader.get_next_message().unwrap();
    assert_eq!(first.id.get_value(), 1);
    let rest = reader.get_all().unwrap();
    let ids: Vec<i64> = rest.iter().map(|m| m.id.get_value()).collect();
    assert_eq!(ids, vec![3, 4]);
    assert!(reader.get_next_message().is_none());
    assert!(reader.get_all().is_none());
}

#[test]
fn get_all_on_an_empty_batch_gives_an_empty_queue_once() {
    let client = Arc::new(RecordingClient::default());
    let mut reader: MessagesReader<Text> = data(&client).new_messages_reader(Vec::new(), 77);
    assert_eq!(reader.get_all().map(|q| q.len()), Some(0));
    assert!(reader.get_all().is_none());
}

#[test]
fn empty_batch_resolves_as_delivered() {
    let client = Arc::new(RecordingClient::default());
    let mut reader: MessagesReader<Text> = data(&client).new_messages_reader(Vec::new(), 77);
    assert!(reader.get_next_message().is_none());
    release(&mut reader, &client);
    assert_eq!(*client.sent.lock().unwrap(), vec![full(true)]);
}

#[test]
fn reader_built_directly_uses_its_own_names() {
    let client = Arc::new(RecordingClient::default());
    let mut reader: MessagesReader<Text> = MessagesReader::new(
        "t".to_string(),
        "q".to_string(),
        batch(&[5]),
        3,
    );
    let m = reader.get_next_message().unwrap();
    reader.handled_ok(&m);
    assert_eq!(reader.confirmation_id(), 3);
    release_as(&mut reader, &client, "t", "q");
    assert_eq!(
        *client.sent.lock().unwrap(),
        vec![Sent::Full {
            topic: "t".to_string(),
            queue: "q".to_string(),
            confirmation_id: 3,
            delivered: true,
        }]
    );
}
