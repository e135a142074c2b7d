use producer::publisher::{
    DeliveryStatus, PublishError, PublisherState, Record, RedpandaProducer,
};

fn delivered(offset: i64) -> DeliveryStatus {
    DeliveryStatus::Delivered { partition: 0, offset }
}

fn failed(reason: &str) -> DeliveryStatus {
    DeliveryStatus::Failed { reason: reason.to_string() }
}

fn connected() -> RedpandaProducer {
    let mut producer = RedpandaProducer::new();
    assert_eq!(producer.connect(true), Ok(()));
    producer
}

#[test]
fn new_publisher_is_disconnected() {
    let producer = RedpandaProducer::new();
    assert_eq!(producer.state(), PublisherState::Disconnected);
    assert_eq!(producer.broker(), "localhost:9092");
    assert_eq!(producer.registry(), "http://localhost:8081");
    assert_eq!(producer.timeout_ms(), 1000);
    assert!(producer.report().is_empty());
}

#[test]
fn handshake_connects() {
    let mut producer = RedpandaProducer::new();
    assert_eq!(producer.connect(true), Ok(()));
    assert_eq!(producer.state(), PublisherState::Connected);
    assert!(producer.report().is_empty());
}

#[test]
fn failed_handshake_is_broker_unavailable() {
    let mut producer = RedpandaProducer::new();
    assert_eq!(producer.connect(false), Err(PublishError::BrokerUnavailable));
    assert_eq!(producer.state(), PublisherState::Disconnected);
    assert_eq!(producer.send("topic", "text"), Err(PublishError::OutOfTurn));
    assert_eq!(producer.connect(true), Ok(()));
    assert_eq!(producer.state(), PublisherState::Connected);
}

#[test]
fn second_handshake_is_out_of_turn() {
    let mut producer = connected();
    assert_eq!(producer.connect(true), Err(PublishError::OutOfTurn));
    assert_eq!(producer.connect(false), Err(PublishError::OutOfTurn));
    assert_eq!(producer.state(), PublisherState::Connected);
    producer.send("topic", "text").unwrap();
    assert_eq!(producer.connect(true), Err(PublishError::OutOfTurn));
    assert_eq!(producer.state(), PublisherState::Sending);
}

#[test]
fn text_record_carries_the_bytes_of_the_text() {
    let mut producer = connected();
    let record = producer.send("hello-world-topic", "Hello World!").unwrap();
    assert_eq!(
        record,
        Record {
            topic: "hello-world-topic".to_string(),
            key: "hackernews".to_string(),
            payload: b"Hello World!".to_vec(),
        }
    );
    assert_eq!(producer.state(), PublisherState::Sending);
    assert_eq!(producer.complete(delivered(0)), Ok(()));
    let record = producer.send("t", "h\u{e9}").unwrap();
    assert_eq!(record.payload, vec![0x68, 0xC3, 0xA9]);
}

#[test]
fn message_record_carries_the_message() {
    let mut producer = connected();
    let message = vec![0x08, 0x01, 0x28, 0x05];
    let record = producer.send_protobuf("hackernews-topic", &message).unwrap();
    assert_eq!(
        record,
        Record {
            topic: "hackernews-topic".to_string(),
            key: "hackernews".to_string(),
            payload: message,
        }
    );
    assert_eq!(producer.state(), PublisherState::Sending);
}

#[test]
fn every_record_has_the_same_key() {
    let mut producer = connected();
    for (topic, payload) in [("a", vec![]), ("b", vec![1u8, 2, 3]), ("", vec![0xFF])] {
        let record = producer.send_protobuf(topic, &payload).unwrap();
        assert_eq!(record.key, "hackernews");
        assert_eq!(record.topic, topic);
        assert_eq!(record.payload, payload);
        producer.complete(delivered(1)).unwrap();
    }
}

#[test]
fn send_before_the_handshake_is_out_of_turn() {
    let mut producer = RedpandaProducer::new();
    assert_eq!(producer.send("topic", "text"), Err(PublishError::OutOfTurn));
    assert_eq!(producer.send_protobuf("topic", &vec![1]), Err(PublishError::OutOfTurn));
    assert_eq!(producer.state(), PublisherState::Disconnected);
}

#[test]
fn send_while_sending_is_out_of_turn() {
    let mut producer = connected();
    producer.send_protobuf("topic", &vec![1]).unwrap();
    assert_eq!(producer.send_protobuf("topic", &vec![2]), Err(PublishError::OutOfTurn));
    assert_eq!(producer.send("topic", "text"), Err(PublishError::OutOfTurn));
    assert_eq!(producer.state(), PublisherState::Sending);
    assert!(producer.report().is_empty());
}

#[test]
fn status_without_a_record_in_flight_is_out_of_turn() {
    let mut producer = RedpandaProducer::new();
    assert_eq!(producer.complete(delivered(0)), Err(PublishError::OutOfTurn));
    assert_eq!(producer.connect(true), Ok(()));
    assert_eq!(producer.complete(failed("late")), Err(PublishError::OutOfTurn));
    assert!(producer.report().is_empty());
    assert_eq!(producer.state(), PublisherState::Connected);
}

#[test]
fn delivery_is_recorded() {
    let mut producer = connected();
    producer.send_protobuf("topic", &vec![1]).unwrap();
    assert_eq!(producer.complete(DeliveryStatus::Delivered { partition: 3, offset: 42 }), Ok(()));
    assert_eq!(producer.state(), PublisherState::Connected);
    assert_eq!(
        producer.report(),
        &vec![DeliveryStatus::Delivered { partition: 3, offset: 42 }]
    );
}

#[test]
fn failed_delivery_does_not_end_the_run() {
    let mut producer = connected();
    let messages = vec![vec![0x08, 0x01], vec![0x08, 0x02], vec![0x08, 0x03]];
    let outcomes = vec![delivered(7), failed("message timed out"), delivered(8)];
    let mut attempted = Vec::new();
    for (message, outcome) in messages.iter().zip(outcomes.iter()) {
        let record = producer.send_protobuf("hackernews-topic", message).unwrap();
        attempted.push(record.payload);
        assert_eq!(producer.complete(outcome.clone()), Ok(()));
        assert_eq!(producer.state(), PublisherState::Connected);
    }
    assert_eq!(attempted, messages);
    assert_eq!(producer.report(), &outcomes);
    assert_eq!(producer.report()[0], delivered(7));
    assert_eq!(producer.report()[1], failed("message timed out"));
    assert_eq!(producer.report()[2], delivered(8));
}

#[test]
fn run_of_failures_is_sent_to_the_end() {
    let mut producer = connected();
    let mut outcomes = Vec::new();
    for i in 0..50i64 {
        let outcome = if i % 3 == 0 { delivered(i) } else { failed("no") };
        assert!(producer.send_protobuf("topic", &vec![i as u8]).is_ok());
        assert_eq!(producer.complete(outcome.clone()), Ok(()));
        outcomes.push(outcome);
    }
    assert_eq!(producer.report(), &outcomes);
    assert_eq!(producer.state(), PublisherState::Connected);
}
