//! The bookkeeping of a publisher: one session with a broker, over which
//! records are sent one at a time, each confirmed or failed before the next.
//!
//! The publisher decides and keeps the books; the caller talks to the broker.
//! `connect` takes the outcome of the handshake, `send` and `send_protobuf`
//! hand out the record to transmit, and `complete` takes the delivery status
//! that came back for it.

use vstd::prelude::*;
use vstd::slice::slice_to_vec;

verus! {

/// Where a publisher stands.
#[derive(Clone, Copy, Debug, PartialEq, Eq, Structural)]
pub enum PublisherState {
    /// No session with the broker.
    Disconnected,
    /// In session, nothing in flight.
    Connected,
    /// One record handed out, its delivery status not yet in.
    Sending,
}

/// Why an operation of the publisher was refused.
#[derive(Clone, Copy, Debug, PartialEq, Eq, Structural)]
pub enum PublishError {
    /// The handshake with the broker did not complete.
    BrokerUnavailable,
    /// The operation does not fit the state that the publisher is in.
    OutOfTurn,
}

/// What came back for one record.
#[derive(Clone, Debug, PartialEq, Eq)]
pub enum DeliveryStatus {
    /// The broker took the record and gave it this place.
    Delivered { partition: i32, offset: i64 },
    /// The record was not taken.
    Failed { reason: String },
}

/// What a `DeliveryStatus` stands for.
pub enum DeliveryModel {
    Delivered { partition: i32, offset: i64 },
    Failed { reason: Seq<char> },
}

impl View for DeliveryStatus {
    type V = DeliveryModel;

    open spec fn view(&self) -> DeliveryModel {
        match self {
            DeliveryStatus::Delivered { partition, offset } => DeliveryModel::Delivered {
                partition: *partition,
                offset: *offset,
            },
            DeliveryStatus::Failed { reason } => DeliveryModel::Failed { reason: reason@ },
        }
    }
}

/// The statuses held in a vector, each by what it stands for.
pub open spec fn status_views(statuses: Seq<DeliveryStatus>) -> Seq<DeliveryModel> {
    Seq::new(statuses.len(), |i: int| statuses[i]@)
}

/// One record as it is handed to the broker.
#[derive(Clone, Debug, PartialEq, Eq)]
pub struct Record {
    pub topic: String,
    pub key: String,
    pub payload: Vec<u8>,
}

/// What a `Record` stands for.
pub struct RecordModel {
    pub topic: Seq<char>,
    pub key: Seq<char>,
    pub payload: Seq<u8>,
}

impl View for Record {
    type V = RecordModel;

    open spec fn view(&self) -> RecordModel {
        RecordModel { topic: self.topic@, key: self.key@, payload: self.payload@ }
    }
}

/// The record that carries `payload` to `topic`. Every record has the same
/// key.
pub open spec fn record_for(topic: Seq<char>, payload: Seq<u8>) -> RecordModel {
    RecordModel { topic, key: "hackernews"@, payload }
}

/// What a publisher stands for: the addresses of the broker and of the schema
/// registry, the time that one delivery may take, its state, and the delivery
/// statuses that have come in, oldest first.
pub struct PublisherModel {
    pub broker: Seq<char>,
    pub registry: Seq<char>,
    pub timeout_ms: u64,
    pub state: PublisherState,
    pub report: Seq<DeliveryModel>,
}

impl PublisherModel {
    /// The publisher before its handshake.
    pub open spec fn initial() -> PublisherModel {
        PublisherModel {
            broker: "localhost:9092"@,
            registry: "http://localhost:8081"@,
            timeout_ms: 1000,
            state: PublisherState::Disconnected,
            report: Seq::empty(),
        }
    }

    /// The publisher after a handshake with this outcome.
    pub open spec fn connect(self, handshake: bool) -> Result<PublisherModel, PublishError> {
        if self.state != PublisherState::Disconnected {
            Err(PublishError::OutOfTurn)
        } else if handshake {
            Ok(PublisherModel { state: PublisherState::Connected, ..self })
        } else {
            Err(PublishError::BrokerUnavailable)
        }
    }

    /// The publisher after it has handed out a record.
    pub open spec fn send(self) -> Result<PublisherModel, PublishError> {
        if self.state == PublisherState::Connected {
            Ok(PublisherModel { state: PublisherState::Sending, ..self })
        } else {
            Err(PublishError::OutOfTurn)
        }
    }

    /// The publisher after the status of the record in flight has come in.
    /// A failure is recorded as a success is, and ends nothing.
    pub open spec fn complete(self, status: DeliveryModel) -> Result<
        PublisherModel,
        PublishError,
    > {
        if self.state == PublisherState::Sending {
            Ok(
                PublisherModel {
                    state: PublisherState::Connected,
                    report: self.report.push(status),
                    ..self
                },
            )
        } else {
            Err(PublishError::OutOfTurn)
        }
    }

    /// The publisher after one record for each of `statuses` has been sent
    /// and its status has come in, one after the other.
    pub open spec fn publish_all(self, statuses: Seq<DeliveryModel>) -> Result<
        PublisherModel,
        PublishError,
    >
        decreases statuses.len(),
    {
        if statuses.len() == 0 {
            Ok(self)
        } else {
            match self.publish_all(statuses.drop_last()) {
                Err(e) => Err(e),
                Ok(before) => match before.send() {
                    Err(e) => Err(e),
                    Ok(sending) => sending.complete(statuses.last()),
                },
            }
        }
    }
}

/// The publisher of one run.
#[derive(Debug)]
pub struct RedpandaProducer {
    broker: String,
    registry: String,
    timeout_ms: u64,
    state: PublisherState,
    report: Vec<DeliveryStatus>,
}

impl View for RedpandaProducer {
    type V = PublisherModel;

    closed spec fn view(&self) -> PublisherModel {
        PublisherModel {
            broker: self.broker@,
            registry: self.registry@,
            timeout_ms: self.timeout_ms,
            state: self.state,
            report: status_views(self.report@),
        }
    }
}

impl RedpandaProducer {
    /// A publisher before its handshake: the broker at `localhost:9092`, the
    /// schema registry at `http://localhost:8081`, one second for each
    /// delivery, nothing sent.
    pub fn new() -> (producer: Self)
        ensures
            producer@ == PublisherModel::initial(),
    {
        let producer = RedpandaProducer {
            broker: "localhost:9092".to_owned(),
            registry: "http://localhost:8081".to_owned(),
            timeout_ms: 1000,
            state: PublisherState::Disconnected,
            report: Vec::new(),
        };
        assert(status_views(producer.report@) =~= Seq::<DeliveryModel>::empty());
        producer
    }

    /// The address of the broker.
    pub fn broker(&self) -> (address: &str)
        ensures
            address@ == self@.broker,
    {
        self.broker.as_str()
    }

    /// The address of the schema registry.
    pub fn registry(&self) -> (address: &str)
        ensures
            address@ == self@.registry,
    {
        self.registry.as_str()
    }

    /// The time that one delivery may take, in milliseconds.
    pub fn timeout_ms(&self) -> (ms: u64)
        ensures
            ms == self@.timeout_ms,
    {
        self.timeout_ms
    }

    /// Where the publisher stands.
    pub fn state(&self) -> (state: PublisherState)
        ensures
            state == self@.state,
    {
        self.state
    }

    /// The delivery statuses that have come in, oldest first.
    pub fn report(&self) -> (report: &Vec<DeliveryStatus>)
        ensures
            status_views(report@) == self@.report,
    {
        &self.report
    }

    /// Takes the outcome of the handshake with the broker.
    pub fn connect(&mut self, handshake: bool) -> (r: Result<(), PublishError>)
        ensures
            match r {
                Ok(()) => old(self)@.connect(handshake) == Ok::<PublisherModel, PublishError>(
                    final(self)@,
                ),
                Err(e) => old(self)@.connect(handshake) == Err::<PublisherModel, PublishError>(e)
                    && final(self)@ == old(self)@,
            },
    {
        match self.state {
            PublisherState::Disconnected => {
                if handshake {
                    self.state = PublisherState::Connected;
                    Ok(())
                } else {
                    Err(PublishError::BrokerUnavailable)
                }
            },
            _ => Err(PublishError::OutOfTurn),
        }
    }

    /// Hands out the record that carries the text `value` to `topic`.
    pub fn send(&mut self, topic: &str, value: &str) -> (r: Result<Record, PublishError>)
        ensures
            match r {
                Ok(record) => {
                    &&& old(self)@.send() == Ok::<PublisherModel, PublishError>(final(self)@)
                    &&& record@ == record_for(topic@, vstd::utf8::encode_utf8(value@))
                },
                Err(e) => {
                    &&& old(self)@.send() == Err::<PublisherModel, PublishError>(e)
                    &&& final(self)@ == old(self)@
                },
            },
    {
        match self.state {
            PublisherState::Connected => {
                self.state = PublisherState::Sending;
                Ok(
                    Record {
                        topic: topic.to_owned(),
                        key: "hackernews".to_owned(),
                        payload: slice_to_vec(value.as_bytes()),
                    },
                )
            },
            _ => Err(PublishError::OutOfTurn),
        }
    }

    /// Hands out the record that carries the message `value` to `topic`.
    pub fn send_protobuf(&mut self, topic: &str, value: &Vec<u8>) -> (r: Result<
        Record,
        PublishError,
    >)
        ensures
            match r {
                Ok(record) => {
                    &&& old(self)@.send() == Ok::<PublisherModel, PublishError>(final(self)@)
                    &&& record@ == record_for(topic@, value@)
                },
                Err(e) => {
                    &&& old(self)@.send() == Err::<PublisherModel, PublishError>(e)
                    &&& final(self)@ == old(self)@
                },
            },
    {
        match self.state {
            PublisherState::Connected => {
                self.state = PublisherState::Sending;
                Ok(
                    Record {
                        topic: topic.to_owned(),
                        key: "hackernews".to_owned(),
                        payload: slice_to_vec(value.as_slice()),
                    },
                )
            },
            _ => Err(PublishError::OutOfTurn),
        }
    }

    /// Takes the delivery status of the record in flight and records it.
    /// After a failure the publisher is ready for the next record, as after
    /// a success.
    pub fn complete(&mut self, status: DeliveryStatus) -> (r: Result<(), PublishError>)
        ensures
            match r {
                Ok(()) => old(self)@.complete(status@) == Ok::<PublisherModel, PublishError>(
                    final(self)@,
                ),
                Err(e) => old(self)@.complete(status@) == Err::<PublisherModel, PublishError>(e)
                    && final(self)@ == old(self)@,
            },
    {
        match self.state {
            PublisherState::Sending => {
                let ghost before = status_views(self.report@);
                self.report.push(status);
                self.state = PublisherState::Connected;
                assert(status_views(self.report@) =~= before.push(status@));
                Ok(())
            },
            _ => Err(PublishError::OutOfTurn),
        }
    }
}

/// No delivery ends a run: a publisher in session that sends one record after
/// the other, and gets a status for each, sends them all, whatever the
/// statuses are. It is in session again after the last, and its report has
/// grown by these statuses, in their order.
pub proof fn lemma_publish_all(publisher: PublisherModel, statuses: Seq<DeliveryModel>)
    requires
        publisher.state == PublisherState::Connected,
    ensures
        publisher.publish_all(statuses) == Ok::<PublisherModel, PublishError>(
            PublisherModel {
                state: PublisherState::Connected,
                report: publisher.report + statuses,
                ..publisher
            },
        ),
    decreases statuses.len(),
{
    if statuses.len() == 0 {
        assert(publisher.report + statuses =~= publisher.report);
    } else {
        lemma_publish_all(publisher, statuses.drop_last());
        assert((publisher.report + statuses.drop_last()).push(statuses.last())
            =~= publisher.report + statuses);
    }
}

} // verus!
