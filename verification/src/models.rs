//! Record types carried between the broker, the write batcher, the store
//! and the subscriber sessions, together with their ghost images.
//!
//! Every wire-facing value is held as plain data: JSON bodies as the text
//! they serialize to, timestamps as milliseconds since the epoch.

use vstd::prelude::*;

verus! {

// ------------------------------------------------------------------
// Ghost images
// ------------------------------------------------------------------

/// Ghost image of a message record.
#[verifier::ext_equal]
pub struct MsgV {
    pub topic: Seq<char>,
    pub message_id: Seq<char>,
    pub message: Seq<char>,
    pub producer: Seq<char>,
    pub timestamp: u64,
}

/// Ghost image of a consumption record.
#[verifier::ext_equal]
pub struct ConV {
    pub consumer: Seq<char>,
    pub topic: Seq<char>,
    pub message_id: Seq<char>,
    pub message: Seq<char>,
    pub timestamp: u64,
}

/// Ghost image of one row of the live-clients listing.
#[verifier::ext_equal]
pub struct ClientV {
    pub consumer: Seq<char>,
    pub topic: Seq<char>,
    pub connected_at: u64,
}

/// Ghost image of a graph edge.
#[verifier::ext_equal]
pub struct LinkV {
    pub source: Seq<char>,
    pub target: Seq<char>,
    pub link_type: Seq<char>,
}

/// Ghost image of the graph projection.
#[verifier::ext_equal]
pub struct GraphV {
    pub producers: Seq<Seq<char>>,
    pub consumers: Seq<Seq<char>>,
    pub topics: Seq<Seq<char>>,
    pub links: Seq<LinkV>,
}

/// Ghost image of a durable-write command.
#[verifier::ext_equal]
pub enum CmdV {
    RegisterSubscription { sid: Seq<char>, consumer: Seq<char>, topic: Seq<char>, connected_at: u64 },
    SaveMessage { topic: Seq<char>, message_id: Seq<char>, message: Seq<char>, producer: Seq<char>, timestamp: u64 },
    SaveConsumption { consumer: Seq<char>, topic: Seq<char>, message_id: Seq<char>, message: Seq<char>, timestamp: u64 },
    UnregisterClient { sid: Seq<char> },
}

/// Ghost image of an observability event.
#[verifier::ext_equal]
pub enum EventV {
    NewClient { consumer: Seq<char>, topic: Seq<char>, connected_at: u64 },
    ClientDisconnected { consumer: Seq<char>, topic: Seq<char> },
    NewMessage { topic: Seq<char>, message_id: Seq<char>, message: Seq<char>, producer: Seq<char>, timestamp: u64 },
    NewConsumption { consumer: Seq<char>, topic: Seq<char>, message_id: Seq<char>, message: Seq<char>, timestamp: u64 },
}

// ------------------------------------------------------------------
// Commands and events
// ------------------------------------------------------------------

/// A durable-write command, queued in publish order for the single
/// batching worker.
#[derive(Debug, PartialEq, Eq)]
pub enum DbCommand {
    RegisterSubscription { sid: String, consumer: String, topic: String, connected_at: u64 },
    SaveMessage { topic: String, message_id: String, message: String, producer: String, timestamp: u64 },
    SaveConsumption { consumer: String, topic: String, message_id: String, message: String, timestamp: u64 },
    UnregisterClient { sid: String },
}

impl View for DbCommand {
    type V = CmdV;

    open spec fn view(&self) -> CmdV {
        match self {
            DbCommand::RegisterSubscription { sid, consumer, topic, connected_at } => CmdV::RegisterSubscription {
                sid: sid@,
                consumer: consumer@,
                topic: topic@,
                connected_at: *connected_at,
            },
            DbCommand::SaveMessage { topic, message_id, message, producer, timestamp } => CmdV::SaveMessage {
                topic: topic@,
                message_id: message_id@,
                message: message@,
                producer: producer@,
                timestamp: *timestamp,
            },
            DbCommand::SaveConsumption { consumer, topic, message_id, message, timestamp } => CmdV::SaveConsumption {
                consumer: consumer@,
                topic: topic@,
                message_id: message_id@,
                message: message@,
                timestamp: *timestamp,
            },
            DbCommand::UnregisterClient { sid } => CmdV::UnregisterClient { sid: sid@ },
        }
    }
}

impl DeepView for DbCommand {
    type V = CmdV;

    open spec fn deep_view(&self) -> CmdV {
        self.view()
    }
}

/// A transient observability event, broadcast to dashboard listeners and
/// never persisted.
#[derive(Debug, PartialEq, Eq)]
pub enum BroadcastEvent {
    NewClient { consumer: String, topic: String, connected_at: u64 },
    ClientDisconnected { consumer: String, topic: String },
    NewMessage { topic: String, message_id: String, message: String, producer: String, timestamp: u64 },
    NewConsumption { consumer: String, topic: String, message_id: String, message: String, timestamp: u64 },
}

impl View for BroadcastEvent {
    type V = EventV;

    open spec fn view(&self) -> EventV {
        match self {
            BroadcastEvent::NewClient { consumer, topic, connected_at } => EventV::NewClient {
                consumer: consumer@,
                topic: topic@,
                connected_at: *connected_at,
            },
            BroadcastEvent::ClientDisconnected { consumer, topic } => EventV::ClientDisconnected {
                consumer: consumer@,
                topic: topic@,
            },
            BroadcastEvent::NewMessage { topic, message_id, message, producer, timestamp } => EventV::NewMessage {
                topic: topic@,
                message_id: message_id@,
                message: message@,
                producer: producer@,
                timestamp: *timestamp,
            },
            BroadcastEvent::NewConsumption { consumer, topic, message_id, message, timestamp } => EventV::NewConsumption {
                consumer: consumer@,
                topic: topic@,
                message_id: message_id@,
                message: message@,
                timestamp: *timestamp,
            },
        }
    }
}

impl DeepView for BroadcastEvent {
    type V = EventV;

    open spec fn deep_view(&self) -> EventV {
        self.view()
    }
}

// ------------------------------------------------------------------
// API records
// ------------------------------------------------------------------

/// A publish request, already decoded to plain values.
#[derive(Debug, PartialEq, Eq)]
pub struct PublishRequest {
    pub topic: String,
    pub message_id: String,
    /// The message body as JSON text.
    pub message: String,
    pub producer: String,
}

/// One row of the live-clients listing.
#[derive(Debug, PartialEq, Eq)]
pub struct ClientInfo {
    pub consumer: String,
    pub topic: String,
    pub connected_at: u64,
}

impl View for ClientInfo {
    type V = ClientV;

    open spec fn view(&self) -> ClientV {
        ClientV { consumer: self.consumer@, topic: self.topic@, connected_at: self.connected_at }
    }
}

impl DeepView for ClientInfo {
    type V = ClientV;

    open spec fn deep_view(&self) -> ClientV {
        self.view()
    }
}

impl Clone for ClientInfo {
    fn clone(&self) -> (res: Self)
        ensures
            res == *self,
    {
        ClientInfo {
            consumer: self.consumer.clone(),
            topic: self.topic.clone(),
            connected_at: self.connected_at,
        }
    }
}

/// A message record: stored as published, listed with its body decoded.
#[derive(Debug, PartialEq, Eq)]
pub struct MessageInfo {
    pub topic: String,
    pub message_id: String,
    /// The message body as JSON text.
    pub message: String,
    pub producer: String,
    pub timestamp: u64,
}

impl View for MessageInfo {
    type V = MsgV;

    open spec fn view(&self) -> MsgV {
        MsgV {
            topic: self.topic@,
            message_id: self.message_id@,
            message: self.message@,
            producer: self.producer@,
            timestamp: self.timestamp,
        }
    }
}

impl DeepView for MessageInfo {
    type V = MsgV;

    open spec fn deep_view(&self) -> MsgV {
        self.view()
    }
}

impl Clone for MessageInfo {
    fn clone(&self) -> (res: Self)
        ensures
            res == *self,
    {
        MessageInfo {
            topic: self.topic.clone(),
            message_id: self.message_id.clone(),
            message: self.message.clone(),
            producer: self.producer.clone(),
            timestamp: self.timestamp,
        }
    }
}

/// A consumption record: one acknowledgement by a consumer.
#[derive(Debug, PartialEq, Eq)]
pub struct ConsumptionInfo {
    pub consumer: String,
    pub topic: String,
    pub message_id: String,
    /// The message body as JSON text.
    pub message: String,
    pub timestamp: u64,
}

impl View for ConsumptionInfo {
    type V = ConV;

    open spec fn view(&self) -> ConV {
        ConV {
            consumer: self.consumer@,
            topic: self.topic@,
            message_id: self.message_id@,
            message: self.message@,
            timestamp: self.timestamp,
        }
    }
}

impl DeepView for ConsumptionInfo {
    type V = ConV;

    open spec fn deep_view(&self) -> ConV {
        self.view()
    }
}

impl Clone for ConsumptionInfo {
    fn clone(&self) -> (res: Self)
        ensures
            res == *self,
    {
        ConsumptionInfo {
            consumer: self.consumer.clone(),
            topic: self.topic.clone(),
            message_id: self.message_id.clone(),
            message: self.message.clone(),
            timestamp: self.timestamp,
        }
    }
}

/// A directed edge of the graph projection.
#[derive(Debug, PartialEq, Eq)]
pub struct Link {
    pub source: String,
    pub target: String,
    pub link_type: String,
}

impl View for Link {
    type V = LinkV;

    open spec fn view(&self) -> LinkV {
        LinkV { source: self.source@, target: self.target@, link_type: self.link_type@ }
    }
}

impl DeepView for Link {
    type V = LinkV;

    open spec fn deep_view(&self) -> LinkV {
        self.view()
    }
}

impl Clone for Link {
    fn clone(&self) -> (res: Self)
        ensures
            res == *self,
    {
        Link {
            source: self.source.clone(),
            target: self.target.clone(),
            link_type: self.link_type.clone(),
        }
    }
}

/// The graph projection: distinct producers, consumers and topics, and the
/// publish and consume edges between them.
#[derive(Debug, PartialEq, Eq)]
pub struct GraphState {
    pub producers: Vec<String>,
    pub consumers: Vec<String>,
    pub topics: Vec<String>,
    pub links: Vec<Link>,
}

impl View for GraphState {
    type V = GraphV;

    open spec fn view(&self) -> GraphV {
        GraphV {
            producers: self.producers.deep_view(),
            consumers: self.consumers.deep_view(),
            topics: self.topics.deep_view(),
            links: self.links.deep_view(),
        }
    }
}

impl DeepView for GraphState {
    type V = GraphV;

    open spec fn deep_view(&self) -> GraphV {
        self.view()
    }
}

/// A health probe answer.
#[derive(Debug, PartialEq, Eq)]
pub struct HealthStatus {
    pub status: String,
    pub timestamp: u64,
}

/// A subscribe request read off the subscriber transport.
#[derive(Debug, PartialEq, Eq)]
pub struct SubscribeMessage {
    pub consumer: String,
    pub topics: Vec<String>,
}

/// A consumption acknowledgement read off the subscriber transport.
#[derive(Debug, PartialEq, Eq)]
pub struct ConsumedMessage {
    pub consumer: String,
    pub topic: String,
    pub message_id: String,
    /// The message body as JSON text.
    pub message: String,
}

/// Whether a string equals a literal, by their characters.
pub fn string_eq(a: &String, b: &str) -> (r: bool)
    ensures
        r == (a@ == b@),
{
    let bs: String = b.to_owned();
    a.eq(&bs)
}

/// The two request errors the relay surfaces to its transport.
#[derive(Debug, Clone, Copy, PartialEq, Eq)]
pub enum ApiError {
    /// A required field of a request was empty.
    BadRequest,
    /// The store could not be reached by a health probe.
    Unavailable,
}

} // verus!
