//! Events published to the subscriber, and the payload that carries them.

use vstd::prelude::*;

verus! {

/// What a connection reports about itself.
#[derive(Clone, Debug, PartialEq, Eq)]
pub enum Event {
    /// Bytes that arrived, exactly as they were read.
    Data(Vec<u8>),
    /// The text of a failure.
    Error(String),
    /// The connection came up (`true`) or went away (`false`).
    ConnectionStateChanged(bool),
}

/// The mathematical value of an [`Event`].
pub enum EventView {
    Data(Seq<u8>),
    Error(Seq<char>),
    ConnectionStateChanged(bool),
}

impl View for Event {
    type V = EventView;

    open spec fn view(&self) -> EventView {
        match self {
            Event::Data(bytes) => EventView::Data(bytes@),
            Event::Error(text) => EventView::Error(text@),
            Event::ConnectionStateChanged(up) => EventView::ConnectionStateChanged(*up),
        }
    }
}

/// The bytes of a `message` field.
#[derive(Clone, Debug, PartialEq, Eq)]
pub struct MessageData {
    pub data: Vec<u8>,
}

/// The `event` object of a payload: three optional fields, of which a
/// published event fills exactly one.
#[derive(Clone, Debug, PartialEq, Eq)]
pub struct MessageEvent {
    pub message: Option<MessageData>,
    pub error: Option<String>,
    pub connected: Option<bool>,
}

/// The mathematical value of a [`MessageEvent`].
pub struct MessageEventView {
    pub message: Option<Seq<u8>>,
    pub error: Option<Seq<char>>,
    pub connected: Option<bool>,
}

impl MessageEventView {
    /// How many of the three fields are filled.
    pub open spec fn populated(self) -> nat {
        (if self.message is Some {
            1nat
        } else {
            0nat
        }) + (if self.error is Some {
            1nat
        } else {
            0nat
        }) + (if self.connected is Some {
            1nat
        } else {
            0nat
        })
    }

    /// The fields that carry `event`.
    pub open spec fn of(event: EventView) -> MessageEventView {
        match event {
            EventView::Data(bytes) => MessageEventView {
                message: Some(bytes),
                error: None,
                connected: None,
            },
            EventView::Error(text) => MessageEventView {
                message: None,
                error: Some(text),
                connected: None,
            },
            EventView::ConnectionStateChanged(up) => MessageEventView {
                message: None,
                error: None,
                connected: Some(up),
            },
        }
    }
}

impl View for MessageEvent {
    type V = MessageEventView;

    open spec fn view(&self) -> MessageEventView {
        MessageEventView {
            message: match self.message {
                Some(m) => Some(m.data@),
                None => None,
            },
            error: match self.error {
                Some(e) => Some(e@),
                None => None,
            },
            connected: self.connected,
        }
    }
}

impl MessageEvent {
    /// Lays `event` out in the three fields.
    pub fn from_event(event: Event) -> (fields: MessageEvent)
        ensures
            fields@ == MessageEventView::of(event@),
            fields@.populated() == 1,
    {
        match event {
            Event::Data(bytes) => MessageEvent {
                message: Some(MessageData { data: bytes }),
                error: None,
                connected: None,
            },
            Event::Error(text) => MessageEvent { message: None, error: Some(text), connected: None },
            Event::ConnectionStateChanged(up) => MessageEvent {
                message: None,
                error: None,
                connected: Some(up),
            },
        }
    }
}

/// One emission: the connection it is about, and what happened.
#[derive(Clone, Debug, PartialEq, Eq)]
pub struct ReceivedPayload {
    pub id: String,
    pub event: MessageEvent,
}

/// The mathematical value of a [`ReceivedPayload`].
pub struct ReceivedPayloadView {
    pub id: Seq<char>,
    pub event: MessageEventView,
}

impl View for ReceivedPayload {
    type V = ReceivedPayloadView;

    open spec fn view(&self) -> ReceivedPayloadView {
        ReceivedPayloadView { id: self.id@, event: self.event@ }
    }
}

/// The payload that reports `event` for the connection `id`.
pub open spec fn payload(id: Seq<char>, event: EventView) -> ReceivedPayloadView {
    ReceivedPayloadView { id, event: MessageEventView::of(event) }
}

impl ReceivedPayload {
    /// The payload that reports `event` for the connection `id`.
    pub fn new(id: String, event: Event) -> (p: ReceivedPayload)
        ensures
            p@ == payload(id@, event@),
            p@.event.populated() == 1,
    {
        ReceivedPayload { id, event: MessageEvent::from_event(event) }
    }
}

/// The views of a run of payloads, in order.
pub open spec fn payload_views(payloads: Seq<ReceivedPayload>) -> Seq<ReceivedPayloadView> {
    payloads.map_values(|p: ReceivedPayload| p@)
}

/// Every event fills exactly one of the three fields of its payload.
pub proof fn lemma_exactly_one_field(event: EventView)
    ensures
        MessageEventView::of(event).populated() == 1,
{
}

/// Two events that fill the fields alike are the same event: the payload
/// loses nothing.
pub proof fn lemma_fields_determine_event(a: EventView, b: EventView)
    requires
        MessageEventView::of(a) == MessageEventView::of(b),
    ensures
        a == b,
{
}

} // verus!
