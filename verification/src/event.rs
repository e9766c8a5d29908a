//! The event capability interface.
//!
//! An event is an opaque, immutable record delivered to handlers.  Handlers
//! and routers reach it through a closed set of facets: a type tag, a
//! decoded content payload, an emitter identifier and an optional
//! channel identifier.  Content is inspected through a safe
//! downcast-or-miss discipline: asking a payload for a shape it does not
//! have is a miss, never a fault.

use vstd::prelude::*;

verus! {

/// The decoded content payload of an event, as routers see it.
pub enum Content {
    /// Plain text: the joined message segments.
    Text(String),
    /// An integral payload.
    Integer(i64),
    /// A failure raised elsewhere in the pipeline, carried as an event so
    /// that dedicated error handlers can route on its kind.
    Fault { kind: String, message: String },
}

/// The mathematical shape of a content payload.
pub enum ContentView {
    Text(Seq<char>),
    Integer(int),
    Fault { kind: Seq<char>, message: Seq<char> },
}

impl View for Content {
    type V = ContentView;

    open spec fn view(&self) -> ContentView {
        match self {
            Content::Text(s) => ContentView::Text(s@),
            Content::Integer(n) => ContentView::Integer(*n as int),
            Content::Fault { kind, message } => ContentView::Fault {
                kind: kind@,
                message: message@,
            },
        }
    }
}

/// Two payloads are the same content: the same shape carrying the same
/// value.  Distinct shapes never compare equal — a shape mismatch is a
/// routing miss, not a fault.
pub open spec fn content_view_eq(a: ContentView, b: ContentView) -> bool {
    match (a, b) {
        (ContentView::Text(x), ContentView::Text(y)) => x == y,
        (ContentView::Integer(x), ContentView::Integer(y)) => x == y,
        (
            ContentView::Fault { kind: ka, message: ma },
            ContentView::Fault { kind: kb, message: mb },
        ) => ka == kb && ma == mb,
        _ => false,
    }
}

/// Decide `content_view_eq` on two payloads.
pub fn content_eq(a: &Content, b: &Content) -> (r: bool)
    ensures
        r == content_view_eq(a@, b@),
{
    match (a, b) {
        (Content::Text(x), Content::Text(y)) => crate::text::str_eq(x.as_str(), y.as_str()),
        (Content::Integer(x), Content::Integer(y)) => x == y,
        (
            Content::Fault { kind: ka, message: ma },
            Content::Fault { kind: kb, message: mb },
        ) => {
            let same_kind = crate::text::str_eq(ka.as_str(), kb.as_str());
            let same_message = crate::text::str_eq(ma.as_str(), mb.as_str());
            same_kind && same_message
        },
        _ => false,
    }
}

/// Why an event facet was refused.
#[derive(PartialEq, Eq, Structural, Clone, Copy, Debug)]
pub enum EventError {
    /// The event belongs to no channel or group: a direct message.
    NoChannel,
    /// The content payload does not carry plain text.
    NotText,
}

impl EventError {
    /// A short description of the failure.
    pub fn describe(&self) -> (r: &'static str)
        ensures
            *self == EventError::NoChannel ==> r@ == "no channel in this event"@,
            *self == EventError::NotText ==> r@ == "content is not plain text"@,
    {
        match self {
            EventError::NoChannel => "no channel in this event",
            EventError::NotText => "content is not plain text",
        }
    }
}

/// One inbound event, accessed polymorphically.  Every facet is a pure
/// function of the event; absence of a facet is an explicit failure, never
/// a crash.
pub trait Event {
    /// The type tag of the event.
    spec fn type_tag(&self) -> Seq<char>;

    /// The decoded content payload.
    spec fn content_view(&self) -> ContentView;

    /// Who emitted the event.
    spec fn emitter(&self) -> Seq<char>;

    /// The channel or group the event belongs to, if any.
    spec fn channel(&self) -> Option<Seq<char>>;

    /// The type tag of the event.
    fn event_type(&self) -> (r: String)
        ensures
            r@ == self.type_tag();

    /// The decoded content of the event.
    fn content(&self) -> (r: Content)
        ensures
            r@ == self.content_view();

    /// The emitter identifier of the event.
    fn emitter_id(&self) -> (r: String)
        ensures
            r@ == self.emitter();

    /// The channel identifier of the event; a direct message has none, and
    /// asking for it is then an explicit failure.
    fn channel_id(&self) -> (r: Result<String, EventError>)
        ensures
            match r {
                Ok(c) => self.channel() == Some(c@),
                Err(e) => self.channel() is None && e == EventError::NoChannel,
            };

    /// The plain text of the event, if the content carries text.
    fn plain_text(&self) -> (r: Result<String, EventError>)
        ensures
            match r {
                Ok(t) => self.content_view() == ContentView::Text(t@),
                Err(e) => !(self.content_view() is Text) && e == EventError::NotText,
            },
    {
        match self.content() {
            Content::Text(t) => Ok(t),
            _ => Err(EventError::NotText),
        }
    }
}

/// A bare string is itself an event: its content is its own text.  It names
/// no emitter and belongs to no channel.
impl Event for String {
    open spec fn type_tag(&self) -> Seq<char> {
        "string_event"@
    }

    open spec fn content_view(&self) -> ContentView {
        ContentView::Text(self@)
    }

    open spec fn emitter(&self) -> Seq<char> {
        Seq::empty()
    }

    open spec fn channel(&self) -> Option<Seq<char>> {
        None
    }

    fn event_type(&self) -> (r: String) {
        let r = "string_event".to_owned();
        proof {
            assert(r@ == "string_event"@);
        }
        r
    }

    fn content(&self) -> (r: Content) {
        Content::Text(self.clone())
    }

    fn emitter_id(&self) -> (r: String) {
        String::new()
    }

    fn channel_id(&self) -> (r: Result<String, EventError>) {
        Err(EventError::NoChannel)
    }
}

impl Clone for Content {
    /// A clone carries the same payload.
    fn clone(&self) -> (res: Self)
        ensures
            res == *self,
    {
        match self {
            Content::Text(s) => Content::Text(s.clone()),
            Content::Integer(n) => Content::Integer(*n),
            Content::Fault { kind, message } => Content::Fault {
                kind: kind.clone(),
                message: message.clone(),
            },
        }
    }
}

} // verus!
