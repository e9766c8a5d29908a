//! The wire-shaped records of the chat protocol, held as plain values, and
//! the pure logic over them: classifying an inbound record, joining its
//! message segments into the event text, and building the outbound reply
//! action.  Decoding the wire format into these records, and encoding the
//! action back, is the transport adapter's work.

use vstd::prelude::*;

use crate::event::Content;
use crate::event::ContentView;
use crate::event::Event;
use crate::event::EventError;
use crate::text::dec_int;
use crate::text::i64_to_decimal;
use crate::text::str_eq;

verus! {

/// The least that any inbound record carries: enough to classify it.
pub struct MinimalEvent {
    pub time: i64,
    pub self_id: i64,
    pub post_type: String,
}

impl MinimalEvent {
    /// Is this a message record?  Only message records become events.
    pub fn is_message(&self) -> (r: bool)
        ensures
            r == (self.post_type@ == "message"@),
    {
        str_eq(self.post_type.as_str(), "message")
    }

    /// Is this a notice record?
    pub fn is_notice(&self) -> (r: bool)
        ensures
            r == (self.post_type@ == "notice"@),
    {
        str_eq(self.post_type.as_str(), "notice")
    }

    /// Is this a request record?
    pub fn is_request(&self) -> (r: bool)
        ensures
            r == (self.post_type@ == "request"@),
    {
        str_eq(self.post_type.as_str(), "request")
    }

    /// Is this a meta record?
    pub fn is_meta_event(&self) -> (r: bool)
        ensures
            r == (self.post_type@ == "meta_event"@),
    {
        str_eq(self.post_type.as_str(), "meta_event")
    }
}

/// Who sent a message.
pub struct Sender {
    pub user_id: Option<i64>,
    pub nickname: Option<String>,
    pub sex: Option<String>,
    pub age: Option<i32>,
    pub area: Option<String>,
    pub level: Option<String>,
    pub role: Option<String>,
    pub title: Option<String>,
}

/// An anonymous sender's identity.
pub struct Anonymous {
    pub id: i64,
    pub name: String,
    pub flag: String,
}

/// The payload of one message segment.
pub struct MessageData {
    pub text: String,
    pub qq: String,
}

/// One segment of a message: a kind tag and its payload.
pub struct MessageSegment {
    pub segment_type: String,
    pub data: MessageData,
}

/// One full message record from the wire.
pub struct MessageEvent {
    pub time: i64,
    pub self_id: i64,
    pub post_type: String,
    pub message_type: String,
    pub sub_type: String,
    pub message_id: i64,
    pub group_id: Option<i64>,
    pub user_id: i64,
    pub anonymous: Option<String>,
    pub message: Vec<MessageSegment>,
    pub message_format: String,
    pub raw_message: String,
    pub font: i32,
    pub sender: Sender,
}

/// The text of a message: its segments' texts, joined in order.
pub open spec fn joined_text(segments: Seq<MessageSegment>) -> Seq<char>
    decreases segments.len(),
{
    if segments.len() == 0 {
        Seq::empty()
    } else {
        joined_text(segments.drop_last()) + segments.last().data.text@
    }
}

impl MessageEvent {
    /// Join the segment texts into the event's plain text.
    #[verifier::loop_isolation(false)]
    pub fn content_text(&self) -> (r: String)
        ensures
            r@ == joined_text(self.message@),
    {
        let mut acc = String::new();
        let n = self.message.len();
        let mut i: usize = 0;
        while i < n
            invariant
                0 <= i <= n,
                acc@ == joined_text(self.message@.subrange(0, i as int)),
            decreases n - i,
        {
            acc.append(self.message[i].data.text.as_str());
            i += 1;
            proof {
                let sub = self.message@.subrange(0, i as int);
                assert(sub.drop_last() =~= self.message@.subrange(0, i - 1));
                assert(sub.last() == self.message@[i - 1]);
            }
        }
        proof {
            assert(self.message@.subrange(0, n as int) =~= self.message@);
        }
        acc
    }

    /// Is this a direct message rather than one from a group?
    pub fn is_private(&self) -> (r: bool)
        ensures
            r == (self.message_type@ == "private"@),
    {
        str_eq(self.message_type.as_str(), "private")
    }
}

/// One decoded inbound event: the message record, bound to the connection
/// it arrived on so that replies can find their way back.
pub struct OnebotEvent {
    pub plain_data: MessageEvent,
    /// The registry token of the originating connection.
    pub origin: u64,
}

impl OnebotEvent {
    /// Is this a direct message rather than one from a group?
    pub fn is_private(&self) -> (r: bool)
        ensures
            r == (self.plain_data.message_type@ == "private"@),
    {
        self.plain_data.is_private()
    }
}

impl Event for OnebotEvent {
    open spec fn type_tag(&self) -> Seq<char> {
        self.plain_data.message_type@
    }

    open spec fn content_view(&self) -> ContentView {
        ContentView::Text(joined_text(self.plain_data.message@))
    }

    open spec fn emitter(&self) -> Seq<char> {
        dec_int(self.plain_data.user_id as int)
    }

    open spec fn channel(&self) -> Option<Seq<char>> {
        match self.plain_data.group_id {
            Some(g) => Some(dec_int(g as int)),
            None => None,
        }
    }

    fn event_type(&self) -> (r: String) {
        self.plain_data.message_type.clone()
    }

    fn content(&self) -> (r: Content) {
        Content::Text(self.plain_data.content_text())
    }

    fn emitter_id(&self) -> (r: String) {
        i64_to_decimal(self.plain_data.user_id)
    }

    fn channel_id(&self) -> (r: Result<String, EventError>) {
        match self.plain_data.group_id {
            Some(g) => Ok(i64_to_decimal(g)),
            None => Err(EventError::NoChannel),
        }
    }
}

/// The parameters of one outbound action.
pub struct ActionParams {
    pub group_id: Option<i64>,
    pub user_id: Option<i64>,
    pub message: String,
}

/// One outbound action for the transport adapter to encode and send.
pub struct Action {
    pub action: String,
    pub params: ActionParams,
    pub echo: Option<String>,
}

/// The reply to an event: a direct message back to its emitter when the
/// event was private, a group message to its channel otherwise.
pub fn reply_action(event: &OnebotEvent, message: &str) -> (a: Action)
    ensures
        event.plain_data.message_type@ == "private"@ ==> a.action@ == "send_private_msg"@
            && a.params.group_id is None,
        event.plain_data.message_type@ != "private"@ ==> a.action@ == "send_group_msg"@
            && a.params.group_id == event.plain_data.group_id,
        a.params.user_id == Some(event.plain_data.user_id),
        a.params.message@ == message@,
        a.echo matches Some(e) && e@ == "0"@,
{
    let private = event.is_private();
    Action {
        action: if private {
            "send_private_msg".to_owned()
        } else {
            "send_group_msg".to_owned()
        },
        params: ActionParams {
            group_id: if private {
                None
            } else {
                event.plain_data.group_id
            },
            user_id: Some(event.plain_data.user_id),
            message: message.to_owned(),
        },
        echo: Some("0".to_owned()),
    }
}

} // verus!
