//! What the connector says on the broker.
use crate::json::{printed, Json, JsonObject, JsonView};
use crate::keyed::{field, with_field};
use crate::json::Fields;
use crate::model::{format_rfc3339_ms, timestamp_text};
use vstd::prelude::*;

verus! {

/// A message to publish.
#[derive(Debug, PartialEq)]
pub struct Message {
    pub topic: String,
    pub payload: String,
    /// Whether the broker keeps it for those who come later.
    pub retain: bool,
}

/// What a message is.
#[verifier::ext_equal]
pub struct MessageView {
    pub topic: Seq<char>,
    pub payload: Seq<char>,
    pub retain: bool,
}

impl View for Message {
    type V = MessageView;

    open spec fn view(&self) -> MessageView {
        MessageView { topic: self.topic@, payload: self.payload@, retain: self.retain }
    }
}

/// What each message is.
pub open spec fn message_views(v: Seq<Message>) -> Seq<MessageView> {
    v.map_values(|m: Message| m@)
}

/// What an optional message is.
pub open spec fn message_of(m: Option<Message>) -> Option<MessageView> {
    match m {
        Some(x) => Some(x@),
        None => None,
    }
}

/// The message that keeps a value on a topic.
pub open spec fn retained_message(topic: Seq<char>, value: JsonView) -> MessageView {
    MessageView { topic, payload: printed(value), retain: true }
}

/// The message that keeps a value on a topic.
pub fn retained(topic: &str, value: &Json) -> (r: Message)
    ensures
        r@ == retained_message(topic@, value@),
{
    Message { topic: topic.to_owned(), payload: value.print(), retain: true }
}

/// How the service is, as of a point in time.
pub open spec fn health_fields(status: Seq<char>, now: int) -> Fields {
    let f = with_field(Fields::empty(), "status"@, JsonView::Text(status));
    with_field(f, "time"@, JsonView::Text(timestamp_text(now)))
}

/// How the service is, as of a point in time.
pub fn health(status: &str, now: i128) -> (r: Json)
    ensures
        r@ == JsonView::Object(health_fields(status@, now as int)),
{
    let mut obj = JsonObject::new();
    obj.insert("status", Json::text(status));
    obj.insert("time", Json::of_string(format_rfc3339_ms(now)));
    Json::of_object(obj)
}

/// What is said of the service is how it is and since when, on a message that the broker keeps.
pub proof fn health_says_how_the_service_is(topic: Seq<char>, status: Seq<char>, now: int, v: JsonView)
    ensures
        field(health_fields(status, now), "status"@) == Some(JsonView::Text(status)),
        field(health_fields(status, now), "time"@) == Some(JsonView::Text(timestamp_text(now))),
        retained_message(topic, v).topic == topic,
        retained_message(topic, v).payload == printed(v),
        retained_message(topic, v).retain,
{
    broadcast use crate::keyed::field_once_set;

    reveal_strlit("status");
    reveal_strlit("time");
    assert("status"@.len() == 6 && "time"@.len() == 4);
}

} // verus!
