//! The wire form of an outbound message: one JSON object with the message's
//! kind under `type` and its fields under their own names.

use vstd::prelude::*;
use vstd::string::StringExecFns;
use crate::message::{Envelope, SignalMessage};
use crate::text::text_of;

verus! {

/// The JSON text of the string `text`: `text` between quotes, with the
/// characters that JSON does not take as they are written as escapes.
pub uninterp spec fn json_quoted(text: Seq<char>) -> Seq<char>;

/// The JSON text of the document `value`, without white space.
pub uninterp spec fn json_text(value: serde_json::Value) -> Seq<char>;

/// `serde_json::to_string` on a `str`. The contract gives the result its
/// name: it is a function of the text alone. The call returns an error only
/// where the writer does, and it writes into a vector, which takes
/// everything; so the result is always there.
#[verifier::external_body]
fn quote(text: &str) -> (out: String)
    ensures
        out@ == json_quoted(text@),
{
    match serde_json::to_string(text) {
        Ok(out) => out,
        Err(_) => String::new(),
    }
}

/// `serde_json::to_string` on a `serde_json::Value`. The contract gives the
/// result its name: it is a function of the document alone. A document
/// holds nothing that the call refuses (its keys are strings, and a number
/// that is not finite cannot be in one); so the result is always there.
#[verifier::external_body]
fn document(value: &serde_json::Value) -> (out: String)
    ensures
        out@ == json_text(*value),
{
    match serde_json::to_string(value) {
        Ok(out) => out,
        Err(_) => String::new(),
    }
}

/// The JSON text of an optional string: `null` where there is none.
pub open spec fn json_optional(text: Option<Seq<char>>) -> Seq<char> {
    match text {
        Some(t) => json_quoted(t),
        None => "null"@,
    }
}

/// The frame that carries `message`.
pub open spec fn encoded(message: Envelope) -> Seq<char> {
    match message {
        Envelope::Host { room } => "{\"type\":\"host\",\"room\":"@ + json_quoted(room) + "}"@,
        Envelope::Viewer { room } => "{\"type\":\"viewer\",\"room\":"@ + json_quoted(room) + "}"@,
        Envelope::Offer { viewer_id, sdp } => "{\"type\":\"offer\",\"viewerId\":"@ + json_quoted(
            viewer_id,
        ) + ",\"sdp\":"@ + json_quoted(sdp) + "}"@,
        Envelope::Answer { viewer_id, sdp } => "{\"type\":\"answer\",\"viewerId\":"@
            + json_optional(viewer_id) + ",\"sdp\":"@ + json_quoted(sdp) + "}"@,
        Envelope::IceCandidate { viewer_id, candidate } =>
            "{\"type\":\"ice-candidate\",\"viewerId\":"@ + json_optional(viewer_id)
                + ",\"candidate\":"@ + json_text(candidate) + "}"@,
        Envelope::ViewerJoined { viewer_id } => "{\"type\":\"viewer-joined\",\"viewerId\":"@
            + json_quoted(viewer_id) + "}"@,
        Envelope::ViewerLeft { viewer_id } => "{\"type\":\"viewer-left\",\"viewerId\":"@
            + json_quoted(viewer_id) + "}"@,
        Envelope::HostLeft => "{\"type\":\"host-left\"}"@,
        Envelope::Error { message } => "{\"type\":\"error\",\"message\":"@ + json_quoted(message)
            + "}"@,
    }
}

fn quote_optional(text: &Option<String>) -> (out: String)
    ensures
        out@ == json_optional(text_of(*text)),
{
    match text {
        Some(t) => quote(t.as_str()),
        None => "null".to_owned(),
    }
}

fn one_field(head: &str, value: String) -> (frame: String)
    ensures
        frame@ == head@ + value@ + "}"@,
{
    let mut frame = head.to_owned();
    frame.append(value.as_str());
    frame.append("}");
    frame
}

fn two_fields(head: &str, first: String, middle: &str, second: String) -> (frame: String)
    ensures
        frame@ == head@ + first@ + middle@ + second@ + "}"@,
{
    let mut frame = head.to_owned();
    frame.append(first.as_str());
    frame.append(middle);
    frame.append(second.as_str());
    frame.append("}");
    frame
}

/// Writes `message` as the text of one frame.
pub fn encode(message: &SignalMessage) -> (frame: String)
    ensures
        frame@ == encoded(message@),
{
    match message {
        SignalMessage::Host { room } => one_field(
            "{\"type\":\"host\",\"room\":",
            quote(room.as_str()),
        ),
        SignalMessage::Viewer { room } => one_field(
            "{\"type\":\"viewer\",\"room\":",
            quote(room.as_str()),
        ),
        SignalMessage::Offer { viewer_id, sdp } => two_fields(
            "{\"type\":\"offer\",\"viewerId\":",
            quote(viewer_id.as_str()),
            ",\"sdp\":",
            quote(sdp.as_str()),
        ),
        SignalMessage::Answer { viewer_id, sdp } => two_fields(
            "{\"type\":\"answer\",\"viewerId\":",
            quote_optional(viewer_id),
            ",\"sdp\":",
            quote(sdp.as_str()),
        ),
        SignalMessage::IceCandidate { viewer_id, candidate } => two_fields(
            "{\"type\":\"ice-candidate\",\"viewerId\":",
            quote_optional(viewer_id),
            ",\"candidate\":",
            document(candidate),
        ),
        SignalMessage::ViewerJoined { viewer_id } => one_field(
            "{\"type\":\"viewer-joined\",\"viewerId\":",
            quote(viewer_id.as_str()),
        ),
        SignalMessage::ViewerLeft { viewer_id } => one_field(
            "{\"type\":\"viewer-left\",\"viewerId\":",
            quote(viewer_id.as_str()),
        ),
        SignalMessage::HostLeft => "{\"type\":\"host-left\"}".to_owned(),
        SignalMessage::Error { message } => one_field(
            "{\"type\":\"error\",\"message\":",
            quote(message.as_str()),
        ),
    }
}

} // verus!
