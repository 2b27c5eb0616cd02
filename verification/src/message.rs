//! The signaling protocol: one tagged message per frame.

use vstd::prelude::*;
use crate::text::text_of;

verus! {

/// Identity of one accepted connection, chosen by whoever accepts it.
pub type SessionId = u64;

/// `serde_json::Value`, the parsed form of an arbitrary JSON document. The
/// relay never looks inside one: a connectivity candidate is carried from
/// sender to receiver as it came.
#[verifier::external_type_specification]
#[verifier::external_body]
pub struct ExJsonValue(serde_json::Value);

/// A message of the signaling protocol.
///
/// `Host`, `Viewer`, `Offer`, `Answer` and `IceCandidate` come from clients.
/// `ViewerJoined`, `ViewerLeft`, `HostLeft` and `Error` are only ever sent by
/// the relay.
#[allow(inconsistent_fields)]
#[derive(Debug, PartialEq)]
pub enum SignalMessage {
    Host { room: String },
    Viewer { room: String },
    Offer { viewer_id: String, sdp: String },
    Answer { viewer_id: Option<String>, sdp: String },
    IceCandidate { viewer_id: Option<String>, candidate: serde_json::Value },
    ViewerJoined { viewer_id: String },
    ViewerLeft { viewer_id: String },
    HostLeft,
    Error { message: String },
}

/// The mathematical content of a [`SignalMessage`]: texts as sequences of
/// characters, the candidate as the opaque document it is.
#[allow(inconsistent_fields)]
pub enum Envelope {
    Host { room: Seq<char> },
    Viewer { room: Seq<char> },
    Offer { viewer_id: Seq<char>, sdp: Seq<char> },
    Answer { viewer_id: Option<Seq<char>>, sdp: Seq<char> },
    IceCandidate { viewer_id: Option<Seq<char>>, candidate: serde_json::Value },
    ViewerJoined { viewer_id: Seq<char> },
    ViewerLeft { viewer_id: Seq<char> },
    HostLeft,
    Error { message: Seq<char> },
}

impl View for SignalMessage {
    type V = Envelope;

    open spec fn view(&self) -> Envelope {
        match *self {
            SignalMessage::Host { room } => Envelope::Host { room: room@ },
            SignalMessage::Viewer { room } => Envelope::Viewer { room: room@ },
            SignalMessage::Offer { viewer_id, sdp } => Envelope::Offer {
                viewer_id: viewer_id@,
                sdp: sdp@,
            },
            SignalMessage::Answer { viewer_id, sdp } => Envelope::Answer {
                viewer_id: text_of(viewer_id),
                sdp: sdp@,
            },
            SignalMessage::IceCandidate { viewer_id, candidate } => Envelope::IceCandidate {
                viewer_id: text_of(viewer_id),
                candidate,
            },
            SignalMessage::ViewerJoined { viewer_id } => Envelope::ViewerJoined {
                viewer_id: viewer_id@,
            },
            SignalMessage::ViewerLeft { viewer_id } => Envelope::ViewerLeft {
                viewer_id: viewer_id@,
            },
            SignalMessage::HostLeft => Envelope::HostLeft,
            SignalMessage::Error { message } => Envelope::Error { message: message@ },
        }
    }
}

impl Envelope {
    /// Whether a client may send this message. The four notifications are
    /// the relay's own and are never acted on when they arrive as input.
    pub open spec fn from_client(self) -> bool {
        self is Host || self is Viewer || self is Offer || self is Answer || self is IceCandidate
    }
}

impl SignalMessage {
    /// Whether a client may send this message.
    pub fn is_client_message(&self) -> (b: bool)
        ensures
            b == self@.from_client(),
    {
        match self {
            SignalMessage::Host { .. } => true,
            SignalMessage::Viewer { .. } => true,
            SignalMessage::Offer { .. } => true,
            SignalMessage::Answer { .. } => true,
            SignalMessage::IceCandidate { .. } => true,
            _ => false,
        }
    }
}

/// One outbound message together with the session whose queue it goes to.
#[derive(Debug, PartialEq)]
pub struct Delivery {
    pub to: SessionId,
    pub message: SignalMessage,
}

/// The mathematical content of a [`Delivery`].
pub struct DeliveryView {
    pub to: SessionId,
    pub message: Envelope,
}

impl View for Delivery {
    type V = DeliveryView;

    open spec fn view(&self) -> DeliveryView {
        DeliveryView { to: self.to, message: self.message@ }
    }
}

/// The contents of an outbox, in the order in which it is to be sent.
pub open spec fn outbox_view(out: Seq<Delivery>) -> Seq<DeliveryView> {
    out.map_values(|d: Delivery| d@)
}

} // verus!
