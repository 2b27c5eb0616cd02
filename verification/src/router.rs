//! The message router: what one inbound message does to the registry and to
//! the sender's role, and which sessions hear of it.

use vstd::prelude::*;
use crate::message::{Delivery, DeliveryView, Envelope, SessionId, SignalMessage, outbox_view};
use crate::registry::{
    Registry, RegistryView, ViewerEntry, consistent, sessions_of, viewer_session, with_room,
    with_viewer, without_viewer,
};

verus! {

/// What a session is in the protocol. It starts unassigned and takes one of
/// the two other roles at most once.
#[derive(Debug, Clone, PartialEq, Eq)]
pub enum Role {
    Unassigned,
    Host { room: String },
    Viewer { room: String, viewer_id: String },
}

/// The mathematical content of a [`Role`].
pub enum RoleView {
    Unassigned,
    Host { room: Seq<char> },
    Viewer { room: Seq<char>, viewer_id: Seq<char> },
}

impl View for Role {
    type V = RoleView;

    open spec fn view(&self) -> RoleView {
        match *self {
            Role::Unassigned => RoleView::Unassigned,
            Role::Host { room } => RoleView::Host { room: room@ },
            Role::Viewer { room, viewer_id } => RoleView::Viewer {
                room: room@,
                viewer_id: viewer_id@,
            },
        }
    }
}

/// The text of the answer to a join request for a room that does not exist.
pub open spec fn room_not_found() -> Seq<char> {
    "Room not found"@
}

/// An outbox with the one message `message` for `to`.
pub open spec fn to_one(to: SessionId, message: Envelope) -> Seq<DeliveryView> {
    seq![DeliveryView { to, message }]
}

/// An outbox with `message` for `to`, or an empty one where there is nobody
/// to send it to.
pub open spec fn to_maybe(to: Option<SessionId>, message: Envelope) -> Seq<DeliveryView> {
    match to {
        Some(session) => to_one(session, message),
        None => Seq::empty(),
    }
}

/// The host of room `room`, if the room exists and has one.
pub open spec fn host_of(registry: RegistryView, room: Seq<char>) -> Option<SessionId> {
    if registry.contains_key(room) {
        registry[room].host
    } else {
        None
    }
}

/// The session registered as viewer `id` of room `room`, if there is one.
pub open spec fn viewer_of(registry: RegistryView, room: Seq<char>, id: Seq<char>) -> Option<
    SessionId,
> {
    if registry.contains_key(room) {
        viewer_session(registry[room].viewers, id)
    } else {
        None
    }
}

/// The outcome of routing one message.
pub struct Routed {
    pub registry: RegistryView,
    pub role: RoleView,
    pub outbox: Seq<DeliveryView>,
}

/// The outcome of a message that is dropped.
pub open spec fn dropped(registry: RegistryView, role: RoleView) -> Routed {
    Routed { registry, role, outbox: Seq::empty() }
}

/// What `message`, received from `session` in role `role`, does.
///
/// `fresh_id` is the id that a viewer gets if the message makes the session
/// one; it plays no part otherwise.
pub open spec fn routed(
    registry: RegistryView,
    session: SessionId,
    role: RoleView,
    message: Envelope,
    fresh_id: Seq<char>,
) -> Routed {
    match role {
        RoleView::Unassigned => match message {
            Envelope::Host { room } => Routed {
                registry: with_room(registry, room, session),
                role: RoleView::Host { room },
                outbox: Seq::empty(),
            },
            Envelope::Viewer { room } => if registry.contains_key(room) {
                Routed {
                    registry: with_viewer(registry, room, fresh_id, session),
                    role: RoleView::Viewer { room, viewer_id: fresh_id },
                    outbox: to_maybe(
                        registry[room].host,
                        Envelope::ViewerJoined { viewer_id: fresh_id },
                    ),
                }
            } else {
                Routed {
                    registry,
                    role,
                    outbox: to_one(session, Envelope::Error { message: room_not_found() }),
                }
            },
            _ => dropped(registry, role),
        },
        RoleView::Host { room } => match message {
            Envelope::Offer { viewer_id, sdp } => Routed {
                registry,
                role,
                outbox: to_maybe(viewer_of(registry, room, viewer_id), message),
            },
            Envelope::IceCandidate { viewer_id: Some(viewer_id), candidate } => Routed {
                registry,
                role,
                outbox: to_maybe(viewer_of(registry, room, viewer_id), message),
            },
            _ => dropped(registry, role),
        },
        RoleView::Viewer { room, viewer_id } => match message {
            Envelope::Answer { viewer_id: _, sdp } => Routed {
                registry,
                role,
                outbox: to_maybe(
                    host_of(registry, room),
                    Envelope::Answer { viewer_id: Some(viewer_id), sdp },
                ),
            },
            Envelope::IceCandidate { viewer_id: _, candidate } => Routed {
                registry,
                role,
                outbox: to_maybe(
                    host_of(registry, room),
                    Envelope::IceCandidate { viewer_id: Some(viewer_id), candidate },
                ),
            },
            _ => dropped(registry, role),
        },
    }
}

/// One `HostLeft` for each of `viewers`, in their order.
pub open spec fn host_left_notices(viewers: Seq<ViewerEntry>) -> Seq<DeliveryView> {
    viewers.map_values(|e: ViewerEntry| DeliveryView { to: e.1, message: Envelope::HostLeft })
}

/// The outcome of a session's teardown.
pub struct TornDown {
    pub registry: RegistryView,
    pub outbox: Seq<DeliveryView>,
}

/// What the end of a session in role `role` does.
pub open spec fn torn_down(registry: RegistryView, role: RoleView) -> TornDown {
    match role {
        RoleView::Unassigned => TornDown { registry, outbox: Seq::empty() },
        RoleView::Host { room } => TornDown {
            registry: registry.remove(room),
            outbox: if registry.contains_key(room) {
                host_left_notices(registry[room].viewers)
            } else {
                Seq::empty()
            },
        },
        RoleView::Viewer { room, viewer_id } => TornDown {
            registry: without_viewer(registry, room, viewer_id),
            outbox: to_maybe(host_of(registry, room), Envelope::ViewerLeft { viewer_id }),
        },
    }
}

fn nothing() -> (out: Vec<Delivery>)
    ensures
        outbox_view(out@) == Seq::<DeliveryView>::empty(),
{
    let out: Vec<Delivery> = Vec::new();
    assert(outbox_view(out@) =~= Seq::<DeliveryView>::empty());
    out
}

fn one(to: SessionId, message: SignalMessage) -> (out: Vec<Delivery>)
    ensures
        outbox_view(out@) == to_one(to, message@),
{
    let mut out: Vec<Delivery> = Vec::new();
    out.push(Delivery { to, message });
    assert(outbox_view(out@) =~= to_one(to, message@));
    out
}

fn maybe(to: Option<SessionId>, message: SignalMessage) -> (out: Vec<Delivery>)
    ensures
        outbox_view(out@) == to_maybe(to, message@),
{
    match to {
        Some(session) => one(session, message),
        None => nothing(),
    }
}

fn find_host(registry: &Registry, room: &String) -> (host: Option<SessionId>)
    ensures
        host == host_of(registry@, room@),
        consistent(registry@),
{
    match registry.lookup_room(room) {
        Some(found) => found.host(),
        None => None,
    }
}

fn find_viewer(registry: &Registry, room: &String, id: &String) -> (viewer: Option<SessionId>)
    ensures
        viewer == viewer_of(registry@, room@, id@),
        consistent(registry@),
{
    match registry.lookup_room(room) {
        Some(found) => found.viewer(id),
        None => None,
    }
}

/// Routes one message that `session` has sent.
///
/// Updates the registry and the sender's role and returns the messages to
/// enqueue, each with the session it is for. `fresh_id` becomes the viewer's
/// id where the message makes the session a viewer.
pub fn route(
    registry: &mut Registry,
    session: SessionId,
    role: &mut Role,
    message: SignalMessage,
    fresh_id: String,
) -> (out: Vec<Delivery>)
    ensures
        final(registry)@ == routed(old(registry)@, session, old(role)@, message@, fresh_id@).registry,
        final(role)@ == routed(old(registry)@, session, old(role)@, message@, fresh_id@).role,
        outbox_view(out@) == routed(
            old(registry)@,
            session,
            old(role)@,
            message@,
            fresh_id@,
        ).outbox,
        consistent(final(registry)@),
{
    match role {
        Role::Unassigned => match message {
            SignalMessage::Host { room } => {
                registry.create_room(room.clone(), session);
                *role = Role::Host { room };
                nothing()
            },
            SignalMessage::Viewer { room } => {
                let host = find_host(registry, &room);
                if registry.add_viewer(&room, fresh_id.clone(), session) {
                    let notice = SignalMessage::ViewerJoined { viewer_id: fresh_id.clone() };
                    *role = Role::Viewer { room, viewer_id: fresh_id };
                    maybe(host, notice)
                } else {
                    one(session, SignalMessage::Error { message: "Room not found".to_owned() })
                }
            },
            _ => {
                registry.always_consistent();
                nothing()
            },
        },
        Role::Host { room } => match message {
            SignalMessage::Offer { viewer_id, sdp } => {
                let target = find_viewer(registry, room, &viewer_id);
                maybe(target, SignalMessage::Offer { viewer_id, sdp })
            },
            SignalMessage::IceCandidate { viewer_id: Some(viewer_id), candidate } => {
                let target = find_viewer(registry, room, &viewer_id);
                maybe(target, SignalMessage::IceCandidate { viewer_id: Some(viewer_id), candidate })
            },
            _ => {
                registry.always_consistent();
                nothing()
            },
        },
        Role::Viewer { room, viewer_id } => match message {
            SignalMessage::Answer { viewer_id: _, sdp } => {
                let target = find_host(registry, room);
                maybe(target, SignalMessage::Answer { viewer_id: Some(viewer_id.clone()), sdp })
            },
            SignalMessage::IceCandidate { viewer_id: _, candidate } => {
                let target = find_host(registry, room);
                maybe(
                    target,
                    SignalMessage::IceCandidate { viewer_id: Some(viewer_id.clone()), candidate },
                )
            },
            _ => {
                registry.always_consistent();
                nothing()
            },
        },
    }
}

fn notify_host_left(sessions: &Vec<SessionId>) -> (out: Vec<Delivery>)
    ensures
        outbox_view(out@) == sessions@.map_values(
            |s: SessionId| DeliveryView { to: s, message: Envelope::HostLeft },
        ),
{
    let mut out: Vec<Delivery> = Vec::new();
    let mut i: usize = 0;
    while i < sessions.len()
        invariant
            i <= sessions.len(),
            out@.len() == i,
            forall|k: int| 0 <= k < i ==> (#[trigger] out@[k])@ == (DeliveryView {
                to: sessions@[k],
                message: Envelope::HostLeft,
            }),
        decreases sessions.len() - i,
    {
        out.push(Delivery { to: sessions[i], message: SignalMessage::HostLeft });
        i += 1;
    }
    assert(outbox_view(out@) =~= sessions@.map_values(
        |s: SessionId| DeliveryView { to: s, message: Envelope::HostLeft },
    ));
    out
}

/// Ends a session that had the role `role`.
///
/// A host's room is removed, and each of its viewers is told that the host
/// has left. A viewer is taken out of its room, and the room's host is told.
pub fn teardown(registry: &mut Registry, role: &Role) -> (out: Vec<Delivery>)
    ensures
        final(registry)@ == torn_down(old(registry)@, role@).registry,
        outbox_view(out@) == torn_down(old(registry)@, role@).outbox,
        consistent(final(registry)@),
{
    match role {
        Role::Unassigned => {
            registry.always_consistent();
            nothing()
        },
        Role::Host { room } => {
            let out = match registry.lookup_room(room) {
                Some(found) => {
                    let sessions = found.viewer_sessions();
                    assert(host_left_notices(found@.viewers) =~= sessions_of(
                        found@.viewers,
                    ).map_values(
                        |s: SessionId| DeliveryView { to: s, message: Envelope::HostLeft },
                    ));
                    notify_host_left(&sessions)
                },
                None => nothing(),
            };
            registry.remove_host(room);
            out
        },
        Role::Viewer { room, viewer_id } => {
            let host = find_host(registry, room);
            registry.remove_viewer(room, viewer_id);
            maybe(host, SignalMessage::ViewerLeft { viewer_id: viewer_id.clone() })
        },
    }
}

} // verus!
