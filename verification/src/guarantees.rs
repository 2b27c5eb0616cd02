//! What the relay guarantees, stated over the transition functions and
//! proved from their definitions.

use vstd::prelude::*;
use crate::message::{DeliveryView, Envelope, SessionId};
use crate::registry::{
    RegistryView, RoomView, ViewerEntry, consistent, fresh_room, has_viewer, ids_distinct,
    lemma_drop_viewer, lemma_put_viewer, put_viewer, slot_of,
};
use crate::router::{RoleView, host_of, room_not_found, to_maybe, to_one, viewer_of};
use crate::session::{InboundView, SessionView, Stepped, accepted, stepped};

verus! {

/// An empty registry is consistent, and no event, whoever sends it, makes a
/// consistent registry inconsistent: at every moment each room has at most
/// one host and no viewer id twice.
pub proof fn lemma_consistency_is_kept(
    registry: RegistryView,
    session: SessionView,
    event: InboundView,
    fresh_id: Seq<char>,
)
    requires
        consistent(registry),
    ensures
        consistent(Map::<Seq<char>, RoomView>::empty()),
        consistent(stepped(registry, session, event, fresh_id).registry),
{
    let after = stepped(registry, session, event, fresh_id).registry;
    assert forall|code: Seq<char>| #[trigger] after.contains_key(code) implies ids_distinct(
        after[code].viewers,
    ) by {
        if registry.contains_key(code) {
            assert(ids_distinct(registry[code].viewers));
            lemma_put_viewer(registry[code].viewers, fresh_id, session.id);
            match session.role {
                RoleView::Viewer { room, viewer_id } => {
                    lemma_drop_viewer(registry[code].viewers, viewer_id);
                },
                _ => {},
            }
        }
    }
}

/// Once a session has a role it keeps it, and a session that has ended stays
/// ended and does nothing.
pub proof fn lemma_role_is_written_once(
    registry: RegistryView,
    session: SessionView,
    event: InboundView,
    fresh_id: Seq<char>,
)
    ensures
        !(session.role is Unassigned) ==> stepped(registry, session, event, fresh_id).session.role
            == session.role,
        stepped(registry, session, event, fresh_id).session.id == session.id,
        !session.live ==> stepped(registry, session, event, fresh_id) == (Stepped {
            registry,
            session,
            outbox: Seq::empty(),
        }),
        session.live ==> (stepped(registry, session, event, fresh_id).session.live
            <==> !event.is_final()),
{
}

/// A message that only the relay may send does nothing when a client sends
/// it, and neither does anything that is no message.
pub proof fn lemma_notifications_are_dropped(
    registry: RegistryView,
    session: SessionView,
    message: Envelope,
    fresh_id: Seq<char>,
)
    requires
        !message.from_client(),
    ensures
        stepped(registry, session, InboundView::Envelope(message), fresh_id) == (Stepped {
            registry,
            session,
            outbox: Seq::empty(),
        }),
        stepped(registry, session, InboundView::Malformed, fresh_id) == (Stepped {
            registry,
            session,
            outbox: Seq::empty(),
        }),
        stepped(registry, session, InboundView::Other, fresh_id) == (Stepped {
            registry,
            session,
            outbox: Seq::empty(),
        }),
{
}

/// A new session that claims a room becomes its host and hears nothing. A
/// new session that then joins the room becomes its only viewer, under the
/// id it was given, hears nothing itself, and the host hears of it exactly
/// once.
pub proof fn lemma_host_then_viewer(
    registry: RegistryView,
    host: SessionId,
    viewer: SessionId,
    room: Seq<char>,
    any_id: Seq<char>,
    id: Seq<char>,
)
    ensures
        ({
            let claimed = stepped(
                registry,
                accepted(host),
                InboundView::Envelope(Envelope::Host { room }),
                any_id,
            );
            let joined = stepped(
                claimed.registry,
                accepted(viewer),
                InboundView::Envelope(Envelope::Viewer { room }),
                id,
            );
            &&& claimed.session == (SessionView {
                id: host,
                role: RoleView::Host { room },
                live: true,
            })
            &&& claimed.outbox == Seq::<DeliveryView>::empty()
            &&& claimed.registry == registry.insert(room, fresh_room(host))
            &&& joined.session == (SessionView {
                id: viewer,
                role: RoleView::Viewer { room, viewer_id: id },
                live: true,
            })
            &&& joined.outbox == to_one(host, Envelope::ViewerJoined { viewer_id: id })
            &&& joined.registry == claimed.registry.insert(
                room,
                RoomView { host: Some(host), viewers: seq![(id, viewer)] },
            )
        }),
{
    let claimed = stepped(
        registry,
        accepted(host),
        InboundView::Envelope(Envelope::Host { room }),
        any_id,
    );
    assert(claimed.registry[room] == fresh_room(host));
    assert(!has_viewer(Seq::<ViewerEntry>::empty(), id));
    assert(put_viewer(Seq::<ViewerEntry>::empty(), id, viewer) =~= seq![(id, viewer)]);
}

/// A new session that joins a room with a host, under an id that no viewer
/// of the room has, is added behind the viewers that are there, who stay as
/// they are; the host hears of it exactly once and nobody else hears
/// anything.
pub proof fn lemma_further_viewer(
    registry: RegistryView,
    viewer: SessionId,
    room: Seq<char>,
    id: Seq<char>,
)
    requires
        consistent(registry),
        registry.contains_key(room),
        registry[room].host is Some,
        !has_viewer(registry[room].viewers, id),
    ensures
        ({
            let joined = stepped(
                registry,
                accepted(viewer),
                InboundView::Envelope(Envelope::Viewer { room }),
                id,
            );
            &&& joined.session.role == (RoleView::Viewer { room, viewer_id: id })
            &&& joined.outbox == to_one(
                registry[room].host->0,
                Envelope::ViewerJoined { viewer_id: id },
            )
            &&& joined.registry == registry.insert(
                room,
                RoomView {
                    host: registry[room].host,
                    viewers: registry[room].viewers.push((id, viewer)),
                },
            )
            &&& viewer_of(joined.registry, room, id) == Some(viewer)
            &&& forall|other: Seq<char>|
                other != id ==> #[trigger] viewer_of(joined.registry, room, other) == viewer_of(
                    registry,
                    room,
                    other,
                )
        }),
{
    assert(ids_distinct(registry[room].viewers));
    lemma_put_viewer(registry[room].viewers, id, viewer);
}

/// A join request for a room that does not exist is answered with exactly
/// one error, to the requester, and changes nothing.
pub proof fn lemma_join_unknown_room(
    registry: RegistryView,
    session: SessionId,
    room: Seq<char>,
    fresh_id: Seq<char>,
)
    requires
        !registry.contains_key(room),
    ensures
        stepped(
            registry,
            accepted(session),
            InboundView::Envelope(Envelope::Viewer { room }),
            fresh_id,
        ) == (Stepped {
            registry,
            session: accepted(session),
            outbox: seq![
                DeliveryView {
                    to: session,
                    message: Envelope::Error { message: room_not_found() },
                },
            ],
        }),
{
}

/// An offer from the host of a room goes, as it came, to the session
/// registered under the viewer id it names in that room, and to nobody else;
/// where no session is registered under that id it goes nowhere. Nothing
/// else changes.
pub proof fn lemma_offer_reaches_its_viewer(
    registry: RegistryView,
    host: SessionId,
    room: Seq<char>,
    viewer_id: Seq<char>,
    sdp: Seq<char>,
    fresh_id: Seq<char>,
)
    ensures
        ({
            let sender = SessionView { id: host, role: RoleView::Host { room }, live: true };
            let offer = Envelope::Offer { viewer_id, sdp };
            let after = stepped(registry, sender, InboundView::Envelope(offer), fresh_id);
            &&& after.registry == registry
            &&& after.session == sender
            &&& match viewer_of(registry, room, viewer_id) {
                Some(target) => after.outbox == seq![DeliveryView { to: target, message: offer }],
                None => after.outbox == Seq::<DeliveryView>::empty(),
            }
        }),
{
}

/// A candidate from the host goes, as it came, to the viewer it names; one
/// that names no viewer goes nowhere.
pub proof fn lemma_host_candidate_reaches_its_viewer(
    registry: RegistryView,
    host: SessionId,
    room: Seq<char>,
    viewer_id: Option<Seq<char>>,
    candidate: serde_json::Value,
    fresh_id: Seq<char>,
)
    ensures
        ({
            let sender = SessionView { id: host, role: RoleView::Host { room }, live: true };
            let message = Envelope::IceCandidate { viewer_id, candidate };
            let after = stepped(registry, sender, InboundView::Envelope(message), fresh_id);
            &&& after.registry == registry
            &&& after.session == sender
            &&& after.outbox == match viewer_id {
                Some(id) => to_maybe(viewer_of(registry, room, id), message),
                None => Seq::<DeliveryView>::empty(),
            }
        }),
{
}

/// An answer from a viewer goes to the host of its room under the id that
/// the relay gave the viewer, whatever id the viewer wrote into it. So does
/// a candidate from a viewer.
pub proof fn lemma_answer_carries_the_true_id(
    registry: RegistryView,
    viewer: SessionId,
    room: Seq<char>,
    true_id: Seq<char>,
    claimed_id: Option<Seq<char>>,
    sdp: Seq<char>,
    candidate: serde_json::Value,
    fresh_id: Seq<char>,
)
    ensures
        ({
            let sender = SessionView {
                id: viewer,
                role: RoleView::Viewer { room, viewer_id: true_id },
                live: true,
            };
            let answered = stepped(
                registry,
                sender,
                InboundView::Envelope(Envelope::Answer { viewer_id: claimed_id, sdp }),
                fresh_id,
            );
            let offered = stepped(
                registry,
                sender,
                InboundView::Envelope(Envelope::IceCandidate { viewer_id: claimed_id, candidate }),
                fresh_id,
            );
            &&& answered.registry == registry
            &&& answered.session == sender
            &&& answered.outbox == to_maybe(
                host_of(registry, room),
                Envelope::Answer { viewer_id: Some(true_id), sdp },
            )
            &&& offered.registry == registry
            &&& offered.session == sender
            &&& offered.outbox == to_maybe(
                host_of(registry, room),
                Envelope::IceCandidate { viewer_id: Some(true_id), candidate },
            )
        }),
{
}

/// The viewers of room `room`: none where there is no such room.
pub open spec fn viewers_in(registry: RegistryView, room: Seq<char>) -> Seq<ViewerEntry> {
    if registry.contains_key(room) {
        registry[room].viewers
    } else {
        Seq::empty()
    }
}

/// When the host of a room goes, each viewer then in the room is told so
/// exactly once and nobody else is told anything; the room is removed and
/// the other rooms stay; and a new session that asks to join the room is
/// answered with an error.
pub proof fn lemma_host_disconnect(
    registry: RegistryView,
    host: SessionId,
    room: Seq<char>,
    event: InboundView,
    newcomer: SessionId,
    fresh_id: Seq<char>,
)
    requires
        event.is_final(),
    ensures
        ({
            let leaving = SessionView { id: host, role: RoleView::Host { room }, live: true };
            let after = stepped(registry, leaving, event, fresh_id);
            let retry = stepped(
                after.registry,
                accepted(newcomer),
                InboundView::Envelope(Envelope::Viewer { room }),
                fresh_id,
            );
            &&& !after.session.live
            &&& after.outbox.len() == viewers_in(registry, room).len()
            &&& forall|i: int|
                0 <= i < after.outbox.len() ==> #[trigger] after.outbox[i] == (DeliveryView {
                    to: viewers_in(registry, room)[i].1,
                    message: Envelope::HostLeft,
                })
            &&& after.registry == registry.remove(room)
            &&& !after.registry.contains_key(room)
            &&& forall|code: Seq<char>|
                code != room && registry.contains_key(code) ==> #[trigger] after.registry.contains_key(
                    code,
                ) && after.registry[code] == registry[code]
            &&& retry.registry == after.registry
            &&& retry.outbox == to_one(newcomer, Envelope::Error { message: room_not_found() })
        }),
{
}

/// When a viewer of a room goes, the room's host is told so exactly once,
/// with the viewer's id, and nobody else is told anything; the other viewers
/// of the room and all other rooms stay as they are; and the room still
/// takes new viewers.
pub proof fn lemma_viewer_disconnect(
    registry: RegistryView,
    viewer: SessionId,
    room: Seq<char>,
    viewer_id: Seq<char>,
    event: InboundView,
    newcomer: SessionId,
    fresh_id: Seq<char>,
)
    requires
        consistent(registry),
        registry.contains_key(room),
        registry[room].host is Some,
        event.is_final(),
    ensures
        ({
            let leaving = SessionView {
                id: viewer,
                role: RoleView::Viewer { room, viewer_id },
                live: true,
            };
            let after = stepped(registry, leaving, event, fresh_id);
            let next = stepped(
                after.registry,
                accepted(newcomer),
                InboundView::Envelope(Envelope::Viewer { room }),
                fresh_id,
            );
            &&& !after.session.live
            &&& after.outbox == seq![
                DeliveryView {
                    to: registry[room].host->0,
                    message: Envelope::ViewerLeft { viewer_id },
                },
            ]
            &&& after.registry.dom() == registry.dom()
            &&& after.registry[room].host == registry[room].host
            &&& viewer_of(after.registry, room, viewer_id) is None
            &&& forall|other: Seq<char>|
                other != viewer_id ==> #[trigger] viewer_of(after.registry, room, other)
                    == viewer_of(registry, room, other)
            &&& forall|code: Seq<char>|
                code != room && registry.contains_key(code) ==> #[trigger] after.registry[code]
                    == registry[code]
            &&& next.session.role == (RoleView::Viewer { room, viewer_id: fresh_id })
            &&& viewer_of(next.registry, room, fresh_id) == Some(newcomer)
            &&& next.outbox == to_one(
                registry[room].host->0,
                Envelope::ViewerJoined { viewer_id: fresh_id },
            )
        }),
{
    assert(ids_distinct(registry[room].viewers));
    lemma_drop_viewer(registry[room].viewers, viewer_id);
    let after = stepped(
        registry,
        SessionView { id: viewer, role: RoleView::Viewer { room, viewer_id }, live: true },
        event,
        fresh_id,
    );
    assert(after.registry.dom() =~= registry.dom());
    lemma_put_viewer(after.registry[room].viewers, fresh_id, newcomer);
}


/// Whether `session` hosts `room` or views it.
pub open spec fn in_room(room: RoomView, session: SessionId) -> bool {
    room.host == Some(session) || exists|k: int|
        0 <= k < room.viewers.len() && (#[trigger] room.viewers[k]).1 == session
}

/// Whether `session` hosts or views some room of `registry`.
pub open spec fn is_member(registry: RegistryView, session: SessionId) -> bool {
    exists|code: Seq<char>| #[trigger] registry.contains_key(code) && in_room(registry[code], session)
}

/// Whatever happens, nothing is sent to a stranger: each message goes to the
/// session whose event it answers, or to a session that hosts or views a
/// room.
pub proof fn lemma_deliveries_stay_inside(
    registry: RegistryView,
    session: SessionView,
    event: InboundView,
    fresh_id: Seq<char>,
)
    ensures
        forall|i: int|
            0 <= i < stepped(registry, session, event, fresh_id).outbox.len() ==> {
                let to = (#[trigger] stepped(registry, session, event, fresh_id).outbox[i]).to;
                to == session.id || is_member(registry, to)
            },
{
    let out = stepped(registry, session, event, fresh_id).outbox;
    assert forall|i: int| 0 <= i < out.len() implies {
        let to = (#[trigger] out[i]).to;
        to == session.id || is_member(registry, to)
    } by {
        let to = out[i].to;
        if to != session.id {
            match session.role {
                RoleView::Unassigned => {
                    match event {
                        InboundView::Envelope(Envelope::Viewer { room }) => {
                            assert(registry.contains_key(room));
                            assert(in_room(registry[room], to));
                        },
                        _ => {},
                    }
                },
                RoleView::Host { room } => {
                    assert(registry.contains_key(room));
                    if event.is_final() {
                        assert(registry[room].viewers[i].1 == to);
                    } else {
                        match event {
                            InboundView::Envelope(Envelope::Offer { viewer_id, sdp }) => {
                                let k = slot_of(registry[room].viewers, viewer_id);
                                assert(registry[room].viewers[k].1 == to);
                            },
                            InboundView::Envelope(
                                Envelope::IceCandidate { viewer_id: Some(viewer_id), candidate },
                            ) => {
                                let k = slot_of(registry[room].viewers, viewer_id);
                                assert(registry[room].viewers[k].1 == to);
                            },
                            _ => {},
                        }
                    }
                    assert(in_room(registry[room], to));
                },
                RoleView::Viewer { room, viewer_id } => {
                    assert(registry.contains_key(room));
                    assert(in_room(registry[room], to));
                },
            }
        }
    }
}

} // verus!
