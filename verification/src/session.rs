//! One connection's life: from acceptance, through the messages it sends, to
//! its end.

use vstd::prelude::*;
use crate::ident::{VIEWER_ID_LEN, fresh_viewer_id, is_viewer_id};
use crate::message::{Delivery, DeliveryView, Envelope, SessionId, SignalMessage, outbox_view};
use crate::registry::{Registry, RegistryView, consistent};
use crate::router::{Role, RoleView, route, routed, teardown, torn_down};

verus! {

/// What the read loop of a connection has to report.
pub enum Inbound {
    /// A text frame that decoded into a message.
    Envelope(SignalMessage),
    /// A text frame that did not decode.
    Malformed,
    /// A frame that is no text: binary, ping, pong.
    Other,
    /// The peer closed the connection, or the stream has ended.
    Closed,
    /// The channel reported an error.
    Failed,
    /// The server is shutting down.
    Shutdown,
}

/// The mathematical content of an [`Inbound`].
pub enum InboundView {
    Envelope(Envelope),
    Malformed,
    Other,
    Closed,
    Failed,
    Shutdown,
}

impl View for Inbound {
    type V = InboundView;

    open spec fn view(&self) -> InboundView {
        match *self {
            Inbound::Envelope(message) => InboundView::Envelope(message@),
            Inbound::Malformed => InboundView::Malformed,
            Inbound::Other => InboundView::Other,
            Inbound::Closed => InboundView::Closed,
            Inbound::Failed => InboundView::Failed,
            Inbound::Shutdown => InboundView::Shutdown,
        }
    }
}

impl InboundView {
    /// Whether the event ends the session.
    pub open spec fn is_final(self) -> bool {
        self is Closed || self is Failed || self is Shutdown
    }
}

/// The state of one connection.
pub struct Session {
    id: SessionId,
    role: Role,
    live: bool,
}

/// The mathematical content of a [`Session`].
pub struct SessionView {
    pub id: SessionId,
    pub role: RoleView,
    pub live: bool,
}

impl View for Session {
    type V = SessionView;

    closed spec fn view(&self) -> SessionView {
        SessionView { id: self.id, role: self.role@, live: self.live }
    }
}

/// A session that has just been accepted.
pub open spec fn accepted(id: SessionId) -> SessionView {
    SessionView { id, role: RoleView::Unassigned, live: true }
}

/// The outcome of one event.
pub struct Stepped {
    pub registry: RegistryView,
    pub session: SessionView,
    pub outbox: Seq<DeliveryView>,
}

/// What `event` does to `session` and to the registry.
///
/// A session that has ended ignores every event. A live one routes each
/// message, passes over what is no message, and on a final event runs its
/// teardown and ends.
pub open spec fn stepped(
    registry: RegistryView,
    session: SessionView,
    event: InboundView,
    fresh_id: Seq<char>,
) -> Stepped {
    if !session.live {
        Stepped { registry, session, outbox: Seq::empty() }
    } else {
        match event {
            InboundView::Envelope(message) => {
                let r = routed(registry, session.id, session.role, message, fresh_id);
                Stepped {
                    registry: r.registry,
                    session: SessionView { id: session.id, role: r.role, live: true },
                    outbox: r.outbox,
                }
            },
            InboundView::Malformed | InboundView::Other => Stepped {
                registry,
                session,
                outbox: Seq::empty(),
            },
            InboundView::Closed | InboundView::Failed | InboundView::Shutdown => {
                let t = torn_down(registry, session.role);
                Stepped {
                    registry: t.registry,
                    session: SessionView { id: session.id, role: session.role, live: false },
                    outbox: t.outbox,
                }
            },
        }
    }
}

/// Whether `event` makes `session` a viewer, which is when a fresh id is
/// needed.
pub open spec fn joins(registry: RegistryView, session: SessionView, event: InboundView) -> bool {
    &&& session.live
    &&& session.role is Unassigned
    &&& event matches InboundView::Envelope(Envelope::Viewer { room })
    &&& registry.contains_key(room)
}

/// Only a join looks at the fresh id.
pub proof fn lemma_fresh_id_only_for_joins(
    registry: RegistryView,
    session: SessionView,
    event: InboundView,
    a: Seq<char>,
    b: Seq<char>,
)
    requires
        !joins(registry, session, event),
    ensures
        stepped(registry, session, event, a) == stepped(registry, session, event, b),
{
}

impl Session {
    /// The state of a connection that has just been accepted.
    pub fn new(id: SessionId) -> (session: Session)
        ensures
            session@ == accepted(id),
    {
        Session { id, role: Role::Unassigned, live: true }
    }

    /// The connection's identity.
    pub fn id(&self) -> (id: SessionId)
        ensures
            id == self@.id,
    {
        self.id
    }

    /// The role that the session has taken.
    pub fn role(&self) -> (role: &Role)
        ensures
            role@ == self@.role,
    {
        &self.role
    }

    /// Whether the session has not ended yet.
    pub fn is_live(&self) -> (live: bool)
        ensures
            live == self@.live,
    {
        self.live
    }

    /// Handles one event, with `fresh_id` as the id to give the session if
    /// the event makes it a viewer. Returns the messages to enqueue.
    pub fn advance(&mut self, registry: &mut Registry, event: Inbound, fresh_id: String) -> (out:
        Vec<Delivery>)
        ensures
            final(registry)@ == stepped(old(registry)@, old(self)@, event@, fresh_id@).registry,
            final(self)@ == stepped(old(registry)@, old(self)@, event@, fresh_id@).session,
            outbox_view(out@) == stepped(old(registry)@, old(self)@, event@, fresh_id@).outbox,
            consistent(final(registry)@),
    {
        if !self.live {
            registry.always_consistent();
            let out: Vec<Delivery> = Vec::new();
            assert(outbox_view(out@) =~= Seq::<DeliveryView>::empty());
            return out;
        }
        match event {
            Inbound::Envelope(message) => route(registry, self.id, &mut self.role, message, fresh_id),
            Inbound::Malformed | Inbound::Other => {
                registry.always_consistent();
                let out: Vec<Delivery> = Vec::new();
                assert(outbox_view(out@) =~= Seq::<DeliveryView>::empty());
                out
            },
            Inbound::Closed | Inbound::Failed | Inbound::Shutdown => {
                self.live = false;
                teardown(registry, &self.role)
            },
        }
    }

    fn needs_id(&self, registry: &Registry, event: &Inbound) -> (needed: bool)
        ensures
            needed == joins(registry@, self@, event@),
    {
        if !self.live {
            return false;
        }
        match self.role {
            Role::Unassigned => match event {
                Inbound::Envelope(SignalMessage::Viewer { room }) => registry.lookup_room(
                    room,
                ).is_some(),
                _ => false,
            },
            _ => false,
        }
    }

    /// Handles one event. Where the event makes the session a viewer, its id
    /// is drawn at random; nothing else about the outcome is left open.
    pub fn on_event(&mut self, registry: &mut Registry, event: Inbound) -> (out: Vec<Delivery>)
        ensures
            exists|id: Seq<char>|
                is_viewer_id(id) && #[trigger] stepped(old(registry)@, old(self)@, event@, id) == (
                Stepped {
                    registry: final(registry)@,
                    session: final(self)@,
                    outbox: outbox_view(out@),
                }),
            old(self)@.role is Unassigned ==> match final(self)@.role {
                RoleView::Viewer { room, viewer_id } => is_viewer_id(viewer_id),
                _ => true,
            },
            consistent(final(registry)@),
    {
        let ghost before = registry@;
        let ghost me = self@;
        let ghost what = event@;
        if self.needs_id(registry, &event) {
            let fresh = fresh_viewer_id();
            let ghost id = fresh@;
            let out = self.advance(registry, event, fresh);
            assert(stepped(before, me, what, id) == (Stepped {
                registry: registry@,
                session: self@,
                outbox: outbox_view(out@),
            }));
            out
        } else {
            let out = self.advance(registry, event, String::new());
            proof {
                let id = Seq::new(VIEWER_ID_LEN as nat, |i: int| '0');
                lemma_fresh_id_only_for_joins(before, me, what, id, Seq::<char>::empty());
                assert(is_viewer_id(id));
                assert(stepped(before, me, what, id) == (Stepped {
                    registry: registry@,
                    session: self@,
                    outbox: outbox_view(out@),
                }));
            }
            out
        }
    }
}

} // verus!
