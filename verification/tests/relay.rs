use signal_relay::lifecycle::{
    listen_address, start_signaling_server, stop_signaling_server, Lifecycle, StartPlan,
};
use signal_relay::message::{Delivery, SignalMessage};
use signal_relay::registry::Registry;
use signal_relay::router::{route, teardown, Role};
use signal_relay::session::{Inbound, Session};

fn s(text: &str) -> String {
    text.to_string()
}

fn host(room: &str) -> Inbound {
    Inbound::Envelope(SignalMessage::Host { room: s(room) })
}

fn viewer(room: &str) -> Inbound {
    Inbound::Envelope(SignalMessage::Viewer { room: s(room) })
}

fn joined_id(out: &Vec<Delivery>) -> String {
    assert_eq!(out.len(), 1);
    match &out[0].message {
        SignalMessage::ViewerJoined { viewer_id } => viewer_id.clone(),
        other => panic!("not a join notice: {:?}", other),
    }
}

fn not_found(to: u64) -> Vec<Delivery> {
    vec![Delivery { to, message: SignalMessage::Error { message: s("Room not found") } }]
}

#[test]
fn host_then_viewers_get_distinct_ids() {
    let mut registry = Registry::new();
    let mut h = Session::new(1);
    let mut v1 = Session::new(2);
    let mut v2 = Session::new(3);

    assert_eq!(h.on_event(&mut registry, host("A")), vec![]);
    assert_eq!(h.role(), &Role::Host { room: s("A") });

    let out1 = v1.on_event(&mut registry, viewer("A"));
    assert_eq!(out1.len(), 1);
    assert_eq!(out1[0].to, 1);
    let id1 = joined_id(&out1);
    assert!(!id1.is_empty());
    assert_eq!(id1.chars().count(), 36);
    assert_eq!(v1.role(), &Role::Viewer { room: s("A"), viewer_id: id1.clone() });

    let out2 = v2.on_event(&mut registry, viewer("A"));
    assert_eq!(out2.len(), 1);
    assert_eq!(out2[0].to, 1);
    let id2 = joined_id(&out2);
    assert!(!id2.is_empty());
    assert_ne!(id1, id2);

    let room = registry.lookup_room(&s("A")).unwrap();
    assert_eq!(room.host(), Some(1));
    assert_eq!(room.viewer_sessions(), vec![2, 3]);
    assert_eq!(room.viewer(&id1), Some(2));
    assert_eq!(room.viewer(&id2), Some(3));
}

#[test]
fn viewer_of_unknown_room_gets_one_error() {
    let mut registry = Registry::new();
    let mut v = Session::new(5);
    let out = v.on_event(&mut registry, viewer("B"));
    assert_eq!(out, not_found(5));
    assert!(registry.is_empty());
    assert_eq!(v.role(), &Role::Unassigned);
    assert!(v.is_live());

    let mut h = Session::new(6);
    h.on_event(&mut registry, host("A"));
    let out = v.on_event(&mut registry, viewer("B"));
    assert_eq!(out, not_found(5));
    assert!(registry.lookup_room(&s("B")).is_none());
    assert_eq!(registry.lookup_room(&s("A")).unwrap().viewer_count(), 0);
}

#[test]
fn offer_goes_verbatim_to_the_named_viewer_only() {
    let mut registry = Registry::new();
    let mut h = Session::new(1);
    let mut v1 = Session::new(2);
    let mut v2 = Session::new(3);
    h.advance(&mut registry, host("R"), s("unused"));
    v1.advance(&mut registry, viewer("R"), s("V1"));
    v2.advance(&mut registry, viewer("R"), s("V2"));

    let out = h.on_event(
        &mut registry,
        Inbound::Envelope(SignalMessage::Offer { viewer_id: s("V2"), sdp: s("v=0\r\no=- 1 2") }),
    );
    assert_eq!(
        out,
        vec![Delivery {
            to: 3,
            message: SignalMessage::Offer { viewer_id: s("V2"), sdp: s("v=0\r\no=- 1 2") },
        }]
    );

    let out = h.on_event(
        &mut registry,
        Inbound::Envelope(SignalMessage::Offer { viewer_id: s("V9"), sdp: s("x") }),
    );
    assert_eq!(out, vec![]);
    assert_eq!(registry.lookup_room(&s("R")).unwrap().viewer_sessions(), vec![2, 3]);
}

#[test]
fn answer_is_tagged_with_the_assigned_id() {
    let mut registry = Registry::new();
    let mut h = Session::new(1);
    let mut v = Session::new(2);
    h.advance(&mut registry, host("R"), s("unused"));
    v.advance(&mut registry, viewer("R"), s("true-id"));

    let out = v.on_event(
        &mut registry,
        Inbound::Envelope(SignalMessage::Answer { viewer_id: Some(s("forged")), sdp: s("S") }),
    );
    assert_eq!(
        out,
        vec![Delivery {
            to: 1,
            message: SignalMessage::Answer { viewer_id: Some(s("true-id")), sdp: s("S") },
        }]
    );

    let out = v.on_event(
        &mut registry,
        Inbound::Envelope(SignalMessage::Answer { viewer_id: None, sdp: s("T") }),
    );
    assert_eq!(
        out,
        vec![Delivery {
            to: 1,
            message: SignalMessage::Answer { viewer_id: Some(s("true-id")), sdp: s("T") },
        }]
    );
}

#[test]
fn candidates_flow_in_both_directions() {
    let mut registry = Registry::new();
    let mut h = Session::new(1);
    let mut v = Session::new(2);
    h.advance(&mut registry, host("R"), s("unused"));
    v.advance(&mut registry, viewer("R"), s("vid"));
    let candidate = serde_json::Value::String(s("candidate:1 1 UDP 2122 10.0.0.2 5000 typ host"));

    let out = h.on_event(
        &mut registry,
        Inbound::Envelope(SignalMessage::IceCandidate {
            viewer_id: Some(s("vid")),
            candidate: candidate.clone(),
        }),
    );
    assert_eq!(
        out,
        vec![Delivery {
            to: 2,
            message: SignalMessage::IceCandidate {
                viewer_id: Some(s("vid")),
                candidate: candidate.clone(),
            },
        }]
    );

    let out = h.on_event(
        &mut registry,
        Inbound::Envelope(SignalMessage::IceCandidate {
            viewer_id: None,
            candidate: candidate.clone(),
        }),
    );
    assert_eq!(out, vec![]);

    let out = h.on_event(
        &mut registry,
        Inbound::Envelope(SignalMessage::IceCandidate {
            viewer_id: Some(s("other")),
            candidate: candidate.clone(),
        }),
    );
    assert_eq!(out, vec![]);

    let out = v.on_event(
        &mut registry,
        Inbound::Envelope(SignalMessage::IceCandidate {
            viewer_id: Some(s("forged")),
            candidate: serde_json::Value::Null,
        }),
    );
    assert_eq!(
        out,
        vec![Delivery {
            to: 1,
            message: SignalMessage::IceCandidate {
                viewer_id: Some(s("vid")),
                candidate: serde_json::Value::Null,
            },
        }]
    );
}

#[test]
fn host_disconnect_notifies_viewers_and_removes_room() {
    let mut registry = Registry::new();
    let mut h = Session::new(1);
    let mut v1 = Session::new(2);
    let mut v2 = Session::new(3);
    let mut other = Session::new(4);
    h.advance(&mut registry, host("R"), s("unused"));
    other.advance(&mut registry, host("S"), s("unused"));
    v1.advance(&mut registry, viewer("R"), s("V1"));
    v2.advance(&mut registry, viewer("R"), s("V2"));

    let out = h.on_event(&mut registry, Inbound::Closed);
    assert_eq!(
        out,
        vec![
            Delivery { to: 2, message: SignalMessage::HostLeft },
            Delivery { to: 3, message: SignalMessage::HostLeft },
        ]
    );
    assert!(!h.is_live());
    assert!(registry.lookup_room(&s("R")).is_none());
    assert_eq!(registry.lookup_room(&s("S")).unwrap().host(), Some(4));

    let mut late = Session::new(9);
    assert_eq!(late.on_event(&mut registry, viewer("R")), not_found(9));

    assert_eq!(h.on_event(&mut registry, Inbound::Closed), vec![]);
    assert_eq!(h.on_event(&mut registry, host("R")), vec![]);
    assert!(registry.lookup_room(&s("R")).is_none());
}

#[test]
fn viewer_disconnect_notifies_host_once() {
    let mut registry = Registry::new();
    let mut h = Session::new(1);
    let mut v1 = Session::new(2);
    let mut v2 = Session::new(3);
    h.advance(&mut registry, host("R"), s("unused"));
    v1.advance(&mut registry, viewer("R"), s("V1"));
    v2.advance(&mut registry, viewer("R"), s("V2"));

    let out = v1.on_event(&mut registry, Inbound::Failed);
    assert_eq!(
        out,
        vec![Delivery { to: 1, message: SignalMessage::ViewerLeft { viewer_id: s("V1") } }]
    );
    assert!(!v1.is_live());
    let room = registry.lookup_room(&s("R")).unwrap();
    assert_eq!(room.host(), Some(1));
    assert_eq!(room.viewer(&s("V1")), None);
    assert_eq!(room.viewer(&s("V2")), Some(3));
    assert_eq!(room.viewer_sessions(), vec![3]);

    assert_eq!(v1.on_event(&mut registry, Inbound::Shutdown), vec![]);

    let mut v3 = Session::new(4);
    let out = v3.advance(&mut registry, viewer("R"), s("V3"));
    assert_eq!(
        out,
        vec![Delivery { to: 1, message: SignalMessage::ViewerJoined { viewer_id: s("V3") } }]
    );
    assert_eq!(registry.lookup_room(&s("R")).unwrap().viewer_sessions(), vec![3, 4]);
}

#[test]
fn unassigned_disconnect_touches_nothing() {
    let mut registry = Registry::new();
    let mut h = Session::new(1);
    h.advance(&mut registry, host("R"), s("unused"));
    let mut idle = Session::new(2);
    assert_eq!(idle.on_event(&mut registry, Inbound::Shutdown), vec![]);
    assert!(!idle.is_live());
    assert_eq!(registry.lookup_room(&s("R")).unwrap().host(), Some(1));
}

#[test]
fn messages_out_of_role_are_dropped() {
    let mut registry = Registry::new();
    let mut h = Session::new(1);
    let mut v = Session::new(2);
    h.advance(&mut registry, host("R"), s("unused"));
    v.advance(&mut registry, viewer("R"), s("V"));

    assert_eq!(h.on_event(&mut registry, host("Q")), vec![]);
    assert_eq!(h.role(), &Role::Host { room: s("R") });
    assert!(registry.lookup_room(&s("Q")).is_none());

    assert_eq!(h.on_event(&mut registry, viewer("R")), vec![]);
    assert_eq!(h.role(), &Role::Host { room: s("R") });
    assert_eq!(registry.lookup_room(&s("R")).unwrap().viewer_count(), 1);

    assert_eq!(v.on_event(&mut registry, host("R")), vec![]);
    assert_eq!(v.role(), &Role::Viewer { room: s("R"), viewer_id: s("V") });
    assert_eq!(registry.lookup_room(&s("R")).unwrap().host(), Some(1));

    let offer = Inbound::Envelope(SignalMessage::Offer { viewer_id: s("V"), sdp: s("S") });
    assert_eq!(v.on_event(&mut registry, offer), vec![]);

    let answer = Inbound::Envelope(SignalMessage::Answer { viewer_id: Some(s("V")), sdp: s("S") });
    assert_eq!(h.on_event(&mut registry, answer), vec![]);

    let mut fresh = Session::new(3);
    let offer = Inbound::Envelope(SignalMessage::Offer { viewer_id: s("V"), sdp: s("S") });
    assert_eq!(fresh.on_event(&mut registry, offer), vec![]);
    let answer = Inbound::Envelope(SignalMessage::Answer { viewer_id: None, sdp: s("S") });
    assert_eq!(fresh.on_event(&mut registry, answer), vec![]);
    let ice = Inbound::Envelope(SignalMessage::IceCandidate {
        viewer_id: Some(s("V")),
        candidate: serde_json::Value::Bool(true),
    });
    assert_eq!(fresh.on_event(&mut registry, ice), vec![]);
    assert_eq!(fresh.role(), &Role::Unassigned);
}

#[test]
fn notifications_from_clients_are_dropped() {
    let mut registry = Registry::new();
    let mut h = Session::new(1);
    let mut v = Session::new(2);
    let mut fresh = Session::new(3);
    h.advance(&mut registry, host("R"), s("unused"));
    v.advance(&mut registry, viewer("R"), s("V"));

    for session in [&mut h, &mut v, &mut fresh] {
        let role = session.role().clone();
        let joined = Inbound::Envelope(SignalMessage::ViewerJoined { viewer_id: s("V") });
        assert_eq!(session.on_event(&mut registry, joined), vec![]);
        let left = Inbound::Envelope(SignalMessage::ViewerLeft { viewer_id: s("V") });
        assert_eq!(session.on_event(&mut registry, left), vec![]);
        assert_eq!(session.on_event(&mut registry, Inbound::Envelope(SignalMessage::HostLeft)), vec![]);
        let error = Inbound::Envelope(SignalMessage::Error { message: s("x") });
        assert_eq!(session.on_event(&mut registry, error), vec![]);
        assert_eq!(session.on_event(&mut registry, Inbound::Malformed), vec![]);
        assert_eq!(session.on_event(&mut registry, Inbound::Other), vec![]);
        assert_eq!(session.role(), &role);
        assert!(session.is_live());
    }
    let room = registry.lookup_room(&s("R")).unwrap();
    assert_eq!(room.host(), Some(1));
    assert_eq!(room.viewer_sessions(), vec![2]);
}

#[test]
fn client_messages_are_told_from_notifications() {
    assert!(SignalMessage::Host { room: s("r") }.is_client_message());
    assert!(SignalMessage::Viewer { room: s("r") }.is_client_message());
    assert!(SignalMessage::Offer { viewer_id: s("v"), sdp: s("s") }.is_client_message());
    assert!(SignalMessage::Answer { viewer_id: None, sdp: s("s") }.is_client_message());
    assert!(SignalMessage::IceCandidate { viewer_id: None, candidate: serde_json::Value::Null }
        .is_client_message());
    assert!(!SignalMessage::ViewerJoined { viewer_id: s("v") }.is_client_message());
    assert!(!SignalMessage::ViewerLeft { viewer_id: s("v") }.is_client_message());
    assert!(!SignalMessage::HostLeft.is_client_message());
    assert!(!SignalMessage::Error { message: s("m") }.is_client_message());
}

#[test]
fn second_host_replaces_the_room() {
    let mut registry = Registry::new();
    let mut h1 = Session::new(1);
    let mut h2 = Session::new(2);
    let mut v1 = Session::new(3);
    let mut v2 = Session::new(4);
    h1.advance(&mut registry, host("R"), s("unused"));
    v1.advance(&mut registry, viewer("R"), s("V1"));
    assert_eq!(h2.on_event(&mut registry, host("R")), vec![]);
    let room = registry.lookup_room(&s("R")).unwrap();
    assert_eq!(room.host(), Some(2));
    assert_eq!(room.viewer_count(), 0);

    let out = v2.advance(&mut registry, viewer("R"), s("V2"));
    assert_eq!(
        out,
        vec![Delivery { to: 2, message: SignalMessage::ViewerJoined { viewer_id: s("V2") } }]
    );

    let out = v1.on_event(
        &mut registry,
        Inbound::Envelope(SignalMessage::Answer { viewer_id: None, sdp: s("S") }),
    );
    assert_eq!(
        out,
        vec![Delivery {
            to: 2,
            message: SignalMessage::Answer { viewer_id: Some(s("V1")), sdp: s("S") },
        }]
    );

    let out = h1.on_event(&mut registry, Inbound::Closed);
    assert_eq!(out, vec![Delivery { to: 4, message: SignalMessage::HostLeft }]);
    assert!(registry.lookup_room(&s("R")).is_none());
}

#[test]
fn route_and_teardown_work_on_plain_roles() {
    let mut registry = Registry::new();
    let mut role = Role::Unassigned;
    let out = route(&mut registry, 1, &mut role, SignalMessage::Host { room: s("R") }, s("x"));
    assert_eq!(out, vec![]);
    assert_eq!(role, Role::Host { room: s("R") });

    let mut joiner = Role::Unassigned;
    let out = route(&mut registry, 2, &mut joiner, SignalMessage::Viewer { room: s("R") }, s("id-1"));
    assert_eq!(
        out,
        vec![Delivery { to: 1, message: SignalMessage::ViewerJoined { viewer_id: s("id-1") } }]
    );
    assert_eq!(joiner, Role::Viewer { room: s("R"), viewer_id: s("id-1") });

    let out = teardown(&mut registry, &joiner);
    assert_eq!(
        out,
        vec![Delivery { to: 1, message: SignalMessage::ViewerLeft { viewer_id: s("id-1") } }]
    );
    assert_eq!(registry.lookup_room(&s("R")).unwrap().viewer_count(), 0);

    let out = teardown(&mut registry, &role);
    assert_eq!(out, vec![]);
    assert!(registry.is_empty());

    let out = teardown(&mut registry, &joiner);
    assert_eq!(out, vec![]);
    assert_eq!(teardown(&mut registry, &Role::Unassigned), vec![]);
}

#[test]
fn stop_is_idempotent_and_clears_the_registry() {
    let mut lifecycle = Lifecycle::new();
    let mut registry = Registry::new();
    assert!(!lifecycle.is_running());
    assert_eq!(lifecycle.plan_start(9000), StartPlan::Bind { port: 9000 });
    assert_eq!(start_signaling_server(&mut lifecycle, 9000, None), Ok(9000));
    assert!(lifecycle.is_running());
    assert_eq!(lifecycle.port(), Some(9000));

    let mut h = Session::new(1);
    h.on_event(&mut registry, host("A"));
    assert!(!registry.is_empty());

    assert!(stop_signaling_server(&mut lifecycle, &mut registry));
    assert!(!lifecycle.is_running());
    assert_eq!(lifecycle.port(), None);
    assert!(registry.is_empty());

    assert!(!stop_signaling_server(&mut lifecycle, &mut registry));
    assert!(!lifecycle.is_running());
    assert!(registry.is_empty());
}

#[test]
fn start_while_running_returns_the_port_in_use() {
    let mut lifecycle = Lifecycle::new();
    assert_eq!(start_signaling_server(&mut lifecycle, 9000, None), Ok(9000));
    assert_eq!(lifecycle.plan_start(9100), StartPlan::AlreadyRunning { port: 9000 });
    assert_eq!(start_signaling_server(&mut lifecycle, 9100, None), Ok(9000));
    assert_eq!(start_signaling_server(&mut lifecycle, 9100, Some(s("in use"))), Ok(9000));
    assert_eq!(lifecycle.port(), Some(9000));
}

#[test]
fn failed_bind_is_reported_and_leaves_the_relay_stopped() {
    let mut lifecycle = Lifecycle::new();
    assert_eq!(lifecycle.plan_start(80), StartPlan::Bind { port: 80 });
    assert_eq!(
        start_signaling_server(&mut lifecycle, 80, Some(s("Address already in use"))),
        Err(s("Address already in use"))
    );
    assert!(!lifecycle.is_running());
    assert_eq!(lifecycle.plan_start(81), StartPlan::Bind { port: 81 });
    assert_eq!(start_signaling_server(&mut lifecycle, 81, None), Ok(81));
    assert!(lifecycle.is_running());
}

#[test]
fn listener_binds_all_interfaces() {
    assert_eq!(listen_address(9000), "0.0.0.0:9000");
    assert_eq!(listen_address(0), "0.0.0.0:0");
    assert_eq!(listen_address(65535), "0.0.0.0:65535");
}
