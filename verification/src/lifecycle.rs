//! The lifecycle of the listening endpoint: started once, stopped any number
//! of times.

use vstd::prelude::*;
use crate::registry::{Registry, RegistryView, RoomView, consistent};
use crate::text::{endpoint, endpoint_text, text_of};

verus! {

/// Whether the relay listens, and on which port.
pub struct Lifecycle {
    port: Option<u16>,
}

/// What a request to start comes to.
#[derive(Clone, Copy, Debug, PartialEq, Eq, Structural)]
pub enum StartPlan {
    /// The relay listens already, on `port`. No second listener is made.
    AlreadyRunning { port: u16 },
    /// A listener is to be bound to `port` on all interfaces.
    Bind { port: u16 },
}

/// The plan for a request to start on `port`, given the port on which the
/// relay listens, if it does.
pub open spec fn start_plan(listening: Option<u16>, port: u16) -> StartPlan {
    match listening {
        Some(current) => StartPlan::AlreadyRunning { port: current },
        None => StartPlan::Bind { port },
    }
}

/// The outcome of a start: what the caller is told and on which port the
/// relay listens afterwards.
pub struct Started {
    pub listening: Option<u16>,
    pub answer: Result<u16, Seq<char>>,
}

/// What the attempt to bind `port` comes to, `bind_error` being the error
/// that the attempt ended in, if it did.
pub open spec fn started(listening: Option<u16>, port: u16, bind_error: Option<Seq<char>>) -> Started {
    match listening {
        Some(current) => Started { listening, answer: Ok(current) },
        None => match bind_error {
            None => Started { listening: Some(port), answer: Ok(port) },
            Some(reason) => Started { listening: None, answer: Err(reason) },
        },
    }
}

/// The outcome of a stop.
pub struct Stopped {
    pub listening: Option<u16>,
    pub registry: RegistryView,
    /// Whether the sessions and the accept loop are to be told.
    pub signal: bool,
}

/// What a stop does: nothing listens, no room is left, and the shutdown is
/// signalled if the relay was listening.
pub open spec fn stopped(listening: Option<u16>) -> Stopped {
    Stopped { listening: None, registry: Map::empty(), signal: listening is Some }
}

impl View for Lifecycle {
    type V = Option<u16>;

    closed spec fn view(&self) -> Option<u16> {
        self.port
    }
}

impl Lifecycle {
    /// The lifecycle of a relay that does not listen yet.
    pub fn new() -> (lifecycle: Lifecycle)
        ensures
            lifecycle@ == None::<u16>,
    {
        Lifecycle { port: None }
    }

    /// Whether the relay listens.
    pub fn is_running(&self) -> (running: bool)
        ensures
            running == (self@ is Some),
    {
        self.port.is_some()
    }

    /// The port on which the relay listens.
    pub fn port(&self) -> (port: Option<u16>)
        ensures
            port == self@,
    {
        self.port
    }

    /// Decides what a request to start on `port` comes to.
    pub fn plan_start(&self, port: u16) -> (plan: StartPlan)
        ensures
            plan == start_plan(self@, port),
    {
        match self.port {
            Some(current) => StartPlan::AlreadyRunning { port: current },
            None => StartPlan::Bind { port },
        }
    }
}

/// The address that the listener is bound to: `port` on all interfaces.
pub open spec fn listen_on(port: u16) -> Seq<char> {
    endpoint("0.0.0.0"@, port)
}

/// The address to bind for a start on `port`.
pub fn listen_address(port: u16) -> (address: String)
    ensures
        address@ == listen_on(port),
{
    endpoint_text("0.0.0.0", port)
}

/// Finishes a start on `port`. `bind_error` is the error in which the
/// attempt to bind the port ended, if it did. Where the relay listens
/// already, the answer is the port in use, whatever the attempt came to.
pub fn start_signaling_server(lifecycle: &mut Lifecycle, port: u16, bind_error: Option<String>) -> (answer:
    Result<u16, String>)
    ensures
        final(lifecycle)@ == started(old(lifecycle)@, port, text_of(bind_error)).listening,
        match answer {
            Ok(p) => started(old(lifecycle)@, port, text_of(bind_error)).answer == Ok::<
                u16,
                Seq<char>,
            >(p),
            Err(reason) => started(old(lifecycle)@, port, text_of(bind_error)).answer == Err::<
                u16,
                Seq<char>,
            >(reason@),
        },
{
    match lifecycle.port {
        Some(current) => Ok(current),
        None => match bind_error {
            None => {
                lifecycle.port = Some(port);
                Ok(port)
            },
            Some(reason) => Err(reason),
        },
    }
}

/// Stops the relay: it no longer listens and the registry is emptied.
/// Returns whether the shutdown is to be signalled to the accept loop and to
/// the sessions, which it is if the relay was listening.
pub fn stop_signaling_server(lifecycle: &mut Lifecycle, registry: &mut Registry) -> (signal: bool)
    ensures
        final(lifecycle)@ == stopped(old(lifecycle)@).listening,
        final(registry)@ == stopped(old(lifecycle)@).registry,
        signal == stopped(old(lifecycle)@).signal,
        consistent(final(registry)@),
{
    let signal = lifecycle.port.is_some();
    lifecycle.port = None;
    registry.clear();
    signal
}

/// After a stop nothing listens and no room is left, and a second stop
/// changes nothing and signals nothing.
pub proof fn lemma_stop_is_idempotent(listening: Option<u16>)
    ensures
        stopped(listening).listening is None,
        stopped(listening).registry == Map::<Seq<char>, RoomView>::empty(),
        stopped(stopped(listening).listening).listening == stopped(listening).listening,
        stopped(stopped(listening).listening).registry == stopped(listening).registry,
        !stopped(stopped(listening).listening).signal,
{
}

/// A start while the relay listens answers with the port in use and leaves
/// everything as it is.
pub proof fn lemma_start_is_idempotent(current: u16, port: u16, bind_error: Option<Seq<char>>)
    ensures
        start_plan(Some(current), port) == (StartPlan::AlreadyRunning { port: current }),
        started(Some(current), port, bind_error).listening == Some(current),
        started(Some(current), port, bind_error).answer == Ok::<u16, Seq<char>>(current),
{
}

} // verus!
