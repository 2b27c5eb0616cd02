//! The screen server: whether it runs, under which address its clients
//! reach it, and what each step of a client's stream comes to.

use vstd::prelude::*;
use crate::text::{endpoint, endpoint_text, text_of};

verus! {

/// The time between two frames, in milliseconds.
pub const FRAME_INTERVAL_MS: u64 = 100;

/// The JPEG quality of a frame, out of 100.
pub const FRAME_QUALITY: u8 = 50;

/// Whether the screen server runs.
pub struct ScreenServer {
    running: bool,
}

impl View for ScreenServer {
    type V = bool;

    closed spec fn view(&self) -> bool {
        self.running
    }
}

impl ScreenServer {
    /// A screen server that does not run.
    pub fn new() -> (server: ScreenServer)
        ensures
            !server@,
    {
        ScreenServer { running: false }
    }
}

/// The text of the refusal to start a server that runs.
pub open spec fn already_running() -> Seq<char> {
    "Server already running"@
}

/// The address of last resort, where the machine's own is not known.
pub open spec fn any_address() -> Seq<char> {
    "0.0.0.0"@
}

/// The outcome of a start: whether the server runs afterwards and what the
/// caller is told.
pub struct ScreenStarted {
    pub running: bool,
    pub answer: Result<Seq<char>, Seq<char>>,
}

/// What a start on `port` comes to. A server that runs refuses. Else the
/// error of the attempt to bind the port is handed on, if there is one; and
/// else the server runs and the answer is where to reach it: the machine's
/// address, if it is known, and the port.
pub open spec fn screen_started(
    running: bool,
    port: u16,
    bind_error: Option<Seq<char>>,
    local_ip: Option<Seq<char>>,
) -> ScreenStarted {
    if running {
        ScreenStarted { running: true, answer: Err(already_running()) }
    } else {
        match bind_error {
            Some(reason) => ScreenStarted { running: false, answer: Err(reason) },
            None => ScreenStarted {
                running: true,
                answer: Ok(
                    endpoint(
                        match local_ip {
                            Some(ip) => ip,
                            None => any_address(),
                        },
                        port,
                    ),
                ),
            },
        }
    }
}

/// The view of an answer.
pub open spec fn answer_view(answer: Result<String, String>) -> Result<Seq<char>, Seq<char>> {
    match answer {
        Ok(address) => Ok(address@),
        Err(reason) => Err(reason@),
    }
}

/// Whether the screen server runs.
pub fn is_server_running(server: &ScreenServer) -> (running: bool)
    ensures
        running == server@,
{
    server.running
}

/// Whether a start may go ahead and bind its port: not while the server
/// runs.
pub fn check_start(server: &ScreenServer) -> (go: Result<(), String>)
    ensures
        match go {
            Ok(_) => !server@,
            Err(reason) => server@ && reason@ == already_running(),
        },
{
    if server.running {
        Err("Server already running".to_owned())
    } else {
        Ok(())
    }
}

/// Finishes a start on `port`. `bind_error` is the error in which the
/// attempt to bind the port ended, if it did; `local_ip` is the machine's
/// address, if it could be found.
pub fn start_screen_server(
    server: &mut ScreenServer,
    port: u16,
    bind_error: Option<String>,
    local_ip: Option<String>,
) -> (answer: Result<String, String>)
    ensures
        final(server)@ == screen_started(
            old(server)@,
            port,
            text_of(bind_error),
            text_of(local_ip),
        ).running,
        answer_view(answer) == screen_started(
            old(server)@,
            port,
            text_of(bind_error),
            text_of(local_ip),
        ).answer,
{
    if server.running {
        return Err("Server already running".to_owned());
    }
    match bind_error {
        Some(reason) => Err(reason),
        None => {
            server.running = true;
            match local_ip {
                Some(ip) => Ok(endpoint_text(ip.as_str(), port)),
                None => Ok(endpoint_text("0.0.0.0", port)),
            }
        },
    }
}

/// Stops the screen server. Returns whether its clients and its accept loop
/// are to be told, which they are if it ran.
pub fn stop_screen_server(server: &mut ScreenServer) -> (signal: bool)
    ensures
        !final(server)@,
        signal == old(server)@,
{
    let signal = server.running;
    server.running = false;
    signal
}

/// The size to which a frame of `width` by `height` is scaled before it is
/// sent: half of each.
pub fn frame_size(width: u32, height: u32) -> (size: (u32, u32))
    ensures
        size.0 == width / 2,
        size.1 == height / 2,
{
    (width / 2, height / 2)
}

/// The text that base64 with the standard alphabet and padding makes of
/// `bytes`.
pub uninterp spec fn base64_standard(bytes: Seq<u8>) -> Seq<char>;

/// Whether a text of base64 for `n` bytes has a length that the machine can
/// count.
pub open spec fn encodable(n: nat) -> bool {
    n / 3 < usize::MAX / 4
}

/// `Engine::encode` of the crate base64, on its engine `STANDARD`. The
/// contract gives the result its name: it is a function of the bytes alone.
/// The call panics where four characters for every three bytes, the last
/// three filled up, are more than a `usize` counts; `requires` keeps clear
/// of that.
#[verifier::external_body]
fn base64_text(bytes: &Vec<u8>) -> (text: String)
    requires
        encodable(bytes@.len()),
    ensures
        text@ == base64_standard(bytes@),
{
    base64::Engine::encode(&base64::engine::general_purpose::STANDARD, bytes)
}

/// What the stream to one client has to report.
pub enum StreamEvent {
    /// The server is shutting down.
    Shutdown,
    /// The frame interval has passed and the screen was captured as a JPEG
    /// image, or not.
    Captured(Result<Vec<u8>, String>),
}

/// What the stream does next.
#[derive(Debug, PartialEq, Eq)]
pub enum StreamAction {
    /// Send this frame and wait for the next interval.
    Send(String),
    /// End the stream.
    Stop,
}

/// The frame that `event` has the stream send: the captured image in
/// base64. Anything but an image ends the stream, and so does an image too
/// large to encode.
pub open spec fn stream_frame(event: StreamEvent) -> Option<Seq<char>> {
    match event {
        StreamEvent::Captured(Ok(image)) => if encodable(image@.len()) {
            Some(base64_standard(image@))
        } else {
            None
        },
        _ => None,
    }
}

/// Decides what the stream does on `event`.
pub fn stream_step(event: StreamEvent) -> (action: StreamAction)
    ensures
        match action {
            StreamAction::Send(frame) => stream_frame(event) == Some(frame@),
            StreamAction::Stop => stream_frame(event) is None,
        },
{
    match event {
        StreamEvent::Captured(Ok(image)) => {
            if image.len() / 3 < usize::MAX / 4 {
                StreamAction::Send(base64_text(&image))
            } else {
                StreamAction::Stop
            }
        },
        _ => StreamAction::Stop,
    }
}

} // verus!
