//! Signaling relay for ad-hoc screen sharing on a local network.
//!
//! A host and its viewers exchange session descriptions and connectivity
//! candidates through this relay before they talk to each other directly.
//! The crate holds the relay's state and its decisions:
//!
//! - [`message`]: the protocol, one tagged message per frame;
//! - [`registry`]: the rooms, each with its host and its viewers;
//! - [`router`]: where each inbound message goes, and what the end of a
//!   session does;
//! - [`session`]: the life of one connection as a state machine;
//! - [`lifecycle`]: starting and stopping the listening endpoint;
//! - [`wire`]: the text of an outbound frame;
//! - [`guarantees`]: what holds of all of this, proved.
//!
//! Beside the relay stand the two things that the application around it
//! also needs: [`discovery`], which turns the findings of several network
//! scans into one list of hosts, and [`screen`], the decisions of the screen
//! server. [`text`] and [`ident`] serve them all.
//!
//! Sockets, tasks, clocks and the decoding of inbound frames belong to the
//! program that uses the crate.

pub mod discovery;
pub mod guarantees;
pub mod ident;
pub mod lifecycle;
pub mod message;
pub mod registry;
pub mod router;
pub mod screen;
pub mod session;
pub mod text;
pub mod wire;
