//! The core of a worker of an event-driven proxy: its timer wheel, its
//! connection accounting, its listeners and its sessions, with contracts.
use vstd::prelude::*;

pub mod accept;
pub mod alpn;
pub mod bind;
pub mod bytes;
pub mod clock;
pub mod lease;
pub mod message;
pub mod net;
pub mod server;
pub mod server_listeners;
pub mod server_notify;
pub mod server_sessions;
pub mod session_manager;
pub mod sessions;
pub mod slots;
pub mod sni_routes;
pub mod socket;
pub mod splice;
pub mod stats;
pub mod stats_darwin;
pub mod table;
pub mod tcp_backend;
pub mod tcp_listener;
pub mod tcp_proxy;
pub mod tcp_ready;
pub mod tcp_session;
pub mod tcp_tags;
pub mod tcp_upgrade;
pub mod telemetry;
pub mod text;
pub mod timer;
pub mod tls;
pub mod tls_io;


verus! {

/// Identifies a registered event source, and the slot that its session takes.
#[derive(Clone, Copy, PartialEq, Eq, Structural, Debug, Hash)]
pub struct Token(pub usize);

} // verus!
