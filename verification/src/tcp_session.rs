//! A TCP session: the stages that it goes through between a client and a
//! backend, and what it holds at each.
//!
//! It may first look for the server name that the client asks for, to find the
//! cluster; then take in, pass on or send a PROXY protocol header; then it is a
//! pipe.
use vstd::prelude::*;

use crate::alpn;
use crate::alpn::AlpnMatcher;
use crate::clock::Duration;
use crate::net::SocketAddr;
use crate::server::{Ready, CONN_RETRIES};
use crate::session_manager::SessionSlot;
use crate::sessions;
use crate::tcp_tags;
use crate::timer;
use crate::timer::{TimeoutContainer, Timer};
use crate::Token;

verus! {

/// How a cluster's backends expect the PROXY protocol.
#[derive(Copy, Clone, Debug, PartialEq, Eq, Structural)]
pub enum ProxyProtocolConfig {
    /// The client sends a header, which the backend does not get to see.
    ExpectHeader,
    /// The backend gets a header of our own.
    SendHeader,
    /// The client sends a header, which the backend gets as it is.
    RelayHeader,
}

/// What a cluster is configured to.
#[derive(Copy, Clone, Debug, PartialEq, Eq, Structural)]
pub struct ClusterConfiguration {
    pub proxy_protocol: Option<ProxyProtocolConfig>,
    /// The limit of connections per source, in place of the default. Zero
    /// stands for no limit.
    pub max_connections_per_ip: Option<u64>,
}

/// What the worker does with a session next.
#[derive(Copy, Clone, Debug, PartialEq, Eq, Structural)]
pub enum SessionResult {
    Close,
    Continue,
    Upgrade,
}

/// What became of an attempt to connect to a backend.
#[derive(Copy, Clone, Debug, PartialEq, Eq, Structural)]
pub enum BackendConnectAction {
    New,
    Reuse,
    Replace,
}

/// Why a session could not connect to a backend.
#[derive(Debug)]
pub enum BackendConnectionError {
    /// There is no cluster that the session is for.
    NotFound,
    /// All attempts are used up.
    MaxConnectionRetries(Option<String>),
    /// There are no slots left.
    MaxSessionsMemory,
    /// The source has too many connections to the cluster.
    TooManyConnectionsPerIp { cluster_id: String },
    /// The cluster has no backend to connect to.
    Backend(String),
}

/// Whether a session goes on at once, waits or is closed after an attempt to
/// connect to a backend.
pub fn handle_connection_result(
    connection_result: Result<BackendConnectAction, BackendConnectionError>,
) -> (result: Option<SessionResult>)
    ensures
        result == match connection_result {
            Ok(BackendConnectAction::Reuse) => None,
            Ok(_) => Some(SessionResult::Continue),
            Err(_) => Some(SessionResult::Close),
        },
{
    match connection_result {
        Ok(BackendConnectAction::Reuse) => None,
        Ok(BackendConnectAction::New) => Some(SessionResult::Continue),
        Ok(BackendConnectAction::Replace) => Some(SessionResult::Continue),
        Err(_) => Some(SessionResult::Close),
    }
}

/// Where the connection to the backend is.
#[derive(Copy, Clone, Debug, PartialEq, Eq, Structural)]
pub enum BackendConnectionStatus {
    NotConnected,
    /// Since when, in nanoseconds.
    Connecting(u64),
    Connected,
}

/// What a socket is ready for, and what is waited for.
#[derive(Copy, Clone, Debug, PartialEq, Eq, Structural)]
pub struct Readiness {
    pub event: Ready,
    pub interest: Ready,
}

/// Nothing at all.
pub open spec fn no_events() -> Ready {
    Ready { readable: false, writable: false, error: false, hup: false }
}

/// All that one or the other says.
pub open spec fn either_events(a: Ready, b: Ready) -> Ready {
    Ready {
        readable: a.readable || b.readable,
        writable: a.writable || b.writable,
        error: a.error || b.error,
        hup: a.hup || b.hup,
    }
}

pub(crate) fn either(a: Ready, b: Ready) -> (r: Ready)
    ensures
        r == either_events(a, b),
{
    Ready {
        readable: a.readable || b.readable,
        writable: a.writable || b.writable,
        error: a.error || b.error,
        hup: a.hup || b.hup,
    }
}

/// The readiness of a stage that follows another: what was heard at the other
/// counts, beside what the new one is armed with, and the new one waits for what
/// is its own.
pub open spec fn taken_over(left: Readiness, armed: Readiness) -> Readiness {
    Readiness { event: either_events(left.event, armed.event), interest: armed.interest }
}

pub(crate) fn take_over(left: Readiness, armed: Readiness) -> (r: Readiness)
    ensures
        r == taken_over(left, armed),
{
    Readiness { event: either(left.event, armed.event), interest: armed.interest }
}

/// The stages of a session.
#[derive(Copy, Clone, Debug, PartialEq, Eq, Structural)]
pub enum StateMarker {
    Pipe,
    SendProxyProtocol,
    RelayProxyProtocol,
    ExpectProxyProtocol,
    SniPreread,
}

/// Where a client is routed to by the server name that it asks for.
#[derive(Debug)]
pub struct PrereadOutcome {
    pub cluster: String,
    /// The server name that the client asks for.
    pub sni: String,
    /// The protocols that the client offers.
    pub alpn: Vec<Vec<u8>>,
    /// The server name that the route is kept under.
    pub matched_sni_pattern: String,
    pub matched_alpn: AlpnMatcher,
    /// How many bytes came before those of the client's own.
    pub content_offset: usize,
    /// The source that a PROXY protocol header gave.
    pub proxy_source: Option<SocketAddr>,
}

/// A session that is a pipe.
#[derive(Debug)]
pub struct PipeState {
    pub front: Readiness,
    pub back: Readiness,
    pub session_address: Option<SocketAddr>,
    pub cluster_id: Option<String>,
    pub backend_id: Option<String>,
    pub backend_token: Option<Token>,
    /// The server name and the protocol that the access log tells of.
    pub tls_sni: Option<String>,
    pub tls_alpn: Option<&'static str>,
    /// The key of the tags that the access log tells of; the listener's address
    /// where there is none.
    pub tags_key: Option<String>,
}

/// A session that waits for a PROXY protocol header, or sends one.
#[derive(Debug)]
pub struct ProxyProtocolState {
    pub front: Readiness,
    pub back: Readiness,
    /// The source that the header gave.
    pub source: Option<SocketAddr>,
    pub backend_token: Option<Token>,
    pub connected: bool,
}

/// A session that looks for the server name.
#[derive(Debug)]
pub struct PrereadState {
    pub front: Readiness,
    pub back: Readiness,
    pub outcome: Option<PrereadOutcome>,
    /// Whether it has the socket of a backend.
    pub backend: bool,
    pub backend_token: Option<Token>,
    pub effective_max_bytes: usize,
}

/// The stage that a session is at.
#[derive(Debug)]
pub enum TcpStateMachine {
    Pipe(PipeState),
    SendProxyProtocol(ProxyProtocolState),
    RelayProxyProtocol(ProxyProtocolState),
    ExpectProxyProtocol(ProxyProtocolState),
    SniPreread(PrereadState),
    /// It could not leave a stage, and is closed.
    FailedUpgrade(StateMarker),
}

impl TcpStateMachine {
    /// The stage, or the one that could not be left.
    pub open spec fn marker(self) -> StateMarker {
        match self {
            TcpStateMachine::Pipe(_) => StateMarker::Pipe,
            TcpStateMachine::SendProxyProtocol(_) => StateMarker::SendProxyProtocol,
            TcpStateMachine::RelayProxyProtocol(_) => StateMarker::RelayProxyProtocol,
            TcpStateMachine::ExpectProxyProtocol(_) => StateMarker::ExpectProxyProtocol,
            TcpStateMachine::SniPreread(_) => StateMarker::SniPreread,
            TcpStateMachine::FailedUpgrade(marker) => marker,
        }
    }

    /// The stage, or the one that could not be left.
    pub fn stage(&self) -> (marker: StateMarker)
        ensures
            marker == self.marker(),
    {
        match self {
            TcpStateMachine::Pipe(_) => StateMarker::Pipe,
            TcpStateMachine::SendProxyProtocol(_) => StateMarker::SendProxyProtocol,
            TcpStateMachine::RelayProxyProtocol(_) => StateMarker::RelayProxyProtocol,
            TcpStateMachine::ExpectProxyProtocol(_) => StateMarker::ExpectProxyProtocol,
            TcpStateMachine::SniPreread(_) => StateMarker::SniPreread,
            TcpStateMachine::FailedUpgrade(marker) => *marker,
        }
    }

    /// Whether the server name is still looked for.
    pub open spec fn undecided(self) -> bool {
        self matches TcpStateMachine::SniPreread(p) && p.outcome is None
    }

    /// Whether the timeout of the client stands for its silence.
    pub open spec fn is_idle_timed(self) -> bool {
        !self.undecided()
    }

    /// The readiness of the client's socket.
    pub open spec fn front(self) -> Option<Readiness> {
        match self {
            TcpStateMachine::Pipe(s) => Some(s.front),
            TcpStateMachine::SendProxyProtocol(s) => Some(s.front),
            TcpStateMachine::RelayProxyProtocol(s) => Some(s.front),
            TcpStateMachine::ExpectProxyProtocol(s) => Some(s.front),
            TcpStateMachine::SniPreread(s) => Some(s.front),
            TcpStateMachine::FailedUpgrade(_) => None,
        }
    }

    /// The readiness of the backend's socket, where there may be one.
    pub open spec fn back(self) -> Option<Readiness> {
        match self {
            TcpStateMachine::Pipe(s) => Some(s.back),
            TcpStateMachine::SendProxyProtocol(s) => Some(s.back),
            TcpStateMachine::RelayProxyProtocol(s) => Some(s.back),
            TcpStateMachine::ExpectProxyProtocol(_) => None,
            TcpStateMachine::SniPreread(s) => Some(s.back),
            TcpStateMachine::FailedUpgrade(_) => None,
        }
    }

    /// The same stage with other readiness.
    pub open spec fn with_readiness(self, front: Readiness, back: Readiness) -> TcpStateMachine {
        match self {
            TcpStateMachine::Pipe(s) => TcpStateMachine::Pipe(PipeState { front, back, ..s }),
            TcpStateMachine::SendProxyProtocol(s) => TcpStateMachine::SendProxyProtocol(
                ProxyProtocolState { front, back, ..s },
            ),
            TcpStateMachine::RelayProxyProtocol(s) => TcpStateMachine::RelayProxyProtocol(
                ProxyProtocolState { front, back, ..s },
            ),
            TcpStateMachine::ExpectProxyProtocol(s) => TcpStateMachine::ExpectProxyProtocol(
                ProxyProtocolState { front, ..s },
            ),
            TcpStateMachine::SniPreread(s) => TcpStateMachine::SniPreread(
                PrereadState { front, back, ..s },
            ),
            TcpStateMachine::FailedUpgrade(m) => TcpStateMachine::FailedUpgrade(m),
        }
    }

    /// The readiness of the client's socket.
    pub fn front_readiness(&self) -> (r: Option<Readiness>)
        ensures
            r == self.front(),
    {
        match self {
            TcpStateMachine::Pipe(s) => Some(s.front),
            TcpStateMachine::SendProxyProtocol(s) => Some(s.front),
            TcpStateMachine::RelayProxyProtocol(s) => Some(s.front),
            TcpStateMachine::ExpectProxyProtocol(s) => Some(s.front),
            TcpStateMachine::SniPreread(s) => Some(s.front),
            TcpStateMachine::FailedUpgrade(_) => None,
        }
    }

    /// The readiness of the backend's socket, where there may be one.
    pub fn back_readiness(&self) -> (r: Option<Readiness>)
        ensures
            r == self.back(),
    {
        match self {
            TcpStateMachine::Pipe(s) => Some(s.back),
            TcpStateMachine::SendProxyProtocol(s) => Some(s.back),
            TcpStateMachine::RelayProxyProtocol(s) => Some(s.back),
            TcpStateMachine::ExpectProxyProtocol(_) => None,
            TcpStateMachine::SniPreread(s) => Some(s.back),
            TcpStateMachine::FailedUpgrade(_) => None,
        }
    }

    /// Sets the readiness of both sockets, as far as there are any.
    pub fn set_readiness(&mut self, front: Readiness, back: Readiness)
        ensures
            *final(self) == old(self).with_readiness(front, back),
    {
        match self {
            TcpStateMachine::Pipe(s) => {
                s.front = front;
                s.back = back;
            },
            TcpStateMachine::SendProxyProtocol(s) => {
                s.front = front;
                s.back = back;
            },
            TcpStateMachine::RelayProxyProtocol(s) => {
                s.front = front;
                s.back = back;
            },
            TcpStateMachine::ExpectProxyProtocol(s) => {
                s.front = front;
            },
            TcpStateMachine::SniPreread(s) => {
                s.front = front;
                s.back = back;
            },
            TcpStateMachine::FailedUpgrade(_) => {},
        }
    }
}

/// Whether the timeout of the client starts anew when the client sends
/// something. Not so while the server name is looked for: that has one deadline,
/// or a client could stay for good by sending a byte now and then.
pub fn frontend_timeout_resets_on_readable(state: &TcpStateMachine) -> (resets: bool)
    ensures
        resets == !state.undecided(),
{
    match state {
        TcpStateMachine::SniPreread(preread) => preread.outcome.is_some(),
        _ => true,
    }
}

/// How many sessions are at each stage, and how many connections to backends
/// there are.
#[derive(Copy, Clone, Debug, PartialEq, Eq, Structural)]
pub struct TcpGauges {
    pub tcp: i64,
    pub proxy_send: i64,
    pub proxy_relay: i64,
    pub proxy_expect: i64,
    pub sni_preread_active: i64,
    pub backend_connections: i64,
}

/// What gauges stand at, as numbers.
pub ghost struct GaugeModel {
    pub tcp: int,
    pub proxy_send: int,
    pub proxy_relay: int,
    pub proxy_expect: int,
    pub sni_preread_active: int,
    pub backend_connections: int,
}

/// One or nothing.
pub open spec fn one_if(b: bool) -> int {
    if b {
        1
    } else {
        0
    }
}

/// What a session adds to the gauges.
pub open spec fn share_of(marker: StateMarker, status: BackendConnectionStatus) -> GaugeModel {
    GaugeModel {
        tcp: one_if(marker is Pipe),
        proxy_send: one_if(marker is SendProxyProtocol),
        proxy_relay: one_if(marker is RelayProxyProtocol),
        proxy_expect: one_if(marker is ExpectProxyProtocol),
        sni_preread_active: one_if(marker is SniPreread),
        backend_connections: one_if(status is Connected),
    }
}

/// What something that adds nothing to the gauges adds.
pub open spec fn no_share() -> GaugeModel {
    GaugeModel {
        tcp: 0,
        proxy_send: 0,
        proxy_relay: 0,
        proxy_expect: 0,
        sni_preread_active: 0,
        backend_connections: 0,
    }
}

impl TcpGauges {
    /// What they stand at, as numbers.
    pub open spec fn model(self) -> GaugeModel {
        GaugeModel {
            tcp: self.tcp as int,
            proxy_send: self.proxy_send as int,
            proxy_relay: self.proxy_relay as int,
            proxy_expect: self.proxy_expect as int,
            sni_preread_active: self.sni_preread_active as int,
            backend_connections: self.backend_connections as int,
        }
    }

    /// Whether there is room to count one up or down.
    pub open spec fn room(self) -> bool {
        &&& i64::MIN < self.tcp < i64::MAX
        &&& i64::MIN < self.proxy_send < i64::MAX
        &&& i64::MIN < self.proxy_relay < i64::MAX
        &&& i64::MIN < self.proxy_expect < i64::MAX
        &&& i64::MIN < self.sni_preread_active < i64::MAX
        &&& i64::MIN < self.backend_connections < i64::MAX
    }

    /// Whether the gauges moved by as much as a share in them did.
    pub open spec fn moved(self, before: TcpGauges, old_share: GaugeModel, share: GaugeModel) -> bool {
        &&& self.tcp - before.tcp == share.tcp - old_share.tcp
        &&& self.proxy_send - before.proxy_send == share.proxy_send - old_share.proxy_send
        &&& self.proxy_relay - before.proxy_relay == share.proxy_relay - old_share.proxy_relay
        &&& self.proxy_expect - before.proxy_expect == share.proxy_expect - old_share.proxy_expect
        &&& self.sni_preread_active - before.sni_preread_active == share.sni_preread_active
            - old_share.sni_preread_active
        &&& self.backend_connections - before.backend_connections == share.backend_connections
            - old_share.backend_connections
    }

    pub(crate) fn enter(&mut self, marker: StateMarker)
        requires
            old(self).room(),
        ensures
            final(self).moved(
                *old(self),
                no_share(),
                share_of(marker, BackendConnectionStatus::NotConnected),
            ),
    {
        match marker {
            StateMarker::Pipe => {
                self.tcp = self.tcp + 1;
            },
            StateMarker::SendProxyProtocol => {
                self.proxy_send = self.proxy_send + 1;
            },
            StateMarker::RelayProxyProtocol => {
                self.proxy_relay = self.proxy_relay + 1;
            },
            StateMarker::ExpectProxyProtocol => {
                self.proxy_expect = self.proxy_expect + 1;
            },
            StateMarker::SniPreread => {
                self.sni_preread_active = self.sni_preread_active + 1;
            },
        }
    }

    pub(crate) fn leave(&mut self, marker: StateMarker)
        requires
            old(self).room(),
        ensures
            final(self).moved(
                *old(self),
                share_of(marker, BackendConnectionStatus::NotConnected),
                no_share(),
            ),
    {
        match marker {
            StateMarker::Pipe => {
                self.tcp = self.tcp - 1;
            },
            StateMarker::SendProxyProtocol => {
                self.proxy_send = self.proxy_send - 1;
            },
            StateMarker::RelayProxyProtocol => {
                self.proxy_relay = self.proxy_relay - 1;
            },
            StateMarker::ExpectProxyProtocol => {
                self.proxy_expect = self.proxy_expect - 1;
            },
            StateMarker::SniPreread => {
                self.sni_preread_active = self.sni_preread_active - 1;
            },
        }
    }
}

/// What the session keeps of the backend that it is connected to.
#[derive(Copy, Clone, Debug, PartialEq, Eq, Structural)]
pub struct BackendHandle {
    pub failures: usize,
}

/// A TCP session.
#[derive(Debug)]
pub struct TcpSession {
    /// Whether it holds the buffer for the backend, which a pipe has itself.
    pub backend_buffer: bool,
    pub backend_connected: BackendConnectionStatus,
    pub backend_id: Option<String>,
    pub backend_token: Option<Token>,
    pub backend: Option<BackendHandle>,
    pub cluster_id: Option<String>,
    pub configured_backend_timeout: Duration,
    pub connection_attempt: u8,
    pub container_backend_timeout: TimeoutContainer,
    pub container_frontend_timeout: TimeoutContainer,
    pub frontend_address: Option<SocketAddr>,
    /// Whether it holds the buffer for the client, which most stages have
    /// themselves.
    pub frontend_buffer: bool,
    pub frontend_token: Token,
    pub has_been_closed: bool,
    /// When it last had an event, in nanoseconds.
    pub last_event: u64,
    pub state: TcpStateMachine,
    /// Whether it counts against the limit of a cluster and a source.
    pub cluster_ip_tracked: bool,
    /// The server name that it was routed by, until it is a pipe.
    pub routed_sni: Option<String>,
    /// The protocol that the client prefers, until it is a pipe.
    pub routed_alpn_label: Option<&'static str>,
    /// The key of the tags of the front that it was routed by.
    pub tags_key: Option<String>,
}

/// What a session is created from.
#[derive(Debug)]
pub struct NewTcpSession {
    pub cluster_id: Option<String>,
    pub backend_timeout: Duration,
    pub connect_timeout: Duration,
    pub frontend_timeout: Duration,
    pub frontend_token: Token,
    pub frontend_address: Option<SocketAddr>,
    /// When, in nanoseconds.
    pub now: u64,
}

/// What is to be done outside when the connection to the backend is closed.
#[derive(Copy, Clone, Debug, PartialEq, Eq, Structural)]
pub struct BackendClosed {
    /// The socket is no longer watched.
    pub deregister: bool,
    /// The socket is shut down.
    pub shutdown: bool,
}

/// What is to be done outside when a session is closed.
#[derive(Copy, Clone, Debug, PartialEq, Eq, Structural)]
pub enum SessionClosed {
    /// Nothing: it was closed before.
    Already,
    /// Nothing more: it could not leave a stage.
    Failed(StateMarker),
    /// The client's socket is shut down and no longer watched, and so may be
    /// the backend's.
    Closed(BackendClosed),
}

/// What leaving a stage takes outside.
#[derive(Copy, Clone, Debug, PartialEq, Eq, Structural)]
pub enum Upgraded {
    /// The session is closed.
    ToBeClosed,
    /// The session is at another stage. This many of the bytes that the client
    /// sent are dropped first.
    Next { consume: usize },
}

/// Whom an event is for.
#[derive(Copy, Clone, Debug, PartialEq, Eq, Structural)]
pub enum Dispatch {
    /// The stage that the session is at.
    ToState,
    /// Nobody: this is what comes of it.
    Done(SessionResult),
    /// Nobody: the access log is written, and the session closed.
    LogAndClose,
    /// The search for the server name, which is told that the client is gone;
    /// the session is closed.
    PrereadClosed,
}

/// Whether a timeout started anew for what it was set, where it was pending.
pub open spec fn is_reset(
    before: TimeoutContainer,
    after: TimeoutContainer,
    timer_before: Timer<Token>,
    timer_after: Timer<Token>,
) -> bool {
    &&& timer_after.same_wheel(timer_before)
    &&& timer_after.current() == timer_before.current()
    &&& after.span() == before.span()
    &&& after.set_to() is Some <==> (before.set_to() matches Some(t) && timer_before.holds(t))
    &&& after.set_to() is None ==> timer_after.pending() == timer_before.pending()
    &&& after.set_to() matches Some(t) ==> {
        let k = before.set_to()->0.key();
        &&& t.due() > timer_before.current()
        &&& timer_before.is_due_after(t.due(), before.span()@)
        &&& !timer_before.pending().remove(k).dom().contains(t.key())
        &&& timer_after.pending() == timer_before.pending().remove(k).insert(
            t.key(),
            (t.due(), timer_before.pending()[k].1),
        )
    }
}

/// Whether the timer can take timeouts.
pub open spec fn timer_ready(timer: Timer<Token>) -> bool {
    timer.wf() && timer.has_room() && timer.current() < u64::MAX
}

pub(crate) fn reset_timeout(container: &mut TimeoutContainer, timer: &mut Timer<Token>)
    requires
        timer_ready(*old(timer)),
    ensures
        timer_ready(*final(timer)),
        is_reset(*old(container), *final(container), *old(timer), *final(timer)),
{
    let ghost before = *timer;
    let ghost was = *container;
    let _ = container.reset(timer);
    proof {
        if let Some(t) = container.set_to() {
            let k = was.set_to()->0.key();
            before.lemma_pending_finite();
            let less = before.pending().remove(k);
            assert(less.dom() =~= before.pending().dom().remove(k));
            assert(timer.pending().dom() =~= less.dom().insert(t.key()));
        }
    }
}

/// The stage in which a session begins that needs no server name: the one for the
/// PROXY protocol that its cluster is configured to, or else a pipe. Nothing is
/// known of a backend or of a source.
pub open spec fn first_state(
    cluster_id: Option<String>,
    address: Option<SocketAddr>,
    proxy_protocol: Option<ProxyProtocolConfig>,
    front: Readiness,
    back: Readiness,
) -> TcpStateMachine {
    let waiting = ProxyProtocolState {
        front,
        back,
        source: None,
        backend_token: None,
        connected: false,
    };
    match proxy_protocol {
        Some(ProxyProtocolConfig::RelayHeader) => TcpStateMachine::RelayProxyProtocol(waiting),
        Some(ProxyProtocolConfig::ExpectHeader) => TcpStateMachine::ExpectProxyProtocol(waiting),
        Some(ProxyProtocolConfig::SendHeader) => TcpStateMachine::SendProxyProtocol(waiting),
        None => TcpStateMachine::Pipe(
            PipeState {
                front,
                back,
                session_address: address,
                cluster_id,
                backend_id: None,
                backend_token: None,
                tls_sni: None,
                tls_alpn: None,
                tags_key: None,
            },
        ),
    }
}

impl TcpSession {
    /// Whether the slots of the session have the time of its last event.
    pub open spec fn in_step(self, slots: Map<usize, SessionSlot>) -> bool {
        sessions::in_step(slots, self.frontend_token, self.last_event)
    }

    /// What a session adds to the gauges.
    pub open spec fn share(self) -> GaugeModel {
        if self.has_been_closed {
            no_share()
        } else {
            share_of(self.state.marker(), self.backend_connected)
        }
    }

    /// What every session meets: it tries to connect a limited number of times,
    /// it has a token for its backend while it is connected, it holds what the
    /// next stage will need, and nothing is left of it once it is closed.
    pub open spec fn wf(self) -> bool {
        &&& self.connection_attempt <= CONN_RETRIES
        &&& self.backend_connected is Connecting ==> self.connection_attempt < CONN_RETRIES
        &&& !(self.backend_connected is NotConnected) ==> self.backend_token is Some
        &&& self.backend is Some ==> self.backend_token is Some
        &&& self.backend_token != Some(self.frontend_token)
        &&& self.has_been_closed ==> !self.cluster_ip_tracked
        &&& self.has_been_closed && !(self.state is FailedUpgrade) ==> self.backend is None
            && self.backend_token is None && self.backend_connected is NotConnected
        &&& self.stage_ok()
    }

    /// Whether the session holds what the next stage will need, and has what is
    /// known of its route only once that is found.
    pub open spec fn stage_ok(self) -> bool {
        match self.state {
            TcpStateMachine::SendProxyProtocol(_) => self.frontend_buffer && self.backend_buffer,
            TcpStateMachine::RelayProxyProtocol(_) => self.backend_buffer && self.unrouted(),
            TcpStateMachine::ExpectProxyProtocol(_) => self.frontend_buffer && self.backend_buffer
                && self.unrouted(),
            TcpStateMachine::SniPreread(_) => self.backend_buffer && self.unrouted(),
            _ => true,
        }
    }

    /// Whether nothing is known of a route by server name.
    pub open spec fn unrouted(self) -> bool {
        self.routed_sni is None && self.routed_alpn_label is None && self.tags_key is None
    }

    /// A session that needs no server name. `proxy_protocol` is what the
    /// cluster is configured to.
    pub fn new(
        timer: &mut Timer<Token>,
        gauges: &mut TcpGauges,
        settings: NewTcpSession,
        proxy_protocol: Option<ProxyProtocolConfig>,
        front: Readiness,
        back: Readiness,
    ) -> (session: TcpSession)
        requires
            timer_ready(*old(timer)),
            old(gauges).room(),
        ensures
            session.wf(),
            final(timer).wf(),
            final(timer).same_wheel(*old(timer)),
            session.container_frontend_timeout.set_to() matches Some(t) && final(timer).inserted(
                *old(timer),
                t,
                settings.frontend_token,
            ) && old(timer).is_due_after(t.due(), session.container_frontend_timeout.span()@),
            session.is_fresh(settings),
            session.container_frontend_timeout.span() == settings.frontend_timeout,
            session.cluster_id == settings.cluster_id,
            session.state == first_state(
                settings.cluster_id,
                settings.frontend_address,
                proxy_protocol,
                front,
                back,
            ),
            session.frontend_buffer == (session.state is ExpectProxyProtocol
                || session.state is SendProxyProtocol),
            session.backend_buffer == !(session.state is Pipe),
            final(gauges).moved(*old(gauges), no_share(), session.share()),
    {
        let container_frontend_timeout = TimeoutContainer::new(
            timer,
            settings.frontend_timeout,
            settings.frontend_token,
        );
        let waiting = ProxyProtocolState {
            front,
            back,
            source: None,
            backend_token: None,
            connected: false,
        };
        let mut frontend_buffer = false;
        let mut backend_buffer = true;
        let state = match proxy_protocol {
            Some(ProxyProtocolConfig::RelayHeader) => TcpStateMachine::RelayProxyProtocol(waiting),
            Some(ProxyProtocolConfig::ExpectHeader) => {
                frontend_buffer = true;
                TcpStateMachine::ExpectProxyProtocol(waiting)
            },
            Some(ProxyProtocolConfig::SendHeader) => {
                frontend_buffer = true;
                TcpStateMachine::SendProxyProtocol(waiting)
            },
            None => {
                backend_buffer = false;
                TcpStateMachine::Pipe(
                    PipeState {
                        front,
                        back,
                        session_address: settings.frontend_address,
                        cluster_id: settings.cluster_id.clone(),
                        backend_id: None,
                        backend_token: None,
                        tls_sni: None,
                        tls_alpn: None,
                        tags_key: None,
                    },
                )
            },
        };
        gauges.enter(state.stage());
        TcpSession {
            backend_buffer,
            backend_connected: BackendConnectionStatus::NotConnected,
            backend_id: None,
            backend_token: None,
            backend: None,
            cluster_id: settings.cluster_id,
            configured_backend_timeout: settings.backend_timeout,
            connection_attempt: 0,
            container_backend_timeout: TimeoutContainer::new_empty(settings.connect_timeout),
            container_frontend_timeout,
            frontend_address: settings.frontend_address,
            frontend_buffer,
            frontend_token: settings.frontend_token,
            has_been_closed: false,
            last_event: settings.now,
            state,
            cluster_ip_tracked: false,
            routed_sni: None,
            routed_alpn_label: None,
            tags_key: None,
        }
    }

    /// Whether nothing happened to a session since it was created.
    pub open spec fn is_fresh(self, settings: NewTcpSession) -> bool {
        &&& self.backend_connected is NotConnected
        &&& self.backend_id is None
        &&& self.backend_token is None
        &&& self.backend is None
        &&& self.configured_backend_timeout == settings.backend_timeout
        &&& self.connection_attempt == 0
        &&& self.container_backend_timeout.set_to() is None
        &&& self.container_backend_timeout.span() == settings.connect_timeout
        &&& self.frontend_address == settings.frontend_address
        &&& self.frontend_token == settings.frontend_token
        &&& !self.has_been_closed
        &&& self.last_event == settings.now
        &&& !self.cluster_ip_tracked
        &&& self.routed_sni is None
        &&& self.routed_alpn_label is None
        &&& self.tags_key is None
    }

    /// A session that looks for the server name first. The timeout of the client
    /// is the deadline for that.
    pub fn new_sni_preread(
        timer: &mut Timer<Token>,
        gauges: &mut TcpGauges,
        settings: NewTcpSession,
        preread_timeout: Duration,
        effective_max_bytes: usize,
        front: Readiness,
        back: Readiness,
    ) -> (session: TcpSession)
        requires
            timer_ready(*old(timer)),
            old(gauges).room(),
        ensures
            session.wf(),
            final(timer).wf(),
            final(timer).same_wheel(*old(timer)),
            session.container_frontend_timeout.set_to() matches Some(t) && final(timer).inserted(
                *old(timer),
                t,
                settings.frontend_token,
            ) && old(timer).is_due_after(t.due(), session.container_frontend_timeout.span()@),
            session.is_fresh(settings),
            session.container_frontend_timeout.span() == preread_timeout,
            session.cluster_id is None,
            !session.frontend_buffer,
            session.backend_buffer,
            session.state == TcpStateMachine::SniPreread(
                PrereadState {
                    front,
                    back,
                    outcome: None,
                    backend: false,
                    backend_token: None,
                    effective_max_bytes,
                },
            ),
            final(gauges).moved(*old(gauges), no_share(), session.share()),
    {
        let container_frontend_timeout = TimeoutContainer::new(
            timer,
            preread_timeout,
            settings.frontend_token,
        );
        gauges.enter(StateMarker::SniPreread);
        TcpSession {
            backend_buffer: true,
            backend_connected: BackendConnectionStatus::NotConnected,
            backend_id: None,
            backend_token: None,
            backend: None,
            cluster_id: None,
            configured_backend_timeout: settings.backend_timeout,
            connection_attempt: 0,
            container_backend_timeout: TimeoutContainer::new_empty(settings.connect_timeout),
            container_frontend_timeout,
            frontend_address: settings.frontend_address,
            frontend_buffer: false,
            frontend_token: settings.frontend_token,
            has_been_closed: false,
            last_event: settings.now,
            state: TcpStateMachine::SniPreread(
                PrereadState {
                    front,
                    back,
                    outcome: None,
                    backend: false,
                    backend_token: None,
                    effective_max_bytes,
                },
            ),
            cluster_ip_tracked: false,
            routed_sni: None,
            routed_alpn_label: None,
            tags_key: None,
        }
    }

    /// The address that the session counts for: the source that a PROXY
    /// protocol header gave, or else that of the client's socket.
    pub open spec fn session_address(self) -> Option<SocketAddr> {
        let given = match self.state {
            TcpStateMachine::Pipe(s) => s.session_address,
            TcpStateMachine::ExpectProxyProtocol(s) => s.source,
            TcpStateMachine::RelayProxyProtocol(s) => s.source,
            TcpStateMachine::SniPreread(s) => match s.outcome {
                Some(o) => o.proxy_source,
                None => None,
            },
            _ => None,
        };
        match given {
            Some(address) => Some(address),
            None => self.frontend_address,
        }
    }

    /// The address that the session counts for.
    pub fn effective_session_address(&self) -> (address: Option<SocketAddr>)
        ensures
            address == self.session_address(),
    {
        let given: Option<SocketAddr> = match &self.state {
            TcpStateMachine::Pipe(s) => s.session_address,
            TcpStateMachine::ExpectProxyProtocol(s) => s.source,
            TcpStateMachine::RelayProxyProtocol(s) => s.source,
            TcpStateMachine::SniPreread(s) => match &s.outcome {
                Some(o) => o.proxy_source,
                None => None,
            },
            TcpStateMachine::SendProxyProtocol(_) => None,
            TcpStateMachine::FailedUpgrade(_) => None,
        };
        match given {
            Some(address) => Some(address),
            None => self.frontend_address,
        }
    }

    /// The key of the tags that the access log tells of: that of the front that
    /// the session was routed by, or else the listener's address.
    pub fn access_log_tags_key(&self, address: &String) -> (key: String)
        ensures
            key@ == match self.tags_key {
                Some(k) => k@,
                None => address@,
            },
    {
        match &self.tags_key {
            Some(key) => key.clone(),
            None => address.clone(),
        }
    }

    /// Whom it concerns that the client is gone.
    pub fn front_hup(&self) -> (dispatch: Dispatch)
        ensures
            dispatch == match self.state {
                TcpStateMachine::Pipe(_) => Dispatch::ToState,
                TcpStateMachine::SniPreread(_) => Dispatch::PrereadClosed,
                _ => Dispatch::LogAndClose,
            },
    {
        match &self.state {
            TcpStateMachine::Pipe(_) => Dispatch::ToState,
            TcpStateMachine::SniPreread(_) => Dispatch::PrereadClosed,
            _ => Dispatch::LogAndClose,
        }
    }

    /// Whom it concerns that the backend is gone.
    pub fn back_hup(&self) -> (dispatch: Dispatch)
        ensures
            dispatch == if self.state is Pipe {
                Dispatch::ToState
            } else {
                Dispatch::LogAndClose
            },
    {
        match &self.state {
            TcpStateMachine::Pipe(_) => Dispatch::ToState,
            _ => Dispatch::LogAndClose,
        }
    }

    /// Whom it concerns that the client sent something. Starts the timeouts
    /// anew that stand for silence.
    pub fn readable(&mut self, timer: &mut Timer<Token>) -> (dispatch: Dispatch)
        requires
            old(self).wf(),
            timer_ready(*old(timer)),
            !(old(self).state is FailedUpgrade),
        ensures
            final(self).wf(),
            timer_ready(*final(timer)),
            *final(self) == (TcpSession {
                container_frontend_timeout: final(self).container_frontend_timeout,
                container_backend_timeout: final(self).container_backend_timeout,
                ..*old(self)
            }),
            dispatch == if old(self).state is SendProxyProtocol {
                Dispatch::Done(SessionResult::Continue)
            } else {
                Dispatch::ToState
            },
            exists|between: Timer<Token>| {
                &&& #[trigger] resets(
                    old(self).state.is_idle_timed(),
                    old(self).container_frontend_timeout,
                    final(self).container_frontend_timeout,
                    *old(timer),
                    between,
                )
                &&& resets(
                    old(self).backend_connected is Connected,
                    old(self).container_backend_timeout,
                    final(self).container_backend_timeout,
                    between,
                    *final(timer),
                )
            },
    {
        let ghost was_front = self.container_frontend_timeout;
        let ghost was_back = self.container_backend_timeout;
        let ghost start = *timer;
        if frontend_timeout_resets_on_readable(&self.state) {
            reset_timeout(&mut self.container_frontend_timeout, timer);
        }
        let ghost between = *timer;
        assert(resets(
            old(self).state.is_idle_timed(),
            was_front,
            self.container_frontend_timeout,
            start,
            between,
        ));
        if self.backend_connected == BackendConnectionStatus::Connected {
            reset_timeout(&mut self.container_backend_timeout, timer);
        }
        assert(resets(
            old(self).backend_connected is Connected,
            was_back,
            self.container_backend_timeout,
            between,
            *timer,
        ));
        match &self.state {
            TcpStateMachine::SendProxyProtocol(_) => Dispatch::Done(SessionResult::Continue),
            _ => Dispatch::ToState,
        }
    }

    /// Takes in that the route may have been found. From then on the timeout of
    /// the client is the configured one: a backend that is slow to connect is
    /// none of the search's business.
    pub fn route_found(&mut self, front_timeout_seconds: u32)
        requires
            old(self).wf(),
        ensures
            final(self).wf(),
            match old(self).state {
                TcpStateMachine::SniPreread(p) if p.outcome is Some && old(
                    self).cluster_id is None => {
                    &&& final(self).cluster_id is Some
                    &&& final(self).cluster_id->0@ == p.outcome->0.cluster@
                    &&& final(self).container_frontend_timeout.span()@ == front_timeout_seconds
                        * 1_000_000_000
                    &&& final(self).container_frontend_timeout.set_to() == old(
                        self).container_frontend_timeout.set_to()
                    &&& *final(self) == (TcpSession {
                        cluster_id: final(self).cluster_id,
                        container_frontend_timeout: final(self).container_frontend_timeout,
                        ..*old(self)
                    })
                },
                _ => *final(self) == *old(self),
            },
    {
        if self.cluster_id.is_some() {
            return ;
        }
        let cluster = match &self.state {
            TcpStateMachine::SniPreread(preread) => match &preread.outcome {
                Some(outcome) => outcome.cluster.clone(),
                None => {
                    return ;
                },
            },
            _ => {
                return ;
            },
        };
        self.cluster_id = Some(cluster);
        self.container_frontend_timeout.set_duration(
            Duration::seconds(front_timeout_seconds as i64),
        );
    }

    /// Whom it concerns that the client can be written to.
    pub fn writable(&self) -> (dispatch: Dispatch)
        ensures
            dispatch == if self.state is Pipe {
                Dispatch::ToState
            } else {
                Dispatch::Done(SessionResult::Continue)
            },
    {
        match &self.state {
            TcpStateMachine::Pipe(_) => Dispatch::ToState,
            _ => Dispatch::Done(SessionResult::Continue),
        }
    }

    /// Whom it concerns that the backend sent something. Starts both timeouts
    /// anew.
    pub fn back_readable(&mut self, timer: &mut Timer<Token>) -> (dispatch: Dispatch)
        requires
            old(self).wf(),
            timer_ready(*old(timer)),
        ensures
            final(self).wf(),
            timer_ready(*final(timer)),
            *final(self) == (TcpSession {
                container_frontend_timeout: final(self).container_frontend_timeout,
                container_backend_timeout: final(self).container_backend_timeout,
                ..*old(self)
            }),
            dispatch == if old(self).state is Pipe {
                Dispatch::ToState
            } else {
                Dispatch::Done(SessionResult::Continue)
            },
            exists|between: Timer<Token>| {
                &&& #[trigger] resets(
                    true,
                    old(self).container_frontend_timeout,
                    final(self).container_frontend_timeout,
                    *old(timer),
                    between,
                )
                &&& resets(
                    true,
                    old(self).container_backend_timeout,
                    final(self).container_backend_timeout,
                    between,
                    *final(timer),
                )
            },
    {
        let ghost was_front = self.container_frontend_timeout;
        let ghost start = *timer;
        reset_timeout(&mut self.container_frontend_timeout, timer);
        let ghost between = *timer;
        assert(resets(true, was_front, self.container_frontend_timeout, start, between));
        reset_timeout(&mut self.container_backend_timeout, timer);
        match &self.state {
            TcpStateMachine::Pipe(_) => Dispatch::ToState,
            _ => Dispatch::Done(SessionResult::Continue),
        }
    }

    /// Whom it concerns that the backend can be written to.
    pub fn back_writable(&self) -> (dispatch: Dispatch)
        requires
            !(self.state is FailedUpgrade),
        ensures
            dispatch == if self.state is ExpectProxyProtocol {
                Dispatch::Done(SessionResult::Continue)
            } else {
                Dispatch::ToState
            },
    {
        match &self.state {
            TcpStateMachine::ExpectProxyProtocol(_) => Dispatch::Done(SessionResult::Continue),
            _ => Dispatch::ToState,
        }
    }
}

/// Whether a timeout started anew, if it is to, and else nothing changed.
pub open spec fn resets(
    wanted: bool,
    before: TimeoutContainer,
    after: TimeoutContainer,
    timer_before: Timer<Token>,
    timer_after: Timer<Token>,
) -> bool {
    if wanted {
        is_reset(before, after, timer_before, timer_after)
    } else {
        after == before && timer_after == timer_before
    }
}

/// A session that needs no server name begins in the stage that its cluster is
/// configured to: it sends a header of its own, relays that of the client,
/// expects one, or is a pipe at once. It is armed with what it is given, and
/// knows neither a backend nor a source but the client's own.
pub proof fn law_first_stage_is_the_configured_one(
    cluster_id: Option<String>,
    address: Option<SocketAddr>,
    proxy_protocol: Option<ProxyProtocolConfig>,
    front: Readiness,
    back: Readiness,
)
    ensures
        ({
            let state = first_state(cluster_id, address, proxy_protocol, front, back);
            &&& proxy_protocol == Some(ProxyProtocolConfig::SendHeader)
                <==> state is SendProxyProtocol
            &&& proxy_protocol == Some(ProxyProtocolConfig::RelayHeader)
                <==> state is RelayProxyProtocol
            &&& proxy_protocol == Some(ProxyProtocolConfig::ExpectHeader)
                <==> state is ExpectProxyProtocol
            &&& proxy_protocol is None <==> state is Pipe
            &&& match state {
                TcpStateMachine::Pipe(s) => {
                    &&& s.front == front && s.back == back
                    &&& s.session_address == address && s.cluster_id == cluster_id
                    &&& s.backend_id is None && s.backend_token is None
                    &&& s.tls_sni is None && s.tls_alpn is None && s.tags_key is None
                },
                TcpStateMachine::SendProxyProtocol(s) | TcpStateMachine::RelayProxyProtocol(s)
                | TcpStateMachine::ExpectProxyProtocol(s) => {
                    &&& s.front == front && s.back == back
                    &&& s.source is None && s.backend_token is None && !s.connected
                },
                _ => false,
            }
        }),
{
}

/// Each stage is known as itself; one that could not be left as the stage that it
/// was.
pub proof fn law_stages_are_told_apart(state: TcpStateMachine)
    ensures
        ({
            let left = state matches TcpStateMachine::FailedUpgrade(m) && m == state.marker();
            &&& state.marker() is Pipe <==> state is Pipe || (left && state->FailedUpgrade_0
                is Pipe)
            &&& state.marker() is SendProxyProtocol <==> state is SendProxyProtocol || (left
                && state->FailedUpgrade_0 is SendProxyProtocol)
            &&& state.marker() is RelayProxyProtocol <==> state is RelayProxyProtocol || (left
                && state->FailedUpgrade_0 is RelayProxyProtocol)
            &&& state.marker() is ExpectProxyProtocol <==> state is ExpectProxyProtocol || (left
                && state->FailedUpgrade_0 is ExpectProxyProtocol)
            &&& state.marker() is SniPreread <==> state is SniPreread || (left
                && state->FailedUpgrade_0 is SniPreread)
            &&& state is FailedUpgrade ==> left
        }),
{
}

/// The readiness of each socket is that of the stage: all have the client's, and
/// all but the one that expects a header have the backend's.
pub proof fn law_readiness_is_the_stage_s(state: TcpStateMachine)
    ensures
        match state {
            TcpStateMachine::Pipe(s) => state.front() == Some(s.front) && state.back() == Some(
                s.back,
            ),
            TcpStateMachine::SendProxyProtocol(s) => state.front() == Some(s.front)
                && state.back() == Some(s.back),
            TcpStateMachine::RelayProxyProtocol(s) => state.front() == Some(s.front)
                && state.back() == Some(s.back),
            TcpStateMachine::ExpectProxyProtocol(s) => state.front() == Some(s.front)
                && state.back() is None,
            TcpStateMachine::SniPreread(s) => state.front() == Some(s.front) && state.back()
                == Some(s.back),
            TcpStateMachine::FailedUpgrade(_) => state.front() is None && state.back() is None,
        },
{
}

/// Setting the readiness of both sockets gives it back when it is asked for, and
/// changes nothing else: setting it again to what it was undoes that.
pub proof fn law_set_readiness_is_read_back(
    state: TcpStateMachine,
    front: Readiness,
    back: Readiness,
)
    ensures
        ({
            let set = state.with_readiness(front, back);
            &&& state.front() is Some ==> set.front() == Some(front)
            &&& state.front() is None ==> set == state
            &&& state.back() is Some ==> set.back() == Some(back)
            &&& state.back() is None ==> set.back() is None
            &&& set.marker() == state.marker()
            &&& set is FailedUpgrade <==> state is FailedUpgrade
            &&& (state.back() is Some ==> set.with_readiness(
                state.front()->0,
                state.back()->0,
            ) == state)
            &&& (state.front() is Some && state.back() is None ==> set.with_readiness(
                state.front()->0,
                back,
            ) == state)
        }),
{
}

/// The server name is looked for until the search has an outcome, and only in
/// the stage that is for it. Only then the timeout of the client does not stand
/// for its silence.
pub proof fn law_the_search_ends_with_an_outcome(state: TcpStateMachine)
    ensures
        state.undecided() <==> (state is SniPreread && state->SniPreread_0.outcome is None),
        state.is_idle_timed() <==> !(state is SniPreread) || state->SniPreread_0.outcome is Some,
{
}

/// What was heard at one stage is heard at the next, beside what that is armed
/// with; each event on its own, and nothing that neither says. What is waited
/// for is the next one's own.
pub proof fn law_nothing_heard_is_lost(left: Readiness, armed: Readiness)
    ensures
        ({
            let r = taken_over(left, armed);
            &&& r.event.readable <==> left.event.readable || armed.event.readable
            &&& r.event.writable <==> left.event.writable || armed.event.writable
            &&& r.event.error <==> left.event.error || armed.event.error
            &&& r.event.hup <==> left.event.hup || armed.event.hup
            &&& r.interest == armed.interest
            &&& either_events(left.event, armed.event) == r.event
        }),
{
}

/// A session counts for the source that a PROXY protocol header gave, where the
/// stage has one, and for the client's own address otherwise.
pub proof fn law_a_given_source_comes_first(session: TcpSession, source: SocketAddr)
    ensures
        ({
            let given = match session.state {
                TcpStateMachine::Pipe(s) => s.session_address == Some(source),
                TcpStateMachine::ExpectProxyProtocol(s) => s.source == Some(source),
                TcpStateMachine::RelayProxyProtocol(s) => s.source == Some(source),
                TcpStateMachine::SniPreread(s) => s.outcome is Some && s.outcome->0.proxy_source
                    == Some(source),
                _ => false,
            };
            let none_given = match session.state {
                TcpStateMachine::Pipe(s) => s.session_address is None,
                TcpStateMachine::ExpectProxyProtocol(s) => s.source is None,
                TcpStateMachine::RelayProxyProtocol(s) => s.source is None,
                TcpStateMachine::SniPreread(s) => s.outcome is None
                    || s.outcome->0.proxy_source is None,
                _ => true,
            };
            &&& given ==> session.session_address() == Some(source)
            &&& none_given ==> session.session_address() == session.frontend_address
        }),
{
}

/// Each stage has a gauge of its own, and so have connections to backends: a
/// session that enters a stage moves that gauge by one, and no other.
pub proof fn law_each_stage_has_its_gauge(
    before: TcpGauges,
    after: TcpGauges,
    marker: StateMarker,
    connected: BackendConnectionStatus,
)
    requires
        after.moved(before, no_share(), share_of(marker, connected)),
    ensures
        after.tcp - before.tcp == if marker is Pipe {
            1int
        } else {
            0
        },
        after.proxy_send - before.proxy_send == if marker is SendProxyProtocol {
            1int
        } else {
            0
        },
        after.proxy_relay - before.proxy_relay == if marker is RelayProxyProtocol {
            1int
        } else {
            0
        },
        after.proxy_expect - before.proxy_expect == if marker is ExpectProxyProtocol {
            1int
        } else {
            0
        },
        after.sni_preread_active - before.sni_preread_active == if marker is SniPreread {
            1int
        } else {
            0
        },
        after.backend_connections - before.backend_connections == if connected is Connected {
            1int
        } else {
            0
        },
{
}

/// What a session adds to the gauges is told by its stage and its connection to
/// the backend, until it is closed.
pub proof fn law_share_is_told_by_the_stage(session: TcpSession)
    ensures
        ({
            let share = session.share();
            let open = !session.has_been_closed;
            let marker = session.state.marker();
            &&& share.tcp == 1 <==> open && marker is Pipe
            &&& share.proxy_send == 1 <==> open && marker is SendProxyProtocol
            &&& share.proxy_relay == 1 <==> open && marker is RelayProxyProtocol
            &&& share.proxy_expect == 1 <==> open && marker is ExpectProxyProtocol
            &&& share.sni_preread_active == 1 <==> open && marker is SniPreread
            &&& share.backend_connections == 1 <==> open && session.backend_connected is Connected
            &&& 0 <= share.tcp <= 1 && 0 <= share.proxy_send <= 1 && 0 <= share.proxy_relay <= 1
            &&& 0 <= share.proxy_expect <= 1 && 0 <= share.sni_preread_active <= 1
            &&& 0 <= share.backend_connections <= 1
        }),
{
}

/// A timeout that starts anew is due later than now, as long from now as it was
/// set for, and is for the same token; all others stay. One that is not to start
/// anew stays as it is, and so does one that is no longer pending but for being
/// forgotten.
pub proof fn law_a_timeout_starts_anew_alone(
    wanted: bool,
    before: TimeoutContainer,
    after: TimeoutContainer,
    timer_before: Timer<Token>,
    timer_after: Timer<Token>,
    key: usize,
)
    requires
        resets(wanted, before, after, timer_before, timer_after),
    ensures
        !wanted ==> after == before && timer_after == timer_before,
        wanted ==> after.span() == before.span(),
        wanted && before.set_to() is None ==> after.set_to() is None,
        wanted && before.set_to() is Some && timer_before.holds(before.set_to()->0) ==> {
            &&& after.set_to() is Some
            &&& after.set_to()->0.due() > timer_before.current()
            &&& timer_before.is_due_after(after.set_to()->0.due(), before.span()@)
            &&& timer_after.pending().dom().contains(after.set_to()->0.key())
            &&& timer_after.pending()[after.set_to()->0.key()] == (
                after.set_to()->0.due(),
                timer_before.pending()[before.set_to()->0.key()].1,
            )
        },
        timer_before.pending().dom().contains(key) && !(before.set_to() is Some
            && before.set_to()->0.key() == key) ==> timer_after.pending().dom().contains(key)
            && timer_after.pending()[key] == timer_before.pending()[key],
{
}

/// A session begins without a backend, without a route and without a try to
/// connect, and with the settings that it is given.
pub proof fn law_how_a_session_begins(session: TcpSession, settings: NewTcpSession)
    requires
        session.is_fresh(settings),
    ensures
        session.backend_connected is NotConnected,
        session.backend is None && session.backend_id is None && session.backend_token is None,
        session.connection_attempt == 0,
        !session.has_been_closed && !session.cluster_ip_tracked,
        session.frontend_token == settings.frontend_token,
        session.frontend_address == settings.frontend_address,
        session.last_event == settings.now,
        session.configured_backend_timeout == settings.backend_timeout,
        session.container_backend_timeout.span() == settings.connect_timeout,
        session.container_backend_timeout.set_to() is None,
        session.routed_sni is None && session.routed_alpn_label is None,
        session.tags_key is None,
{
}

} // verus!
