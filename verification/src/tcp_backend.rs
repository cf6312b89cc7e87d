//! How a TCP session gets a backend, and lets go of it.
use vstd::prelude::*;

use crate::server::{Ready, CONN_RETRIES};
use crate::session_manager;
use crate::session_manager::{Protocol, SessionManager, SessionSlot};
use crate::sessions;
use crate::slots;
use crate::socket::IoErrorKind;
use crate::table::Table;
use crate::tcp_session;
use crate::tcp_session::{
    BackendClosed, BackendConnectAction, BackendConnectionError, BackendConnectionStatus,
    BackendHandle, ClusterConfiguration, ProxyProtocolState, Readiness, SessionClosed, TcpGauges,
    TcpSession, TcpStateMachine,
};
use crate::timer;
use crate::timer::Timer;
use crate::Token;

verus! {

/// What a backend that is connected to is told.
#[derive(Copy, Clone, Debug, PartialEq, Eq, Structural)]
pub struct BackendUp {
    /// It was taken to be down, and others are to know that it is not.
    pub recovered: bool,
    /// How long it took to connect, in nanoseconds.
    pub connection_time: Option<u64>,
}

/// What comes of a failure to connect.
#[derive(Copy, Clone, Debug, PartialEq, Eq, Structural)]
pub struct BackendFailure {
    /// There is a backend that it counts for.
    pub counted: bool,
    /// It is taken to be down from now on, and others are to know.
    pub went_down: bool,
}

/// What comes of a timeout.
#[derive(Copy, Clone, Debug, PartialEq, Eq, Structural)]
pub struct TimedOut {
    pub close: bool,
    /// The search for the server name is told that its time is up.
    pub preread: bool,
}

/// Whether the backend's socket is alive, from what looking at its next byte
/// gave: the number of bytes that there are, or an error. A socket that was
/// closed has no more bytes, and is not waiting for any.
pub fn test_back_socket(peeked: Option<Result<usize, IoErrorKind>>) -> (alive: bool)
    ensures
        alive == match peeked {
            Some(Ok(n)) => n > 0,
            Some(Err(e)) => e is WouldBlock,
            None => false,
        },
{
    match peeked {
        Some(Ok(n)) => n > 0,
        Some(Err(e)) => e == IoErrorKind::WouldBlock,
        None => false,
    }
}

/// The cluster that a session is for: the one that it was routed to, or else the
/// listener's.
pub open spec fn cluster_of(routed: Option<String>, listener: Option<String>) -> Option<String> {
    match routed {
        Some(c) => Some(c),
        None => listener,
    }
}

impl TcpSession {
    /// Why a session may not connect to a backend of `cluster`, if it may not.
    pub open spec fn refused(
        self,
        sessions: SessionManager,
        configs: Map<Seq<char>, ClusterConfiguration>,
        cluster: Seq<char>,
    ) -> bool {
        ||| self.connection_attempt >= CONN_RETRIES
        ||| sessions.full()
        ||| self.over_limit(sessions, configs, cluster)
    }

    /// The limit of connections per source that a cluster is configured to.
    pub open spec fn cluster_limit(
        configs: Map<Seq<char>, ClusterConfiguration>,
        cluster: Seq<char>,
    ) -> Option<u64> {
        if configs.dom().contains(cluster) {
            configs[cluster].max_connections_per_ip
        } else {
            None
        }
    }

    /// Whether the source has too many connections to the cluster.
    pub open spec fn over_limit(
        self,
        sessions: SessionManager,
        configs: Map<Seq<char>, ClusterConfiguration>,
        cluster: Seq<char>,
    ) -> bool {
        match self.session_address() {
            Some(address) => {
                let limit = sessions.limit_per_ip(Self::cluster_limit(configs, cluster));
                &&& limit > 0
                &&& !sessions.counted().contains((self.frontend_token.0, cluster, address.ip()))
                &&& sessions.connections(cluster, address.ip()) >= limit
            },
            None => false,
        }
    }

    /// Whether the session may connect to a backend of its cluster, which is
    /// then named. It counts against the limit of the cluster and its source
    /// from then on.
    pub fn begin_connect(
        &mut self,
        sessions: &mut SessionManager,
        configs: &Table<String, ClusterConfiguration>,
        listener_cluster: &Option<String>,
    ) -> (r: Result<String, BackendConnectionError>)
        requires
            old(self).wf(),
            !old(self).has_been_closed,
            old(sessions).wf(),
            configs.wf(),
        ensures
            final(self).wf(),
            final(sessions).wf(),
            final(sessions).same_but_tracking(*old(sessions)),
            match cluster_of(old(self).cluster_id, *listener_cluster) {
                None => {
                    &&& r matches Err(BackendConnectionError::NotFound)
                    &&& *final(self) == *old(self)
                    &&& final(sessions).counted() == old(sessions).counted()
                },
                Some(cluster) => {
                    &&& final(self).cluster_id == Some(cluster)
                    &&& r is Ok <==> !old(self).refused(*old(sessions), configs.map(), cluster@)
                    &&& r matches Ok(c) ==> c == cluster
                    &&& r matches Err(e) ==> if old(self).connection_attempt >= CONN_RETRIES {
                        e matches BackendConnectionError::MaxConnectionRetries(Some(c)) && c
                            == cluster
                    } else if old(sessions).full() {
                        e is MaxSessionsMemory
                    } else {
                        e matches BackendConnectionError::TooManyConnectionsPerIp { cluster_id }
                            && cluster_id == cluster
                    }
                    &&& *final(self) == (TcpSession {
                        cluster_id: Some(cluster),
                        cluster_ip_tracked: old(self).cluster_ip_tracked || (r is Ok && old(
                            self).session_address() is Some),
                        ..*old(self)
                    })
                    &&& final(sessions).counted() == match old(self).session_address() {
                        Some(address) if r is Ok => old(sessions).counted().insert(
                            (old(self).frontend_token.0, cluster@, address.ip()),
                        ),
                        _ => old(sessions).counted(),
                    }
                },
            },
    {
        let cluster = match &self.cluster_id {
            Some(cluster) => cluster.clone(),
            None => match listener_cluster {
                Some(cluster) => cluster.clone(),
                None => {
                    return Err(BackendConnectionError::NotFound);
                },
            },
        };
        self.cluster_id = Some(cluster.clone());
        if self.connection_attempt >= CONN_RETRIES {
            return Err(BackendConnectionError::MaxConnectionRetries(Some(cluster)));
        }
        if sessions.at_capacity() {
            return Err(BackendConnectionError::MaxSessionsMemory);
        }
        let limit: Option<u64> = match configs.get(&cluster) {
            Some(config) => config.max_connections_per_ip,
            None => None,
        };
        if let Some(address) = self.effective_session_address() {
            if sessions.cluster_ip_at_limit(self.frontend_token, &cluster, address.ip(), limit) {
                return Err(
                    BackendConnectionError::TooManyConnectionsPerIp { cluster_id: cluster },
                );
            }
            sessions.track_cluster_ip(self.frontend_token, cluster.clone(), address.ip());
            self.cluster_ip_tracked = true;
        }
        Ok(cluster)
    }

    /// The same stage, wired to the socket of a backend.
    pub open spec fn wired(state: TcpStateMachine, token: Token, backend_id: String) -> TcpStateMachine {
        match state {
            TcpStateMachine::Pipe(s) => TcpStateMachine::Pipe(
                tcp_session::PipeState {
                    backend_token: Some(token),
                    backend_id: Some(backend_id),
                    ..s
                },
            ),
            TcpStateMachine::SendProxyProtocol(s) => TcpStateMachine::SendProxyProtocol(
                ProxyProtocolState { backend_token: Some(token), ..s },
            ),
            TcpStateMachine::RelayProxyProtocol(s) => TcpStateMachine::RelayProxyProtocol(
                ProxyProtocolState { backend_token: Some(token), ..s },
            ),
            TcpStateMachine::SniPreread(s) => TcpStateMachine::SniPreread(
                tcp_session::PrereadState { backend: true, backend_token: Some(token), ..s },
            ),
            other => other,
        }
    }

    /// Takes in that a socket is connecting to a backend: it gets a slot of its
    /// own, which leads to the session, and the time to connect starts.
    pub fn finish_connect(
        &mut self,
        sessions: &mut SessionManager,
        timer: &mut Timer<Token>,
        backend_id: String,
        now: u64,
    ) -> (action: BackendConnectAction)
        requires
            old(self).wf(),
            !old(self).has_been_closed,
            old(self).backend_connected is NotConnected,
            old(self).connection_attempt < CONN_RETRIES,
            !(old(self).state is ExpectProxyProtocol),
            !(old(self).state is FailedUpgrade),
            old(sessions).wf(),
            old(sessions).sessions().dom().len() < slots::slab_growth_limit(),
            old(sessions).sessions().dom().contains(old(self).frontend_token.0),
            tcp_session::timer_ready(*old(timer)),
        ensures
            action is New,
            final(self).wf(),
            old(self).in_step(old(sessions).sessions()) ==> final(self).in_step(
                final(sessions).sessions(),
            ),
            final(sessions).wf(),
            final(sessions).same_limits(*old(sessions)),
            final(timer).wf(),
            final(timer).same_wheel(*old(timer)),
            final(self).backend_token is Some,
            ({
                let token = final(self).backend_token->0;
                &&& token != old(self).frontend_token
                &&& !old(sessions).sessions().dom().contains(token.0)
                &&& final(sessions).sessions() == old(sessions).sessions().insert(
                    token.0,
                    SessionSlot {
                        last_event: old(self).last_event,
                        frontend_token: old(self).frontend_token,
                        protocol: Protocol::TCP,
                    },
                )
                &&& final(timer).current() == old(timer).current()
                &&& final(self).container_backend_timeout.set_to() matches Some(t) && {
                    let others = timer::without(
                        old(timer).pending(),
                        old(self).container_backend_timeout.set_to(),
                    );
                    &&& t.due() > old(timer).current()
                    &&& old(timer).is_due_after(
                        t.due(),
                        old(self).container_backend_timeout.span()@,
                    )
                    &&& !others.dom().contains(t.key())
                    &&& final(timer).pending() == others.insert(t.key(), (t.due(), token))
                }
                &&& final(self).container_backend_timeout.span() == old(
                    self).container_backend_timeout.span()
                &&& *final(self) == (TcpSession {
                    backend_connected: BackendConnectionStatus::Connecting(now),
                    backend_id: Some(backend_id),
                    backend_token: Some(token),
                    container_backend_timeout: final(self).container_backend_timeout,
                    state: Self::wired(old(self).state, token, backend_id),
                    ..*old(self)
                })
            }),
    {
        self.backend_connected = BackendConnectionStatus::Connecting(now);
        let token = sessions.insert(
            SessionSlot {
                last_event: self.last_event,
                frontend_token: self.frontend_token,
                protocol: Protocol::TCP,
            },
        );
        self.container_backend_timeout.set(timer, token);
        self.backend_token = Some(token);
        match &mut self.state {
            TcpStateMachine::Pipe(s) => {
                s.backend_token = Some(token);
                s.backend_id = Some(backend_id.clone());
            },
            TcpStateMachine::SendProxyProtocol(s) => {
                s.backend_token = Some(token);
            },
            TcpStateMachine::RelayProxyProtocol(s) => {
                s.backend_token = Some(token);
            },
            TcpStateMachine::SniPreread(s) => {
                s.backend = true;
                s.backend_token = Some(token);
            },
            _ => {},
        }
        self.backend_id = Some(backend_id);
        BackendConnectAction::New
    }

    /// Takes in that the backend is connected. The time to connect gives way to
    /// the time that the backend may be silent.
    pub fn set_back_connected(
        &mut self,
        timer: &mut Timer<Token>,
        gauges: &mut TcpGauges,
        was_down: bool,
        now: u64,
    ) -> (up: BackendUp)
        requires
            old(self).wf(),
            !old(self).has_been_closed,
            old(self).backend_connected is Connecting,
            tcp_session::timer_ready(*old(timer)),
            old(gauges).room(),
        ensures
            final(self).wf(),
            tcp_session::timer_ready(*final(timer)),
            final(self).container_backend_timeout.span() == old(self).configured_backend_timeout,
            final(self).container_backend_timeout.set_to() == old(
                self).container_backend_timeout.set_to(),
            tcp_session::is_reset(
                old(self).container_frontend_timeout,
                final(self).container_frontend_timeout,
                *old(timer),
                *final(timer),
            ),
            *final(self) == (TcpSession {
                backend_connected: BackendConnectionStatus::Connected,
                connection_attempt: 0,
                container_backend_timeout: final(self).container_backend_timeout,
                container_frontend_timeout: final(self).container_frontend_timeout,
                backend: match old(self).backend {
                    Some(_) => Some(BackendHandle { failures: 0 }),
                    None => None,
                },
                state: match old(self).state {
                    TcpStateMachine::SendProxyProtocol(s) => TcpStateMachine::SendProxyProtocol(
                        ProxyProtocolState { connected: true, ..s },
                    ),
                    other => other,
                },
                ..*old(self)
            }),
            up.recovered == (old(self).backend is Some && was_down),
            up.connection_time == match old(self).backend_connected {
                BackendConnectionStatus::Connecting(start) if old(self).backend is Some => Some(
                    if now >= start {
                        (now - start) as u64
                    } else {
                        0
                    },
                ),
                _ => None,
            },
            final(gauges).moved(*old(gauges), old(self).share(), final(self).share()),
    {
        let start: u64 = match self.backend_connected {
            BackendConnectionStatus::Connecting(start) => start,
            _ => now,
        };
        self.connection_attempt = 0;
        self.backend_connected = BackendConnectionStatus::Connected;
        gauges.backend_connections = gauges.backend_connections + 1;
        self.container_backend_timeout.set_duration(self.configured_backend_timeout);
        tcp_session::reset_timeout(&mut self.container_frontend_timeout, timer);
        if let TcpStateMachine::SendProxyProtocol(s) = &mut self.state {
            s.connected = true;
        }
        match self.backend {
            Some(_) => {
                self.backend = Some(BackendHandle { failures: 0 });
                let time: u64 = if now >= start {
                    now - start
                } else {
                    0
                };
                BackendUp { recovered: was_down, connection_time: Some(time) }
            },
            None => BackendUp { recovered: false, connection_time: None },
        }
    }

    /// Takes in that connecting failed: one more of the attempts is used up, and
    /// the backend may be taken to be down.
    pub fn fail_backend_connection(&mut self, was_down: bool, is_down: bool) -> (failure:
        BackendFailure)
        requires
            old(self).wf(),
            old(self).backend_connected is Connecting,
            old(self).backend matches Some(b) ==> b.failures < usize::MAX,
        ensures
            final(self).connection_attempt == old(self).connection_attempt + 1,
            final(self).connection_attempt <= CONN_RETRIES,
            *final(self) == (TcpSession {
                connection_attempt: final(self).connection_attempt,
                backend: match old(self).backend {
                    Some(b) => Some(BackendHandle { failures: (b.failures + 1) as usize }),
                    None => None,
                },
                ..*old(self)
            }),
            failure.counted == old(self).backend is Some,
            failure.went_down == (old(self).backend is Some && !was_down && is_down),
    {
        self.connection_attempt = self.connection_attempt + 1;
        match self.backend {
            Some(backend) => {
                self.backend = Some(BackendHandle { failures: backend.failures + 1 });
                BackendFailure { counted: true, went_down: !was_down && is_down }
            },
            None => BackendFailure { counted: false, went_down: false },
        }
    }

    /// The stage after the connection to the backend is closed: nothing that its
    /// socket said counts anymore.
    pub open spec fn backend_forgotten(self) -> TcpStateMachine {
        match (self.state.front(), self.state.back()) {
            (Some(front), Some(back)) if !(self.backend_connected is NotConnected) =>
                self.state.with_readiness(
                front,
                Readiness { event: tcp_session::no_events(), ..back },
            ),
            _ => self.state,
        }
    }

    /// Lets go of the backend. `has_socket` tells whether there is a socket to
    /// it.
    pub fn close_backend(
        &mut self,
        sessions: &mut SessionManager,
        gauges: &mut TcpGauges,
        has_socket: bool,
    ) -> (closed: BackendClosed)
        requires
            old(self).backend_token != Some(old(self).frontend_token),
            old(self).connection_attempt <= CONN_RETRIES,
            old(self).wf() || old(self).backend_connected is Connecting,
            old(self).stage_ok(),
            !old(self).has_been_closed,
            !(old(self).state is FailedUpgrade),
            old(sessions).wf(),
            i64::MIN < old(gauges).backend_connections,
        ensures
            final(self).wf(),
            final(sessions).wf(),
            final(sessions).same_limits(*old(sessions)),
            final(sessions).sessions() == match old(self).backend_token {
                Some(token) if has_socket => old(sessions).sessions().remove(token.0),
                _ => old(sessions).sessions(),
            },
            old(self).in_step(old(sessions).sessions()) ==> final(self).in_step(
                final(sessions).sessions(),
            ),
            closed.deregister == (old(self).backend_token is Some && has_socket),
            closed.shutdown == (has_socket && !(old(self).backend_connected is NotConnected)),
            *final(self) == (TcpSession {
                backend: None,
                backend_token: None,
                backend_connected: BackendConnectionStatus::NotConnected,
                state: old(self).backend_forgotten(),
                ..*old(self)
            }),
            final(gauges).moved(*old(gauges), old(self).share(), final(self).share()),
    {
        let mut deregister = false;
        if let Some(token) = self.backend_token {
            if has_socket {
                let _ = sessions.remove(token);
                deregister = true;
            }
        }
        self.backend = None;
        self.backend_token = None;
        let mut shutdown = false;
        if self.backend_connected != BackendConnectionStatus::NotConnected {
            if let (Some(front), Some(back)) = (
                self.state.front_readiness(),
                self.state.back_readiness(),
            ) {
                self.state.set_readiness(
                    front,
                    Readiness {
                        event: Ready { readable: false, writable: false, error: false, hup: false },
                        interest: back.interest,
                    },
                );
            }
            shutdown = has_socket;
        }
        if self.backend_connected == BackendConnectionStatus::Connected {
            gauges.backend_connections = gauges.backend_connections - 1;
        }
        self.backend_connected = BackendConnectionStatus::NotConnected;
        BackendClosed { deregister, shutdown }
    }

    /// Cancels the timeouts of the session.
    pub fn cancel_timeouts(&mut self, timer: &mut Timer<Token>)
        requires
            old(timer).wf(),
        ensures
            final(timer).wf(),
            final(timer).same_wheel(*old(timer)),
            final(timer).current() == old(timer).current(),
            final(timer).pending() == timer::without(
                timer::without(
                    old(timer).pending(),
                    old(self).container_frontend_timeout.set_to(),
                ),
                old(self).container_backend_timeout.set_to(),
            ),
            final(self).container_frontend_timeout.set_to() is None,
            final(self).container_frontend_timeout.span() == old(
                self).container_frontend_timeout.span(),
            final(self).container_backend_timeout.set_to() is None,
            final(self).container_backend_timeout.span() == old(
                self).container_backend_timeout.span(),
            *final(self) == (TcpSession {
                container_frontend_timeout: final(self).container_frontend_timeout,
                container_backend_timeout: final(self).container_backend_timeout,
                ..*old(self)
            }),
    {
        let _ = self.container_frontend_timeout.cancel(timer);
        let _ = self.container_backend_timeout.cancel(timer);
    }

    /// Closes the session. Nothing that it held, counted or waited for is left,
    /// unless it could not leave a stage: then the worker takes its slots away,
    /// and only what it counted is taken back. Closing it again changes nothing.
    pub fn close(
        &mut self,
        sessions: &mut SessionManager,
        timer: &mut Timer<Token>,
        gauges: &mut TcpGauges,
        has_back_socket: bool,
    ) -> (closed: SessionClosed)
        requires
            old(self).wf(),
            old(sessions).wf(),
            old(timer).wf(),
            old(gauges).room(),
        ensures
            final(self).wf(),
            final(sessions).wf(),
            final(sessions).same_settings(*old(sessions)),
            final(timer).wf(),
            final(timer).same_wheel(*old(timer)),
            final(timer).current() == old(timer).current(),
            final(self).has_been_closed,
            old(self).in_step(old(sessions).sessions()) ==> final(self).in_step(
                final(sessions).sessions(),
            ),
            old(self).has_been_closed ==> {
                &&& closed is Already
                &&& *final(self) == *old(self)
                &&& *final(sessions) == *old(sessions)
                &&& *final(timer) == *old(timer)
                &&& *final(gauges) == *old(gauges)
            },
            !old(self).has_been_closed ==> {
                &&& !final(self).cluster_ip_tracked
                &&& final(sessions).counted() == if old(self).cluster_ip_tracked {
                    old(sessions).counted().filter(
                        |k: session_manager::TrackKey| k.0 != old(self).frontend_token.0,
                    )
                } else {
                    old(sessions).counted()
                }
            },
            !old(self).has_been_closed && old(self).state is FailedUpgrade ==> {
                &&& closed == SessionClosed::Failed(old(self).state.marker())
                &&& *final(self) == (TcpSession {
                    has_been_closed: true,
                    cluster_ip_tracked: false,
                    ..*old(self)
                })
                &&& *final(timer) == *old(timer)
                &&& final(sessions).sessions() == old(sessions).sessions()
                &&& final(gauges).moved(
                    *old(gauges),
                    tcp_session::share_of(
                        old(self).state.marker(),
                        BackendConnectionStatus::NotConnected,
                    ),
                    tcp_session::no_share(),
                )
            },
            !old(self).has_been_closed && !(old(self).state is FailedUpgrade) ==> {
                &&& final(self).container_frontend_timeout.set_to() is None
                &&& final(self).container_backend_timeout.set_to() is None
                &&& final(self).container_frontend_timeout.span() == old(
                    self).container_frontend_timeout.span()
                &&& final(self).container_backend_timeout.span() == old(
                    self).container_backend_timeout.span()
                &&& *final(self) == (TcpSession {
                    has_been_closed: true,
                    cluster_ip_tracked: false,
                    backend: None,
                    backend_token: None,
                    backend_connected: BackendConnectionStatus::NotConnected,
                    state: old(self).backend_forgotten(),
                    container_frontend_timeout: final(self).container_frontend_timeout,
                    container_backend_timeout: final(self).container_backend_timeout,
                    ..*old(self)
                })
                &&& closed == SessionClosed::Closed(
                    BackendClosed {
                        deregister: old(self).backend_token is Some && has_back_socket,
                        shutdown: has_back_socket && !(old(
                            self).backend_connected is NotConnected),
                    },
                )
                &&& final(sessions).sessions() == match old(self).backend_token {
                    Some(token) if has_back_socket => old(sessions).sessions().remove(
                        old(self).frontend_token.0,
                    ).remove(token.0),
                    _ => old(sessions).sessions().remove(old(self).frontend_token.0),
                }
                &&& final(timer).pending() == timer::without(
                    timer::without(
                        old(timer).pending(),
                        old(self).container_frontend_timeout.set_to(),
                    ),
                    old(self).container_backend_timeout.set_to(),
                )
                &&& final(gauges).moved(*old(gauges), old(self).share(), final(self).share())
            },
    {
        if self.has_been_closed {
            return SessionClosed::Already;
        }
        if self.cluster_ip_tracked {
            sessions.untrack_all_cluster_ip(self.frontend_token);
            self.cluster_ip_tracked = false;
        }
        gauges.leave(self.state.stage());
        if let TcpStateMachine::FailedUpgrade(marker) = &self.state {
            let marker = *marker;
            self.has_been_closed = true;
            return SessionClosed::Failed(marker);
        }
        self.cancel_timeouts(timer);
        let _ = sessions.remove(self.frontend_token);
        let closed = self.close_backend(sessions, gauges, has_back_socket);
        self.has_been_closed = true;
        SessionClosed::Closed(closed)
    }

    /// Takes in a timeout. One of the client or of the backend closes the
    /// session; one of a token that it no longer has is passed over. The search
    /// for the server name is told only while it goes on.
    pub fn timeout(&mut self, token: Token) -> (timed_out: TimedOut)
        requires
            old(self).wf(),
        ensures
            final(self).wf(),
            timed_out.close == (token == old(self).frontend_token || Some(token) == old(
                self).backend_token),
            timed_out.preread == (token == old(self).frontend_token && old(self).state.undecided()),
            token == old(self).frontend_token ==> {
                &&& final(self).container_frontend_timeout.set_to() is None
                &&& final(self).container_frontend_timeout.span() == old(
                    self).container_frontend_timeout.span()
                &&& *final(self) == (TcpSession {
                    container_frontend_timeout: final(self).container_frontend_timeout,
                    ..*old(self)
                })
            },
            Some(token) == old(self).backend_token ==> {
                &&& final(self).container_backend_timeout.set_to() is None
                &&& final(self).container_backend_timeout.span() == old(
                    self).container_backend_timeout.span()
                &&& *final(self) == (TcpSession {
                    container_backend_timeout: final(self).container_backend_timeout,
                    ..*old(self)
                })
            },
            !timed_out.close ==> *final(self) == *old(self),
    {
        if self.frontend_token == token {
            self.container_frontend_timeout.triggered();
            let preread = match &self.state {
                TcpStateMachine::SniPreread(preread) => preread.outcome.is_none(),
                _ => false,
            };
            return TimedOut { close: true, preread };
        }
        if self.backend_token == Some(token) {
            self.container_backend_timeout.triggered();
            return TimedOut { close: true, preread: false };
        }
        TimedOut { close: false, preread: false }
    }

    /// Takes in what a socket of the session is ready for.
    pub fn update_readiness(&mut self, token: Token, events: Ready, now: u64)
        requires
            old(self).wf(),
            !(old(self).state is FailedUpgrade),
        ensures
            final(self).wf(),
            final(self).last_event == now,
            *final(self) == (TcpSession {
                last_event: now,
                state: final(self).state,
                ..*old(self)
            }),
            ({
                let front = old(self).state.front()->0;
                let heard_front = Readiness {
                    event: tcp_session::either_events(front.event, events),
                    ..front
                };
                match old(self).state.back() {
                    Some(back) => {
                        let heard_back = Readiness {
                            event: tcp_session::either_events(back.event, events),
                            ..back
                        };
                        final(self).state == if token == old(self).frontend_token {
                            old(self).state.with_readiness(heard_front, back)
                        } else if Some(token) == old(self).backend_token {
                            old(self).state.with_readiness(front, heard_back)
                        } else {
                            old(self).state
                        }
                    },
                    None => final(self).state == if token == old(self).frontend_token {
                        old(self).state.with_readiness(heard_front, heard_front)
                    } else {
                        old(self).state
                    },
                }
            }),
    {
        self.last_event = now;
        if let Some(front) = self.state.front_readiness() {
            let heard_front = Readiness {
                event: tcp_session::either(front.event, events),
                interest: front.interest,
            };
            match self.state.back_readiness() {
                Some(back) => {
                    if self.frontend_token == token {
                        self.state.set_readiness(heard_front, back);
                    } else if self.backend_token == Some(token) {
                        let heard_back = Readiness {
                            event: tcp_session::either(back.event, events),
                            interest: back.interest,
                        };
                        self.state.set_readiness(front, heard_back);
                    }
                },
                None => {
                    if self.frontend_token == token {
                        self.state.set_readiness(heard_front, heard_front);
                    }
                },
            }
        }
    }
}

/// A session that was closed adds nothing to the gauges and holds no share of a
/// limit; nor has it a slot for a backend, unless it could not leave a stage.
pub proof fn law_closed_sessions_have_no_share(session: TcpSession)
    requires
        session.wf(),
        session.has_been_closed,
    ensures
        session.share() == tcp_session::no_share(),
        !(session.state is FailedUpgrade) ==> session.backend_token is None,
        !session.cluster_ip_tracked,
{
}

/// Every event of a session is told to it and to all its slots: afterwards they
/// agree on when it was, whatever they had before.
pub proof fn law_slots_have_the_time_of_the_last_event(
    before: TcpSession,
    after: TcpSession,
    slots: Map<usize, SessionSlot>,
    now: u64,
)
    requires
        after.frontend_token == before.frontend_token,
        after.last_event == now,
    ensures
        after.in_step(sessions::touched(slots, before.frontend_token, now)),
{
}

/// From a session's creation to its close the gauges come back to where they
/// were, whatever share it had in between: each step moves them as the share
/// moves.
pub proof fn law_gauges_balance(
    g0: TcpGauges,
    g1: TcpGauges,
    g2: TcpGauges,
    created: TcpSession,
    closed: TcpSession,
)
    requires
        g1.moved(g0, tcp_session::no_share(), created.share()),
        g2.moved(g1, created.share(), closed.share()),
        closed.has_been_closed,
    ensures
        g2 == g0,
{
}

/// Steps that each move the gauges as the share moves do so together.
pub proof fn law_gauge_steps_add_up(
    g0: TcpGauges,
    g1: TcpGauges,
    g2: TcpGauges,
    a: tcp_session::GaugeModel,
    b: tcp_session::GaugeModel,
    c: tcp_session::GaugeModel,
)
    requires
        g1.moved(g0, a, b),
        g2.moved(g1, b, c),
    ensures
        g2.moved(g0, a, c),
{
}

/// A session never tries to connect more often than it may: once the attempts
/// are used up it is refused, whatever else holds.
pub proof fn law_attempts_are_limited(
    session: TcpSession,
    sessions: SessionManager,
    configs: Map<Seq<char>, ClusterConfiguration>,
    cluster: Seq<char>,
)
    requires
        session.wf(),
        session.connection_attempt == CONN_RETRIES,
    ensures
        session.refused(sessions, configs, cluster),
        !(session.backend_connected is Connecting),
{
}

/// The cluster that a session was routed to comes before that of its listener.
pub proof fn law_the_route_comes_before_the_listener(
    routed: Option<String>,
    listener: Option<String>,
)
    ensures
        routed is Some ==> cluster_of(routed, listener) == routed,
        routed is None ==> cluster_of(routed, listener) == listener,
{
}

/// A cluster that is configured to a limit of connections per source is kept to
/// it, whatever the default of the worker: a session is refused once as many
/// others as that are counted for the cluster and its source, and it is not
/// counted itself. `others` are some that are counted.
pub proof fn law_the_limit_of_a_cluster_is_kept(
    session: TcpSession,
    sessions: SessionManager,
    configs: Map<Seq<char>, ClusterConfiguration>,
    cluster: Seq<char>,
    limit: u64,
    others: Set<session_manager::TrackKey>,
)
    requires
        sessions.wf(),
        configs.dom().contains(cluster),
        configs[cluster].max_connections_per_ip == Some(limit),
        limit > 0,
        session.session_address() is Some,
        !sessions.counted().contains(
            (session.frontend_token.0, cluster, session.session_address()->0.ip()),
        ),
        others.subset_of(sessions.counted()),
        forall|k: session_manager::TrackKey| #[trigger]
            others.contains(k) ==> k.1 == cluster && k.2 == session.session_address()->0.ip(),
        others.finite(),
        others.len() >= limit,
    ensures
        session.over_limit(sessions, configs, cluster),
        session.refused(sessions, configs, cluster),
{
    sessions.lemma_counted_finite();
    let ip = session.session_address()->0.ip();
    let all = session_manager::tokens_of(sessions.counted(), cluster, ip);
    assert(others.subset_of(all));
    vstd::set_lib::lemma_len_subset(others, all);
}

/// A session is never refused for the limit where the cluster is configured to
/// none, where it is counted already, where its source is not known, or where
/// fewer are counted than the cluster, or else the worker, allows.
pub proof fn law_the_limit_refuses_no_others(
    session: TcpSession,
    sessions: SessionManager,
    configs: Map<Seq<char>, ClusterConfiguration>,
    cluster: Seq<char>,
)
    ensures
        ({
            let configured = configs.dom().contains(cluster)
                && configs[cluster].max_connections_per_ip is Some;
            let limit = if configured {
                configs[cluster].max_connections_per_ip->0
            } else {
                sessions.max_connections_per_ip
            };
            let ip = session.session_address()->0.ip();
            &&& limit == 0 ==> !session.over_limit(sessions, configs, cluster)
            &&& session.session_address() is None ==> !session.over_limit(
                sessions,
                configs,
                cluster,
            )
            &&& session.session_address() is Some && sessions.counted().contains(
                (session.frontend_token.0, cluster, ip),
            ) ==> !session.over_limit(sessions, configs, cluster)
            &&& session.session_address() is Some && sessions.counted().filter(
                |k: session_manager::TrackKey| k.1 == cluster && k.2 == ip,
            ).len() < limit ==> !session.over_limit(sessions, configs, cluster)
            &&& session.session_address() is Some && limit > 0 && !sessions.counted().contains(
                (session.frontend_token.0, cluster, ip),
            ) && sessions.counted().filter(
                |k: session_manager::TrackKey| k.1 == cluster && k.2 == ip,
            ).len() >= limit ==> session.over_limit(sessions, configs, cluster)
        }),
{
    let ip = session.session_address()->0.ip();
    assert(session_manager::tokens_of(sessions.counted(), cluster, ip)
        =~= sessions.counted().filter(
        |k: session_manager::TrackKey| k.1 == cluster && k.2 == ip,
    ));
}

/// A session connects if and only if it has attempts left, the worker has slots
/// left, and the limit of its cluster and source is not reached.
pub proof fn law_what_a_session_is_refused_for(
    session: TcpSession,
    sessions: SessionManager,
    configs: Map<Seq<char>, ClusterConfiguration>,
    cluster: Seq<char>,
)
    ensures
        session.refused(sessions, configs, cluster) <==> session.connection_attempt >= 3
            || sessions.sessions().dom().len() >= 10 + 2 * sessions.max_connections
            || session.over_limit(sessions, configs, cluster),
{
}

/// A session that gets a backend stays at its stage, which learns of the socket;
/// a pipe learns of the backend's name too, and the search for the server name
/// that there is one. Nothing that was heard is lost.
pub proof fn law_a_stage_learns_of_its_backend(
    state: TcpStateMachine,
    token: Token,
    backend_id: String,
)
    ensures
        ({
            let wired = TcpSession::wired(state, token, backend_id);
            match (state, wired) {
                (TcpStateMachine::Pipe(s), TcpStateMachine::Pipe(w)) => {
                    &&& w.backend_token == Some(token) && w.backend_id == Some(backend_id)
                    &&& w.front == s.front && w.back == s.back
                    &&& w.session_address == s.session_address && w.cluster_id == s.cluster_id
                    &&& w.tls_sni == s.tls_sni && w.tls_alpn == s.tls_alpn
                    &&& w.tags_key == s.tags_key
                },
                (
                    TcpStateMachine::SendProxyProtocol(s),
                    TcpStateMachine::SendProxyProtocol(w),
                ) => w.backend_token == Some(token) && w.front == s.front && w.back == s.back
                    && w.source == s.source && w.connected == s.connected,
                (
                    TcpStateMachine::RelayProxyProtocol(s),
                    TcpStateMachine::RelayProxyProtocol(w),
                ) => w.backend_token == Some(token) && w.front == s.front && w.back == s.back
                    && w.source == s.source && w.connected == s.connected,
                (TcpStateMachine::SniPreread(s), TcpStateMachine::SniPreread(w)) => {
                    &&& w.backend_token == Some(token) && w.backend
                    &&& w.front == s.front && w.back == s.back && w.outcome == s.outcome
                    &&& w.effective_max_bytes == s.effective_max_bytes
                },
                (TcpStateMachine::ExpectProxyProtocol(_), _) => wired == state,
                (TcpStateMachine::FailedUpgrade(_), _) => wired == state,
                _ => false,
            }
        }),
{
}

/// A session that lets go of its backend forgets what the backend's socket said,
/// and nothing else: not what it waits for, nor what the client's said. Where
/// there was no connection, nothing changes.
pub proof fn law_a_lost_backend_is_not_heard(session: TcpSession)
    ensures
        ({
            let after = session.backend_forgotten();
            let none = Ready { readable: false, writable: false, error: false, hup: false };
            let had = session.state.back() is Some && !(
            session.backend_connected is NotConnected);
            &&& had ==> after.back() == Some(
                Readiness { event: none, interest: session.state.back()->0.interest },
            )
            &&& had ==> after.front() == session.state.front()
            &&& had ==> after.with_readiness(session.state.front()->0, session.state.back()->0)
                == session.state
            &&& !had ==> after == session.state
        }),
{
}

} // verus!
