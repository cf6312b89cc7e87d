//! The worker: its event loop, its listeners and its sessions.
//!
//! Polling, sockets and the sessions' own state are elsewhere. Here is what the
//! worker decides between them. Times are nanoseconds of one monotonic clock, as
//! exact as the clock itself.
use vstd::prelude::*;

use crate::message::WorkerResponse;
use crate::net::SocketAddr;
use crate::session_manager::{ListenSession, ListenToken, Protocol, SessionManager, SessionToken};
use crate::sessions;
use crate::Token;

verus! {

/// The token of the command channel.
pub const CHANNEL_TOKEN: usize = 0;

/// The token of the timer.
pub const TIMER_TOKEN: usize = 1;

/// The token of the metrics socket.
pub const METRICS_TOKEN: usize = 2;

/// How often a session tries to connect to a backend.
pub const CONN_RETRIES: u8 = 3;

/// How many times in a row polling may fail.
pub const MAX_POLL_ERRORS: u32 = 10_000;

/// How long polling waits when nothing is due earlier.
pub const POLL_TIMEOUT: u64 = 1_000_000_000;

/// How long polling waits at most while the worker shuts down.
pub const SHUTDOWN_TICK: u64 = 100_000_000;

/// How often the time spent at the connection limit is counted.
pub const ACCEPT_SATURATION_TICK: u64 = 1_000_000_000;

/// An accepted connection that waits for its session.
#[derive(Copy, Clone, Debug)]
pub struct QueuedConnection {
    /// The number under which its socket is kept.
    pub socket: u64,
    pub listener: ListenToken,
    pub protocol: Protocol,
    pub accepted_at: u64,
    pub peer: Option<SocketAddr>,
}

/// The listening sockets that a retiring worker handed over, by address.
#[derive(Debug)]
pub struct Listeners {
    pub http: Vec<(SocketAddr, i32)>,
    pub tls: Vec<(SocketAddr, i32)>,
    pub tcp: Vec<(SocketAddr, i32)>,
    pub udp: Vec<(SocketAddr, i32)>,
}

/// The settings that the worker is started with.
#[derive(Copy, Clone, Debug)]
pub struct ServerSettings {
    /// In seconds.
    pub accept_queue_timeout: u32,
    /// In seconds.
    pub zombie_check_interval: u32,
    pub evict_on_queue_full: bool,
}

/// `Server` holds the listeners, the sessions and the communication with the
/// configuration channel.
pub struct Server {
    pub sessions: SessionManager,
    pub accept_queue_timeout: u64,
    /// Accepted connections; the last one is served first.
    pub accept_queue: Vec<QueuedConnection>,
    pub evict_on_queue_full: bool,
    /// Listeners that are known to have connections to accept, each once.
    pub accept_ready: Vec<usize>,
    /// The number of slots that are not clients': the worker is down when no
    /// others are left.
    pub base_sessions_count: usize,
    pub current_poll_errors: u32,
    pub last_sessions_len: usize,
    pub last_shutting_down_message: Option<u64>,
    pub last_zombie_check: u64,
    pub loop_start: u64,
    pub started_at: u64,
    pub last_saturation_tick: u64,
    pub poll_timeout: Option<u64>,
    pub should_poll_at: Option<u64>,
    /// The request by which the worker was told to shut down, if it was.
    pub shutting_down: Option<String>,
    pub zombie_check_interval: u64,
    pub scm_listeners: Option<Listeners>,
    /// Answers that are to be sent.
    pub queue: Vec<WorkerResponse>,
}

/// What an event on a socket may say.
#[derive(Copy, Clone, Debug, PartialEq, Eq, Structural)]
pub struct Ready {
    pub readable: bool,
    pub writable: bool,
    pub error: bool,
    pub hup: bool,
}

/// What an event leads to.
#[derive(Copy, Clone, Debug, PartialEq, Eq, Structural)]
pub enum ReadyAction {
    /// Nothing.
    Ignore,
    /// Accept connections of a listener.
    Accept(ListenToken, Protocol),
    /// Hand the event to the session.
    Dispatch,
}

/// What a polled event is for.
#[derive(Copy, Clone, Debug, PartialEq, Eq, Structural)]
pub enum EventTarget {
    /// The command channel has an error, which is passed over.
    ChannelError,
    /// The command channel was closed: the worker stops.
    ChannelClosed,
    Channel,
    Timer,
    Metrics,
    HealthChecker,
    UdpHealthChecker,
    Session,
}

/// What comes next in creating sessions.
#[derive(Copy, Clone, Debug)]
pub enum CreateStep {
    /// Nothing: no connection waits, or none can be served.
    Stop,
    /// The connection waited for too long and is dropped.
    Expired(QueuedConnection),
    /// No session can be created: the connection is dropped, and those that
    /// still wait are not looked at.
    Refused(QueuedConnection),
    /// Sessions are to be closed first, so that this connection can be served.
    Evict(QueuedConnection, usize),
    /// A session is to be created for a connection that waited this long.
    Create(QueuedConnection, u64),
}

/// How accepting a connection went.
#[derive(Copy, Clone, Debug)]
pub enum AcceptOutcome {
    /// A connection was accepted: the number of its socket, and its peer as
    /// far as it is known.
    Accepted(u64, Option<SocketAddr>),
    /// There are no more.
    WouldBlock,
    /// The listener failed.
    Failed,
}

impl Server {
    /// What every worker meets.
    pub open spec fn wf(self) -> bool {
        self.sessions.wf() && self.accept_ready@.no_duplicates()
    }
}

/// Puts the worker's own slots into a fresh session manager: they get the
/// tokens of the command channel, of the timer and of the metrics socket.
pub fn insert_system_sessions(manager: &mut SessionManager)
    requires
        old(manager).wf(),
        old(manager).sessions() == Map::<usize, crate::session_manager::SessionSlot>::empty(),
        old(manager).tokens_used() == 0,
    ensures
        final(manager).wf(),
        final(manager).same_limits(*old(manager)),
        final(manager).sessions().dom() == set![CHANNEL_TOKEN, TIMER_TOKEN, METRICS_TOKEN],
        final(manager).sessions()[CHANNEL_TOKEN] == (ListenSession {
            protocol: Protocol::Channel,
        }).slot_spec(),
        final(manager).sessions()[TIMER_TOKEN] == (ListenSession {
            protocol: Protocol::Timer,
        }).slot_spec(),
        final(manager).sessions()[METRICS_TOKEN] == (ListenSession {
            protocol: Protocol::Metrics,
        }).slot_spec(),
{
    let ghost before = *manager;
    assert(manager.sessions().dom() =~= Set::<usize>::empty());
    let channel = manager.insert((ListenSession { protocol: Protocol::Channel }).slot());
    assert(manager.sessions().dom() =~= set![channel.0]);
    let timer = manager.insert((ListenSession { protocol: Protocol::Timer }).slot());
    assert(manager.sessions().dom() =~= set![channel.0, timer.0]);
    let metrics = manager.insert((ListenSession { protocol: Protocol::Metrics }).slot());
    assert(manager.sessions().dom() =~= set![CHANNEL_TOKEN, TIMER_TOKEN, METRICS_TOKEN]);
}

impl Server {
    /// A worker with the given sessions, all of which count as its own slots.
    pub fn new(
        sessions: SessionManager,
        settings: ServerSettings,
        inherited: Option<Listeners>,
        now: u64,
    ) -> (server: Server)
        requires
            sessions.wf(),
        ensures
            server.wf(),
            server.sessions == sessions,
            server.base_sessions_count == sessions.sessions().dom().len(),
            server.accept_queue@.len() == 0,
            server.accept_ready@.len() == 0,
            server.queue@.len() == 0,
            server.accept_queue_timeout == settings.accept_queue_timeout * 1_000_000_000,
            server.zombie_check_interval == settings.zombie_check_interval * 1_000_000_000,
            server.evict_on_queue_full == settings.evict_on_queue_full,
            server.current_poll_errors == 0,
            server.last_sessions_len == 0,
            server.last_shutting_down_message is None,
            server.last_zombie_check == now,
            server.loop_start == now,
            server.started_at == now,
            server.last_saturation_tick == now,
            server.poll_timeout == Some(POLL_TIMEOUT),
            server.should_poll_at is None,
            server.shutting_down is None,
            server.scm_listeners == inherited,
    {
        let base_sessions_count = sessions.slab_len();
        Server {
            sessions,
            accept_queue_timeout: settings.accept_queue_timeout as u64 * 1_000_000_000,
            accept_queue: Vec::new(),
            evict_on_queue_full: settings.evict_on_queue_full,
            accept_ready: Vec::new(),
            base_sessions_count,
            current_poll_errors: 0,
            last_sessions_len: 0,
            last_shutting_down_message: None,
            last_zombie_check: now,
            loop_start: now,
            started_at: now,
            last_saturation_tick: now,
            poll_timeout: Some(POLL_TIMEOUT),
            should_poll_at: None,
            shutting_down: None,
            zombie_check_interval: settings.zombie_check_interval as u64 * 1_000_000_000,
            scm_listeners: inherited,
            queue: Vec::new(),
        }
    }

    /// The token as that of a session.
    pub fn to_session(&self, token: Token) -> (session: SessionToken)
        ensures
            session.0 == token.0,
    {
        SessionToken(token.0)
    }

    /// The token of a session.
    pub fn from_session(&self, token: SessionToken) -> (slot: Token)
        ensures
            slot.0 == token.0,
    {
        Token(token.0)
    }

    /// The worker once its initial state is loaded: answers to that state are
    /// not sent.
    pub fn initial_state_loaded(&mut self)
        ensures
            final(self).queue@.len() == 0,
            *final(self) == (Server { queue: final(self).queue, ..*old(self) }),
    {
        self.queue.clear();
    }

    /// Starts the event loop.
    pub fn start(&mut self, now: u64)
        ensures
            *final(self) == (Server {
                last_sessions_len: old(self).sessions.sessions().dom().len() as usize,
                last_zombie_check: now,
                loop_start: now,
                ..*old(self)
            }),
    {
        self.last_sessions_len = self.sessions.slab_len();
        self.last_zombie_check = now;
        self.loop_start = now;
    }

    /// Whether polling failed too often to go on.
    pub fn check_for_poll_errors(&self) -> (fatal: bool)
        ensures
            fatal == (self.current_poll_errors >= MAX_POLL_ERRORS),
    {
        self.current_poll_errors >= MAX_POLL_ERRORS
    }

    /// Takes in whether polling went well.
    pub fn polled(&mut self, ok: bool, now: u64)
        requires
            old(self).current_poll_errors < MAX_POLL_ERRORS,
        ensures
            *final(self) == (Server {
                current_poll_errors: if ok {
                    0
                } else {
                    (old(self).current_poll_errors + 1) as u32
                },
                loop_start: if ok {
                    now
                } else {
                    old(self).loop_start
                },
                ..*old(self)
            }),
            final(self).current_poll_errors <= MAX_POLL_ERRORS,
    {
        if ok {
            self.current_poll_errors = 0;
            self.loop_start = now;
        } else {
            self.current_poll_errors = self.current_poll_errors + 1;
        }
    }

    /// How long to wait for events: until the next timeout is due, but no
    /// longer than usual, and no longer than a tick while shutting down. A
    /// timeout that is overdue does not shorten the wait: it has been polled
    /// for.
    pub open spec fn loop_timeout(self, now: u64) -> Option<u64> {
        let usual = match self.should_poll_at {
            Some(at) if at > now => Some(
                match self.poll_timeout {
                    Some(t) if t < at - now => t,
                    _ => (at - now) as u64,
                },
            ),
            _ => self.poll_timeout,
        };
        if self.shutting_down is Some {
            Some(
                match usual {
                    Some(t) if t < SHUTDOWN_TICK => t,
                    _ => SHUTDOWN_TICK,
                },
            )
        } else {
            usual
        }
    }

    /// How long to wait for events.
    pub fn reset_loop_time_and_get_timeout(&mut self, now: u64) -> (timeout: Option<u64>)
        ensures
            timeout == old(self).loop_timeout(now),
            *final(self) == (Server { loop_start: now, ..*old(self) }),
    {
        let mut timeout = match self.should_poll_at {
            None => self.poll_timeout,
            Some(at) => {
                if at <= now {
                    self.poll_timeout
                } else {
                    let wait: u64 = at - now;
                    match self.poll_timeout {
                        None => Some(wait),
                        Some(t) => {
                            if t < wait {
                                Some(t)
                            } else {
                                Some(wait)
                            }
                        },
                    }
                }
            },
        };
        if self.shutting_down.is_some() {
            timeout =
            match timeout {
                None => Some(SHUTDOWN_TICK),
                Some(current) => {
                    if current < SHUTDOWN_TICK {
                        Some(current)
                    } else {
                        Some(SHUTDOWN_TICK)
                    }
                },
            };
        }
        self.loop_start = now;
        timeout
    }

    /// What a polled event is for. The command channel, the timer and the
    /// metrics socket have fixed tokens; the health checkers know theirs.
    pub fn event_target(
        token: Token,
        error: bool,
        closed: bool,
        health_token: bool,
        udp_health_token: bool,
    ) -> (target: EventTarget)
        ensures
            target == if token.0 == CHANNEL_TOKEN {
                if error {
                    EventTarget::ChannelError
                } else if closed {
                    EventTarget::ChannelClosed
                } else {
                    EventTarget::Channel
                }
            } else if token.0 == TIMER_TOKEN {
                EventTarget::Timer
            } else if token.0 == METRICS_TOKEN {
                EventTarget::Metrics
            } else if health_token {
                EventTarget::HealthChecker
            } else if udp_health_token {
                EventTarget::UdpHealthChecker
            } else {
                EventTarget::Session
            },
    {
        if token.0 == CHANNEL_TOKEN {
            if error {
                EventTarget::ChannelError
            } else if closed {
                EventTarget::ChannelClosed
            } else {
                EventTarget::Channel
            }
        } else if token.0 == TIMER_TOKEN {
            EventTarget::Timer
        } else if token.0 == METRICS_TOKEN {
            EventTarget::Metrics
        } else if health_token {
            EventTarget::HealthChecker
        } else if udp_health_token {
            EventTarget::UdpHealthChecker
        } else {
            EventTarget::Session
        }
    }

    /// Whether the timer is to be polled after the events of a round.
    pub fn timer_due(&self, now: u64) -> (due: bool)
        ensures
            due == (self.should_poll_at matches Some(at) && at <= now),
    {
        match self.should_poll_at {
            Some(at) => at <= now,
            None => false,
        }
    }

    /// Whether a second spent at the connection limit is to be counted.
    pub fn saturation_tick(&mut self, now: u64) -> (count: bool)
        ensures
            ({
                let due = now >= old(self).last_saturation_tick && now - old(
                    self,
                ).last_saturation_tick >= ACCEPT_SATURATION_TICK;
                &&& count == (due && !old(self).sessions.can_accept)
                &&& *final(self) == (Server {
                    last_saturation_tick: if due {
                        now
                    } else {
                        old(self).last_saturation_tick
                    },
                    ..*old(self)
                })
            }),
    {
        if now >= self.last_saturation_tick && now - self.last_saturation_tick
            >= ACCEPT_SATURATION_TICK {
            self.last_saturation_tick = now;
            !self.sessions.can_accept
        } else {
            false
        }
    }

    /// What is shown of the worker being up: zero once it is shutting down.
    pub fn live_gauge(&self) -> (live: usize)
        ensures
            live == if self.shutting_down is Some {
                0int
            } else {
                1
            },
    {
        if self.shutting_down.is_some() {
            0
        } else {
            1
        }
    }

    /// How much of `total` is used, in percent; nothing if there is no total.
    pub fn usage_percent(used: usize, total: usize) -> (percent: Option<usize>)
        requires
            used * 100 <= usize::MAX,
        ensures
            total == 0 ==> percent is None,
            total > 0 ==> percent == Some((used as int * 100 / total as int) as usize),
    {
        if total == 0 {
            None
        } else {
            Some(used * 100 / total)
        }
    }
}

/// How long the worker waits for events is never longer than usual, nor than
/// until a timeout that lies ahead, nor than a tenth of a second while it shuts
/// down; and it is one of these. A timeout that lies behind does not count.
pub proof fn law_the_worker_waits_as_long_as_it_can(server: Server, now: u64)
    ensures
        ({
            let wait = server.loop_timeout(now);
            let ahead = server.should_poll_at is Some && server.should_poll_at->0 > now;
            let until = server.should_poll_at->0 - now;
            let stopping = server.shutting_down is Some;
            let usual = server.poll_timeout;
            &&& usual is Some && wait is Some ==> wait->0 <= usual->0
            &&& ahead ==> wait is Some && wait->0 <= until
            &&& stopping ==> wait is Some && wait->0 <= 100_000_000
            &&& wait is None <==> usual is None && !ahead && !stopping
            &&& wait is Some ==> wait == usual || (ahead && wait->0 == until) || (stopping
                && wait->0 == 100_000_000)
        }),
{
}

} // verus!
