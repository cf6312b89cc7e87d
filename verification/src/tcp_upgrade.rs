//! How a TCP session goes from one stage to the next.
use vstd::prelude::*;

use crate::alpn;
use crate::alpn::{alpn_matcher_protocols, known_alpn_label};
use crate::net::SocketAddr;
use crate::table::Table;
use crate::tcp_session;
use crate::tcp_session::{
    ClusterConfiguration, PipeState, PrereadState, ProxyProtocolConfig, ProxyProtocolState,
    Readiness, StateMarker, TcpGauges, TcpSession, TcpStateMachine, Upgraded,
};
use crate::tcp_tags;
use crate::tcp_tags::sni_tags_key;
use crate::text;
use crate::Token;

verus! {

/// What a cluster expects of the PROXY protocol.
pub open spec fn proxy_protocol_of(
    configs: Map<Seq<char>, ClusterConfiguration>,
    cluster: Seq<char>,
) -> Option<ProxyProtocolConfig> {
    if configs.dom().contains(cluster) {
        configs[cluster].proxy_protocol
    } else {
        None
    }
}

/// One address or, where there is none, another.
pub open spec fn address_or(
    address: Option<SocketAddr>,
    otherwise: Option<SocketAddr>,
) -> Option<SocketAddr> {
    match address {
        Some(a) => Some(a),
        None => otherwise,
    }
}

fn first_address(address: Option<SocketAddr>, otherwise: Option<SocketAddr>) -> (a: Option<
    SocketAddr,
>)
    ensures
        a == address_or(address, otherwise),
{
    match address {
        Some(a) => Some(a),
        None => otherwise,
    }
}

impl TcpSession {
    /// Whether the session can leave its stage.
    pub open spec fn can_upgrade(self) -> bool {
        match self.state {
            TcpStateMachine::SendProxyProtocol(_) => self.frontend_buffer && self.backend_buffer,
            TcpStateMachine::RelayProxyProtocol(_) => self.backend_buffer,
            TcpStateMachine::ExpectProxyProtocol(_) => self.frontend_buffer && self.backend_buffer,
            TcpStateMachine::SniPreread(p) => p.outcome is Some && p.backend && p.backend_token is Some
                && self.backend_buffer,
            TcpStateMachine::Pipe(_) => false,
            TcpStateMachine::FailedUpgrade(_) => false,
        }
    }

    /// Whether `pipe` is what the session becomes: it has the session's cluster,
    /// backend and tags, and the server name that it was routed by, which the
    /// session gives up.
    pub open spec fn is_piped(
        self,
        after: TcpSession,
        pipe: PipeState,
        address: Option<SocketAddr>,
        backend_token: Option<Token>,
        front: Readiness,
        back: Readiness,
    ) -> bool {
        &&& pipe.front == front
        &&& pipe.back == back
        &&& pipe.session_address == address
        &&& pipe.cluster_id == self.cluster_id
        &&& pipe.backend_id == self.backend_id
        &&& pipe.backend_token == backend_token
        &&& pipe.tls_sni == self.routed_sni
        &&& pipe.tls_alpn == if self.routed_sni is Some {
            self.routed_alpn_label
        } else {
            None
        }
        &&& pipe.tags_key == self.tags_key
        &&& after.routed_sni is None
        &&& after.routed_alpn_label == if self.routed_sni is Some {
            None
        } else {
            self.routed_alpn_label
        }
    }

    fn into_pipe(
        &mut self,
        address: Option<SocketAddr>,
        backend_token: Option<Token>,
        front: Readiness,
        back: Readiness,
    ) -> (pipe: PipeState)
        ensures
            old(self).is_piped(*final(self), pipe, address, backend_token, front, back),
            *final(self) == (TcpSession {
                routed_sni: None,
                routed_alpn_label: final(self).routed_alpn_label,
                ..*old(self)
            }),
    {
        let tls_sni = self.routed_sni.take();
        let tls_alpn = if tls_sni.is_some() {
            self.routed_alpn_label.take()
        } else {
            None
        };
        let cluster_id = match &self.cluster_id {
            Some(c) => Some(c.clone()),
            None => None,
        };
        let backend_id = match &self.backend_id {
            Some(b) => Some(b.clone()),
            None => None,
        };
        let tags_key = match &self.tags_key {
            Some(k) => Some(k.clone()),
            None => None,
        };
        PipeState {
            front,
            back,
            session_address: address,
            cluster_id,
            backend_id,
            backend_token,
            tls_sni,
            tls_alpn,
            tags_key,
        }
    }

    /// Goes on to the next stage. `front` and `back` are what that stage is armed
    /// with: what it waits for, and the events by which it first writes what it
    /// takes over. What was heard of the sockets before still counts. `address`
    /// is how the listener's address is shown.
    ///
    /// A session that was routed by server name goes on by what the cluster it
    /// was routed to expects. A PROXY protocol header that the client sent is
    /// dropped, unless the backend is to have it as it is.
    pub fn upgrade(
        &mut self,
        gauges: &mut TcpGauges,
        configs: &Table<String, ClusterConfiguration>,
        address: &String,
        front: Readiness,
        back: Readiness,
    ) -> (upgraded: Upgraded)
        requires
            old(self).wf(),
            !old(self).has_been_closed,
            !(old(self).state is FailedUpgrade),
            configs.wf(),
            old(gauges).room(),
        ensures
            final(self).wf(),
            final(gauges).moved(*old(gauges), old(self).share(), final(self).share()),
            upgraded is ToBeClosed <==> !old(self).can_upgrade(),
            !old(self).can_upgrade() ==> *final(self) == (TcpSession {
                state: TcpStateMachine::FailedUpgrade(old(self).state.marker()),
                ..*old(self)
            }),
            old(self).can_upgrade() ==> match old(self).state {
                TcpStateMachine::SendProxyProtocol(s) => {
                    &&& upgraded == Upgraded::Next { consume: 0 }
                    &&& final(self).only_pipe_of(*old(self), false)
                    &&& final(self).state matches TcpStateMachine::Pipe(pipe) && old(
                        self).is_piped(
                        *final(self),
                        pipe,
                        old(self).frontend_address,
                        s.backend_token,
                        tcp_session::taken_over(s.front, front),
                        tcp_session::taken_over(s.back, back),
                    )
                },
                TcpStateMachine::ExpectProxyProtocol(s) => {
                    &&& upgraded == Upgraded::Next { consume: 0 }
                    &&& final(self).only_pipe_of(*old(self), false)
                    &&& final(self).state matches TcpStateMachine::Pipe(pipe) && old(
                        self).is_piped(
                        *final(self),
                        pipe,
                        address_or(s.source, old(self).frontend_address),
                        s.backend_token,
                        tcp_session::taken_over(s.front, front),
                        back,
                    )
                },
                TcpStateMachine::RelayProxyProtocol(s) => {
                    &&& upgraded == Upgraded::Next { consume: 0 }
                    &&& final(self).only_pipe_of(*old(self), old(self).frontend_buffer)
                    &&& final(self).state matches TcpStateMachine::Pipe(pipe) && old(
                        self).is_piped(
                        *final(self),
                        pipe,
                        address_or(s.source, old(self).frontend_address),
                        s.backend_token,
                        tcp_session::taken_over(s.front, front),
                        tcp_session::taken_over(s.back, back),
                    )
                },
                TcpStateMachine::SniPreread(p) => old(self).routed_upgrade(
                    *final(self),
                    p,
                    configs.map(),
                    address@,
                    upgraded,
                    front,
                    back,
                ),
                _ => false,
            },
    {
        let mut state = TcpStateMachine::FailedUpgrade(self.state.stage());
        std::mem::swap(&mut self.state, &mut state);
        match state {
            TcpStateMachine::SendProxyProtocol(s) => {
                if !self.frontend_buffer || !self.backend_buffer {
                    return Upgraded::ToBeClosed;
                }
                self.frontend_buffer = false;
                self.backend_buffer = false;
                let pipe = self.into_pipe(
                    self.frontend_address,
                    s.backend_token,
                    tcp_session::take_over(s.front, front),
                    tcp_session::take_over(s.back, back),
                );
                self.state = TcpStateMachine::Pipe(pipe);
                gauges.proxy_send = gauges.proxy_send - 1;
                gauges.tcp = gauges.tcp + 1;
                Upgraded::Next { consume: 0 }
            },
            TcpStateMachine::RelayProxyProtocol(s) => {
                if !self.backend_buffer {
                    return Upgraded::ToBeClosed;
                }
                self.backend_buffer = false;
                let source = first_address(s.source, self.frontend_address);
                let pipe = self.into_pipe(
                    source,
                    s.backend_token,
                    tcp_session::take_over(s.front, front),
                    tcp_session::take_over(s.back, back),
                );
                self.state = TcpStateMachine::Pipe(pipe);
                gauges.proxy_relay = gauges.proxy_relay - 1;
                gauges.tcp = gauges.tcp + 1;
                Upgraded::Next { consume: 0 }
            },
            TcpStateMachine::ExpectProxyProtocol(s) => {
                if !self.frontend_buffer || !self.backend_buffer {
                    return Upgraded::ToBeClosed;
                }
                self.frontend_buffer = false;
                self.backend_buffer = false;
                let source = first_address(s.source, self.frontend_address);
                let pipe = self.into_pipe(
                    source,
                    s.backend_token,
                    tcp_session::take_over(s.front, front),
                    back,
                );
                self.state = TcpStateMachine::Pipe(pipe);
                gauges.proxy_expect = gauges.proxy_expect - 1;
                gauges.tcp = gauges.tcp + 1;
                Upgraded::Next { consume: 0 }
            },
            TcpStateMachine::SniPreread(p) => self.upgrade_sni_preread(
                p,
                gauges,
                configs,
                address,
                front,
                back,
            ),
            TcpStateMachine::Pipe(_) => Upgraded::ToBeClosed,
            TcpStateMachine::FailedUpgrade(_) => Upgraded::ToBeClosed,
        }
    }

    /// Only the stage differs, and what it took over.
    pub open spec fn only_pipe_of(self, before: TcpSession, frontend_buffer: bool) -> bool {
        self == (TcpSession {
            state: self.state,
            frontend_buffer,
            backend_buffer: false,
            routed_sni: self.routed_sni,
            routed_alpn_label: self.routed_alpn_label,
            ..before
        })
    }

    /// Whether `after` is what a session that was routed by server name becomes.
    pub open spec fn routed_upgrade(
        self,
        after: TcpSession,
        p: PrereadState,
        configs: Map<Seq<char>, ClusterConfiguration>,
        address: Seq<char>,
        upgraded: Upgraded,
        front: Readiness,
        back: Readiness,
    ) -> bool {
        let outcome = p.outcome->0;
        let expected = proxy_protocol_of(configs, outcome.cluster@);
        &&& after.cluster_id == Some(outcome.cluster)
        &&& after.tags_key is Some
        &&& exists|names: Seq<String>| #[trigger]
            alpn::are_protocols_of(names, outcome.matched_alpn) && after.tags_key->0@
                == tcp_tags::sni_key_text(
                address,
                outcome.matched_sni_pattern@,
                tcp_tags::texts(names),
            )
        &&& after == (TcpSession {
            cluster_id: after.cluster_id,
            tags_key: after.tags_key,
            routed_sni: after.routed_sni,
            routed_alpn_label: after.routed_alpn_label,
            frontend_buffer: after.frontend_buffer,
            backend_buffer: after.backend_buffer,
            state: after.state,
            ..self
        })
        &&& upgraded == Upgraded::Next {
            consume: if expected == Some(ProxyProtocolConfig::RelayHeader) {
                0
            } else {
                outcome.content_offset
            },
        }
        &&& if expected == Some(ProxyProtocolConfig::SendHeader) {
            &&& after.frontend_buffer && after.backend_buffer
            &&& after.routed_sni == Some(outcome.sni)
            &&& alpn_label_ok(after.routed_alpn_label, outcome.alpn@)
            &&& after.state == TcpStateMachine::SendProxyProtocol(
                ProxyProtocolState {
                    front: Readiness { event: p.front.event, ..front },
                    back: Readiness { event: p.back.event, ..back },
                    source: None,
                    backend_token: p.backend_token,
                    connected: true,
                },
            )
        } else {
            &&& after.frontend_buffer == self.frontend_buffer && !after.backend_buffer
            &&& after.routed_sni is None && after.routed_alpn_label is None
            &&& after.state matches TcpStateMachine::Pipe(pipe) && {
                &&& pipe.front == tcp_session::taken_over(p.front, front)
                &&& pipe.back == tcp_session::taken_over(p.back, back)
                &&& pipe.session_address == address_or(outcome.proxy_source, self.frontend_address)
                &&& pipe.cluster_id == Some(outcome.cluster)
                &&& pipe.backend_id == self.backend_id
                &&& pipe.backend_token == p.backend_token
                &&& pipe.tls_sni == Some(outcome.sni)
                &&& alpn_label_ok(pipe.tls_alpn, outcome.alpn@)
                &&& pipe.tags_key == after.tags_key
            }
        }
    }

    fn upgrade_sni_preread(
        &mut self,
        p: PrereadState,
        gauges: &mut TcpGauges,
        configs: &Table<String, ClusterConfiguration>,
        address: &String,
        front: Readiness,
        back: Readiness,
    ) -> (upgraded: Upgraded)
        requires
            !old(self).has_been_closed,
            old(self).state == TcpStateMachine::FailedUpgrade(StateMarker::SniPreread),
            old(self).backend_buffer,
            configs.wf(),
            old(gauges).room(),
        ensures
            final(gauges).moved(*old(gauges), old(self).share(), final(self).share()),
            upgraded is ToBeClosed <==> !(p.outcome is Some && p.backend
                && p.backend_token is Some),
            upgraded is ToBeClosed ==> *final(self) == *old(self),
            !(upgraded is ToBeClosed) ==> old(self).routed_upgrade(
                *final(self),
                p,
                configs.map(),
                address@,
                upgraded,
                front,
                back,
            ),
    {
        let backend_token = p.backend_token;
        let outcome = match p.outcome {
            Some(outcome) => outcome,
            None => {
                return Upgraded::ToBeClosed;
            },
        };
        if !p.backend || backend_token.is_none() {
            return Upgraded::ToBeClosed;
        }
        gauges.sni_preread_active = gauges.sni_preread_active - 1;
        let names = alpn_matcher_protocols(&outcome.matched_alpn);
        let key = sni_tags_key(address, outcome.matched_sni_pattern.as_str(), &names);
        let expected: Option<ProxyProtocolConfig> = match configs.get(&outcome.cluster) {
            Some(config) => config.proxy_protocol,
            None => None,
        };
        self.cluster_id = Some(outcome.cluster);
        self.routed_alpn_label = known_alpn_label(outcome.alpn.as_slice());
        self.routed_sni = Some(outcome.sni);
        self.tags_key = Some(key);
        match expected {
            Some(ProxyProtocolConfig::SendHeader) => {
                self.frontend_buffer = true;
                gauges.proxy_send = gauges.proxy_send + 1;
                self.state = TcpStateMachine::SendProxyProtocol(
                    ProxyProtocolState {
                        front: Readiness { event: p.front.event, interest: front.interest },
                        back: Readiness { event: p.back.event, interest: back.interest },
                        source: None,
                        backend_token,
                        connected: true,
                    },
                );
                Upgraded::Next { consume: outcome.content_offset }
            },
            _ => {
                self.backend_buffer = false;
                let source = first_address(outcome.proxy_source, self.frontend_address);
                let pipe = self.into_pipe(
                    source,
                    backend_token,
                    tcp_session::take_over(p.front, front),
                    tcp_session::take_over(p.back, back),
                );
                self.state = TcpStateMachine::Pipe(pipe);
                gauges.tcp = gauges.tcp + 1;
                match expected {
                    Some(ProxyProtocolConfig::RelayHeader) => Upgraded::Next { consume: 0 },
                    _ => Upgraded::Next { consume: outcome.content_offset },
                }
            },
        }
    }
}

/// Whether `label` is what the access log calls the first of the offered
/// protocols.
pub open spec fn alpn_label_ok(label: Option<&'static str>, offered: Seq<Vec<u8>>) -> bool {
    &&& label is Some <==> offered.len() > 0 && (offered[0]@ == alpn::h2() || offered[0]@
        == alpn::http_1_1())
    &&& label matches Some(l) ==> l@ == if offered[0]@ == alpn::h2() {
        "h2"@
    } else {
        "http/1.1"@
    }
}

/// A session that holds what its stage says it does never fails to leave it,
/// other than a pipe, which has nowhere to go, and one that looks for the server
/// name, which must have found it and have a backend.
pub proof fn law_upgrades_do_not_fail(session: TcpSession)
    requires
        session.wf(),
        !(session.state is Pipe),
        !(session.state is FailedUpgrade),
        session.state matches TcpStateMachine::SniPreread(p) ==> p.outcome is Some && p.backend
            && p.backend_token is Some,
    ensures
        session.can_upgrade(),
{
}

/// The tags that a session which was routed by server name is logged with are
/// kept under the key of the front that routed it.
pub proof fn law_routed_sessions_find_their_tags(
    before: TcpSession,
    after: TcpSession,
    p: PrereadState,
    configs: Map<Seq<char>, ClusterConfiguration>,
    address: Seq<char>,
    upgraded: Upgraded,
    front: Readiness,
    back: Readiness,
    sni: Seq<char>,
    alpn: Seq<String>,
)
    requires
        before.routed_upgrade(after, p, configs, address, upgraded, front, back),
        p.outcome->0.matched_alpn.wf(),
        p.outcome->0.matched_alpn.protocols() == alpn::matched_protocols(alpn),
        p.outcome->0.matched_sni_pattern@ == text::lower_text(sni),
    ensures
        after.tags_key->0@ == tcp_tags::sni_key_text(address, sni, tcp_tags::texts(alpn)),
{
    let outcome = p.outcome->0;
    let names = choose|names: Seq<String>| #[trigger]
        alpn::are_protocols_of(names, outcome.matched_alpn) && after.tags_key->0@
            == tcp_tags::sni_key_text(
            address,
            outcome.matched_sni_pattern@,
            tcp_tags::texts(names),
        );
    tcp_tags::law_route_time_key_is_add_time_key(address, sni, alpn, outcome.matched_alpn, names);
}

/// A cluster that is configured to a PROXY protocol has that one; one that is not
/// known has none.
pub proof fn law_the_configured_protocol_is_used(
    configs: Map<Seq<char>, ClusterConfiguration>,
    cluster: Seq<char>,
)
    ensures
        configs.dom().contains(cluster) ==> proxy_protocol_of(configs, cluster)
            == configs[cluster].proxy_protocol,
        !configs.dom().contains(cluster) ==> proxy_protocol_of(configs, cluster) is None,
{
}

/// The source that a header gave comes before the address of the client's socket.
pub proof fn law_the_source_of_the_header_comes_first(
    given: Option<SocketAddr>,
    own: Option<SocketAddr>,
)
    ensures
        given is Some ==> address_or(given, own) == given,
        given is None ==> address_or(given, own) == own,
{
}

/// A session leaves its stage if and only if it has the buffers that a pipe needs
/// and, where it looks for the server name, has found it and has a backend. A
/// pipe has nowhere to go.
pub proof fn law_what_leaving_a_stage_takes(session: TcpSession)
    ensures
        session.can_upgrade() <==> match session.state {
            TcpStateMachine::SendProxyProtocol(_) | TcpStateMachine::ExpectProxyProtocol(_) => {
                session.frontend_buffer && session.backend_buffer
            },
            TcpStateMachine::RelayProxyProtocol(_) => session.backend_buffer,
            TcpStateMachine::SniPreread(p) => session.backend_buffer && p.outcome is Some
                && p.backend && p.backend_token is Some,
            _ => false,
        },
{
}

/// A session that becomes a pipe keeps its cluster, its backend and its tags; it
/// counts for the given address; and what it was routed by is the pipe's from
/// then on.
pub proof fn law_a_pipe_takes_over(
    before: TcpSession,
    after: TcpSession,
    pipe: PipeState,
    address: Option<SocketAddr>,
    backend_token: Option<Token>,
    front: Readiness,
    back: Readiness,
)
    requires
        before.is_piped(after, pipe, address, backend_token, front, back),
    ensures
        pipe.front == front,
        pipe.back == back,
        pipe.session_address == address,
        pipe.cluster_id == before.cluster_id,
        pipe.backend_id == before.backend_id,
        pipe.backend_token == backend_token,
        pipe.tls_sni == before.routed_sni,
        pipe.tags_key == before.tags_key,
        before.routed_sni is Some ==> pipe.tls_alpn == before.routed_alpn_label
            && after.routed_alpn_label is None,
        before.routed_sni is None ==> pipe.tls_alpn is None && after.routed_alpn_label
            == before.routed_alpn_label,
        after.routed_sni is None,
{
}

/// Becoming a pipe changes nothing of a session but its stage, its buffers, which
/// the pipe takes over, and what it was routed by.
pub proof fn law_becoming_a_pipe_changes_nothing_else(
    before: TcpSession,
    after: TcpSession,
    frontend_buffer: bool,
)
    requires
        after.only_pipe_of(before, frontend_buffer),
    ensures
        after.frontend_buffer == frontend_buffer,
        !after.backend_buffer,
        after.backend_connected == before.backend_connected,
        after.backend_id == before.backend_id,
        after.backend_token == before.backend_token,
        after.backend == before.backend,
        after.cluster_id == before.cluster_id,
        after.configured_backend_timeout == before.configured_backend_timeout,
        after.connection_attempt == before.connection_attempt,
        after.container_backend_timeout == before.container_backend_timeout,
        after.container_frontend_timeout == before.container_frontend_timeout,
        after.frontend_address == before.frontend_address,
        after.frontend_token == before.frontend_token,
        after.has_been_closed == before.has_been_closed,
        after.last_event == before.last_event,
        after.cluster_ip_tracked == before.cluster_ip_tracked,
        after.tags_key == before.tags_key,
{
}

/// A session that found its server name goes on to the cluster that it was routed
/// to: it sends a header if the cluster is configured to that, and is a pipe
/// otherwise. The bytes of the client's own header are dropped, unless the
/// cluster gets it as it is. The backend, and what the sockets said, stay; a
/// source that the header gave is the pipe's address.
pub proof fn law_a_routed_session_goes_to_its_cluster(
    before: TcpSession,
    after: TcpSession,
    p: PrereadState,
    configs: Map<Seq<char>, ClusterConfiguration>,
    address: Seq<char>,
    upgraded: Upgraded,
    front: Readiness,
    back: Readiness,
)
    requires
        before.routed_upgrade(after, p, configs, address, upgraded, front, back),
        p.outcome is Some,
    ensures
        ({
            let outcome = p.outcome->0;
            let known = configs.dom().contains(outcome.cluster@);
            let sends = known && configs[outcome.cluster@].proxy_protocol == Some(
                ProxyProtocolConfig::SendHeader,
            );
            let relays = known && configs[outcome.cluster@].proxy_protocol == Some(
                ProxyProtocolConfig::RelayHeader,
            );
            &&& after.cluster_id == Some(outcome.cluster)
            &&& sends <==> after.state is SendProxyProtocol
            &&& !sends <==> after.state is Pipe
            &&& relays ==> upgraded == Upgraded::Next { consume: 0 }
            &&& !relays ==> upgraded == Upgraded::Next { consume: outcome.content_offset }
            &&& after.tags_key is Some
            &&& after.backend_token == before.backend_token
            &&& after.backend_connected == before.backend_connected
            &&& after.frontend_token == before.frontend_token
            &&& after.frontend_address == before.frontend_address
            &&& after.last_event == before.last_event
            &&& after.cluster_ip_tracked == before.cluster_ip_tracked
            &&& after.container_frontend_timeout == before.container_frontend_timeout
            &&& after.container_backend_timeout == before.container_backend_timeout
            &&& after.connection_attempt == before.connection_attempt
            &&& after.has_been_closed == before.has_been_closed
            &&& match after.state {
                TcpStateMachine::SendProxyProtocol(s) => {
                    &&& s.front.event == p.front.event && s.back.event == p.back.event
                    &&& s.front.interest == front.interest && s.back.interest == back.interest
                    &&& s.backend_token == p.backend_token && s.connected
                    &&& after.routed_sni == Some(outcome.sni)
                    &&& after.frontend_buffer && after.backend_buffer
                },
                TcpStateMachine::Pipe(s) => {
                    &&& s.cluster_id == Some(outcome.cluster)
                    &&& s.backend_token == p.backend_token && s.backend_id == before.backend_id
                    &&& s.tls_sni == Some(outcome.sni)
                    &&& s.tags_key == after.tags_key
                    &&& outcome.proxy_source is Some ==> s.session_address
                        == outcome.proxy_source
                    &&& outcome.proxy_source is None ==> s.session_address
                        == before.frontend_address
                    &&& p.front.event.readable ==> s.front.event.readable
                    &&& p.front.event.writable ==> s.front.event.writable
                    &&& p.front.event.hup ==> s.front.event.hup
                    &&& p.back.event.readable ==> s.back.event.readable
                    &&& p.back.event.writable ==> s.back.event.writable
                    &&& p.back.event.hup ==> s.back.event.hup
                    &&& s.front.interest == front.interest && s.back.interest == back.interest
                    &&& !after.backend_buffer
                },
                _ => false,
            }
        }),
{
}

/// The protocol that is told of a client is the first one that it offers, if that
/// is one of the two that are known.
pub proof fn law_the_first_offer_is_told(label: Option<&'static str>, offered: Seq<Vec<u8>>)
    requires
        alpn_label_ok(label, offered),
    ensures
        offered.len() == 0 ==> label is None,
        offered.len() > 0 && offered[0]@ == alpn::h2() ==> label is Some && label->0@ == "h2"@,
        offered.len() > 0 && offered[0]@ == alpn::http_1_1() && offered[0]@ != alpn::h2()
            ==> label is Some && label->0@ == "http/1.1"@,
        offered.len() > 0 && offered[0]@ != alpn::h2() && offered[0]@ != alpn::http_1_1()
            ==> label is None,
{
}

} // verus!
