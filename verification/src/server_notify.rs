//! How the worker answers the requests of the process that runs it.
//!
//! Some requests it answers by itself, some with what its metrics, its
//! configuration or its logger say, and the rest goes to the proxies.
use vstd::prelude::*;

use crate::lease;
use crate::lease::{
    push_lease_applied, push_lease_cleared, LeaseApplyOutcome, LeaseClearOutcome, LeaseLimits,
    LeaseStep, PeerBinding, SetMetricDetail,
};
use crate::message;
use crate::message::{
    merge_responses, push_metric_detail_transition, MetricDetailLevel, ResponseContent,
    WorkerResponse,
};
use crate::server::Server;
use crate::server_listeners;
use crate::server_listeners::ListenerType;
use crate::text;
use crate::Token;

verus! {

/// A request that the proxies may be told of.
#[derive(Debug)]
pub enum ProxyRequest {
    /// With why its health check is not valid, if it has one that is not.
    AddCluster(Option<String>),
    RemoveCluster,
    /// With why it is not valid, if it is not.
    SetHealthCheck(Option<String>),
    RemoveHealthCheck,
    AddBackend,
    RemoveBackend,
    AddListener(ListenerType),
    UpdateListener(ListenerType),
    /// Of a kind, unless its number stands for none.
    RemoveListener(Option<ListenerType>),
    ActivateListener(Option<ListenerType>),
    DeactivateListener(Option<ListenerType>),
    Other,
}

/// A request to the worker.
#[derive(Debug)]
pub enum Request {
    /// The number of a configuration, or why it stands for none.
    ConfigureMetrics(Result<i32, String>),
    QueryMetrics,
    SetMetricDetail(SetMetricDetail),
    Logging,
    QueryClustersHashes,
    QueryClusterById,
    SetMaxConnectionsPerIp(u64),
    QueryMaxConnectionsPerIp,
    QueryClustersByDomain,
    QueryCertificates { by_fingerprint: bool },
    ForProxies(ProxyRequest),
}

/// What is left to do for a request.
#[derive(Debug)]
pub enum NotifyStep {
    /// Nothing: it is answered.
    Answered,
    /// It is answered, and the metrics are to be configured.
    ConfigureMetrics(i32),
    /// It is answered, and the logger is to be configured.
    SetLogging,
    /// It is to be answered with what the metrics say.
    QueryMetrics,
    /// The lease of a client is to be taken back.
    ClearLease(PeerBinding),
    /// A client is to have a lease.
    ApplyLease { level: MetricDetailLevel, ttl_seconds: u32, binding: PeerBinding },
    /// It is to be answered with what the configuration says.
    QueryConfiguration,
    /// It is to be answered with what the configuration says, and then the
    /// proxies are told of it.
    QueryConfigurationAndProxies,
    /// It is to be answered with certificates, of which there may be none.
    QueryCertificates,
    /// The proxies are told of it.
    Proxies,
}

/// What is left to do for a request that the proxies may be told of.
#[derive(Debug, PartialEq, Eq, Structural, Copy, Clone)]
pub enum ProxyStep {
    /// Nothing: it is answered.
    Answered,
    /// It is answered, and the health check of a cluster is to be set.
    SetHealthCheck,
    /// It is answered, and the health check of a cluster is to be removed.
    RemoveHealthCheck,
    /// It is answered, and a backend is to be added.
    AddBackend,
    /// It is answered, and the backends at an address are to be removed.
    RemoveBackend,
    /// A cluster is to be added, and the proxies told of it.
    AddCluster,
    /// A cluster is to be removed, and the proxies told of it.
    RemoveCluster,
    /// The proxies are told of it.
    Proxies,
}

/// What a message on the command channel leads to.
#[derive(Debug)]
pub enum ChannelStep {
    /// The request is handled and answered, and the worker stops.
    HardStop(WorkerResponse),
    /// The request is handled; the worker closes its sessions and then stops.
    SoftStop,
    /// The listening sockets are to be returned.
    ReturnListenSockets,
    /// The request is handled.
    Notify,
}

/// The requests that the worker itself looks for among those on the channel.
#[derive(Debug, PartialEq, Eq, Structural, Copy, Clone)]
pub enum ChannelRequest {
    HardStop,
    SoftStop,
    ReturnListenSockets,
    Other,
}

impl Request {
    /// Why the request is refused, if it is.
    pub open spec fn refusal(self, limits: LeaseLimits) -> Option<Seq<char>> {
        match self {
            Request::ConfigureMetrics(Err(reason)) => Some(reason@),
            Request::SetMetricDetail(request) => request.refusal(limits),
            _ => None,
        }
    }

    /// Whether the request is answered at once that it went well.
    pub open spec fn acknowledged(self) -> bool {
        match self {
            Request::ConfigureMetrics(Ok(_)) => true,
            Request::Logging => true,
            Request::SetMaxConnectionsPerIp(_) => true,
            _ => false,
        }
    }

    /// Whether the request is answered before anything that is left to do for
    /// it is done.
    pub open spec fn answered_at_once(self, limits: LeaseLimits) -> bool {
        self.acknowledged() || self.refusal(limits) is Some || self is QueryMaxConnectionsPerIp
    }
}

impl NotifyStep {
    /// Whether the answer to the request comes with this step.
    pub open spec fn brings_answer(self) -> bool {
        !(self is Answered || self is ConfigureMetrics || self is SetLogging)
    }
}

/// Whether `step` is what is left to do for `request`.
pub open spec fn is_step_for(step: NotifyStep, request: Request, limits: LeaseLimits) -> bool {
    match request {
        Request::ConfigureMetrics(Ok(n)) => step == NotifyStep::ConfigureMetrics(n),
        Request::ConfigureMetrics(Err(_)) => step is Answered,
        Request::QueryMetrics => step is QueryMetrics,
        Request::SetMetricDetail(r) => if r.refusal(limits) is Some {
            step is Answered
        } else if r.clears() {
            step == NotifyStep::ClearLease(r.binding())
        } else {
            step matches NotifyStep::ApplyLease { level, ttl_seconds, binding } && r.detail == Some(
                lease::RequestedDetail::Level(level),
            ) && ttl_seconds == r.ttl(limits) && binding == r.binding()
        },
        Request::Logging => step is SetLogging,
        Request::QueryClustersHashes => step is QueryConfiguration,
        Request::QueryClusterById => step is QueryConfigurationAndProxies,
        Request::SetMaxConnectionsPerIp(_) => step is Answered,
        Request::QueryMaxConnectionsPerIp => step is Answered,
        Request::QueryClustersByDomain => step is QueryConfiguration,
        Request::QueryCertificates { by_fingerprint } => if by_fingerprint {
            step is QueryCertificates
        } else {
            step is Proxies
        },
        Request::ForProxies(_) => step is Proxies,
    }
}

/// Whether `after` is `before` with one answer more.
pub open spec fn one_more(before: Seq<WorkerResponse>, after: Seq<WorkerResponse>) -> bool {
    after.len() == before.len() + 1 && after.drop_last() == before
}

impl Server {
    /// Takes in that leases ran out, with the level of detail before and after.
    pub fn leases_expired(&mut self, previous: MetricDetailLevel, effective: MetricDetailLevel)
        ensures
            *final(self) == (Server { queue: final(self).queue, ..*old(self) }),
            previous == effective ==> final(self).queue@ == old(self).queue@,
            previous != effective ==> one_more(old(self).queue@, final(self).queue@)
                && message::is_transition_event(
                final(self).queue@.last(),
                previous,
                effective,
                "lease_tick_expired"@,
                None,
            ),
    {
        push_metric_detail_transition(
            &mut self.queue,
            previous,
            effective,
            "lease_tick_expired",
            None,
        );
    }

    /// Handles a request: answers it, if it can, and says what is left to do.
    ///
    /// Where the limit of connections per cluster and source is set to nothing,
    /// what was counted is forgotten, so that counting starts anew with the
    /// next limit.
    pub fn notify(&mut self, id: &String, request: &Request, limits: LeaseLimits) -> (step:
        NotifyStep)
        requires
            old(self).wf(),
        ensures
            final(self).wf(),
            is_step_for(step, *request, limits),
            *final(self) == (Server {
                queue: final(self).queue,
                sessions: final(self).sessions,
                ..*old(self)
            }),
            request matches Request::SetMaxConnectionsPerIp(limit) ==> {
                &&& final(self).sessions.max_connections_per_ip == *limit
                &&& final(self).sessions.max_connections == old(self).sessions.max_connections
                &&& final(self).sessions.nb_connections == old(self).sessions.nb_connections
                &&& final(self).sessions.can_accept == old(self).sessions.can_accept
                &&& final(self).sessions.retry_after == old(self).sessions.retry_after
                &&& final(self).sessions.sessions() == old(self).sessions.sessions()
                &&& final(self).sessions.counted() == if *limit == 0 {
                    Set::<crate::session_manager::TrackKey>::empty()
                } else {
                    old(self).sessions.counted()
                }
            },
            !(request is SetMaxConnectionsPerIp) ==> final(self).sessions == old(self).sessions,
            request.acknowledged() ==> one_more(old(self).queue@, final(self).queue@) && final(
                self).queue@.last().is_ok_for(id@),
            request.refusal(limits) matches Some(reason) ==> one_more(
                old(self).queue@,
                final(self).queue@,
            ) && final(self).queue@.last().is_error_for(id@, reason),
            request is QueryMaxConnectionsPerIp ==> one_more(old(self).queue@, final(self).queue@)
                && final(self).queue@.last().is_content_for(
                id@,
                ResponseContent::MaxConnectionsPerIpLimit(
                    old(self).sessions.max_connections_per_ip,
                ),
            ),
            request.answered_at_once(limits) ==> one_more(old(self).queue@, final(self).queue@),
            !request.answered_at_once(limits) ==> final(self).queue == old(self).queue,
    {
        let ghost before = self.queue@;
        let step = match request {
            Request::ConfigureMetrics(configuration) => {
                match configuration {
                    Ok(n) => {
                        self.push_queue(WorkerResponse::ok(id));
                        NotifyStep::ConfigureMetrics(*n)
                    },
                    Err(reason) => {
                        self.push_queue(WorkerResponse::error(id, reason.clone()));
                        NotifyStep::Answered
                    },
                }
            },
            Request::QueryMetrics => NotifyStep::QueryMetrics,
            Request::SetMetricDetail(request) => {
                match request.step(limits) {
                    LeaseStep::Refuse(reason) => {
                        self.push_queue(WorkerResponse::error(id, reason));
                        NotifyStep::Answered
                    },
                    LeaseStep::Clear(binding) => NotifyStep::ClearLease(binding),
                    LeaseStep::Apply { level, ttl_seconds, binding } => NotifyStep::ApplyLease {
                        level,
                        ttl_seconds,
                        binding,
                    },
                }
            },
            Request::Logging => {
                self.push_queue(WorkerResponse::ok(id));
                NotifyStep::SetLogging
            },
            Request::QueryClustersHashes => NotifyStep::QueryConfiguration,
            Request::QueryClusterById => NotifyStep::QueryConfigurationAndProxies,
            Request::SetMaxConnectionsPerIp(limit) => {
                self.sessions.set_max_connections_per_ip(*limit);
                self.push_queue(WorkerResponse::ok(id));
                NotifyStep::Answered
            },
            Request::QueryMaxConnectionsPerIp => {
                let limit: u64 = self.sessions.max_connections_per_ip;
                self.push_queue(
                    WorkerResponse::ok_with_content(
                        id,
                        ResponseContent::MaxConnectionsPerIpLimit(limit),
                    ),
                );
                NotifyStep::Answered
            },
            Request::QueryClustersByDomain => NotifyStep::QueryConfiguration,
            Request::QueryCertificates { by_fingerprint } => {
                if *by_fingerprint {
                    NotifyStep::QueryCertificates
                } else {
                    NotifyStep::Proxies
                }
            },
            Request::ForProxies(_) => NotifyStep::Proxies,
        };
        assert(self.queue@ != before ==> self.queue@.drop_last() =~= before);
        step
    }

    /// Answers a request with what was asked for, or with why it could not be
    /// had.
    pub fn answer(&mut self, id: &String, content: Result<ResponseContent, String>)
        ensures
            *final(self) == (Server { queue: final(self).queue, ..*old(self) }),
            one_more(old(self).queue@, final(self).queue@),
            content matches Ok(c) ==> final(self).queue@.last().is_content_for(id@, c),
            content matches Err(e) ==> final(self).queue@.last().is_error_for(id@, e@),
    {
        let ghost before = self.queue@;
        match content {
            Ok(c) => self.push_queue(WorkerResponse::ok_with_content(id, c)),
            Err(e) => self.push_queue(WorkerResponse::error(id, e)),
        }
        assert(self.queue@.drop_last() =~= before);
    }

    /// Answers a request for the certificates with a fingerprint.
    pub fn answer_certificates(&mut self, id: &String, found: Option<ResponseContent>)
        ensures
            *final(self) == (Server { queue: final(self).queue, ..*old(self) }),
            one_more(old(self).queue@, final(self).queue@),
            found matches Some(c) ==> final(self).queue@.last().is_content_for(id@, c),
            found is None ==> final(self).queue@.last().is_error_for(
                id@,
                "Could not find certificate for this fingerprint"@,
            ),
    {
        match found {
            Some(c) => self.answer(id, Ok(c)),
            None => self.answer(
                id,
                Err(String::from_str("Could not find certificate for this fingerprint")),
            ),
        }
    }

    /// Answers a request to take a lease back.
    pub fn lease_cleared(
        &mut self,
        id: &String,
        request: &SetMetricDetail,
        outcome: LeaseClearOutcome,
        configured: MetricDetailLevel,
        effective: MetricDetailLevel,
        lease_count: u32,
    )
        ensures
            *final(self) == (Server { queue: final(self).queue, ..*old(self) }),
            match outcome {
                LeaseClearOutcome::Cleared { previous_effective } => lease::answered_with_transition(
                    old(self).queue@,
                    final(self).queue@,
                    previous_effective,
                    effective,
                    "lease_clear"@,
                    Some(request.client_id),
                    id@,
                    lease::detail_status(configured, effective, previous_effective, lease_count),
                ),
                LeaseClearOutcome::NotFound => one_more(old(self).queue@, final(self).queue@)
                    && final(self).queue@.last().is_content_for(
                    id@,
                    lease::detail_status(configured, effective, effective, lease_count),
                ),
                LeaseClearOutcome::Unauthorized => one_more(old(self).queue@, final(self).queue@)
                    && final(self).queue@.last().is_error_for(
                    id@,
                    "SetMetricDetail: clear refused (peer binding does not match the apply-time owner)"@,
                ),
            },
    {
        push_lease_cleared(
            &mut self.queue,
            id,
            &request.client_id,
            outcome,
            configured,
            effective,
            lease_count,
        );
    }

    /// Answers a request for a lease.
    pub fn lease_applied(
        &mut self,
        id: &String,
        request: &SetMetricDetail,
        limits: LeaseLimits,
        outcome: LeaseApplyOutcome,
        configured: MetricDetailLevel,
        lease_count: u32,
    )
        ensures
            *final(self) == (Server { queue: final(self).queue, ..*old(self) }),
            match outcome {
                LeaseApplyOutcome::Applied {
                    previous_effective,
                    new_effective,
                } => lease::answered_with_transition(
                    old(self).queue@,
                    final(self).queue@,
                    previous_effective,
                    new_effective,
                    "lease_apply"@,
                    Some(request.client_id),
                    id@,
                    lease::detail_status(
                        configured,
                        new_effective,
                        previous_effective,
                        lease_count,
                    ),
                ),
                _ => one_more(old(self).queue@, final(self).queue@)
                    && final(self).queue@.last().is_error_for(
                    id@,
                    lease::apply_refusal(request.client_id@, limits, outcome)->0,
                ),
            },
    {
        push_lease_applied(
            &mut self.queue,
            id,
            &request.client_id,
            limits,
            outcome,
            configured,
            lease_count,
        );
    }

    /// Handles a request that the proxies may be told of: answers it, if it
    /// can, and says what is left to do. A health check that is not valid never
    /// gets further than this.
    pub fn begin_notify_proxys(&mut self, id: &String, request: &ProxyRequest) -> (step: ProxyStep)
        ensures
            *final(self) == (Server { queue: final(self).queue, ..*old(self) }),
            step == match request {
                ProxyRequest::AddCluster(None) => ProxyStep::AddCluster,
                ProxyRequest::AddCluster(Some(_)) => ProxyStep::Answered,
                ProxyRequest::RemoveCluster => ProxyStep::RemoveCluster,
                ProxyRequest::SetHealthCheck(None) => ProxyStep::SetHealthCheck,
                ProxyRequest::SetHealthCheck(Some(_)) => ProxyStep::Answered,
                ProxyRequest::RemoveHealthCheck => ProxyStep::RemoveHealthCheck,
                ProxyRequest::AddBackend => ProxyStep::AddBackend,
                ProxyRequest::RemoveBackend => ProxyStep::RemoveBackend,
                _ => ProxyStep::Proxies,
            },
            step is AddCluster || step is RemoveCluster || step is Proxies ==> final(self).queue
                == old(self).queue,
            step is SetHealthCheck || step is RemoveHealthCheck || step is AddBackend
                || step is RemoveBackend ==> one_more(old(self).queue@, final(self).queue@)
                && final(self).queue@.last().is_ok_for(id@),
            request matches ProxyRequest::AddCluster(Some(reason)) ==> one_more(
                old(self).queue@,
                final(self).queue@,
            ) && final(self).queue@.last().is_error_for(id@, reason@),
            request matches ProxyRequest::SetHealthCheck(Some(reason)) ==> one_more(
                old(self).queue@,
                final(self).queue@,
            ) && final(self).queue@.last().is_error_for(id@, reason@),
    {
        let ghost before = self.queue@;
        let step = match request {
            ProxyRequest::AddCluster(invalid) => {
                match invalid {
                    None => ProxyStep::AddCluster,
                    Some(reason) => {
                        self.push_queue(WorkerResponse::error(id, reason.clone()));
                        ProxyStep::Answered
                    },
                }
            },
            ProxyRequest::RemoveCluster => ProxyStep::RemoveCluster,
            ProxyRequest::SetHealthCheck(invalid) => {
                match invalid {
                    None => {
                        self.push_queue(WorkerResponse::ok(id));
                        ProxyStep::SetHealthCheck
                    },
                    Some(reason) => {
                        self.push_queue(WorkerResponse::error(id, reason.clone()));
                        ProxyStep::Answered
                    },
                }
            },
            ProxyRequest::RemoveHealthCheck => {
                self.push_queue(WorkerResponse::ok(id));
                ProxyStep::RemoveHealthCheck
            },
            ProxyRequest::AddBackend => {
                self.push_queue(WorkerResponse::ok(id));
                ProxyStep::AddBackend
            },
            ProxyRequest::RemoveBackend => {
                self.push_queue(WorkerResponse::ok(id));
                ProxyStep::RemoveBackend
            },
            _ => ProxyStep::Proxies,
        };
        assert(self.queue@ != before ==> self.queue@.drop_last() =~= before);
        step
    }

    /// Takes in what the proxies that were told of a request answered: one
    /// answer stands for them.
    pub fn proxies_answered(
        &mut self,
        http: Option<WorkerResponse>,
        https: Option<WorkerResponse>,
        tcp: Option<WorkerResponse>,
        udp: Option<WorkerResponse>,
    )
        ensures
            *final(self) == (Server { queue: final(self).queue, ..*old(self) }),
            final(self).queue@ == match message::merged_response(seq![http, https, tcp, udp]) {
                Some(response) => old(self).queue@.push(response),
                None => old(self).queue@,
            },
    {
        if let Some(response) = merge_responses(http, https, tcp, udp) {
            self.push_queue(response);
        }
    }

    /// Removes a listener: frees its slot, whose token is `token` if there is
    /// such a listener, and answers with what its proxy answered.
    pub fn remove_listener(
        &mut self,
        id: &String,
        kind: Option<ListenerType>,
        token: Option<Token>,
        answer: WorkerResponse,
    )
        requires
            old(self).wf(),
            old(self).base_sessions_count > 0,
        ensures
            final(self).wf(),
            *final(self) == (Server {
                base_sessions_count: (old(self).base_sessions_count - 1) as usize,
                sessions: final(self).sessions,
                accept_ready: final(self).accept_ready,
                queue: final(self).queue,
                ..*old(self)
            }),
            one_more(old(self).queue@, final(self).queue@),
            kind is Some ==> final(self).queue@.last() == answer,
            kind is None ==> final(self).queue@.last().is_error_for(
                id@,
                "Wrong variant ListenerType"@,
            ),
            kind is None || token is None ==> final(self).sessions == old(self).sessions && final(
                self).accept_ready == old(self).accept_ready,
            kind is Some && token is Some ==> {
                &&& server_listeners::removes_listener(*old(self), token->0, *final(self))
                &&& final(self).sessions.same_limits(old(self).sessions)
                &&& final(self).sessions.sessions() == old(self).sessions.sessions().remove(
                    (token->0).0,
                )
                &&& final(self).accept_ready@ == crate::accept::drop_token(
                    old(self).accept_ready@,
                    (token->0).0,
                )
            },
    {
        let ghost before = self.queue@;
        match kind {
            Some(_) => {
                self.release_listener(token);
                self.push_queue(answer);
            },
            None => {
                self.release_listener(None);
                self.push_queue(
                    WorkerResponse::error(id, String::from_str("Wrong variant ListenerType")),
                );
            },
        }
        assert(self.queue@.drop_last() =~= before);
    }

    /// The answer to a request to activate or deactivate a listener of a kind
    /// that is none.
    pub fn wrong_listener_type(id: &String) -> (response: WorkerResponse)
        ensures
            response.is_error_for(id@, "Wrong variant for ListenerType on request"@),
    {
        WorkerResponse::error(id, String::from_str("Wrong variant for ListenerType on request"))
    }

    /// Takes in a message on the command channel.
    pub fn channel_message(&mut self, id: &String, request: ChannelRequest) -> (step: ChannelStep)
        requires
            old(self).wf(),
        ensures
            final(self).wf(),
            match request {
                ChannelRequest::HardStop => *final(self) == *old(self)
                    && (step matches ChannelStep::HardStop(answer) && answer.is_ok_for(id@)),
                ChannelRequest::SoftStop => step is SoftStop && final(self).shutting_down is Some
                    && final(self).shutting_down->0@ == id@ && final(self).last_sessions_len == old(
                    self).sessions.sessions().dom().len() && *final(self) == (Server {
                    shutting_down: final(self).shutting_down,
                    last_sessions_len: final(self).last_sessions_len,
                    ..*old(self)
                }),
                ChannelRequest::ReturnListenSockets => step is ReturnListenSockets && *final(self)
                    == *old(self),
                ChannelRequest::Other => step is Notify && *final(self) == *old(self),
            },
    {
        match request {
            ChannelRequest::HardStop => ChannelStep::HardStop(WorkerResponse::ok(id)),
            ChannelRequest::SoftStop => {
                self.soft_stop(id.clone());
                ChannelStep::SoftStop
            },
            ChannelRequest::ReturnListenSockets => ChannelStep::ReturnListenSockets,
            ChannelRequest::Other => ChannelStep::Notify,
        }
    }

    /// Takes in whether the listening sockets could be returned; `failure` is
    /// how the error is shown.
    pub fn listen_sockets_returned(&mut self, id: &String, failure: Option<String>)
        ensures
            *final(self) == (Server { queue: final(self).queue, ..*old(self) }),
            one_more(old(self).queue@, final(self).queue@),
            failure is None ==> final(self).queue@.last().is_ok_for(id@),
            failure matches Some(e) ==> final(self).queue@.last().is_error_for(
                id@,
                "Could not send listeners on scm socket: "@ + e@,
            ),
    {
        let ghost before = self.queue@;
        match failure {
            None => self.push_queue(WorkerResponse::ok(id)),
            Some(e) => self.push_queue(
                WorkerResponse::error(
                    id,
                    text::concat2("Could not send listeners on scm socket: ", e.as_str()),
                ),
            ),
        }
        assert(self.queue@.drop_last() =~= before);
    }
}

/// The backends whose metrics are forgotten when those at an address are
/// removed: all that were there, or the one that the request names if there was
/// none.
pub fn forgotten_backends(removed: Vec<String>, named: String) -> (forgotten: Vec<String>)
    ensures
        forgotten@ == if removed@.len() == 0 {
            seq![named]
        } else {
            removed@
        },
{
    if removed.len() == 0 {
        let mut forgotten: Vec<String> = Vec::new();
        forgotten.push(named);
        assert(forgotten@ =~= seq![named]);
        forgotten
    } else {
        removed
    }
}

/// A request is either answered at once or with the step that is left to do for
/// it, and never both ways; nor is one that is refused acknowledged too.
pub proof fn law_answered_at_once_or_with_the_step(
    request: Request,
    limits: LeaseLimits,
    step: NotifyStep,
)
    requires
        is_step_for(step, request, limits),
    ensures
        request.answered_at_once(limits) <==> !step.brings_answer(),
        !(request.acknowledged() && request.refusal(limits) is Some),
{
}

/// What is answered at once: a change of metrics, of logging or of the limit of
/// connections per source is acknowledged; a change of metrics that makes no
/// sense and a lease that may not be had are refused; and the limit is told.
pub proof fn law_what_is_answered_at_once(request: Request, limits: LeaseLimits)
    ensures
        request.answered_at_once(limits) <==> request is ConfigureMetrics || request is Logging
            || request is SetMaxConnectionsPerIp || request is QueryMaxConnectionsPerIp || (
        request matches Request::SetMetricDetail(r) && r.refusal(limits) is Some),
        request.acknowledged() <==> request is Logging || request is SetMaxConnectionsPerIp || (
        request matches Request::ConfigureMetrics(outcome) && outcome is Ok),
        request matches Request::ConfigureMetrics(Err(reason)) ==> request.refusal(limits)
            == Some(reason@),
        request matches Request::SetMetricDetail(r) ==> request.refusal(limits) == r.refusal(
            limits,
        ),
        !(request is ConfigureMetrics) && !(request is SetMetricDetail) ==> request.refusal(
            limits,
        ) is None,
        request.acknowledged() ==> request.refusal(limits) is None,
{
}

/// What each request leads to.
pub proof fn law_what_a_request_leads_to(
    step: NotifyStep,
    request: Request,
    limits: LeaseLimits,
)
    requires
        is_step_for(step, request, limits),
    ensures
        step is ConfigureMetrics <==> (request matches Request::ConfigureMetrics(outcome)
            && outcome is Ok),
        request matches Request::ConfigureMetrics(Ok(n)) ==> step
            == NotifyStep::ConfigureMetrics(n),
        step is QueryMetrics <==> request is QueryMetrics,
        step is SetLogging <==> request is Logging,
        step is QueryConfiguration <==> request is QueryClustersHashes
            || request is QueryClustersByDomain,
        step is QueryConfigurationAndProxies <==> request is QueryClusterById,
        step is QueryCertificates <==> (request matches Request::QueryCertificates {
            by_fingerprint,
        } && by_fingerprint),
        step is Proxies <==> request is ForProxies || (request
            matches Request::QueryCertificates { by_fingerprint } && !by_fingerprint),
        step is Answered ==> request.answered_at_once(limits),
        request is SetMaxConnectionsPerIp || request is QueryMaxConnectionsPerIp
            ==> step is Answered,
        request matches Request::SetMetricDetail(r) ==> {
            &&& step is Answered <==> r.refusal(limits) is Some
            &&& r.refusal(limits) is None && r.clear == Some(true) ==> step
                == NotifyStep::ClearLease(r.binding())
            &&& r.refusal(limits) is None && r.clear != Some(true) ==> (
            step matches NotifyStep::ApplyLease { level, ttl_seconds, binding } && r.detail
                == Some(lease::RequestedDetail::Level(level)) && ttl_seconds == r.ttl(limits)
                && binding == r.binding())
        },
{
}

/// One more answer comes behind those that there were, which stay.
pub proof fn law_answers_come_last(before: Seq<WorkerResponse>, after: Seq<WorkerResponse>)
    requires
        one_more(before, after),
    ensures
        after == before.push(after.last()),
        after.len() == before.len() + 1,
        forall|i: int| 0 <= i < before.len() ==> #[trigger] after[i] == before[i],
{
    assert(after =~= before.push(after.last()));
    assert forall|i: int| 0 <= i < before.len() implies #[trigger] after[i] == before[i] by {
        assert(after.drop_last()[i] == after[i]);
    }
}

} // verus!
