use sozu_lib::lease::{
    named_session, LeaseApplyOutcome, LeaseClearOutcome, LeaseLimits, LeaseStep, RequestedDetail,
    SetMetricDetail,
};
use sozu_lib::message::{
    merge_responses, push_event, push_metric_detail_transition, MetricDetailLevel,
    ResponseContent, ResponseStatus, WorkerResponse,
};
use sozu_lib::server::{insert_system_sessions, Server, ServerSettings};
use sozu_lib::server_listeners::ListenerType;
use sozu_lib::server_notify::{
    forgotten_backends, ChannelRequest, ChannelStep, NotifyStep, ProxyRequest, ProxyStep, Request,
};
use sozu_lib::session_manager::SessionManager;

const LIMITS: LeaseLimits = LeaseLimits {
    client_id_max_bytes: 8,
    ttl_max_seconds: 3600,
    ttl_default_seconds: 60,
    table_cap: 64,
};

fn server() -> Server {
    let mut sessions = SessionManager::new(64, 16, 5, 60);
    insert_system_sessions(&mut sessions);
    let settings = ServerSettings {
        accept_queue_timeout: 60,
        zombie_check_interval: 1_800,
        evict_on_queue_full: false,
    };
    Server::new(sessions, settings, None, 0)
}

fn text(s: &str) -> String {
    s.to_owned()
}

fn detail() -> SetMetricDetail {
    SetMetricDetail {
        client_id: text("tui"),
        detail: Some(RequestedDetail::Level(MetricDetailLevel(3))),
        ttl_seconds: None,
        clear: None,
        peer_pid: Some(12),
        peer_session_ulid: None,
    }
}

fn refusal(request: &SetMetricDetail) -> String {
    match request.step(LIMITS) {
        LeaseStep::Refuse(reason) => reason,
        other => panic!("{other:?}"),
    }
}

fn last(server: &Server) -> &WorkerResponse {
    server.queue.last().expect("there must be an answer")
}

// ---- leases -------------------------------------------------------

#[test]
fn a_lease_is_taken_for_the_default_time_unless_another_is_asked_for() {
    for (asked, granted) in [(None, 60), (Some(0), 60), (Some(120), 120), (Some(3600), 3600)] {
        let request = SetMetricDetail {
            ttl_seconds: asked,
            ..detail()
        };
        match request.step(LIMITS) {
            LeaseStep::Apply {
                level,
                ttl_seconds,
                binding,
            } => {
                assert_eq!(level, MetricDetailLevel(3));
                assert_eq!(ttl_seconds, granted);
                assert_eq!(binding.pid, Some(12));
                assert_eq!(binding.session_ulid, None);
            }
            other => panic!("{other:?}"),
        }
    }
}

#[test]
fn each_lease_that_makes_no_sense_is_refused_with_its_reason() {
    assert_eq!(
        refusal(&SetMetricDetail {
            detail: None,
            ..detail()
        }),
        "SetMetricDetail without `detail` and without `clear`"
    );
    assert_eq!(
        refusal(&SetMetricDetail {
            detail: Some(RequestedDetail::Unknown(-7)),
            ..detail()
        }),
        "SetMetricDetail: invalid MetricDetail variant -7"
    );
    assert_eq!(
        refusal(&SetMetricDetail {
            ttl_seconds: Some(3601),
            ..detail()
        }),
        "SetMetricDetail: ttl_seconds=3601 exceeds LEASE_TTL_MAX=3600"
    );
    assert_eq!(
        refusal(&SetMetricDetail {
            clear: Some(true),
            client_id: text("ninebytes"),
            ..detail()
        }),
        "SetMetricDetail: clear client_id length 9 exceeds 8 bytes"
    );
}

#[test]
fn a_session_is_named_by_a_ulid_or_by_a_number() {
    let spelled = SetMetricDetail {
        clear: Some(true),
        peer_session_ulid: Some(text("01CAH7NXGRDJNE9B1NY7PQGYV7")),
        ..detail()
    };
    let binding = match spelled.step(LIMITS) {
        LeaseStep::Clear(binding) => binding,
        other => panic!("{other:?}"),
    };
    let parsed: u128 = "01CAH7NXGRDJNE9B1NY7PQGYV7"
        .parse::<rusty_ulid::Ulid>()
        .unwrap()
        .into();
    assert_eq!(binding.session_ulid, Some(parsed));
    assert_eq!(named_session(None, &text("0xff")), Some(255));
    assert_eq!(named_session(None, &text("ff")), Some(255));
    assert_eq!(named_session(None, &text("no number")), None);
    assert_eq!(named_session(Some(4), &text("0xff")), Some(4));
}

#[test]
fn a_lease_that_changes_the_level_is_told_of_before_it_is_answered() {
    let mut server = server();
    let id = text("ID");
    server.lease_applied(
        &id,
        &detail(),
        LIMITS,
        LeaseApplyOutcome::Applied {
            previous_effective: MetricDetailLevel(1),
            new_effective: MetricDetailLevel(3),
        },
        MetricDetailLevel(1),
        1,
    );
    assert_eq!(server.queue.len(), 2);
    assert_eq!(server.queue[0].id, "EVENT");
    assert_eq!(server.queue[0].status, ResponseStatus::Processing);
    match &server.queue[0].content {
        Some(ResponseContent::MetricDetailChanged(t)) => {
            assert_eq!(t.previous, MetricDetailLevel(1));
            assert_eq!(t.effective, MetricDetailLevel(3));
            assert_eq!(t.kind, "lease_apply");
            assert_eq!(t.client_id.as_deref(), Some("tui"));
        }
        other => panic!("{other:?}"),
    }
    assert_eq!(server.queue[1].id, "ID");
    assert_eq!(server.queue[1].status, ResponseStatus::Success);

    server.lease_cleared(
        &id,
        &detail(),
        LeaseClearOutcome::NotFound,
        MetricDetailLevel(1),
        MetricDetailLevel(3),
        0,
    );
    assert_eq!(server.queue.len(), 3);
    server.lease_cleared(
        &id,
        &detail(),
        LeaseClearOutcome::Unauthorized,
        MetricDetailLevel(1),
        MetricDetailLevel(3),
        0,
    );
    assert_eq!(
        last(&server).message,
        "SetMetricDetail: clear refused (peer binding does not match the apply-time owner)"
    );
    for outcome in [
        LeaseApplyOutcome::ClientIdTooLong,
        LeaseApplyOutcome::TableFull,
        LeaseApplyOutcome::TtlOutOfRange,
        LeaseApplyOutcome::Unauthorized,
    ] {
        server.lease_applied(&id, &detail(), LIMITS, outcome, MetricDetailLevel(1), 0);
        assert_eq!(last(&server).status, ResponseStatus::Failure);
        assert!(!last(&server).message.contains("tui"));
    }
}

#[test]
fn leases_that_expire_without_effect_are_not_told_of() {
    let mut server = server();
    server.leases_expired(MetricDetailLevel(2), MetricDetailLevel(2));
    assert!(server.queue.is_empty());
    server.leases_expired(MetricDetailLevel(3), MetricDetailLevel(2));
    assert_eq!(server.queue.len(), 1);
    assert_eq!(server.queue[0].id, "EVENT");
}

// ---- requests -----------------------------------------------------

#[test]
fn requests_are_answered_at_once_or_say_what_is_left_to_do() {
    let mut server = server();
    let id = text("ID");

    assert!(matches!(
        server.notify(&id, &Request::SetMaxConnectionsPerIp(9), LIMITS),
        NotifyStep::Answered
    ));
    assert_eq!(server.sessions.max_connections_per_ip, 9);
    assert_eq!(last(&server).status, ResponseStatus::Success);

    assert!(matches!(
        server.notify(&id, &Request::QueryMaxConnectionsPerIp, LIMITS),
        NotifyStep::Answered
    ));
    assert!(matches!(
        last(&server).content,
        Some(ResponseContent::MaxConnectionsPerIpLimit(9))
    ));

    assert!(matches!(
        server.notify(
            &id,
            &Request::ConfigureMetrics(Err(text("unknown metrics configuration"))),
            LIMITS
        ),
        NotifyStep::Answered
    ));
    assert_eq!(last(&server).message, "unknown metrics configuration");
    assert!(matches!(
        server.notify(&id, &Request::ConfigureMetrics(Ok(2)), LIMITS),
        NotifyStep::ConfigureMetrics(2)
    ));
    assert!(matches!(
        server.notify(&id, &Request::Logging, LIMITS),
        NotifyStep::SetLogging
    ));

    let answered = server.queue.len();
    assert!(matches!(
        server.notify(&id, &Request::QueryMetrics, LIMITS),
        NotifyStep::QueryMetrics
    ));
    assert!(matches!(
        server.notify(&id, &Request::QueryClustersHashes, LIMITS),
        NotifyStep::QueryConfiguration
    ));
    assert!(matches!(
        server.notify(&id, &Request::QueryCertificates { by_fingerprint: true }, LIMITS),
        NotifyStep::QueryCertificates
    ));
    assert!(matches!(
        server.notify(&id, &Request::QueryCertificates { by_fingerprint: false }, LIMITS),
        NotifyStep::Proxies
    ));
    assert!(matches!(
        server.notify(&id, &Request::SetMetricDetail(detail()), LIMITS),
        NotifyStep::ApplyLease { .. }
    ));
    assert_eq!(server.queue.len(), answered);

    server.answer(&id, Err(text("no metrics")));
    assert_eq!(last(&server).message, "no metrics");
    server.answer(&id, Ok(ResponseContent::Provided(4)));
    assert!(matches!(
        last(&server).content,
        Some(ResponseContent::Provided(4))
    ));
    server.answer_certificates(&id, None);
    assert_eq!(last(&server).status, ResponseStatus::Failure);
}

#[test]
fn disabling_the_limit_per_source_forgets_what_was_counted() {
    let mut server = server();
    let ip = sozu_lib::net::SocketAddr::v4(10, 0, 0, 1, 1).ip();
    server
        .sessions
        .track_cluster_ip(sozu_lib::Token(4), text("cluster"), ip);
    let _ = server.notify(&text("ID"), &Request::SetMaxConnectionsPerIp(3), LIMITS);
    assert_eq!(server.sessions.tracks.len(), 1);
    let _ = server.notify(&text("ID"), &Request::SetMaxConnectionsPerIp(0), LIMITS);
    assert!(server.sessions.tracks.is_empty());
    assert!(server.sessions.counts.is_empty());
}

#[test]
fn requests_for_the_proxies_are_sorted() {
    let mut server = server();
    let id = text("ID");
    assert_eq!(
        server.begin_notify_proxys(&id, &ProxyRequest::AddCluster(None)),
        ProxyStep::AddCluster
    );
    assert_eq!(
        server.begin_notify_proxys(&id, &ProxyRequest::Other),
        ProxyStep::Proxies
    );
    assert!(server.queue.is_empty());
    assert_eq!(
        server.begin_notify_proxys(&id, &ProxyRequest::AddCluster(Some(text("bad")))),
        ProxyStep::Answered
    );
    assert_eq!(last(&server).message, "bad");
    assert_eq!(
        server.begin_notify_proxys(&id, &ProxyRequest::AddBackend),
        ProxyStep::AddBackend
    );
    assert_eq!(last(&server).status, ResponseStatus::Success);
}

#[test]
fn one_failure_stands_for_all_proxies() {
    let id = text("ID");
    let merged = merge_responses(
        Some(WorkerResponse::ok(&id)),
        Some(WorkerResponse::error(&id, text("https"))),
        None,
        Some(WorkerResponse::ok(&id)),
    )
    .unwrap();
    assert!(merged.is_failure());
    assert_eq!(merged.message, "https");
    assert!(merge_responses(None, None, None, None).is_none());
    let mut server = server();
    server.proxies_answered(None, None, Some(WorkerResponse::processing(&id)), None);
    assert_eq!(last(&server).status, ResponseStatus::Processing);
}

#[test]
fn messages_on_the_channel_are_told_apart() {
    let mut server = server();
    let id = text("ID");
    match server.channel_message(&id, ChannelRequest::HardStop) {
        ChannelStep::HardStop(answer) => assert_eq!(answer.id, "ID"),
        other => panic!("{other:?}"),
    }
    assert!(matches!(
        server.channel_message(&id, ChannelRequest::ReturnListenSockets),
        ChannelStep::ReturnListenSockets
    ));
    assert!(matches!(
        server.channel_message(&id, ChannelRequest::Other),
        ChannelStep::Notify
    ));
    assert!(server.shutting_down.is_none());
    assert!(matches!(
        server.channel_message(&id, ChannelRequest::SoftStop),
        ChannelStep::SoftStop
    ));
    assert_eq!(server.shutting_down.as_deref(), Some("ID"));
    server.listen_sockets_returned(&id, None);
    assert_eq!(last(&server).status, ResponseStatus::Success);
    server.listen_sockets_returned(&id, Some(text("closed")));
    assert_eq!(last(&server).status, ResponseStatus::Failure);
    assert_eq!(
        Server::wrong_listener_type(&id).message,
        "Wrong variant for ListenerType on request"
    );
}

#[test]
fn a_listener_of_no_kind_cannot_be_removed() {
    let mut server = server();
    let id = text("ID");
    let answer = WorkerResponse::ok(&id);
    server.remove_listener(&id, None, None, answer);
    assert_eq!(last(&server).message, "Wrong variant ListenerType");
    assert_eq!(ListenerType::Https.label(), "HTTPS");
}

#[test]
fn answers_are_sent_in_order() {
    let mut server = server();
    server.push_queue(WorkerResponse::ok(&text("1")));
    server.push_queue(WorkerResponse::ok(&text("2")));
    let first = server.next_response().unwrap();
    assert_eq!(first.id, "1");
    server.keep_response(first);
    assert_eq!(server.next_response().unwrap().id, "1");
    assert_eq!(server.next_response().unwrap().id, "2");
    assert!(server.next_response().is_none());
}

#[test]
fn events_have_no_request() {
    let mut queue = Vec::new();
    push_event(&mut queue, ResponseContent::Provided(1));
    assert_eq!(queue[0].id, "EVENT");
    assert_eq!(queue[0].status, ResponseStatus::Processing);
    push_metric_detail_transition(
        &mut queue,
        MetricDetailLevel(1),
        MetricDetailLevel(1),
        "none",
        None,
    );
    assert_eq!(queue.len(), 1);
}

#[test]
fn the_backend_that_was_named_is_forgotten_if_no_other_was() {
    assert_eq!(
        forgotten_backends(vec![], text("b")),
        vec![text("b")]
    );
    assert_eq!(
        forgotten_backends(vec![text("a"), text("c")], text("b")),
        vec![text("a"), text("c")]
    );
}
