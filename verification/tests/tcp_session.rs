use sozu_lib::alpn::AlpnMatcher;
use sozu_lib::clock::Duration;
use sozu_lib::net::SocketAddr;
use sozu_lib::server::Ready;
use sozu_lib::session_manager::{ListenToken, Protocol, SessionManager, SessionSlot};
use sozu_lib::socket::IoErrorKind;
use sozu_lib::table::Table;
use sozu_lib::tcp_backend::test_back_socket;
use sozu_lib::tcp_listener::{ProxyError, RequestTcpFrontend, TcpListenerConfig};
use sozu_lib::tcp_proxy::{AcceptError, TcpProxy, TcpRequest};
use sozu_lib::tcp_ready::{CallResult, ReadyCall, ReadyLoop};
use sozu_lib::tcp_session::{
    frontend_timeout_resets_on_readable, handle_connection_result, BackendConnectAction,
    BackendConnectionError, BackendConnectionStatus, BackendHandle, ClusterConfiguration, Dispatch, NewTcpSession,
    PrereadOutcome, PrereadState, ProxyProtocolConfig, ProxyProtocolState, Readiness,
    SessionClosed, SessionResult, TcpGauges, TcpSession, TcpStateMachine, Upgraded,
};
use sozu_lib::tcp_tags::sni_tags_key;
use sozu_lib::timer::Timer;
use sozu_lib::Token;
use time::Instant;

const FRONT: Token = Token(5);

fn none() -> Ready {
    Ready {
        readable: false,
        writable: false,
        error: false,
        hup: false,
    }
}

fn idle() -> Readiness {
    Readiness {
        event: none(),
        interest: none(),
    }
}

fn gauges() -> TcpGauges {
    TcpGauges {
        tcp: 0,
        proxy_send: 0,
        proxy_relay: 0,
        proxy_expect: 0,
        sni_preread_active: 0,
        backend_connections: 0,
    }
}

fn timer() -> Timer<Token> {
    Timer::new(100, 64, 64, Instant::now())
}

fn client() -> SocketAddr {
    SocketAddr::v4(10, 1, 2, 3, 4444)
}

fn settings(cluster_id: Option<&str>) -> NewTcpSession {
    NewTcpSession {
        cluster_id: cluster_id.map(str::to_owned),
        backend_timeout: Duration::seconds(30),
        connect_timeout: Duration::seconds(3),
        frontend_timeout: Duration::seconds(60),
        frontend_token: FRONT,
        frontend_address: Some(client()),
        now: 100,
    }
}

fn preread_session(timer: &mut Timer<Token>, gauges: &mut TcpGauges) -> TcpSession {
    TcpSession::new_sni_preread(
        timer,
        gauges,
        settings(None),
        Duration::seconds(3),
        16384,
        idle(),
        idle(),
    )
}

fn outcome() -> PrereadOutcome {
    PrereadOutcome {
        cluster: "cluster-a".to_owned(),
        sni: "www.example.com".to_owned(),
        alpn: vec![b"h2".to_vec()],
        matched_sni_pattern: "*.example.com".to_owned(),
        matched_alpn: AlpnMatcher::Any,
        content_offset: 28,
        proxy_source: None,
    }
}

fn route(session: &mut TcpSession) {
    match &mut session.state {
        TcpStateMachine::SniPreread(preread) => preread.outcome = Some(outcome()),
        other => panic!("{other:?}"),
    }
    session.route_found(60);
}

fn sessions() -> SessionManager {
    let mut sessions = SessionManager::new(64, 16, 0, 60);
    for _ in 0..6 {
        sessions.insert(SessionSlot {
            last_event: 0,
            frontend_token: FRONT,
            protocol: Protocol::TCP,
        });
    }
    sessions
}

fn configs(proxy_protocol: Option<ProxyProtocolConfig>) -> Table<String, ClusterConfiguration> {
    let mut configs = Table::new();
    configs.insert(
        "cluster-a".to_owned(),
        ClusterConfiguration {
            proxy_protocol,
            max_connections_per_ip: None,
        },
    );
    configs
}

fn config() -> TcpListenerConfig {
    TcpListenerConfig {
        address: SocketAddr::v4(127, 0, 0, 1, 8080),
        public_address: None,
        expect_proxy: false,
        front_timeout: 60,
        back_timeout: 30,
        connect_timeout: 3,
        sni_preread_timeout: None,
        sni_preread_max_bytes: None,
    }
}

// ---- tcp.sni_preread.active gauge accounting ----------------------

#[test]
fn entering_sni_preread_increments_the_active_gauge() {
    let mut timer = timer();
    let mut gauges = gauges();
    let before = gauges.sni_preread_active;
    let session = preread_session(&mut timer, &mut gauges);
    let after = gauges.sni_preread_active;

    assert!(matches!(session.state, TcpStateMachine::SniPreread(_)));

    assert_eq!(
        after - before,
        1,
        "entering the SniPreread state must increment tcp.sni_preread.active by exactly one"
    );
}

// ---- absolute preread deadline + route-aware timeout ----

#[test]
fn frontend_timeout_reset_is_gated_on_sni_preread_decision() {
    let undecided = TcpStateMachine::SniPreread(PrereadState {
        front: idle(),
        back: idle(),
        outcome: None,
        backend: false,
        backend_token: None,
        effective_max_bytes: 16384,
    });
    assert!(
        !frontend_timeout_resets_on_readable(&undecided),
        "an undecided SniPreread must not have its absolute deadline reset"
    );

    let other = TcpStateMachine::ExpectProxyProtocol(ProxyProtocolState {
        front: idle(),
        back: idle(),
        source: None,
        backend_token: None,
        connected: false,
    });
    assert!(
        frontend_timeout_resets_on_readable(&other),
        "every non-preread-undecided state must keep resetting its frontend timeout"
    );
}

#[test]
fn frontend_timeout_restored_and_timeout_after_route_is_not_double_counted() {
    let mut timer = timer();
    let mut gauges = gauges();
    let mut session = preread_session(&mut timer, &mut gauges);
    assert_eq!(session.container_frontend_timeout.duration().millis(), 3_000);

    route(&mut session);
    assert_eq!(
        session.cluster_id.as_deref(),
        Some("cluster-a"),
        "the session must have routed on a valid ClientHello for a configured SNI"
    );
    assert_eq!(
        session.container_frontend_timeout.duration().millis(),
        60_000,
        "the frontend timeout must already carry the configured front_timeout right after \
         routing, not only once the backend connects"
    );

    let timed_out = session.timeout(FRONT);
    assert!(timed_out.close);
    assert!(
        !timed_out.preread,
        "a timeout firing after the route already latched must not double-count \
         tcp.sni_preread.routed"
    );
}

#[test]
fn a_timeout_while_the_name_is_looked_for_is_told_to_the_search() {
    let mut timer = timer();
    let mut gauges = gauges();
    let mut session = preread_session(&mut timer, &mut gauges);
    assert!(!session.timeout(Token(60)).close);
    let timed_out = session.timeout(FRONT);
    assert!(timed_out.close);
    assert!(timed_out.preread);
}

// ---- a session from its connection to its end ---------------------

fn connect(
    session: &mut TcpSession,
    sessions: &mut SessionManager,
    timer: &mut Timer<Token>,
    configs: &Table<String, ClusterConfiguration>,
) {
    let cluster = session
        .begin_connect(sessions, configs, &None)
        .expect("the session must be let through");
    assert_eq!(cluster, "cluster-a");
    let action = session.finish_connect(sessions, timer, "backend-0".to_owned(), 200);
    assert_eq!(action, BackendConnectAction::New);
    session.backend = Some(BackendHandle { failures: 0 });
}

#[test]
fn a_routed_session_goes_through_its_stages_and_leaves_no_trace() {
    let mut timer = timer();
    let mut gauges = gauges();
    let mut sessions = sessions();
    let configs = configs(None);
    let slots = sessions.slab_len();

    let mut session = preread_session(&mut timer, &mut gauges);
    route(&mut session);
    connect(&mut session, &mut sessions, &mut timer, &configs);
    assert_eq!(sessions.slab_len(), slots + 1);
    assert_eq!(sessions.tracks.len(), 1);
    let back = session.backend_token.expect("the backend must have a token");

    let up = session.set_back_connected(&mut timer, &mut gauges, true, 250);
    assert!(up.recovered);
    assert_eq!(up.connection_time, Some(50));
    assert_eq!(session.backend_connected, BackendConnectionStatus::Connected);
    assert_eq!(gauges.backend_connections, 1);

    let address = "127.0.0.1:8080".to_owned();
    let upgraded = session.upgrade(&mut gauges, &configs, &address, idle(), idle());
    assert_eq!(upgraded, Upgraded::Next { consume: 28 });
    assert_eq!(gauges.sni_preread_active, 0);
    assert_eq!(gauges.tcp, 1);
    assert_eq!(
        session.access_log_tags_key(&address),
        sni_tags_key(&address, "*.example.com", &vec![])
    );
    match &session.state {
        TcpStateMachine::Pipe(pipe) => {
            assert_eq!(pipe.backend_token, Some(back));
            assert_eq!(pipe.tls_sni.as_deref(), Some("www.example.com"));
            assert_eq!(pipe.tls_alpn, Some("h2"));
        }
        other => panic!("{other:?}"),
    }

    let closed = session.close(&mut sessions, &mut timer, &mut gauges, true);
    assert!(matches!(closed, SessionClosed::Closed(_)));
    assert!(matches!(
        session.close(&mut sessions, &mut timer, &mut gauges, false),
        SessionClosed::Already
    ));
    assert_eq!(sessions.slab_len(), slots - 1);
    assert!(!sessions.contains(FRONT));
    assert!(!sessions.contains(back));
    assert!(sessions.tracks.is_empty());
    assert_eq!(timer.len(), 0);
    assert_eq!(gauges.tcp, 0);
    assert_eq!(gauges.backend_connections, 0);
    assert_eq!(gauges.sni_preread_active, 0);
}

#[test]
fn what_the_cluster_expects_decides_where_a_routed_session_goes() {
    for (proxy_protocol, consume, stage) in [
        (Some(ProxyProtocolConfig::SendHeader), 28, "send"),
        (Some(ProxyProtocolConfig::ExpectHeader), 28, "pipe"),
        (Some(ProxyProtocolConfig::RelayHeader), 0, "pipe"),
        (None, 28, "pipe"),
    ] {
        let mut timer = timer();
        let mut gauges = gauges();
        let mut sessions = sessions();
        let configs = configs(proxy_protocol);
        let mut session = preread_session(&mut timer, &mut gauges);
        route(&mut session);
        connect(&mut session, &mut sessions, &mut timer, &configs);
        let _ = session.set_back_connected(&mut timer, &mut gauges, false, 250);
        let address = "127.0.0.1:8080".to_owned();
        assert_eq!(
            session.upgrade(&mut gauges, &configs, &address, idle(), idle()),
            Upgraded::Next { consume }
        );
        match (&session.state, stage) {
            (TcpStateMachine::SendProxyProtocol(_), "send") => {}
            (TcpStateMachine::Pipe(_), "pipe") => {}
            (other, _) => panic!("{other:?}"),
        }
    }
}

#[test]
fn an_upgrade_before_the_route_is_known_fails() {
    let mut timer = timer();
    let mut gauges = gauges();
    let mut sessions = sessions();
    let mut session = preread_session(&mut timer, &mut gauges);
    let upgraded = session.upgrade(
        &mut gauges,
        &configs(None),
        &"127.0.0.1:8080".to_owned(),
        idle(),
        idle(),
    );
    assert_eq!(upgraded, Upgraded::ToBeClosed);
    assert!(matches!(session.state, TcpStateMachine::FailedUpgrade(_)));
    assert!(matches!(
        session.close(&mut sessions, &mut timer, &mut gauges, false),
        SessionClosed::Failed(_)
    ));
    let active = gauges.sni_preread_active;
    assert!(session.has_been_closed);
    assert!(matches!(
        session.close(&mut sessions, &mut timer, &mut gauges, false),
        SessionClosed::Already
    ));
    assert_eq!(gauges.sni_preread_active, active);
}

#[test]
fn what_was_heard_before_an_upgrade_still_counts() {
    for proxy_protocol in [Some(ProxyProtocolConfig::SendHeader), None] {
        let mut timer = timer();
        let mut gauges = gauges();
        let mut sessions = sessions();
        let configs = configs(proxy_protocol);
        let mut session = preread_session(&mut timer, &mut gauges);
        route(&mut session);
        connect(&mut session, &mut sessions, &mut timer, &configs);
        let _ = session.set_back_connected(&mut timer, &mut gauges, false, 250);
        let back_token = session.backend_token.unwrap();
        let mut writable = idle().event;
        writable.writable = true;
        let mut readable = idle().event;
        readable.readable = true;
        session.update_readiness(FRONT, readable, 260);
        session.update_readiness(back_token, writable, 261);
        assert_eq!(session.last_event, 261);
        let mut armed = idle();
        armed.interest.hup = true;
        let address = "127.0.0.1:8080".to_owned();
        session.upgrade(&mut gauges, &configs, &address, armed, armed);
        let (front, back) = match &session.state {
            TcpStateMachine::Pipe(pipe) => (pipe.front, pipe.back),
            TcpStateMachine::SendProxyProtocol(send) => (send.front, send.back),
            other => panic!("{other:?}"),
        };
        assert_eq!(front.event, readable);
        assert_eq!(front.interest, armed.interest);
        assert!(back.event.writable && !back.event.readable);
        assert_eq!(back.interest, armed.interest);
    }
}

#[test]
fn connecting_is_refused_for_each_of_its_reasons() {
    let mut timer = timer();
    let mut gauges = gauges();
    let configs = configs(None);

    let mut session = preread_session(&mut timer, &mut gauges);
    assert!(matches!(
        session.begin_connect(&mut sessions(), &configs, &None),
        Err(BackendConnectionError::NotFound)
    ));

    let mut session = TcpSession::new(
        &mut timer,
        &mut gauges,
        settings(Some("cluster-a")),
        None,
        idle(),
        idle(),
    );
    let mut limited = sessions();
    limited.set_max_connections_per_ip(1);
    limited.track_cluster_ip(Token(9), "cluster-a".to_owned(), client().ip());
    assert!(matches!(
        session.begin_connect(&mut limited, &configs, &None),
        Err(BackendConnectionError::TooManyConnectionsPerIp { .. })
    ));

    let mut full = sessions();
    while !full.at_capacity() {
        full.insert(SessionSlot {
            last_event: 0,
            frontend_token: Token(1),
            protocol: Protocol::TCP,
        });
    }
    assert!(matches!(
        session.begin_connect(&mut full, &configs, &None),
        Err(BackendConnectionError::MaxSessionsMemory)
    ));

    let mut manager = sessions();
    for _ in 0..3 {
        connect(&mut session, &mut manager, &mut timer, &configs);
        let failure = session.fail_backend_connection(false, true);
        assert!(failure.counted);
        assert!(failure.went_down);
        let _ = session.close_backend(&mut manager, &mut gauges, true);
    }
    assert!(matches!(
        session.begin_connect(&mut manager, &configs, &None),
        Err(BackendConnectionError::MaxConnectionRetries(Some(_)))
    ));
}

#[test]
fn a_session_without_a_proxy_header_is_a_pipe_at_once() {
    let mut timer = timer();
    let mut gauges = gauges();
    let session = TcpSession::new(
        &mut timer,
        &mut gauges,
        settings(Some("cluster-a")),
        None,
        idle(),
        idle(),
    );
    assert!(matches!(session.state, TcpStateMachine::Pipe(_)));
    assert_eq!(gauges.tcp, 1);
    assert_eq!(session.effective_session_address(), Some(client()));
    assert_eq!(
        session.access_log_tags_key(&"127.0.0.1:8080".to_owned()),
        "127.0.0.1:8080"
    );
    let expecting = TcpSession::new(
        &mut timer,
        &mut gauges,
        settings(None),
        Some(ProxyProtocolConfig::ExpectHeader),
        idle(),
        idle(),
    );
    assert!(matches!(
        expecting.state,
        TcpStateMachine::ExpectProxyProtocol(_)
    ));
    assert_eq!(gauges.proxy_expect, 1);
}

#[test]
fn only_new_connections_are_waited_for() {
    assert_eq!(handle_connection_result(Ok(BackendConnectAction::Reuse)), None);
    assert_eq!(
        handle_connection_result(Ok(BackendConnectAction::New)),
        Some(SessionResult::Continue)
    );
    assert_eq!(
        handle_connection_result(Ok(BackendConnectAction::Replace)),
        Some(SessionResult::Continue)
    );
    assert_eq!(
        handle_connection_result(Err(BackendConnectionError::NotFound)),
        Some(SessionResult::Close)
    );
}

#[test]
fn a_backend_socket_that_has_nothing_to_say_is_alive() {
    assert!(test_back_socket(Some(Err(IoErrorKind::WouldBlock))));
    assert!(test_back_socket(Some(Ok(1))));
    assert!(!test_back_socket(Some(Ok(0))));
    assert!(!test_back_socket(Some(Err(IoErrorKind::ConnectionReset))));
    assert!(!test_back_socket(None));
}

// ---- handling events ----------------------------------------------

#[test]
fn a_run_ends_when_nothing_is_ready() {
    let mut timer = timer();
    let mut gauges = gauges();
    let mut session = preread_session(&mut timer, &mut gauges);
    let mut run = ReadyLoop::new();
    assert_eq!(
        run.next(&mut session, CallResult::Done),
        ReadyCall::Finish(SessionResult::Continue)
    );
}

#[test]
fn an_unrouted_session_is_read_from_but_does_not_connect() {
    let mut timer = timer();
    let mut gauges = gauges();
    let readable = Readiness {
        event: Ready {
            readable: true,
            ..none()
        },
        interest: Ready {
            readable: true,
            ..none()
        },
    };
    let mut session = TcpSession::new_sni_preread(
        &mut timer,
        &mut gauges,
        settings(None),
        Duration::seconds(3),
        16384,
        readable,
        idle(),
    );
    let mut run = ReadyLoop::new();
    assert_eq!(run.next(&mut session, CallResult::Done), ReadyCall::Readable);
    assert_eq!(
        run.next(&mut session, CallResult::Handled(SessionResult::Close)),
        ReadyCall::Finish(SessionResult::Close)
    );
}

#[test]
fn a_hang_up_of_an_unrouted_client_is_told_to_the_search() {
    let mut timer = timer();
    let mut gauges = gauges();
    let session = preread_session(&mut timer, &mut gauges);
    assert_eq!(session.front_hup(), Dispatch::PrereadClosed);
}

// ---- the proxy ----------------------------------------------------

fn front(cluster: &str) -> RequestTcpFrontend {
    RequestTcpFrontend {
        cluster_id: cluster.to_owned(),
        address: config().address,
        tags: Table::new(),
        sni: None,
        alpn: vec![],
    }
}

#[test]
fn a_session_is_created_for_a_listener_that_has_a_cluster() {
    let mut proxy = TcpProxy::new();
    let mut sessions = sessions();
    let mut timer = timer();
    let mut gauges = gauges();
    let listener = ListenToken(40);
    assert!(matches!(
        proxy.begin_create_session(&mut sessions, listener, true, 0),
        Err(AcceptError::IoError)
    ));
    proxy
        .add_listener(config(), "127.0.0.1:8080".to_owned(), Token(40))
        .unwrap();
    proxy.add_tcp_front(front("cluster-a")).unwrap();
    assert!(matches!(
        proxy.begin_create_session(&mut sessions, listener, false, 0),
        Err(AcceptError::BufferCapacityReached)
    ));
    let before = sessions.slab_len();
    let token = proxy
        .begin_create_session(&mut sessions, listener, true, 7)
        .unwrap();
    assert_eq!(sessions.slab_len(), before + 1);
    assert!(matches!(
        TcpProxy::session_registered(&mut sessions, token, false),
        Err(AcceptError::RegisterError)
    ));
    assert_eq!(sessions.slab_len(), before);

    let token = proxy
        .begin_create_session(&mut sessions, listener, true, 7)
        .unwrap();
    assert!(TcpProxy::session_registered(&mut sessions, token, true).is_ok());
    let mut armed = idle();
    armed.interest.readable = true;
    let session = proxy.create_session(
        &mut timer,
        &mut gauges,
        listener,
        token,
        Some(client()),
        16384,
        7,
        armed,
        idle(),
    );
    assert_eq!(session.frontend_token, token);
    assert_eq!(session.cluster_id.as_deref(), Some("cluster-a"));
    assert_eq!(session.connection_attempt, 0);
    assert!(!session.cluster_ip_tracked && !session.has_been_closed);
    assert!(session.backend.is_none() && session.backend_id.is_none());
    assert_eq!(session.backend_token, None);
    assert!(!session.frontend_buffer && !session.backend_buffer);
    match &session.state {
        TcpStateMachine::Pipe(pipe) => {
            assert_eq!(pipe.front, armed);
            assert_eq!(pipe.back, idle());
            assert_eq!(pipe.session_address, Some(client()));
            assert!(pipe.backend_id.is_none() && pipe.tls_alpn.is_none());
        }
        other => panic!("{other:?}"),
    }
}

#[test]
fn a_proxy_tells_what_it_could_not_do() {
    let mut proxy = TcpProxy::new();
    let address = config().address;
    let elsewhere = SocketAddr::v4(127, 0, 0, 1, 1);
    assert!(matches!(
        proxy.add_tcp_front(front("cluster-a")),
        Err(ProxyError::NoListenerFound(_))
    ));
    proxy
        .add_listener(config(), "127.0.0.1:8080".to_owned(), Token(40))
        .unwrap();
    assert!(matches!(
        proxy.add_listener(config(), "127.0.0.1:8080".to_owned(), Token(40)),
        Err(ProxyError::ListenerAlreadyPresent)
    ));
    assert!(matches!(
        proxy.give_back_listener(address),
        Err(ProxyError::UnactivatedListener)
    ));
    assert!(matches!(
        proxy.give_back_listener(elsewhere),
        Err(ProxyError::NoListenerFound(_))
    ));
    assert_eq!(proxy.listener_token(address), Some(Token(40)));
    assert_eq!(proxy.listener_token(elsewhere), None);
    assert!(matches!(
        proxy.accept_socket(ListenToken(40)),
        Err(AcceptError::IoError)
    ));
    assert_eq!(TcpProxy::accept_error(IoErrorKind::WouldBlock), AcceptError::WouldBlock);
    assert_eq!(TcpProxy::accept_error(IoErrorKind::Other), AcceptError::IoError);

    let id = "ID".to_owned();
    let answer = proxy
        .notify(&id, TcpRequest::AddTcpFrontend(front("cluster-a")))
        .unwrap();
    assert_eq!(answer.response.id, "ID");
    assert!(!answer.response.is_failure());
    proxy.activate_listener(address, Ok(33), Ok(())).unwrap();
    let answer = proxy.notify(&id, TcpRequest::SoftStop).unwrap();
    assert_eq!(answer.sockets, vec![33]);
    assert!(proxy.listeners.is_empty());
}
