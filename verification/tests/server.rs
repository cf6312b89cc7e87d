use std::collections::HashSet;

use sozu_lib::message::{ResponseStatus, WorkerResponse};
use sozu_lib::net::SocketAddr;
use sozu_lib::server::{
    insert_system_sessions, AcceptOutcome, CreateStep, EventTarget, Listeners, Ready, ReadyAction,
    Server, ServerSettings, CHANNEL_TOKEN, METRICS_TOKEN, TIMER_TOKEN,
};
use sozu_lib::server_listeners::{
    inherited_socket_fate, InheritedSocketFate, ListenerType, UnclaimedSocket,
};
use sozu_lib::server_sessions::ShutdownStep;
use sozu_lib::session_manager::{
    ListenSession, ListenToken, Protocol, SessionManager, SessionSlot, SessionToken,
};
use sozu_lib::sessions::least_active;
use sozu_lib::socket::IoErrorKind;
use sozu_lib::tcp_listener::{ListenerActivation, ProxyError, TcpListenerConfig};
use sozu_lib::tcp_proxy::TcpProxy;
use sozu_lib::Token;

const ACCEPTING: [ListenerType; 3] = [ListenerType::Http, ListenerType::Https, ListenerType::Tcp];
const ALL: [ListenerType; 4] = [
    ListenerType::Http,
    ListenerType::Https,
    ListenerType::Tcp,
    ListenerType::Udp,
];

fn address_of(kind: ListenerType) -> SocketAddr {
    let port = match kind {
        ListenerType::Http => 8080,
        ListenerType::Https => 8443,
        ListenerType::Tcp => 9000,
        ListenerType::Udp => 5353,
    };
    SocketAddr::v4(127, 0, 0, 1, port)
}

fn fd_of(kind: ListenerType) -> i32 {
    match kind {
        ListenerType::Http => 11,
        ListenerType::Https => 12,
        ListenerType::Tcp => 13,
        ListenerType::Udp => 14,
    }
}

/// A second, in nanoseconds.
const SECOND: u64 = 1_000_000_000;

fn settings() -> ServerSettings {
    ServerSettings {
        accept_queue_timeout: 60,
        zombie_check_interval: 1_800,
        evict_on_queue_full: false,
    }
}

fn server_with(inherited: Listeners) -> Server {
    let mut sessions = SessionManager::new(64, 16, 0, 60);
    insert_system_sessions(&mut sessions);
    Server::new(sessions, settings(), Some(inherited), 0)
}

fn bare_server() -> Server {
    server_with(Listeners::none())
}

fn text(s: &str) -> String {
    s.to_owned()
}

fn assert_ok(response: &WorkerResponse, what: &str) {
    assert_eq!(
        response.status,
        ResponseStatus::Success,
        "{what}: {response:?}"
    );
}

fn add_listener(server: &mut Server, kind: ListenerType) -> Token {
    let id = text("test-add");
    let token = server
        .begin_add_listener(&id, kind)
        .expect("the slots must not be used up");
    let response = server.finish_add_listener(&id, kind, token, Ok(()));
    assert_ok(&response, "adding a listener must succeed");
    token
}

fn tcp_config() -> TcpListenerConfig {
    TcpListenerConfig {
        address: address_of(ListenerType::Tcp),
        public_address: None,
        expect_proxy: false,
        front_timeout: 60,
        back_timeout: 30,
        connect_timeout: 3,
        sni_preread_timeout: None,
        sni_preread_max_bytes: None,
    }
}

fn server_with_tcp_listener() -> (Server, TcpProxy, Token) {
    let mut server = bare_server();
    let token = add_listener(&mut server, ListenerType::Tcp);
    let mut proxy = TcpProxy::new();
    proxy
        .add_listener(tcp_config(), text("127.0.0.1:9000"), token)
        .expect("could not add the test TCP listener");
    proxy
        .activate_listener(address_of(ListenerType::Tcp), Ok(30), Ok(()))
        .expect("could not activate the test TCP listener");
    (server, proxy, token)
}

fn deactivate_tcp(server: &mut Server, proxy: &mut TcpProxy) -> WorkerResponse {
    let outcome = match proxy.give_back_listener(address_of(ListenerType::Tcp)) {
        Ok((token, _fd)) => Ok(token),
        Err(e) => Err(format!("{e:?}")),
    };
    server.finish_deactivation(
        &text("test-deactivate"),
        ListenerType::Tcp,
        &text("127.0.0.1:9000"),
        outcome,
    )
}

fn activate_tcp(server: &mut Server, proxy: &mut TcpProxy) -> WorkerResponse {
    let address = address_of(ListenerType::Tcp);
    let fate = proxy.inherited_socket_fate(address);
    let _ = server.begin_activation(ListenerType::Tcp, address, fate);
    let outcome = match proxy.activate_listener(address, Ok(31), Ok(())) {
        Ok(token) => Ok(token),
        Err(e) => Err(format!("{e:?}")),
    };
    server
        .finish_activation(&text("test-activate"), ListenerType::Tcp, outcome)
        .response
}

/// What the UDP proxy knows of its one listener.
struct UdpListener {
    token: Token,
    has_session: bool,
    sessions_built: u64,
}

impl UdpListener {
    fn add(server: &mut Server) -> UdpListener {
        UdpListener {
            token: add_listener(server, ListenerType::Udp),
            has_session: false,
            sessions_built: 0,
        }
    }

    fn activate(&mut self, server: &mut Server) -> WorkerResponse {
        let built = if server.udp_session_missing(self.token, self.has_session) {
            self.sessions_built += 1;
            self.has_session = true;
            Some(SessionSlot {
                last_event: self.sessions_built,
                frontend_token: self.token,
                protocol: Protocol::UDPListen,
            })
        } else {
            None
        };
        let had_session = self.has_session && built.is_none();
        server.finish_udp_activation(
            &text("test-activate"),
            &text("127.0.0.1:5353"),
            Ok(self.token),
            had_session,
            built,
        )
    }

    fn deactivate(&mut self, server: &mut Server) -> WorkerResponse {
        self.has_session = false;
        server.finish_deactivation(
            &text("test-deactivate"),
            ListenerType::Udp,
            &text("127.0.0.1:5353"),
            Ok(self.token),
        )
    }
}

/// The protocol of a slot, and whether it holds the inert session.
fn slot_state(server: &Server, token: Token) -> Option<(Protocol, bool)> {
    let slot = server.sessions.get(token)?;
    Some((slot.protocol, slot.frontend_token == Token(0)))
}

// ---- eviction -----------------------------------------------------

#[test]
fn select_nth_finds_oldest_sessions() {
    let now: u64 = 100 * SECOND;
    let candidates = vec![
        (Token(1), now - 10 * SECOND),
        (Token(2), now - 50 * SECOND),
        (Token(3), now - 5 * SECOND),
        (Token(4), now - 30 * SECOND),
        (Token(5), now - 20 * SECOND),
    ];

    let (picked, rest) = least_active(candidates, 2);
    let selected: HashSet<Token> = picked.iter().map(|&(token, _)| token).collect();

    assert_eq!(selected.len(), 2);
    assert!(
        selected.contains(&Token(2)),
        "should contain 50s-old session"
    );
    assert!(
        selected.contains(&Token(4)),
        "should contain 30s-old session"
    );
    assert_eq!(rest.len(), 3);
}

#[test]
fn select_nth_with_count_exceeding_candidates() {
    let now: u64 = 100 * SECOND;
    let candidates = vec![(Token(1), now - 10 * SECOND)];

    let (picked, rest) = least_active(candidates, 5);
    let selected: HashSet<Token> = picked.iter().map(|&(token, _)| token).collect();

    assert_eq!(selected.len(), 1);
    assert!(selected.contains(&Token(1)));
    assert!(rest.is_empty());
}

#[test]
fn only_clients_are_evicted() {
    let mut server = bare_server();
    let listener = add_listener(&mut server, ListenerType::Http);
    let old = server.sessions.insert(SessionSlot {
        last_event: 10,
        frontend_token: Token(40),
        protocol: Protocol::HTTP,
    });
    let recent = server.sessions.insert(SessionSlot {
        last_event: 90,
        frontend_token: Token(41),
        protocol: Protocol::HTTP,
    });
    assert_ne!(old, recent);
    assert_eq!(server.evict_least_active_sessions(1), vec![Token(40)]);
    let all = server.evict_least_active_sessions(10);
    assert_eq!(all.len(), 2);
    assert!(!all.contains(&listener));
}

#[test]
fn a_session_in_two_slots_is_evicted_once() {
    let mut server = bare_server();
    for (last_event, frontend) in [(10, 40), (10, 40), (90, 41)] {
        server.sessions.insert(SessionSlot {
            last_event,
            frontend_token: Token(frontend),
            protocol: Protocol::TCP,
        });
    }
    assert_eq!(server.evict_least_active_sessions(0), vec![]);
    assert_eq!(server.evict_least_active_sessions(1), vec![Token(40)]);
    assert_eq!(
        server.evict_least_active_sessions(2),
        vec![Token(40), Token(41)]
    );
    assert_eq!(server.evict_least_active_sessions(9).len(), 2);
}

#[test]
fn an_event_keeps_a_session_from_being_idle() {
    let mut server = bare_server();
    let mut slots = vec![];
    for frontend in [3, 3, 4] {
        slots.push(server.sessions.insert(SessionSlot {
            last_event: 0,
            frontend_token: Token(frontend),
            protocol: Protocol::TCP,
        }));
    }
    let readable = Ready {
        readable: true,
        writable: false,
        error: false,
        hup: false,
    };
    assert_eq!(
        server.ready(slots[1], readable, 1_800 * SECOND),
        ReadyAction::Dispatch
    );
    assert_eq!(server.sessions.get(slots[0]).unwrap().last_event, 1_800 * SECOND);
    assert_eq!(server.sessions.get(slots[1]).unwrap().last_event, 1_800 * SECOND);
    assert_eq!(server.sessions.get(slots[2]).unwrap().last_event, 0);
    assert_eq!(server.zombie_check(1_800 * SECOND + 1), Some(vec![Token(4)]));
    assert_eq!(server.evict_least_active_sessions(1), vec![Token(4)]);
}

// ---- accepting ----------------------------------------------------

#[test]
fn deactivating_a_listener_drops_its_pending_accept_token() {
    let (mut server, mut proxy, listen_token) = server_with_tcp_listener();

    server.note_accept_ready(ListenToken(listen_token.0));

    let response = deactivate_tcp(&mut server, &mut proxy);
    assert_ok(
        &response,
        "deactivating an activated TCP listener must succeed",
    );
    assert!(
        server.sessions.contains(listen_token),
        "deactivating a listener must KEEP its slab slot reserved"
    );
    assert!(
        !server.accept_ready.contains(&listen_token.0),
        "a deactivated listener must not stay queued for a deferred accept"
    );

    assert_eq!(server.next_deferred_accept(), None);
}

#[test]
fn a_stale_accept_token_is_dropped_instead_of_panicking() {
    let (mut server, _proxy, listen_token) = server_with_tcp_listener();

    server.sessions.remove(listen_token);
    server.note_accept_ready(ListenToken(listen_token.0));

    assert_eq!(server.next_deferred_accept(), None);

    assert!(
        server.accept_ready.is_empty(),
        "a listen token with no session must be dropped from accept_ready"
    );
}

#[test]
fn a_listener_is_accepted_from_only_while_there_is_room() {
    let (mut server, _proxy, token) = server_with_tcp_listener();
    let readable = Ready {
        readable: true,
        writable: false,
        error: false,
        hup: false,
    };
    assert_eq!(
        server.ready(token, readable, 0),
        ReadyAction::Accept(ListenToken(token.0), Protocol::TCPListen)
    );
    server.sessions.stop_accepting();
    assert_eq!(server.ready(token, readable, 0), ReadyAction::Ignore);
    assert_eq!(server.accept_ready, vec![token.0]);
    assert_eq!(server.ready(Token(63), readable, 0), ReadyAction::Ignore);
}

#[test]
fn accepted_connections_are_served_last_in_first_out() {
    let (mut server, _proxy, token) = server_with_tcp_listener();
    let listener = ListenToken(token.0);
    for socket in [1, 2] {
        assert!(server.accepted(
            listener,
            Protocol::TCPListen,
            AcceptOutcome::Accepted(socket, None),
            10
        ));
    }
    assert!(!server.accepted(listener, Protocol::TCPListen, AcceptOutcome::WouldBlock, 10));
    match server.next_session(25) {
        CreateStep::Create(connection, wait) => {
            assert_eq!(connection.socket, 2);
            assert_eq!(wait, 15);
        }
        other => panic!("{other:?}"),
    }
    assert!(server.session_created(true));
    assert_eq!(server.sessions.nb_connections, 1);
    match server.next_session(60 * SECOND + 11) {
        CreateStep::Expired(connection) => assert_eq!(connection.socket, 1),
        other => panic!("{other:?}"),
    }
    assert!(matches!(server.next_session(60 * SECOND + 11), CreateStep::Stop));
}

// ---- the life of a listener ---------------------------------------

#[test]
fn a_reactivated_tcp_listener_is_reachable_from_the_event_loop() {
    let (mut server, mut proxy, listen_token) = server_with_tcp_listener();

    assert_ok(
        &deactivate_tcp(&mut server, &mut proxy),
        "deactivating must succeed",
    );
    assert_ok(
        &activate_tcp(&mut server, &mut proxy),
        "activating must succeed",
    );

    server.sessions.stop_accepting();
    server.ready(
        listen_token,
        Ready {
            readable: true,
            writable: false,
            error: false,
            hup: false,
        },
        0,
    );

    assert!(
        server.accept_ready.contains(&listen_token.0),
        "a reactivated listener must still be dispatched by `ready()`"
    );
}

#[test]
fn a_reactivated_udp_listener_gets_its_session_back() {
    let mut server = bare_server();
    let mut udp = UdpListener::add(&mut server);

    assert_eq!(
        slot_state(&server, udp.token),
        Some((Protocol::UDPListen, true)),
        "an added, not-yet-activated UDP listener holds the placeholder"
    );

    assert_ok(&udp.activate(&mut server), "activating must succeed");
    assert_eq!(
        slot_state(&server, udp.token),
        Some((Protocol::UDPListen, false)),
        "activating must install the real UdpListenerSession"
    );

    assert_ok(&udp.deactivate(&mut server), "deactivating must succeed");
    assert_ok(&udp.activate(&mut server), "activating must succeed");

    assert_eq!(
        slot_state(&server, udp.token),
        Some((Protocol::UDPListen, false)),
        "reactivating must reinstall the real UdpListenerSession"
    );
}

#[test]
fn a_deactivated_udp_listeners_key_is_not_handed_to_another_session() {
    let mut server = bare_server();
    let mut udp = UdpListener::add(&mut server);
    assert_ok(&udp.activate(&mut server), "activating must succeed");
    assert_ok(&udp.deactivate(&mut server), "deactivating must succeed");

    let interloper = server.sessions.insert(
        ListenSession {
            protocol: Protocol::Channel,
        }
        .slot(),
    );
    assert_ne!(
        interloper, udp.token,
        "a deactivated listener's key must not be handed to another session"
    );

    assert_ok(&udp.activate(&mut server), "activating must succeed");

    assert_eq!(
        slot_state(&server, interloper),
        Some((Protocol::Channel, true)),
        "reactivating a listener must not overwrite another session's slot"
    );
}

#[test]
fn a_duplicate_udp_activate_keeps_the_live_listener_session() {
    let mut server = bare_server();
    let mut udp = UdpListener::add(&mut server);
    assert_ok(&udp.activate(&mut server), "activating must succeed");

    let installed = server.sessions.get(udp.token);

    let response = udp.activate(&mut server);
    assert_ok(
        &response,
        "a repeated ActivateListener on an active UDP listener must answer ok",
    );
    assert_eq!(
        slot_state(&server, udp.token),
        Some((Protocol::UDPListen, false)),
        "the real UdpListenerSession must still be the one in the slab"
    );
    assert_eq!(
        installed,
        server.sessions.get(udp.token),
        "a repeated ActivateListener must not replace the live UDP listener session"
    );
    assert_eq!(udp.sessions_built, 1);
}

#[test]
fn replaying_activate_listener_is_a_clean_no_op_for_an_active_udp_listener() {
    let mut server = bare_server();
    let mut udp = UdpListener::add(&mut server);
    assert_ok(&udp.activate(&mut server), "activating must succeed");
    let installed = server.sessions.get(udp.token);

    assert_ok(
        &udp.activate(&mut server),
        "a replayed ActivateListener must answer ok",
    );

    assert_eq!(
        slot_state(&server, udp.token),
        Some((Protocol::UDPListen, false)),
        "the replay must leave the real UdpListenerSession in the slab"
    );
    assert_eq!(
        installed,
        server.sessions.get(udp.token),
        "replaying ActivateListener must leave the live UDP listener session in place"
    );
}

#[test]
fn removing_a_listener_releases_its_reserved_slab_slot() {
    let mut server = bare_server();
    let baseline = server.sessions.slab_len();
    let base_sessions_count = server.base_sessions_count;

    for cycle in 0..3 {
        let mut udp = UdpListener::add(&mut server);
        assert_ok(&udp.activate(&mut server), "activating must succeed");
        if cycle % 2 == 0 {
            assert_ok(&udp.deactivate(&mut server), "deactivating must succeed");
        }

        let id = text("test-remove");
        let answer = WorkerResponse::ok(&id);
        server.remove_listener(&id, Some(ListenerType::Udp), Some(udp.token), answer);

        assert!(
            !server.sessions.contains(udp.token),
            "cycle {cycle}: removing a listener must release its reserved slot"
        );
        assert_eq!(
            server.sessions.slab_len(),
            baseline,
            "cycle {cycle}: the slab must return to its baseline occupancy"
        );
        assert_eq!(
            server.base_sessions_count, base_sessions_count,
            "cycle {cycle}: base_sessions_count must track the reserved slots"
        );
    }
}

#[test]
fn a_listener_that_cannot_be_added_leaves_no_slot() {
    let mut server = bare_server();
    let before = server.sessions.slab_len();
    let id = text("ID");
    let token = server.begin_add_listener(&id, ListenerType::Https).unwrap();
    let response = server.finish_add_listener(
        &id,
        ListenerType::Https,
        token,
        Err(text("no certificate")),
    );
    assert_eq!(
        response.message,
        "Could not add HTTPS listener: no certificate"
    );
    assert_eq!(server.sessions.slab_len(), before);
}

#[test]
fn listeners_are_refused_when_the_slots_are_used_up() {
    let mut server = bare_server();
    let id = text("ID");
    let refused = loop {
        match server.begin_add_listener(&id, ListenerType::Tcp) {
            Ok(token) => {
                let _ = server.finish_add_listener(&id, ListenerType::Tcp, token, Ok(()));
            }
            Err(response) => break response,
        }
    };
    assert_eq!(refused.status, ResponseStatus::Failure);
    assert_eq!(
        refused.message,
        "session list is full, cannot add a listener"
    );
}

#[test]
fn failed_steps_of_a_listener_are_answered_with_the_reason() {
    let mut server = bare_server();
    let id = text("ID");
    assert_eq!(
        Server::update_listener_response(&id, ListenerType::Http, Err(text("bad"))).message,
        "Could not update HTTP listener: bad"
    );
    let activation = server.finish_activation(&id, ListenerType::Tcp, Err(text("bad")));
    assert_eq!(
        activation.response.message,
        "Could not activate TCP listener: bad"
    );
    assert_eq!(activation.accept, None);
    assert_eq!(
        server
            .finish_udp_activation(&id, &text("a:1"), Err(text("bad")), false, None)
            .message,
        "Could not activate UDP listener: bad"
    );
    assert_eq!(
        server
            .finish_udp_activation(&id, &text("a:1"), Ok(Token(50)), false, None)
            .message,
        "Could not build the UDP listener session for a:1"
    );
    let slot = SessionSlot {
        last_event: 0,
        frontend_token: Token(50),
        protocol: Protocol::UDPListen,
    };
    assert_eq!(
        server
            .finish_udp_activation(&id, &text("a:1"), Ok(Token(50)), false, Some(slot))
            .message,
        "UDP listener a:1 has no session slot at Token(50)"
    );
    assert_eq!(
        server
            .finish_deactivation(&id, ListenerType::Http, &text("a:1"), Err(text("bad")))
            .message,
        "Couldn't deactivate HTTP listener at address a:1: bad"
    );
    assert_eq!(
        server
            .finish_deactivation(&id, ListenerType::Udp, &text("a:1"), Err(text("bad")))
            .message,
        "Could not deactivate UDP listener at address a:1: bad"
    );
}

// ---- inherited sockets --------------------------------------------

fn all_inherited() -> Listeners {
    Listeners {
        http: vec![(address_of(ListenerType::Http), fd_of(ListenerType::Http))],
        tls: vec![(address_of(ListenerType::Https), fd_of(ListenerType::Https))],
        tcp: vec![(address_of(ListenerType::Tcp), fd_of(ListenerType::Tcp))],
        udp: vec![(address_of(ListenerType::Udp), fd_of(ListenerType::Udp))],
    }
}

fn inherited_table(server: &Server, kind: ListenerType) -> &Vec<(SocketAddr, i32)> {
    let listeners = server
        .scm_listeners
        .as_ref()
        .expect("scm_listeners must be present");
    match kind {
        ListenerType::Http => &listeners.http,
        ListenerType::Https => &listeners.tls,
        ListenerType::Tcp => &listeners.tcp,
        ListenerType::Udp => &listeners.udp,
    }
}

fn adopt(server: &mut Server, kind: ListenerType) {
    let token = add_listener(server, kind);
    let fate = inherited_socket_fate(Some(false));
    let socket = server.begin_activation(kind, address_of(kind), fate);
    assert_eq!(socket.adopted, Some(fd_of(kind)));
    assert_eq!(socket.discarded, None);
    if kind == ListenerType::Udp {
        return;
    }
    let activation = server.finish_activation(&text("test-activate"), kind, Ok(token));
    assert_ok(&activation.response, "activating must succeed");
    let (listener, protocol) = activation
        .accept
        .expect("connections must be accepted at once");
    assert!(server.accepted(
        listener,
        protocol,
        AcceptOutcome::Accepted(fd_of(kind) as u64, None),
        0
    ));
}

fn assert_all_accepted(server: &Server) {
    let accepted: Vec<Protocol> = server.accept_queue.iter().map(|c| c.protocol).collect();
    for expected in [
        Protocol::HTTPListen,
        Protocol::HTTPSListen,
        Protocol::TCPListen,
    ] {
        assert!(
            accepted.contains(&expected),
            "the connection queued on the inherited {expected:?} socket must survive the \
             hand-off, got {accepted:?}"
        );
    }
}

#[test]
fn inherited_listener_sockets_are_adopted_by_the_initial_activation() {
    let mut server = server_with(all_inherited());
    for kind in ALL {
        adopt(&mut server, kind);
        assert!(inherited_table(&server, kind).is_empty());
    }
    assert_all_accepted(&server);
}

#[test]
fn a_repeated_activation_closes_the_descriptor_it_cannot_adopt_now() {
    let mut server = server_with(all_inherited());
    for kind in ALL {
        let token = add_listener(&mut server, kind);
        let fate = inherited_socket_fate(Some(true));
        assert_eq!(fate, InheritedSocketFate::Refused);
        let socket = server.begin_activation(kind, address_of(kind), fate);
        assert_eq!(socket.adopted, None);
        assert_eq!(
            socket.discarded,
            Some(fd_of(kind)),
            "the inherited {kind:?} descriptor this activation cannot adopt must be closed"
        );
        assert!(
            inherited_table(&server, kind).is_empty(),
            "the inherited {kind:?} descriptor this activation cannot adopt must leave the table"
        );
        if kind != ListenerType::Udp {
            let activation = server.finish_activation(&text("test-repeat"), kind, Ok(token));
            assert_ok(
                &activation.response,
                "a repeated activation must still answer ok",
            );
        }
    }
}

#[test]
fn an_inherited_descriptor_with_no_listener_yet_is_adopted_by_a_later_activation() {
    let mut server = server_with(all_inherited());
    for kind in ALL {
        let fate = inherited_socket_fate(None);
        assert_eq!(fate, InheritedSocketFate::Unclaimed);
        let socket = server.begin_activation(kind, address_of(kind), fate);
        assert_eq!((socket.adopted, socket.discarded), (None, None));
        assert_eq!(
            inherited_table(&server, kind),
            &vec![(address_of(kind), fd_of(kind))],
            "the {kind:?} descriptor must stay in the table while no listener owns its address"
        );
        if kind != ListenerType::Udp {
            let activation =
                server.finish_activation(&text("test-early"), kind, Err(text("no listener")));
            assert_ne!(
                activation.response.status,
                ResponseStatus::Success,
                "activating {kind:?} with no listener must fail"
            );
        }
    }
    for kind in ALL {
        adopt(&mut server, kind);
        assert!(
            inherited_table(&server, kind).is_empty(),
            "the retained {kind:?} descriptor must be adopted by the later activation"
        );
    }
    assert_all_accepted(&server);
}

#[test]
fn unclaimed_sockets_are_told_apart_by_whether_they_have_a_listener() {
    let server = server_with(all_inherited());
    let known = vec![(ListenerType::Tcp, address_of(ListenerType::Tcp))];
    let left = server.unclaimed_inherited_sockets(&known);
    assert_eq!(left.len(), 4);
    for (i, kind) in ALL.into_iter().enumerate() {
        assert_eq!(
            left[i],
            UnclaimedSocket {
                kind,
                address: address_of(kind),
                fd: fd_of(kind),
                has_listener: kind == ListenerType::Tcp,
            }
        );
    }
}

#[test]
fn a_socket_parked_by_a_failed_registration_is_not_mistaken_for_a_live_one() {
    let mut proxy = TcpProxy::new();
    let address = address_of(ListenerType::Tcp);
    proxy
        .add_listener(tcp_config(), text("127.0.0.1:9000"), Token(3))
        .expect("could not add the test TCP listener");
    assert!(
        proxy
            .activate_listener(address, Ok(40), Err(IoErrorKind::Other))
            .is_err(),
        "the pre-registered descriptor must make the TCP registration fail"
    );
    assert!(
        matches!(
            proxy.give_back_listener(address),
            Err(ProxyError::UnactivatedListener)
        ),
        "a TCP listener holding only a parked socket must not answer as activated"
    );
}

#[test]
fn a_failed_registration_does_not_close_the_socket_it_was_handed() {
    let mut proxy = TcpProxy::new();
    let address = address_of(ListenerType::Tcp);
    proxy
        .add_listener(tcp_config(), text("127.0.0.1:9000"), Token(3))
        .expect("could not add the test TCP listener");
    let result = proxy.activate_listener(address, Ok(40), Err(IoErrorKind::Other));
    assert!(
        matches!(result, Err(ProxyError::RegisterListener(IoErrorKind::Other))),
        "the pre-registered descriptor must make the TCP registration fail"
    );
    assert_eq!(
        proxy.listeners[0].parked_listener,
        Some(40),
        "a failed TCP registration must not close the socket it was handed"
    );
    assert!(matches!(
        proxy.activation(address, false),
        Ok(ListenerActivation::RegisterParked(40))
    ));
    assert!(matches!(
        proxy.activate_listener(address, Ok(40), Ok(())),
        Ok(Token(3))
    ));
    assert_eq!(proxy.listeners[0].parked_listener, None);
    assert_eq!(proxy.listeners[0].listener, Some(40));
}

// ---- the event loop -----------------------------------------------

#[test]
fn events_go_to_what_their_token_is_for() {
    let target = |token: usize| Server::event_target(Token(token), false, false, false, false);
    assert_eq!(target(CHANNEL_TOKEN), EventTarget::Channel);
    assert_eq!(target(TIMER_TOKEN), EventTarget::Timer);
    assert_eq!(target(METRICS_TOKEN), EventTarget::Metrics);
    assert_eq!(target(7), EventTarget::Session);
    assert_eq!(
        Server::event_target(Token(CHANNEL_TOKEN), true, false, false, false),
        EventTarget::ChannelError
    );
    assert_eq!(
        Server::event_target(Token(CHANNEL_TOKEN), false, true, false, false),
        EventTarget::ChannelClosed
    );
    assert_eq!(
        Server::event_target(Token(9), false, false, true, false),
        EventTarget::HealthChecker
    );
    assert_eq!(
        Server::event_target(Token(9), false, false, false, true),
        EventTarget::UdpHealthChecker
    );
}

#[test]
fn tokens_keep_their_number() {
    let server = bare_server();
    assert_eq!(server.to_session(Token(9)), SessionToken(9));
    assert_eq!(server.from_session(SessionToken(9)), Token(9));
    assert_eq!(SessionManager::to_session(Token(4)), SessionToken(4));
    assert_eq!(ListenToken::from(5), ListenToken(5));
    assert_eq!(usize::from(ListenToken(6)), 6);
    assert_eq!(SessionToken::from(5), SessionToken(5));
    assert_eq!(usize::from(SessionToken(6)), 6);
}

#[test]
fn a_worker_stops_once_no_client_is_left() {
    let mut server = bare_server();
    let client = server.sessions.insert(SessionSlot {
        last_event: 0,
        frontend_token: Token(3),
        protocol: Protocol::HTTP,
    });
    server.soft_stop(text("ID"));
    assert!(matches!(
        server.shut_down_progress(4, 10),
        ShutdownStep::GoOn
    ));
    assert!(server.sessions.remove(client));
    match server.shut_down_progress(4, 20) {
        ShutdownStep::Stop(response) => {
            assert_eq!(response.id, "ID");
            assert_ok(&response, "the stop must be answered");
        }
        other => panic!("{other:?}"),
    }
}

#[test]
fn idle_sessions_are_zombies() {
    let mut server = bare_server();
    server.sessions.insert(SessionSlot {
        last_event: 0,
        frontend_token: Token(3),
        protocol: Protocol::HTTP,
    });
    assert_eq!(server.zombie_check(1_800 * SECOND - 1), None);
    assert_eq!(server.zombie_check(1_800 * SECOND + 1), Some(vec![Token(3)]));
    assert_eq!(server.zombie_check(1_800 * SECOND + 2), None);
}

#[test]
fn polling_waits_no_longer_than_it_must() {
    let mut server = bare_server();
    assert_eq!(server.reset_loop_time_and_get_timeout(7), Some(SECOND));
    assert_eq!(server.loop_start, 7);
    server.should_poll_at = Some(SECOND / 2);
    assert_eq!(server.reset_loop_time_and_get_timeout(9), Some(SECOND / 2 - 9));
    assert!(!server.timer_due(SECOND / 2 - 1));
    assert!(server.timer_due(SECOND / 2));
    assert_eq!(server.reset_loop_time_and_get_timeout(SECOND), Some(SECOND));
    server.soft_stop("STOP".to_owned());
    assert_eq!(server.reset_loop_time_and_get_timeout(SECOND), Some(SECOND / 10));
}

#[test]
fn time_at_the_limit_is_counted_by_the_second() {
    let mut server = bare_server();
    server.sessions.stop_accepting();
    assert!(!server.saturation_tick(SECOND - 1));
    assert!(server.saturation_tick(SECOND));
    assert!(!server.saturation_tick(2 * SECOND - 1));
}

#[test]
fn a_vacated_token_is_handed_out_again() {
    let mut server = bare_server();
    let slot = SessionSlot {
        last_event: 0,
        frontend_token: Token(0),
        protocol: Protocol::TCP,
    };
    let first = server.sessions.insert(slot);
    let second = server.sessions.insert(slot);
    assert_eq!(second.0, first.0 + 1);
    assert!(server.sessions.remove(first));
    assert_eq!(server.sessions.insert(slot), first);
    assert_eq!(server.sessions.insert(slot).0, second.0 + 1);
}

#[test]
fn usage_is_a_percentage() {
    assert_eq!(Server::usage_percent(3, 0), None);
    assert_eq!(Server::usage_percent(3, 4), Some(75));
}

#[test]
fn accepting_kinds_have_listen_protocols() {
    for kind in ACCEPTING {
        assert!(kind.protocol().can_accept());
        assert!(kind.protocol().system());
    }
    assert!(!ListenerType::Udp.protocol().can_accept());
    assert!(!Protocol::HTTP.system());
}

// ---- limits -------------------------------------------------------

#[test]
fn connections_per_source_are_limited_by_cluster() {
    let mut sessions = SessionManager::new(64, 16, 2, 60);
    let ip = SocketAddr::v4(10, 0, 0, 1, 1).ip();
    let cluster = text("cluster");
    for token in [5, 6] {
        assert!(!sessions.cluster_ip_at_limit(Token(token), &cluster, ip, None));
        sessions.track_cluster_ip(Token(token), text("cluster"), ip);
    }
    assert!(sessions.cluster_ip_at_limit(Token(7), &cluster, ip, None));
    assert!(!sessions.cluster_ip_at_limit(Token(5), &cluster, ip, None));
    assert!(!sessions.cluster_ip_at_limit(Token(7), &cluster, ip, Some(3)));
    assert!(!sessions.cluster_ip_at_limit(Token(7), &cluster, ip, Some(0)));
    sessions.untrack_all_cluster_ip(Token(5));
    assert!(!sessions.cluster_ip_at_limit(Token(7), &cluster, ip, None));
    sessions.clear_cluster_ip_tracking();
    assert!(sessions.tracks.is_empty());
    assert_eq!(sessions.effective_retry_after(None), 60);
    assert_eq!(sessions.effective_retry_after(Some(0)), 0);
    sessions.set_max_connections_per_ip(9);
    assert_eq!(sessions.effective_max_connections_per_ip(None), 9);
}

#[test]
fn accepting_resumes_below_nine_tenths_of_the_limit() {
    let mut sessions = SessionManager::new(64, 10, 0, 60);
    for _ in 0..10 {
        assert!(sessions.check_limits());
        sessions.incr();
    }
    assert!(!sessions.check_limits());
    assert!(!sessions.can_accept);
    sessions.decr();
    assert!(!sessions.can_accept);
    sessions.decr();
    assert!(sessions.can_accept);
}
