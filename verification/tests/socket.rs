use sozu_lib::bind::{bind_failure, bind_steps, BindStep, ServerBindError, SocketPurpose};
use sozu_lib::net::SocketAddr;
use sozu_lib::socket::{
    classify_failure, preferred_peer, tcp_write_vectored_result, transport_protocol, IoErrorKind,
    SocketResult, TcpTransfer, TlsVersion, TransportProtocol, MAX_LOOP_ITERATIONS,
};
use sozu_lib::splice::{
    apply_pipe_capacity, queried_pipe_size, requested_pipe_capacity, set_pipe_capacity,
    splice_out_shortcut, splice_result, PipeCapacity, DEFAULT_SPLICE_PIPE_CAPACITY,
};
use sozu_lib::stats::{socket_rtt, socket_snapshot, TcpInfo};
use sozu_lib::tls_io::{
    TlsRead, TlsReadEvent, TlsReadStage, TlsWrite, TlsWriteEvent, TlsWriteStage,
};

fn peer(port: u16) -> SocketAddr {
    SocketAddr::v4(127, 0, 0, 1, port)
}

// ---- peer addresses -----------------------------------------------

#[test]
fn session_tcp_stream_peer_addr_prefers_the_cached_address() {
    assert_eq!(
        preferred_peer(Some(peer(1)), Some(peer(2))),
        Some(peer(1))
    );
    assert_eq!(preferred_peer(Some(peer(1)), None), Some(peer(1)));
}

#[test]
fn session_tcp_stream_peer_addr_falls_back_to_the_live_lookup() {
    assert_eq!(preferred_peer(None, Some(peer(2))), Some(peer(2)));
}

#[test]
fn raw_tcp_stream_peer_addr_is_the_live_lookup() {
    assert_eq!(preferred_peer(None, Some(peer(2))), Some(peer(2)));
    assert_eq!(preferred_peer(None, None), None);
}

#[test]
fn addresses_of_different_scopes_are_different_peers() {
    let peer = |flowinfo: u32, scope_id: u32| SocketAddr::V6 {
        ip: 0xfe80_0000_0000_0000_0000_0000_0000_0001,
        port: 443,
        flowinfo,
        scope_id,
    };
    assert_ne!(peer(0, 1), peer(0, 2));
    assert_ne!(peer(1, 0), peer(2, 0));
    assert_eq!(peer(0, 1).ip(), peer(7, 2).ip());
    assert_eq!(
        preferred_peer(Some(peer(0, 1)), Some(peer(0, 2))),
        Some(peer(0, 1))
    );
}

// ---- plain transfers ----------------------------------------------

#[test]
fn a_read_goes_on_until_the_buffer_is_full() {
    let mut read = TcpTransfer::new(false, 10);
    read.handle(Ok(4));
    assert_eq!(read.result, None);
    read.handle(Ok(6));
    assert_eq!(read.size, 10);
    assert_eq!(read.result, Some(SocketResult::Continue));
}

#[test]
fn a_read_of_nothing_is_the_end_and_a_write_of_nothing_is_not() {
    let mut read = TcpTransfer::new(false, 10);
    read.handle(Ok(3));
    read.handle(Ok(0));
    assert_eq!((read.size, read.result), (3, Some(SocketResult::Closed)));
    let mut write = TcpTransfer::new(true, 10);
    write.handle(Ok(0));
    assert_eq!((write.size, write.result), (0, Some(SocketResult::Continue)));
}

#[test]
fn failures_are_classified() {
    for (kind, result) in [
        (IoErrorKind::WouldBlock, SocketResult::WouldBlock),
        (IoErrorKind::ConnectionReset, SocketResult::Closed),
        (IoErrorKind::ConnectionAborted, SocketResult::Closed),
        (IoErrorKind::BrokenPipe, SocketResult::Closed),
        (IoErrorKind::ConnectionRefused, SocketResult::Closed),
        (IoErrorKind::HostUnreachable, SocketResult::Error),
        (IoErrorKind::TimedOut, SocketResult::Error),
        (IoErrorKind::Unclassified, SocketResult::Error),
    ] {
        assert_eq!(classify_failure(kind), result);
        let mut read = TcpTransfer::new(false, 10);
        read.handle(Err(kind));
        assert_eq!(read.result, Some(result));
        assert_eq!(tcp_write_vectored_result(Err(kind)), (0, result));
    }
    assert_eq!(
        tcp_write_vectored_result(Ok(0)),
        (0, SocketResult::Continue)
    );
}

#[test]
fn too_many_rounds_are_an_error() {
    let mut read = TcpTransfer::new(false, MAX_LOOP_ITERATIONS + 5);
    let mut rounds = 0;
    while read.result.is_none() {
        read.handle(Ok(1));
        rounds += 1;
    }
    assert_eq!(rounds, MAX_LOOP_ITERATIONS);
    assert_eq!(read.size, MAX_LOOP_ITERATIONS);
    assert_eq!(read.result, Some(SocketResult::Error));
}

#[test]
fn versions_that_are_not_known_count_as_the_latest() {
    assert_eq!(transport_protocol(None), TransportProtocol::Tcp);
    assert_eq!(
        transport_protocol(Some(TlsVersion::TLSv1_2)),
        TransportProtocol::Tls1_2
    );
    assert_eq!(
        transport_protocol(Some(TlsVersion::Unrecognised)),
        TransportProtocol::Tls1_3
    );
}

// ---- TLS ----------------------------------------------------------

#[test]
fn a_tls_read_hands_out_plaintext_until_the_socket_blocks() {
    let mut read = TlsRead::new(100, false, false);
    assert_eq!(read.stage, TlsReadStage::ReadTls);
    read.handle(TlsReadEvent::TlsRead(Ok(50)));
    read.handle(TlsReadEvent::Processed(true));
    read.handle(TlsReadEvent::WantsRead(false));
    read.handle(TlsReadEvent::PlainRead(Ok(30)));
    read.handle(TlsReadEvent::WantsRead(true));
    read.handle(TlsReadEvent::TlsRead(Err(IoErrorKind::WouldBlock)));
    read.handle(TlsReadEvent::Processed(true));
    read.handle(TlsReadEvent::WantsRead(true));
    assert_eq!(read.stage, TlsReadStage::Done);
    assert_eq!(read.result(), (30, SocketResult::WouldBlock));
}

#[test]
fn a_peer_that_ended_and_one_that_reset_are_told_apart() {
    let mut ended = TlsRead::new(100, false, false);
    ended.handle(TlsReadEvent::TlsRead(Ok(0)));
    assert!(ended.peer_disconnected);
    assert!(!ended.peer_reset);
    let mut reset = TlsRead::new(100, false, false);
    reset.handle(TlsReadEvent::TlsRead(Err(IoErrorKind::ConnectionReset)));
    assert!(reset.peer_disconnected);
    assert!(reset.peer_reset);
    reset.handle(TlsReadEvent::Processed(false));
    assert_eq!(reset.result().1, SocketResult::Error);
}

#[test]
fn a_write_on_a_reset_connection_is_over_at_once() {
    let write = TlsWrite::new(false, 100, true);
    assert_eq!(write.stage, TlsWriteStage::Done);
    assert_eq!(write.result(), (0, SocketResult::Closed));
}

#[test]
fn a_write_of_nothing_flushes_what_is_pending() {
    for vectored in [false, true] {
        let mut write = TlsWrite::new(vectored, 0, false);
        assert_eq!(write.stage, TlsWriteStage::AskWantsWrite);
        write.handle(TlsWriteEvent::WantsWrite(true));
        write.handle(TlsWriteEvent::TlsWritten(Ok(20)));
        write.handle(TlsWriteEvent::TlsWritten(Ok(0)));
        assert_eq!(write.result(), (0, SocketResult::Continue));
    }
}

#[test]
fn a_vectored_write_that_is_taken_in_part_reports_that_part() {
    let mut write = TlsWrite::new(true, 100, false);
    write.handle(TlsWriteEvent::Absorbed(Ok(40)));
    write.handle(TlsWriteEvent::TlsWritten(Ok(0)));
    write.handle(TlsWriteEvent::WantsWrite(false));
    assert_eq!(write.result(), (40, SocketResult::Continue));

    let mut scalar = TlsWrite::new(false, 100, false);
    scalar.handle(TlsWriteEvent::Absorbed(Ok(40)));
    scalar.handle(TlsWriteEvent::TlsWritten(Ok(0)));
    assert_eq!(scalar.stage, TlsWriteStage::Absorb);
    scalar.handle(TlsWriteEvent::Absorbed(Ok(60)));
    scalar.handle(TlsWriteEvent::TlsWritten(Err(IoErrorKind::WouldBlock)));
    assert_eq!(scalar.result(), (100, SocketResult::WouldBlock));
}

#[test]
fn a_plain_write_that_ends_well_hands_over_everything() {
    let mut write = TlsWrite::new(false, 100, false);
    write.handle(TlsWriteEvent::Absorbed(Err(IoErrorKind::WouldBlock)));
    write.handle(TlsWriteEvent::TlsWritten(Ok(0)));
    write.handle(TlsWriteEvent::Absorbed(Ok(70)));
    write.handle(TlsWriteEvent::TlsWritten(Ok(80)));
    write.handle(TlsWriteEvent::TlsWritten(Ok(0)));
    write.handle(TlsWriteEvent::Absorbed(Ok(30)));
    write.handle(TlsWriteEvent::TlsWritten(Ok(0)));
    write.handle(TlsWriteEvent::WantsWrite(false));
    assert_eq!(write.result(), (100, SocketResult::Continue));
}

// ---- pipes --------------------------------------------------------

#[test]
fn the_first_pipe_capacity_wins_and_zero_is_none() {
    let mut capacity = PipeCapacity::new();
    assert_eq!(
        requested_pipe_capacity(&capacity),
        DEFAULT_SPLICE_PIPE_CAPACITY
    );
    set_pipe_capacity(&mut capacity, 0);
    assert_eq!(requested_pipe_capacity(&capacity), 65_536);
    set_pipe_capacity(&mut capacity, 1_048_576);
    set_pipe_capacity(&mut capacity, 4_096);
    assert_eq!(requested_pipe_capacity(&capacity), 1_048_576);
}

#[test]
fn the_smaller_pipe_counts() {
    assert_eq!(queried_pipe_size(-1), 65_536);
    assert_eq!(queried_pipe_size(8_192), 8_192);
    assert_eq!(apply_pipe_capacity(8_192, 4_096), 4_096);
    assert_eq!(apply_pipe_capacity(131_072, -1), 65_536);
}

#[test]
fn a_pipe_that_moves_nothing_has_ended() {
    assert_eq!(splice_result(Ok(0)), (0, SocketResult::Closed));
    assert_eq!(splice_result(Ok(9)), (9, SocketResult::Continue));
    assert_eq!(
        splice_result(Err(IoErrorKind::WouldBlock)),
        (0, SocketResult::WouldBlock)
    );
    assert_eq!(
        splice_result(Err(IoErrorKind::BrokenPipe)),
        (0, SocketResult::Error)
    );
    assert_eq!(
        splice_out_shortcut(0),
        Some((0, SocketResult::Continue))
    );
    assert_eq!(splice_out_shortcut(1), None);
}

// ---- statistics ---------------------------------------------------

#[test]
fn the_kernel_counts_in_microseconds_or_in_milliseconds() {
    let info = TcpInfo {
        tcpi_state: 2,
        tcpi_rtt: 1_500,
    };
    assert_eq!(info.rtt(), 1_500);
    assert_eq!(info.state(), "SYN_SENT");
    assert_eq!(socket_rtt(Some(info)).unwrap().millis(), 2);
    assert_eq!(socket_snapshot(Some(info)).unwrap().state, "SYN_SENT");
    assert!(socket_snapshot(None).is_none());
    let darwin = sozu_lib::stats_darwin::TcpInfo {
        tcpi_state: 4,
        tcpi_srtt: 7,
    };
    assert_eq!(darwin.rtt(), 7_000);
    assert_eq!(darwin.state(), "ESTABLISHED");
}

// ---- setting sockets up -------------------------------------------

#[test]
fn sockets_are_set_up_step_by_step() {
    let listen = bind_steps(SocketPurpose::Listen, peer(80));
    assert_eq!(
        listen,
        vec![
            BindStep::Create(true),
            BindStep::ReuseAddress,
            BindStep::ReusePort,
            BindStep::Bind(peer(80)),
            BindStep::NonBlocking,
            BindStep::Listen(1024),
        ]
    );
    assert!(!bind_steps(SocketPurpose::Datagrams, peer(80)).contains(&BindStep::Listen(1024)));
    let v6 = SocketAddr::V6 {
        ip: 1,
        port: 53,
        flowinfo: 7,
        scope_id: 2,
    };
    let unspecified = SocketAddr::V6 {
        ip: 0,
        port: 0,
        flowinfo: 0,
        scope_id: 0,
    };
    assert_eq!(
        bind_steps(SocketPurpose::Flow, v6),
        vec![
            BindStep::Create(false),
            BindStep::Bind(unspecified),
            BindStep::NonBlocking,
            BindStep::Connect(v6),
        ]
    );
}

#[test]
fn each_step_has_its_error() {
    let kind = IoErrorKind::Other;
    assert!(matches!(
        bind_failure(BindStep::Create(true), kind),
        ServerBindError::SocketCreationError(_)
    ));
    assert!(matches!(
        bind_failure(BindStep::ReuseAddress, kind),
        ServerBindError::SetReuseAddress(_)
    ));
    assert!(matches!(
        bind_failure(BindStep::ReusePort, kind),
        ServerBindError::SetReusePort(_)
    ));
    assert!(matches!(
        bind_failure(BindStep::Bind(peer(1)), kind),
        ServerBindError::BindError(_)
    ));
    assert!(matches!(
        bind_failure(BindStep::Connect(peer(1)), kind),
        ServerBindError::BindError(_)
    ));
    assert!(matches!(
        bind_failure(BindStep::NonBlocking, kind),
        ServerBindError::SetNonBlocking(_)
    ));
    assert!(matches!(
        bind_failure(BindStep::Listen(1), kind),
        ServerBindError::Listen(_)
    ));
}
