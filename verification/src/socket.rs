//! What the loops that move bytes over a socket decide.
//!
//! The loops themselves do I/O. Each one here is a machine: it says what to do
//! next, and is told how that went.
use vstd::prelude::*;

use crate::net::SocketAddr;

verus! {

/// How many rounds a transfer loop may take before it gives up.
pub const MAX_LOOP_ITERATIONS: usize = 100_000;

/// How a transfer ended.
#[derive(Debug, PartialEq, Eq, Structural, Copy, Clone)]
pub enum SocketResult {
    Continue,
    Closed,
    WouldBlock,
    Error,
}

/// The protocol spoken on a socket.
#[derive(Debug, PartialEq, Eq, Structural, Copy, Clone)]
pub enum TransportProtocol {
    Tcp,
    Ssl2,
    Ssl3,
    Tls1_0,
    Tls1_1,
    Tls1_2,
    Tls1_3,
}

/// The version that a TLS session settled on.
#[derive(Debug, PartialEq, Eq, Structural, Copy, Clone)]
pub enum TlsVersion {
    SSLv2,
    SSLv3,
    TLSv1_0,
    TLSv1_1,
    TLSv1_2,
    TLSv1_3,
    Unrecognised,
}

/// Why a read or a write failed, as far as the loops tell failures apart.
#[derive(Debug, PartialEq, Eq, Structural, Copy, Clone)]
pub enum IoErrorKind {
    WouldBlock,
    ConnectionReset,
    ConnectionAborted,
    BrokenPipe,
    ConnectionRefused,
    HostUnreachable,
    NetworkUnreachable,
    TimedOut,
    NotConnected,
    /// `std::io::ErrorKind::Other`.
    Other,
    /// Any other kind.
    Unclassified,
}

impl IoErrorKind {
    /// The peer reset the connection: nothing can reach it anymore.
    pub open spec fn is_reset(self) -> bool {
        self is ConnectionReset || self is ConnectionAborted || self is BrokenPipe
    }

    /// The peer reset the connection: nothing can reach it anymore.
    pub fn reset(self) -> (r: bool)
        ensures
            r == self.is_reset(),
    {
        match self {
            IoErrorKind::ConnectionReset | IoErrorKind::ConnectionAborted
            | IoErrorKind::BrokenPipe => true,
            _ => false,
        }
    }
}

/// How a failed read or write of a plain TCP socket ends the transfer.
pub open spec fn failure_result(kind: IoErrorKind) -> SocketResult {
    if kind is WouldBlock {
        SocketResult::WouldBlock
    } else if kind.is_reset() || kind is ConnectionRefused {
        SocketResult::Closed
    } else {
        SocketResult::Error
    }
}

/// How a failed read or write of a plain TCP socket ends the transfer.
///
/// A refused connection counts as closed: it is how a failed asynchronous
/// connection shows on the first transfer.
pub fn classify_failure(kind: IoErrorKind) -> (result: SocketResult)
    ensures
        result == failure_result(kind),
{
    match kind {
        IoErrorKind::WouldBlock => SocketResult::WouldBlock,
        IoErrorKind::ConnectionReset | IoErrorKind::ConnectionAborted | IoErrorKind::BrokenPipe
        | IoErrorKind::ConnectionRefused => SocketResult::Closed,
        _ => SocketResult::Error,
    }
}

/// A transfer that fills or empties a buffer over a plain TCP socket.
#[derive(Debug, PartialEq, Eq, Structural, Copy, Clone)]
pub struct TcpTransfer {
    /// Whether the buffer is written to the socket.
    pub writing: bool,
    /// The length of the buffer.
    pub len: usize,
    /// How much of the buffer has been transferred.
    pub size: usize,
    /// How many rounds have begun.
    pub rounds: usize,
    /// How the transfer ended, once it has.
    pub result: Option<SocketResult>,
}

impl TcpTransfer {
    /// What every transfer meets: it stays inside its buffer, and it ends after
    /// a bounded number of rounds.
    pub open spec fn wf(self) -> bool {
        &&& self.size <= self.len
        &&& self.rounds <= MAX_LOOP_ITERATIONS + 1
        &&& self.result is None ==> self.size < self.len && self.rounds <= MAX_LOOP_ITERATIONS
    }

    /// Begins a round: the transfer ends when it has taken too many or when the
    /// buffer is done.
    pub open spec fn round(self) -> TcpTransfer {
        let rounds = (self.rounds + 1) as usize;
        TcpTransfer {
            rounds,
            result: if rounds > MAX_LOOP_ITERATIONS {
                Some(SocketResult::Error)
            } else if self.size == self.len {
                Some(SocketResult::Continue)
            } else {
                None
            },
            ..self
        }
    }

    /// The transfer after one read or write of what is left of the buffer. No
    /// bytes mean that the peer closed, on a read, and that the socket takes no
    /// more, on a write.
    pub open spec fn after(self, outcome: Result<usize, IoErrorKind>) -> TcpTransfer {
        match outcome {
            Ok(n) => if n == 0 {
                TcpTransfer {
                    result: Some(
                        if self.writing {
                            SocketResult::Continue
                        } else {
                            SocketResult::Closed
                        },
                    ),
                    ..self
                }
            } else {
                (TcpTransfer { size: (self.size + n) as usize, ..self }).round()
            },
            Err(kind) => TcpTransfer { result: Some(failure_result(kind)), ..self },
        }
    }

    fn begin_round(&mut self)
        requires
            old(self).size <= old(self).len,
            old(self).rounds <= MAX_LOOP_ITERATIONS,
        ensures
            *final(self) == old(self).round(),
            final(self).wf(),
    {
        self.rounds = self.rounds + 1;
        self.result = if self.rounds > MAX_LOOP_ITERATIONS {
            Some(SocketResult::Error)
        } else if self.size == self.len {
            Some(SocketResult::Continue)
        } else {
            None
        };
    }

    /// A transfer of a buffer of `len` bytes: to the socket if `writing`, from
    /// it otherwise.
    pub fn new(writing: bool, len: usize) -> (t: TcpTransfer)
        ensures
            t.wf(),
            t == (TcpTransfer { writing, len, size: 0, rounds: 0, result: None }).round(),
    {
        let mut t = TcpTransfer { writing, len, size: 0, rounds: 0, result: None };
        t.begin_round();
        t
    }

    /// Takes in how the read or write of the buffer from `size` on went.
    pub fn handle(&mut self, outcome: Result<usize, IoErrorKind>)
        requires
            old(self).wf(),
            old(self).result is None,
            outcome matches Ok(n) ==> n <= old(self).len - old(self).size,
        ensures
            *final(self) == old(self).after(outcome),
            final(self).wf(),
    {
        match outcome {
            Ok(n) => {
                if n == 0 {
                    self.result = Some(
                        if self.writing {
                            SocketResult::Continue
                        } else {
                            SocketResult::Closed
                        },
                    );
                } else {
                    self.size = self.size + n;
                    self.begin_round();
                }
            },
            Err(kind) => {
                self.result = Some(classify_failure(kind));
            },
        }
    }
}

/// How a single vectored write ends: what was written, and how.
pub fn tcp_write_vectored_result(outcome: Result<usize, IoErrorKind>) -> (r: (usize, SocketResult))
    ensures
        outcome matches Ok(n) ==> r == (n, SocketResult::Continue),
        outcome matches Err(kind) ==> r == (0usize, failure_result(kind)),
{
    match outcome {
        Ok(n) => (n, SocketResult::Continue),
        Err(kind) => (0, classify_failure(kind)),
    }
}

/// The transfer after a number of reads or writes.
pub open spec fn tcp_run(t: TcpTransfer, outcomes: Seq<Result<usize, IoErrorKind>>) -> TcpTransfer
    decreases outcomes.len(),
{
    if outcomes.len() == 0 {
        t
    } else {
        tcp_run(t, outcomes.drop_last()).after(outcomes.last())
    }
}

/// Every outcome belongs to a read or write that the transfer asked for.
pub open spec fn tcp_run_ok(t: TcpTransfer, outcomes: Seq<Result<usize, IoErrorKind>>) -> bool
    decreases outcomes.len(),
{
    outcomes.len() > 0 ==> {
        let before = tcp_run(t, outcomes.drop_last());
        &&& tcp_run_ok(t, outcomes.drop_last())
        &&& before.result is None
        &&& outcomes.last() matches Ok(n) ==> n <= before.len - before.size
    }
}

/// The bytes that a number of reads or writes moved.
pub open spec fn moved(outcomes: Seq<Result<usize, IoErrorKind>>) -> int
    decreases outcomes.len(),
{
    if outcomes.len() == 0 {
        0
    } else {
        moved(outcomes.drop_last()) + match outcomes.last() {
            Ok(n) => n as int,
            Err(_) => 0,
        }
    }
}

/// A transfer reports exactly the bytes that were moved, never more than its
/// buffer holds, and asks for no more reads or writes than rounds allow.
pub proof fn law_tcp_transfer_counts_bytes(
    writing: bool,
    len: usize,
    outcomes: Seq<Result<usize, IoErrorKind>>,
)
    requires
        tcp_run_ok(
            (TcpTransfer { writing, len, size: 0, rounds: 0, result: None }).round(),
            outcomes,
        ),
    ensures
        ({
            let t = tcp_run(
                (TcpTransfer { writing, len, size: 0, rounds: 0, result: None }).round(),
                outcomes,
            );
            &&& t.wf()
            &&& t.len == len
            &&& t.size == moved(outcomes)
            &&& outcomes.len() <= t.rounds
            &&& t.result is None ==> t.rounds == outcomes.len() + 1
        }),
    decreases outcomes.len(),
{
    if outcomes.len() > 0 {
        law_tcp_transfer_counts_bytes(writing, len, outcomes.drop_last());
    }
}

/// The address to show for a peer: the one cached when the connection was
/// built, or the one that the socket reports.
///
/// The socket's own report fails once the peer has reset, and names the load
/// balancer behind a PROXY protocol frontend.
pub fn preferred_peer(configured: Option<SocketAddr>, live: Option<SocketAddr>) -> (peer: Option<
    SocketAddr,
>)
    ensures
        configured is Some ==> peer == configured,
        configured is None ==> peer == live,
{
    match configured {
        Some(peer) => Some(peer),
        None => live,
    }
}

/// The protocol of a TLS frontend: plain TCP until a version is settled.
pub fn transport_protocol(version: Option<TlsVersion>) -> (protocol: TransportProtocol)
    ensures
        protocol == match version {
            None => TransportProtocol::Tcp,
            Some(TlsVersion::SSLv2) => TransportProtocol::Ssl2,
            Some(TlsVersion::SSLv3) => TransportProtocol::Ssl3,
            Some(TlsVersion::TLSv1_0) => TransportProtocol::Tls1_0,
            Some(TlsVersion::TLSv1_1) => TransportProtocol::Tls1_1,
            Some(TlsVersion::TLSv1_2) => TransportProtocol::Tls1_2,
            Some(TlsVersion::TLSv1_3) | Some(TlsVersion::Unrecognised) => TransportProtocol::Tls1_3,
        },
{
    match version {
        None => TransportProtocol::Tcp,
        Some(TlsVersion::SSLv2) => TransportProtocol::Ssl2,
        Some(TlsVersion::SSLv3) => TransportProtocol::Ssl3,
        Some(TlsVersion::TLSv1_0) => TransportProtocol::Tls1_0,
        Some(TlsVersion::TLSv1_1) => TransportProtocol::Tls1_1,
        Some(TlsVersion::TLSv1_2) => TransportProtocol::Tls1_2,
        Some(TlsVersion::TLSv1_3) => TransportProtocol::Tls1_3,
        Some(TlsVersion::Unrecognised) => TransportProtocol::Tls1_3,
    }
}

/// A failed read or write asks the caller to wait if the socket would block,
/// tells of a closed peer if the connection was reset, aborted, broken or
/// refused, and is an error otherwise.
pub proof fn law_failures_are_told_apart(kind: IoErrorKind)
    ensures
        failure_result(kind) is WouldBlock <==> kind is WouldBlock,
        failure_result(kind) is Closed <==> kind is ConnectionReset || kind is ConnectionAborted
            || kind is BrokenPipe || kind is ConnectionRefused,
        failure_result(kind) is Error <==> !(kind is WouldBlock) && !(kind is ConnectionReset)
            && !(kind is ConnectionAborted) && !(kind is BrokenPipe) && !(
        kind is ConnectionRefused),
        kind.is_reset() <==> kind is ConnectionReset || kind is ConnectionAborted
            || kind is BrokenPipe,
{
}

/// What a transfer over a plain socket reports is told by its last read or
/// write: one that moved no bytes ends it, with the peer closed when reading; a
/// failed one ends it with what the failure tells; any other goes on until the
/// buffer is done, which ends it well, or until there were too many.
pub proof fn law_tcp_transfer_reports_what_happened(
    writing: bool,
    len: usize,
    outcomes: Seq<Result<usize, IoErrorKind>>,
)
    requires
        outcomes.len() > 0,
        tcp_run_ok(
            (TcpTransfer { writing, len, size: 0, rounds: 0, result: None }).round(),
            outcomes,
        ),
    ensures
        ({
            let t = tcp_run(
                (TcpTransfer { writing, len, size: 0, rounds: 0, result: None }).round(),
                outcomes,
            );
            match outcomes.last() {
                Err(kind) => t.result == Some(failure_result(kind)),
                Ok(n) => {
                    &&& n == 0 && writing ==> t.result == Some(SocketResult::Continue)
                    &&& n == 0 && !writing ==> t.result == Some(SocketResult::Closed)
                    &&& n > 0 && outcomes.len() < MAX_LOOP_ITERATIONS && moved(outcomes) < len
                        ==> t.result is None
                    &&& n > 0 && outcomes.len() < MAX_LOOP_ITERATIONS && moved(outcomes) == len
                        ==> t.result == Some(SocketResult::Continue)
                    &&& n > 0 && outcomes.len() >= MAX_LOOP_ITERATIONS ==> t.result == Some(
                        SocketResult::Error,
                    )
                },
            }
        }),
{
    law_tcp_transfer_counts_bytes(writing, len, outcomes);
    law_tcp_transfer_counts_bytes(writing, len, outcomes.drop_last());
    lemma_direction_stays(
        (TcpTransfer { writing, len, size: 0, rounds: 0, result: None }).round(),
        outcomes.drop_last(),
    );
}

proof fn lemma_direction_stays(t: TcpTransfer, outcomes: Seq<Result<usize, IoErrorKind>>)
    ensures
        tcp_run(t, outcomes).writing == t.writing,
    decreases outcomes.len(),
{
    if outcomes.len() > 0 {
        lemma_direction_stays(t, outcomes.drop_last());
    }
}

/// A transfer of an empty buffer is over at once, and one of any other is not.
pub proof fn law_tcp_transfer_of_nothing_is_over(writing: bool, len: usize)
    ensures
        ({
            let t = (TcpTransfer { writing, len, size: 0, rounds: 0, result: None }).round();
            &&& len == 0 ==> t.result == Some(SocketResult::Continue)
            &&& len > 0 ==> t.result is None
            &&& t.size == 0
        }),
{
}

} // verus!
