//! The steps by which the sockets of a worker are set up.
use vstd::prelude::*;

use crate::net::SocketAddr;
use crate::socket::IoErrorKind;

verus! {

/// Why a socket could not be set up.
#[derive(Debug)]
pub enum ServerBindError {
    BindError(IoErrorKind),
    Listen(IoErrorKind),
    SetNonBlocking(IoErrorKind),
    SetReuseAddress(IoErrorKind),
    SetReusePort(IoErrorKind),
    SocketCreationError(IoErrorKind),
    InvalidSocketAddress { address: String, error: String },
}

/// What a socket is for.
#[derive(Debug, PartialEq, Eq, Structural, Copy, Clone)]
pub enum SocketPurpose {
    /// Listening for TCP connections.
    Listen,
    /// Receiving the datagrams of many UDP flows.
    Datagrams,
    /// Exchanging the datagrams of one UDP flow with its backend.
    Flow,
}

/// One step in setting up a socket.
#[derive(Debug, PartialEq, Eq, Structural, Copy, Clone)]
pub enum BindStep {
    /// Create a stream socket (`true`) or a datagram socket.
    Create(bool),
    ReuseAddress,
    ReusePort,
    Bind(SocketAddr),
    NonBlocking,
    /// Listen with the given backlog.
    Listen(u32),
    Connect(SocketAddr),
}

/// How many connections may wait to be accepted.
pub const LISTEN_BACKLOG: u32 = 1024;

/// The address that a flow's socket is bound to: any port of the unspecified
/// address of the backend's family.
pub open spec fn ephemeral(addr: SocketAddr) -> SocketAddr {
    match addr {
        SocketAddr::V4 { .. } => SocketAddr::V4 { ip: 0, port: 0 },
        SocketAddr::V6 { .. } => SocketAddr::V6 { ip: 0, port: 0, flowinfo: 0, scope_id: 0 },
    }
}

/// The steps that set up a socket, in order. A listening socket can be bound
/// again while another process still holds the address, so that it survives a
/// hand-off; a flow's socket only talks to its backend.
pub open spec fn bind_steps_spec(purpose: SocketPurpose, addr: SocketAddr) -> Seq<BindStep> {
    match purpose {
        SocketPurpose::Listen => seq![
            BindStep::Create(true),
            BindStep::ReuseAddress,
            BindStep::ReusePort,
            BindStep::Bind(addr),
            BindStep::NonBlocking,
            BindStep::Listen(LISTEN_BACKLOG),
        ],
        SocketPurpose::Datagrams => seq![
            BindStep::Create(false),
            BindStep::ReuseAddress,
            BindStep::ReusePort,
            BindStep::Bind(addr),
            BindStep::NonBlocking,
        ],
        SocketPurpose::Flow => seq![
            BindStep::Create(false),
            BindStep::Bind(ephemeral(addr)),
            BindStep::NonBlocking,
            BindStep::Connect(addr),
        ],
    }
}

/// The steps that set up a socket for `addr`, in order.
pub fn bind_steps(purpose: SocketPurpose, addr: SocketAddr) -> (steps: Vec<BindStep>)
    ensures
        steps@ == bind_steps_spec(purpose, addr),
{
    match purpose {
        SocketPurpose::Listen => vec![
            BindStep::Create(true),
            BindStep::ReuseAddress,
            BindStep::ReusePort,
            BindStep::Bind(addr),
            BindStep::NonBlocking,
            BindStep::Listen(LISTEN_BACKLOG),
        ],
        SocketPurpose::Datagrams => vec![
            BindStep::Create(false),
            BindStep::ReuseAddress,
            BindStep::ReusePort,
            BindStep::Bind(addr),
            BindStep::NonBlocking,
        ],
        SocketPurpose::Flow => vec![
            BindStep::Create(false),
            BindStep::Bind(addr.unspecified_peer()),
            BindStep::NonBlocking,
            BindStep::Connect(addr),
        ],
    }
}

/// What a failed step is reported as.
pub fn bind_failure(step: BindStep, kind: IoErrorKind) -> (e: ServerBindError)
    ensures
        e == match step {
            BindStep::Create(_) => ServerBindError::SocketCreationError(kind),
            BindStep::ReuseAddress => ServerBindError::SetReuseAddress(kind),
            BindStep::ReusePort => ServerBindError::SetReusePort(kind),
            BindStep::Bind(_) | BindStep::Connect(_) => ServerBindError::BindError(kind),
            BindStep::NonBlocking => ServerBindError::SetNonBlocking(kind),
            BindStep::Listen(_) => ServerBindError::Listen(kind),
        },
{
    match step {
        BindStep::Create(_) => ServerBindError::SocketCreationError(kind),
        BindStep::ReuseAddress => ServerBindError::SetReuseAddress(kind),
        BindStep::ReusePort => ServerBindError::SetReusePort(kind),
        BindStep::Bind(_) => ServerBindError::BindError(kind),
        BindStep::Connect(_) => ServerBindError::BindError(kind),
        BindStep::NonBlocking => ServerBindError::SetNonBlocking(kind),
        BindStep::Listen(_) => ServerBindError::Listen(kind),
    }
}

/// Whether step `i` is the only one that binds the socket, and binds it in the
/// family of `addr`.
pub open spec fn binds_once_at(steps: Seq<BindStep>, addr: SocketAddr, i: int) -> bool {
    &&& 0 <= i < steps.len()
    &&& steps[i] is Bind
    &&& steps[i]->Bind_0.is_v4() == addr.is_v4()
    &&& forall|j: int| 0 <= j < steps.len() && (#[trigger] steps[j]) is Bind ==> j == i
}

/// Every socket is made non-blocking, and is bound exactly once, in the family
/// of the address it is for.
pub proof fn law_bound_once_and_non_blocking(purpose: SocketPurpose, addr: SocketAddr)
    ensures
        bind_steps_spec(purpose, addr).contains(BindStep::NonBlocking),
        exists|i: int| binds_once_at(bind_steps_spec(purpose, addr), addr, i),
{
    let steps = bind_steps_spec(purpose, addr);
    if purpose is Flow {
        assert(steps[2] == BindStep::NonBlocking);
        assert(binds_once_at(steps, addr, 1));
    } else {
        assert(steps[4] == BindStep::NonBlocking);
        assert(binds_once_at(steps, addr, 3));
    }
}

/// What setting a socket up takes for each purpose. It is created first, before
/// all else. A listening socket is for streams, any other for datagrams; a
/// listening one and one for many flows can be bound again while another process
/// holds the address, and are bound to the address itself; only a listening one
/// listens. One for a single flow is bound to any address of the family, to no
/// port in particular, and only then connected.
pub proof fn law_what_setting_a_socket_up_takes(purpose: SocketPurpose, addr: SocketAddr)
    ensures
        ({
            let steps = bind_steps_spec(purpose, addr);
            &&& steps.len() > 0
            &&& steps[0] == BindStep::Create(purpose is Listen)
            &&& steps.contains(BindStep::ReuseAddress) <==> !(purpose is Flow)
            &&& steps.contains(BindStep::ReusePort) <==> !(purpose is Flow)
            &&& !(purpose is Flow) ==> steps.contains(BindStep::Bind(addr))
            &&& steps.contains(BindStep::Listen(1024)) <==> purpose is Listen
            &&& steps.contains(BindStep::Connect(addr)) <==> purpose is Flow
            &&& purpose is Flow && addr.is_v4() ==> steps[1] == BindStep::Bind(
                SocketAddr::V4 { ip: 0, port: 0 },
            )
            &&& purpose is Flow && !addr.is_v4() ==> steps[1] == BindStep::Bind(
                SocketAddr::V6 { ip: 0, port: 0, flowinfo: 0, scope_id: 0 },
            )
            &&& purpose is Flow ==> steps.last() == BindStep::Connect(addr)
            &&& purpose is Listen ==> steps.last() == BindStep::Listen(1024)
            &&& forall|i: int, j: int|
                0 <= i < steps.len() && 0 <= j < steps.len() && (#[trigger] steps[i]
                    is ReuseAddress || steps[i] is ReusePort) && #[trigger] steps[j] is Bind
                    ==> i < j
        }),
{
    let steps = bind_steps_spec(purpose, addr);
    if purpose is Listen {
        assert(steps[1] == BindStep::ReuseAddress && steps[2] == BindStep::ReusePort);
        assert(steps[3] == BindStep::Bind(addr) && steps[5] == BindStep::Listen(1024));
    } else if purpose is Datagrams {
        assert(steps[1] == BindStep::ReuseAddress && steps[2] == BindStep::ReusePort);
        assert(steps[3] == BindStep::Bind(addr));
    } else {
        assert(steps[3] == BindStep::Connect(addr));
    }
}

} // verus!
