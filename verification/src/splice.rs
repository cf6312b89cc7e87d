//! Kernel pipes between two sockets: how large they are, and what moving bytes
//! through them tells.
use vstd::prelude::*;

use crate::socket::{IoErrorKind, SocketResult};

verus! {

/// Default kernel-pipe capacity (64 KiB), matching the Linux default for an
/// unprivileged pipe.
pub const DEFAULT_SPLICE_PIPE_CAPACITY: usize = 65_536;

/// The capacity that the operator asked for, if any. It is set once per worker.
#[derive(Debug, PartialEq, Eq, Copy, Clone)]
pub struct PipeCapacity {
    requested: Option<usize>,
}

impl PipeCapacity {
    /// What has been asked for.
    pub closed spec fn request(self) -> Option<usize> {
        self.requested
    }

    /// Nothing has been asked for.
    pub fn new() -> (c: PipeCapacity)
        ensures
            c.request() is None,
    {
        PipeCapacity { requested: None }
    }
}

/// Installs the operator-configured pipe capacity. The first call wins. A `0`
/// means "use the built-in default", so that it does not collapse the pipe to
/// the size of a page.
pub fn set_pipe_capacity(capacity: &mut PipeCapacity, bytes: usize)
    ensures
        final(capacity).request() == (if bytes == 0 || old(capacity).request() is Some {
            old(capacity).request()
        } else {
            Some(bytes)
        }),
{
    if bytes == 0 {
        return ;
    }
    if capacity.requested.is_none() {
        capacity.requested = Some(bytes);
    }
}

/// The capacity to ask the kernel for: the operator's when there is one,
/// otherwise the default.
pub fn requested_pipe_capacity(capacity: &PipeCapacity) -> (bytes: usize)
    ensures
        bytes == match capacity.request() {
            Some(bytes) => bytes,
            None => DEFAULT_SPLICE_PIPE_CAPACITY,
        },
{
    match capacity.requested {
        Some(bytes) => bytes,
        None => DEFAULT_SPLICE_PIPE_CAPACITY,
    }
}

/// A capacity that was installed stays, whatever is installed later.
pub proof fn law_first_pipe_capacity_wins(
    first: PipeCapacity,
    second: PipeCapacity,
    bytes: usize,
    later: usize,
)
    requires
        bytes > 0,
        first.request() == Some(bytes),
        second.request() == (if later == 0 || first.request() is Some {
            first.request()
        } else {
            Some(later)
        }),
    ensures
        second.request() == Some(bytes),
{
}

/// The size of a pipe, from what the kernel answered when asked for it: the
/// default when it refused.
pub fn queried_pipe_size(answer: i32) -> (bytes: usize)
    ensures
        answer < 0 ==> bytes == DEFAULT_SPLICE_PIPE_CAPACITY,
        answer >= 0 ==> bytes == answer,
{
    if answer < 0 {
        DEFAULT_SPLICE_PIPE_CAPACITY
    } else {
        answer as usize
    }
}

/// The capacity of a pair of pipes, from what the kernel answered for each: the
/// smaller of the two, so that a transfer never asks for more than the receiving
/// pipe can accept.
pub fn apply_pipe_capacity(in_answer: i32, out_answer: i32) -> (bytes: usize)
    ensures
        ({
            let i = if in_answer < 0 {
                DEFAULT_SPLICE_PIPE_CAPACITY as int
            } else {
                in_answer as int
            };
            let o = if out_answer < 0 {
                DEFAULT_SPLICE_PIPE_CAPACITY as int
            } else {
                out_answer as int
            };
            bytes == if i < o {
                i
            } else {
                o
            }
        }),
{
    let in_actual = queried_pipe_size(in_answer);
    let out_actual = queried_pipe_size(out_answer);
    if in_actual < out_actual {
        in_actual
    } else {
        out_actual
    }
}

/// How a transfer through a pipe went: the bytes moved and the state of the
/// source, from what the kernel returned. No bytes mean that the source has
/// ended.
pub fn splice_result(outcome: Result<usize, IoErrorKind>) -> (r: (usize, SocketResult))
    ensures
        r == match outcome {
            Ok(n) => (n, if n == 0 {
                SocketResult::Closed
            } else {
                SocketResult::Continue
            }),
            Err(IoErrorKind::WouldBlock) => (0usize, SocketResult::WouldBlock),
            Err(_) => (0usize, SocketResult::Error),
        },
{
    match outcome {
        Ok(n) => {
            if n == 0 {
                (0, SocketResult::Closed)
            } else {
                (n, SocketResult::Continue)
            }
        },
        Err(IoErrorKind::WouldBlock) => (0, SocketResult::WouldBlock),
        Err(_) => (0, SocketResult::Error),
    }
}

/// What there is to do before bytes are moved out of a pipe: nothing when none
/// are pending.
pub fn splice_out_shortcut(len: usize) -> (r: Option<(usize, SocketResult)>)
    ensures
        len == 0 ==> r == Some((0usize, SocketResult::Continue)),
        len > 0 ==> r is None,
{
    if len == 0 {
        Some((0, SocketResult::Continue))
    } else {
        None
    }
}

} // verus!
