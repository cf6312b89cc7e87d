//! Socket statistics.
use vstd::prelude::*;

use crate::clock::Duration;

verus! {

/// What the Linux kernel tells of a TCP socket, as far as it is used.
#[derive(Clone, Copy, PartialEq, Eq, Structural, Debug)]
pub struct TcpInfo {
    pub tcpi_state: u8,
    /// The smoothed round trip time, in microseconds.
    pub tcpi_rtt: u32,
}

/// A snapshot of kernel TCP bookkeeping for a socket.
#[derive(Clone, Copy, Debug)]
pub struct TcpSnapshot {
    pub rtt: Duration,
    pub state: &'static str,
}

/// The name of a TCP state of Linux. The values follow
/// `include/net/tcp_states.h`.
pub open spec fn linux_tcp_state(state: u8) -> Seq<char> {
    match state {
        1 => "ESTABLISHED"@,
        2 => "SYN_SENT"@,
        3 => "SYN_RECV"@,
        4 => "FIN_WAIT1"@,
        5 => "FIN_WAIT2"@,
        6 => "TIME_WAIT"@,
        7 => "CLOSE"@,
        8 => "CLOSE_WAIT"@,
        9 => "LAST_ACK"@,
        10 => "LISTEN"@,
        11 => "CLOSING"@,
        12 => "NEW_SYN_RECV"@,
        _ => "UNKNOWN"@,
    }
}

impl TcpInfo {
    /// The round trip time, in microseconds.
    pub fn rtt(&self) -> (micros: u32)
        ensures
            micros == self.tcpi_rtt,
    {
        self.tcpi_rtt
    }

    /// The name of the socket's state. Anything unexpected is `"UNKNOWN"`: the
    /// name is only shown, so it must not add ways to fail.
    pub fn state(&self) -> (name: &'static str)
        ensures
            name@ == linux_tcp_state(self.tcpi_state),
    {
        match self.tcpi_state {
            1 => "ESTABLISHED",
            2 => "SYN_SENT",
            3 => "SYN_RECV",
            4 => "FIN_WAIT1",
            5 => "FIN_WAIT2",
            6 => "TIME_WAIT",
            7 => "CLOSE",
            8 => "CLOSE_WAIT",
            9 => "LAST_ACK",
            10 => "LISTEN",
            11 => "CLOSING",
            12 => "NEW_SYN_RECV",
            _ => "UNKNOWN",
        }
    }
}

/// Round trip time for a TCP socket, from what the kernel answered.
pub fn socket_rtt(info: Option<TcpInfo>) -> (rtt: Option<Duration>)
    ensures
        rtt is Some <==> info is Some,
        rtt matches Some(d) ==> d@ == info->0.tcpi_rtt * 1000,
{
    match info {
        Some(info) => Some(Duration::microseconds(info.rtt() as i64)),
        None => None,
    }
}

/// Round trip time and state of a TCP socket, from what the kernel answered.
pub fn socket_snapshot(info: Option<TcpInfo>) -> (snapshot: Option<TcpSnapshot>)
    ensures
        snapshot is Some <==> info is Some,
        snapshot matches Some(s) ==> s.rtt@ == info->0.tcpi_rtt * 1000 && s.state@
            == linux_tcp_state(info->0.tcpi_state),
{
    match info {
        Some(info) => Some(
            TcpSnapshot { rtt: Duration::microseconds(info.rtt() as i64), state: info.state() },
        ),
        None => None,
    }
}

/// Each state that the Linux kernel numbers has the kernel's name for it, and no
/// other number has any.
pub proof fn law_linux_states_have_their_names(state: u8)
    ensures
        state == 1 ==> linux_tcp_state(state) == "ESTABLISHED"@,
        state == 2 ==> linux_tcp_state(state) == "SYN_SENT"@,
        state == 3 ==> linux_tcp_state(state) == "SYN_RECV"@,
        state == 4 ==> linux_tcp_state(state) == "FIN_WAIT1"@,
        state == 5 ==> linux_tcp_state(state) == "FIN_WAIT2"@,
        state == 6 ==> linux_tcp_state(state) == "TIME_WAIT"@,
        state == 7 ==> linux_tcp_state(state) == "CLOSE"@,
        state == 8 ==> linux_tcp_state(state) == "CLOSE_WAIT"@,
        state == 9 ==> linux_tcp_state(state) == "LAST_ACK"@,
        state == 10 ==> linux_tcp_state(state) == "LISTEN"@,
        state == 11 ==> linux_tcp_state(state) == "CLOSING"@,
        state == 12 ==> linux_tcp_state(state) == "NEW_SYN_RECV"@,
        state == 0 || state > 12 ==> linux_tcp_state(state) == "UNKNOWN"@,
{
}

} // verus!
