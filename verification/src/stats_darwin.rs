//! Socket statistics as macOS counts them.
use vstd::prelude::*;

verus! {

/// What the Darwin kernel tells of a TCP socket, as far as it is used.
#[derive(Clone, Copy, PartialEq, Eq, Structural, Debug)]
pub struct TcpInfo {
    pub tcpi_state: u8,
    /// The smoothed round trip time, in milliseconds.
    pub tcpi_srtt: u32,
}

/// The name of a TCP state of Darwin. The values follow `netinet/tcp_fsm.h`,
/// which counts from 0 where Linux counts from 1.
pub open spec fn darwin_tcp_state(state: u8) -> Seq<char> {
    match state {
        0 => "CLOSED"@,
        1 => "LISTEN"@,
        2 => "SYN_SENT"@,
        3 => "SYN_RECEIVED"@,
        4 => "ESTABLISHED"@,
        5 => "CLOSE_WAIT"@,
        6 => "FIN_WAIT_1"@,
        7 => "CLOSING"@,
        8 => "LAST_ACK"@,
        9 => "FIN_WAIT_2"@,
        10 => "TIME_WAIT"@,
        _ => "UNKNOWN"@,
    }
}

impl TcpInfo {
    /// The round trip time, in microseconds.
    pub fn rtt(&self) -> (micros: u32)
        requires
            self.tcpi_srtt * 1000 <= u32::MAX,
        ensures
            micros == self.tcpi_srtt * 1000,
    {
        self.tcpi_srtt * 1000
    }

    /// The name of the socket's state.
    pub fn state(&self) -> (name: &'static str)
        ensures
            name@ == darwin_tcp_state(self.tcpi_state),
    {
        match self.tcpi_state {
            0 => "CLOSED",
            1 => "LISTEN",
            2 => "SYN_SENT",
            3 => "SYN_RECEIVED",
            4 => "ESTABLISHED",
            5 => "CLOSE_WAIT",
            6 => "FIN_WAIT_1",
            7 => "CLOSING",
            8 => "LAST_ACK",
            9 => "FIN_WAIT_2",
            10 => "TIME_WAIT",
            _ => "UNKNOWN",
        }
    }
}

/// Each state that the Darwin kernel numbers has the kernel's name for it, and no
/// other number has any.
pub proof fn law_darwin_states_have_their_names(state: u8)
    ensures
        state == 0 ==> darwin_tcp_state(state) == "CLOSED"@,
        state == 1 ==> darwin_tcp_state(state) == "LISTEN"@,
        state == 2 ==> darwin_tcp_state(state) == "SYN_SENT"@,
        state == 3 ==> darwin_tcp_state(state) == "SYN_RECEIVED"@,
        state == 4 ==> darwin_tcp_state(state) == "ESTABLISHED"@,
        state == 5 ==> darwin_tcp_state(state) == "CLOSE_WAIT"@,
        state == 6 ==> darwin_tcp_state(state) == "FIN_WAIT_1"@,
        state == 7 ==> darwin_tcp_state(state) == "CLOSING"@,
        state == 8 ==> darwin_tcp_state(state) == "LAST_ACK"@,
        state == 9 ==> darwin_tcp_state(state) == "FIN_WAIT_2"@,
        state == 10 ==> darwin_tcp_state(state) == "TIME_WAIT"@,
        state > 10 ==> darwin_tcp_state(state) == "UNKNOWN"@,
{
}

} // verus!
