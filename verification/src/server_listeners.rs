//! How the worker adds, activates, deactivates and removes listeners.
//!
//! A listener owns exactly one slot from when it is added until it is removed,
//! active or not. The token of that slot is what identifies the listener, so it
//! must never go to another session in between.
use vstd::prelude::*;

use crate::accept;
use crate::message::WorkerResponse;
use crate::net::SocketAddr;
use crate::server::{Listeners, Server};
use crate::session_manager::{ListenSession, ListenToken, Protocol, SessionSlot};
use crate::slots;
use crate::text;
use crate::Token;

verus! {

/// What a listener speaks.
#[derive(Copy, Clone, Debug, PartialEq, Eq, Structural)]
pub enum ListenerType {
    Http,
    Https,
    Tcp,
    Udp,
}

impl ListenerType {
    /// What the slot of such a listener is for.
    pub open spec fn protocol_spec(self) -> Protocol {
        match self {
            ListenerType::Http => Protocol::HTTPListen,
            ListenerType::Https => Protocol::HTTPSListen,
            ListenerType::Tcp => Protocol::TCPListen,
            ListenerType::Udp => Protocol::UDPListen,
        }
    }

    /// How such a listener is called.
    pub open spec fn label_spec(self) -> Seq<char> {
        match self {
            ListenerType::Http => "HTTP"@,
            ListenerType::Https => "HTTPS"@,
            ListenerType::Tcp => "TCP"@,
            ListenerType::Udp => "UDP"@,
        }
    }

    /// What the slot of such a listener is for.
    pub fn protocol(self) -> (protocol: Protocol)
        ensures
            protocol == self.protocol_spec(),
    {
        match self {
            ListenerType::Http => Protocol::HTTPListen,
            ListenerType::Https => Protocol::HTTPSListen,
            ListenerType::Tcp => Protocol::TCPListen,
            ListenerType::Udp => Protocol::UDPListen,
        }
    }

    /// How such a listener is called.
    pub fn label(self) -> (label: &'static str)
        ensures
            label@ == self.label_spec(),
    {
        match self {
            ListenerType::Http => "HTTP",
            ListenerType::Https => "HTTPS",
            ListenerType::Tcp => "TCP",
            ListenerType::Udp => "UDP",
        }
    }

    /// How a refusal to deactivate such a listener begins.
    pub open spec fn deactivation_prefix(self) -> Seq<char> {
        match self {
            ListenerType::Http | ListenerType::Https => "Couldn't deactivate "@,
            ListenerType::Tcp | ListenerType::Udp => "Could not deactivate "@,
        }
    }

    fn deactivation_words(self) -> (words: &'static str)
        ensures
            words@ == self.deactivation_prefix(),
    {
        match self {
            ListenerType::Http => "Couldn't deactivate ",
            ListenerType::Https => "Couldn't deactivate ",
            ListenerType::Tcp => "Could not deactivate ",
            ListenerType::Udp => "Could not deactivate ",
        }
    }
}

/// What becomes of a listening socket that a retiring worker handed over.
#[derive(Copy, Clone, Debug, PartialEq, Eq, Structural)]
pub enum InheritedSocketFate {
    /// The listener at its address takes it.
    Adopted,
    /// The listener at its address is active on a socket of its own: it is
    /// closed.
    Refused,
    /// There is no listener at its address yet: it is kept for one.
    Unclaimed,
}

/// What becomes of an inherited socket, from whether there is a listener at its
/// address, and whether that is active.
pub fn inherited_socket_fate(listener_active: Option<bool>) -> (fate: InheritedSocketFate)
    ensures
        fate == match listener_active {
            None => InheritedSocketFate::Unclaimed,
            Some(true) => InheritedSocketFate::Refused,
            Some(false) => InheritedSocketFate::Adopted,
        },
{
    match listener_active {
        None => InheritedSocketFate::Unclaimed,
        Some(active) => {
            if active {
                InheritedSocketFate::Refused
            } else {
                InheritedSocketFate::Adopted
            }
        },
    }
}

/// The first entry for an address.
pub open spec fn entry_for(table: Seq<(SocketAddr, i32)>, address: SocketAddr) -> Option<int>
    decreases table.len(),
{
    if table.len() == 0 {
        None
    } else {
        match entry_for(table.drop_last(), address) {
            Some(i) => Some(i),
            None => if table.last().0 == address {
                Some(table.len() - 1)
            } else {
                None
            },
        }
    }
}

/// The first entry for an address is one for the address, and none before it is.
pub proof fn lemma_entry_for(table: Seq<(SocketAddr, i32)>, address: SocketAddr)
    ensures
        entry_for(table, address) matches Some(i) ==> 0 <= i < table.len() && table[i].0 == address
            && forall|j: int| 0 <= j < i ==> (#[trigger] table[j]).0 != address,
        entry_for(table, address) is None ==> forall|j: int|
            0 <= j < table.len() ==> (#[trigger] table[j]).0 != address,
    decreases table.len(),
{
    if table.len() > 0 {
        let front = table.drop_last();
        lemma_entry_for(front, address);
        assert forall|j: int| 0 <= j < front.len() implies #[trigger] table[j] == front[j] by {}
    }
}

/// Takes the first socket for an address out of a table.
fn take_entry(table: &mut Vec<(SocketAddr, i32)>, address: SocketAddr) -> (fd: Option<i32>)
    ensures
        fd == match entry_for(old(table)@, address) {
            Some(i) => Some(old(table)@[i].1),
            None => None,
        },
        final(table)@ == match entry_for(old(table)@, address) {
            Some(i) => old(table)@.remove(i),
            None => old(table)@,
        },
{
    proof {
        lemma_entry_for(table@, address);
    }
    let mut i: usize = 0;
    while i < table.len()
        invariant
            i <= table@.len(),
            *table == *old(table),
            entry_for(table@, address) matches Some(k) ==> 0 <= k < table@.len() && table@[k].0
                == address && forall|j: int| 0 <= j < k ==> (#[trigger] table@[j]).0 != address,
            entry_for(table@, address) is None ==> forall|j: int|
                0 <= j < table@.len() ==> (#[trigger] table@[j]).0 != address,
            forall|j: int| 0 <= j < i ==> (#[trigger] table@[j]).0 != address,
        decreases table@.len() - i,
    {
        if table[i].0 == address {
            let entry = table.remove(i);
            return Some(entry.1);
        }
        i += 1;
    }
    None
}

/// An inherited socket that no listener took.
#[derive(Copy, Clone, Debug, PartialEq, Eq, Structural)]
pub struct UnclaimedSocket {
    pub kind: ListenerType,
    pub address: SocketAddr,
    pub fd: i32,
    /// Whether there is a listener for the address, which may still take it.
    pub has_listener: bool,
}

/// The sockets of one kind that no listener took.
pub open spec fn unclaimed(
    table: Seq<(SocketAddr, i32)>,
    kind: ListenerType,
    known: Seq<(ListenerType, SocketAddr)>,
) -> Seq<UnclaimedSocket> {
    Seq::new(
        table.len(),
        |i: int|
            UnclaimedSocket {
                kind,
                address: table[i].0,
                fd: table[i].1,
                has_listener: known.contains((kind, table[i].0)),
            },
    )
}

fn push_unclaimed(
    left: &mut Vec<UnclaimedSocket>,
    table: &Vec<(SocketAddr, i32)>,
    kind: ListenerType,
    known: &Vec<(ListenerType, SocketAddr)>,
)
    ensures
        final(left)@ == old(left)@ + unclaimed(table@, kind, known@),
{
    let ghost before = left@;
    let mut i: usize = 0;
    while i < table.len()
        invariant
            i <= table@.len(),
            left@.len() == before.len() + i,
            left@ == before + unclaimed(table@, kind, known@).take(i as int),
        decreases table@.len() - i,
    {
        let (address, fd) = table[i];
        let mut has_listener = false;
        let mut j: usize = 0;
        while j < known.len()
            invariant
                j <= known@.len(),
                has_listener == known@.take(j as int).contains((kind, address)),
            decreases known@.len() - j,
        {
            proof {
                let before = known@.take(j as int);
                let after = known@.take(j + 1);
                assert(after == before.push(known@[j as int]));
                if before.contains((kind, address)) {
                    let k = choose|k: int| 0 <= k < before.len() && before[k] == (kind, address);
                    assert(after[k] == (kind, address));
                }
                if after.contains((kind, address)) {
                    let k = choose|k: int| 0 <= k < after.len() && after[k] == (kind, address);
                    if k < j {
                        assert(before[k] == (kind, address));
                    }
                }
                if known@[j as int] == (kind, address) {
                    assert(after[j as int] == (kind, address));
                }
            }
            if known[j].0 == kind && known[j].1 == address {
                has_listener = true;
            }
            j += 1;
        }
        assert(known@.take(known@.len() as int) =~= known@);
        left.push(UnclaimedSocket { kind, address, fd, has_listener });
        i += 1;
    }
    assert(unclaimed(table@, kind, known@).take(table@.len() as int) =~= unclaimed(
        table@,
        kind,
        known@,
    ));
}

impl Listeners {
    /// No sockets.
    pub fn none() -> (l: Listeners)
        ensures
            l.http@.len() == 0,
            l.tls@.len() == 0,
            l.tcp@.len() == 0,
            l.udp@.len() == 0,
    {
        Listeners { http: Vec::new(), tls: Vec::new(), tcp: Vec::new(), udp: Vec::new() }
    }

    /// The sockets of one kind of listener.
    pub open spec fn table(self, kind: ListenerType) -> Seq<(SocketAddr, i32)> {
        match kind {
            ListenerType::Http => self.http@,
            ListenerType::Https => self.tls@,
            ListenerType::Tcp => self.tcp@,
            ListenerType::Udp => self.udp@,
        }
    }

    /// One socket of one kind of listener, as it is handed over.
    pub fn single(kind: ListenerType, address: SocketAddr, fd: i32) -> (l: Listeners)
        ensures
            forall|k: ListenerType| #[trigger]
                l.table(k) == if k == kind {
                    seq![(address, fd)]
                } else {
                    Seq::empty()
                },
    {
        let mut l = Listeners::none();
        match kind {
            ListenerType::Http => {
                l.http.push((address, fd));
            },
            ListenerType::Https => {
                l.tls.push((address, fd));
            },
            ListenerType::Tcp => {
                l.tcp.push((address, fd));
            },
            ListenerType::Udp => {
                l.udp.push((address, fd));
            },
        }
        assert forall|k: ListenerType| #[trigger] l.table(k) == if k == kind {
            seq![(address, fd)]
        } else {
            Seq::empty()
        } by {
            assert(l.table(k) =~= if k == kind {
                seq![(address, fd)]
            } else {
                Seq::empty()
            });
        }
        l
    }

    /// Takes the first socket for an address.
    pub fn take(&mut self, kind: ListenerType, address: SocketAddr) -> (fd: Option<i32>)
        ensures
            fd == match entry_for(old(self).table(kind), address) {
                Some(i) => Some(old(self).table(kind)[i].1),
                None => None,
            },
            final(self).table(kind) == match entry_for(old(self).table(kind), address) {
                Some(i) => old(self).table(kind).remove(i),
                None => old(self).table(kind),
            },
            forall|k: ListenerType| k != kind ==> #[trigger] final(self).table(k) == old(self).table(
                k,
            ),
    {
        match kind {
            ListenerType::Http => take_entry(&mut self.http, address),
            ListenerType::Https => take_entry(&mut self.tls, address),
            ListenerType::Tcp => take_entry(&mut self.tcp, address),
            ListenerType::Udp => take_entry(&mut self.udp, address),
        }
    }
}

/// What becomes of the inherited sockets of an address when its listener is
/// activated.
#[derive(Copy, Clone, Debug, PartialEq, Eq)]
pub struct InheritedSocket {
    /// The listener takes this one.
    pub adopted: Option<i32>,
    /// This one is to be closed.
    pub discarded: Option<i32>,
}

/// What activating a listener leads to.
#[derive(Debug)]
pub struct Activation {
    pub response: WorkerResponse,
    /// A listener whose connections are to be accepted at once: an inherited
    /// socket may have some waiting.
    pub accept: Option<(ListenToken, Protocol)>,
}

impl Server {
    /// The sockets of one kind that were handed over and are still there.
    pub open spec fn inherited(self, kind: ListenerType) -> Seq<(SocketAddr, i32)> {
        match self.scm_listeners {
            Some(l) => l.table(kind),
            None => Seq::empty(),
        }
    }

    /// Only the sessions and the listeners to accept from differ.
    pub open spec fn same_but_sessions(self, other: Self) -> bool {
        self == (Server {
            sessions: self.sessions,
            accept_ready: self.accept_ready,
            ..other
        })
    }

    /// Gives a new listener its slot. Fails when the slots are used up.
    pub fn begin_add_listener(&mut self, id: &String, kind: ListenerType) -> (r: Result<
        Token,
        WorkerResponse,
    >)
        requires
            old(self).wf(),
            old(self).sessions.sessions().dom().len() < slots::slab_growth_limit(),
        ensures
            final(self).wf(),
            *final(self) == (Server { sessions: final(self).sessions, ..*old(self) }),
            r is Err <==> old(self).sessions.full(),
            r matches Ok(token) ==> begins_listener(*old(self), kind, token, *final(self)),
            r matches Err(e) ==> final(self).sessions == old(self).sessions && e.is_error_for(
                id@,
                "session list is full, cannot add a listener"@,
            ),
            r matches Ok(token) ==> {
                &&& !old(self).sessions.sessions().dom().contains(token.0)
                &&& final(self).sessions.same_limits(old(self).sessions)
                &&& final(self).sessions.sessions() == old(self).sessions.sessions().insert(
                    token.0,
                    (ListenSession { protocol: kind.protocol_spec() }).slot_spec(),
                )
            },
    {
        if self.sessions.at_capacity() {
            return Err(
                WorkerResponse::error(
                    id,
                    String::from_str("session list is full, cannot add a listener"),
                ),
            );
        }
        Ok(self.sessions.insert((ListenSession { protocol: kind.protocol() }).slot()))
    }

    /// Takes in whether the listener could be added: if not, its slot is freed
    /// again.
    pub fn finish_add_listener(
        &mut self,
        id: &String,
        kind: ListenerType,
        token: Token,
        outcome: Result<(), String>,
    ) -> (response: WorkerResponse)
        requires
            old(self).wf(),
            old(self).base_sessions_count < usize::MAX,
        ensures
            final(self).wf(),
            outcome is Ok ==> response.is_ok_for(id@) && *final(self) == (Server {
                base_sessions_count: (old(self).base_sessions_count + 1) as usize,
                ..*old(self)
            }) && finishes_listener(*old(self), *final(self)),
            outcome matches Err(e) ==> {
                &&& response.is_error_for(
                    id@,
                    "Could not add "@ + kind.label_spec() + " listener: "@ + e@,
                )
                &&& *final(self) == (Server { sessions: final(self).sessions, ..*old(self) })
                &&& final(self).sessions.same_limits(old(self).sessions)
                &&& final(self).sessions.sessions() == old(self).sessions.sessions().remove(token.0)
            },
    {
        match outcome {
            Ok(()) => {
                self.base_sessions_count = self.base_sessions_count + 1;
                WorkerResponse::ok(id)
            },
            Err(e) => {
                let _ = self.sessions.remove(token);
                let mut reason = text::concat3("Could not add ", kind.label(), " listener: ");
                reason.append(e.as_str());
                WorkerResponse::error(id, reason)
            },
        }
    }

    /// The answer to a request to change a listener.
    pub fn update_listener_response(
        id: &String,
        kind: ListenerType,
        outcome: Result<(), String>,
    ) -> (response: WorkerResponse)
        ensures
            outcome is Ok ==> response.is_ok_for(id@),
            outcome matches Err(e) ==> response.is_error_for(
                id@,
                "Could not update "@ + kind.label_spec() + " listener: "@ + e@,
            ),
    {
        match outcome {
            Ok(()) => WorkerResponse::ok(id),
            Err(e) => {
                let mut reason = text::concat3("Could not update ", kind.label(), " listener: ");
                reason.append(e.as_str());
                WorkerResponse::error(id, reason)
            },
        }
    }

    /// Puts the inert session back into the slot of a listener, so that the
    /// slot stays the listener's while it is not active. `false` if there is
    /// no such slot.
    pub fn reserve_listen_token(&mut self, token: Token, protocol: Protocol) -> (reserved: bool)
        requires
            old(self).wf(),
        ensures
            final(self).wf(),
            *final(self) == (Server { sessions: final(self).sessions, ..*old(self) }),
            final(self).sessions.same_limits(old(self).sessions),
            reserved == old(self).sessions.sessions().dom().contains(token.0),
            final(self).sessions.sessions() == if reserved {
                old(self).sessions.sessions().insert(
                    token.0,
                    (ListenSession { protocol }).slot_spec(),
                )
            } else {
                old(self).sessions.sessions()
            },
    {
        self.sessions.replace(token, (ListenSession { protocol }).slot())
    }

    /// Decides what becomes of the inherited socket of an address whose
    /// listener is activated. One without a listener stays where it is.
    pub fn begin_activation(
        &mut self,
        kind: ListenerType,
        address: SocketAddr,
        fate: InheritedSocketFate,
    ) -> (socket: InheritedSocket)
        requires
            old(self).wf(),
        ensures
            final(self).wf(),
            *final(self) == (Server { scm_listeners: final(self).scm_listeners, ..*old(self) }),
            forall|token: Token| #[trigger] keeps_listener(*old(self), token, *final(self)),
            ({
                let found = match entry_for(old(self).inherited(kind), address) {
                    Some(i) => Some(old(self).inherited(kind)[i].1),
                    None => None,
                };
                &&& socket.adopted == if fate is Adopted {
                    found
                } else {
                    None
                }
                &&& socket.discarded == if fate is Refused {
                    found
                } else {
                    None
                }
            }),
            final(self).inherited(kind) == match entry_for(old(self).inherited(kind), address) {
                Some(i) if !(fate is Unclaimed) => old(self).inherited(kind).remove(i),
                _ => old(self).inherited(kind),
            },
            forall|k: ListenerType| k != kind ==> #[trigger] final(self).inherited(k) == old(self).inherited(k),
    {
        let found = if fate == InheritedSocketFate::Unclaimed {
            None
        } else {
            let mut tables = self.scm_listeners.take();
            let ghost before = tables;
            let found = match &mut tables {
                Some(listeners) => listeners.take(kind, address),
                None => None,
            };
            self.scm_listeners = tables;
            found
        };
        match fate {
            InheritedSocketFate::Adopted => InheritedSocket { adopted: found, discarded: None },
            InheritedSocketFate::Refused => InheritedSocket { adopted: None, discarded: found },
            InheritedSocketFate::Unclaimed => InheritedSocket { adopted: None, discarded: None },
        }
    }

    /// Takes in whether a listener that accepts connections was activated: if
    /// so, its connections are accepted at once.
    pub fn finish_activation(
        &self,
        id: &String,
        kind: ListenerType,
        outcome: Result<Token, String>,
    ) -> (activation: Activation)
        requires
            !(kind is Udp),
        ensures
            outcome matches Ok(token) ==> activation.response.is_ok_for(id@) && activation.accept
                == Some((ListenToken(token.0), kind.protocol_spec())),
            outcome matches Err(e) ==> activation.accept is None
                && activation.response.is_error_for(
                id@,
                "Could not activate "@ + kind.label_spec() + " listener: "@ + e@,
            ),
    {
        match outcome {
            Ok(token) => Activation {
                response: WorkerResponse::ok(id),
                accept: Some((ListenToken(token.0), kind.protocol())),
            },
            Err(e) => Activation { response: Self::activation_error(id, kind, e), accept: None },
        }
    }

    fn activation_error(id: &String, kind: ListenerType, error: String) -> (response: WorkerResponse)
        ensures
            response.is_error_for(
                id@,
                "Could not activate "@ + kind.label_spec() + " listener: "@ + error@,
            ),
    {
        let mut reason = text::concat3("Could not activate ", kind.label(), " listener: ");
        reason.append(error.as_str());
        WorkerResponse::error(id, reason)
    }

    /// Whether a UDP listener that is active needs its session built. One that
    /// has its session already keeps it: building it anew would strand the
    /// flows that it carries.
    pub fn udp_session_missing(&self, token: Token, has_session: bool) -> (missing: bool)
        ensures
            missing == !(has_session && self.sessions.sessions().dom().contains(token.0)),
    {
        !(has_session && self.sessions.contains(token))
    }

    /// Takes in whether a UDP listener was activated. `has_session` tells
    /// whether it has its session already, and `built` is the slot of the
    /// session that was built for it otherwise. `address` is how its address
    /// is shown.
    pub fn finish_udp_activation(
        &mut self,
        id: &String,
        address: &String,
        outcome: Result<Token, String>,
        has_session: bool,
        built: Option<SessionSlot>,
    ) -> (response: WorkerResponse)
        requires
            old(self).wf(),
        ensures
            final(self).wf(),
            *final(self) == (Server { sessions: final(self).sessions, ..*old(self) }),
            outcome matches Ok(token) ==> keeps_listener(*old(self), token, *final(self)),
            outcome matches Err(e) ==> final(self).sessions == old(self).sessions
                && response.is_error_for(id@, "Could not activate UDP listener: "@ + e@),
            outcome matches Ok(token) ==> {
                let slot_there = old(self).sessions.sessions().dom().contains(token.0);
                let missing = !(has_session && slot_there);
                &&& !missing ==> response.is_ok_for(id@) && final(self).sessions == old(self).sessions
                &&& missing && built is None ==> final(self).sessions == old(self).sessions
                    && response.is_error_for(
                    id@,
                    "Could not build the UDP listener session for "@ + address@,
                )
                &&& missing && built is Some && !slot_there ==> final(self).sessions.sessions() == old(self).sessions.sessions() && response.is_error_for(
                    id@,
                    "UDP listener "@ + address@ + " has no session slot at Token("@
                        + text::decimal_text(token.0 as int) + ")"@,
                )
                &&& missing && built is Some && slot_there ==> response.is_ok_for(id@) && final(self).sessions.same_limits(old(self).sessions) && final(self).sessions.sessions()
                    == old(self).sessions.sessions().insert(token.0, built->0)
            },
    {
        let token = match outcome {
            Ok(token) => token,
            Err(e) => {
                let response = Self::activation_error(id, ListenerType::Udp, e);
                proof {
                    reveal_strlit("Could not activate ");
                    reveal_strlit("UDP");
                    reveal_strlit(" listener: ");
                    reveal_strlit("Could not activate UDP listener: ");
                    assert("Could not activate "@ + "UDP"@ + " listener: "@
                        =~= "Could not activate UDP listener: "@);
                }
                return response;
            },
        };
        if !self.udp_session_missing(token, has_session) {
            return WorkerResponse::ok(id);
        }
        let session = match built {
            Some(session) => session,
            None => {
                let reason = text::concat2(
                    "Could not build the UDP listener session for ",
                    address.as_str(),
                );
                return WorkerResponse::error(id, reason);
            },
        };
        let replaced = self.sessions.replace(token, session);
        assert(self.sessions.sessions().dom() =~= old(self).sessions.sessions().dom());
        if replaced {
            WorkerResponse::ok(id)
        } else {
            let mut reason = text::concat3(
                "UDP listener ",
                address.as_str(),
                " has no session slot at Token(",
            );
            reason.append(text::decimal(token.0 as u64).as_str());
            reason.append(")");
            WorkerResponse::error(id, reason)
        }
    }

    /// Takes in whether a listener was deactivated. Its slot stays its own,
    /// with the inert session, and it is not accepted from anymore: it has given
    /// its socket back. `address` is how its address is shown.
    pub fn finish_deactivation(
        &mut self,
        id: &String,
        kind: ListenerType,
        address: &String,
        outcome: Result<Token, String>,
    ) -> (response: WorkerResponse)
        requires
            old(self).wf(),
        ensures
            final(self).wf(),
            final(self).same_but_sessions(*old(self)),
            outcome matches Ok(token) ==> {
                &&& response.is_ok_for(id@)
                &&& keeps_listener(*old(self), token, *final(self))
                &&& final(self).accept_ready@ == accept::drop_token(
                    old(self).accept_ready@,
                    token.0,
                )
                &&& !final(self).waiting(token.0)
                &&& final(self).sessions.same_limits(old(self).sessions)
                &&& final(self).sessions.sessions() == if old(self).sessions.sessions().dom().contains(token.0) {
                    old(self).sessions.sessions().insert(
                        token.0,
                        (ListenSession { protocol: kind.protocol_spec() }).slot_spec(),
                    )
                } else {
                    old(self).sessions.sessions()
                }
            },
            outcome matches Err(e) ==> *final(self) == *old(self) && response.is_error_for(
                id@,
                kind.deactivation_prefix() + kind.label_spec() + " listener at address "@ + address@
                    + ": "@ + e@,
            ),
    {
        match outcome {
            Ok(token) => {
                let _ = self.reserve_listen_token(token, kind.protocol());
                assert(self.sessions.sessions().dom() =~= old(self).sessions.sessions().dom());
                self.drop_accept_ready(ListenToken(token.0));
                WorkerResponse::ok(id)
            },
            Err(e) => {
                let mut reason = text::concat3(
                    kind.deactivation_words(),
                    kind.label(),
                    " listener at address ",
                );
                reason.append(address.as_str());
                reason.append(": ");
                reason.append(e.as_str());
                WorkerResponse::error(id, reason)
            },
        }
    }

    /// The inherited sockets that no listener took, and for each whether a
    /// listener may still take it: `known` are the addresses of the listeners.
    /// A socket without a listener takes connections that nothing accepts.
    pub fn unclaimed_inherited_sockets(&self, known: &Vec<(ListenerType, SocketAddr)>) -> (left:
        Vec<UnclaimedSocket>)
        ensures
            left@ == match self.scm_listeners {
                Some(l) => unclaimed(l.table(ListenerType::Http), ListenerType::Http, known@)
                    + unclaimed(l.table(ListenerType::Https), ListenerType::Https, known@)
                    + unclaimed(l.table(ListenerType::Tcp), ListenerType::Tcp, known@) + unclaimed(
                    l.table(ListenerType::Udp),
                    ListenerType::Udp,
                    known@,
                ),
                None => Seq::empty(),
            },
    {
        let mut left: Vec<UnclaimedSocket> = Vec::new();
        if let Some(l) = &self.scm_listeners {
            push_unclaimed(&mut left, &l.http, ListenerType::Http, known);
            push_unclaimed(&mut left, &l.tls, ListenerType::Https, known);
            push_unclaimed(&mut left, &l.tcp, ListenerType::Tcp, known);
            push_unclaimed(&mut left, &l.udp, ListenerType::Udp, known);
        }
        left
    }

    /// Frees the slot of a listener that is removed, and forgets that it may
    /// have connections to accept. `token` is that of the listener, if there was
    /// one.
    pub fn release_listener(&mut self, token: Option<Token>)
        requires
            old(self).wf(),
            old(self).base_sessions_count > 0,
        ensures
            final(self).wf(),
            *final(self) == (Server {
                base_sessions_count: (old(self).base_sessions_count - 1) as usize,
                sessions: final(self).sessions,
                accept_ready: final(self).accept_ready,
                ..*old(self)
            }),
            token is None ==> final(self).sessions == old(self).sessions
                && final(self).accept_ready == old(self).accept_ready,
            token matches Some(t) ==> {
                &&& removes_listener(*old(self), t, *final(self))
                &&& final(self).sessions.same_limits(old(self).sessions)
                &&& final(self).sessions.sessions() == old(self).sessions.sessions().remove(t.0)
                &&& final(self).accept_ready@ == accept::drop_token(old(self).accept_ready@, t.0)
                &&& !final(self).waiting(t.0)
            },
    {
        self.base_sessions_count = self.base_sessions_count - 1;
        if let Some(token) = token {
            let _ = self.sessions.remove(token);
            self.drop_accept_ready(ListenToken(token.0));
        }
    }
}

/// What a worker is after a listener got its slot.
pub open spec fn begins_listener(
    before: Server,
    kind: ListenerType,
    token: Token,
    after: Server,
) -> bool {
    &&& !before.sessions.sessions().dom().contains(token.0)
    &&& after.sessions.same_limits(before.sessions)
    &&& after.sessions.sessions() == before.sessions.sessions().insert(
        token.0,
        (ListenSession { protocol: kind.protocol_spec() }).slot_spec(),
    )
    &&& after.base_sessions_count == before.base_sessions_count
}

/// What a worker is once a listener that got its slot was added.
pub open spec fn finishes_listener(before: Server, after: Server) -> bool {
    &&& after.sessions == before.sessions
    &&& after.base_sessions_count == before.base_sessions_count + 1
}

/// What a worker is after a listener was activated or deactivated: only its own
/// slot may hold something else, and it may be noted or not for accepting.
pub open spec fn keeps_listener(before: Server, token: Token, after: Server) -> bool {
    &&& after.sessions.same_limits(before.sessions)
    &&& after.sessions.sessions().dom() == before.sessions.sessions().dom()
    &&& forall|k: usize| #[trigger]
        before.sessions.sessions().dom().contains(k) && k != token.0
            ==> after.sessions.sessions()[k] == before.sessions.sessions()[k]
    &&& after.base_sessions_count == before.base_sessions_count
}

/// What a worker is after a listener was removed.
pub open spec fn removes_listener(before: Server, token: Token, after: Server) -> bool {
    &&& after.sessions.same_limits(before.sessions)
    &&& after.sessions.sessions() == before.sessions.sessions().remove(token.0)
    &&& after.base_sessions_count == before.base_sessions_count - 1
    &&& !after.waiting(token.0)
}

/// Adding a listener and removing it again leaves the slots, their limits and
/// the number of those that are not clients' as they were, whatever activations
/// and deactivations of it lie in between: `states` are those that the worker
/// goes through. Nor is the listener noted for accepting afterwards.
pub proof fn law_remove_undoes_add(
    before: Server,
    kind: ListenerType,
    token: Token,
    begun: Server,
    states: Seq<Server>,
    removed: Server,
)
    requires
        begins_listener(before, kind, token, begun),
        states.len() > 0,
        finishes_listener(begun, states[0]),
        forall|i: int|
            #![trigger states[i]]
            0 < i < states.len() ==> keeps_listener(states[i - 1], token, states[i]),
        removes_listener(states.last(), token, removed),
    ensures
        removed.sessions.sessions() == before.sessions.sessions(),
        !removed.sessions.sessions().dom().contains(token.0),
        removed.sessions.sessions().dom().len() == before.sessions.sessions().dom().len(),
        removed.sessions.same_limits(before.sessions),
        removed.base_sessions_count == before.base_sessions_count,
        !removed.waiting(token.0),
{
    lemma_listener_kept(token, states, states.len() - 1);
    assert(states[states.len() - 1] == states.last());
    let slots = before.sessions.sessions();
    assert forall|k: usize| #[trigger]
        removed.sessions.sessions().dom().contains(k) implies slots.dom().contains(k)
        && removed.sessions.sessions()[k] == slots[k] by {
        assert(states[0].sessions.sessions().dom().contains(k));
    }
    assert(removed.sessions.sessions() =~= slots) by {
        assert forall|k: usize| #[trigger] slots.dom().contains(k) implies (
        #[trigger] removed.sessions.sessions()).dom().contains(k) by {
            assert(states[0].sessions.sessions().dom().contains(k));
        }
    }
}

/// Any number of activations and deactivations keep the slots of a worker, but
/// for what is in that of the listener.
proof fn lemma_listener_kept(token: Token, states: Seq<Server>, n: int)
    requires
        0 <= n < states.len(),
        forall|i: int|
            #![trigger states[i]]
            0 < i < states.len() ==> keeps_listener(states[i - 1], token, states[i]),
    ensures
        keeps_listener(states[0], token, states[n]),
    decreases n,
{
    if n > 0 {
        lemma_listener_kept(token, states, n - 1);
        assert(keeps_listener(states[n - 1], token, states[n]));
        assert forall|k: usize| #[trigger]
            states[0].sessions.sessions().dom().contains(k) && k
                != token.0 implies states[n].sessions.sessions()[k]
            == states[0].sessions.sessions()[k] by {
            assert(states[n - 1].sessions.sessions().dom().contains(k));
        }
    }
}

/// Deactivating a listener that is inactive, or was never activated, leaves its
/// slot as it is; and no session that is created while it is inactive can get
/// its token.
pub proof fn law_deactivated_listener_keeps_its_token(
    before: Map<usize, SessionSlot>,
    token: Token,
    kind: ListenerType,
    other: Token,
)
    requires
        before.dom().contains(token.0),
    ensures
        ({
            let after = before.insert(
                token.0,
                (ListenSession { protocol: kind.protocol_spec() }).slot_spec(),
            );
            &&& after.dom() == before.dom()
            &&& after.dom().contains(token.0)
            &&& !after.dom().contains(other.0) ==> other != token
        }),
{
    assert(before.insert(
        token.0,
        (ListenSession { protocol: kind.protocol_spec() }).slot_spec(),
    ).dom() =~= before.dom());
}

/// Each kind of listener has a kind of slot of its own, and a name of its own.
pub proof fn law_each_kind_of_listener_has_its_slot(kind: ListenerType)
    ensures
        kind is Http <==> kind.protocol_spec() is HTTPListen,
        kind is Https <==> kind.protocol_spec() is HTTPSListen,
        kind is Tcp <==> kind.protocol_spec() is TCPListen,
        kind is Udp <==> kind.protocol_spec() is UDPListen,
        kind is Http ==> kind.label_spec() == "HTTP"@,
        kind is Https ==> kind.label_spec() == "HTTPS"@,
        kind is Tcp ==> kind.label_spec() == "TCP"@,
        kind is Udp ==> kind.label_spec() == "UDP"@,
{
}

/// The socket that is found for an address is the first one of that address, and
/// one is found if there is any.
pub proof fn law_the_first_socket_of_an_address_is_found(
    table: Seq<(SocketAddr, i32)>,
    address: SocketAddr,
)
    ensures
        match entry_for(table, address) {
            Some(i) => {
                &&& 0 <= i < table.len()
                &&& table[i].0 == address
                &&& forall|j: int| 0 <= j < i ==> (#[trigger] table[j]).0 != address
            },
            None => forall|j: int| 0 <= j < table.len() ==> (#[trigger] table[j]).0 != address,
        },
    decreases table.len(),
{
    if table.len() > 0 {
        let front = table.drop_last();
        law_the_first_socket_of_an_address_is_found(front, address);
        assert forall|j: int| 0 <= j < front.len() implies #[trigger] table[j] == front[j] by {}
        assert(table[table.len() - 1] == table.last());
    }
}

/// Each kind of listener has sockets of its own to inherit.
pub proof fn law_each_kind_inherits_its_own(listeners: Listeners, server: Server)
    ensures
        listeners.table(ListenerType::Http) == listeners.http@,
        listeners.table(ListenerType::Https) == listeners.tls@,
        listeners.table(ListenerType::Tcp) == listeners.tcp@,
        listeners.table(ListenerType::Udp) == listeners.udp@,
        server.scm_listeners is None ==> forall|kind: ListenerType|
            (#[trigger] server.inherited(kind)).len() == 0,
        server.scm_listeners matches Some(l) ==> forall|kind: ListenerType| #[trigger]
            server.inherited(kind) == l.table(kind),
{
}

/// Every socket that was left is told of, in its order, with its kind and its
/// address, and whether there is a listener for it.
pub proof fn law_every_socket_that_is_left_is_told_of(
    table: Seq<(SocketAddr, i32)>,
    kind: ListenerType,
    known: Seq<(ListenerType, SocketAddr)>,
    i: int,
)
    requires
        0 <= i < table.len(),
    ensures
        ({
            let left = unclaimed(table, kind, known);
            &&& left.len() == table.len()
            &&& left[i].kind == kind
            &&& left[i].address == table[i].0
            &&& left[i].fd == table[i].1
            &&& left[i].has_listener <==> exists|j: int|
                0 <= j < known.len() && #[trigger] known[j] == (kind, table[i].0)
        }),
{
    let left = unclaimed(table, kind, known);
    if left[i].has_listener {
        let j = known.index_of((kind, table[i].0));
        assert(known[j] == (kind, table[i].0));
    }
}

/// Beginning to add a listener takes a free slot of its kind, which never falls
/// idle, and no other; finishing counts it as the worker's own; and removing it
/// frees the slot and counts it no longer.
pub proof fn law_a_listener_has_one_slot_of_its_own(
    before: Server,
    kind: ListenerType,
    token: Token,
    after: Server,
    key: usize,
)
    requires
        key != token.0,
    ensures
        begins_listener(before, kind, token, after) ==> {
            let slots = after.sessions.sessions();
            &&& !before.sessions.sessions().dom().contains(token.0)
            &&& slots.dom().contains(token.0)
            &&& slots[token.0].protocol == kind.protocol_spec()
            &&& slots[token.0].last_event == u64::MAX
            &&& slots.dom().contains(key) <==> before.sessions.sessions().dom().contains(key)
            &&& slots.dom().contains(key) ==> slots[key] == before.sessions.sessions()[key]
            &&& after.base_sessions_count == before.base_sessions_count
            &&& after.sessions.nb_connections == before.sessions.nb_connections
        },
        finishes_listener(before, after) ==> {
            &&& after.sessions == before.sessions
            &&& after.base_sessions_count == before.base_sessions_count + 1
        },
        keeps_listener(before, token, after) ==> {
            let slots = after.sessions.sessions();
            &&& slots.dom() == before.sessions.sessions().dom()
            &&& slots.dom().contains(key) ==> slots[key] == before.sessions.sessions()[key]
            &&& after.base_sessions_count == before.base_sessions_count
        },
        removes_listener(before, token, after) ==> {
            let slots = after.sessions.sessions();
            &&& !slots.dom().contains(token.0)
            &&& slots.dom().contains(key) <==> before.sessions.sessions().dom().contains(key)
            &&& slots.dom().contains(key) ==> slots[key] == before.sessions.sessions()[key]
            &&& after.base_sessions_count == before.base_sessions_count - 1
            &&& after.sessions.nb_connections == before.sessions.nb_connections
            &&& !after.accept_ready@.contains(token.0)
        },
{
}

/// What stays of a worker when only its slots and the listeners that wait change.
pub proof fn law_the_rest_of_a_worker_stays(after: Server, before: Server)
    requires
        after.same_but_sessions(before),
    ensures
        after.accept_queue == before.accept_queue,
        after.accept_queue_timeout == before.accept_queue_timeout,
        after.evict_on_queue_full == before.evict_on_queue_full,
        after.base_sessions_count == before.base_sessions_count,
        after.current_poll_errors == before.current_poll_errors,
        after.last_sessions_len == before.last_sessions_len,
        after.last_zombie_check == before.last_zombie_check,
        after.zombie_check_interval == before.zombie_check_interval,
        after.poll_timeout == before.poll_timeout,
        after.should_poll_at == before.should_poll_at,
        after.shutting_down == before.shutting_down,
        after.scm_listeners == before.scm_listeners,
        after.queue == before.queue,
{
}

/// What is said when a listener cannot be deactivated differs by its kind.
pub proof fn law_how_a_failed_deactivation_is_told(kind: ListenerType)
    ensures
        kind is Http || kind is Https ==> kind.deactivation_prefix() == "Couldn't deactivate "@,
        kind is Tcp || kind is Udp ==> kind.deactivation_prefix() == "Could not deactivate "@,
{
}

} // verus!
