//! The TCP proxy: its listeners, their fronts, and the sessions that they start.
use vstd::prelude::*;

use crate::alpn;
use crate::bind::ServerBindError;
use crate::clock::Duration;
use crate::message::WorkerResponse;
use crate::net::SocketAddr;
use crate::server_listeners::{inherited_socket_fate, InheritedSocketFate};
use crate::session_manager::{ListenToken, Protocol, SessionManager, SessionSlot};
use crate::sessions;
use crate::slots;
use crate::sni_routes;
use crate::socket::IoErrorKind;
use crate::table::Table;
use crate::tcp_listener;
use crate::tcp_listener::{
    effective_sni_preread_max_bytes, ListenerActivation, ProxyError, RequestTcpFrontend,
    TcpListener, TcpListenerConfig, UpdateTcpListenerConfig,
};
use crate::tcp_session;
use crate::tcp_session::{
    ClusterConfiguration, NewTcpSession, ProxyProtocolConfig, Readiness, TcpGauges, TcpSession,
};
use crate::tcp_tags;
use crate::tcp_tags::sni_tags_key;
use crate::text;
use crate::timer::Timer;
use crate::Token;

verus! {

/// Why a connection could not be accepted.
#[derive(Copy, Clone, Debug, PartialEq, Eq, Structural)]
pub enum AcceptError {
    IoError,
    WouldBlock,
    RegisterError,
    BufferCapacityReached,
}

/// A request to the TCP proxy.
#[derive(Debug)]
pub enum TcpRequest {
    /// There is nothing in it.
    Empty,
    AddTcpFrontend(RequestTcpFrontend),
    RemoveTcpFrontend(RequestTcpFrontend),
    SoftStop,
    HardStop,
    Status,
    AddCluster(String, ClusterConfiguration),
    RemoveCluster(String),
    /// With how the address is shown.
    RemoveListener(SocketAddr, String),
    /// One that is not for this proxy.
    Unsupported,
}

/// What a request leads to.
#[derive(Debug)]
pub struct TcpAnswer {
    pub response: WorkerResponse,
    /// The sockets that are no longer watched, and are closed.
    pub sockets: Vec<i32>,
}

/// The TCP proxy.
#[derive(Debug)]
pub struct TcpProxy {
    /// The listener of each cluster's front.
    pub fronts: Table<String, Token>,
    pub listeners: Vec<TcpListener>,
    pub configs: Table<String, ClusterConfiguration>,
}

/// The first listener at an address.
pub open spec fn listener_at(listeners: Seq<TcpListener>, address: SocketAddr) -> Option<int>
    decreases listeners.len(),
{
    if listeners.len() == 0 {
        None
    } else {
        match listener_at(listeners.drop_last(), address) {
            Some(i) => Some(i),
            None => if listeners.last().address == address {
                Some(listeners.len() - 1)
            } else {
                None
            },
        }
    }
}

/// The first listener at an address is at that address, and none before it is.
pub proof fn lemma_listener_at(listeners: Seq<TcpListener>, address: SocketAddr)
    ensures
        listener_at(listeners, address) matches Some(i) ==> 0 <= i < listeners.len()
            && listeners[i].address == address && forall|j: int|
            0 <= j < i ==> (#[trigger] listeners[j]).address != address,
        listener_at(listeners, address) is None ==> forall|j: int|
            0 <= j < listeners.len() ==> (#[trigger] listeners[j]).address != address,
    decreases listeners.len(),
{
    if listeners.len() > 0 {
        let front = listeners.drop_last();
        lemma_listener_at(front, address);
        assert forall|j: int| 0 <= j < front.len() implies #[trigger] listeners[j] == front[j] by {}
    }
}

/// The listener with a token.
pub open spec fn listener_with(listeners: Seq<TcpListener>, token: Token) -> Option<int>
    decreases listeners.len(),
{
    if listeners.len() == 0 {
        None
    } else {
        match listener_with(listeners.drop_last(), token) {
            Some(i) => Some(i),
            None => if listeners.last().token == token {
                Some(listeners.len() - 1)
            } else {
                None
            },
        }
    }
}

/// The listener with a token has it, and none before it has.
pub proof fn lemma_listener_with(listeners: Seq<TcpListener>, token: Token)
    ensures
        listener_with(listeners, token) matches Some(i) ==> 0 <= i < listeners.len()
            && listeners[i].token == token && forall|j: int|
            0 <= j < i ==> (#[trigger] listeners[j]).token != token,
        listener_with(listeners, token) is None ==> forall|j: int|
            0 <= j < listeners.len() ==> (#[trigger] listeners[j]).token != token,
    decreases listeners.len(),
{
    if listeners.len() > 0 {
        let front = listeners.drop_last();
        lemma_listener_with(front, token);
        assert forall|j: int| 0 <= j < front.len() implies #[trigger] listeners[j] == front[j] by {}
    }
}

/// The listeners that are not at an address.
pub open spec fn not_at(listeners: Seq<TcpListener>, address: SocketAddr) -> Seq<TcpListener>
    decreases listeners.len(),
{
    if listeners.len() == 0 {
        listeners
    } else {
        let front = not_at(listeners.drop_last(), address);
        if listeners.last().address == address {
            front
        } else {
            front.push(listeners.last())
        }
    }
}

/// The sockets of listeners, with their addresses.
pub open spec fn open_sockets(listeners: Seq<TcpListener>) -> Seq<(SocketAddr, i32)>
    decreases listeners.len(),
{
    if listeners.len() == 0 {
        Seq::empty()
    } else {
        let front = open_sockets(listeners.drop_last());
        match listeners.last().listener {
            Some(fd) => front.push((listeners.last().address, fd)),
            None => front,
        }
    }
}

/// A listener that has given its socket back.
pub open spec fn without_socket(l: TcpListener) -> TcpListener {
    if l.listener is Some {
        TcpListener { active: false, listener: None, ..l }
    } else {
        l
    }
}

impl TcpProxy {
    /// What every proxy meets: no listener routes both by server name and to one
    /// cluster, and each has a token of its own.
    pub open spec fn wf(self) -> bool {
        &&& self.fronts.wf()
        &&& self.configs.wf()
        &&& listeners_ok(self.listeners@)
    }

    /// A proxy without listeners.
    pub fn new() -> (proxy: TcpProxy)
        ensures
            proxy.wf(),
            proxy.listeners@.len() == 0,
            proxy.fronts.map() == Map::<Seq<char>, Token>::empty(),
            proxy.configs.map() == Map::<Seq<char>, ClusterConfiguration>::empty(),
    {
        TcpProxy { fronts: Table::new(), listeners: Vec::new(), configs: Table::new() }
    }

    fn position_at(&self, address: SocketAddr) -> (position: Option<usize>)
        ensures
            position is Some <==> listener_at(self.listeners@, address) is Some,
            position matches Some(i) ==> listener_at(self.listeners@, address) == Some(i as int)
                && i < self.listeners@.len(),
    {
        proof {
            lemma_listener_at(self.listeners@, address);
        }
        let mut i: usize = 0;
        while i < self.listeners.len()
            invariant
                i <= self.listeners@.len(),
                forall|j: int|
                    0 <= j < i ==> (#[trigger] self.listeners@[j]).address != address,
            decreases self.listeners@.len() - i,
        {
            if self.listeners[i].address == address {
                proof {
                    lemma_listener_at(self.listeners@, address);
                }
                return Some(i);
            }
            i += 1;
        }
        None
    }

    fn position_with(&self, token: Token) -> (position: Option<usize>)
        ensures
            position is Some <==> listener_with(self.listeners@, token) is Some,
            position matches Some(i) ==> listener_with(self.listeners@, token) == Some(i as int)
                && i < self.listeners@.len(),
    {
        proof {
            lemma_listener_with(self.listeners@, token);
        }
        let mut i: usize = 0;
        while i < self.listeners.len()
            invariant
                i <= self.listeners@.len(),
                forall|j: int| 0 <= j < i ==> (#[trigger] self.listeners@[j]).token != token,
            decreases self.listeners@.len() - i,
        {
            if self.listeners[i].token == token {
                proof {
                    lemma_listener_with(self.listeners@, token);
                }
                return Some(i);
            }
            i += 1;
        }
        None
    }

    /// Adds a listener, whose address is shown as `address_text`, unless there
    /// is one with its token.
    pub fn add_listener(
        &mut self,
        config: TcpListenerConfig,
        address_text: String,
        token: Token,
    ) -> (r: Result<Token, ProxyError>)
        requires
            old(self).wf(),
        ensures
            final(self).wf(),
            final(self).fronts == old(self).fronts,
            final(self).configs == old(self).configs,
            match listener_with(old(self).listeners@, token) {
                Some(_) => r matches Err(ProxyError::ListenerAlreadyPresent)
                    && final(self).listeners == old(self).listeners,
                None => {
                    &&& r == Ok::<Token, ProxyError>(token)
                    &&& final(self).listeners@.len() == old(self).listeners@.len() + 1
                    &&& final(self).listeners@.drop_last() == old(self).listeners@
                    &&& final(self).listeners@.last().is_new(config, address_text, token)
                },
            },
    {
        proof {
            lemma_listener_with(self.listeners@, token);
        }
        if self.position_with(token).is_some() {
            return Err(ProxyError::ListenerAlreadyPresent);
        }
        let ghost before = self.listeners@;
        self.listeners.push(TcpListener::new(config, address_text, token));
        assert(self.listeners@.drop_last() =~= before);
        Ok(token)
    }

    /// Removes the listeners at an address. `false` if there are none.
    pub fn remove_listener(&mut self, address: SocketAddr) -> (removed: bool)
        requires
            old(self).wf(),
        ensures
            final(self).wf(),
            final(self).fronts == old(self).fronts,
            final(self).configs == old(self).configs,
            final(self).listeners@ == not_at(old(self).listeners@, address),
            removed == listener_at(old(self).listeners@, address) is Some,
    {
        proof {
            lemma_listener_at(self.listeners@, address);
            lemma_not_at(self.listeners@, address);
        }
        let mut removed = false;
        let mut i: usize = 0;
        let ghost all = self.listeners@;
        let ghost mut seen: int = 0;
        assert(all.skip(0) =~= all);
        assert(not_at(all.take(0), address) =~= Seq::<TcpListener>::empty());
        assert(self.listeners@ =~= not_at(all.take(0), address) + all.skip(0));
        while i < self.listeners.len()
            invariant
                0 <= seen <= all.len(),
                self.fronts == old(self).fronts,
                self.configs == old(self).configs,
                i == not_at(all.take(seen), address).len(),
                self.listeners@ == not_at(all.take(seen), address) + all.skip(seen),
                removed == exists|j: int| 0 <= j < seen && (#[trigger] all[j]).address == address,
            decreases self.listeners@.len() - i,
        {
            let ghost kept = not_at(all.take(seen), address);
            proof {
                assert(self.listeners@[i as int] == all.skip(seen)[0]);
                assert(self.listeners@[i as int] == all[seen]);
                assert(all.take(seen + 1).drop_last() =~= all.take(seen));
                assert(all.take(seen + 1).last() == all[seen]);
            }
            if self.listeners[i].address == address {
                let _ = self.listeners.remove(i);
                removed = true;
                proof {
                    assert(all[seen].address == address);
                    assert(self.listeners@ =~= kept + all.skip(seen + 1));
                    seen = seen + 1;
                }
            } else {
                i += 1;
                proof {
                    assert(self.listeners@ =~= kept.push(all[seen]) + all.skip(seen + 1));
                    seen = seen + 1;
                }
            }
        }
        proof {
            assert(all.skip(seen).len() == 0);
            assert(all.take(seen) =~= all);
            assert(self.listeners@ =~= not_at(all, address));
        }
        removed
    }

    /// The token of the listener at an address.
    pub fn listener_token(&self, address: SocketAddr) -> (token: Option<Token>)
        ensures
            token == match listener_at(self.listeners@, address) {
                Some(i) => Some(self.listeners@[i].token),
                None => None,
            },
    {
        match self.position_at(address) {
            Some(i) => Some(self.listeners[i].token),
            None => None,
        }
    }

    /// What becomes of a socket that was handed over for an address.
    pub fn inherited_socket_fate(&self, address: SocketAddr) -> (fate: InheritedSocketFate)
        ensures
            fate == match listener_at(self.listeners@, address) {
                None => InheritedSocketFate::Unclaimed,
                Some(i) => if self.listeners@[i].active {
                    InheritedSocketFate::Refused
                } else {
                    InheritedSocketFate::Adopted
                },
            },
    {
        match self.position_at(address) {
            Some(i) => inherited_socket_fate(Some(self.listeners[i].active)),
            None => inherited_socket_fate(None),
        }
    }

    /// What activating the listener at an address takes, with a socket at hand
    /// or without.
    pub fn activation(&self, address: SocketAddr, has_socket: bool) -> (step: Result<
        ListenerActivation,
        ProxyError,
    >)
        ensures
            match listener_at(self.listeners@, address) {
                None => step == Err::<ListenerActivation, ProxyError>(
                    ProxyError::NoListenerFound(address),
                ),
                Some(i) => step == Ok::<ListenerActivation, ProxyError>(
                    self.listeners@[i].activation_step(has_socket),
                ),
            },
    {
        match self.position_at(address) {
            Some(i) => Ok(self.listeners[i].activation(has_socket)),
            None => Err(ProxyError::NoListenerFound(address)),
        }
    }

    /// Only the listener at `i` differs.
    pub open spec fn changed_at(self, before: TcpProxy, i: int, listener: TcpListener) -> bool {
        &&& self.fronts == before.fronts
        &&& self.configs == before.configs
        &&& self.listeners@ == before.listeners@.update(i, listener)
    }

    /// Takes in how activating the listener at an address went.
    pub fn activate_listener(
        &mut self,
        address: SocketAddr,
        socket: Result<i32, ServerBindError>,
        registered: Result<(), IoErrorKind>,
    ) -> (r: Result<Token, ProxyError>)
        requires
            old(self).wf(),
        ensures
            final(self).wf(),
            match listener_at(old(self).listeners@, address) {
                None => r == Err::<Token, ProxyError>(ProxyError::NoListenerFound(address))
                    && *final(self) == *old(self),
                Some(i) => {
                    let l = old(self).listeners@[i];
                    match (l.active, socket, registered) {
                        (true, _, _) => r == Ok::<Token, ProxyError>(l.token)
                            && final(self).changed_at(*old(self), i, l),
                        (false, Ok(fd), Ok(())) => r == Ok::<Token, ProxyError>(l.token)
                            && final(self).changed_at(
                            *old(self),
                            i,
                            l.watching(fd),
                        ),
                        (false, Ok(fd), Err(kind)) => r == Err::<Token, ProxyError>(
                            ProxyError::RegisterListener(kind),
                        ) && final(self).changed_at(
                            *old(self),
                            i,
                            TcpListener { parked_listener: Some(fd), ..l },
                        ),
                        (false, Err(e), _) => r == Err::<Token, ProxyError>(
                            ProxyError::BindToSocket(l.config.address, e),
                        ) && final(self).changed_at(*old(self), i, l),
                    }
                },
            },
    {
        let i = match self.position_at(address) {
            Some(i) => i,
            None => {
                return Err(ProxyError::NoListenerFound(address));
            },
        };
        let ghost before = self.listeners@;
        let r = self.listeners[i].activate(socket, registered);
        proof {
            assert(before[i as int].fronts_ok());
            lemma_same_fronts_ok(before[i as int], self.listeners@[i as int]);
            lemma_update_ok(before, i as int, self.listeners@[i as int]);
            assert(self.listeners@ =~= before.update(i as int, self.listeners@[i as int]));
        }
        r
    }

    /// Gives all sockets back. The listeners are no longer active, so that
    /// activating them takes sockets again.
    pub fn give_back_listeners(&mut self) -> (sockets: Vec<(SocketAddr, i32)>)
        requires
            old(self).wf(),
        ensures
            final(self).wf(),
            final(self).fronts == old(self).fronts,
            final(self).configs == old(self).configs,
            sockets@ == open_sockets(old(self).listeners@),
            final(self).listeners@ == old(self).listeners@.map_values(
                |l: TcpListener| without_socket(l),
            ),
    {
        let mut sockets: Vec<(SocketAddr, i32)> = Vec::new();
        let ghost all = self.listeners@;
        let mut i: usize = 0;
        assert(all.take(0).len() == 0);
        while i < self.listeners.len()
            invariant
                i <= self.listeners@.len(),
                self.listeners@.len() == all.len(),
                self.fronts == old(self).fronts,
                self.configs == old(self).configs,
                listeners_ok(all),
                sockets@ == open_sockets(all.take(i as int)),
                forall|j: int|
                    0 <= j < i ==> #[trigger] self.listeners@[j] == without_socket(all[j]),
                forall|j: int|
                    i <= j < all.len() ==> #[trigger] self.listeners@[j] == all[j],
            decreases self.listeners@.len() - i,
        {
            proof {
                assert(all.take(i + 1).drop_last() =~= all.take(i as int));
                assert(all.take(i + 1).last() == all[i as int]);
                assert(self.listeners@[i as int] == all[i as int]);
            }
            let address = self.listeners[i].address;
            if let Some(fd) = self.listeners[i].give_back() {
                sockets.push((address, fd));
            }
            i += 1;
        }
        proof {
            assert(all.take(all.len() as int) =~= all);
            assert(self.listeners@ =~= all.map_values(|l: TcpListener| without_socket(l)));
            assert(listeners_ok(self.listeners@)) by {
                assert forall|j: int| 0 <= j < self.listeners@.len() implies (
                #[trigger] self.listeners@[j]).wf() && self.listeners@[j].fronts_ok() by {
                    assert(all[j].wf() && all[j].fronts_ok());
                    lemma_same_fronts_ok(all[j], self.listeners@[j]);
                }
                assert forall|p: int, q: int|
                    0 <= p < self.listeners@.len() && 0 <= q < self.listeners@.len() && p
                        != q implies (#[trigger] self.listeners@[p]).token != (
                #[trigger] self.listeners@[q]).token by {
                    assert(all[p].token != all[q].token);
                }
            }
        }
        sockets
    }

    /// Gives the socket of the listener at an address back.
    pub fn give_back_listener(&mut self, address: SocketAddr) -> (r: Result<
        (Token, i32),
        ProxyError,
    >)
        requires
            old(self).wf(),
        ensures
            final(self).wf(),
            match listener_at(old(self).listeners@, address) {
                None => r == Err::<(Token, i32), ProxyError>(ProxyError::NoListenerFound(address))
                    && *final(self) == *old(self),
                Some(i) => {
                    let l = old(self).listeners@[i];
                    match l.listener {
                        None => r matches Err(ProxyError::UnactivatedListener)
                            && final(self).changed_at(*old(self), i, l),
                        Some(fd) => r == Ok::<(Token, i32), ProxyError>((l.token, fd))
                            && final(self).changed_at(
                            *old(self),
                            i,
                            TcpListener { active: false, listener: None, ..l },
                        ),
                    }
                },
            },
    {
        let i = match self.position_at(address) {
            Some(i) => i,
            None => {
                return Err(ProxyError::NoListenerFound(address));
            },
        };
        let ghost before = self.listeners@;
        let token = self.listeners[i].token;
        let fd = self.listeners[i].give_back();
        proof {
            assert(before[i as int].fronts_ok());
            lemma_same_fronts_ok(before[i as int], self.listeners@[i as int]);
            lemma_update_ok(before, i as int, self.listeners@[i as int]);
            assert(self.listeners@ =~= before.update(i as int, self.listeners@[i as int]));
        }
        match fd {
            Some(fd) => Ok((token, fd)),
            None => Err(ProxyError::UnactivatedListener),
        }
    }

    /// Changes the configuration of the listener at an address.
    pub fn update_listener(&mut self, patch: UpdateTcpListenerConfig) -> (r: Result<
        (),
        ProxyError,
    >)
        requires
            old(self).wf(),
        ensures
            final(self).wf(),
            match listener_at(old(self).listeners@, patch.address) {
                None => r == Err::<(), ProxyError>(ProxyError::NoListenerFound(patch.address))
                    && *final(self) == *old(self),
                Some(i) => r is Ok && final(self).changed_at(
                    *old(self),
                    i,
                    TcpListener {
                        config: tcp_listener::patched(old(self).listeners@[i].config, patch),
                        ..old(self).listeners@[i]
                    },
                ),
            },
    {
        let i = match self.position_at(patch.address) {
            Some(i) => i,
            None => {
                return Err(ProxyError::NoListenerFound(patch.address));
            },
        };
        let ghost before = self.listeners@;
        let _ = self.listeners[i].update_config(&patch);
        proof {
            assert(before[i as int].fronts_ok());
            lemma_same_fronts_ok(before[i as int], self.listeners@[i as int]);
            lemma_update_ok(before, i as int, self.listeners@[i as int]);
            assert(self.listeners@ =~= before.update(i as int, self.listeners@[i as int]));
        }
        Ok(())
    }

    /// Whether `after` is `before` with a front added.
    pub open spec fn front_added(
        before: TcpListener,
        after: TcpListener,
        front: RequestTcpFrontend,
    ) -> bool {
        match front.sni {
            Some(sni) => {
                &&& after == (TcpListener {
                    tags: after.tags,
                    sni_routes: after.sni_routes,
                    ..before
                })
                &&& after.tags.map() == before.tags.map().insert(
                    tcp_tags::sni_key_text(
                        before.address_text@,
                        sni@,
                        tcp_tags::texts(front.alpn@),
                    ),
                    front.tags,
                )
                &&& after.routes() == before.routes().insert(
                    alpn::route_key(sni@),
                    before.sni_routes.with_route(
                        alpn::route_key(sni@),
                        (alpn::matched_protocols(front.alpn@), front.cluster_id@),
                    ),
                )
            },
            None => {
                &&& after == (TcpListener {
                    tags: after.tags,
                    cluster_id: Some(front.cluster_id),
                    ..before
                })
                &&& after.tags.map() == before.tags.map().insert(before.address_text@, front.tags)
            },
        }
    }

    /// The listeners are as they were, but for the one at `i`.
    pub open spec fn others_kept(self, before: TcpProxy, i: int) -> bool {
        &&& self.listeners@.len() == before.listeners@.len()
        &&& forall|j: int|
            0 <= j < before.listeners@.len() && j != i ==> #[trigger] self.listeners@[j]
                == before.listeners@[j]
    }

    /// Whether this is `before` with a front added to the listener at `i`.
    pub open spec fn has_front_added(
        self,
        before: TcpProxy,
        i: int,
        front: RequestTcpFrontend,
    ) -> bool {
        &&& self.fronts.map() == before.fronts.map().insert(
            front.cluster_id@,
            before.listeners@[i].token,
        )
        &&& self.others_kept(before, i)
        &&& Self::front_added(before.listeners@[i], self.listeners@[i], front)
    }

    /// Adds a front to the listener at its address, unless it would not fit in
    /// with those that the listener has: then nothing changes.
    pub fn add_tcp_front(&mut self, front: RequestTcpFrontend) -> (r: Result<(), ProxyError>)
        requires
            old(self).wf(),
        ensures
            final(self).wf(),
            final(self).configs == old(self).configs,
            match listener_at(old(self).listeners@, front.address) {
                None => r == Err::<(), ProxyError>(ProxyError::NoListenerFound(front.address))
                    && *final(self) == *old(self),
                Some(i) => {
                    let l = old(self).listeners@[i];
                    match l.front_error(front) {
                        Some(reason) => {
                            &&& r matches Err(
                                ProxyError::InvalidTcpFrontend { address, reason: why },
                            ) && address == l.address && why@ == reason
                            &&& *final(self) == *old(self)
                        },
                        None => {
                            &&& r is Ok
                            &&& final(self).has_front_added(*old(self), i, front)
                        },
                    }
                },
            },
    {
        let i = match self.position_at(front.address) {
            Some(i) => i,
            None => {
                return Err(ProxyError::NoListenerFound(front.address));
            },
        };
        let ghost before = self.listeners@;
        assert(before[i as int].wf() && before[i as int].fronts_ok());
        match self.listeners[i].validate_new_tcp_front(&front) {
            Ok(()) => {},
            Err(e) => {
                return Err(e);
            },
        }
        let token = self.listeners[i].token;
        self.fronts.insert(front.cluster_id.clone(), token);
        match front.sni {
            Some(sni) => {
                let key = sni_tags_key(&self.listeners[i].address_text, sni.as_str(), &front.alpn);
                self.listeners[i].set_tags(key, Some(front.tags));
                let _ = self.listeners[i].insert_sni_route(sni, front.alpn, front.cluster_id);
            },
            None => {
                let key = self.listeners[i].address_text.clone();
                self.listeners[i].set_tags(key, Some(front.tags));
                self.listeners[i].cluster_id = Some(front.cluster_id);
            },
        }
        proof {
            lemma_added_fronts_ok(before[i as int], self.listeners@[i as int], front);
            lemma_update_ok(before, i as int, self.listeners@[i as int]);
            assert(self.listeners@ =~= before.update(i as int, self.listeners@[i as int]));
        }
        Ok(())
    }

    /// Whether `after` is `before` with a front removed.
    pub open spec fn front_removed(
        before: TcpListener,
        after: TcpListener,
        front: RequestTcpFrontend,
    ) -> bool {
        match front.sni {
            Some(sni) => {
                &&& after == (TcpListener {
                    tags: after.tags,
                    sni_routes: after.sni_routes,
                    ..before
                })
                &&& after.tags.map() == before.tags.map().remove(
                    tcp_tags::sni_key_text(
                        before.address_text@,
                        sni@,
                        tcp_tags::texts(front.alpn@),
                    ),
                )
                &&& after.routes() == tcp_listener::without_front(
                    before.routes(),
                    sni@,
                    front.alpn@,
                    front.cluster_id@,
                )
            },
            None => {
                &&& after == (TcpListener { tags: after.tags, cluster_id: None, ..before })
                &&& after.tags.map() == before.tags.map().remove(before.address_text@)
            },
        }
    }

    /// Whether this is `before` with a front removed from the listener at `i`.
    pub open spec fn has_front_removed(
        self,
        before: TcpProxy,
        i: int,
        front: RequestTcpFrontend,
    ) -> bool {
        let l = before.listeners@[i];
        &&& self.fronts.map() == match (front.sni, l.cluster_id) {
            (Some(_), _) => before.fronts.map().remove(front.cluster_id@),
            (None, Some(cluster)) => before.fronts.map().remove(cluster@),
            (None, None) => before.fronts.map(),
        }
        &&& self.others_kept(before, i)
        &&& Self::front_removed(l, self.listeners@[i], front)
    }

    /// Removes a front from the listener at its address, with its own tags and
    /// no others.
    pub fn remove_tcp_front(&mut self, front: RequestTcpFrontend) -> (r: Result<(), ProxyError>)
        requires
            old(self).wf(),
        ensures
            final(self).wf(),
            final(self).configs == old(self).configs,
            match listener_at(old(self).listeners@, front.address) {
                None => r == Err::<(), ProxyError>(ProxyError::NoListenerFound(front.address))
                    && *final(self) == *old(self),
                Some(i) => r is Ok && final(self).has_front_removed(*old(self), i, front),
            },
    {
        let i = match self.position_at(front.address) {
            Some(i) => i,
            None => {
                return Err(ProxyError::NoListenerFound(front.address));
            },
        };
        let ghost before = self.listeners@;
        assert(before[i as int].wf() && before[i as int].fronts_ok());
        match front.sni {
            Some(sni) => {
                let key = sni_tags_key(&self.listeners[i].address_text, sni.as_str(), &front.alpn);
                self.listeners[i].set_tags(key, None);
                self.listeners[i].remove_sni_route(sni, front.alpn, &front.cluster_id);
                let _ = self.fronts.remove(&front.cluster_id);
            },
            None => {
                let key = self.listeners[i].address_text.clone();
                self.listeners[i].set_tags(key, None);
                let cluster = self.listeners[i].cluster_id.take();
                if let Some(cluster) = cluster {
                    let _ = self.fronts.remove(&cluster);
                }
            },
        }
        proof {
            lemma_removed_fronts_ok(before[i as int], self.listeners@[i as int], front);
            lemma_update_ok(before, i as int, self.listeners@[i as int]);
            assert(self.listeners@ =~= before.update(i as int, self.listeners@[i as int]));
        }
        Ok(())
    }
}

/// The numbers of sockets.
pub open spec fn socket_numbers(sockets: Seq<(SocketAddr, i32)>) -> Seq<i32> {
    sockets.map_values(|s: (SocketAddr, i32)| s.1)
}

impl TcpProxy {
    /// Drops all listeners, and hands out their sockets.
    fn drain(&mut self) -> (sockets: Vec<i32>)
        requires
            old(self).wf(),
        ensures
            final(self).wf(),
            final(self).fronts == old(self).fronts,
            final(self).configs == old(self).configs,
            final(self).listeners@.len() == 0,
            sockets@ == socket_numbers(open_sockets(old(self).listeners@)),
    {
        let given_back = self.give_back_listeners();
        let mut sockets: Vec<i32> = Vec::new();
        let mut i: usize = 0;
        while i < given_back.len()
            invariant
                i <= given_back@.len(),
                sockets@ == socket_numbers(given_back@).take(i as int),
            decreases given_back@.len() - i,
        {
            sockets.push(given_back[i].1);
            i += 1;
            assert(sockets@ =~= socket_numbers(given_back@).take(i as int));
        }
        assert(sockets@ =~= socket_numbers(given_back@));
        self.listeners.clear();
        sockets
    }

    /// Handles a request. Fails where a front cannot be added or removed.
    pub fn notify(&mut self, id: &String, request: TcpRequest) -> (r: Result<TcpAnswer, ProxyError>)
        requires
            old(self).wf(),
        ensures
            final(self).wf(),
            r matches Err(e) ==> *final(self) == *old(self) && (request is AddTcpFrontend
                || request is RemoveTcpFrontend),
            !(request is SoftStop || request is HardStop) ==> (r matches Ok(answer)
                ==> answer.sockets@.len() == 0),
            match request {
                TcpRequest::Empty => *final(self) == *old(self) && (r matches Ok(answer)
                    && answer.response.is_error_for(id@, "Empty request"@)),
                TcpRequest::Unsupported => *final(self) == *old(self) && (r matches Ok(answer)
                    && answer.response.is_error_for(id@, "unsupported message"@)),
                TcpRequest::Status => *final(self) == *old(self) && (r matches Ok(answer)
                    && answer.response.is_ok_for(id@)),
                TcpRequest::SoftStop => {
                    &&& final(self).listeners@.len() == 0
                    &&& final(self).fronts == old(self).fronts
                    &&& final(self).configs == old(self).configs
                    &&& r matches Ok(answer) && answer.response.is_processing_for(id@)
                        && answer.sockets@ == socket_numbers(open_sockets(old(self).listeners@))
                },
                TcpRequest::HardStop => {
                    &&& final(self).listeners@.len() == 0
                    &&& final(self).fronts == old(self).fronts
                    &&& final(self).configs == old(self).configs
                    &&& r matches Ok(answer) && answer.response.is_ok_for(id@) && answer.sockets@
                        == socket_numbers(open_sockets(old(self).listeners@))
                },
                TcpRequest::AddCluster(cluster, config) => {
                    &&& final(self).listeners == old(self).listeners
                    &&& final(self).fronts == old(self).fronts
                    &&& final(self).configs.map() == old(self).configs.map().insert(
                        cluster@,
                        config,
                    )
                    &&& r matches Ok(answer) && answer.response.is_ok_for(id@)
                },
                TcpRequest::RemoveCluster(cluster) => {
                    &&& final(self).listeners == old(self).listeners
                    &&& final(self).fronts == old(self).fronts
                    &&& final(self).configs.map() == old(self).configs.map().remove(cluster@)
                    &&& r matches Ok(answer) && answer.response.is_ok_for(id@)
                },
                TcpRequest::RemoveListener(address, address_text) => {
                    &&& final(self).fronts == old(self).fronts
                    &&& final(self).configs == old(self).configs
                    &&& final(self).listeners@ == not_at(old(self).listeners@, address)
                    &&& r matches Ok(answer) && if listener_at(
                        old(self).listeners@,
                        address,
                    ) is Some {
                        answer.response.is_ok_for(id@)
                    } else {
                        answer.response.is_error_for(
                            id@,
                            "no TCP listener to remove at address "@ + address_text@,
                        )
                    }
                },
                TcpRequest::AddTcpFrontend(front) => {
                    &&& final(self).configs == old(self).configs
                    &&& r matches Ok(answer) ==> answer.response.is_ok_for(id@)
                    &&& match listener_at(old(self).listeners@, front.address) {
                        None => r == Err::<TcpAnswer, ProxyError>(
                            ProxyError::NoListenerFound(front.address),
                        ),
                        Some(i) => {
                            let l = old(self).listeners@[i];
                            match l.front_error(front) {
                                Some(reason) => r matches Err(
                                    ProxyError::InvalidTcpFrontend { address, reason: why },
                                ) && address == l.address && why@ == reason,
                                None => r is Ok && final(self).has_front_added(
                                    *old(self),
                                    i,
                                    front,
                                ),
                            }
                        },
                    }
                },
                TcpRequest::RemoveTcpFrontend(front) => {
                    &&& final(self).configs == old(self).configs
                    &&& r matches Ok(answer) ==> answer.response.is_ok_for(id@)
                    &&& match listener_at(old(self).listeners@, front.address) {
                        None => r == Err::<TcpAnswer, ProxyError>(
                            ProxyError::NoListenerFound(front.address),
                        ),
                        Some(i) => r is Ok && final(self).has_front_removed(*old(self), i, front),
                    }
                },
            },
    {
        let none: Vec<i32> = Vec::new();
        match request {
            TcpRequest::Empty => Ok(
                TcpAnswer {
                    response: WorkerResponse::error(id, String::from_str("Empty request")),
                    sockets: none,
                },
            ),
            TcpRequest::AddTcpFrontend(front) => {
                match self.add_tcp_front(front) {
                    Ok(()) => Ok(TcpAnswer { response: WorkerResponse::ok(id), sockets: none }),
                    Err(e) => Err(e),
                }
            },
            TcpRequest::RemoveTcpFrontend(front) => {
                match self.remove_tcp_front(front) {
                    Ok(()) => Ok(TcpAnswer { response: WorkerResponse::ok(id), sockets: none }),
                    Err(e) => Err(e),
                }
            },
            TcpRequest::SoftStop => {
                let sockets = self.drain();
                Ok(TcpAnswer { response: WorkerResponse::processing(id), sockets })
            },
            TcpRequest::HardStop => {
                let sockets = self.drain();
                Ok(TcpAnswer { response: WorkerResponse::ok(id), sockets })
            },
            TcpRequest::Status => Ok(
                TcpAnswer { response: WorkerResponse::ok(id), sockets: none },
            ),
            TcpRequest::AddCluster(cluster, config) => {
                self.configs.insert(cluster, config);
                Ok(TcpAnswer { response: WorkerResponse::ok(id), sockets: none })
            },
            TcpRequest::RemoveCluster(cluster) => {
                let _ = self.configs.remove(&cluster);
                Ok(TcpAnswer { response: WorkerResponse::ok(id), sockets: none })
            },
            TcpRequest::RemoveListener(address, address_text) => {
                if self.remove_listener(address) {
                    Ok(TcpAnswer { response: WorkerResponse::ok(id), sockets: none })
                } else {
                    let reason = text::concat2(
                        "no TCP listener to remove at address ",
                        address_text.as_str(),
                    );
                    Ok(TcpAnswer { response: WorkerResponse::error(id, reason), sockets: none })
                }
            },
            TcpRequest::Unsupported => Ok(
                TcpAnswer {
                    response: WorkerResponse::error(id, String::from_str("unsupported message")),
                    sockets: none,
                },
            ),
        }
    }

    /// The socket to accept a connection from.
    pub fn accept_socket(&self, token: ListenToken) -> (fd: Result<i32, AcceptError>)
        ensures
            fd == match listener_with(self.listeners@, Token(token.0)) {
                Some(i) => match self.listeners@[i].listener {
                    Some(fd) => Ok::<i32, AcceptError>(fd),
                    None => Err::<i32, AcceptError>(AcceptError::IoError),
                },
                None => Err::<i32, AcceptError>(AcceptError::IoError),
            },
    {
        match self.position_with(Token(token.0)) {
            Some(i) => match self.listeners[i].listener {
                Some(fd) => Ok(fd),
                None => Err(AcceptError::IoError),
            },
            None => Err(AcceptError::IoError),
        }
    }

    /// What an error of the socket means for accepting.
    pub fn accept_error(kind: IoErrorKind) -> (e: AcceptError)
        ensures
            e == if kind is WouldBlock {
                AcceptError::WouldBlock
            } else {
                AcceptError::IoError
            },
    {
        if kind == IoErrorKind::WouldBlock {
            AcceptError::WouldBlock
        } else {
            AcceptError::IoError
        }
    }

    /// The slot of a session's client.
    pub open spec fn client_slot(token: Token, now: u64) -> SessionSlot {
        SessionSlot { last_event: now, frontend_token: token, protocol: Protocol::TCP }
    }

    /// Why no session can be created for a connection of a listener, if none
    /// can: there is no such listener, there are no buffers, or there is nowhere
    /// to go.
    pub open spec fn session_error(self, token: ListenToken, buffers: bool) -> Option<AcceptError> {
        match listener_with(self.listeners@, Token(token.0)) {
            None => Some(AcceptError::IoError),
            Some(i) => {
                let l = self.listeners@[i];
                if !buffers {
                    Some(AcceptError::BufferCapacityReached)
                } else if l.cluster_id is None && l.routes() == Map::<
                    Seq<u8>,
                    Seq<sni_routes::RouteModel>,
                >::empty() {
                    Some(AcceptError::IoError)
                } else {
                    None
                }
            },
        }
    }

    /// Gives a connection of a listener a slot, if a session can be created for
    /// it. `buffers` tells whether there are two for it. Where there are none,
    /// no connections are accepted for now.
    pub fn begin_create_session(
        &self,
        sessions: &mut SessionManager,
        token: ListenToken,
        buffers: bool,
        now: u64,
    ) -> (r: Result<Token, AcceptError>)
        requires
            self.wf(),
            old(sessions).wf(),
            old(sessions).sessions().dom().len() < slots::slab_growth_limit(),
        ensures
            final(sessions).wf(),
            match self.session_error(token, buffers) {
                Some(e) => {
                    &&& r == Err::<Token, AcceptError>(e)
                    &&& final(sessions).sessions() == old(sessions).sessions()
                    &&& final(sessions).counted() == old(sessions).counted()
                    &&& final(sessions).nb_connections == old(sessions).nb_connections
                    &&& final(sessions).max_connections == old(sessions).max_connections
                    &&& final(sessions).max_connections_per_ip == old(
                        sessions).max_connections_per_ip
                    &&& final(sessions).retry_after == old(sessions).retry_after
                    &&& final(sessions).tokens_used() == old(sessions).tokens_used()
                    &&& final(sessions).can_accept == (old(sessions).can_accept
                        && !(e is BufferCapacityReached))
                },
                None => {
                    &&& r matches Ok(t) && !old(sessions).sessions().dom().contains(t.0)
                        && final(sessions).sessions() == old(sessions).sessions().insert(
                        t.0,
                        Self::client_slot(t, now),
                    ) && (!sessions::is_client(old(sessions).sessions(), t) ==> sessions::in_step(
                        final(sessions).sessions(),
                        t,
                        now,
                    ))
                    &&& final(sessions).same_limits(*old(sessions))
                    &&& r matches Ok(t) && if old(sessions).sessions().dom().len() == old(
                        sessions).tokens_used() {
                        t.0 == old(sessions).tokens_used() && final(sessions).tokens_used() == old(
                            sessions).tokens_used() + 1
                    } else {
                        t.0 < old(sessions).tokens_used() && final(sessions).tokens_used() == old(
                            sessions).tokens_used()
                    }
                },
            },
    {
        let i = match self.position_with(Token(token.0)) {
            Some(i) => i,
            None => {
                return Err(AcceptError::IoError);
            },
        };
        proof {
            assert(self.listeners@[i as int].wf());
        }
        if !buffers {
            sessions.stop_accepting();
            return Err(AcceptError::BufferCapacityReached);
        }
        if self.listeners[i].cluster_id.is_none() && self.listeners[i].sni_routes.is_empty() {
            return Err(AcceptError::IoError);
        }
        let frontend_token = sessions.insert(
            SessionSlot { last_event: now, frontend_token: Token(0), protocol: Protocol::TCP },
        );
        let ghost placed = sessions.sessions();
        let _ = sessions.replace(
            frontend_token,
            SessionSlot { last_event: now, frontend_token, protocol: Protocol::TCP },
        );
        assert(sessions.sessions() =~= old(sessions).sessions().insert(
            frontend_token.0,
            Self::client_slot(frontend_token, now),
        ));
        Ok(frontend_token)
    }

    /// Takes in whether the client's socket is watched: if not, the slot is
    /// freed again.
    pub fn session_registered(
        sessions: &mut SessionManager,
        frontend_token: Token,
        registered: bool,
    ) -> (r: Result<(), AcceptError>)
        requires
            old(sessions).wf(),
        ensures
            final(sessions).wf(),
            final(sessions).same_limits(*old(sessions)),
            final(sessions).tokens_used() == old(sessions).tokens_used(),
            registered ==> r is Ok && final(sessions).sessions() == old(sessions).sessions(),
            !registered ==> r == Err::<(), AcceptError>(AcceptError::RegisterError) && final(
                sessions).sessions() == old(sessions).sessions().remove(frontend_token.0),
    {
        if registered {
            return Ok(());
        }
        let _ = sessions.remove(frontend_token);
        Err(AcceptError::RegisterError)
    }

    /// The session for a connection of a listener. Where the listener routes by
    /// server name, the session looks for that first, in as many bytes as its
    /// buffer may be used for.
    pub fn create_session(
        &self,
        timer: &mut Timer<Token>,
        gauges: &mut TcpGauges,
        token: ListenToken,
        frontend_token: Token,
        frontend_address: Option<SocketAddr>,
        buffer_capacity: usize,
        now: u64,
        front: Readiness,
        back: Readiness,
    ) -> (session: TcpSession)
        requires
            self.wf(),
            self.session_error(token, true) is None,
            tcp_session::timer_ready(*old(timer)),
            old(gauges).room(),
        ensures
            session.wf(),
            final(timer).wf(),
            final(timer).same_wheel(*old(timer)),
            session.container_frontend_timeout.set_to() matches Some(t) && final(timer).inserted(
                *old(timer),
                t,
                frontend_token,
            ) && old(timer).is_due_after(t.due(), session.container_frontend_timeout.span()@),
            final(gauges).moved(*old(gauges), tcp_session::no_share(), session.share()),
            session.frontend_token == frontend_token,
            session.frontend_address == frontend_address,
            session.last_event == now,
            session.backend_connected is NotConnected,
            session.backend is None,
            session.backend_token is None,
            session.backend_id is None,
            session.connection_attempt == 0,
            session.container_backend_timeout.set_to() is None,
            !session.cluster_ip_tracked,
            !session.has_been_closed,
            session.unrouted(),
            session.frontend_buffer == (session.state is ExpectProxyProtocol
                || session.state is SendProxyProtocol),
            session.backend_buffer == !(session.state is Pipe),
            ({
                let l = self.listeners@[listener_with(self.listeners@, Token(token.0))->0];
                &&& session.configured_backend_timeout@ == l.config.back_timeout * 1_000_000_000
                &&& session.container_backend_timeout.span()@ == l.config.connect_timeout
                    * 1_000_000_000
                &&& if l.routes() != Map::<Seq<u8>, Seq<sni_routes::RouteModel>>::empty() {
                    &&& session.cluster_id is None
                    &&& session.container_frontend_timeout.span()@ == l.preread_timeout()
                        * 1_000_000_000
                    &&& session.state == tcp_session::TcpStateMachine::SniPreread(
                        tcp_session::PrereadState {
                            front,
                            back,
                            outcome: None,
                            backend: false,
                            backend_token: None,
                            effective_max_bytes: tcp_listener::effective_preread_bytes(
                                l.config.sni_preread_max_bytes,
                                buffer_capacity as int,
                            ) as usize,
                        },
                    )
                } else {
                    &&& session.cluster_id == l.cluster_id
                    &&& session.container_frontend_timeout.span()@ == l.config.front_timeout
                        * 1_000_000_000
                    &&& session.state == tcp_session::first_state(
                        l.cluster_id,
                        frontend_address,
                        crate::tcp_upgrade::proxy_protocol_of(
                            self.configs.map(),
                            l.cluster_id->0@,
                        ),
                        front,
                        back,
                    )
                }
            }),
    {
        let mut i: usize = 0;
        if let Some(found) = self.position_with(Token(token.0)) {
            i = found;
        }
        let l = &self.listeners[i];
        proof {
            assert(self.listeners@[i as int].wf());
        }
        let frontend_timeout = Duration::seconds(l.config.front_timeout as i64);
        let cluster_id = match &l.cluster_id {
            Some(cluster) => Some(cluster.clone()),
            None => None,
        };
        let settings = NewTcpSession {
            cluster_id,
            backend_timeout: Duration::seconds(l.config.back_timeout as i64),
            connect_timeout: Duration::seconds(l.config.connect_timeout as i64),
            frontend_timeout,
            frontend_token,
            frontend_address,
            now,
        };
        if !l.sni_routes.is_empty() {
            let max_bytes = effective_sni_preread_max_bytes(
                l.config.sni_preread_max_bytes,
                buffer_capacity,
            );
            let timeout = Duration::seconds(l.preread_timeout_seconds() as i64);
            TcpSession::new_sni_preread(timer, gauges, settings, timeout, max_bytes, front, back)
        } else {
            let proxy_protocol: Option<ProxyProtocolConfig> = match &l.cluster_id {
                Some(cluster) => match self.configs.get(cluster) {
                    Some(config) => config.proxy_protocol,
                    None => None,
                },
                None => None,
            };
            TcpSession::new(timer, gauges, settings, proxy_protocol, front, back)
        }
    }
}

/// Removing a front that was added leaves the proxy as it was: the routes, the
/// cluster and the tags of its listener, all other listeners, and where the
/// fronts of clusters are. The front took nothing over when it was added: its
/// listener had no cluster and no tags in its place, and its cluster no front.
pub proof fn law_remove_undoes_add(
    before: TcpProxy,
    added: TcpProxy,
    after: TcpProxy,
    i: int,
    front: RequestTcpFrontend,
)
    requires
        before.wf(),
        added.wf(),
        after.wf(),
        0 <= i < before.listeners@.len(),
        before.listeners@[i].front_error(front) is None,
        front.sni is None ==> before.listeners@[i].cluster_id is None,
        !before.listeners@[i].tags.map().dom().contains(front_key(before.listeners@[i], front)),
        !before.fronts.map().dom().contains(front.cluster_id@),
        added.has_front_added(before, i, front),
        after.has_front_removed(added, i, front),
    ensures
        after.listeners@[i].routes() == before.listeners@[i].routes(),
        after.listeners@[i].cluster_id == before.listeners@[i].cluster_id,
        after.listeners@[i].tags.map() == before.listeners@[i].tags.map(),
        after.others_kept(before, i),
        after.fronts.map() == before.fronts.map(),
{
    let l = before.listeners@[i];
    let m = added.listeners@[i];
    let n = after.listeners@[i];
    assert(l.wf() && m.wf() && n.wf());
    if let Some(sni) = front.sni {
        let key = alpn::route_key(sni@);
        let route = (alpn::matched_protocols(front.alpn@), front.cluster_id@);
        if l.routes().dom().contains(key) && l.routes()[key].contains(route) {
            let k = l.routes()[key].index_of(route);
            lemma_fits_beside(l, front, k);
            if front.alpn@.len() > 0 {
                let names = crate::bytes::encoded(front.alpn@);
                assert(names.len() == front.alpn@.len());
                assert(names.contains(names[0]));
                assert(route.0->0.contains(names[0]));
            }
            assert(sni_routes::overlap(l.routes()[key][k], route));
        }
        sni_routes::law_remove_undoes_insert(l.sni_routes, m.sni_routes, n.sni_routes, key, route);
    }
    assert(n.tags.map() =~= l.tags.map());
    assert(after.fronts.map() =~= before.fronts.map());
    assert forall|j: int| 0 <= j < before.listeners@.len() && j
        != i implies #[trigger] after.listeners@[j] == before.listeners@[j] by {
        assert(added.listeners@[j] == before.listeners@[j]);
    }
}

/// The key under which a listener keeps the tags of a front.
pub open spec fn front_key(listener: TcpListener, front: RequestTcpFrontend) -> Seq<char> {
    match front.sni {
        Some(sni) => tcp_tags::sni_key_text(
            listener.address_text@,
            sni@,
            tcp_tags::texts(front.alpn@),
        ),
        None => listener.address_text@,
    }
}

/// The tags of a front that is removed go, and those of all others stay: of a
/// front of the same listener for another server name, but for the case of its
/// letters, or for other protocols, and of the only front of a listener.
pub proof fn law_other_tags_stay(
    before: TcpListener,
    after: TcpListener,
    front: RequestTcpFrontend,
    other_key: Seq<char>,
)
    requires
        TcpProxy::front_removed(before, after, front),
        other_key != front_key(before, front),
    ensures
        after.tags.map().dom().contains(other_key) == before.tags.map().dom().contains(other_key),
        before.tags.map().dom().contains(other_key) ==> after.tags.map()[other_key]
            == before.tags.map()[other_key],
{
}

/// A listener never routes both by server name and to one cluster: a front that
/// would make it do so is refused, and any other leaves it as it must be.
pub proof fn law_listeners_stay_unmixed(
    before: TcpListener,
    after: TcpListener,
    front: RequestTcpFrontend,
)
    requires
        before.unmixed(),
        before.front_error(front) is None,
        TcpProxy::front_added(before, after, front),
    ensures
        after.unmixed(),
{
}

/// Of the routes under one server name of a listener no two are for the same
/// offers, whatever was added and removed before: at most one is for everything,
/// and no protocol is named by two.
pub proof fn law_routes_do_not_overlap(
    proxy: TcpProxy,
    listener: int,
    name: Seq<u8>,
    i: int,
    j: int,
    protocol: Seq<u8>,
)
    requires
        proxy.wf(),
        0 <= listener < proxy.listeners@.len(),
        proxy.listeners@[listener].routes().dom().contains(name),
        0 <= i < proxy.listeners@[listener].routes()[name].len(),
        0 <= j < proxy.listeners@[listener].routes()[name].len(),
        i != j,
    ensures
        ({
            let a = proxy.listeners@[listener].routes()[name][i].0;
            let b = proxy.listeners@[listener].routes()[name][j].0;
            &&& !(a is None && b is None)
            &&& !(a is Some && b is Some && a->0.contains(protocol) && b->0.contains(protocol))
        }),
{
    let l = proxy.listeners@[listener];
    assert(l.fronts_ok());
    let routes = l.routes()[name];
    assert(sni_routes::disjoint(routes));
    if i < j {
        assert(!sni_routes::overlap(routes[i], routes[j]));
    } else {
        assert(!sni_routes::overlap(routes[j], routes[i]));
    }
}

/// A front that fits in overlaps none of the routes under its server name.
proof fn lemma_fits_beside(listener: TcpListener, front: RequestTcpFrontend, i: int)
    requires
        listener.front_error(front) is None,
        front.sni is Some,
        listener.routes().dom().contains(alpn::route_key(front.sni->0@)),
        0 <= i < listener.routes()[alpn::route_key(front.sni->0@)].len(),
    ensures
        !sni_routes::overlap(
            listener.routes()[alpn::route_key(front.sni->0@)][i],
            (alpn::matched_protocols(front.alpn@), front.cluster_id@),
        ),
{
    let sni = front.sni->0@;
    let routes = listener.routes()[alpn::route_key(sni)];
    let route = (alpn::matched_protocols(front.alpn@), front.cluster_id@);
    lemma_no_clash(sni, front.alpn@, routes, i);
    if sni_routes::overlap(routes[i], route) {
        if let Some(protocols) = routes[i].0 {
            let protocol = choose|protocol: Seq<u8>| #[trigger]
                protocols.contains(protocol) && route.0->0.contains(protocol);
            let k = choose|k: int|
                0 <= k < crate::bytes::encoded(front.alpn@).len() && crate::bytes::encoded(
                    front.alpn@,
                )[k] == protocol;
            lemma_first_in_some(front.alpn@, protocols, k);
        }
    }
}

/// The fronts of a listener still fit in with each other when they did not
/// change.
proof fn lemma_same_fronts_ok(before: TcpListener, after: TcpListener)
    requires
        before.fronts_ok(),
        after.sni_routes == before.sni_routes,
        after.cluster_id == before.cluster_id,
    ensures
        after.fronts_ok(),
{
    assert(after.routes() == before.routes());
    assert forall|name: Seq<u8>| #[trigger]
        after.routes().dom().contains(name) implies sni_routes::disjoint(after.routes()[name]) by {
        assert(before.routes().dom().contains(name));
    }
}

/// The fronts of a listener fit in with each other after one more that does is
/// added.
proof fn lemma_added_fronts_ok(before: TcpListener, after: TcpListener, front: RequestTcpFrontend)
    requires
        before.fronts_ok(),
        before.front_error(front) is None,
        TcpProxy::front_added(before, after, front),
    ensures
        after.fronts_ok(),
{
    if let Some(sni) = front.sni {
        let key = alpn::route_key(sni@);
        let route = (alpn::matched_protocols(front.alpn@), front.cluster_id@);
        assert forall|name: Seq<u8>| #[trigger]
            after.routes().dom().contains(name) implies sni_routes::disjoint(
            after.routes()[name],
        ) by {
            if name != key {
                assert(before.routes().dom().contains(name));
            } else if before.routes().dom().contains(key) {
                let old_routes = before.routes()[key];
                let routes = after.routes()[key];
                assert(routes == old_routes.push(route));
                assert forall|i: int, j: int| 0 <= i < j < routes.len() implies !sni_routes::overlap(
                    #[trigger] routes[i],
                    #[trigger] routes[j],
                ) by {
                    assert(routes[i] == old_routes[i]);
                    if j < old_routes.len() {
                        assert(routes[j] == old_routes[j]);
                    } else {
                        lemma_fits_beside(before, front, i);
                    }
                }
            }
        }
    } else {
        assert(after.routes() == before.routes());
    }
}

/// The fronts of a listener fit in with each other after one is removed.
proof fn lemma_removed_fronts_ok(
    before: TcpListener,
    after: TcpListener,
    front: RequestTcpFrontend,
)
    requires
        before.fronts_ok(),
        TcpProxy::front_removed(before, after, front),
    ensures
        after.fronts_ok(),
{
    if let Some(sni) = front.sni {
        let key = alpn::route_key(sni@);
        let route = (alpn::matched_protocols(front.alpn@), front.cluster_id@);
        sni_routes::lemma_without_route(before.routes()[key], route);
        if before.cluster_id is Some {
            assert(after.routes() =~= before.routes());
        }
        assert forall|name: Seq<u8>| #[trigger]
            after.routes().dom().contains(name) implies sni_routes::disjoint(
            after.routes()[name],
        ) by {
            assert(before.routes().dom().contains(name));
        }
    } else {
        assert(after.routes() == before.routes());
    }
}

proof fn lemma_no_clash(
    sni: Seq<char>,
    alpn: Seq<String>,
    routes: Seq<sni_routes::RouteModel>,
    i: int,
)
    requires
        tcp_listener::first_clash(sni, alpn, routes) is None,
        0 <= i < routes.len(),
    ensures
        tcp_listener::clash(sni, alpn, routes[i]) is None,
    decreases routes.len(),
{
    if i < routes.len() - 1 {
        lemma_no_clash(sni, alpn, routes.drop_last(), i);
    }
}

proof fn lemma_first_in_some(alpn: Seq<String>, protocols: Set<Seq<u8>>, k: int)
    requires
        0 <= k < alpn.len(),
        protocols.contains(vstd::utf8::encode_utf8(alpn[k]@)),
    ensures
        tcp_listener::first_in(alpn, protocols) is Some,
    decreases alpn.len(),
{
    if k < alpn.len() - 1 {
        assert(alpn.drop_last()[k] == alpn[k]);
        lemma_first_in_some(alpn.drop_last(), protocols, k);
    }
}

/// What the listeners of every proxy meet.
pub open spec fn listeners_ok(listeners: Seq<TcpListener>) -> bool {
    &&& forall|i: int|
        0 <= i < listeners.len() ==> (#[trigger] listeners[i]).wf() && listeners[i].fronts_ok()
    &&& forall|i: int, j: int|
        0 <= i < listeners.len() && 0 <= j < listeners.len() && i != j ==> (
        #[trigger] listeners[i]).token != (#[trigger] listeners[j]).token
}

/// Listeners stay as they must be when one of them changes as it may.
proof fn lemma_update_ok(listeners: Seq<TcpListener>, i: int, l: TcpListener)
    requires
        listeners_ok(listeners),
        0 <= i < listeners.len(),
        l.wf(),
        l.fronts_ok(),
        l.token == listeners[i].token,
    ensures
        listeners_ok(listeners.update(i, l)),
{
    let after = listeners.update(i, l);
    assert forall|p: int| 0 <= p < after.len() implies (#[trigger] after[p]).wf()
        && after[p].fronts_ok() by {
        if p != i {
            assert(listeners[p].wf() && listeners[p].fronts_ok());
        }
    }
    assert forall|p: int, q: int|
        0 <= p < after.len() && 0 <= q < after.len() && p != q implies (
    #[trigger] after[p]).token != (#[trigger] after[q]).token by {
        assert(listeners[p].token != listeners[q].token);
    }
}

/// Listeners stay as they must be when those at an address go.
proof fn lemma_not_at(listeners: Seq<TcpListener>, address: SocketAddr)
    requires
        listeners_ok(listeners),
    ensures
        listeners_ok(not_at(listeners, address)),
        forall|k: int|
            0 <= k < not_at(listeners, address).len() ==> listeners.contains(
                #[trigger] not_at(listeners, address)[k],
            ),
    decreases listeners.len(),
{
    if listeners.len() > 0 {
        let front = listeners.drop_last();
        assert forall|p: int| 0 <= p < front.len() implies #[trigger] front[p] == listeners[p] by {}
        assert(listeners_ok(front)) by {
            assert forall|p: int| 0 <= p < front.len() implies (#[trigger] front[p]).wf()
                && front[p].fronts_ok() by {
                assert(listeners[p].wf());
            }
            assert forall|p: int, q: int|
                0 <= p < front.len() && 0 <= q < front.len() && p != q implies (
            #[trigger] front[p]).token != (#[trigger] front[q]).token by {
                assert(listeners[p].token != listeners[q].token);
            }
        }
        lemma_not_at(front, address);
        let kept = not_at(front, address);
        let result = not_at(listeners, address);
        assert forall|k: int| 0 <= k < result.len() implies listeners.contains(
            #[trigger] result[k],
        ) by {
            if k < kept.len() {
                assert(front.contains(kept[k]));
                let p = choose|p: int| 0 <= p < front.len() && front[p] == kept[k];
                assert(listeners[p] == result[k]);
            } else {
                assert(listeners[listeners.len() - 1] == result[k]);
            }
        }
        assert forall|p: int| 0 <= p < result.len() implies (#[trigger] result[p]).wf()
            && result[p].fronts_ok() by {
            assert(listeners.contains(result[p]));
            let k = choose|k: int| 0 <= k < listeners.len() && listeners[k] == result[p];
            assert(listeners[k].wf());
        }
        assert forall|p: int, q: int|
            0 <= p < result.len() && 0 <= q < result.len() && p != q implies (
        #[trigger] result[p]).token != (#[trigger] result[q]).token by {
            if p < kept.len() && q < kept.len() {
                assert(kept[p].token != kept[q].token);
            } else if p < kept.len() {
                assert(front.contains(kept[p]));
                let k = choose|k: int| 0 <= k < front.len() && front[k] == kept[p];
                assert(listeners[k].token != listeners[listeners.len() - 1].token);
            } else if q < kept.len() {
                assert(front.contains(kept[q]));
                let k = choose|k: int| 0 <= k < front.len() && front[k] == kept[q];
                assert(listeners[k].token != listeners[listeners.len() - 1].token);
            }
        }
    }
}

/// The listener at an address is the first one there, and the listener with a
/// token the one that has it.
pub proof fn law_listeners_are_found(
    listeners: Seq<TcpListener>,
    address: SocketAddr,
    token: Token,
    i: int,
)
    requires
        0 <= i < listeners.len(),
    ensures
        listeners[i].address == address && (forall|j: int|
            0 <= j < i ==> (#[trigger] listeners[j]).address != address) ==> listener_at(
            listeners,
            address,
        ) == Some(i),
        listeners[i].token == token && (forall|j: int|
            0 <= j < i ==> (#[trigger] listeners[j]).token != token) ==> listener_with(
            listeners,
            token,
        ) == Some(i),
        listener_at(listeners, address) is None ==> listeners[i].address != address,
        listener_with(listeners, token) is None ==> listeners[i].token != token,
{
    lemma_listener_at(listeners, address);
    lemma_listener_with(listeners, token);
    if let Some(k) = listener_at(listeners, address) {
        if listeners[i].address == address && k < i {
            assert(listeners[k].address == address);
        }
    }
    if let Some(k) = listener_with(listeners, token) {
        if listeners[i].token == token && k < i {
            assert(listeners[k].token == token);
        }
    }
}

/// Removing the listeners at an address leaves the others, in their order.
pub proof fn law_only_listeners_at_the_address_are_removed(
    listeners: Seq<TcpListener>,
    address: SocketAddr,
)
    ensures
        not_at(listeners, address) == listeners.filter(|l: TcpListener| l.address != address),
        listener_at(not_at(listeners, address), address) is None,
        listener_at(listeners, address) is None ==> not_at(listeners, address) == listeners,
    decreases listeners.len(),
{
    reveal(Seq::filter);
    if listeners.len() > 0 {
        let front = listeners.drop_last();
        law_only_listeners_at_the_address_are_removed(front, address);
        let rest = not_at(listeners, address);
        if listeners.last().address != address {
            assert(rest.drop_last() =~= not_at(front, address));
            assert(rest.last() == listeners.last());
        }
        if listener_at(listeners, address) is None {
            assert(rest =~= listeners);
        }
    }
}

/// The sockets that are given back are those of the listeners that have one, with
/// the addresses of these, in their order; afterwards none of these has one, and
/// none of them is active. Nothing else of them changes.
pub proof fn law_every_open_socket_is_given_back(listeners: Seq<TcpListener>, i: int)
    requires
        0 <= i < listeners.len(),
    ensures
        listeners[i].listener matches Some(fd) ==> open_sockets(listeners).contains(
            (listeners[i].address, fd),
        ),
        open_sockets(listeners).len() <= listeners.len(),
        (forall|j: int| 0 <= j < listeners.len() ==> (#[trigger] listeners[j]).listener is None)
            ==> open_sockets(listeners).len() == 0,
        forall|k: int|
            0 <= k < open_sockets(listeners).len() ==> exists|j: int|
                0 <= j < listeners.len() && (#[trigger] listeners[j]).address == (
                #[trigger] open_sockets(listeners)[k]).0 && listeners[j].listener == Some(
                    open_sockets(listeners)[k].1,
                ),
    decreases listeners.len(),
{
    let front = listeners.drop_last();
    let all = open_sockets(listeners);
    let before = open_sockets(front);
    assert(listeners[listeners.len() - 1] == listeners.last());
    if front.len() > 0 {
        let n = if i < front.len() {
            i
        } else {
            0
        };
        law_every_open_socket_is_given_back(front, n);
        assert forall|j: int| 0 <= j < front.len() implies #[trigger] front[j] == listeners[j] by {}
        if i < front.len() && listeners[i].listener is Some {
            let k = before.index_of((listeners[i].address, listeners[i].listener->0));
            assert(all[k] == before[k]);
        }
    }
    if listeners.last().listener is Some {
        assert(all.last() == (listeners.last().address, listeners.last().listener->0));
        assert(all[all.len() - 1] == all.last());
    }
    assert forall|k: int| 0 <= k < all.len() implies exists|j: int|
        0 <= j < listeners.len() && (#[trigger] listeners[j]).address == (#[trigger] all[k]).0
            && listeners[j].listener == Some(all[k].1) by {
        if k < before.len() {
            assert(all[k] == before[k]);
            let j = choose|j: int|
                0 <= j < front.len() && (#[trigger] front[j]).address == before[k].0
                    && front[j].listener == Some(before[k].1);
            assert(listeners[j] == front[j]);
        } else {
            assert(listeners[listeners.len() - 1].address == all[k].0);
        }
    }
}

/// A listener that gave its socket back has none and is not active; one that had
/// none stays as it is. All else stays.
pub proof fn law_what_giving_a_socket_back_leaves(l: TcpListener)
    ensures
        ({
            let after = without_socket(l);
            &&& after.listener is None
            &&& l.listener is Some ==> !after.active
            &&& l.listener is None ==> after == l
            &&& after.address == l.address && after.address_text == l.address_text
            &&& after.cluster_id == l.cluster_id && after.config == l.config
            &&& after.parked_listener == l.parked_listener
            &&& after.sni_routes == l.sni_routes && after.tags == l.tags && after.token == l.token
        }),
{
}

/// A change of one listener leaves the others, the fronts and the clusters.
pub proof fn law_a_change_of_one_listener_leaves_the_others(
    before: TcpProxy,
    after: TcpProxy,
    i: int,
    listener: TcpListener,
    j: int,
)
    requires
        after.changed_at(before, i, listener),
        0 <= i < before.listeners@.len(),
        0 <= j < before.listeners@.len(),
    ensures
        after.listeners@.len() == before.listeners@.len(),
        after.listeners@[i] == listener,
        j != i ==> after.listeners@[j] == before.listeners@[j],
        after.fronts == before.fronts,
        after.configs == before.configs,
{
}

/// A front that was added leads from its listener to its cluster: for its server
/// name and its protocols, behind the fronts that there were, or else for
/// everything. Its tags are kept, its cluster's front is at the listener, and all
/// other names, tags, clusters and listeners stay.
pub proof fn law_what_adding_a_front_does(
    before: TcpProxy,
    after: TcpProxy,
    i: int,
    front: RequestTcpFrontend,
    name: Seq<u8>,
    cluster: Seq<char>,
    key: Seq<char>,
    j: int,
)
    requires
        after.has_front_added(before, i, front),
        0 <= i < before.listeners@.len(),
        0 <= j < before.listeners@.len(),
        cluster != front.cluster_id@,
        key != front_key(before.listeners@[i], front),
    ensures
        ({
            let was = before.listeners@[i];
            let now = after.listeners@[i];
            let own = alpn::route_key(front.sni->0@);
            &&& after.fronts.map().dom().contains(front.cluster_id@)
            &&& after.fronts.map()[front.cluster_id@] == was.token
            &&& after.fronts.map().dom().contains(cluster)
                <==> before.fronts.map().dom().contains(cluster)
            &&& after.fronts.map().dom().contains(cluster) ==> after.fronts.map()[cluster]
                == before.fronts.map()[cluster]
            &&& j != i ==> after.listeners@[j] == before.listeners@[j]
            &&& now.tags.map().dom().contains(front_key(was, front))
            &&& now.tags.map()[front_key(was, front)] == front.tags
            &&& now.tags.map().dom().contains(key) <==> was.tags.map().dom().contains(key)
            &&& now.tags.map().dom().contains(key) ==> now.tags.map()[key] == was.tags.map()[key]
            &&& now.token == was.token && now.config == was.config && now.active == was.active
            &&& now.listener == was.listener && now.address == was.address
            &&& front.sni is None ==> now.cluster_id == Some(front.cluster_id) && now.routes()
                == was.routes()
            &&& front.sni is Some ==> {
                &&& now.cluster_id == was.cluster_id
                &&& now.routes().dom().contains(own)
                &&& now.routes()[own].last() == (
                    alpn::matched_protocols(front.alpn@),
                    front.cluster_id@,
                )
                &&& was.routes().dom().contains(own) ==> now.routes()[own].drop_last()
                    == was.routes()[own]
                &&& !was.routes().dom().contains(own) ==> now.routes()[own].len() == 1
                &&& name != own ==> (now.routes().dom().contains(name)
                    <==> was.routes().dom().contains(name))
                &&& name != own && now.routes().dom().contains(name) ==> now.routes()[name]
                    == was.routes()[name]
            }
        }),
{
    let was = before.listeners@[i];
    let own = alpn::route_key(front.sni->0@);
    if front.sni is Some && was.routes().dom().contains(own) {
        assert(after.listeners@[i].routes()[own].drop_last() =~= was.routes()[own]);
    }
}

/// A front that was removed leads nowhere: no route of its name is for its
/// protocols and its cluster, or the listener has no cluster. Its tags are gone,
/// and all other names, tags and listeners stay.
pub proof fn law_what_removing_a_front_does(
    before: TcpProxy,
    after: TcpProxy,
    i: int,
    front: RequestTcpFrontend,
    name: Seq<u8>,
    key: Seq<char>,
    j: int,
)
    requires
        after.has_front_removed(before, i, front),
        0 <= i < before.listeners@.len(),
        0 <= j < before.listeners@.len(),
        key != front_key(before.listeners@[i], front),
    ensures
        ({
            let was = before.listeners@[i];
            let now = after.listeners@[i];
            let own = alpn::route_key(front.sni->0@);
            let route = (alpn::matched_protocols(front.alpn@), front.cluster_id@);
            &&& j != i ==> after.listeners@[j] == before.listeners@[j]
            &&& !now.tags.map().dom().contains(front_key(was, front))
            &&& now.tags.map().dom().contains(key) <==> was.tags.map().dom().contains(key)
            &&& now.tags.map().dom().contains(key) ==> now.tags.map()[key] == was.tags.map()[key]
            &&& now.token == was.token && now.config == was.config && now.active == was.active
            &&& now.listener == was.listener && now.address == was.address
            &&& front.sni is None ==> now.cluster_id is None && now.routes() == was.routes()
            &&& front.sni is None && was.cluster_id is Some
                ==> !after.fronts.map().dom().contains(was.cluster_id->0@)
            &&& front.sni is None && was.cluster_id is None ==> after.fronts.map()
                == before.fronts.map()
            &&& front.sni is Some ==> {
                &&& !after.fronts.map().dom().contains(front.cluster_id@)
                &&& now.cluster_id == was.cluster_id
                &&& now.routes().dom().contains(own) ==> now.routes()[own].len() > 0
                    && !now.routes()[own].contains(route) && now.routes()[own]
                    == was.routes()[own].filter(|r: sni_routes::RouteModel| r != route)
                &&& name != own ==> (now.routes().dom().contains(name)
                    <==> was.routes().dom().contains(name))
                &&& name != own && now.routes().dom().contains(name) ==> now.routes()[name]
                    == was.routes()[name]
                &&& !was.routes().dom().contains(own) ==> now.routes() == was.routes()
            }
        }),
{
    let was = before.listeners@[i];
    let own = alpn::route_key(front.sni->0@);
    let route = (alpn::matched_protocols(front.alpn@), front.cluster_id@);
    sni_routes::law_only_like_routes_are_removed(was.routes()[own], route);
}

/// A session is created for a connection if and only if its listener is there,
/// has somewhere to go, and there are buffers; only where there are none,
/// accepting is to stop.
pub proof fn law_when_a_session_is_created(proxy: TcpProxy, token: ListenToken, buffers: bool)
    ensures
        ({
            let error = proxy.session_error(token, buffers);
            let at = listener_with(proxy.listeners@, Token(token.0));
            let l = proxy.listeners@[at->0];
            let leads_on = l.cluster_id is Some || exists|name: Seq<u8>| #[trigger]
                l.routes().dom().contains(name);
            &&& error is None <==> at is Some && buffers && leads_on
            &&& error == Some(AcceptError::BufferCapacityReached) <==> at is Some && !buffers
            &&& error is Some && error != Some(AcceptError::BufferCapacityReached) ==> error
                == Some(AcceptError::IoError)
        }),
{
    let at = listener_with(proxy.listeners@, Token(token.0));
    let l = proxy.listeners@[at->0];
    let none = Map::<Seq<u8>, Seq<sni_routes::RouteModel>>::empty();
    if forall|name: Seq<u8>| !#[trigger] l.routes().dom().contains(name) {
        assert(l.routes() =~= none);
    }
}

/// The slot of a client is for TCP, leads to the client itself, and has the time
/// of its creation.
pub proof fn law_the_slot_of_a_client(token: Token, now: u64)
    ensures
        TcpProxy::client_slot(token, now).protocol is TCP,
        TcpProxy::client_slot(token, now).frontend_token == token,
        TcpProxy::client_slot(token, now).last_event == now,
{
}

} // verus!
