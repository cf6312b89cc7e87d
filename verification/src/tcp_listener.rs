//! A TCP listener: its configuration, its fronts, and where their traffic goes.
use vstd::prelude::*;

use crate::alpn;
use crate::alpn::{route_key_and_matcher, AlpnMatcher};
use crate::bind::ServerBindError;
use crate::bytes;
use crate::bytes::contains_bytes;
use crate::net::SocketAddr;
use crate::sni_routes;
use crate::sni_routes::{validate_sni_pattern, SniRoutes};
use crate::socket::IoErrorKind;
use crate::table::Table;
use crate::text;
use crate::Token;

verus! {

/// How many bytes of a connection may be read to find the server name, if the
/// configuration does not say.
pub const DEFAULT_SNI_PREREAD_MAX_BYTES: u32 = 16384;

/// How many bytes of a connection may be read to find the server name at least:
/// those of the header of a TLS record.
pub const MIN_SNI_PREREAD_MAX_BYTES: u32 = 5;

/// How many seconds finding the server name may take, if the configuration does
/// not say.
pub const DEFAULT_SNI_PREREAD_TIMEOUT: u32 = 3;

/// Why a proxy could not do what it was asked for.
#[derive(Debug)]
pub enum ProxyError {
    /// There is a listener with that token.
    ListenerAlreadyPresent,
    /// There is no listener at that address.
    NoListenerFound(SocketAddr),
    /// The listener has no socket.
    UnactivatedListener,
    /// The socket could not be bound.
    BindToSocket(SocketAddr, ServerBindError),
    /// The socket could not be watched.
    RegisterListener(IoErrorKind),
    /// The front would not fit in with those that the listener has.
    InvalidTcpFrontend { address: SocketAddr, reason: String },
}

/// Why a listener cannot have a configuration.
#[derive(Debug)]
pub struct ListenerError {
    pub reason: String,
}

/// The configuration of a TCP listener.
#[derive(Debug)]
pub struct TcpListenerConfig {
    pub address: SocketAddr,
    pub public_address: Option<SocketAddr>,
    pub expect_proxy: bool,
    /// In seconds.
    pub front_timeout: u32,
    /// In seconds.
    pub back_timeout: u32,
    /// In seconds.
    pub connect_timeout: u32,
    /// In seconds.
    pub sni_preread_timeout: Option<u32>,
    pub sni_preread_max_bytes: Option<u32>,
}

/// A change of the configuration of a TCP listener: what is absent stays.
#[derive(Debug)]
pub struct UpdateTcpListenerConfig {
    pub address: SocketAddr,
    pub public_address: Option<SocketAddr>,
    pub expect_proxy: Option<bool>,
    pub front_timeout: Option<u32>,
    pub back_timeout: Option<u32>,
    pub connect_timeout: Option<u32>,
}

/// A front of a TCP listener, as it is asked for.
#[derive(Debug)]
pub struct RequestTcpFrontend {
    pub cluster_id: String,
    pub address: SocketAddr,
    pub tags: Table<String, String>,
    pub sni: Option<String>,
    pub alpn: Vec<String>,
}

/// How a session finds the server name that a client asks for.
#[derive(Debug)]
pub struct PrereadConfig<'a> {
    pub routes: &'a SniRoutes,
    pub inbound_proxy: bool,
    pub max_bytes: usize,
    pub timeout_seconds: u32,
    pub accept_wildcard: bool,
}

/// What activating a listener takes.
#[derive(Copy, Clone, Debug, PartialEq, Eq, Structural)]
pub enum ListenerActivation {
    /// Nothing: it is active.
    AlreadyActive(Token),
    /// A socket is to be bound to an address and watched.
    Bind(SocketAddr),
    /// The socket that there is, is to be watched.
    Register,
    /// The socket that was parked is to be watched.
    RegisterParked(i32),
}

/// A TCP listener.
#[derive(Debug)]
pub struct TcpListener {
    pub active: bool,
    pub address: SocketAddr,
    /// How the address is shown.
    pub address_text: String,
    /// The cluster that all traffic goes to, unless it is routed by server name.
    pub cluster_id: Option<String>,
    pub config: TcpListenerConfig,
    /// The socket, if the listener is active.
    pub listener: Option<i32>,
    /// A socket that could not be watched. It is kept open for the next
    /// activation, and is never taken for that of an active listener.
    pub parked_listener: Option<i32>,
    pub sni_routes: SniRoutes,
    /// The tags of each front.
    pub tags: Table<String, Table<String, String>>,
    pub token: Token,
}

/// How `{:?}` shows a text.
pub uninterp spec fn str_debug(s: Seq<char>) -> Seq<char>;

/// Formats a text with the `Debug` of `str`. What it shows depends on the text
/// alone.
#[verifier::external_body]
fn debug_text(s: &str) -> (shown: String)
    ensures
        shown@ == str_debug(s@),
{
    format!("{:?}", s)
}

/// How a list of texts is shown: its items, between brackets, with commas in
/// between.
pub open spec fn list_debug(items: Seq<String>) -> Seq<char> {
    "["@ + items_debug(items) + "]"@
}

/// Texts as they are shown, with commas in between.
pub open spec fn items_debug(items: Seq<String>) -> Seq<char>
    decreases items.len(),
{
    if items.len() == 0 {
        Seq::empty()
    } else if items.len() == 1 {
        str_debug(items[0]@)
    } else {
        items_debug(items.drop_last()) + ", "@ + str_debug(items.last()@)
    }
}

fn debug_list(items: &Vec<String>) -> (shown: String)
    ensures
        shown@ == list_debug(items@),
{
    let mut shown = String::from_str("[");
    let mut i: usize = 0;
    assert(shown@ =~= "["@ + items_debug(items@.take(0)));
    while i < items.len()
        invariant
            i <= items@.len(),
            shown@ == "["@ + items_debug(items@.take(i as int)),
        decreases items@.len() - i,
    {
        let ghost before = shown@;
        proof {
            assert(items@.take(i + 1).drop_last() =~= items@.take(i as int));
            assert(items@.take(i + 1).last() == items@[i as int]);
        }
        if i > 0 {
            shown.append(", ");
        }
        shown.append(debug_text(items[i].as_str()).as_str());
        assert(shown@ =~= "["@ + items_debug(items@.take(i + 1)));
        i += 1;
    }
    assert(items@.take(items@.len() as int) =~= items@);
    shown.append("]");
    shown
}

/// The first of some protocols that is in a set.
pub open spec fn first_in(alpn: Seq<String>, protocols: Set<Seq<u8>>) -> Option<Seq<char>>
    decreases alpn.len(),
{
    if alpn.len() == 0 {
        None
    } else {
        match first_in(alpn.drop_last(), protocols) {
            Some(p) => Some(p),
            None => if protocols.contains(vstd::utf8::encode_utf8(alpn.last()@)) {
                Some(alpn.last()@)
            } else {
                None
            },
        }
    }
}

/// Why a front for these protocols, or for all if there are none, cannot stand
/// beside a route under the same server name, which is shown as `sni`.
pub open spec fn clash(
    sni: Seq<char>,
    alpn: Seq<String>,
    route: sni_routes::RouteModel,
) -> Option<Seq<char>> {
    match route.0 {
        None => if alpn.len() == 0 {
            Some(
                "sni "@ + str_debug(sni)
                    + " already has a catch-all (empty alpn) frontend: at most one frontend per (address, sni) may omit alpn"@,
            )
        } else {
            None
        },
        Some(protocols) => match first_in(alpn, protocols) {
            Some(overlap) => Some(
                "sni "@ + str_debug(sni) + " already has a frontend matching ALPN protocol "@
                    + str_debug(overlap)
                    + ": ALPN matchers for the same (address, sni) must not overlap"@,
            ),
            None => None,
        },
    }
}

/// Why a front cannot stand beside the first of some routes beside which it
/// cannot.
pub open spec fn first_clash(
    sni: Seq<char>,
    alpn: Seq<String>,
    routes: Seq<sni_routes::RouteModel>,
) -> Option<Seq<char>>
    decreases routes.len(),
{
    if routes.len() == 0 {
        None
    } else {
        match first_clash(sni, alpn, routes.drop_last()) {
            Some(reason) => Some(reason),
            None => clash(sni, alpn, routes.last()),
        }
    }
}

impl TcpListener {
    /// What every listener meets: it is active exactly while it has a socket.
    pub open spec fn wf(self) -> bool {
        &&& self.sni_routes.wf()
        &&& self.tags.wf()
        &&& self.active == self.listener is Some
    }

    /// Whether the listener does not route both by server name and to one
    /// cluster.
    pub open spec fn unmixed(self) -> bool {
        self.cluster_id is None || self.routes() == Map::<
            Seq<u8>,
            Seq<sni_routes::RouteModel>,
        >::empty()
    }

    /// Whether no two routes under one server name overlap.
    pub open spec fn disjoint(self) -> bool {
        forall|name: Seq<u8>| #[trigger]
            self.routes().dom().contains(name) ==> sni_routes::disjoint(self.routes()[name])
    }

    /// Whether the fronts of the listener fit in with each other.
    pub open spec fn fronts_ok(self) -> bool {
        self.unmixed() && self.disjoint()
    }

    /// The routes, by server name.
    pub open spec fn routes(self) -> Map<Seq<u8>, Seq<sni_routes::RouteModel>> {
        self.sni_routes.routes()
    }

    /// Why a front cannot be added, if it cannot.
    pub open spec fn front_error(self, front: RequestTcpFrontend) -> Option<Seq<char>> {
        match front.sni {
            None => if front.alpn@.len() > 0 {
                Some(
                    "alpn = "@ + list_debug(front.alpn@)
                        + " set without sni: alpn only matches within an SNI-scoped preread, so a frontend without sni would silently ignore its alpn list"@,
                )
            } else if self.routes() != Map::<Seq<u8>, Seq<sni_routes::RouteModel>>::empty() {
                Some(
                    "a no-SNI frontend cannot be added to a listener that already has SNI-scoped routes"@,
                )
            } else {
                None
            },
            Some(sni) => if self.cluster_id is Some {
                Some(
                    "an SNI-scoped frontend cannot be added to a listener that already has a no-SNI catch-all cluster"@,
                )
            } else {
                match sni_routes::sni_pattern_error(sni@) {
                    Some(e) => Some(
                        "sni "@ + str_debug(sni@) + " failed SNI shape validation: "@ + e.text(),
                    ),
                    None => if self.routes().dom().contains(alpn::route_key(sni@)) {
                        first_clash(sni@, front.alpn@, self.routes()[alpn::route_key(sni@)])
                    } else {
                        None
                    },
                }
            },
        }
    }

    /// Whether a listener is as it was created.
    pub open spec fn is_new(
        self,
        config: TcpListenerConfig,
        address_text: String,
        token: Token,
    ) -> bool {
        &&& !self.active
        &&& self.listener is None
        &&& self.parked_listener is None
        &&& self.address == config.address
        &&& self.address_text == address_text
        &&& self.cluster_id is None
        &&& self.config == config
        &&& self.routes() == Map::<Seq<u8>, Seq<sni_routes::RouteModel>>::empty()
        &&& self.tags.map() == Map::<Seq<char>, Table<String, String>>::empty()
        &&& self.token == token
    }

    /// A listener that is not active and has no front.
    pub fn new(config: TcpListenerConfig, address_text: String, token: Token) -> (l: TcpListener)
        ensures
            l.wf(),
            l.fronts_ok(),
            l.is_new(config, address_text, token),
    {
        TcpListener {
            active: false,
            address: config.address,
            address_text,
            cluster_id: None,
            config,
            listener: None,
            parked_listener: None,
            sni_routes: SniRoutes::new(),
            tags: Table::new(),
            token,
        }
    }

    /// Whether a listener can have a configuration: there is none that it
    /// cannot have.
    pub fn validate_config(_config: &TcpListenerConfig) -> (r: Result<(), ListenerError>)
        ensures
            r is Ok,
    {
        Ok(())
    }

    /// The tags under a key.
    pub fn get_tags(&self, key: &String) -> (tags: Option<&Table<String, String>>)
        requires
            self.wf(),
        ensures
            tags == if self.tags.map().dom().contains(key@) {
                Some(&self.tags.map()[key@])
            } else {
                None
            },
    {
        self.tags.get(key)
    }

    /// Sets the tags under a key, or removes them.
    pub fn set_tags(&mut self, key: String, tags: Option<Table<String, String>>)
        requires
            old(self).wf(),
        ensures
            final(self).wf(),
            *final(self) == (TcpListener { tags: final(self).tags, ..*old(self) }),
            final(self).tags.map() == match tags {
                Some(t) => old(self).tags.map().insert(key@, t),
                None => old(self).tags.map().remove(key@),
            },
    {
        match tags {
            Some(tags) => {
                self.tags.insert(key, tags);
            },
            None => {
                let _ = self.tags.remove(&key);
            },
        }
    }

    /// The address that clients use.
    pub fn public_address(&self) -> (address: SocketAddr)
        ensures
            address == match self.config.public_address {
                Some(a) => a,
                None => self.address,
            },
    {
        match self.config.public_address {
            Some(address) => address,
            None => self.address,
        }
    }

    /// How a session of this listener finds the server name, when it may read
    /// this many bytes for it.
    pub fn preread_config(&self, effective_max_bytes: usize) -> (config: PrereadConfig<'_>)
        ensures
            *config.routes == self.sni_routes,
            config.inbound_proxy == self.config.expect_proxy,
            config.max_bytes == effective_max_bytes,
            config.timeout_seconds == self.preread_timeout(),
            config.accept_wildcard,
    {
        PrereadConfig {
            routes: &self.sni_routes,
            inbound_proxy: self.config.expect_proxy,
            max_bytes: effective_max_bytes,
            timeout_seconds: self.preread_timeout_seconds(),
            accept_wildcard: true,
        }
    }

    /// How many seconds finding the server name may take.
    pub open spec fn preread_timeout(self) -> u32 {
        match self.config.sni_preread_timeout {
            Some(t) => t,
            None => DEFAULT_SNI_PREREAD_TIMEOUT,
        }
    }

    /// How many seconds finding the server name may take.
    pub fn preread_timeout_seconds(&self) -> (seconds: u32)
        ensures
            seconds == self.preread_timeout(),
    {
        match self.config.sni_preread_timeout {
            Some(t) => t,
            None => DEFAULT_SNI_PREREAD_TIMEOUT,
        }
    }

    /// Fails where a front would not fit in with those that the listener has:
    /// one for protocols but for no server name, one for no server name beside
    /// those that are for one, one for a server name beside one that is for
    /// none, one whose server name is not of the right shape, and one for offers
    /// that another one under the same server name is for.
    pub fn validate_new_tcp_front(&self, front: &RequestTcpFrontend) -> (r: Result<(), ProxyError>)
        requires
            self.wf(),
        ensures
            match self.front_error(*front) {
                None => r is Ok,
                Some(reason) => r matches Err(ProxyError::InvalidTcpFrontend { address, reason: why })
                    && address == self.address && why@ == reason,
            },
    {
        let sni = match &front.sni {
            None => {
                if front.alpn.len() > 0 {
                    return self.reject(
                        text::concat3(
                            "alpn = ",
                            debug_list(&front.alpn).as_str(),
                            " set without sni: alpn only matches within an SNI-scoped preread, so a frontend without sni would silently ignore its alpn list",
                        ),
                    );
                }
                if !self.sni_routes.is_empty() {
                    return self.reject(
                        String::from_str(
                            "a no-SNI frontend cannot be added to a listener that already has SNI-scoped routes",
                        ),
                    );
                }
                return Ok(());
            },
            Some(sni) => sni,
        };
        if self.cluster_id.is_some() {
            return self.reject(
                String::from_str(
                    "an SNI-scoped frontend cannot be added to a listener that already has a no-SNI catch-all cluster",
                ),
            );
        }
        let normalized = match validate_sni_pattern(sni.as_str()) {
            Ok(normalized) => normalized,
            Err(e) => {
                let mut reason = text::concat3(
                    "sni ",
                    debug_text(sni.as_str()).as_str(),
                    " failed SNI shape validation: ",
                );
                reason.append(e.message());
                return self.reject(reason);
            },
        };
        let key = normalized.as_str().as_bytes_vec();
        let routes = match self.sni_routes.own_routes(&key) {
            Some(routes) => routes,
            None => {
                return Ok(());
            },
        };
        match find_clash(sni, &front.alpn, routes) {
            Some(reason) => self.reject(reason),
            None => Ok(()),
        }
    }

    fn reject(&self, reason: String) -> (r: Result<(), ProxyError>)
        ensures
            r matches Err(ProxyError::InvalidTcpFrontend { address, reason: why }) && address
                == self.address && why@ == reason@,
    {
        Err(ProxyError::InvalidTcpFrontend { address: self.address, reason })
    }

    /// Adds the route of a front behind those under the same server name. A
    /// name with an empty label gets no route. Any other name is kept as it is:
    /// that no label is a regular expression and no wildcard stands out of place
    /// is tested when a front is validated.
    pub fn insert_sni_route(&mut self, sni: String, alpn: Vec<String>, cluster_id: String) -> (r:
        Result<(), ProxyError>)
        requires
            old(self).wf(),
        ensures
            final(self).wf(),
            r is Ok <==> !sni_routes::has_empty_label(sni@),
            r is Ok ==> *final(self) == (TcpListener {
                sni_routes: final(self).sni_routes,
                ..*old(self)
            }) && final(self).routes() == old(self).routes().insert(
                alpn::route_key(sni@),
                old(self).sni_routes.with_route(
                    alpn::route_key(sni@),
                    (alpn::matched_protocols(alpn@), cluster_id@),
                ),
            ),
            r is Err ==> *final(self) == *old(self),
            r matches Err(e) ==> (e matches ProxyError::InvalidTcpFrontend { address, reason }
                && address == old(self).address && reason@
                == "internal error: the route table rejected sni "@ + str_debug(sni@)
                + " despite passing shape validation"@),
    {
        if sni_routes::holds_empty_label(sni.as_str()) {
            let reason = text::concat3(
                "internal error: the route table rejected sni ",
                debug_text(sni.as_str()).as_str(),
                " despite passing shape validation",
            );
            return self.reject(reason);
        }
        let (key, matcher) = route_key_and_matcher(sni.as_str(), alpn);
        self.sni_routes.insert(key, matcher, cluster_id);
        Ok(())
    }

    /// Removes the route of a front. No server name is left without routes.
    pub fn remove_sni_route(&mut self, sni: String, alpn: Vec<String>, cluster_id: &String)
        requires
            old(self).wf(),
        ensures
            final(self).wf(),
            *final(self) == (TcpListener { sni_routes: final(self).sni_routes, ..*old(self) }),
            final(self).routes() == without_front(old(self).routes(), sni@, alpn@, cluster_id@),
    {
        let (key, matcher) = route_key_and_matcher(sni.as_str(), alpn);
        self.sni_routes.remove(&key, &matcher, cluster_id);
    }

    /// What activating the listener takes, with a socket at hand or without: a
    /// socket that is at hand comes before one that was parked.
    pub open spec fn activation_step(self, has_socket: bool) -> ListenerActivation {
        if self.active {
            ListenerActivation::AlreadyActive(self.token)
        } else if has_socket {
            ListenerActivation::Register
        } else {
            match self.parked_listener {
                Some(fd) => ListenerActivation::RegisterParked(fd),
                None => ListenerActivation::Bind(self.config.address),
            }
        }
    }

    /// What activating the listener takes, with a socket at hand or without.
    pub fn activation(&self, has_socket: bool) -> (step: ListenerActivation)
        ensures
            step == self.activation_step(has_socket),
    {
        if self.active {
            return ListenerActivation::AlreadyActive(self.token);
        }
        if has_socket {
            return ListenerActivation::Register;
        }
        match self.parked_listener {
            Some(fd) => ListenerActivation::RegisterParked(fd),
            None => ListenerActivation::Bind(self.config.address),
        }
    }

    /// The listener once a socket is watched for it: that socket is no longer
    /// parked.
    pub open spec fn watching(self, fd: i32) -> TcpListener {
        TcpListener {
            active: true,
            listener: Some(fd),
            parked_listener: if self.parked_listener == Some(fd) {
                None
            } else {
                self.parked_listener
            },
            ..self
        }
    }

    /// Takes in how activating the listener went: the socket that it was
    /// handed, that was parked or that was bound, and whether that is watched. A
    /// socket that is not watched is parked, so that it stays open, in the place
    /// of one that was parked before. A listener that is active stays as it is.
    pub fn activate(
        &mut self,
        socket: Result<i32, ServerBindError>,
        registered: Result<(), IoErrorKind>,
    ) -> (r: Result<Token, ProxyError>)
        requires
            old(self).wf(),
        ensures
            final(self).wf(),
            old(self).active ==> *final(self) == *old(self) && r == Ok::<Token, ProxyError>(
                old(self).token,
            ),
            !old(self).active ==> match (socket, registered) {
                (Ok(fd), Ok(())) => r == Ok::<Token, ProxyError>(old(self).token) && *final(self)
                    == old(self).watching(fd),
                (Ok(fd), Err(kind)) => r == Err::<Token, ProxyError>(
                    ProxyError::RegisterListener(kind),
                ) && *final(self) == (TcpListener { parked_listener: Some(fd), ..*old(self) }),
                (Err(e), _) => r == Err::<Token, ProxyError>(
                    ProxyError::BindToSocket(old(self).config.address, e),
                ) && *final(self) == *old(self),
            },
    {
        if self.active {
            return Ok(self.token);
        }
        match socket {
            Ok(fd) => {
                match registered {
                    Ok(()) => {
                        if let Some(parked) = self.parked_listener {
                            if parked == fd {
                                self.parked_listener = None;
                            }
                        }
                        self.listener = Some(fd);
                        self.active = true;
                        Ok(self.token)
                    },
                    Err(kind) => {
                        self.parked_listener = Some(fd);
                        Err(ProxyError::RegisterListener(kind))
                    },
                }
            },
            Err(e) => Err(ProxyError::BindToSocket(self.config.address, e)),
        }
    }

    /// Gives the socket back. The listener is no longer active, so that
    /// activating it takes a socket again.
    pub fn give_back(&mut self) -> (fd: Option<i32>)
        requires
            old(self).wf(),
        ensures
            final(self).wf(),
            fd == old(self).listener,
            *final(self) == (TcpListener { active: false, listener: None, ..*old(self) }),
    {
        let fd = self.listener.take();
        self.active = false;
        fd
    }

    /// Changes the configuration: what the change leaves out stays as it is.
    pub fn update_config(&mut self, patch: &UpdateTcpListenerConfig) -> (r: Result<
        (),
        ListenerError,
    >)
        requires
            old(self).wf(),
        ensures
            r is Ok,
            final(self).wf(),
            *final(self) == (TcpListener {
                config: patched(old(self).config, *patch),
                ..*old(self)
            }),
    {
        if let Some(v) = patch.public_address {
            self.config.public_address = Some(v);
        }
        if let Some(v) = patch.expect_proxy {
            self.config.expect_proxy = v;
        }
        if let Some(v) = patch.front_timeout {
            self.config.front_timeout = v;
        }
        if let Some(v) = patch.back_timeout {
            self.config.back_timeout = v;
        }
        if let Some(v) = patch.connect_timeout {
            self.config.connect_timeout = v;
        }
        Ok(())
    }
}

/// A configuration with a change made to it.
pub open spec fn patched(
    config: TcpListenerConfig,
    patch: UpdateTcpListenerConfig,
) -> TcpListenerConfig {
    TcpListenerConfig {
        public_address: match patch.public_address {
            Some(v) => Some(v),
            None => config.public_address,
        },
        expect_proxy: match patch.expect_proxy {
            Some(v) => v,
            None => config.expect_proxy,
        },
        front_timeout: match patch.front_timeout {
            Some(v) => v,
            None => config.front_timeout,
        },
        back_timeout: match patch.back_timeout {
            Some(v) => v,
            None => config.back_timeout,
        },
        connect_timeout: match patch.connect_timeout {
            Some(v) => v,
            None => config.connect_timeout,
        },
        ..config
    }
}

/// Routes without that of a front.
pub open spec fn without_front(
    routes: Map<Seq<u8>, Seq<sni_routes::RouteModel>>,
    sni: Seq<char>,
    alpn: Seq<String>,
    cluster_id: Seq<char>,
) -> Map<Seq<u8>, Seq<sni_routes::RouteModel>> {
    let key = alpn::route_key(sni);
    let rest = sni_routes::without_route(
        routes[key],
        (alpn::matched_protocols(alpn), cluster_id),
    );
    if !routes.dom().contains(key) {
        routes
    } else if rest.len() == 0 {
        routes.remove(key)
    } else {
        routes.insert(key, rest)
    }
}

/// The first of some protocols that a matcher names.
fn find_overlap<'a>(alpn: &'a Vec<String>, protocols: &Vec<Vec<u8>>) -> (overlap: Option<
    &'a String,
>)
    ensures
        overlap is Some <==> first_in(alpn@, bytes::contents(protocols@).to_set()) is Some,
        overlap matches Some(p) ==> first_in(alpn@, bytes::contents(protocols@).to_set()) == Some(
            p@,
        ),
{
    let ghost set = bytes::contents(protocols@).to_set();
    let mut i: usize = 0;
    while i < alpn.len()
        invariant
            i <= alpn@.len(),
            set == bytes::contents(protocols@).to_set(),
            first_in(alpn@.take(i as int), set) is None,
        decreases alpn@.len() - i,
    {
        let found = contains_bytes(protocols, alpn[i].as_str().as_bytes());
        proof {
            assert(alpn@.take(i + 1).drop_last() =~= alpn@.take(i as int));
            assert(alpn@.take(i + 1).last() == alpn@[i as int]);
            assert(found == set.contains(vstd::utf8::encode_utf8(alpn@[i as int]@)));
        }
        if found {
            proof {
                lemma_first_in_prefix(alpn@, i + 1, set);
            }
            return Some(&alpn[i]);
        }
        i += 1;
    }
    assert(alpn@.take(alpn@.len() as int) =~= alpn@);
    None
}

/// What is found among the first protocols is what is found among all.
proof fn lemma_first_in_prefix(alpn: Seq<String>, n: int, set: Set<Seq<u8>>)
    requires
        0 <= n <= alpn.len(),
        first_in(alpn.take(n), set) is Some,
    ensures
        first_in(alpn, set) == first_in(alpn.take(n), set),
    decreases alpn.len(),
{
    if n == alpn.len() {
        assert(alpn.take(n) =~= alpn);
    } else {
        assert(alpn.drop_last().take(n) =~= alpn.take(n));
        lemma_first_in_prefix(alpn.drop_last(), n, set);
    }
}

/// Why a front cannot stand beside one of the routes under the same server
/// name.
fn find_clash(sni: &String, alpn: &Vec<String>, routes: &Vec<(AlpnMatcher, String)>) -> (reason:
    Option<String>)
    ensures
        reason is Some <==> first_clash(sni@, alpn@, sni_routes::models(routes@)) is Some,
        reason matches Some(r) ==> first_clash(sni@, alpn@, sni_routes::models(routes@)) == Some(
            r@,
        ),
{
    let ghost all = sni_routes::models(routes@);
    let mut i: usize = 0;
    while i < routes.len()
        invariant
            i <= routes@.len(),
            all == sni_routes::models(routes@),
            first_clash(sni@, alpn@, all.take(i as int)) is None,
        decreases routes@.len() - i,
    {
        proof {
            assert(all.take(i + 1).drop_last() =~= all.take(i as int));
            assert(all.take(i + 1).last() == all[i as int]);
            assert(all[i as int] == (routes@[i as int].0.protocols(), routes@[i as int].1@));
        }
        match &routes[i].0 {
            AlpnMatcher::Any => {
                if alpn.len() == 0 {
                    proof {
                        lemma_first_clash_prefix(sni@, alpn@, all, i + 1);
                    }
                    return Some(
                        text::concat3(
                            "sni ",
                            debug_text(sni.as_str()).as_str(),
                            " already has a catch-all (empty alpn) frontend: at most one frontend per (address, sni) may omit alpn",
                        ),
                    );
                }
            },
            AlpnMatcher::OneOf(protocols) => {
                if let Some(overlap) = find_overlap(alpn, protocols) {
                    proof {
                        lemma_first_clash_prefix(sni@, alpn@, all, i + 1);
                    }
                    let mut reason = text::concat3(
                        "sni ",
                        debug_text(sni.as_str()).as_str(),
                        " already has a frontend matching ALPN protocol ",
                    );
                    reason.append(debug_text(overlap.as_str()).as_str());
                    reason.append(
                        ": ALPN matchers for the same (address, sni) must not overlap",
                    );
                    return Some(reason);
                }
            },
        }
        i += 1;
    }
    assert(all.take(all.len() as int) =~= all);
    None
}

proof fn lemma_first_clash_prefix(
    sni: Seq<char>,
    alpn: Seq<String>,
    routes: Seq<sni_routes::RouteModel>,
    n: int,
)
    requires
        0 <= n <= routes.len(),
        first_clash(sni, alpn, routes.take(n)) is Some,
    ensures
        first_clash(sni, alpn, routes) == first_clash(sni, alpn, routes.take(n)),
    decreases routes.len(),
{
    if n == routes.len() {
        assert(routes.take(n) =~= routes);
    } else {
        assert(routes.drop_last().take(n) =~= routes.take(n));
        lemma_first_clash_prefix(sni, alpn, routes.drop_last(), n);
    }
}

/// How many bytes a session may read to find the server name: what is
/// configured, as far as the buffer holds it, and never less than a session
/// needs to make progress.
pub fn effective_sni_preread_max_bytes(configured: Option<u32>, buffer_capacity: usize) -> (bytes:
    usize)
    ensures
        bytes == effective_preread_bytes(configured, buffer_capacity as int),
{
    let wanted: u32 = match configured {
        Some(v) => v,
        None => DEFAULT_SNI_PREREAD_MAX_BYTES,
    };
    let held: usize = if (wanted as usize) < buffer_capacity {
        wanted as usize
    } else {
        buffer_capacity
    };
    if held < MIN_SNI_PREREAD_MAX_BYTES as usize {
        MIN_SNI_PREREAD_MAX_BYTES as usize
    } else {
        held
    }
}

/// How many bytes a session may read to find the server name.
pub open spec fn effective_preread_bytes(configured: Option<u32>, buffer_capacity: int) -> int {
    let wanted = match configured {
        Some(v) => v as int,
        None => DEFAULT_SNI_PREREAD_MAX_BYTES as int,
    };
    let held = if wanted < buffer_capacity {
        wanted
    } else {
        buffer_capacity
    };
    if held < MIN_SNI_PREREAD_MAX_BYTES {
        MIN_SNI_PREREAD_MAX_BYTES as int
    } else {
        held
    }
}

/// A socket that could not be watched is kept: the next activation takes it up,
/// and until then the listener does not pass for an active one.
pub proof fn law_parked_sockets_are_taken_up(listener: TcpListener, fd: i32)
    requires
        listener.wf(),
        !listener.active,
    ensures
        ({
            let parked = TcpListener { parked_listener: Some(fd), ..listener };
            &&& parked.listener == listener.listener
            &&& !parked.active
            &&& parked.activation_step(false) == ListenerActivation::RegisterParked(fd)
            &&& parked.watching(fd).listener == Some(fd)
            &&& parked.watching(fd).parked_listener is None
        }),
{
}

/// A change of a listener's configuration goes to the fields that it gives, and
/// to no others: each of these is afterwards what is given, and each that is left
/// out stays as it was.
pub proof fn law_a_change_goes_to_the_fields_it_gives(
    config: TcpListenerConfig,
    patch: UpdateTcpListenerConfig,
)
    ensures
        ({
            let after = patched(config, patch);
            &&& patch.public_address is Some ==> after.public_address == patch.public_address
            &&& patch.public_address is None ==> after.public_address == config.public_address
            &&& patch.expect_proxy is Some ==> after.expect_proxy == patch.expect_proxy->0
            &&& patch.expect_proxy is None ==> after.expect_proxy == config.expect_proxy
            &&& patch.front_timeout is Some ==> after.front_timeout == patch.front_timeout->0
            &&& patch.front_timeout is None ==> after.front_timeout == config.front_timeout
            &&& patch.back_timeout is Some ==> after.back_timeout == patch.back_timeout->0
            &&& patch.back_timeout is None ==> after.back_timeout == config.back_timeout
            &&& patch.connect_timeout is Some ==> after.connect_timeout
                == patch.connect_timeout->0
            &&& patch.connect_timeout is None ==> after.connect_timeout == config.connect_timeout
            &&& after.address == config.address
            &&& after.sni_preread_timeout == config.sni_preread_timeout
            &&& after.sni_preread_max_bytes == config.sni_preread_max_bytes
        }),
{
}

/// A change that was made already changes nothing more, and of two changes the
/// later one holds where it gives a field.
pub proof fn law_the_last_change_holds(
    config: TcpListenerConfig,
    first: UpdateTcpListenerConfig,
    second: UpdateTcpListenerConfig,
)
    ensures
        patched(patched(config, first), first) == patched(config, first),
        second.connect_timeout is None ==> patched(
            patched(config, first),
            second,
        ).connect_timeout == patched(config, first).connect_timeout,
        second.connect_timeout is Some ==> patched(
            patched(config, first),
            second,
        ).connect_timeout == patched(config, second).connect_timeout,
{
}

/// An active listener is not activated again. Another one takes the socket that
/// is at hand, or else the one that was parked, or else binds its own address.
pub proof fn law_a_socket_is_bound_only_where_there_is_none(
    listener: TcpListener,
    has_socket: bool,
)
    ensures
        ({
            let step = listener.activation_step(has_socket);
            &&& listener.active <==> step is AlreadyActive
            &&& listener.active ==> step == ListenerActivation::AlreadyActive(listener.token)
            &&& !listener.active && has_socket <==> step is Register
            &&& !listener.active && !has_socket && listener.parked_listener is Some ==> step
                == ListenerActivation::RegisterParked(listener.parked_listener->0)
            &&& !listener.active && !has_socket && listener.parked_listener is None ==> step
                == ListenerActivation::Bind(listener.config.address)
        }),
{
}

/// A listener that watches a socket is active with it, and keeps all else that it
/// had: its token, its fronts and its configuration. A socket that was parked is
/// no longer parked once it is watched, and another one stays parked.
pub proof fn law_a_watched_socket_makes_a_listener_active(listener: TcpListener, fd: i32)
    ensures
        ({
            let after = listener.watching(fd);
            &&& after.active
            &&& after.listener == Some(fd)
            &&& after.parked_listener != Some(fd)
            &&& listener.parked_listener != Some(fd) ==> after.parked_listener
                == listener.parked_listener
            &&& after.address == listener.address
            &&& after.address_text == listener.address_text
            &&& after.cluster_id == listener.cluster_id
            &&& after.config == listener.config
            &&& after.sni_routes == listener.sni_routes
            &&& after.tags == listener.tags
            &&& after.token == listener.token
        }),
{
}

/// A new listener has the address, the text and the token that it is given; it is
/// not active, has no socket, no front and no tags.
pub proof fn law_a_new_listener_is_empty(
    listener: TcpListener,
    config: TcpListenerConfig,
    address_text: String,
    token: Token,
)
    requires
        listener.is_new(config, address_text, token),
    ensures
        !listener.active,
        listener.listener is None,
        listener.parked_listener is None,
        listener.cluster_id is None,
        listener.address == config.address,
        listener.address_text == address_text,
        listener.config == config,
        listener.token == token,
        forall|name: Seq<u8>| !#[trigger] listener.routes().dom().contains(name),
        forall|key: Seq<char>| !#[trigger] listener.tags.map().dom().contains(key),
        listener.activation_step(false) == ListenerActivation::Bind(config.address),
{
}

/// The search for the server name has the time that is configured, or else three
/// seconds.
pub proof fn law_the_search_has_its_time(listener: TcpListener)
    ensures
        listener.config.sni_preread_timeout is Some ==> listener.preread_timeout()
            == listener.config.sni_preread_timeout->0,
        listener.config.sni_preread_timeout is None ==> listener.preread_timeout() == 3,
{
}

/// The search for the server name looks at no more bytes than it is configured
/// to, nor than its buffer holds, but at so many that a name can be found.
pub proof fn law_the_search_stays_in_its_buffer(configured: Option<u32>, buffer_capacity: int)
    ensures
        ({
            let bytes = effective_preread_bytes(configured, buffer_capacity);
            let wanted = if configured is Some {
                configured->0 as int
            } else {
                16384
            };
            &&& bytes >= 5
            &&& bytes > 5 ==> bytes <= wanted && bytes
                <= buffer_capacity && (bytes == wanted || bytes == buffer_capacity)
            &&& wanted >= 5 && buffer_capacity
                >= 5 ==> (bytes == wanted || bytes == buffer_capacity)
                && bytes <= wanted && bytes <= buffer_capacity
        }),
{
}

/// A front is refused if and only if it names protocols but no server; names no
/// server at a listener that routes by server name, or one at a listener that
/// has a cluster for everything; has a malformed name; or is for what another
/// front of the same name is for: everything, or a protocol.
pub proof fn law_what_a_front_is_refused_for(
    listener: TcpListener,
    front: RequestTcpFrontend,
)
    ensures
        ({
            let key = alpn::route_key(front.sni->0@);
            let routed = listener.routes().dom().contains(key);
            let others = listener.routes()[key];
            let refused = listener.front_error(front) is Some;
            &&& front.sni is None ==> (refused <==> front.alpn@.len() > 0 || (exists|
                name: Seq<u8>,
            | #[trigger]
                listener.routes().dom().contains(name)))
            &&& front.sni is Some && listener.cluster_id is Some ==> refused
            &&& front.sni is Some && sni_routes::sni_pattern_error(front.sni->0@) is Some
                ==> refused
            &&& front.sni is Some && listener.cluster_id is None && sni_routes::sni_pattern_error(
                front.sni->0@,
            ) is None ==> (refused <==> routed && exists|i: int|
                0 <= i < others.len() && is_for_the_same(front.alpn@, #[trigger] others[i]))
        }),
{
    if listener.routes() != Map::<Seq<u8>, Seq<sni_routes::RouteModel>>::empty() {
        if forall|name: Seq<u8>| !#[trigger] listener.routes().dom().contains(name) {
            assert(listener.routes() =~= Map::<Seq<u8>, Seq<sni_routes::RouteModel>>::empty());
        }
    }
    if front.sni is Some {
        let key = alpn::route_key(front.sni->0@);
        lemma_first_clash(front.sni->0@, front.alpn@, listener.routes()[key]);
    }
}

/// Whether a front that names the given protocols is for what a route is for:
/// both for everything, or both for a protocol.
pub open spec fn is_for_the_same(alpn: Seq<String>, route: sni_routes::RouteModel) -> bool {
    match route.0 {
        None => alpn.len() == 0,
        Some(protocols) => exists|i: int|
            0 <= i < alpn.len() && protocols.contains(
                vstd::utf8::encode_utf8((#[trigger] alpn[i])@),
            ),
    }
}

proof fn lemma_first_in(alpn: Seq<String>, protocols: Set<Seq<u8>>)
    ensures
        first_in(alpn, protocols) is Some <==> exists|i: int|
            0 <= i < alpn.len() && protocols.contains(
                vstd::utf8::encode_utf8((#[trigger] alpn[i])@),
            ),
    decreases alpn.len(),
{
    if alpn.len() > 0 {
        let front = alpn.drop_last();
        lemma_first_in(front, protocols);
        assert forall|i: int| 0 <= i < front.len() implies #[trigger] front[i] == alpn[i] by {}
        assert(alpn[alpn.len() - 1] == alpn.last());
        if first_in(front, protocols) is Some {
            let i = choose|i: int|
                0 <= i < front.len() && protocols.contains(
                    vstd::utf8::encode_utf8((#[trigger] front[i])@),
                );
            assert(alpn[i] == front[i]);
        }
        assert forall|i: int|
            0 <= i < alpn.len() && protocols.contains(
                vstd::utf8::encode_utf8((#[trigger] alpn[i])@),
            ) implies first_in(alpn, protocols) is Some by {
            if i < front.len() {
                assert(front[i] == alpn[i]);
            }
        }
    }
}

proof fn lemma_first_clash(
    sni: Seq<char>,
    alpn: Seq<String>,
    routes: Seq<sni_routes::RouteModel>,
)
    ensures
        first_clash(sni, alpn, routes) is Some <==> exists|i: int|
            0 <= i < routes.len() && is_for_the_same(alpn, #[trigger] routes[i]),
    decreases routes.len(),
{
    if routes.len() > 0 {
        let front = routes.drop_last();
        lemma_first_clash(sni, alpn, front);
        assert(routes[routes.len() - 1] == routes.last());
        assert(clash(sni, alpn, routes.last()) is Some <==> is_for_the_same(
            alpn,
            routes.last(),
        )) by {
            if routes.last().0 is Some {
                lemma_first_in(alpn, routes.last().0->0);
            }
        }
        if first_clash(sni, alpn, front) is Some {
            let i = choose|i: int|
                0 <= i < front.len() && is_for_the_same(alpn, #[trigger] front[i]);
            assert(routes[i] == front[i]);
        }
        assert forall|i: int|
            0 <= i < routes.len() && is_for_the_same(alpn, #[trigger] routes[i]) implies first_clash(
            sni,
            alpn,
            routes,
        ) is Some by {
            if i < front.len() {
                assert(front[i] == routes[i]);
            }
        }
    }
}

/// Removing a front takes away the routes of its server name for its protocols
/// and its cluster; the other routes of the name stay, and so do other names. A
/// name that has no routes left is gone.
pub proof fn law_what_removing_a_front_leaves(
    routes: Map<Seq<u8>, Seq<sni_routes::RouteModel>>,
    sni: Seq<char>,
    alpn: Seq<String>,
    cluster_id: Seq<char>,
    other: Seq<u8>,
)
    ensures
        ({
            let key = alpn::route_key(sni);
            let after = without_front(routes, sni, alpn, cluster_id);
            let rest = sni_routes::without_route(
                routes[key],
                (alpn::matched_protocols(alpn), cluster_id),
            );
            &&& other != key ==> (after.dom().contains(other) <==> routes.dom().contains(other))
            &&& other != key && after.dom().contains(other) ==> after[other] == routes[other]
            &&& after.dom().contains(key) <==> routes.dom().contains(key) && rest.len() > 0
            &&& after.dom().contains(key) ==> after[key] == rest
        }),
{
}

/// A listener that has one cluster routes by no server name, and no two routes
/// under one name may be meant at once: no protocol is named by both, and at most
/// one is for everything.
pub proof fn law_fronts_of_a_listener_never_compete(
    listener: TcpListener,
    name: Seq<u8>,
    i: int,
    j: int,
    protocol: Seq<u8>,
)
    requires
        listener.fronts_ok(),
        listener.routes().dom().contains(name),
        0 <= i < j < listener.routes()[name].len(),
    ensures
        listener.cluster_id is None,
        ({
            let one = listener.routes()[name][i].0;
            let other = listener.routes()[name][j].0;
            &&& one is Some || other is Some
            &&& one is Some && other is Some ==> !(one->0.contains(protocol)
                && other->0.contains(protocol))
        }),
{
    let routes = listener.routes()[name];
    assert(sni_routes::disjoint(routes));
    assert(!sni_routes::overlap(routes[i], routes[j]));
}

} // verus!
