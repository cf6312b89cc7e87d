//! The sessions of a worker, and the limits on them.
use vstd::prelude::*;

use crate::net::IpAddr;
use crate::slots;
use crate::text;
use crate::Token;

verus! {

/// What a session slot is for.
#[derive(Debug, PartialEq, Eq, Structural, Copy, Clone, Hash)]
pub enum Protocol {
    HTTP,
    HTTPS,
    TCP,
    UDP,
    HTTPListen,
    HTTPSListen,
    TCPListen,
    UDPListen,
    Channel,
    Metrics,
    Timer,
}

impl Protocol {
    /// The number that stands for a protocol in the slab.
    pub open spec fn code(self) -> usize {
        match self {
            Protocol::HTTP => 0,
            Protocol::HTTPS => 1,
            Protocol::TCP => 2,
            Protocol::UDP => 3,
            Protocol::HTTPListen => 4,
            Protocol::HTTPSListen => 5,
            Protocol::TCPListen => 6,
            Protocol::UDPListen => 7,
            Protocol::Channel => 8,
            Protocol::Metrics => 9,
            Protocol::Timer => 10,
        }
    }

    /// The protocol that a number of the slab stands for.
    pub open spec fn of_code(code: usize) -> Protocol {
        if code == 0 {
            Protocol::HTTP
        } else if code == 1 {
            Protocol::HTTPS
        } else if code == 2 {
            Protocol::TCP
        } else if code == 3 {
            Protocol::UDP
        } else if code == 4 {
            Protocol::HTTPListen
        } else if code == 5 {
            Protocol::HTTPSListen
        } else if code == 6 {
            Protocol::TCPListen
        } else if code == 7 {
            Protocol::UDPListen
        } else if code == 8 {
            Protocol::Channel
        } else if code == 9 {
            Protocol::Metrics
        } else {
            Protocol::Timer
        }
    }

    fn to_code(self) -> (code: usize)
        ensures
            code == self.code(),
    {
        match self {
            Protocol::HTTP => 0,
            Protocol::HTTPS => 1,
            Protocol::TCP => 2,
            Protocol::UDP => 3,
            Protocol::HTTPListen => 4,
            Protocol::HTTPSListen => 5,
            Protocol::TCPListen => 6,
            Protocol::UDPListen => 7,
            Protocol::Channel => 8,
            Protocol::Metrics => 9,
            Protocol::Timer => 10,
        }
    }

    fn from_code(code: usize) -> (protocol: Protocol)
        ensures
            protocol == Protocol::of_code(code),
    {
        match code {
            0 => Protocol::HTTP,
            1 => Protocol::HTTPS,
            2 => Protocol::TCP,
            3 => Protocol::UDP,
            4 => Protocol::HTTPListen,
            5 => Protocol::HTTPSListen,
            6 => Protocol::TCPListen,
            7 => Protocol::UDPListen,
            8 => Protocol::Channel,
            9 => Protocol::Metrics,
            _ => Protocol::Timer,
        }
    }

    /// Whether connections are accepted on behalf of the slot.
    pub open spec fn accepts(self) -> bool {
        self is HTTPListen || self is HTTPSListen || self is TCPListen
    }

    /// Whether the slot is a listener's or the worker's own, and never a
    /// client's.
    pub open spec fn is_system(self) -> bool {
        self.accepts() || self is UDPListen || self is Channel || self is Metrics || self is Timer
    }

    /// Whether connections are accepted on behalf of the slot.
    pub fn can_accept(self) -> (r: bool)
        ensures
            r == self.accepts(),
    {
        match self {
            Protocol::HTTPListen | Protocol::HTTPSListen | Protocol::TCPListen => true,
            _ => false,
        }
    }

    /// Whether the slot is a listener's or the worker's own.
    pub fn system(self) -> (r: bool)
        ensures
            r == self.is_system(),
    {
        match self {
            Protocol::HTTP | Protocol::HTTPS | Protocol::TCP | Protocol::UDP => false,
            _ => true,
        }
    }
}

/// The token of a listener.
#[derive(Copy, Clone, Debug, PartialEq, Eq, Structural, PartialOrd, Ord, Hash)]
pub struct ListenToken(pub usize);

/// The token of a session.
#[derive(Copy, Clone, Debug, PartialEq, Eq, Structural, PartialOrd, Ord, Hash)]
pub struct SessionToken(pub usize);

impl From<usize> for ListenToken {
    fn from(val: usize) -> ListenToken {
        ListenToken(val)
    }
}

impl vstd::std_specs::convert::FromSpecImpl<usize> for ListenToken {
    open spec fn obeys_from_spec() -> bool {
        true
    }

    open spec fn from_spec(val: usize) -> ListenToken {
        ListenToken(val)
    }
}

impl From<ListenToken> for usize {
    fn from(val: ListenToken) -> usize {
        val.0
    }
}

impl vstd::std_specs::convert::FromSpecImpl<ListenToken> for usize {
    open spec fn obeys_from_spec() -> bool {
        true
    }

    open spec fn from_spec(val: ListenToken) -> usize {
        val.0
    }
}

impl From<usize> for SessionToken {
    fn from(val: usize) -> SessionToken {
        SessionToken(val)
    }
}

impl vstd::std_specs::convert::FromSpecImpl<usize> for SessionToken {
    open spec fn obeys_from_spec() -> bool {
        true
    }

    open spec fn from_spec(val: usize) -> SessionToken {
        SessionToken(val)
    }
}

impl From<SessionToken> for usize {
    fn from(val: SessionToken) -> usize {
        val.0
    }
}

impl vstd::std_specs::convert::FromSpecImpl<SessionToken> for usize {
    open spec fn obeys_from_spec() -> bool {
        true
    }

    open spec fn from_spec(val: SessionToken) -> usize {
        val.0
    }
}

/// What the worker keeps of a session in its slot.
#[derive(Copy, Clone, Debug, PartialEq, Eq, Structural)]
pub struct SessionSlot {
    /// When the session last had an event, in nanoseconds. A slot that is not
    /// a client's never falls idle: it has `u64::MAX`.
    pub last_event: u64,
    /// The token under which the session's client is registered. A session that
    /// is also registered under the token of a backend has it in both slots.
    pub frontend_token: Token,
    pub protocol: Protocol,
}

/// The inert session of a listener, or of the worker itself.
#[derive(Copy, Clone, Debug, PartialEq, Eq, Structural)]
pub struct ListenSession {
    pub protocol: Protocol,
}

impl ListenSession {
    /// The slot of such a session: it has no client, and it is never idle.
    pub open spec fn slot_spec(self) -> SessionSlot {
        SessionSlot { last_event: u64::MAX, frontend_token: Token(0), protocol: self.protocol }
    }

    /// The slot of such a session.
    pub fn slot(&self) -> (slot: SessionSlot)
        ensures
            slot == self.slot_spec(),
    {
        SessionSlot { last_event: u64::MAX, frontend_token: Token(0), protocol: self.protocol }
    }

    /// The token of its client: none, which is token zero.
    pub fn frontend_token(&self) -> (token: Token)
        ensures
            token == Token(0),
    {
        Token(0)
    }

    /// What the slot is for.
    pub fn protocol(&self) -> (protocol: Protocol)
        ensures
            protocol == self.protocol,
    {
        self.protocol
    }

    /// Whether the session is to be closed after an event: never.
    pub fn ready(&self) -> (close: bool)
        ensures
            !close,
    {
        false
    }

    /// Whether the session is to be closed when the worker shuts down: never.
    pub fn shutting_down(&self) -> (close: bool)
        ensures
            !close,
    {
        false
    }

    /// Whether the session is to be closed after a timeout: never.
    pub fn timeout(&self) -> (close: bool)
        ensures
            !close,
    {
        false
    }
}

/// A connection that counts against the limit of its cluster and source.
#[derive(Debug)]
pub struct Track {
    pub token: usize,
    pub cluster: String,
    pub ip: IpAddr,
}

/// How many connections count against the limit of a cluster and a source.
#[derive(Debug)]
pub struct ClusterIpCount {
    pub cluster: String,
    pub ip: IpAddr,
    pub count: usize,
}

/// A token that counts against the limit of a cluster and a source.
pub type TrackKey = (usize, Seq<char>, IpAddr);

/// The limits on the sessions of a worker, and what counts against them.
pub struct SessionManager {
    pub max_connections: usize,
    pub nb_connections: usize,
    pub can_accept: bool,
    /// Default limit of connections per cluster and source. Zero disables it.
    pub max_connections_per_ip: u64,
    /// Default delay, in seconds, after which a client that hit the limit is
    /// told to come back. Zero tells it nothing.
    pub retry_after: u32,
    /// The sessions, one entry for each token.
    pub slab: slab::Slab<(u64, usize, usize)>,
    /// The connections that count, so that each counts once.
    pub tracks: Vec<Track>,
    /// How many there are of each cluster and source.
    pub counts: Vec<ClusterIpCount>,
}

impl SessionManager {
    /// The sessions, by token.
    pub closed spec fn sessions(self) -> Map<usize, SessionSlot> {
        slots::slab_contents(self.slab).map_values(|v: (u64, usize, usize)| unpack(v))
    }

    /// How many tokens have ever been handed out.
    pub closed spec fn tokens_used(self) -> nat {
        slots::slab_keys_used(self.slab)
    }

    /// The tokens that count against a limit, with the cluster and the source
    /// that the limit is for.
    pub closed spec fn counted(self) -> Set<TrackKey> {
        self.keys().to_set()
    }

    /// How many connections count against the limit of a cluster and a source:
    /// one for each token, however many streams it carries.
    pub open spec fn connections(self, cluster: Seq<char>, ip: IpAddr) -> nat {
        connections_in(self.counted(), cluster, ip)
    }

    spec fn keys(self) -> Seq<TrackKey> {
        self.tracks@.map_values(|t: Track| (t.token, t.cluster@, t.ip))
    }

    /// Entry `i` of the counts holds the number of connections that it is for.
    spec fn count_ok(self, i: int) -> bool {
        let c = self.counts@[i];
        c.count == self.connections(c.cluster@, c.ip) && c.count > 0
    }

    /// The counts hold what the tracks say, and nothing is kept for a cluster
    /// and a source without connections.
    spec fn counts_ok(self) -> bool {
        &&& forall|i: int| 0 <= i < self.counts@.len() ==> #[trigger] self.count_ok(i)
        &&& forall|i: int, j: int|
            0 <= i < self.counts@.len() && 0 <= j < self.counts@.len() && i != j ==> (
            #[trigger] self.counts@[i]).cluster@ != (#[trigger] self.counts@[j]).cluster@
                || self.counts@[i].ip != self.counts@[j].ip
        &&& forall|k: TrackKey| #[trigger]
            self.counted().contains(k) ==> exists|i: int|
                0 <= i < self.counts@.len() && (#[trigger] self.counts@[i]).cluster@ == k.1
                    && self.counts@[i].ip == k.2
    }

    /// What every manager meets: the limit on connections is kept, and the
    /// counts agree with the connections that are counted.
    pub closed spec fn wf(self) -> bool {
        &&& self.nb_connections <= self.max_connections
        &&& self.max_connections * 90 <= usize::MAX - 10
        &&& slots::slab_contents(self.slab).dom().finite()
        &&& self.keys().no_duplicates()
        &&& self.counts_ok()
    }

    /// Only the accounting per cluster and source differs.
    pub open spec fn same_but_tracking(self, other: Self) -> bool {
        &&& self.same_settings(other)
        &&& self.sessions() == other.sessions()
    }

    /// Only the slots and what counts against the limits per cluster and source
    /// differ.
    pub open spec fn same_settings(self, other: Self) -> bool {
        &&& self.max_connections == other.max_connections
        &&& self.nb_connections == other.nb_connections
        &&& self.can_accept == other.can_accept
        &&& self.max_connections_per_ip == other.max_connections_per_ip
        &&& self.retry_after == other.retry_after
    }
}

/// The session that a slab entry stands for.
pub open spec fn unpack(v: (u64, usize, usize)) -> SessionSlot {
    SessionSlot {
        last_event: v.0,
        frontend_token: Token(v.1),
        protocol: Protocol::of_code(v.2),
    }
}

/// The counted tokens of a cluster and a source.
pub open spec fn tokens_of(counted: Set<TrackKey>, cluster: Seq<char>, ip: IpAddr) -> Set<
    TrackKey,
> {
    counted.filter(|k: TrackKey| k.1 == cluster && k.2 == ip)
}

/// How many tokens are counted for a cluster and a source.
pub open spec fn connections_in(counted: Set<TrackKey>, cluster: Seq<char>, ip: IpAddr) -> nat {
    tokens_of(counted, cluster, ip).len()
}

/// Tracking one more token raises the count that it is for by one, and no
/// other.
pub proof fn law_tracking_counts_one(
    counted: Set<TrackKey>,
    key: TrackKey,
    cluster: Seq<char>,
    ip: IpAddr,
)
    requires
        counted.finite(),
        !counted.contains(key),
    ensures
        connections_in(counted.insert(key), cluster, ip) == connections_in(counted, cluster, ip)
            + if key.1 == cluster && key.2 == ip {
            1int
        } else {
            0
        },
{
    let before = tokens_of(counted, cluster, ip);
    let after = tokens_of(counted.insert(key), cluster, ip);
    if key.1 == cluster && key.2 == ip {
        assert(after =~= before.insert(key));
    } else {
        assert(after =~= before);
    }
}

/// No more tokens are counted for a cluster and a source than at all.
proof fn lemma_connections_bounded(counted: Set<TrackKey>, cluster: Seq<char>, ip: IpAddr)
    requires
        counted.finite(),
    ensures
        connections_in(counted, cluster, ip) <= counted.len(),
{
    vstd::set_lib::lemma_len_subset(tokens_of(counted, cluster, ip), counted);
}

impl SessionManager {
    /// A manager without sessions, with room for `slab_capacity` of them.
    pub fn new(
        slab_capacity: usize,
        max_connections: usize,
        max_connections_per_ip: u64,
        retry_after: u32,
    ) -> (m: SessionManager)
        requires
            slab_capacity <= isize::MAX as int / 32,
            max_connections * 90 <= usize::MAX - 10,
        ensures
            m.wf(),
            m.max_connections == max_connections,
            m.nb_connections == 0,
            m.can_accept,
            m.max_connections_per_ip == max_connections_per_ip,
            m.retry_after == retry_after,
            m.sessions() == Map::<usize, SessionSlot>::empty(),
            m.tokens_used() == 0,
            m.counted() == Set::<TrackKey>::empty(),
    {
        let m = SessionManager {
            max_connections,
            nb_connections: 0,
            can_accept: true,
            max_connections_per_ip,
            retry_after,
            slab: slots::slab_with_capacity(slab_capacity),
            tracks: Vec::new(),
            counts: Vec::new(),
        };
        proof {
            assert(m.sessions() =~= Map::<usize, SessionSlot>::empty());
            assert(m.keys() =~= Seq::<TrackKey>::empty());
            assert(m.counted() =~= Set::<TrackKey>::empty());
        }
        m
    }

    /// The limit per cluster and source that applies: `override_value` is the
    /// cluster's own, where zero means unlimited.
    pub open spec fn limit_per_ip(self, override_value: Option<u64>) -> u64 {
        match override_value {
            Some(limit) => limit,
            None => self.max_connections_per_ip,
        }
    }

    /// Resolves the limit per cluster and source.
    pub fn effective_max_connections_per_ip(&self, override_value: Option<u64>) -> (limit: u64)
        ensures
            limit == self.limit_per_ip(override_value),
    {
        match override_value {
            Some(limit) => limit,
            None => self.max_connections_per_ip,
        }
    }

    /// Resolves the delay after which a refused client may come back; zero
    /// tells it nothing.
    pub fn effective_retry_after(&self, override_value: Option<u32>) -> (seconds: u32)
        ensures
            seconds == match override_value {
                Some(seconds) => seconds,
                None => self.retry_after,
            },
    {
        match override_value {
            Some(seconds) => seconds,
            None => self.retry_after,
        }
    }

    /// Where a token is counted for a cluster and a source, if it is.
    fn find_track(&self, token: usize, cluster: &String, ip: IpAddr) -> (at: Option<usize>)
        ensures
            at matches Some(i) ==> i < self.tracks@.len() && self.keys()[i as int] == (
                token,
                cluster@,
                ip,
            ),
            at is Some <==> self.counted().contains((token, cluster@, ip)),
    {
        let mut i: usize = 0;
        while i < self.tracks.len()
            invariant
                i <= self.tracks@.len(),
                forall|j: int| 0 <= j < i ==> #[trigger] self.keys()[j] != (token, cluster@, ip),
            decreases self.tracks@.len() - i,
        {
            let t = &self.tracks[i];
            assert(self.keys()[i as int] == (t.token, t.cluster@, t.ip));
            if t.token == token && t.ip == ip && text::same_text(&t.cluster, cluster) {
                assert(self.keys().contains((token, cluster@, ip)));
                return Some(i);
            }
            i += 1;
        }
        proof {
            if self.counted().contains((token, cluster@, ip)) {
                let j = self.keys().index_of((token, cluster@, ip));
                assert(self.keys().contains((token, cluster@, ip)));
                assert(self.keys()[j] == (token, cluster@, ip));
            }
        }
        None
    }

    /// Where the count of a cluster and a source is kept, if there is one.
    fn find_count(&self, cluster: &String, ip: IpAddr) -> (at: Option<usize>)
        ensures
            at matches Some(i) ==> i < self.counts@.len() && self.counts@[i as int].cluster@
                == cluster@ && self.counts@[i as int].ip == ip,
            at is None ==> forall|i: int|
                0 <= i < self.counts@.len() ==> (#[trigger] self.counts@[i]).cluster@ != cluster@
                    || self.counts@[i].ip != ip,
    {
        let mut i: usize = 0;
        while i < self.counts.len()
            invariant
                i <= self.counts@.len(),
                forall|j: int|
                    0 <= j < i ==> (#[trigger] self.counts@[j]).cluster@ != cluster@
                        || self.counts@[j].ip != ip,
            decreases self.counts@.len() - i,
        {
            let c = &self.counts[i];
            if c.ip == ip && text::same_text(&c.cluster, cluster) {
                return Some(i);
            }
            i += 1;
        }
        None
    }

    /// The number of connections of a cluster and a source.
    fn count_of(&self, cluster: &String, ip: IpAddr) -> (count: usize)
        requires
            self.wf(),
        ensures
            count == self.connections(cluster@, ip),
    {
        match self.find_count(cluster, ip) {
            Some(i) => {
                assert(self.count_ok(i as int));
                self.counts[i].count
            },
            None => {
                proof {
                    self.lemma_uncounted((0, cluster@, ip));
                }
                0
            },
        }
    }

    /// Whether admitting `token` to one more connection for a cluster and a
    /// source would exceed the limit. Zero is unlimited. A token that already
    /// counts is never at the limit: a session carries many streams to the same
    /// cluster on a single connection.
    pub fn cluster_ip_at_limit(
        &self,
        token: Token,
        cluster_id: &String,
        ip: IpAddr,
        override_value: Option<u64>,
    ) -> (at_limit: bool)
        requires
            self.wf(),
        ensures
            at_limit == {
                &&& self.limit_per_ip(override_value) > 0
                &&& !self.counted().contains((token.0, cluster_id@, ip))
                &&& self.connections(cluster_id@, ip) >= self.limit_per_ip(override_value)
            },
    {
        let limit = self.effective_max_connections_per_ip(override_value);
        if limit == 0 {
            return false;
        }
        if self.find_track(token.0, cluster_id, ip).is_some() {
            return false;
        }
        self.count_of(cluster_id, ip) as u64 >= limit
    }

    /// Counts `token`'s connection against a cluster and a source. A second
    /// call for the same changes nothing.
    pub fn track_cluster_ip(&mut self, token: Token, cluster_id: String, ip: IpAddr)
        requires
            old(self).wf(),
        ensures
            final(self).wf(),
            final(self).same_but_tracking(*old(self)),
            final(self).counted() == old(self).counted().insert((token.0, cluster_id@, ip)),
    {
        let ghost before = *self;
        let ghost key = (token.0, cluster_id@, ip);
        if self.find_track(token.0, &cluster_id, ip).is_some() {
            assert(before.counted().insert(key) =~= before.counted());
            return ;
        }
        let counted_at = self.find_count(&cluster_id, ip);
        let ghost cluster = cluster_id@;
        self.tracks.push(Track { token: token.0, cluster: cluster_id.clone(), ip });
        proof {
            assert(self.keys() =~= before.keys().push(key));
            before.lemma_pushed(*self, key);
            lemma_connections_bounded(self.counted(), cluster, ip);
            assert(self.counted().len() == self.tracks@.len());
            assert(self.tracks@.len() == self.tracks.len());
        }
        match counted_at {
            Some(i) => {
                proof {
                    assert(before.count_ok(i as int));
                    law_tracking_counts_one(before.counted(), key, cluster, ip);
                }
                let count = self.counts[i].count;
                let old_cluster = self.counts[i].cluster.clone();
                self.counts.set(i, ClusterIpCount { cluster: old_cluster, ip, count: count + 1 });
            },
            None => {
                self.counts.push(ClusterIpCount { cluster: cluster_id, ip, count: 1 });
            },
        }
        proof {
            assert(self.keys() =~= before.keys().push(key));
            before.lemma_counts_after_track(*self, key);
        }
    }

    proof fn lemma_pushed(self, after: Self, key: TrackKey)
        requires
            self.wf(),
            !self.counted().contains(key),
            after.keys() == self.keys().push(key),
        ensures
            after.keys().no_duplicates(),
            after.counted() == self.counted().insert(key),
            after.counted().finite(),
            after.counted().len() == after.tracks@.len(),
    {
        assert(after.counted() =~= self.counted().insert(key)) by {
            assert forall|k: TrackKey| after.keys().contains(k) <==> self.keys().contains(k) || k
                == key by {
                if self.keys().contains(k) {
                    let i = self.keys().index_of(k);
                    assert(after.keys()[i] == k);
                }
                if k == key {
                    assert(after.keys()[self.keys().len() as int] == k);
                }
                if after.keys().contains(k) {
                    let i = after.keys().index_of(k);
                    if i < self.keys().len() {
                        assert(self.keys()[i] == k);
                    }
                }
            }
        }
        assert(after.keys().no_duplicates()) by {
            assert(!self.keys().contains(key));
        }
        after.keys().unique_seq_to_set();
    }

    proof fn lemma_counts_after_track(self, after: Self, key: TrackKey)
        requires
            self.wf(),
            !self.counted().contains(key),
            after.keys() == self.keys().push(key),
            ({
                ||| exists|i: int|
                    {
                        &&& 0 <= i < self.counts@.len()
                        &&& (#[trigger] self.counts@[i]).cluster@ == key.1
                        &&& self.counts@[i].ip == key.2
                        &&& after.counts@.len() == self.counts@.len()
                        &&& after.counts@[i].cluster@ == key.1
                        &&& after.counts@[i].ip == key.2
                        &&& after.counts@[i].count == self.counts@[i].count + 1
                        &&& forall|j: int|
                            0 <= j < self.counts@.len() && j != i ==> #[trigger] after.counts@[j]
                                == self.counts@[j]
                    }
                ||| {
                    &&& forall|i: int|
                        0 <= i < self.counts@.len() ==> (#[trigger] self.counts@[i]).cluster@
                            != key.1 || self.counts@[i].ip != key.2
                    &&& after.counts@.len() == self.counts@.len() + 1
                    &&& after.counts@.last().cluster@ == key.1
                    &&& after.counts@.last().ip == key.2
                    &&& after.counts@.last().count == 1
                    &&& forall|j: int|
                        0 <= j < self.counts@.len() ==> #[trigger] after.counts@[j]
                            == self.counts@[j]
                }
            }),
        ensures
            after.counts_ok(),
    {
        self.lemma_pushed(after, key);
        self.keys().unique_seq_to_set();
        assert forall|i: int| 0 <= i < after.counts@.len() implies #[trigger] after.count_ok(i) by {
            let c = after.counts@[i];
            law_tracking_counts_one(self.counted(), key, c.cluster@, c.ip);
            if i < self.counts@.len() {
                assert(self.count_ok(i));
                let d = self.counts@[i];
                assert(d.cluster@ == c.cluster@ && d.ip == c.ip);
            } else {
                self.lemma_uncounted(key);
            }
        }
        assert forall|k: TrackKey| #[trigger] after.counted().contains(k) implies exists|i: int|
            0 <= i < after.counts@.len() && (#[trigger] after.counts@[i]).cluster@ == k.1
                && after.counts@[i].ip == k.2 by {
            if k == key {
                if after.counts@.len() == self.counts@.len() {
                    let i = choose|i: int|
                        0 <= i < self.counts@.len() && (#[trigger] self.counts@[i]).cluster@
                            == key.1 && self.counts@[i].ip == key.2;
                    assert(after.counts@[i].cluster@ == k.1);
                } else {
                    assert(after.counts@[self.counts@.len() as int].cluster@ == k.1);
                }
            } else {
                assert(self.counted().contains(k));
                let i = choose|i: int|
                    0 <= i < self.counts@.len() && (#[trigger] self.counts@[i]).cluster@ == k.1
                        && self.counts@[i].ip == k.2;
                assert(after.counts@[i].cluster@ == k.1);
            }
        }
        assert forall|i: int, j: int|
            0 <= i < after.counts@.len() && 0 <= j < after.counts@.len() && i != j implies (
        #[trigger] after.counts@[i]).cluster@ != (#[trigger] after.counts@[j]).cluster@
            || after.counts@[i].ip != after.counts@[j].ip by {
            if i < self.counts@.len() {
                let _ = self.counts@[i];
                assert(after.counts@[i].cluster@ == self.counts@[i].cluster@);
                assert(after.counts@[i].ip == self.counts@[i].ip);
            }
            if j < self.counts@.len() {
                let _ = self.counts@[j];
                assert(after.counts@[j].cluster@ == self.counts@[j].cluster@);
                assert(after.counts@[j].ip == self.counts@[j].ip);
            }
        }
    }

    /// A cluster and a source that no entry is kept for have no connections.
    proof fn lemma_uncounted(self, key: TrackKey)
        requires
            self.wf(),
            forall|i: int|
                0 <= i < self.counts@.len() ==> (#[trigger] self.counts@[i]).cluster@ != key.1
                    || self.counts@[i].ip != key.2,
        ensures
            self.connections(key.1, key.2) == 0,
    {
        let tokens = tokens_of(self.counted(), key.1, key.2);
        assert(tokens =~= Set::<TrackKey>::empty()) by {
            assert forall|k: TrackKey| !tokens.contains(k) by {
                if tokens.contains(k) {
                    assert(self.counted().contains(k));
                    let i = choose|i: int|
                        0 <= i < self.counts@.len() && (#[trigger] self.counts@[i]).cluster@ == k.1
                            && self.counts@[i].ip == k.2;
                    assert(self.counts@[i].cluster@ != key.1 || self.counts@[i].ip != key.2);
                }
            }
        }
    }

    /// Forgets the connection at position `at` of the tracks.
    fn untrack_at(&mut self, at: usize)
        requires
            old(self).wf(),
            at < old(self).tracks@.len(),
        ensures
            final(self).wf(),
            final(self).same_but_tracking(*old(self)),
            final(self).keys() == old(self).keys().remove(at as int),
            final(self).counted() == old(self).counted().remove(old(self).keys()[at as int]),
    {
        let ghost before = *self;
        let ghost key = self.keys()[at as int];
        let track = self.tracks.remove(at);
        proof {
            assert(self.keys() =~= before.keys().remove(at as int));
            before.lemma_dropped(*self, at as int);
            assert(before.keys().contains(key));
            assert(before.counted().contains(key));
        }
        let found = self.find_count(&track.cluster, track.ip);
        if let Some(i) = found {
            proof {
                assert(before.count_ok(i as int));
            }
            let count = self.counts[i].count;
            if count == 1 {
                let _ = self.counts.remove(i);
            } else {
                let cluster = self.counts[i].cluster.clone();
                self.counts.set(i, ClusterIpCount { cluster, ip: track.ip, count: count - 1 });
            }
            proof {
                before.lemma_counts_after_untrack(*self, key, i as int);
            }
        } else {
            proof {
                before.lemma_uncounted(key);
                assert(tokens_of(before.counted(), key.1, key.2).contains(key));
                before.keys().unique_seq_to_set();
                assert(false);
            }
        }
    }

    proof fn lemma_dropped(self, after: Self, at: int)
        requires
            self.wf(),
            0 <= at < self.keys().len(),
            after.keys() == self.keys().remove(at),
        ensures
            after.keys().no_duplicates(),
            after.counted() == self.counted().remove(self.keys()[at]),
    {
        let key = self.keys()[at];
        assert(after.counted() =~= self.counted().remove(key)) by {
            assert forall|k: TrackKey| after.keys().contains(k) <==> self.keys().contains(k) && k
                != key by {
                if after.keys().contains(k) {
                    let i = after.keys().index_of(k);
                    assert(after.keys()[i] == self.keys()[if i < at {
                        i
                    } else {
                        i + 1
                    }]);
                }
                if self.keys().contains(k) && k != key {
                    let i = self.keys().index_of(k);
                    assert(after.keys()[if i < at {
                        i
                    } else {
                        i - 1
                    }] == k);
                }
            }
        }
        assert(after.keys().no_duplicates()) by {
            assert forall|i: int, j: int|
                0 <= i < after.keys().len() && 0 <= j < after.keys().len() && i != j implies after.keys()[i]
                != after.keys()[j] by {
                let a = if i < at {
                    i
                } else {
                    i + 1
                };
                let b = if j < at {
                    j
                } else {
                    j + 1
                };
                assert(after.keys()[i] == self.keys()[a]);
                assert(after.keys()[j] == self.keys()[b]);
            }
        }
    }

    proof fn lemma_counts_after_untrack(self, after: Self, key: TrackKey, i: int)
        requires
            self.wf(),
            self.counted().contains(key),
            after.counted() == self.counted().remove(key),
            0 <= i < self.counts@.len(),
            self.counts@[i].cluster@ == key.1,
            self.counts@[i].ip == key.2,
            self.counts@[i].count == 1 ==> after.counts@ == self.counts@.remove(i),
            self.counts@[i].count != 1 ==> {
                &&& after.counts@.len() == self.counts@.len()
                &&& after.counts@[i].cluster@ == key.1
                &&& after.counts@[i].ip == key.2
                &&& after.counts@[i].count == self.counts@[i].count - 1
                &&& forall|j: int|
                    0 <= j < self.counts@.len() && j != i ==> #[trigger] after.counts@[j]
                        == self.counts@[j]
            },
        ensures
            after.counts_ok(),
    {
        self.keys().unique_seq_to_set();
        let gone = self.counts@[i].count == 1;
        assert(self.count_ok(i));
        assert forall|c: Seq<char>, ip: IpAddr| #[trigger]
            after.connections(c, ip) == self.connections(c, ip) - if key.1 == c && key.2 == ip {
                1int
            } else {
                0
            } by {
            law_tracking_counts_one(after.counted(), key, c, ip);
            assert(after.counted().insert(key) =~= self.counted());
        }
        assert forall|j: int| 0 <= j < after.counts@.len() implies #[trigger] after.count_ok(j) by {
            let o = if gone && j >= i {
                j + 1
            } else {
                j
            };
            assert(self.count_ok(o));
            let c = self.counts@[o];
            assert(after.counts@[j].cluster@ == c.cluster@ && after.counts@[j].ip == c.ip);
            let d = self.counts@[i];
        }
        assert forall|k: TrackKey| #[trigger] after.counted().contains(k) implies exists|j: int|
            0 <= j < after.counts@.len() && (#[trigger] after.counts@[j]).cluster@ == k.1
                && after.counts@[j].ip == k.2 by {
            assert(self.counted().contains(k));
            let o = choose|o: int|
                0 <= o < self.counts@.len() && (#[trigger] self.counts@[o]).cluster@ == k.1
                    && self.counts@[o].ip == k.2;
            if gone {
                if o == i {
                    assert(after.connections(key.1, key.2) == 0);
                    assert(tokens_of(after.counted(), key.1, key.2).contains(k));
                    assert(false);
                }
                let j = if o > i {
                    o - 1
                } else {
                    o
                };
                assert(after.counts@[j] == self.counts@[o]);
            } else {
                assert(after.counts@[o].cluster@ == k.1);
            }
        }
        assert forall|a: int, b: int|
            0 <= a < after.counts@.len() && 0 <= b < after.counts@.len() && a != b implies (
        #[trigger] after.counts@[a]).cluster@ != (#[trigger] after.counts@[b]).cluster@
            || after.counts@[a].ip != after.counts@[b].ip by {
            let oa = if gone && a >= i {
                a + 1
            } else {
                a
            };
            let ob = if gone && b >= i {
                b + 1
            } else {
                b
            };
            let ca = self.counts@[oa];
            let cb = self.counts@[ob];
            assert(after.counts@[a].cluster@ == ca.cluster@ && after.counts@[a].ip == ca.ip);
            assert(after.counts@[b].cluster@ == cb.cluster@ && after.counts@[b].ip == cb.ip);
        }
    }

    /// Forgets every connection of `token`. Called when its session is torn
    /// down.
    pub fn untrack_all_cluster_ip(&mut self, token: Token)
        requires
            old(self).wf(),
        ensures
            final(self).wf(),
            final(self).same_but_tracking(*old(self)),
            final(self).counted() == old(self).counted().filter(|k: TrackKey| k.0 != token.0),
    {
        let ghost before = *self;
        let mut i: usize = 0;
        while i < self.tracks.len()
            invariant
                self.wf(),
                self.same_but_tracking(before),
                i <= self.tracks@.len(),
                forall|j: int| 0 <= j < i ==> (#[trigger] self.keys()[j]).0 != token.0,
                forall|k: TrackKey| #[trigger]
                    self.counted().contains(k) ==> before.counted().contains(k),
                forall|k: TrackKey| #[trigger]
                    before.counted().contains(k) && k.0 != token.0 ==> self.counted().contains(k),
            decreases self.tracks@.len() - i,
        {
            let ghost prior = *self;
            assert(self.keys()[i as int].0 == self.tracks@[i as int].token);
            if self.tracks[i].token == token.0 {
                self.untrack_at(i);
                assert(self.tracks@.len() == self.keys().len());
                assert forall|j: int| 0 <= j < i implies (#[trigger] self.keys()[j]).0 != token.0 by {
                    assert(self.keys()[j] == prior.keys()[j]);
                }
            } else {
                i += 1;
            }
        }
        proof {
            let kept = before.counted().filter(|k: TrackKey| k.0 != token.0);
            assert(self.counted() =~= kept) by {
                assert forall|k: TrackKey| self.counted().contains(k) <==> kept.contains(k) by {
                    if self.counted().contains(k) {
                        let j = self.keys().index_of(k);
                        assert(self.keys()[j] == k);
                    }
                }
            }
        }
    }

    /// Forgets all accounting per cluster and source, so that disabling the
    /// limit leaves nothing behind that enabling it again would consult.
    pub fn clear_cluster_ip_tracking(&mut self)
        requires
            old(self).wf(),
        ensures
            final(self).wf(),
            final(self).same_but_tracking(*old(self)),
            final(self).counted() == Set::<TrackKey>::empty(),
    {
        self.tracks.clear();
        self.counts.clear();
        proof {
            assert(self.keys() =~= Seq::<TrackKey>::empty());
            assert(self.counted() =~= Set::<TrackKey>::empty());
        }
    }

    /// Accepts no more connections for now.
    pub fn stop_accepting(&mut self)
        requires
            old(self).wf(),
        ensures
            final(self).wf(),
            !final(self).can_accept,
            final(self).same_counts(*old(self)),
    {
        let ghost before = *self;
        self.can_accept = false;
        proof {
            assert(self.sessions() =~= before.sessions());
            assert(self.keys() =~= before.keys());
            before.lemma_same_tracking(*self);
        }
    }

    /// Sets the default limit of connections per cluster and source. Without a
    /// limit nothing is counted, so what was counted is forgotten.
    pub fn set_max_connections_per_ip(&mut self, limit: u64)
        requires
            old(self).wf(),
        ensures
            final(self).wf(),
            final(self).max_connections == old(self).max_connections,
            final(self).nb_connections == old(self).nb_connections,
            final(self).can_accept == old(self).can_accept,
            final(self).max_connections_per_ip == limit,
            final(self).retry_after == old(self).retry_after,
            final(self).sessions() == old(self).sessions(),
            final(self).counted() == if limit == 0 {
                Set::<TrackKey>::empty()
            } else {
                old(self).counted()
            },
    {
        self.max_connections_per_ip = limit;
        assert(self.keys() == old(self).keys());
        assert(self.counts_ok()) by {
            assert forall|i: int| 0 <= i < self.counts@.len() implies #[trigger] self.count_ok(
                i,
            ) by {
                assert(old(self).count_ok(i));
            }
            assert forall|k: TrackKey| #[trigger] self.counted().contains(k) implies exists|i: int|
                0 <= i < self.counts@.len() && (#[trigger] self.counts@[i]).cluster@ == k.1
                    && self.counts@[i].ip == k.2 by {
                assert(old(self).counted().contains(k));
            }
        }
        if limit == 0 {
            self.clear_cluster_ip_tracking();
        }
    }

    /// The number of slots at which no further session is accepted: twice the
    /// limit on connections, and some for listeners and the worker itself.
    pub open spec fn slab_threshold(self) -> int {
        10 + 2 * self.max_connections
    }

    /// Whether the slots are used up.
    pub open spec fn full(self) -> bool {
        self.sessions().dom().len() >= self.slab_threshold()
    }

    /// The fill level at which the slots count as used up. It lies above the
    /// limit on connections, so that connections alone do not starve listeners.
    pub fn accept_slab_threshold(&self) -> (threshold: usize)
        requires
            self.wf(),
        ensures
            threshold == self.slab_threshold(),
            threshold > self.max_connections,
    {
        10 + 2 * self.max_connections
    }

    /// The number of slots in use.
    pub fn slab_len(&self) -> (len: usize)
        ensures
            len == self.sessions().dom().len(),
    {
        assert(self.sessions().dom() =~= slots::slab_contents(self.slab).dom());
        slots::slab_len(&self.slab)
    }

    /// Whether the slots are used up.
    pub fn at_capacity(&self) -> (r: bool)
        requires
            self.wf(),
        ensures
            r == self.full(),
    {
        self.slab_len() >= self.accept_slab_threshold()
    }

    /// Checks the number of connections against its limit, and the slots.
    /// Returns false if a limit is reached; nothing is accepted from then on.
    pub fn check_limits(&mut self) -> (room: bool)
        requires
            old(self).wf(),
        ensures
            final(self).wf(),
            room == (old(self).nb_connections < old(self).max_connections && !old(self).full()),
            final(self).can_accept == (old(self).can_accept && room),
            final(self).same_counts(*old(self)),
    {
        let ghost before = *self;
        if self.nb_connections >= self.max_connections {
            self.can_accept = false;
            proof {
                before.lemma_same_tracking(*self);
            }
            return false;
        }
        if self.at_capacity() {
            self.can_accept = false;
            proof {
                before.lemma_same_tracking(*self);
            }
            return false;
        }
        true
    }

    /// Only the number of connections and the readiness to accept differ.
    pub open spec fn same_slots(self, other: Self) -> bool {
        &&& self.max_connections == other.max_connections
        &&& self.max_connections_per_ip == other.max_connections_per_ip
        &&& self.retry_after == other.retry_after
        &&& self.sessions() == other.sessions()
        &&& self.tokens_used() == other.tokens_used()
        &&& self.counted() == other.counted()
    }

    /// Only the readiness to accept differs.
    pub open spec fn same_counts(self, other: Self) -> bool {
        self.same_slots(other) && self.nb_connections == other.nb_connections
    }

    /// The token of a session, as a session token.
    pub fn to_session(token: Token) -> (s: SessionToken)
        ensures
            s == SessionToken(token.0),
    {
        SessionToken(token.0)
    }

    /// Counts one more connection. There must be room for it.
    pub fn incr(&mut self)
        requires
            old(self).wf(),
            old(self).nb_connections < old(self).max_connections,
        ensures
            final(self).wf(),
            final(self).nb_connections == old(self).nb_connections + 1,
            final(self).can_accept == old(self).can_accept,
            final(self).same_slots(*old(self)),
    {
        let ghost before = *self;
        self.nb_connections = self.nb_connections + 1;
        proof {
            before.lemma_same_tracking(*self);
        }
    }

    /// Counts one connection less. Connections are accepted again once less
    /// than 90% of the limit is in use.
    pub fn decr(&mut self)
        requires
            old(self).wf(),
            old(self).nb_connections != 0,
        ensures
            final(self).wf(),
            final(self).nb_connections == old(self).nb_connections - 1,
            final(self).can_accept == (old(self).can_accept || final(self).nb_connections < old(
                self,
            ).max_connections as int * 90 / 100),
            final(self).same_slots(*old(self)),
    {
        let ghost before = *self;
        self.nb_connections = self.nb_connections - 1;
        if !self.can_accept && self.nb_connections < self.max_connections * 90 / 100 {
            self.can_accept = true;
        }
        proof {
            before.lemma_same_tracking(*self);
        }
    }

    /// Only the slots differ.
    pub open spec fn same_limits(self, other: Self) -> bool {
        &&& self.max_connections == other.max_connections
        &&& self.nb_connections == other.nb_connections
        &&& self.can_accept == other.can_accept
        &&& self.max_connections_per_ip == other.max_connections_per_ip
        &&& self.retry_after == other.retry_after
        &&& self.counted() == other.counted()
    }

    /// Puts a session into a free slot.
    pub fn insert(&mut self, slot: SessionSlot) -> (token: Token)
        requires
            old(self).wf(),
            old(self).sessions().dom().len() < slots::slab_growth_limit(),
        ensures
            final(self).wf(),
            final(self).same_limits(*old(self)),
            !old(self).sessions().dom().contains(token.0),
            final(self).sessions() == old(self).sessions().insert(token.0, slot),
            old(self).sessions().dom().len() == old(self).tokens_used() ==> token.0 == old(
                self,
            ).tokens_used() && final(self).tokens_used() == old(self).tokens_used() + 1,
            old(self).sessions().dom().len() != old(self).tokens_used() ==> token.0 < old(
                self,
            ).tokens_used() && final(self).tokens_used() == old(self).tokens_used(),
    {
        let ghost before = *self;
        assert(self.sessions().dom() =~= slots::slab_contents(self.slab).dom());
        let value = (slot.last_event, slot.frontend_token.0, slot.protocol.to_code());
        let key = slots::slab_insert(&mut self.slab, value);
        proof {
            assert(unpack(value) == slot);
            assert(self.sessions() =~= before.sessions().insert(key, slot));
            assert(self.keys() =~= before.keys());
            before.lemma_same_tracking(*self);
        }
        Token(key)
    }

    proof fn lemma_same_tracking(self, after: Self)
        requires
            self.wf(),
            after.nb_connections <= after.max_connections,
            after.max_connections == self.max_connections,
            slots::slab_contents(after.slab).dom().finite(),
            after.tracks == self.tracks,
            after.counts == self.counts,
        ensures
            after.wf(),
            after.counted() == self.counted(),
    {
        assert(after.keys() =~= self.keys());
        assert forall|i: int| 0 <= i < after.counts@.len() implies #[trigger] after.count_ok(i) by {
            assert(self.count_ok(i));
        }
        assert forall|k: TrackKey| #[trigger] after.counted().contains(k) implies exists|i: int|
            0 <= i < after.counts@.len() && (#[trigger] after.counts@[i]).cluster@ == k.1
                && after.counts@[i].ip == k.2 by {
            assert(self.counted().contains(k));
        }
    }

    /// Finitely many connections are counted.
    pub proof fn lemma_counted_finite(self)
        ensures
            self.counted().finite(),
    {
        vstd::seq_lib::seq_to_set_is_finite(self.keys());
    }

    /// There are finitely many sessions.
    pub proof fn lemma_sessions_finite(self)
        requires
            self.wf(),
        ensures
            self.sessions().dom().finite(),
    {
        assert(self.sessions().dom() =~= slots::slab_contents(self.slab).dom());
    }

    /// The session at `token`, if there is one.
    pub fn get(&self, token: Token) -> (slot: Option<SessionSlot>)
        ensures
            slot == if self.sessions().dom().contains(token.0) {
                Some(self.sessions()[token.0])
            } else {
                None
            },
    {
        match slots::slab_get(&self.slab, token.0) {
            Some((last_event, frontend, code)) => Some(
                SessionSlot {
                    last_event,
                    frontend_token: Token(frontend),
                    protocol: Protocol::from_code(code),
                },
            ),
            None => None,
        }
    }

    /// Whether there is a session at `token`.
    pub fn contains(&self, token: Token) -> (r: bool)
        ensures
            r == self.sessions().dom().contains(token.0),
    {
        slots::slab_get(&self.slab, token.0).is_some()
    }

    /// Replaces the session at `token`; `false` if there is none.
    pub fn replace(&mut self, token: Token, slot: SessionSlot) -> (replaced: bool)
        requires
            old(self).wf(),
        ensures
            final(self).wf(),
            final(self).same_limits(*old(self)),
            replaced == old(self).sessions().dom().contains(token.0),
            final(self).sessions() == if replaced {
                old(self).sessions().insert(token.0, slot)
            } else {
                old(self).sessions()
            },
            final(self).tokens_used() == old(self).tokens_used(),
    {
        let ghost before = *self;
        if slots::slab_get(&self.slab, token.0).is_none() {
            return false;
        }
        let value = (slot.last_event, slot.frontend_token.0, slot.protocol.to_code());
        slots::slab_set(&mut self.slab, token.0, value);
        proof {
            assert(unpack(value) == slot);
            assert(self.sessions() =~= before.sessions().insert(token.0, slot));
            before.lemma_same_tracking(*self);
        }
        true
    }

    /// Frees the slot at `token`; `false` if it is free.
    pub fn remove(&mut self, token: Token) -> (removed: bool)
        requires
            old(self).wf(),
        ensures
            final(self).wf(),
            final(self).same_limits(*old(self)),
            removed == old(self).sessions().dom().contains(token.0),
            final(self).sessions() == old(self).sessions().remove(token.0),
            final(self).tokens_used() == old(self).tokens_used(),
    {
        let ghost before = *self;
        let removed = slots::slab_try_remove(&mut self.slab, token.0).is_some();
        proof {
            assert(self.sessions() =~= before.sessions().remove(token.0));
            before.lemma_same_tracking(*self);
        }
        removed
    }

    /// The tokens that have a session, in increasing order.
    pub fn tokens(&self) -> (tokens: Vec<usize>)
        ensures
            forall|i: int, j: int| 0 <= i < j < tokens@.len() ==> tokens@[i] < tokens@[j],
            forall|i: int|
                0 <= i < tokens@.len() ==> self.sessions().dom().contains(#[trigger] tokens@[i]),
            forall|k: usize| #[trigger] self.sessions().dom().contains(k) ==> tokens@.contains(k),
    {
        assert(self.sessions().dom() =~= slots::slab_contents(self.slab).dom());
        slots::slab_keys(&self.slab)
    }
}

/// Forgetting all of a token's connections undoes counting one of them, when it
/// had none before.
pub proof fn law_untrack_undoes_track(
    before: Set<TrackKey>,
    token: usize,
    cluster: Seq<char>,
    ip: IpAddr,
)
    requires
        forall|k: TrackKey| #[trigger] before.contains(k) ==> k.0 != token,
    ensures
        before.insert((token, cluster, ip)).filter(|k: TrackKey| k.0 != token) == before,
{
    assert(before.insert((token, cluster, ip)).filter(|k: TrackKey| k.0 != token) =~= before);
}

/// Counting a connection that was found to be under the limit keeps the count
/// at or under the limit.
pub proof fn law_limit_is_kept(
    before: Set<TrackKey>,
    token: usize,
    cluster: Seq<char>,
    ip: IpAddr,
    limit: nat,
)
    requires
        before.finite(),
        connections_in(before, cluster, ip) <= limit,
        before.contains((token, cluster, ip)) || connections_in(before, cluster, ip) < limit,
    ensures
        connections_in(before.insert((token, cluster, ip)), cluster, ip) <= limit,
{
    let key = (token, cluster, ip);
    if before.contains(key) {
        assert(before.insert(key) =~= before);
    } else {
        law_tracking_counts_one(before, key, cluster, ip);
    }
}

/// The limit of connections per source that a cluster is configured to comes
/// before the default of the worker, even where it is zero, which stands for no
/// limit.
pub proof fn law_the_limit_of_a_cluster_comes_first(manager: SessionManager, own: Option<u64>)
    ensures
        own is Some ==> manager.limit_per_ip(own) == own->0,
        own is None ==> manager.limit_per_ip(own) == manager.max_connections_per_ip,
{
}

/// The worker has slots left if and only if fewer are taken than ten and two for
/// each connection that it may have.
pub proof fn law_a_connection_takes_two_slots(manager: SessionManager)
    ensures
        manager.full() <==> manager.sessions().dom().len() >= 10 + 2 * manager.max_connections,
        manager.slab_threshold() == 10 + 2 * manager.max_connections,
{
}

/// A connection is counted for one cluster and one source, and once however often
/// it is counted; others are counted each on their own.
pub proof fn law_connections_are_counted_each_once(
    counted: Set<TrackKey>,
    token: usize,
    other: usize,
    cluster: Seq<char>,
    ip: IpAddr,
)
    requires
        counted.finite(),
        token != other,
        !counted.contains((token, cluster, ip)),
        !counted.contains((other, cluster, ip)),
    ensures
        ({
            let once = counted.insert((token, cluster, ip));
            &&& connections_in(once, cluster, ip) == connections_in(counted, cluster, ip) + 1
            &&& once.insert((token, cluster, ip)) == once
            &&& connections_in(once.insert((other, cluster, ip)), cluster, ip) == connections_in(
                counted,
                cluster,
                ip,
            ) + 2
        }),
{
    let once = counted.insert((token, cluster, ip));
    let twice = once.insert((other, cluster, ip));
    assert(once.insert((token, cluster, ip)) =~= once);
    assert(tokens_of(once, cluster, ip) =~= tokens_of(counted, cluster, ip).insert(
        (token, cluster, ip),
    ));
    assert(tokens_of(twice, cluster, ip) =~= tokens_of(once, cluster, ip).insert(
        (other, cluster, ip),
    ));
}

/// Only connections to the cluster and from the source count.
pub proof fn law_other_sources_do_not_count(
    counted: Set<TrackKey>,
    key: TrackKey,
    cluster: Seq<char>,
    ip: IpAddr,
)
    requires
        counted.finite(),
        key.1 != cluster || key.2 != ip,
    ensures
        connections_in(counted.insert(key), cluster, ip) == connections_in(counted, cluster, ip),
        connections_in(counted.remove(key), cluster, ip) == connections_in(counted, cluster, ip),
{
    assert(tokens_of(counted.insert(key), cluster, ip) =~= tokens_of(counted, cluster, ip));
    assert(tokens_of(counted.remove(key), cluster, ip) =~= tokens_of(counted, cluster, ip));
}

/// The kinds of slots that accept connections are the listeners of HTTP, HTTPS
/// and TCP. They, the UDP listeners, the command channel, the metrics and the
/// timer are the worker's own; all others are clients'.
pub proof fn law_listeners_accept_and_clients_do_not(protocol: Protocol)
    ensures
        protocol.accepts() <==> protocol is HTTPListen || protocol is HTTPSListen
            || protocol is TCPListen,
        !protocol.is_system() <==> protocol is HTTP || protocol is HTTPS || protocol is TCP
            || protocol is UDP,
{
}

/// A slot keeps its kind: the number that stands for a kind stands for no other.
pub proof fn law_kinds_are_kept(protocol: Protocol, other: Protocol)
    ensures
        Protocol::of_code(protocol.code()) == protocol,
        protocol.code() == other.code() ==> protocol == other,
{
}

/// The slot of a listener never falls idle, belongs to no client and has the
/// listener's kind.
pub proof fn law_the_slot_of_a_listener(listener: ListenSession, now: u64)
    ensures
        listener.slot_spec().last_event >= now,
        listener.slot_spec().frontend_token == Token(0),
        listener.slot_spec().protocol == listener.protocol,
{
}

/// What stays when only slots, only counts, only the readiness to accept or only
/// the tracking changes.
pub proof fn law_what_is_untouched_stays(after: SessionManager, before: SessionManager)
    ensures
        after.same_settings(before) || after.same_limits(before) ==> {
            &&& after.max_connections == before.max_connections
            &&& after.nb_connections == before.nb_connections
            &&& after.can_accept == before.can_accept
            &&& after.max_connections_per_ip == before.max_connections_per_ip
            &&& after.retry_after == before.retry_after
        },
        after.same_limits(before) ==> after.counted() == before.counted(),
        after.same_but_tracking(before) ==> after.same_settings(before) && after.sessions()
            == before.sessions(),
        after.same_slots(before) || after.same_counts(before) ==> {
            &&& after.max_connections == before.max_connections
            &&& after.max_connections_per_ip == before.max_connections_per_ip
            &&& after.retry_after == before.retry_after
            &&& after.sessions() == before.sessions()
            &&& after.tokens_used() == before.tokens_used()
            &&& after.counted() == before.counted()
        },
        after.same_counts(before) ==> after.nb_connections == before.nb_connections,
{
}

/// How many connections a cluster has from a source is how many tokens are
/// counted for the two: with one counted more there is one more, and a token that
/// is counted for another cluster or source makes no difference.
pub proof fn law_connections_are_those_counted(
    before: SessionManager,
    after: SessionManager,
    token: usize,
    cluster: Seq<char>,
    ip: IpAddr,
    other_cluster: Seq<char>,
    other_ip: IpAddr,
)
    requires
        !before.counted().contains((token, cluster, ip)),
        after.counted() == before.counted().insert((token, cluster, ip)),
    ensures
        after.connections(cluster, ip) == before.connections(cluster, ip) + 1,
        other_cluster != cluster || other_ip != ip ==> after.connections(other_cluster, other_ip)
            == before.connections(other_cluster, other_ip),
{
    let all = before.counted();
    before.lemma_counted_finite();
    assert(tokens_of(all.insert((token, cluster, ip)), cluster, ip) =~= tokens_of(
        all,
        cluster,
        ip,
    ).insert((token, cluster, ip)));
    if other_cluster != cluster || other_ip != ip {
        assert(tokens_of(all.insert((token, cluster, ip)), other_cluster, other_ip) =~= tokens_of(
            all,
            other_cluster,
            other_ip,
        ));
    }
}

} // verus!
