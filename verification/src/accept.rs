//! How the worker takes in connections: accepting them from its listeners, and
//! creating their sessions.
use vstd::prelude::*;

use crate::server::{AcceptOutcome, CreateStep, QueuedConnection, Ready, ReadyAction, Server};
use crate::session_manager::{ListenToken, Protocol};
use crate::sessions;
use crate::Token;

verus! {

/// Where `token` is among `tokens`.
fn position(tokens: &Vec<usize>, token: usize) -> (at: Option<usize>)
    ensures
        at matches Some(i) ==> i < tokens@.len() && tokens@[i as int] == token,
        at is Some <==> tokens@.contains(token),
{
    let mut i: usize = 0;
    while i < tokens.len()
        invariant
            i <= tokens@.len(),
            forall|j: int| 0 <= j < i ==> tokens@[j] != token,
        decreases tokens@.len() - i,
    {
        if tokens[i] == token {
            return Some(i);
        }
        i += 1;
    }
    None
}

/// The numbers without `token`.
pub open spec fn drop_token(tokens: Seq<usize>, token: usize) -> Seq<usize> {
    if tokens.contains(token) {
        tokens.remove(tokens.index_of(token))
    } else {
        tokens
    }
}

/// In a sequence without duplicates, dropping a token leaves all others, and no
/// duplicates.
pub proof fn lemma_drop_token(tokens: Seq<usize>, token: usize)
    requires
        tokens.no_duplicates(),
    ensures
        drop_token(tokens, token).no_duplicates(),
        forall|t: usize| #[trigger]
            drop_token(tokens, token).contains(t) <==> tokens.contains(t) && t != token,
{
    if tokens.contains(token) {
        let at = tokens.index_of(token);
        let rest = tokens.remove(at);
        assert forall|t: usize| #[trigger] rest.contains(t) <==> tokens.contains(t) && t
            != token by {
            if rest.contains(t) {
                let i = rest.index_of(t);
                assert(rest[i] == tokens[if i < at {
                    i
                } else {
                    i + 1
                }]);
            }
            if tokens.contains(t) && t != token {
                let i = tokens.index_of(t);
                assert(rest[if i < at {
                    i
                } else {
                    i - 1
                }] == t);
            }
        }
    }
}

impl Server {
    /// The listeners that are known to have connections to accept.
    pub open spec fn waiting(self, token: usize) -> bool {
        self.accept_ready@.contains(token)
    }

    /// Notes that a listener has connections to accept.
    pub fn note_accept_ready(&mut self, token: ListenToken)
        requires
            old(self).wf(),
        ensures
            final(self).wf(),
            *final(self) == (Server { accept_ready: final(self).accept_ready, ..*old(self) }),
            final(self).accept_ready@ == if old(self).waiting(token.0) {
                old(self).accept_ready@
            } else {
                old(self).accept_ready@.push(token.0)
            },
            final(self).waiting(token.0),
            forall|t: usize| #[trigger]
                final(self).waiting(t) <==> old(self).waiting(t) || t == token.0,
    {
        let ghost before = self.accept_ready@;
        if position(&self.accept_ready, token.0).is_none() {
            self.accept_ready.push(token.0);
            proof {
                assert forall|t: usize| #[trigger] self.accept_ready@.contains(t)
                    <==> before.contains(t) || t == token.0 by {
                    if before.contains(t) {
                        assert(self.accept_ready@[before.index_of(t)] == t);
                    }
                    if t == token.0 {
                        assert(self.accept_ready@[before.len() as int] == t);
                    }
                    if self.accept_ready@.contains(t) {
                        let i = self.accept_ready@.index_of(t);
                        if i < before.len() {
                            assert(before[i] == t);
                        }
                    }
                }
            }
        }
        assert forall|t: usize| #[trigger] self.waiting(t) <==> old(self).waiting(t) || t
            == token.0 by {}
    }

    /// Forgets that a listener has connections to accept.
    pub fn drop_accept_ready(&mut self, token: ListenToken)
        requires
            old(self).wf(),
        ensures
            final(self).wf(),
            *final(self) == (Server { accept_ready: final(self).accept_ready, ..*old(self) }),
            final(self).accept_ready@ == drop_token(old(self).accept_ready@, token.0),
            !final(self).waiting(token.0),
            forall|t: usize| #[trigger]
                final(self).waiting(t) <==> old(self).waiting(t) && t != token.0,
    {
        proof {
            lemma_drop_token(self.accept_ready@, token.0);
        }
        let ghost before = self.accept_ready@;
        if let Some(i) = position(&self.accept_ready, token.0) {
            assert(before.index_of(token.0) == i) by {
                assert(before[before.index_of(token.0)] == before[i as int]);
            }
            let _ = self.accept_ready.remove(i);
        }
        assert(self.accept_ready@ == drop_token(before, token.0));
    }

    /// What an event on a token leads to. A listener that is readable is noted,
    /// and its connections are accepted right away unless the worker is at its
    /// limit; nothing else is expected of a listener. An event of a client's
    /// session is noted in its slots. An event on a token without a session is
    /// passed over.
    pub fn ready(&mut self, token: Token, events: Ready, now: u64) -> (action: ReadyAction)
        requires
            old(self).wf(),
            old(self).sessions.sessions().dom().contains(token.0) && old(
                self,
            ).sessions.sessions()[token.0].protocol.accepts() ==> events.readable
                || events.writable || events.hup,
        ensures
            final(self).wf(),
            *final(self) == (Server {
                accept_ready: final(self).accept_ready,
                sessions: final(self).sessions,
                ..*old(self)
            }),
            !old(self).sessions.sessions().dom().contains(token.0) ==> action is Ignore
                && final(self).accept_ready@ == old(self).accept_ready@ && final(self).sessions
                == old(self).sessions,
            old(self).sessions.sessions().dom().contains(token.0) ==> {
                let protocol = old(self).sessions.sessions()[token.0].protocol;
                let client = old(self).sessions.sessions()[token.0].frontend_token;
                &&& protocol.is_system() ==> final(self).sessions == old(self).sessions
                &&& !protocol.is_system() ==> {
                    &&& final(self).sessions.same_limits(old(self).sessions)
                    &&& final(self).sessions.sessions() == sessions::touched(
                        old(self).sessions.sessions(),
                        client,
                        now,
                    )
                    &&& sessions::in_step(final(self).sessions.sessions(), client, now)
                }
                &&& !protocol.accepts() ==> action is Dispatch && final(self).accept_ready@ == old(
                    self,
                ).accept_ready@
                &&& protocol.accepts() && events.readable ==> {
                    &&& final(self).waiting(token.0)
                    &&& forall|t: usize| #[trigger]
                        final(self).waiting(t) <==> old(self).waiting(t) || t == token.0
                    &&& action == if old(self).sessions.can_accept {
                        ReadyAction::Accept(ListenToken(token.0), protocol)
                    } else {
                        ReadyAction::Ignore
                    }
                }
                &&& protocol.accepts() && !events.readable ==> action is Ignore
                    && final(self).accept_ready@ == old(self).accept_ready@
            },
    {
        let slot = match self.sessions.get(token) {
            Some(slot) => slot,
            None => {
                return ReadyAction::Ignore;
            },
        };
        let protocol = slot.protocol;
        if !protocol.can_accept() {
            if !protocol.system() {
                self.sessions.touch(slot.frontend_token, now);
            }
            return ReadyAction::Dispatch;
        }
        if events.readable {
            self.note_accept_ready(ListenToken(token.0));
            if self.sessions.can_accept {
                return ReadyAction::Accept(ListenToken(token.0), protocol);
            }
        }
        ReadyAction::Ignore
    }

    /// Whether a timeout on a token is to be handed to a session.
    pub fn timeout(&self, token: Token) -> (dispatch: bool)
        ensures
            dispatch == self.sessions.sessions().dom().contains(token.0),
    {
        self.sessions.contains(token)
    }

    /// Takes in how accepting a connection of a listener went, and says whether
    /// to try for another. The listener is no longer noted once it has no more,
    /// or failed. On behalf of a slot that is no listener's nothing is accepted.
    pub fn accepted(
        &mut self,
        token: ListenToken,
        protocol: Protocol,
        outcome: AcceptOutcome,
        now: u64,
    ) -> (more: bool)
        requires
            old(self).wf(),
        ensures
            final(self).wf(),
            *final(self) == (Server {
                accept_ready: final(self).accept_ready,
                accept_queue: final(self).accept_queue,
                ..*old(self)
            }),
            more == (protocol.accepts() && outcome is Accepted),
            !protocol.accepts() ==> *final(self) == *old(self),
            protocol.accepts() ==> match outcome {
                AcceptOutcome::Accepted(socket, peer) => {
                    &&& final(self).accept_ready@ == old(self).accept_ready@
                    &&& final(self).accept_queue@ == old(self).accept_queue@.push(
                        (QueuedConnection {
                            socket,
                            listener: token,
                            protocol,
                            accepted_at: now,
                            peer,
                        }),
                    )
                },
                _ => {
                    &&& final(self).accept_queue@ == old(self).accept_queue@
                    &&& final(self).accept_ready@ == drop_token(old(self).accept_ready@, token.0)
                },
            },
    {
        if !protocol.can_accept() {
            return false;
        }
        match outcome {
            AcceptOutcome::Accepted(socket, peer) => {
                self.accept_queue.push(
                    QueuedConnection { socket, listener: token, protocol, accepted_at: now, peer },
                );
                true
            },
            _ => {
                self.drop_accept_ready(token);
                false
            },
        }
    }

    /// Drops the noted listeners that have no slot, from the first one on.
    pub open spec fn first_waiting(tokens: Seq<usize>, keys: Set<usize>) -> Seq<usize>
        decreases tokens.len(),
    {
        if tokens.len() == 0 || keys.contains(tokens[0]) {
            tokens
        } else {
            Self::first_waiting(tokens.drop_first(), keys)
        }
    }

    /// The next listener to accept from after the events of a round, if the
    /// worker can accept. A noted listener without a slot is forgotten.
    pub fn next_deferred_accept(&mut self) -> (next: Option<(ListenToken, Protocol)>)
        requires
            old(self).wf(),
        ensures
            final(self).wf(),
            *final(self) == (Server { accept_ready: final(self).accept_ready, ..*old(self) }),
            !old(self).sessions.can_accept ==> next is None && *final(self) == *old(self),
            old(self).sessions.can_accept ==> final(self).accept_ready@ == Self::first_waiting(
                old(self).accept_ready@,
                old(self).sessions.sessions().dom(),
            ),
            old(self).sessions.can_accept ==> (next is None <==> final(self).accept_ready@.len()
                == 0),
            next matches Some((token, protocol)) ==> {
                &&& token.0 == final(self).accept_ready@[0]
                &&& old(self).sessions.sessions().dom().contains(token.0)
                &&& protocol == old(self).sessions.sessions()[token.0].protocol
            },
    {
        if !self.sessions.can_accept {
            return None;
        }
        let ghost before = *self;
        while self.accept_ready.len() > 0
            invariant
                self.wf(),
                before == *old(self),
                before.sessions.can_accept,
                *self == (Server { accept_ready: self.accept_ready, ..before }),
                Self::first_waiting(self.accept_ready@, before.sessions.sessions().dom())
                    == Self::first_waiting(before.accept_ready@, before.sessions.sessions().dom()),
            decreases self.accept_ready@.len(),
        {
            let token = self.accept_ready[0];
            if let Some(slot) = self.sessions.get(Token(token)) {
                return Some((ListenToken(token), slot.protocol));
            }
            let ghost tokens = self.accept_ready@;
            let _ = self.accept_ready.remove(0);
            proof {
                assert(self.accept_ready@ =~= tokens.drop_first());
                assert(self.accept_ready@.no_duplicates());
            }
        }
        None
    }

    /// How many sessions are closed to make room: one in a hundred, and at
    /// least one.
    pub open spec fn eviction_size(self) -> usize {
        if self.sessions.max_connections / 100 > 1 {
            self.sessions.max_connections / 100
        } else {
            1
        }
    }

    /// Takes the connection that was accepted last, and says what to do with
    /// it. One that waited for too long is dropped. At the limit it is refused,
    /// unless sessions may be closed to make room, which is not done while
    /// shutting down.
    pub fn next_session(&mut self, now: u64) -> (step: CreateStep)
        requires
            old(self).wf(),
        ensures
            final(self).wf(),
            *final(self) == (Server {
                accept_queue: final(self).accept_queue,
                sessions: final(self).sessions,
                ..*old(self)
            }),
            final(self).sessions.same_counts(old(self).sessions),
            old(self).accept_queue@.len() == 0 ==> step is Stop && final(self).accept_queue@ == old(
                self,
            ).accept_queue@ && final(self).sessions == old(self).sessions,
            old(self).accept_queue@.len() > 0 ==> {
                let c = old(self).accept_queue@.last();
                let wait = if now >= c.accepted_at {
                    (now - c.accepted_at) as u64
                } else {
                    0
                };
                let room = old(self).sessions.nb_connections < old(self).sessions.max_connections
                    && !old(self).sessions.full();
                let expired = wait > old(self).accept_queue_timeout;
                &&& final(self).accept_queue@ == old(self).accept_queue@.drop_last()
                &&& final(self).sessions.can_accept == (old(self).sessions.can_accept && (expired
                    || room))
                &&& step == if expired {
                    CreateStep::Expired(c)
                } else if room {
                    CreateStep::Create(c, wait)
                } else if old(self).evict_on_queue_full && old(self).shutting_down is None {
                    CreateStep::Evict(c, old(self).eviction_size())
                } else {
                    CreateStep::Refused(c)
                }
            },
    {
        let c = match self.accept_queue.pop() {
            Some(c) => c,
            None => {
                return CreateStep::Stop;
            },
        };
        assert(self.accept_queue@ =~= old(self).accept_queue@.drop_last());
        let wait: u64 = if now >= c.accepted_at {
            now - c.accepted_at
        } else {
            0
        };
        if wait > self.accept_queue_timeout {
            return CreateStep::Expired(c);
        }
        if self.sessions.check_limits() {
            return CreateStep::Create(c, wait);
        }
        if !self.evict_on_queue_full {
            return CreateStep::Refused(c);
        }
        if self.shutting_down.is_some() {
            return CreateStep::Refused(c);
        }
        let size: usize = if self.sessions.max_connections / 100 > 1 {
            self.sessions.max_connections / 100
        } else {
            1
        };
        CreateStep::Evict(c, size)
    }

    /// What to do with a connection once sessions were closed to make room for
    /// it: serve it if there is room now.
    pub fn after_eviction(
        &mut self,
        connection: QueuedConnection,
        evicted: usize,
        now: u64,
    ) -> (step: CreateStep)
        requires
            old(self).wf(),
        ensures
            final(self).wf(),
            *final(self) == (Server { sessions: final(self).sessions, ..*old(self) }),
            final(self).sessions.same_counts(old(self).sessions),
            ({
                let wait = if now >= connection.accepted_at {
                    (now - connection.accepted_at) as u64
                } else {
                    0
                };
                let room = old(self).sessions.nb_connections < old(self).sessions.max_connections
                    && !old(self).sessions.full();
                &&& final(self).sessions.can_accept == (old(self).sessions.can_accept && (evicted
                    == 0 || room))
                &&& step == if evicted > 0 && room {
                    CreateStep::Create(connection, wait)
                } else {
                    CreateStep::Refused(connection)
                }
            }),
    {
        let wait: u64 = if now >= connection.accepted_at {
            now - connection.accepted_at
        } else {
            0
        };
        if evicted > 0 && self.sessions.check_limits() {
            CreateStep::Create(connection, wait)
        } else {
            CreateStep::Refused(connection)
        }
    }

    /// Takes in whether the session of a connection was created, and says
    /// whether to go on with the next one. A session that was created counts.
    pub fn session_created(&mut self, created: bool) -> (go_on: bool)
        requires
            old(self).wf(),
            created ==> old(self).sessions.nb_connections < old(self).sessions.max_connections,
        ensures
            final(self).wf(),
            go_on == created,
            *final(self) == (Server { sessions: final(self).sessions, ..*old(self) }),
            final(self).sessions.same_slots(old(self).sessions),
            final(self).sessions.can_accept == old(self).sessions.can_accept,
            final(self).sessions.nb_connections == old(self).sessions.nb_connections + if created {
                1int
            } else {
                0
            },
    {
        if created {
            self.sessions.incr();
        }
        created
    }
}

/// A connection is only ever served while fewer connections are counted than
/// the limit allows, so that counting it keeps the limit.
pub proof fn law_created_sessions_stay_under_the_limit(
    before: Server,
    after: Server,
    step: CreateStep,
    now: u64,
)
    requires
        before.accept_queue@.len() > 0,
        step is Create,
        step == ({
            let c = before.accept_queue@.last();
            let wait = if now >= c.accepted_at {
                (now - c.accepted_at) as u64
            } else {
                0
            };
            let room = before.sessions.nb_connections < before.sessions.max_connections
                && !before.sessions.full();
            if wait > before.accept_queue_timeout {
                CreateStep::Expired(c)
            } else if room {
                CreateStep::Create(c, wait)
            } else if before.evict_on_queue_full && before.shutting_down is None {
                CreateStep::Evict(c, before.eviction_size())
            } else {
                CreateStep::Refused(c)
            }
        }),
        after.sessions.same_counts(before.sessions),
    ensures
        after.sessions.nb_connections + 1 <= after.sessions.max_connections,
{
}

/// A listener that is taken off the list of those that wait is no longer on it;
/// the others stay, in their order. One that is not on the list changes nothing.
pub proof fn law_a_dropped_listener_waits_no_longer(
    front: Seq<usize>,
    token: usize,
    back: Seq<usize>,
)
    requires
        !front.contains(token),
        !back.contains(token),
    ensures
        drop_token(front + seq![token] + back, token) == front + back,
        drop_token(front + back, token) == front + back,
{
    let tokens = front + seq![token] + back;
    assert(tokens[front.len() as int] == token);
    assert(tokens.contains(token));
    let i = tokens.index_of(token);
    if i < front.len() {
        assert(front[i] == token);
    } else if i > front.len() {
        assert(back[i - front.len() - 1] == token);
    }
    assert(tokens.remove(i) =~= front + back);
    if (front + back).contains(token) {
        let j = (front + back).index_of(token);
        if j < front.len() {
            assert(front[j] == token);
        } else {
            assert(back[j - front.len()] == token);
        }
    }
}

/// The listener that is accepted from next is the first one that waits and has a
/// slot; those before it have none, and those behind it go on waiting.
pub proof fn law_the_first_waiting_listener_is_next(tokens: Seq<usize>, keys: Set<usize>, n: int)
    requires
        0 <= n <= tokens.len(),
        forall|i: int| 0 <= i < n ==> !keys.contains(#[trigger] tokens[i]),
        n < tokens.len() ==> keys.contains(tokens[n]),
    ensures
        Server::first_waiting(tokens, keys) == tokens.skip(n),
    decreases n,
{
    if n > 0 {
        let rest = tokens.drop_first();
        assert forall|i: int| 0 <= i < n - 1 implies !keys.contains(#[trigger] rest[i]) by {
            assert(rest[i] == tokens[i + 1]);
        }
        law_the_first_waiting_listener_is_next(rest, keys, n - 1);
        assert(rest.skip(n - 1) =~= tokens.skip(n));
        assert(!keys.contains(tokens[0]));
    } else {
        assert(tokens.skip(0) =~= tokens);
    }
}

/// Room is made by closing one in a hundred of the connections that there may be,
/// but at least one.
pub proof fn law_room_is_made_by_the_hundredth(server: Server)
    ensures
        server.eviction_size() >= 1,
        server.sessions.max_connections >= 100 ==> server.eviction_size() * 100
            <= server.sessions.max_connections < (server.eviction_size() + 1) * 100,
        server.sessions.max_connections < 100 ==> server.eviction_size() == 1,
{
}

} // verus!
