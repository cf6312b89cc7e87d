//! How the worker closes sessions: idle ones, those in the way of new ones, and
//! all of them when it shuts down.
use vstd::prelude::*;

use crate::message::WorkerResponse;
use crate::server::Server;
use crate::session_manager::SessionSlot;
use crate::sessions;
use crate::Token;

verus! {

/// What closing sessions leads to while the worker shuts down.
#[derive(Debug)]
pub enum ShutdownStep {
    /// Sessions are left: the worker goes on.
    GoOn,
    /// The last session is closed: the worker answers and stops.
    Stop(WorkerResponse),
}

impl Server {
    /// Whether a round of looking for idle sessions is due.
    pub open spec fn zombie_check_due(self, now: u64) -> bool {
        (if now >= self.last_zombie_check {
            now - self.last_zombie_check
        } else {
            0
        }) >= self.zombie_check_interval
    }

    /// The clients whose sessions have been idle for longer than the interval,
    /// if it is time to look for them.
    pub fn zombie_check(&mut self, now: u64) -> (zombies: Option<Vec<Token>>)
        requires
            old(self).wf(),
        ensures
            final(self).wf(),
            zombies is Some <==> old(self).zombie_check_due(now),
            *final(self) == (Server {
                last_zombie_check: if old(self).zombie_check_due(now) {
                    now
                } else {
                    old(self).last_zombie_check
                },
                ..*old(self)
            }),
            zombies matches Some(z) ==> z@.no_duplicates() && forall|t: Token| #[trigger]
                z@.contains(t) <==> sessions::is_zombie(
                    old(self).sessions.sessions(),
                    t,
                    now,
                    old(self).zombie_check_interval,
                ),
    {
        let since: u64 = if now >= self.last_zombie_check {
            now - self.last_zombie_check
        } else {
            0
        };
        if since < self.zombie_check_interval {
            return None;
        }
        self.last_zombie_check = now;
        Some(sessions::zombie_tokens(&self.sessions, now, self.zombie_check_interval))
    }

    /// Frees the slots of `tokens`. The sessions that were there are returned:
    /// they are to be closed, and then `finish_shut_down` is to be called.
    pub fn begin_shut_down(&mut self, tokens: &Vec<Token>) -> (closed: Vec<Token>)
        requires
            old(self).wf(),
            tokens@.no_duplicates(),
            sessions::present(tokens@, old(self).sessions.sessions()).len() <= old(
                self,
            ).sessions.nb_connections,
        ensures
            final(self).wf(),
            closed@ == sessions::present(tokens@, old(self).sessions.sessions()),
            final(self).sessions.sessions() == sessions::without_tokens(
                old(self).sessions.sessions(),
                tokens@,
            ),
            final(self).sessions.nb_connections == old(self).sessions.nb_connections
                - closed@.len(),
            final(self).sessions.can_accept == (old(self).sessions.can_accept || (closed@.len() > 0
                && final(self).sessions.nb_connections < old(
                self,
            ).sessions.max_connections as int * 90 / 100)),
            final(self).sessions.max_connections == old(self).sessions.max_connections,
            final(self).sessions.max_connections_per_ip == old(
                self,
            ).sessions.max_connections_per_ip,
            final(self).sessions.retry_after == old(self).sessions.retry_after,
            final(self).sessions.counted() == old(self).sessions.counted(),
            *final(self) == (Server { sessions: final(self).sessions, ..*old(self) }),
    {
        sessions::remove_sessions(&mut self.sessions, tokens)
    }

    /// Frees the slots that the sessions of `tokens` left behind when they were
    /// closed, and returns how many there were.
    pub fn finish_shut_down(&mut self, tokens: &Vec<Token>) -> (dangling: usize)
        requires
            old(self).wf(),
        ensures
            final(self).wf(),
            final(self).sessions.sessions() == sessions::without_clients(
                old(self).sessions.sessions(),
                tokens@,
            ),
            final(self).sessions.same_limits(old(self).sessions),
            dangling == old(self).sessions.sessions().dom().len()
                - final(self).sessions.sessions().dom().len(),
            *final(self) == (Server { sessions: final(self).sessions, ..*old(self) }),
    {
        if tokens.len() == 0 {
            assert(sessions::without_clients(self.sessions.sessions(), tokens@)
                =~= self.sessions.sessions());
            return 0;
        }
        sessions::sweep_dangling(&mut self.sessions, tokens)
    }

    /// The clients of the `count` least recently active sessions, which are to
    /// be closed to make room: as many as that, unless there are fewer.
    pub fn evict_least_active_sessions(&self, count: usize) -> (chosen: Vec<Token>)
        ensures
            sessions::is_eviction(self.sessions.sessions(), count, chosen@),
    {
        if count == 0 {
            return Vec::new();
        }
        sessions::evictable(&self.sessions, count)
    }

    /// After sessions were told to close because the worker shuts down:
    /// `slots_before` is how many slots there were before that. The worker
    /// stops once only its own slots are left, and answers the request to shut
    /// down.
    pub fn shut_down_progress(&mut self, slots_before: usize, now: u64) -> (step: ShutdownStep)
        requires
            old(self).wf(),
            old(self).shutting_down is Some,
        ensures
            ({
                let left = old(self).sessions.sessions().dom().len();
                &&& final(self).wf()
                &&& (left <= old(self).base_sessions_count) == step is Stop
                &&& step matches ShutdownStep::Stop(r) ==> r.is_ok_for(
                    old(self).shutting_down->0@,
                )
                &&& *final(self) == (Server {
                    shutting_down: if step is Stop {
                        None
                    } else {
                        old(self).shutting_down
                    },
                    last_shutting_down_message: if left < slots_before {
                        Some(now)
                    } else {
                        old(self).last_shutting_down_message
                    },
                    last_sessions_len: if step is GoOn && left < old(self).last_sessions_len {
                        left as usize
                    } else {
                        old(self).last_sessions_len
                    },
                    ..*old(self)
                })
            }),
    {
        let left = self.sessions.slab_len();
        if left < slots_before {
            self.last_shutting_down_message = Some(now);
        }
        if left <= self.base_sessions_count {
            if let Some(id) = self.shutting_down.take() {
                return ShutdownStep::Stop(WorkerResponse::ok(&id));
            }
        }
        if left < self.last_sessions_len {
            self.last_sessions_len = left;
        }
        ShutdownStep::GoOn
    }

    /// Takes in that the worker is to shut down.
    pub fn soft_stop(&mut self, request: String)
        ensures
            *final(self) == (Server {
                shutting_down: Some(request),
                last_sessions_len: final(self).last_sessions_len,
                ..*old(self)
            }),
            final(self).last_sessions_len == old(self).sessions.sessions().dom().len(),
    {
        self.shutting_down = Some(request);
        self.last_sessions_len = self.sessions.slab_len();
    }

    /// The next answer to send, if there is one.
    pub fn next_response(&mut self) -> (response: Option<WorkerResponse>)
        ensures
            old(self).queue@.len() == 0 ==> response is None && *final(self) == *old(self),
            old(self).queue@.len() > 0 ==> response == Some(old(self).queue@[0])
                && final(self).queue@ == old(self).queue@.drop_first(),
            *final(self) == (Server { queue: final(self).queue, ..*old(self) }),
    {
        if self.queue.len() == 0 {
            None
        } else {
            let response = self.queue.remove(0);
            assert(self.queue@ =~= old(self).queue@.drop_first());
            Some(response)
        }
    }

    /// Keeps an answer that could not be sent, to send it first next time.
    pub fn keep_response(&mut self, response: WorkerResponse)
        ensures
            final(self).queue@ == seq![response] + old(self).queue@,
            *final(self) == (Server { queue: final(self).queue, ..*old(self) }),
    {
        self.queue.insert(0, response);
        assert(self.queue@ =~= seq![response] + old(self).queue@);
    }

    /// Adds an answer to those that are to be sent.
    pub fn push_queue(&mut self, response: WorkerResponse)
        ensures
            final(self).queue@ == old(self).queue@.push(response),
            *final(self) == (Server { queue: final(self).queue, ..*old(self) }),
    {
        self.queue.push(response);
    }
}

/// Keeping an answer that could not be sent leaves the answers as they were.
pub proof fn law_kept_response_stays_first(queue: Seq<WorkerResponse>)
    requires
        queue.len() > 0,
    ensures
        seq![queue[0]] + queue.drop_first() == queue,
{
    assert(seq![queue[0]] + queue.drop_first() =~= queue);
}

/// A listener is never taken for an idle session: its slot never falls idle.
pub proof fn law_listeners_are_no_zombies(
    sessions: Map<usize, SessionSlot>,
    key: usize,
    protocol: crate::session_manager::Protocol,
    now: u64,
    interval: u64,
)
    requires
        sessions.dom().contains(key),
        sessions[key] == (crate::session_manager::ListenSession { protocol }).slot_spec(),
    ensures
        !(sessions::idle_time(sessions[key], now) > interval),
{
}

/// A client that is evicted has a session that is neither a listener's nor the
/// worker's own.
pub proof fn law_eviction_spares_the_system(
    sessions: Map<usize, SessionSlot>,
    count: usize,
    chosen: Seq<Token>,
    token: Token,
)
    requires
        sessions::is_eviction(sessions, count, chosen),
        chosen.contains(token),
    ensures
        exists|k: usize| #[trigger]
            sessions.dom().contains(k) && sessions[k].frontend_token == token
                && !sessions[k].protocol.is_system(),
{
    assert(sessions::is_client(sessions, token));
}

/// Idle sessions are looked for once the interval has passed since that was last
/// done, and not before.
pub proof fn law_idle_sessions_are_looked_for_in_time(server: Server, now: u64)
    requires
        server.zombie_check_interval > 0,
    ensures
        server.zombie_check_due(now) <==> now >= server.last_zombie_check
            + server.zombie_check_interval,
{
}

} // verus!
