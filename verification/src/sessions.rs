//! Finding and closing the sessions of a worker.
use vstd::prelude::*;

use crate::session_manager::{SessionManager, SessionSlot};
use crate::Token;

verus! {

/// How long a session has been without events, in nanoseconds.
pub open spec fn idle_time(slot: SessionSlot, now: u64) -> int {
    if slot.last_event >= now {
        0
    } else {
        now - slot.last_event
    }
}

/// Whether one of the sessions has `token` as its client's and has been idle
/// for longer than `interval`.
pub open spec fn is_zombie(
    sessions: Map<usize, SessionSlot>,
    token: Token,
    now: u64,
    interval: u64,
) -> bool {
    exists|k: usize| #[trigger]
        sessions.dom().contains(k) && sessions[k].frontend_token == token && idle_time(
            sessions[k],
            now,
        ) > interval
}

/// Whether `token` is among `tokens`.
pub fn contains_token(tokens: &Vec<Token>, token: Token) -> (r: bool)
    ensures
        r == tokens@.contains(token),
{
    let mut i: usize = 0;
    while i < tokens.len()
        invariant
            i <= tokens@.len(),
            forall|j: int| 0 <= j < i ==> tokens@[j] != token,
        decreases tokens@.len() - i,
    {
        if tokens[i] == token {
            return true;
        }
        i += 1;
    }
    false
}

/// Adds `token` unless it is there.
fn add_token(tokens: &mut Vec<Token>, token: Token)
    requires
        old(tokens)@.no_duplicates(),
    ensures
        final(tokens)@.no_duplicates(),
        forall|t: Token| #[trigger]
            final(tokens)@.contains(t) <==> old(tokens)@.contains(t) || t == token,
{
    let ghost before = tokens@;
    if !contains_token(tokens, token) {
        tokens.push(token);
        proof {
            assert forall|t: Token| #[trigger] tokens@.contains(t) <==> before.contains(t) || t
                == token by {
                if before.contains(t) {
                    let i = before.index_of(t);
                    assert(tokens@[i] == t);
                }
                if t == token {
                    assert(tokens@[before.len() as int] == t);
                }
                if tokens@.contains(t) {
                    let i = tokens@.index_of(t);
                    if i < before.len() {
                        assert(before[i] == t);
                    }
                }
            }
        }
    }
}

/// The tokens of the clients whose sessions have been idle for longer than
/// `interval`, each once.
pub fn zombie_tokens(manager: &SessionManager, now: u64, interval: u64) -> (zombies: Vec<Token>)
    ensures
        zombies@.no_duplicates(),
        forall|t: Token| #[trigger]
            zombies@.contains(t) <==> is_zombie(manager.sessions(), t, now, interval),
{
    let keys = manager.tokens();
    let ghost sessions = manager.sessions();
    let mut zombies: Vec<Token> = Vec::new();
    let mut i: usize = 0;
    while i < keys.len()
        invariant
            i <= keys@.len(),
            sessions == manager.sessions(),
            forall|j: int|
                0 <= j < keys@.len() ==> sessions.dom().contains(#[trigger] keys@[j]),
            zombies@.no_duplicates(),
            forall|t: Token| #[trigger]
                zombies@.contains(t) ==> is_zombie(sessions, t, now, interval),
            forall|j: int|
                0 <= j < i && idle_time(sessions[#[trigger] keys@[j]], now) > interval
                    ==> zombies@.contains(sessions[keys@[j]].frontend_token),
        decreases keys@.len() - i,
    {
        let ghost before = zombies@;
        if let Some(slot) = manager.get(Token(keys[i])) {
            let idle: u64 = if slot.last_event >= now {
                0
            } else {
                now - slot.last_event
            };
            if idle > interval {
                assert(sessions.dom().contains(keys@[i as int]));
                assert(is_zombie(sessions, slot.frontend_token, now, interval));
                add_token(&mut zombies, slot.frontend_token);
                assert forall|j: int|
                    0 <= j < i + 1 && idle_time(sessions[#[trigger] keys@[j]], now)
                        > interval implies zombies@.contains(sessions[keys@[j]].frontend_token) by {
                    if j < i {
                        assert(before.contains(sessions[keys@[j]].frontend_token));
                    }
                }
            }
        }
        i += 1;
    }
    proof {
        assert forall|t: Token| is_zombie(sessions, t, now, interval) implies #[trigger] zombies@.contains(
            t,
        ) by {
            let k = choose|k: usize| #[trigger]
                sessions.dom().contains(k) && sessions[k].frontend_token == t && idle_time(
                    sessions[k],
                    now,
                ) > interval;
            assert(keys@.contains(k));
            let j = keys@.index_of(k);
            assert(keys@[j] == k);
        }
    }
    zombies
}

/// The tokens that have a session, in their order.
pub open spec fn present(tokens: Seq<Token>, sessions: Map<usize, SessionSlot>) -> Seq<Token>
    decreases tokens.len(),
{
    if tokens.len() == 0 {
        Seq::empty()
    } else {
        let front = present(tokens.drop_last(), sessions);
        if sessions.dom().contains(tokens.last().0) {
            front.push(tokens.last())
        } else {
            front
        }
    }
}

/// The sessions without those at `tokens`.
pub open spec fn without_tokens(
    sessions: Map<usize, SessionSlot>,
    tokens: Seq<Token>,
) -> Map<usize, SessionSlot> {
    Map::new(
        |k: usize| sessions.dom().contains(k) && !tokens.contains(Token(k)),
        |k: usize| sessions[k],
    )
}

/// The sessions without those whose client is one of `tokens`.
pub open spec fn without_clients(
    sessions: Map<usize, SessionSlot>,
    tokens: Seq<Token>,
) -> Map<usize, SessionSlot> {
    Map::new(
        |k: usize| sessions.dom().contains(k) && !tokens.contains(sessions[k].frontend_token),
        |k: usize| sessions[k],
    )
}

/// Frees the slots at `tokens` and counts one connection less for each. The
/// sessions that were there, which are returned, are to be closed.
pub fn remove_sessions(manager: &mut SessionManager, tokens: &Vec<Token>) -> (closed: Vec<Token>)
    requires
        old(manager).wf(),
        tokens@.no_duplicates(),
        present(tokens@, old(manager).sessions()).len() <= old(manager).nb_connections,
    ensures
        final(manager).wf(),
        closed@ == present(tokens@, old(manager).sessions()),
        final(manager).sessions() == without_tokens(old(manager).sessions(), tokens@),
        final(manager).nb_connections == old(manager).nb_connections - closed@.len(),
        final(manager).can_accept == (old(manager).can_accept || (closed@.len() > 0
            && final(manager).nb_connections < old(manager).max_connections as int * 90 / 100)),
        final(manager).max_connections == old(manager).max_connections,
        final(manager).max_connections_per_ip == old(manager).max_connections_per_ip,
        final(manager).retry_after == old(manager).retry_after,
        final(manager).counted() == old(manager).counted(),
{
    let ghost before = *manager;
    let mut closed: Vec<Token> = Vec::new();
    let mut i: usize = 0;
    proof {
        assert(without_tokens(before.sessions(), tokens@.take(0)) =~= before.sessions());
    }
    while i < tokens.len()
        invariant
            i <= tokens@.len(),
            manager.wf(),
            tokens@.no_duplicates(),
            present(tokens@, before.sessions()).len() <= before.nb_connections,
            closed@ == present(tokens@.take(i as int), before.sessions()),
            manager.sessions() == without_tokens(before.sessions(), tokens@.take(i as int)),
            manager.nb_connections == before.nb_connections - closed@.len(),
            manager.can_accept == (before.can_accept || (closed@.len() > 0
                && manager.nb_connections < before.max_connections as int * 90 / 100)),
            manager.max_connections == before.max_connections,
            manager.max_connections_per_ip == before.max_connections_per_ip,
            manager.retry_after == before.retry_after,
            manager.counted() == before.counted(),
        decreases tokens@.len() - i,
    {
        let token = tokens[i];
        let ghost done = tokens@.take(i as int);
        let ghost next = tokens@.take(i + 1);
        proof {
            assert(next.drop_last() =~= done);
            assert(next.last() == token);
            assert(!done.contains(token)) by {
                if done.contains(token) {
                    let j = done.index_of(token);
                    assert(tokens@[j] == tokens@[i as int]);
                }
            }
            lemma_present_monotone(tokens@, i + 1, before.sessions());
            assert forall|t: Token| #[trigger] next.contains(t) <==> done.contains(t) || t
                == token by {
                if done.contains(t) {
                    assert(next[done.index_of(t)] == t);
                }
                if t == token {
                    assert(next[i as int] == t);
                }
                if next.contains(t) {
                    let j = next.index_of(t);
                    if j < i {
                        assert(done[j] == t);
                    }
                }
            }
        }
        if manager.remove(token) {
            manager.decr();
            closed.push(token);
        }
        proof {
            assert(manager.sessions() =~= without_tokens(before.sessions(), next));
        }
        i += 1;
    }
    assert(tokens@.take(i as int) =~= tokens@);
    closed
}

proof fn lemma_present_monotone(tokens: Seq<Token>, n: int, sessions: Map<usize, SessionSlot>)
    requires
        0 <= n <= tokens.len(),
    ensures
        present(tokens.take(n), sessions).len() <= present(tokens, sessions).len(),
    decreases tokens.len(),
{
    if n < tokens.len() {
        let front = tokens.drop_last();
        assert(front.take(n) =~= tokens.take(n));
        lemma_present_monotone(front, n, sessions);
    } else {
        assert(tokens.take(n) =~= tokens);
    }
}

/// Frees the slots of sessions whose client is one of `tokens`, and returns how
/// many there were. Closing a session frees its own slots, so these were left
/// behind.
pub fn sweep_dangling(manager: &mut SessionManager, tokens: &Vec<Token>) -> (count: usize)
    requires
        old(manager).wf(),
    ensures
        final(manager).wf(),
        final(manager).sessions() == without_clients(old(manager).sessions(), tokens@),
        count == old(manager).sessions().dom().len() - final(manager).sessions().dom().len(),
        final(manager).same_limits(*old(manager)),
{
    let keys = manager.tokens();
    let ghost before = *manager;
    let ghost all = manager.sessions();
    let mut count: usize = 0;
    let mut i: usize = 0;
    proof {
        manager.lemma_sessions_finite();
    }
    while i < keys.len()
        invariant
            i <= keys@.len(),
            manager.wf(),
            manager.same_limits(before),
            all == before.sessions(),
            all.dom().finite(),
            count <= i,
            count == all.dom().len() - manager.sessions().dom().len(),
            forall|a: int, b: int| 0 <= a < b < keys@.len() ==> keys@[a] < keys@[b],
            forall|k: usize| #[trigger]
                manager.sessions().dom().contains(k) ==> all.dom().contains(k)
                    && manager.sessions()[k] == all[k],
            forall|k: usize| #[trigger]
                all.dom().contains(k) && !manager.sessions().dom().contains(k)
                    ==> tokens@.contains(all[k].frontend_token),
            forall|j: int|
                0 <= j < i && manager.sessions().dom().contains(#[trigger] keys@[j])
                    ==> !tokens@.contains(all[keys@[j]].frontend_token),
        decreases keys@.len() - i,
    {
        let ghost prior = manager.sessions();
        proof {
            manager.lemma_sessions_finite();
        }
        if let Some(slot) = manager.get(Token(keys[i])) {
            if contains_token(tokens, slot.frontend_token) {
                let removed = manager.remove(Token(keys[i]));
                count += 1;
                assert(manager.sessions().dom() =~= prior.dom().remove(keys@[i as int]));
            }
        }
        i += 1;
    }
    proof {
        let rest = without_clients(all, tokens@);
        assert forall|k: usize| manager.sessions().dom().contains(k) <==> rest.dom().contains(k) by {
            if manager.sessions().dom().contains(k) {
                assert(all.dom().contains(k));
                assert(keys@.contains(k));
                let j = keys@.index_of(k);
                assert(keys@[j] == k);
            }
        }
        assert(manager.sessions() =~= rest);
    }
    count
}

/// After the sessions of some clients are closed and what they left behind is
/// swept, no slot refers to any of these clients, and no other slot is gone.
pub proof fn law_teardown_leaves_no_reference(
    before: Map<usize, SessionSlot>,
    tokens: Seq<Token>,
    key: usize,
)
    ensures
        ({
            let after = without_clients(without_tokens(before, tokens), tokens);
            &&& after.dom().contains(key) ==> !tokens.contains(after[key].frontend_token)
            &&& before.dom().contains(key) && !tokens.contains(Token(key)) && !tokens.contains(
                before[key].frontend_token,
            ) ==> after.dom().contains(key) && after[key] == before[key]
        }),
{
}

/// `picked` and `rest` are `candidates`, divided so that no event of `rest` is
/// earlier than one of `picked`.
pub open spec fn divides_by_age(
    candidates: Seq<(Token, u64)>,
    picked: Seq<(Token, u64)>,
    rest: Seq<(Token, u64)>,
) -> bool {
    &&& (picked + rest).to_multiset() == candidates.to_multiset()
    &&& forall|i: int, j: int|
        0 <= i < picked.len() && 0 <= j < rest.len() ==> (#[trigger] picked[i]).1 <= (
        #[trigger] rest[j]).1
}

/// Divides sessions, given with the times of their last events, into the
/// `count` least recently active ones, or all if there are fewer, and the
/// others.
pub fn least_active(candidates: Vec<(Token, u64)>, count: usize) -> (r: (
    Vec<(Token, u64)>,
    Vec<(Token, u64)>,
))
    ensures
        divides_by_age(candidates@, r.0@, r.1@),
        r.0@.len() == if count < candidates@.len() {
            count as int
        } else {
            candidates@.len() as int
        },
        r.0@.len() + r.1@.len() == candidates@.len(),
{
    let ghost all = candidates@;
    let mut rest = candidates;
    let mut picked: Vec<(Token, u64)> = Vec::new();
    assert(picked@ + rest@ =~= all);
    while picked.len() < count && rest.len() > 0
        invariant
            picked@.len() <= count,
            picked@.len() + rest@.len() == all.len(),
            divides_by_age(all, picked@, rest@),
        decreases rest@.len(),
    {
        let mut oldest: usize = 0;
        let mut i: usize = 1;
        while i < rest.len()
            invariant
                oldest < i <= rest@.len(),
                forall|j: int| 0 <= j < i ==> rest@[oldest as int].1 <= (#[trigger] rest@[j]).1,
            decreases rest@.len() - i,
        {
            if rest[i].1 < rest[oldest].1 {
                oldest = i;
            }
            i += 1;
        }
        let ghost picked_before = picked@;
        let ghost rest_before = rest@;
        let session = rest.remove(oldest);
        picked.push(session);
        proof {
            lemma_moved(picked_before, rest_before, oldest as int);
            assert forall|a: int, b: int|
                0 <= a < picked@.len() && 0 <= b < rest@.len() implies (#[trigger] picked@[a]).1
                <= (#[trigger] rest@[b]).1 by {
                let o = if b < oldest {
                    b
                } else {
                    b + 1
                };
                assert(rest@[b] == rest_before[o]);
                if a < picked_before.len() {
                    assert(picked@[a] == picked_before[a]);
                }
            }
        }
    }
    (picked, rest)
}

/// Moving an item from one sequence to the end of another keeps what they hold
/// together.
proof fn lemma_moved(picked: Seq<(Token, u64)>, rest: Seq<(Token, u64)>, at: int)
    requires
        0 <= at < rest.len(),
    ensures
        (picked.push(rest[at]) + rest.remove(at)).to_multiset() == (picked + rest).to_multiset(),
{
    broadcast use vstd::seq_lib::group_to_multiset_ensures;
    broadcast use vstd::multiset::group_multiset_axioms;

    vstd::seq_lib::lemma_multiset_commutative(picked.push(rest[at]), rest.remove(at));
    vstd::seq_lib::lemma_multiset_commutative(picked, rest);
    vstd::seq_lib::to_multiset_remove(rest, at);
    vstd::seq_lib::to_multiset_build(picked, rest[at]);
    assert(rest.to_multiset().count(rest[at]) > 0) by {
        assert(rest.contains(rest[at]));
        vstd::seq_lib::to_multiset_contains(rest, rest[at]);
    }
    assert((picked.push(rest[at]) + rest.remove(at)).to_multiset() =~= (picked
        + rest).to_multiset());
}

/// Whether a slot belongs to the session of a client.
pub open spec fn is_slot_of(slot: SessionSlot, token: Token) -> bool {
    !slot.protocol.is_system() && slot.frontend_token == token
}

/// Whether there is a session of a client: neither listeners nor the worker's
/// own slots are.
pub open spec fn is_client(sessions: Map<usize, SessionSlot>, token: Token) -> bool {
    exists|k: usize| #[trigger] sessions.dom().contains(k) && is_slot_of(sessions[k], token)
}

/// The clients that have a session, whatever number of slots it takes.
pub open spec fn clients(sessions: Map<usize, SessionSlot>) -> Set<Token> {
    Set::new(|t: Token| is_client(sessions, t))
}

/// Whether the latest event of a client's session is at `time`.
pub open spec fn is_last_active(
    sessions: Map<usize, SessionSlot>,
    token: Token,
    time: u64,
) -> bool {
    &&& exists|k: usize| #[trigger]
        sessions.dom().contains(k) && is_slot_of(sessions[k], token) && sessions[k].last_event
            == time
    &&& forall|k: usize| #[trigger]
        sessions.dom().contains(k) && is_slot_of(sessions[k], token) ==> sessions[k].last_event
            <= time
}

/// The time of the latest event of a client's session.
pub open spec fn last_active(sessions: Map<usize, SessionSlot>, token: Token) -> u64 {
    choose|time: u64| is_last_active(sessions, token, time)
}

/// There is one latest event at most.
pub proof fn lemma_last_active(sessions: Map<usize, SessionSlot>, token: Token, time: u64)
    requires
        is_last_active(sessions, token, time),
    ensures
        last_active(sessions, token) == time,
{
    let other = last_active(sessions, token);
    assert(is_last_active(sessions, token, other));
    let k = choose|k: usize| #[trigger]
        sessions.dom().contains(k) && is_slot_of(sessions[k], token) && sessions[k].last_event
            == time;
    assert(sessions.dom().contains(k));
    let j = choose|j: usize| #[trigger]
        sessions.dom().contains(j) && is_slot_of(sessions[j], token) && sessions[j].last_event
            == other;
    assert(sessions.dom().contains(j));
}

/// Whether `chosen` are the clients of the `count` least recently active
/// sessions, each once, or all of them if there are fewer.
pub open spec fn is_eviction(
    sessions: Map<usize, SessionSlot>,
    count: usize,
    chosen: Seq<Token>,
) -> bool {
    &&& chosen.no_duplicates()
    &&& forall|t: Token| #[trigger] chosen.contains(t) ==> is_client(sessions, t)
    &&& chosen.len() == if count < clients(sessions).len() {
        count as nat
    } else {
        clients(sessions).len()
    }
    &&& forall|t: Token, other: Token|
        #![trigger chosen.contains(t), chosen.contains(other)]
        chosen.contains(t) && is_client(sessions, other) && !chosen.contains(other) ==> last_active(
            sessions,
            t,
        ) <= last_active(sessions, other)
}

/// Whether `candidates` are the clients of the sessions in the slots `keys`,
/// each once and with the time of its latest event there.
spec fn are_candidates(
    candidates: Seq<(Token, u64)>,
    sessions: Map<usize, SessionSlot>,
    keys: Seq<usize>,
) -> bool {
    &&& forall|i: int, j: int|
        0 <= i < candidates.len() && 0 <= j < candidates.len() && i != j ==> (
        #[trigger] candidates[i]).0 != (#[trigger] candidates[j]).0
    &&& forall|i: int|
        0 <= i < candidates.len() ==> exists|j: int|
            0 <= j < keys.len() && is_slot_of(
                sessions[#[trigger] keys[j]],
                (#[trigger] candidates[i]).0,
            ) && sessions[keys[j]].last_event == candidates[i].1
    &&& forall|j: int|
        0 <= j < keys.len() && !sessions[#[trigger] keys[j]].protocol.is_system() ==> exists|i: int|
            0 <= i < candidates.len() && (#[trigger] candidates[i]).0
                == sessions[keys[j]].frontend_token && sessions[keys[j]].last_event
                <= candidates[i].1
}

/// The position of a client among candidates.
fn candidate_position(candidates: &Vec<(Token, u64)>, token: Token) -> (position: Option<usize>)
    ensures
        position matches Some(i) ==> i < candidates@.len() && candidates@[i as int].0 == token,
        position is None ==> forall|i: int|
            0 <= i < candidates@.len() ==> (#[trigger] candidates@[i]).0 != token,
{
    let mut i: usize = 0;
    while i < candidates.len()
        invariant
            i <= candidates@.len(),
            forall|j: int| 0 <= j < i ==> (#[trigger] candidates@[j]).0 != token,
        decreases candidates@.len() - i,
    {
        if candidates[i].0 == token {
            return Some(i);
        }
        i += 1;
    }
    None
}

/// Takes the session in one more slot in among the candidates.
fn add_candidate(
    candidates: &mut Vec<(Token, u64)>,
    slot: SessionSlot,
    Ghost(sessions): Ghost<Map<usize, SessionSlot>>,
    Ghost(keys): Ghost<Seq<usize>>,
)
    requires
        keys.len() > 0,
        slot == sessions[keys.last()],
        are_candidates(old(candidates)@, sessions, keys.drop_last()),
    ensures
        are_candidates(final(candidates)@, sessions, keys),
{
    let ghost before = candidates@;
    let ghost front = keys.drop_last();
    let ghost last = keys.len() - 1;
    let ghost mut changed: int = before.len() as int;
    if !slot.protocol.system() {
        match candidate_position(candidates, slot.frontend_token) {
            Some(i) => {
                if candidates[i].1 < slot.last_event {
                    candidates.set(i, (slot.frontend_token, slot.last_event));
                    proof {
                        changed = i as int;
                    }
                }
            },
            None => {
                candidates.push((slot.frontend_token, slot.last_event));
            },
        }
    }
    proof {
        let after = candidates@;
        assert forall|i: int| 0 <= i < after.len() implies exists|j: int|
            0 <= j < keys.len() && is_slot_of(
                sessions[#[trigger] keys[j]],
                (#[trigger] after[i]).0,
            ) && sessions[keys[j]].last_event == after[i].1 by {
            if i == changed {
                assert(keys[last] == keys.last());
            } else {
                assert(after[i] == before[i]);
                let j = choose|j: int|
                    0 <= j < front.len() && is_slot_of(
                        sessions[#[trigger] front[j]],
                        before[i].0,
                    ) && sessions[front[j]].last_event == before[i].1;
                assert(keys[j] == front[j]);
            }
        }
        assert forall|j: int|
            0 <= j < keys.len()
                && !sessions[#[trigger] keys[j]].protocol.is_system() implies exists|i: int|
            0 <= i < after.len() && (#[trigger] after[i]).0 == sessions[keys[j]].frontend_token
                && sessions[keys[j]].last_event <= after[i].1 by {
            if j < last {
                assert(keys[j] == front[j]);
                let i = choose|i: int|
                    0 <= i < before.len() && (#[trigger] before[i]).0
                        == sessions[front[j]].frontend_token && sessions[front[j]].last_event
                        <= before[i].1;
                assert(after[i].0 == before[i].0 && before[i].1 <= after[i].1);
            } else {
                assert(slot == sessions[keys[j]]);
                let i = choose|i: int| 0 <= i < after.len() && (#[trigger] after[i]).0
                    == slot.frontend_token && slot.last_event <= after[i].1;
                assert(exists|i: int| 0 <= i < after.len() && (#[trigger] after[i]).0
                    == slot.frontend_token && slot.last_event <= after[i].1) by {
                    if changed < after.len() {
                        assert(after[changed].0 == slot.frontend_token);
                    }
                }
            }
        }
    }
}

/// A candidate from all slots is a client, with the time of its latest event.
proof fn lemma_candidate_is_client(
    candidates: Seq<(Token, u64)>,
    sessions: Map<usize, SessionSlot>,
    keys: Seq<usize>,
    i: int,
)
    requires
        are_candidates(candidates, sessions, keys),
        forall|j: int| 0 <= j < keys.len() ==> sessions.dom().contains(#[trigger] keys[j]),
        forall|k: usize| #[trigger] sessions.dom().contains(k) ==> keys.contains(k),
        0 <= i < candidates.len(),
    ensures
        is_client(sessions, candidates[i].0),
        last_active(sessions, candidates[i].0) == candidates[i].1,
{
    let (t, time) = candidates[i];
    let j = choose|j: int|
        0 <= j < keys.len() && is_slot_of(sessions[#[trigger] keys[j]], candidates[i].0)
            && sessions[keys[j]].last_event == candidates[i].1;
    assert(sessions.dom().contains(keys[j]));
    assert forall|k: usize| #[trigger]
        sessions.dom().contains(k) && is_slot_of(sessions[k], t) implies sessions[k].last_event
        <= time by {
        let n = keys.index_of(k);
        assert(keys[n] == k);
        let c = choose|c: int|
            0 <= c < candidates.len() && (#[trigger] candidates[c]).0
                == sessions[keys[n]].frontend_token && sessions[keys[n]].last_event
                <= candidates[c].1;
        assert(candidates[c].0 == candidates[i].0);
    }
    lemma_last_active(sessions, t, time);
}

/// There are as many candidates from all slots as there are clients.
proof fn lemma_candidates_are_clients(
    candidates: Seq<(Token, u64)>,
    sessions: Map<usize, SessionSlot>,
    keys: Seq<usize>,
)
    requires
        are_candidates(candidates, sessions, keys),
        forall|j: int| 0 <= j < keys.len() ==> sessions.dom().contains(#[trigger] keys[j]),
        forall|k: usize| #[trigger] sessions.dom().contains(k) ==> keys.contains(k),
    ensures
        forall|i: int|
            0 <= i < candidates.len() ==> is_client(sessions, (#[trigger] candidates[i]).0)
                && last_active(sessions, candidates[i].0) == candidates[i].1,
        forall|t: Token| #[trigger]
            is_client(sessions, t) ==> exists|i: int|
                0 <= i < candidates.len() && (#[trigger] candidates[i]).0 == t,
        clients(sessions).len() == candidates.len(),
{
    assert forall|i: int| 0 <= i < candidates.len() implies is_client(
        sessions,
        (#[trigger] candidates[i]).0,
    ) && last_active(sessions, candidates[i].0) == candidates[i].1 by {
        lemma_candidate_is_client(candidates, sessions, keys, i);
    }
    assert forall|t: Token| #[trigger] is_client(sessions, t) implies exists|i: int|
        0 <= i < candidates.len() && (#[trigger] candidates[i]).0 == t by {
        let k = choose|k: usize| #[trigger]
            sessions.dom().contains(k) && is_slot_of(sessions[k], t);
        let n = keys.index_of(k);
        assert(keys[n] == k);
    }
    lemma_client_count(candidates, sessions);
}

proof fn lemma_client_count(candidates: Seq<(Token, u64)>, sessions: Map<usize, SessionSlot>)
    requires
        forall|i: int, j: int|
            0 <= i < candidates.len() && 0 <= j < candidates.len() && i != j ==> (
            #[trigger] candidates[i]).0 != (#[trigger] candidates[j]).0,
        forall|i: int|
            0 <= i < candidates.len() ==> is_client(sessions, (#[trigger] candidates[i]).0),
        forall|t: Token| #[trigger]
            is_client(sessions, t) ==> exists|i: int|
                0 <= i < candidates.len() && (#[trigger] candidates[i]).0 == t,
    ensures
        clients(sessions).len() == candidates.len(),
{
    let names = Seq::new(candidates.len(), |i: int| candidates[i].0);
    assert forall|i: int, j: int| 0 <= i < names.len() && 0 <= j < names.len() && i
        != j implies names[i] != names[j] by {
        assert(candidates[i].0 != candidates[j].0);
    }
    names.unique_seq_to_set();
    assert forall|t: Token| #[trigger] names.to_set().contains(t) <==> clients(
        sessions,
    ).contains(t) by {
        if is_client(sessions, t) {
            let i = choose|i: int| 0 <= i < candidates.len() && (#[trigger] candidates[i]).0 == t;
            assert(names[i] == t);
        }
        if names.to_set().contains(t) {
            let i = names.index_of(t);
            assert(names[i] == t);
            assert(is_client(sessions, candidates[i].0));
        }
    }
    assert(names.to_set() =~= clients(sessions));
}

/// What is divided by age is still there, each of it once.
proof fn lemma_divided(
    candidates: Seq<(Token, u64)>,
    picked: Seq<(Token, u64)>,
    rest: Seq<(Token, u64)>,
)
    requires
        divides_by_age(candidates, picked, rest),
        forall|i: int, j: int|
            0 <= i < candidates.len() && 0 <= j < candidates.len() && i != j ==> (
            #[trigger] candidates[i]).0 != (#[trigger] candidates[j]).0,
    ensures
        forall|c: (Token, u64)| #[trigger]
            candidates.contains(c) <==> picked.contains(c) || rest.contains(c),
        picked.no_duplicates(),
{
    broadcast use vstd::seq_lib::group_to_multiset_ensures;

    let both = picked + rest;
    assert(candidates.no_duplicates());
    candidates.lemma_multiset_has_no_duplicates();
    both.lemma_multiset_has_no_duplicates_conv();
    assert forall|c: (Token, u64)| #[trigger] candidates.contains(c) <==> picked.contains(c)
        || rest.contains(c) by {
        vstd::seq_lib::to_multiset_contains(candidates, c);
        vstd::seq_lib::to_multiset_contains(both, c);
        if both.contains(c) {
            let i = both.index_of(c);
            if i < picked.len() {
                assert(picked[i] == c);
            } else {
                assert(rest[i - picked.len()] == c);
            }
        }
        if picked.contains(c) {
            assert(both[picked.index_of(c)] == c);
        }
        if rest.contains(c) {
            assert(both[rest.index_of(c) + picked.len()] == c);
        }
    }
    assert forall|i: int, j: int| 0 <= i < picked.len() && 0 <= j < picked.len() && i
        != j implies picked[i] != picked[j] by {
        assert(both[i] == picked[i] && both[j] == picked[j]);
    }
}

/// The clients of the `count` least recently active sessions.
pub fn evictable(manager: &SessionManager, count: usize) -> (chosen: Vec<Token>)
    ensures
        is_eviction(manager.sessions(), count, chosen@),
{
    let keys = manager.tokens();
    let ghost sessions = manager.sessions();
    let mut candidates: Vec<(Token, u64)> = Vec::new();
    let mut i: usize = 0;
    while i < keys.len()
        invariant
            i <= keys@.len(),
            sessions == manager.sessions(),
            forall|j: int| 0 <= j < keys@.len() ==> sessions.dom().contains(#[trigger] keys@[j]),
            are_candidates(candidates@, sessions, keys@.take(i as int)),
        decreases keys@.len() - i,
    {
        proof {
            assert(keys@.take(i + 1).drop_last() =~= keys@.take(i as int));
            assert(keys@.take(i + 1).last() == keys@[i as int]);
            assert(sessions.dom().contains(keys@[i as int]));
        }
        if let Some(slot) = manager.get(Token(keys[i])) {
            add_candidate(&mut candidates, slot, Ghost(sessions), Ghost(keys@.take(i + 1)));
        }
        i += 1;
    }
    assert(keys@.take(i as int) =~= keys@);
    let ghost all = candidates@;
    proof {
        lemma_candidates_are_clients(all, sessions, keys@);
    }
    let (picked, rest) = least_active(candidates, count);
    proof {
        lemma_divided(all, picked@, rest@);
        assert forall|i: int| 0 <= i < picked@.len() implies all.contains(#[trigger] picked@[i]) by {
            assert(picked@.contains(picked@[i]));
        }
    }
    let mut chosen: Vec<Token> = Vec::new();
    let mut i: usize = 0;
    while i < picked.len()
        invariant
            i <= picked@.len(),
            chosen@.len() == i,
            forall|j: int| 0 <= j < i ==> chosen@[j] == (#[trigger] picked@[j]).0,
        decreases picked@.len() - i,
    {
        chosen.push(picked[i].0);
        i += 1;
    }
    proof {
        assert forall|i: int, j: int| 0 <= i < chosen@.len() && 0 <= j < chosen@.len() && i
            != j implies chosen@[i] != chosen@[j] by {
            let a = all.index_of(picked@[i]);
            let b = all.index_of(picked@[j]);
            assert(all[a] == picked@[i] && all[b] == picked@[j]);
        }
        assert forall|t: Token| #[trigger] chosen@.contains(t) implies is_client(
            sessions,
            t,
        ) && exists|i: int| 0 <= i < picked@.len() && #[trigger] picked@[i] == (
            t,
            last_active(sessions, t),
        ) by {
            let i = chosen@.index_of(t);
            let a = all.index_of(picked@[i]);
            assert(all[a] == picked@[i]);
        }
        assert forall|t: Token, other: Token|
            #![trigger chosen@.contains(t), chosen@.contains(other)]
            chosen@.contains(t) && is_client(sessions, other) && !chosen@.contains(
                other,
            ) implies last_active(sessions, t) <= last_active(sessions, other) by {
            let i = choose|i: int|
                0 <= i < picked@.len() && #[trigger] picked@[i] == (t, last_active(sessions, t));
            let a = choose|a: int| 0 <= a < all.len() && (#[trigger] all[a]).0 == other;
            assert(all.contains(all[a]));
            if picked@.contains(all[a]) {
                let p = picked@.index_of(all[a]);
                assert(chosen@[p] == other);
            }
            let r = rest@.index_of(all[a]);
            assert(rest@[r] == all[a]);
        }
    }
    chosen
}

/// The slots after an event of a client's session: each of its slots has the
/// time of it.
pub open spec fn touched(
    sessions: Map<usize, SessionSlot>,
    token: Token,
    now: u64,
) -> Map<usize, SessionSlot> {
    Map::new(
        |k: usize| sessions.dom().contains(k),
        |k: usize|
            if is_slot_of(sessions[k], token) {
                SessionSlot { last_event: now, ..sessions[k] }
            } else {
                sessions[k]
            },
    )
}

/// Whether each slot of a client's session has `time` as that of the session's
/// last event.
pub open spec fn in_step(sessions: Map<usize, SessionSlot>, token: Token, time: u64) -> bool {
    forall|k: usize| #[trigger]
        sessions.dom().contains(k) && is_slot_of(sessions[k], token) ==> sessions[k].last_event
            == time
}

impl SessionManager {
    /// Takes in that a client's session had an event: each of its slots, and no
    /// other, gets the time of it.
    pub fn touch(&mut self, frontend_token: Token, now: u64)
        requires
            old(self).wf(),
        ensures
            final(self).wf(),
            final(self).same_limits(*old(self)),
            final(self).sessions() == touched(old(self).sessions(), frontend_token, now),
            in_step(final(self).sessions(), frontend_token, now),
    {
        let keys = self.tokens();
        let ghost before = *self;
        let ghost all = self.sessions();
        let mut i: usize = 0;
        while i < keys.len()
            invariant
                i <= keys@.len(),
                self.wf(),
                self.same_limits(before),
                all == before.sessions(),
                self.sessions().dom() == all.dom(),
                forall|a: int, b: int| 0 <= a < b < keys@.len() ==> keys@[a] < keys@[b],
                forall|j: int| 0 <= j < keys@.len() ==> all.dom().contains(#[trigger] keys@[j]),
                forall|j: int|
                    0 <= j < i ==> self.sessions()[#[trigger] keys@[j]] == touched(
                        all,
                        frontend_token,
                        now,
                    )[keys@[j]],
                forall|j: int|
                    i <= j < keys@.len() ==> self.sessions()[#[trigger] keys@[j]] == all[keys@[j]],
            decreases keys@.len() - i,
        {
            let ghost prior = self.sessions();
            assert(all.dom().contains(keys@[i as int]));
            if let Some(slot) = self.get(Token(keys[i])) {
                if !slot.protocol.system() && slot.frontend_token == frontend_token {
                    let _ = self.replace(
                        Token(keys[i]),
                        SessionSlot {
                            last_event: now,
                            frontend_token: slot.frontend_token,
                            protocol: slot.protocol,
                        },
                    );
                    assert(self.sessions().dom() =~= prior.dom());
                }
            }
            i += 1;
        }
        proof {
            let expected = touched(all, frontend_token, now);
            assert forall|k: usize| #[trigger] all.dom().contains(k) implies self.sessions()[k]
                == expected[k] by {
                let j = keys@.index_of(k);
                assert(keys@[j] == k);
            }
            assert(self.sessions() =~= expected);
        }
    }
}

/// The slots of a session have the time of its last event, and no others do on
/// its account: an event gives it to all of them, whatever they had before, and
/// leaves those of other sessions as they were.
pub proof fn law_events_reach_all_slots(
    sessions: Map<usize, SessionSlot>,
    token: Token,
    now: u64,
    other: Token,
    other_time: u64,
)
    requires
        other != token,
    ensures
        in_step(touched(sessions, token, now), token, now),
        in_step(sessions, other, other_time) <==> in_step(
            touched(sessions, token, now),
            other,
            other_time,
        ),
{
    let after = touched(sessions, token, now);
    if in_step(after, other, other_time) {
        assert forall|k: usize| #[trigger]
            sessions.dom().contains(k) && is_slot_of(
                sessions[k],
                other,
            ) implies sessions[k].last_event == other_time by {
            assert(after.dom().contains(k));
        }
    }
}

/// A session stays in step when it gets a slot with the time of its last event,
/// and when any slot is freed.
pub proof fn law_slots_stay_in_step(
    sessions: Map<usize, SessionSlot>,
    token: Token,
    time: u64,
    key: usize,
    slot: SessionSlot,
)
    requires
        in_step(sessions, token, time),
        slot.last_event == time || slot.frontend_token != token || slot.protocol.is_system(),
    ensures
        in_step(sessions.insert(key, slot), token, time),
        in_step(sessions.remove(key), token, time),
{
    assert forall|k: usize| #[trigger]
        sessions.insert(key, slot).dom().contains(k) && is_slot_of(
            sessions.insert(key, slot)[k],
            token,
        ) implies sessions.insert(key, slot)[k].last_event == time by {
        if k != key {
            assert(sessions.dom().contains(k));
        }
    }
    assert forall|k: usize| #[trigger]
        sessions.remove(key).dom().contains(k) && is_slot_of(
            sessions.remove(key)[k],
            token,
        ) implies sessions.remove(key)[k].last_event == time by {
        assert(sessions.dom().contains(k));
    }
}

/// A session that is in step counts as active since its last event: that is the
/// time it is compared by when sessions are evicted, and it is idle exactly once
/// the interval has passed since then. The slots that are not clients' never
/// fall idle.
pub proof fn law_active_sessions_are_no_zombies(
    sessions: Map<usize, SessionSlot>,
    token: Token,
    time: u64,
    now: u64,
    interval: u64,
)
    requires
        in_step(sessions, token, time),
        is_client(sessions, token),
        forall|k: usize| #[trigger]
            sessions.dom().contains(k) && sessions[k].protocol.is_system()
                ==> sessions[k].last_event == u64::MAX,
    ensures
        last_active(sessions, token) == time,
        is_zombie(sessions, token, now, interval) <==> now - time > interval,
{
    let k = choose|k: usize| #[trigger]
        sessions.dom().contains(k) && is_slot_of(sessions[k], token);
    assert(sessions[k].last_event == time);
    assert(is_last_active(sessions, token, time));
    lemma_last_active(sessions, token, time);
    assert(idle_time(sessions[k], now) == if time >= now {
        0
    } else {
        now - time
    });
}

/// A session is idle for the time since its last event, and not at all when that
/// is yet to come. It is closed for that if and only if a slot of its client was
/// idle for longer than the interval.
pub proof fn law_who_is_idle_for_too_long(
    sessions: Map<usize, SessionSlot>,
    token: Token,
    now: u64,
    interval: u64,
)
    ensures
        is_zombie(sessions, token, now, interval) <==> exists|k: usize| #[trigger]
            sessions.dom().contains(k) && sessions[k].frontend_token == token
                && sessions[k].last_event + interval < now,
        forall|k: usize| #[trigger]
            sessions.dom().contains(k) ==> idle_time(sessions[k], now) == if now
                > sessions[k].last_event {
                now - sessions[k].last_event
            } else {
                0
            },
{
}

/// Of the tokens that are to be closed those that have a slot are, in their
/// order.
pub proof fn law_sessions_that_are_there_are_closed(
    tokens: Seq<Token>,
    sessions: Map<usize, SessionSlot>,
)
    ensures
        present(tokens, sessions) == tokens.filter(|t: Token| sessions.dom().contains(t.0)),
        forall|t: Token| #[trigger]
            present(tokens, sessions).contains(t) <==> tokens.contains(t)
                && sessions.dom().contains(t.0),
    decreases tokens.len(),
{
    reveal(Seq::filter);
    if tokens.len() > 0 {
        let front = tokens.drop_last();
        law_sessions_that_are_there_are_closed(front, sessions);
        let all = present(tokens, sessions);
        let before = present(front, sessions);
        assert(tokens =~= front.push(tokens.last()));
        assert forall|t: Token| #[trigger] all.contains(t) <==> tokens.contains(t)
            && sessions.dom().contains(t.0) by {
            if all.contains(t) {
                let i = all.index_of(t);
                if i < before.len() {
                    assert(before[i] == t);
                    assert(before.contains(t));
                    let j = front.index_of(t);
                    assert(tokens[j] == t);
                } else {
                    assert(tokens[tokens.len() - 1] == t);
                }
            }
            if tokens.contains(t) && sessions.dom().contains(t.0) {
                let i = tokens.index_of(t);
                if i < front.len() {
                    assert(front[i] == t);
                    assert(before.contains(t));
                    let j = before.index_of(t);
                    assert(all[j] == t);
                } else {
                    assert(all.last() == t);
                    assert(all[all.len() - 1] == t);
                }
            }
        }
    }
}

/// Closing sessions frees the slots of their own tokens, and sweeping behind them
/// those that belong to them; every other slot stays as it is.
pub proof fn law_only_the_slots_of_closed_sessions_are_freed(
    sessions: Map<usize, SessionSlot>,
    tokens: Seq<Token>,
    key: usize,
)
    requires
        sessions.dom().contains(key),
    ensures
        without_tokens(sessions, tokens).dom().contains(key) <==> !tokens.contains(Token(key)),
        without_clients(sessions, tokens).dom().contains(key) <==> !tokens.contains(
            sessions[key].frontend_token,
        ),
        !tokens.contains(Token(key)) ==> without_tokens(sessions, tokens)[key] == sessions[key],
        !tokens.contains(sessions[key].frontend_token) ==> without_clients(
            sessions,
            tokens,
        )[key] == sessions[key],
        without_tokens(sessions, tokens).dom().subset_of(sessions.dom()),
        without_clients(sessions, tokens).dom().subset_of(sessions.dom()),
{
}

/// An event gives its time to every slot of the client, and to nothing else; the
/// worker's own slots have no client.
pub proof fn law_an_event_touches_the_slots_of_its_client(
    sessions: Map<usize, SessionSlot>,
    token: Token,
    now: u64,
    key: usize,
)
    requires
        sessions.dom().contains(key),
    ensures
        ({
            let after = touched(sessions, token, now);
            let protocol = sessions[key].protocol;
            let own = sessions[key].frontend_token == token && (protocol is HTTP
                || protocol is HTTPS || protocol is TCP || protocol is UDP);
            &&& after.dom() == sessions.dom()
            &&& own ==> after[key].last_event == now
            &&& !own ==> after[key] == sessions[key]
            &&& after[key].frontend_token == sessions[key].frontend_token
            &&& after[key].protocol == protocol
        }),
{
    assert(touched(sessions, token, now).dom() =~= sessions.dom());
}

/// Those that are picked are some of the candidates, and none that is left is
/// older.
pub proof fn law_the_oldest_are_picked(
    candidates: Seq<(Token, u64)>,
    picked: Seq<(Token, u64)>,
    rest: Seq<(Token, u64)>,
    i: int,
    j: int,
)
    requires
        divides_by_age(candidates, picked, rest),
        0 <= i < picked.len(),
        0 <= j < rest.len(),
    ensures
        picked[i].1 <= rest[j].1,
        candidates.to_multiset().count(picked[i]) > 0,
        candidates.to_multiset().count(rest[j]) > 0,
        candidates.len() == picked.len() + rest.len(),
{
    broadcast use vstd::seq_lib::group_to_multiset_ensures;

    let all = picked + rest;
    assert(all[i] == picked[i]);
    assert(all[picked.len() + j] == rest[j]);
    assert(all.contains(picked[i]) && all.contains(rest[j]));
    assert(all.to_multiset().len() == all.len());
    assert(candidates.to_multiset().len() == candidates.len());
}

/// The sessions that are closed to make room are clients', each once; as many as
/// asked for, as far as there are any; and none that stays was silent for longer.
pub proof fn law_who_is_closed_to_make_room(
    sessions: Map<usize, SessionSlot>,
    count: usize,
    chosen: Seq<Token>,
    gone: Token,
    kept: Token,
    key: usize,
    time: u64,
    since: u64,
)
    requires
        sessions.dom().finite(),
        is_eviction(sessions, count, chosen),
        chosen.contains(gone),
        !chosen.contains(kept),
        sessions.dom().contains(key),
        sessions[key].frontend_token == kept,
        !sessions[key].protocol.is_system(),
        is_last_active(sessions, gone, time),
        is_last_active(sessions, kept, since),
    ensures
        time <= since,
        chosen.len() == count,
        chosen.no_duplicates(),
        exists|k: usize| #[trigger]
            sessions.dom().contains(k) && sessions[k].frontend_token == gone
                && !sessions[k].protocol.is_system(),
{
    assert(is_slot_of(sessions[key], kept));
    assert(is_client(sessions, kept));
    assert(is_client(sessions, gone));
    lemma_last_active(sessions, gone, time);
    lemma_last_active(sessions, kept, since);
    if chosen.len() < count {
        lemma_all_clients_chosen(sessions, chosen, kept);
    }
}

proof fn lemma_all_clients_chosen(
    sessions: Map<usize, SessionSlot>,
    chosen: Seq<Token>,
    kept: Token,
)
    requires
        chosen.no_duplicates(),
        forall|t: Token| #[trigger] chosen.contains(t) ==> is_client(sessions, t),
        chosen.len() == clients(sessions).len(),
        is_client(sessions, kept),
        sessions.dom().finite(),
    ensures
        chosen.contains(kept),
{
    chosen.unique_seq_to_set();
    let all = clients(sessions);
    let tokens = sessions.dom().map(|k: usize| sessions[k].frontend_token);
    sessions.dom().lemma_map_finite(|k: usize| sessions[k].frontend_token);
    assert(all.subset_of(tokens)) by {
        assert forall|t: Token| all.contains(t) implies tokens.contains(t) by {
            let k = choose|k: usize| #[trigger]
                sessions.dom().contains(k) && is_slot_of(sessions[k], t);
            assert(sessions.dom().contains(k));
        }
    }
    vstd::set_lib::lemma_len_subset(all, tokens);
    if !chosen.contains(kept) {
        assert(chosen.to_set().insert(kept).subset_of(all));
        vstd::set_lib::lemma_len_subset(chosen.to_set().insert(kept), all);
    }
}

} // verus!
