//! Timer based on timing wheels.
//!
//! Pending timeouts hang in doubly linked lists, one per slot of the wheel; the
//! links live in a slab. A timeout for tick `t` hangs in slot `t` modulo the
//! number of slots, and a new one goes to the head of its list.
use std::collections::HashMap;
use vstd::arithmetic::power2::*;
use vstd::prelude::*;

use crate::clock;
use crate::clock::Duration;
use crate::slots;
use crate::Token;

verus! {

/// The tick of a slot that has nothing to wait for.
pub const TICK_MAX: u64 = u64::MAX;

/// The token that ends a list.
pub const EMPTY: usize = usize::MAX;

/// A timeout, as returned by `Timer::set_timeout`.
///
/// Use this as the argument to `Timer::cancel_timeout`, to cancel this timeout.
#[derive(Clone, Copy, Debug)]
pub struct Timeout {
    token: Token,
    tick: u64,
}

impl Timeout {
    /// The key of the timeout in its timer.
    pub closed spec fn key(self) -> usize {
        self.token.0
    }

    /// The tick at which the timeout is due.
    pub closed spec fn due(self) -> u64 {
        self.tick
    }
}

/// The head of a slot's list, and the first tick at which the slot may have
/// something due.
#[derive(Clone, Copy, Debug)]
struct WheelEntry {
    next_tick: u64,
    head: usize,
}

/// A timer.
pub struct Timer<T> {
    tick_ms: u64,
    // For each timeout: its tick, the token before it and the token after it.
    entries: slab::Slab<(u64, usize, usize)>,
    // What each timeout hands back.
    states: HashMap<usize, T>,
    wheel: Vec<WheelEntry>,
    start: time::Instant,
    tick: u64,
    // The next entry to possibly time out.
    next: usize,
    mask: u64,
    // The tokens of each slot's list, from its head.
    lists: Ghost<Seq<Seq<usize>>>,
    // Where in the list of the current tick's slot `next` stands.
    cursor: Ghost<int>,
}

/// The token before position `i` of a list.
spec fn prev_in(list: Seq<usize>, i: int) -> usize {
    if i == 0 {
        EMPTY
    } else {
        list[i - 1]
    }
}

/// The token at position `i` of a list, or the end mark past its last one.
spec fn token_at(list: Seq<usize>, i: int) -> usize {
    if i < list.len() {
        list[i]
    } else {
        EMPTY
    }
}

/// The tick that lies closest to a delay of `nanos` nanoseconds, for ticks of
/// `tick_ms` milliseconds.
pub open spec fn tick_of(nanos: int, tick_ms: u64) -> u64 {
    let ms = clock::millis_of(nanos) as int + tick_ms as int / 2;
    ((if ms > u64::MAX {
        u64::MAX as int
    } else {
        ms
    }) / tick_ms as int) as u64
}

impl<T> Timer<T> {
    /// The pending timeouts: for each key, the tick at which it is due and the
    /// state that it hands back.
    pub closed spec fn pending(self) -> Map<usize, (u64, T)> {
        Map::new(
            |k: usize| self.links().dom().contains(k),
            |k: usize| (self.links()[k].0, self.states@[k]),
        )
    }

    /// The keys of each slot's timeouts, in the order in which they are looked
    /// at.
    pub closed spec fn slots(self) -> Seq<Seq<usize>> {
        self.lists@
    }

    /// The current tick.
    pub closed spec fn current(self) -> u64 {
        self.tick
    }

    /// How far the list of the current tick's slot has been looked at.
    pub closed spec fn looked_at(self) -> int {
        self.cursor@
    }

    /// The length of a tick, in milliseconds.
    pub closed spec fn tick_length(self) -> u64 {
        self.tick_ms
    }

    /// The instant of tick zero.
    pub closed spec fn origin(self) -> time::Instant {
        self.start
    }

    /// The slot of a tick.
    pub open spec fn slot(self, tick: u64) -> int {
        tick as int % self.slots().len() as int
    }

    spec fn links(self) -> Map<usize, (u64, usize, usize)> {
        slots::slab_contents(self.entries)
    }

    /// The links of the token at position `i` of slot `s` lead to its
    /// neighbours.
    spec fn chained(self, s: int, i: int) -> bool {
        let list = self.lists@[s];
        let (_, prev, next) = self.links()[list[i]];
        prev == prev_in(list, i) && next == token_at(list, i + 1)
    }

    /// The lists and the slab tell the same story.
    spec fn linked(self) -> bool {
        let links = self.links();
        let lists = self.lists@;
        &&& lists.len() == self.wheel@.len()
        &&& forall|s: int, i: int|
            0 <= s < lists.len() && 0 <= i < lists[s].len() ==> {
                let k = #[trigger] lists[s][i];
                &&& k != EMPTY
                &&& links.dom().contains(k)
                &&& links[k].0 as int % lists.len() as int == s
            }
        &&& forall|s: int, i: int|
            0 <= s < lists.len() && 0 <= i < lists[s].len() ==> #[trigger] self.chained(s, i)
        &&& forall|s: int| 0 <= s < lists.len() ==> (#[trigger] lists[s]).no_duplicates()
        &&& forall|k: usize| #[trigger]
            links.dom().contains(k) ==> lists[self.slot(links[k].0)].contains(k)
        &&& forall|s: int|
            0 <= s < lists.len() ==> (#[trigger] self.wheel@[s]).head == token_at(lists[s], 0)
    }

    /// What every timer meets.
    pub closed spec fn wf(self) -> bool {
        let lists = self.lists@;
        let here = lists[self.slot(self.tick)];
        &&& self.tick_ms > 0
        &&& self.wheel@.len() > 0
        &&& is_pow2(self.wheel@.len() as int)
        &&& self.mask == self.wheel@.len() - 1
        &&& self.states@.dom() == self.links().dom()
        &&& self.links().dom().finite()
        &&& self.linked()
        &&& 0 <= self.cursor@ <= here.len()
        &&& self.next == token_at(here, self.cursor@)
        // Nothing that was due before the current tick is left, and what is due
        // at the current tick has not been looked at.
        &&& forall|s: int, i: int|
            0 <= s < lists.len() && 0 <= i < lists[s].len() ==> {
                let k = #[trigger] lists[s][i];
                ||| self.links()[k].0 > self.tick
                ||| self.links()[k].0 == self.tick && i >= self.cursor@
            }
        // The wake tick of a slot covers all of it but what is about to be
        // looked at.
        &&& forall|s: int, i: int|
            0 <= s < lists.len() && 0 <= i < lists[s].len() && (s != self.slot(self.tick) || i
                < self.cursor@) ==> self.wheel@[s].next_tick <= self.links()[#[trigger] lists[s][i]].0
    }
}

/// The slot of `tick` under `mask`.
fn masked(tick: u64, mask: u64, Ghost(slots): Ghost<int>) -> (slot: usize)
    requires
        is_pow2(slots),
        mask == slots - 1,
        slots <= usize::MAX,
    ensures
        slot == tick as int % slots,
        slot < slots,
{
    proof {
        lemma_mask_is_mod(tick, mask, slots);
    }
    (tick & mask) as usize
}

/// Masking with one less than a power of two is taking the remainder.
proof fn lemma_mask_is_mod(tick: u64, mask: u64, slots: int)
    requires
        is_pow2(slots),
        mask == slots - 1,
    ensures
        tick & mask == tick as int % slots,
        0 <= tick as int % slots < slots,
{
    is_pow2_equiv(slots);
    let n = choose|n: nat| vstd::arithmetic::power::pow(2, n) == slots;
    lemma_pow2(n);
    assert(pow2(64) == 0x1_0000_0000_0000_0000) by {
        lemma2_to64_rest();
    }
    if n > 64 {
        lemma_pow2_strictly_increases(64, n);
    }
    if n == 64 {
        assert(tick & 0xffff_ffff_ffff_ffff == tick) by (bit_vector);
        assert(mask == 0xffff_ffff_ffff_ffff);
        assert(tick as int % 0x1_0000_0000_0000_0000 == tick);
    } else {
        lemma_pow2_strictly_increases(n, 64);
        vstd::bits::lemma_u64_low_bits_mask_is_mod(tick, n);
        let m = vstd::bits::low_bits_mask(n) as u64;
        let p = pow2(n) as u64;
        assert(mask == m);
        assert(p == slots);
        assert(tick & m == tick % p);
        assert(tick % p == tick as int % slots);
    }
}

impl<T> Timer<T> {
    fn slot_for(&self, tick: u64) -> (slot: usize)
        requires
            is_pow2(self.wheel@.len() as int),
            self.mask == self.wheel@.len() - 1,
            self.wheel@.len() > 0,
            self.lists@.len() == self.wheel@.len(),
        ensures
            slot == self.slot(tick),
            slot < self.wheel@.len(),
    {
        assert(self.wheel@.len() == self.wheel.len());
        masked(tick, self.mask, Ghost(self.wheel@.len() as int))
    }

    /// The position of a pending timeout's key in its slot.
    pub open spec fn position(self, key: usize) -> int {
        self.slots()[self.slot(self.pending()[key].0)].index_of(key)
    }

    /// Nothing but the pending timeouts and the place in the wheel differs.
    pub open spec fn same_wheel(self, other: Self) -> bool {
        &&& self.tick_length() == other.tick_length()
        &&& self.origin() == other.origin()
        &&& self.slots().len() == other.slots().len()
    }

    /// The timeouts are finitely many.
    pub proof fn lemma_pending_finite(self)
        requires
            self.wf(),
        ensures
            self.pending().dom().finite(),
    {
        assert(self.pending().dom() =~= self.links().dom());
    }

    /// How many more timeouts the timer can hold is bounded by the storage of
    /// its slab.
    pub open spec fn has_room(self) -> bool {
        self.pending().dom().len() < slots::slab_growth_limit()
    }

    /// Hangs a new timeout at the head of the list of its tick's slot.
    fn insert(&mut self, tick: u64, state: T) -> (timeout: Timeout)
        requires
            old(self).wf(),
            old(self).has_room(),
            tick > old(self).current(),
        ensures
            final(self).wf(),
            final(self).same_wheel(*old(self)),
            final(self).inserted(*old(self), timeout, state),
            timeout.due() == tick,
    {
        proof {
            assert(self.pending().dom() =~= self.links().dom());
        }
        let ghost before = *self;
        let slot = self.slot_for(tick);
        let curr = self.wheel[slot];
        let token = slots::slab_insert(&mut self.entries, (tick, EMPTY, curr.head));
        if curr.head != EMPTY {
            if let Some((t, _, n)) = slots::slab_get(&self.entries, curr.head) {
                slots::slab_set(&mut self.entries, curr.head, (t, token, n));
            }
        }
        self.states.insert(token, state);
        let next_tick = if tick < curr.next_tick {
            tick
        } else {
            curr.next_tick
        };
        self.wheel.set(slot, WheelEntry { next_tick, head: token });
        self.lists = Ghost(
            self.lists@.update(slot as int, seq![token] + self.lists@[slot as int]),
        );
        self.cursor = Ghost(
            if slot == before.slot(before.tick) {
                self.cursor@ + 1
            } else {
                self.cursor@
            },
        );
        proof {
            let s = slot as int;
            let old_links = before.links();
            let links = self.links();
            let old_lists = before.lists@;
            let lists = self.lists@;
            assert(old_lists[s].len() > 0 ==> curr.head == old_lists[s][0]);
            assert(lists[s] == seq![token] + old_lists[s]);
            assert(forall|k: usize| #[trigger] links.dom().contains(k) <==> k == token || old_links.dom().contains(k));
            assert forall|t: int, i: int|
                0 <= t < lists.len() && 0 <= i < lists[t].len() implies {
                let k = #[trigger] lists[t][i];
                &&& k != EMPTY
                &&& links.dom().contains(k)
                &&& links[k].0 as int % lists.len() as int == t
                &&& t != s || i > 0 ==> k != token && links[k].0 == old_links[k].0
            } by {
                if t == s {
                    if i > 0 {
                        assert(lists[s][i] == old_lists[s][i - 1]);
                    }
                } else {
                    assert(lists[t][i] == old_lists[t][i]);
                }
            }
            assert forall|t: int, i: int|
                0 <= t < lists.len() && 0 <= i < lists[t].len() implies #[trigger] self.chained(
                t,
                i,
            ) by {
                if t == s {
                    if i > 0 {
                        assert(before.chained(s, i - 1));
                        assert(lists[s][i] == old_lists[s][i - 1]);
                        assert(lists[s][i - 1] == if i == 1 {
                            token
                        } else {
                            old_lists[s][i - 2]
                        });
                        assert(i > 1 ==> old_lists[s][i - 1] != old_lists[s][0]);
                    }
                } else {
                    assert(before.chained(t, i));
                    assert(lists[t][i] == old_lists[t][i]);
                    assert(old_lists[t][i] != curr.head);
                }
            }
            assert forall|t: int| 0 <= t < lists.len() implies (#[trigger] lists[t]).no_duplicates() by {
                if t == s {
                    assert forall|i: int, j: int|
                        0 <= i < lists[t].len() && 0 <= j < lists[t].len() && i != j implies lists[t][i]
                        != lists[t][j] by {
                        if i > 0 {
                            assert(lists[t][i] == old_lists[t][i - 1]);
                        }
                        if j > 0 {
                            assert(lists[t][j] == old_lists[t][j - 1]);
                        }
                    }
                } else {
                    assert(lists[t] == old_lists[t]);
                }
            }
            assert forall|k: usize| #[trigger] links.dom().contains(k) implies lists[self.slot(
                links[k].0,
            )].contains(k) by {
                if k == token {
                    assert(lists[s][0] == token);
                } else {
                    let t = before.slot(old_links[k].0);
                    let i = old_lists[t].index_of(k);
                    assert(old_lists[t][i] == k);
                    if t == s {
                        assert(lists[s][i + 1] == k);
                    } else {
                        assert(lists[t][i] == k);
                    }
                }
            }
            assert(self.linked());
            assert(self.states@.dom() =~= links.dom());
            let here = self.slot(self.tick);
            assert(self.next == token_at(lists[here], self.cursor@)) by {
                if here == s && before.cursor@ < old_lists[s].len() {
                    assert(lists[s][self.cursor@] == old_lists[s][before.cursor@]);
                }
            }
            assert forall|t: int, i: int|
                0 <= t < lists.len() && 0 <= i < lists[t].len() implies {
                let k = #[trigger] lists[t][i];
                ||| links[k].0 > self.tick
                ||| links[k].0 == self.tick && i >= self.cursor@
            } by {
                if t == s {
                    if i > 0 {
                        assert(lists[t][i] == old_lists[t][i - 1]);
                    }
                } else {
                    assert(lists[t][i] == old_lists[t][i]);
                }
            }
            assert forall|t: int, i: int|
                0 <= t < lists.len() && 0 <= i < lists[t].len() && (t != here || i
                    < self.cursor@) implies self.wheel@[t].next_tick <= links[#[trigger] lists[t][i]].0 by {
                if t == s {
                    if i > 0 {
                        assert(lists[t][i] == old_lists[t][i - 1]);
                    }
                } else {
                    assert(lists[t][i] == old_lists[t][i]);
                }
            }
            assert(self.pending() =~= before.pending().insert(token, (tick, state)));
        }
        Timeout { token: Token(token), tick }
    }

    /// Takes `token` out of its list and hands back its state.
    fn unlink(&mut self, links: (u64, usize, usize), token: usize) -> (state: T)
        requires
            old(self).wf(),
            old(self).links().dom().contains(token),
            links == old(self).links()[token],
        ensures
            final(self).wf(),
            final(self).same_wheel(*old(self)),
            final(self).removed(*old(self), token),
            state == old(self).pending()[token].1,
    {
        let ghost before = *self;
        let ghost s = before.slot(links.0);
        let ghost at = before.lists@[s].index_of(token);
        assert(before.lists@[s][at] == token);
        assert(before.chained(s, at));
        let (_, prev, next) = links;
        if prev == EMPTY {
            let slot = self.slot_for(links.0);
            let next_tick = self.wheel[slot].next_tick;
            self.wheel.set(slot, WheelEntry { next_tick, head: next });
        } else if let Some((t, p, _)) = slots::slab_get(&self.entries, prev) {
            slots::slab_set(&mut self.entries, prev, (t, p, next));
        }
        if next != EMPTY {
            if let Some((t, _, n)) = slots::slab_get(&self.entries, next) {
                slots::slab_set(&mut self.entries, next, (t, prev, n));
            }
            if token == self.next {
                self.next = next;
            }
        } else if token == self.next {
            self.next = EMPTY;
        }
        let _ = slots::slab_try_remove(&mut self.entries, token);
        self.lists = Ghost(self.lists@.update(s, self.lists@[s].remove(at)));
        self.cursor = Ghost(
            if s == before.slot(before.tick) && at < self.cursor@ {
                self.cursor@ - 1
            } else {
                self.cursor@
            },
        );
        let state = self.states.remove(&token);
        proof {
            assert(self.links().dom() =~= before.links().dom().remove(token));
            before.lemma_unlinked(*self, token, s, at);
        }
        match state {
            Some(state) => state,
            None => {
                proof {
                    assert(before.states@.dom().contains(token));
                    assert(false);
                }
                vstd::pervasive::unreached()
            },
        }
    }

    /// `after` is the timer with the token at position `at` of slot `s` taken
    /// out of the list and of the slab.
    spec fn unlinks(self, after: Self, token: usize, s: int, at: int) -> bool {
        let list = self.lists@[s];
        &&& 0 <= s < self.lists@.len()
        &&& 0 <= at < list.len()
        &&& list[at] == token
        &&& after.tick_ms == self.tick_ms
        &&& after.start == self.start
        &&& after.tick == self.tick
        &&& after.mask == self.mask
        &&& after.wheel@.len() == self.wheel@.len()
        &&& forall|t: int|
            0 <= t < self.wheel@.len() ==> (#[trigger] after.wheel@[t]).next_tick
                == self.wheel@[t].next_tick
        &&& forall|t: int|
            0 <= t < self.wheel@.len() ==> (#[trigger] after.wheel@[t]).head == (if t == s && at
                == 0 {
                token_at(list, 1)
            } else {
                self.wheel@[t].head
            })
        &&& after.states@ == self.states@.remove(token)
        &&& after.lists@ == self.lists@.update(s, list.remove(at))
        &&& after.cursor@ == (if s == self.slot(self.tick) && at < self.cursor@ {
            self.cursor@ - 1
        } else {
            self.cursor@
        })
        &&& after.next == (if token == self.next {
            token_at(list, at + 1)
        } else {
            self.next
        })
        &&& after.links().dom() == self.links().dom().remove(token)
        &&& forall|k: usize| #[trigger]
            after.links().dom().contains(k) ==> {
                let l = self.links()[k];
                &&& after.links()[k].0 == l.0
                &&& after.links()[k].1 == (if at + 1 < list.len() && k == list[at + 1] {
                    self.links()[token].1
                } else {
                    l.1
                })
                &&& after.links()[k].2 == (if at > 0 && k == list[at - 1] {
                    self.links()[token].2
                } else {
                    l.2
                })
            }
    }

    /// Where the token at position `i` of slot `t` stood before the one at
    /// position `at` of slot `s` left.
    spec fn shifted(t: int, i: int, s: int, at: int) -> int {
        if t == s && i >= at {
            i + 1
        } else {
            i
        }
    }

    /// Every token that stays is the one that stood a place further if it
    /// stands behind the one that left.
    proof fn lemma_unlinked_tokens(self, after: Self, token: usize, s: int, at: int)
        requires
            self.wf(),
            self.unlinks(after, token, s, at),
        ensures
            forall|t: int, i: int|
                0 <= t < after.lists@.len() && 0 <= i < after.lists@[t].len() ==> {
                    let k = #[trigger] after.lists@[t][i];
                    &&& 0 <= Self::shifted(t, i, s, at) < self.lists@[t].len()
                    &&& k == self.lists@[t][Self::shifted(t, i, s, at)]
                    &&& k != token
                    &&& k != EMPTY
                    &&& after.links().dom().contains(k)
                    &&& after.links()[k].0 == self.links()[k].0
                    &&& after.links()[k].0 as int % after.lists@.len() as int == t
                },
    {
        let old_lists = self.lists@;
        let lists = after.lists@;
        assert(lists[s] == old_lists[s].remove(at));
        assert forall|t: int, i: int|
            0 <= t < lists.len() && 0 <= i < lists[t].len() implies {
            let k = #[trigger] lists[t][i];
            &&& 0 <= Self::shifted(t, i, s, at) < old_lists[t].len()
            &&& k == old_lists[t][Self::shifted(t, i, s, at)]
            &&& k != token
            &&& k != EMPTY
            &&& after.links().dom().contains(k)
            &&& after.links()[k].0 == self.links()[k].0
            &&& after.links()[k].0 as int % lists.len() as int == t
        } by {
            let j = Self::shifted(t, i, s, at);
            assert(lists[t][i] == old_lists[t][j]);
            assert(old_lists[s].no_duplicates());
            assert(old_lists[s][at] == token);
        }
    }

    /// The lists and the slab still tell the same story.
    proof fn lemma_unlinked_links(self, after: Self, token: usize, s: int, at: int)
        requires
            self.wf(),
            self.unlinks(after, token, s, at),
        ensures
            after.linked(),
    {
        let old_links = self.links();
        let links = after.links();
        let old_lists = self.lists@;
        let lists = after.lists@;
        self.lemma_unlinked_tokens(after, token, s, at);
        assert forall|t: int, i: int|
            0 <= t < lists.len() && 0 <= i < lists[t].len() implies #[trigger] after.chained(t, i) by {
            self.lemma_unlinked_chain(after, token, s, at, t, i);
        }
        assert forall|t: int| 0 <= t < lists.len() implies (#[trigger] lists[t]).no_duplicates() by {
            assert forall|i: int, j: int|
                0 <= i < lists[t].len() && 0 <= j < lists[t].len() && i != j implies lists[t][i]
                != lists[t][j] by {
                assert(old_lists[t].no_duplicates());
            }
        }
        assert forall|k: usize| #[trigger] links.dom().contains(k) implies lists[after.slot(
            links[k].0,
        )].contains(k) by {
            let t = self.slot(old_links[k].0);
            let i = old_lists[t].index_of(k);
            assert(old_lists[t].contains(k));
            assert(old_lists[t][i] == k);
            if t == s && i > at {
                assert(lists[t][i - 1] == k);
            } else {
                assert(lists[t][i] == k);
            }
        }
        assert forall|t: int| 0 <= t < lists.len() implies (#[trigger] after.wheel@[t]).head
            == token_at(lists[t], 0) by {
            assert(self.wheel@[t].head == token_at(old_lists[t], 0));
            if lists[t].len() > 0 {
                assert(lists[t][0] == old_lists[t][Self::shifted(t, 0, s, at)]);
            }
        }
    }

    /// The neighbours of a token that stays lead to each other.
    proof fn lemma_unlinked_chain(
        self,
        after: Self,
        token: usize,
        s: int,
        at: int,
        t: int,
        i: int,
    )
        requires
            self.wf(),
            self.unlinks(after, token, s, at),
            0 <= t < after.lists@.len(),
            0 <= i < after.lists@[t].len(),
        ensures
            after.chained(t, i),
    {
        let old_lists = self.lists@;
        let lists = after.lists@;
        self.lemma_unlinked_tokens(after, token, s, at);
        let j = Self::shifted(t, i, s, at);
        let k = lists[t][i];
        assert(k == old_lists[t][j]);
        assert(self.chained(t, j));
        assert(self.chained(s, at));
        assert(old_lists[s].no_duplicates());
        if t == s {
            if i > 0 {
                assert(lists[s][i - 1] == old_lists[s][Self::shifted(s, i - 1, s, at)]);
            }
            if i + 1 < lists[s].len() {
                assert(lists[s][i + 1] == old_lists[s][Self::shifted(s, i + 1, s, at)]);
            }
        } else {
            if at > 0 {
                assert(old_lists[s][at - 1] != k);
            }
            if at + 1 < old_lists[s].len() {
                assert(old_lists[s][at + 1] != k);
            }
        }
    }

    /// Taking a token out of its list and out of the slab keeps a timer well
    /// formed.
    proof fn lemma_unlinked(self, after: Self, token: usize, s: int, at: int)
        requires
            self.wf(),
            self.unlinks(after, token, s, at),
        ensures
            after.wf(),
            after.same_wheel(self),
            after.removed(self, token),
    {
        let links = after.links();
        let old_lists = self.lists@;
        let lists = after.lists@;
        let here = self.slot(self.tick);
        self.lemma_unlinked_links(after, token, s, at);
        self.lemma_unlinked_tokens(after, token, s, at);
        assert(after.states@.dom() =~= links.dom());
        assert(old_lists[s].no_duplicates());
        assert(old_lists[here].no_duplicates());
        assert(old_lists[s][at] == token);
        assert(after.next == token_at(lists[here], after.cursor@)) by {
            if after.cursor@ < lists[here].len() {
                assert(lists[here][after.cursor@] == old_lists[here][Self::shifted(
                    here,
                    after.cursor@,
                    s,
                    at,
                )]);
            }
            if self.cursor@ < old_lists[here].len() {
                let k = old_lists[here][self.cursor@];
                assert(self.links()[k].0 as int % lists.len() as int == here);
            }
        }
        assert forall|t: int, i: int|
            0 <= t < lists.len() && 0 <= i < lists[t].len() implies {
            let k = #[trigger] lists[t][i];
            ||| links[k].0 > after.tick
            ||| links[k].0 == after.tick && i >= after.cursor@
        } by {
            let k = lists[t][i];
            assert(k == old_lists[t][Self::shifted(t, i, s, at)]);
            if links[k].0 == after.tick {
                assert(t == here);
            }
        }
        assert forall|t: int, i: int|
            0 <= t < lists.len() && 0 <= i < lists[t].len() && (t != here || i
                < after.cursor@) implies after.wheel@[t].next_tick <= links[#[trigger] lists[t][i]].0 by {
            assert(lists[t][i] == old_lists[t][Self::shifted(t, i, s, at)]);
        }
        assert(after.pending() =~= self.pending().remove(token));
        assert(old_lists[s].index_of(token) == at);
    }

    /// What taking `key` out does to a timer.
    pub open spec fn removed(self, before: Self, key: usize) -> bool {
        let slot = before.slot(before.pending()[key].0);
        let at = before.position(key);
        &&& before.pending().dom().contains(key)
        &&& 0 <= at < before.slots()[slot].len()
        &&& before.slots()[slot][at] == key
        &&& self.pending() == before.pending().remove(key)
        &&& self.slots() == before.slots().update(slot, before.slots()[slot].remove(at))
        &&& self.current() == before.current()
        &&& self.looked_at() == before.looked_at() - if slot == before.slot(before.current()) && at
            < before.looked_at() {
            1int
        } else {
            0
        }
    }

    /// What adding `timeout` does to a timer.
    pub open spec fn inserted(self, before: Self, timeout: Timeout, state: T) -> bool {
        let slot = before.slot(timeout.due());
        &&& !before.pending().dom().contains(timeout.key())
        &&& self.pending() == before.pending().insert(timeout.key(), (timeout.due(), state))
        &&& self.slots() == before.slots().update(
            slot,
            seq![timeout.key()] + before.slots()[slot],
        )
        &&& self.current() == before.current()
        &&& self.looked_at() == before.looked_at() + if slot == before.slot(before.current()) {
            1int
        } else {
            0
        }
    }
}

/// The smallest power of two that is not below `n`.
pub open spec fn is_next_power_of_two(p: int, n: int) -> bool {
    is_pow2(p) && p >= n && (p == 1 || p / 2 < n)
}

/// The smallest power of two that is not below `n`.
fn next_power_of_two(n: usize) -> (p: usize)
    requires
        n <= usize::MAX / 2,
    ensures
        is_next_power_of_two(p as int, n as int),
        p > 0,
        n > 0 ==> p < 2 * n,
{
    let mut p: usize = 1;
    proof {
        reveal(is_pow2);
    }
    while p < n
        invariant
            n <= usize::MAX / 2,
            is_pow2(p as int),
            p > 0,
            p == 1 || p / 2 < n,
        decreases 2 * n - p,
    {
        proof {
            reveal(is_pow2);
            assert((2 * p) % 2 == 0);
            assert((2 * p) / 2 == p);
        }
        p = p * 2;
    }
    p
}

/// The tick that lies closest to `elapsed`.
pub fn duration_to_tick(elapsed: Duration, tick_ms: u64) -> (tick: u64)
    requires
        tick_ms > 0,
    ensures
        tick == tick_of(elapsed@, tick_ms),
{
    let elapsed_ms = elapsed.millis();
    elapsed_ms.saturating_add(tick_ms / 2) / tick_ms
}

impl<T> Timer<T> {
    /// A timer with ticks of `tick_ms` milliseconds, whose tick zero is
    /// `start`. The number of slots and the capacity are rounded up to powers
    /// of two.
    pub fn new(tick_ms: u64, num_slots: usize, capacity: usize, start: time::Instant) -> (timer:
        Timer<T>)
        requires
            tick_ms > 0,
            num_slots <= usize::MAX / 2,
            capacity <= isize::MAX / 64,
        ensures
            timer.wf(),
            timer.pending() == Map::<usize, (u64, T)>::empty(),
            timer.current() == 0,
            timer.looked_at() == 0,
            timer.tick_length() == tick_ms,
            timer.origin() == start,
            is_next_power_of_two(timer.slots().len() as int, num_slots as int),
            forall|s: int|
                0 <= s < timer.slots().len() ==> (#[trigger] timer.slots()[s]).len() == 0,
    {
        let num_slots = next_power_of_two(num_slots);
        let capacity = next_power_of_two(capacity);
        let mask = (num_slots as u64) - 1;
        let mut wheel: Vec<WheelEntry> = Vec::new();
        while wheel.len() < num_slots
            invariant
                wheel@.len() <= num_slots,
                forall|i: int|
                    0 <= i < wheel@.len() ==> (#[trigger] wheel@[i]).next_tick == TICK_MAX
                        && wheel@[i].head == EMPTY,
            decreases num_slots - wheel.len(),
        {
            wheel.push(WheelEntry { next_tick: TICK_MAX, head: EMPTY });
        }
        let timer = Timer {
            tick_ms,
            entries: slots::slab_with_capacity(capacity),
            states: HashMap::new(),
            wheel,
            start,
            tick: 0,
            next: EMPTY,
            mask,
            lists: Ghost(Seq::new(num_slots as nat, |s: int| Seq::<usize>::empty())),
            cursor: Ghost(0int),
        };
        proof {
            assert(timer.pending() =~= Map::<usize, (u64, T)>::empty());
        }
        timer
    }

    /// The tick at which a timeout set now for `nanos` nanoseconds after tick
    /// zero is due: at least one tick in the future.
    pub open spec fn due_tick(self, nanos: int) -> int {
        let tick = tick_of(nanos, self.tick_length());
        if tick <= self.current() {
            self.current() + 1
        } else {
            tick as int
        }
    }

    /// Sets a timeout that is due `delay_from_start` after tick zero.
    pub fn set_timeout_at(&mut self, delay_from_start: Duration, state: T) -> (timeout: Timeout)
        requires
            old(self).wf(),
            old(self).has_room(),
            old(self).current() < u64::MAX,
        ensures
            final(self).wf(),
            final(self).same_wheel(*old(self)),
            final(self).inserted(*old(self), timeout, state),
            timeout.due() == old(self).due_tick(delay_from_start@),
    {
        let mut tick = duration_to_tick(delay_from_start, self.tick_ms);
        if tick <= self.tick {
            tick = self.tick + 1;
        }
        self.insert(tick, state)
    }

    /// Cancels a timeout.
    ///
    /// If the timeout has not yet occurred, the return value holds the
    /// associated state.
    pub fn cancel_timeout(&mut self, timeout: &Timeout) -> (state: Option<T>)
        requires
            old(self).wf(),
        ensures
            final(self).wf(),
            final(self).same_wheel(*old(self)),
            state is Some <==> old(self).holds(*timeout),
            state matches Some(s) ==> s == old(self).pending()[timeout.key()].1
                && final(self).removed(*old(self), timeout.key()),
            state is None ==> *final(self) == *old(self),
    {
        let links = match slots::slab_get(&self.entries, timeout.token.0) {
            Some(links) => links,
            None => {
                return None;
            },
        };
        if links.0 != timeout.tick {
            return None;
        }
        Some(self.unlink(links, timeout.token.0))
    }

    /// Whether `timeout` is pending.
    pub open spec fn holds(self, timeout: Timeout) -> bool {
        self.pending().dom().contains(timeout.key()) && self.pending()[timeout.key()].0
            == timeout.due()
    }

    /// Where polling starts in the list of slot `slot` when it gets to `tick`.
    pub open spec fn poll_from(self, tick: u64) -> int {
        if tick == self.current() {
            self.looked_at()
        } else {
            0
        }
    }

    /// `before` became `self` by a timeout firing: in the slot of the tick that
    /// was reached, the first one that is due there.
    pub open spec fn fired(self, before: Self, state: T) -> bool {
        let at = self.looked_at();
        let tick = self.current();
        let slot = before.slot(tick);
        let list = before.slots()[slot];
        &&& before.poll_from(tick) <= at < list.len()
        &&& before.pending().dom().contains(list[at])
        &&& before.pending()[list[at]] == (tick, state)
        &&& forall|j: int|
            before.poll_from(tick) <= j < at ==> before.pending()[#[trigger] list[j]].0 > tick
        &&& self.pending() == before.pending().remove(list[at])
        &&& self.slots() == before.slots().update(slot, list.remove(at))
    }

    /// `before` became `self` by polling up to `target_tick`, which handed out
    /// `state`.
    pub open spec fn polled(self, before: Self, target_tick: u64, state: Option<T>) -> bool {
        &&& self.same_wheel(before)
        &&& before.current() <= self.current()
        &&& forall|k: usize| #[trigger]
            before.pending().dom().contains(k) ==> before.pending()[k].0 >= self.current()
        &&& state is Some ==> self.current() <= target_tick || self.current() == before.current()
        &&& state matches Some(s) ==> self.fired(before, s)
        &&& state is None ==> {
            &&& self.current() == 1 + (if target_tick < before.current() {
                before.current()
            } else {
                target_tick
            })
            &&& self.pending() == before.pending()
            &&& self.slots() == before.slots()
            &&& self.looked_at() == 0
        }
    }

    /// The tick up to which polling goes `nanos` nanoseconds after tick zero:
    /// the last tick of all can be waited for, not passed.
    pub open spec fn poll_tick(self, nanos: int) -> u64 {
        let tick = tick_of(nanos, self.tick_length());
        if tick == TICK_MAX {
            (TICK_MAX - 1) as u64
        } else {
            tick
        }
    }

    /// Moves on to `target_tick`, or to the first tick before it at which a
    /// timeout is due.
    ///
    /// The return value holds the state of the first timeout that is due. None
    /// with an earlier tick is pending, and of those with the same tick it is
    /// the first in its slot that has not been looked at.
    pub fn poll_to(&mut self, target_tick: u64) -> (state: Option<T>)
        requires
            old(self).wf(),
            old(self).current() < u64::MAX,
            target_tick < u64::MAX,
        ensures
            final(self).wf(),
            final(self).polled(*old(self), target_tick, state),
    {
        let ghost before = *self;
        let target: u64 = if target_tick < self.tick {
            self.tick
        } else {
            target_tick
        };
        while self.tick <= target
            invariant
                self.wf(),
                before.wf(),
                before == *old(self),
                target == (if target_tick < before.tick {
                    before.tick
                } else {
                    target_tick
                }),
                self.same_wheel(before),
                target < u64::MAX,
                before.tick <= target,
                before.tick <= self.tick <= target + 1,
                self.pending() == before.pending(),
                self.slots() == before.slots(),
                self.looked_at() >= before.poll_from(self.current()),
                self.tick > target ==> self.looked_at() == 0,
            decreases
                    target + 1 - self.tick,
                    self.lists@[self.slot(self.tick)].len() - self.cursor@,
        {
            let curr = self.next;
            let ghost here = self.slot(self.tick);
            let ghost prior = *self;
            if curr == EMPTY {
                self.tick = self.tick + 1;
                let slot = self.slot_for(self.tick);
                self.next = self.wheel[slot].head;
                self.cursor = Ghost(0int);
                if self.next == EMPTY {
                    self.wheel.set(slot, WheelEntry { next_tick: TICK_MAX, head: EMPTY });
                }
                proof {
                    prior.lemma_next_slot(*self);
                }
            } else {
                let slot = self.slot_for(self.tick);
                let entry = self.wheel[slot];
                if curr == entry.head {
                    self.wheel.set(slot, WheelEntry { next_tick: TICK_MAX, head: entry.head });
                }
                let ghost restarted = *self;
                let ghost at = self.cursor@;
                proof {
                    prior.lemma_restarted(restarted);
                    assert(self.lists@[here][at] == curr);
                    assert(self.chained(here, at));
                }
                let links = match slots::slab_get(&self.entries, curr) {
                    Some(links) => links,
                    None => {
                        assert(false);
                        return None;
                    },
                };
                if links.0 <= self.tick {
                    let ghost list = self.lists@[here];
                    proof {
                        assert(list[at] == curr);
                        assert(list.no_duplicates());
                        assert(list.index_of(curr) == at);
                    }
                    let state = self.unlink(links, curr);
                    proof {
                        before.lemma_fired(restarted, *self, at, state);
                        assert(self.fired(*old(self), state));
                    }
                    return Some(state);
                } else {
                    let entry = self.wheel[slot];
                    if links.0 < entry.next_tick {
                        self.wheel.set(slot, WheelEntry { next_tick: links.0, head: entry.head });
                    }
                    self.next = links.2;
                    self.cursor = Ghost(self.cursor@ + 1);
                    proof {
                        restarted.lemma_passed(*self);
                    }
                }
            }
        }
        proof {
            self.lemma_all_due_later();
        }
        None
    }

    /// Only wake ticks, the tick and the place in the list differ.
    spec fn same_entries(self, after: Self) -> bool {
        &&& after.tick_ms == self.tick_ms
        &&& after.entries == self.entries
        &&& after.states == self.states
        &&& after.start == self.start
        &&& after.mask == self.mask
        &&& after.lists@ == self.lists@
        &&& after.wheel@.len() == self.wheel@.len()
        &&& forall|t: int|
            0 <= t < self.wheel@.len() ==> (#[trigger] after.wheel@[t]).head == self.wheel@[t].head
    }

    proof fn lemma_same_entries(self, after: Self)
        requires
            self.linked(),
            self.same_entries(after),
        ensures
            after.linked(),
            after.pending() == self.pending(),
            after.slots() == self.slots(),
    {
        let lists = self.lists@;
        assert forall|s: int, i: int|
            0 <= s < lists.len() && 0 <= i < lists[s].len() implies #[trigger] after.chained(s, i) by {
            assert(self.chained(s, i));
        }
        assert forall|k: usize| #[trigger]
            after.links().dom().contains(k) implies lists[after.slot(after.links()[k].0)].contains(k) by {
            assert(self.links().dom().contains(k));
        }
        assert(after.pending() =~= self.pending());
    }

    /// Once the list of a tick's slot has been looked at, the next tick's slot
    /// comes.
    proof fn lemma_next_slot(self, after: Self)
        requires
            self.wf(),
            self.next == EMPTY,
            self.same_entries(after),
            self.tick < u64::MAX,
            after.tick == self.tick + 1,
            after.cursor@ == 0,
            after.next == self.wheel@[self.slot(after.tick)].head,
            forall|t: int|
                0 <= t < self.wheel@.len() ==> (#[trigger] after.wheel@[t]).next_tick == (if t
                    == self.slot(after.tick) && after.next == EMPTY {
                    TICK_MAX
                } else {
                    self.wheel@[t].next_tick
                }),
        ensures
            after.wf(),
            after.pending() == self.pending(),
            after.slots() == self.slots(),
    {
        self.lemma_same_entries(after);
        let lists = self.lists@;
        let here = self.slot(self.tick);
        assert(self.cursor@ == lists[here].len()) by {
            if self.cursor@ < lists[here].len() {
                assert(lists[here][self.cursor@] != EMPTY);
            }
        }
        let there = self.slot(after.tick);
        assert forall|s: int, i: int|
            0 <= s < lists.len() && 0 <= i < lists[s].len() implies after.wheel@[s].next_tick
            <= after.links()[#[trigger] lists[s][i]].0 by {
            if s == there {
                assert(lists[s][0] != EMPTY);
            }
        }
    }

    /// Starting over with a list resets its slot's wake tick.
    proof fn lemma_restarted(self, after: Self)
        requires
            self.wf(),
            self.next != EMPTY,
            self.same_entries(after),
            after.tick == self.tick,
            after.cursor == self.cursor,
            after.next == self.next,
            forall|t: int|
                0 <= t < self.wheel@.len() ==> (#[trigger] after.wheel@[t]).next_tick == (if t
                    == self.slot(self.tick) && self.next == self.wheel@[t].head {
                    TICK_MAX
                } else {
                    self.wheel@[t].next_tick
                }),
        ensures
            after.wf(),
            after.pending() == self.pending(),
            after.slots() == self.slots(),
            self.cursor@ < self.lists@[self.slot(self.tick)].len(),
    {
        self.lemma_same_entries(after);
        let lists = self.lists@;
        let here = self.slot(self.tick);
        assert(lists[here].no_duplicates());
        assert(self.wheel@[here].head == token_at(lists[here], 0));
        assert forall|s: int, i: int|
            0 <= s < lists.len() && 0 <= i < lists[s].len() && (s != here || i
                < after.cursor@) implies after.wheel@[s].next_tick
            <= after.links()[#[trigger] lists[s][i]].0 by {
            if s == here {
                assert(lists[s][0] != lists[s][self.cursor@]);
            }
        }
    }

    /// A timeout of a later turn of the wheel is passed over.
    proof fn lemma_passed(self, after: Self)
        requires
            self.wf(),
            self.next != EMPTY,
            self.same_entries(after),
            self.links()[self.next].0 > self.tick,
            after.tick == self.tick,
            after.cursor@ == self.cursor@ + 1,
            after.next == self.links()[self.next].2,
            forall|t: int|
                0 <= t < self.wheel@.len() ==> (#[trigger] after.wheel@[t]).next_tick == (if t
                    == self.slot(self.tick) && self.links()[self.next].0
                    < self.wheel@[t].next_tick {
                    self.links()[self.next].0
                } else {
                    self.wheel@[t].next_tick
                }),
        ensures
            after.wf(),
            after.pending() == self.pending(),
            after.slots() == self.slots(),
    {
        self.lemma_same_entries(after);
        let lists = self.lists@;
        let here = self.slot(self.tick);
        assert(self.chained(here, self.cursor@));
        assert forall|s: int, i: int|
            0 <= s < lists.len() && 0 <= i < lists[s].len() implies {
            let k = #[trigger] lists[s][i];
            ||| after.links()[k].0 > after.tick
            ||| after.links()[k].0 == after.tick && i >= after.cursor@
        } by {
            if s == here && i == self.cursor@ {
                assert(lists[s][i] == self.next);
            } else if after.links()[lists[s][i]].0 == after.tick {
                assert(s == here);
            }
        }
        assert forall|s: int, i: int|
            0 <= s < lists.len() && 0 <= i < lists[s].len() && (s != here || i
                < after.cursor@) implies after.wheel@[s].next_tick
            <= after.links()[#[trigger] lists[s][i]].0 by {
            if s == here && i == self.cursor@ {
                assert(lists[s][i] == self.next);
            }
        }
    }

    /// Nothing pending is due before the current tick.
    proof fn lemma_all_due_later(self)
        requires
            self.wf(),
        ensures
            forall|k: usize| #[trigger]
                self.pending().dom().contains(k) ==> self.pending()[k].0 >= self.current(),
    {
        assert forall|k: usize| #[trigger] self.pending().dom().contains(k) implies self.pending()[k].0
            >= self.current() by {
            let list = self.lists@[self.slot(self.links()[k].0)];
            assert(self.links().dom().contains(k));
            assert(list[list.index_of(k)] == k);
        }
    }

    proof fn lemma_fired(self, prior: Self, after: Self, at: int, state: T)
        requires
            prior.wf(),
            after.wf(),
            prior.same_wheel(self),
            prior.pending() == self.pending(),
            prior.slots() == self.slots(),
            self.current() <= prior.current(),
            prior.looked_at() >= self.poll_from(prior.current()) >= 0,
            at == prior.cursor@,
            at < prior.lists@[prior.slot(prior.tick)].len(),
            prior.pending()[prior.next].0 <= prior.tick,
            state == prior.pending()[prior.next].1,
            after.removed(prior, prior.next),
        ensures
            after.fired(self, state),
            forall|k: usize| #[trigger]
                self.pending().dom().contains(k) ==> self.pending()[k].0 >= after.current(),
    {
        prior.lemma_all_due_later();
        let list = prior.lists@[prior.slot(prior.tick)];
        assert(list[at] == prior.next);
        assert(list.no_duplicates());
        assert(list.index_of(prior.next) == at);
        assert forall|j: int| self.poll_from(prior.current()) <= j < at implies self.pending()[#[trigger] list[j]].0
            > prior.current() by {
            assert(self.pending().dom().contains(list[j]));
            assert(prior.links()[list[j]].0 > prior.tick || prior.links()[list[j]].0 == prior.tick
                && j >= prior.cursor@);
        }
    }

    /// Whether `tick` is the next tick that contains a timeout.
    pub open spec fn is_next_tick(self, tick: u64) -> bool {
        &&& exists|k: usize| #[trigger]
            self.pending().dom().contains(k) && self.pending()[k].0 == tick
        &&& forall|k: usize| #[trigger]
            self.pending().dom().contains(k) ==> tick <= self.pending()[k].0
    }

    /// Whether `least` is the least tick of the first `n` timeouts of a slot
    /// and `before`.
    spec fn least_in(self, slot: int, n: int, before: Option<u64>, least: Option<u64>) -> bool {
        let list = self.lists@[slot];
        &&& before matches Some(b) ==> (least matches Some(t) && t <= b)
        &&& forall|i: int|
            0 <= i < n ==> (least matches Some(t) && t <= self.links()[#[trigger] list[i]].0)
        &&& least matches Some(t) ==> before == Some(t) || exists|i: int|
            0 <= i < n && self.links()[#[trigger] list[i]].0 == t
    }

    /// The least tick of a slot's timeouts and `before`.
    fn least_of_slot(&self, slot: usize, before: Option<u64>) -> (least: Option<u64>)
        requires
            self.wf(),
            slot < self.wheel@.len(),
        ensures
            self.least_in(slot as int, self.lists@[slot as int].len() as int, before, least),
    {
        let ghost list = self.lists@[slot as int];
        let mut least = before;
        let mut token = self.wheel[slot].head;
        let ghost mut at: int = 0;
        while token != EMPTY
            invariant
                self.wf(),
                slot < self.wheel@.len(),
                list == self.lists@[slot as int],
                0 <= at <= list.len(),
                token == token_at(list, at),
                self.least_in(slot as int, at, before, least),
            decreases list.len() - at,
        {
            proof {
                assert(at < list.len());
                assert(self.chained(slot as int, at));
                assert(list[at] == token);
            }
            let links = match slots::slab_get(&self.entries, token) {
                Some(links) => links,
                None => {
                    return least;
                },
            };
            let ghost prior = least;
            let sooner = match least {
                Some(tick) => links.0 < tick,
                None => true,
            };
            if sooner {
                least = Some(links.0);
            }
            token = links.2;
            proof {
                assert(self.links()[list[at]].0 == links.0);
                assert(self.least_in(slot as int, at + 1, before, least)) by {
                    if !sooner && before != least {
                        let i = choose|i: int|
                            0 <= i < at && self.links()[#[trigger] list[i]].0 == prior->0;
                        assert(self.links()[list[i]].0 == least->0);
                    }
                }
                at = at + 1;
            }
        }
        proof {
            if at < list.len() {
                assert(list[at] != EMPTY);
            }
        }
        least
    }

    /// The next tick containing a timeout. A slot whose wake tick is not sooner
    /// than what was found holds nothing that is, unless it is being looked at.
    pub fn next_tick(&self) -> (tick: Option<u64>)
        requires
            self.wf(),
        ensures
            tick is None <==> self.pending().dom() == Set::<usize>::empty(),
            tick matches Some(t) ==> self.is_next_tick(t),
    {
        let here = self.slot_for(self.tick);
        let mut least: Option<u64> = None;
        let mut slot: usize = 0;
        while slot < self.wheel.len()
            invariant
                self.wf(),
                here == self.slot(self.tick),
                slot <= self.wheel@.len(),
                forall|s: int, i: int|
                    0 <= s < slot && 0 <= i < self.lists@[s].len() ==> (least matches Some(t) && t
                        <= self.links()[#[trigger] self.lists@[s][i]].0),
                least matches Some(t) ==> exists|k: usize| #[trigger]
                    self.links().dom().contains(k) && self.links()[k].0 == t,
            decreases self.wheel@.len() - slot,
        {
            let skip = match least {
                Some(tick) => slot != here && self.wheel[slot].next_tick >= tick,
                None => false,
            };
            if !skip {
                let ghost prior = least;
                least = self.least_of_slot(slot, least);
                proof {
                    let list = self.lists@[slot as int];
                    if least is Some && least != prior {
                        let i = choose|i: int|
                            0 <= i < list.len() && self.links()[#[trigger] list[i]].0 == least->0;
                        assert(self.links().dom().contains(self.lists@[slot as int][i]));
                    }
                }
            }
            slot += 1;
        }
        proof {
            assert(self.pending().dom() =~= self.links().dom());
            assert forall|k: usize| #[trigger] self.pending().dom().contains(k) implies (
            least matches Some(t) && t <= self.pending()[k].0) by {
                assert(self.links().dom().contains(k));
                let s = self.slot(self.links()[k].0);
                let i = self.lists@[s].index_of(k);
                assert(self.lists@[s][i] == k);
            }
            if let Some(t) = least {
                let k = choose|k: usize| #[trigger]
                    self.links().dom().contains(k) && self.links()[k].0 == t;
                assert(self.pending().dom().contains(k) && self.pending()[k].0 == t);
            } else {
                assert(self.pending().dom() =~= Set::<usize>::empty());
            }
        }
        least
    }

    /// The milliseconds from tick zero to a tick.
    pub open spec fn poll_millis(self, tick: u64) -> int {
        self.tick_length() as int * tick as int
    }

    /// When to poll next, unless nothing is pending, the tick lies more than
    /// `i64::MAX` milliseconds after tick zero, or the clock cannot represent
    /// that instant.
    pub fn next_poll_date(&self) -> (date: Option<time::Instant>)
        requires
            self.wf(),
        ensures
            self.pending().dom() == Set::<usize>::empty() ==> date is None,
            forall|tick: u64| #[trigger]
                self.is_next_tick(tick) ==> {
                    let nanos = clock::instant_nanos(self.origin()) + self.poll_millis(tick)
                        * 1_000_000;
                    &&& date is Some <==> self.poll_millis(tick) <= i64::MAX
                        && clock::representable(nanos)
                    &&& date matches Some(d) ==> clock::instant_nanos(d) == nanos
                },
    {
        let tick = match self.next_tick() {
            Some(tick) => tick,
            None => {
                return None;
            },
        };
        proof {
            let k = choose|k: usize| #[trigger]
                self.pending().dom().contains(k) && self.pending()[k].0 == tick;
            assert forall|other: u64| #[trigger] self.is_next_tick(other) implies other == tick by {
                assert(self.pending().dom().contains(k));
                let l = choose|l: usize| #[trigger]
                    self.pending().dom().contains(l) && self.pending()[l].0 == other;
                assert(self.pending().dom().contains(l));
            }
        }
        match self.tick_ms.checked_mul(tick) {
            Some(ms) if ms <= i64::MAX as u64 => clock::instant_after(
                &self.start,
                Duration::milliseconds(ms as i64),
            ),
            _ => None,
        }
    }

    /// The number of pending timeouts.
    pub fn len(&self) -> (n: usize)
        requires
            self.wf(),
        ensures
            n == self.pending().dom().len(),
    {
        assert(self.pending().dom() =~= self.links().dom());
        slots::slab_len(&self.entries)
    }

    /// The current tick.
    pub fn tick(&self) -> (tick: u64)
        ensures
            tick == self.current(),
    {
        self.tick
    }

    /// The length of a tick, in milliseconds.
    pub fn tick_ms(&self) -> (ms: u64)
        ensures
            ms == self.tick_length(),
    {
        self.tick_ms
    }

    /// Whether a timeout that is set now for `delay` nanoseconds from now may be
    /// due at tick `due`: it is due that long after what the clock reads.
    pub open spec fn is_due_after(self, due: u64, delay: int) -> bool {
        exists|elapsed: int|
            #![trigger clock::saturated_nanos(elapsed + delay)]
            clock::is_elapsed(self.origin(), elapsed) && due == self.due_tick(
                clock::saturated_nanos(elapsed + delay),
            )
    }

    /// Sets a timeout that is due `delay_from_now` after the time that has
    /// elapsed since tick zero.
    pub fn set_timeout_after(&mut self, elapsed: Duration, delay_from_now: Duration, state: T) -> (
    timeout: Timeout)
        requires
            old(self).wf(),
            old(self).has_room(),
            old(self).current() < u64::MAX,
        ensures
            final(self).wf(),
            final(self).same_wheel(*old(self)),
            final(self).inserted(*old(self), timeout, state),
            timeout.due() == old(self).due_tick(
                clock::saturated_nanos(elapsed@ + delay_from_now@),
            ),
    {
        let delay_from_start = elapsed.saturating_add(delay_from_now);
        self.set_timeout_at(delay_from_start, state)
    }

    /// Sets a timeout.
    ///
    /// When the timeout occurs, the given state becomes available via `poll`.
    /// It is due `delay_from_now` after what the clock reads, and in the future.
    pub fn set_timeout(&mut self, delay_from_now: Duration, state: T) -> (timeout: Timeout)
        requires
            old(self).wf(),
            old(self).has_room(),
            old(self).current() < u64::MAX,
        ensures
            final(self).wf(),
            final(self).same_wheel(*old(self)),
            final(self).inserted(*old(self), timeout, state),
            old(self).is_due_after(timeout.due(), delay_from_now@),
    {
        let elapsed = clock::elapsed(&self.start);
        self.set_timeout_after(elapsed, delay_from_now, state)
    }

    /// Replaces a pending timeout by one that is due `delay_from_now` from now;
    /// does nothing if it is not pending.
    pub fn reset_timeout(&mut self, timeout: &Timeout, delay_from_now: Duration) -> (fresh: Option<
        Timeout,
    >)
        requires
            old(self).wf(),
            old(self).pending().dom().len() <= slots::slab_growth_limit(),
            old(self).current() < u64::MAX,
        ensures
            final(self).wf(),
            final(self).same_wheel(*old(self)),
            fresh is Some <==> old(self).holds(*timeout),
            fresh is None ==> *final(self) == *old(self),
            fresh matches Some(f) ==> {
                &&& final(self).current() == old(self).current()
                &&& f.due() > old(self).current()
                &&& old(self).is_due_after(f.due(), delay_from_now@)
                &&& !old(self).pending().remove(timeout.key()).dom().contains(f.key())
                &&& final(self).pending() == old(self).pending().remove(timeout.key()).insert(
                    f.key(),
                    (f.due(), old(self).pending()[timeout.key()].1),
                )
            },
    {
        proof {
            assert(self.pending().dom() =~= self.links().dom());
            if self.pending().dom().contains(timeout.key()) {
                assert(self.pending().remove(timeout.key()).dom() =~= self.pending().dom().remove(
                    timeout.key(),
                ));
            }
        }
        match self.cancel_timeout(timeout) {
            None => None,
            Some(state) => Some(self.set_timeout(delay_from_now, state)),
        }
    }

    /// Polls for a timer that has expired when `elapsed` has passed since tick
    /// zero.
    pub fn poll_at(&mut self, elapsed: Duration) -> (state: Option<T>)
        requires
            old(self).wf(),
            old(self).current() < u64::MAX,
        ensures
            final(self).wf(),
            final(self).polled(*old(self), old(self).poll_tick(elapsed@), state),
    {
        let now = duration_to_tick(elapsed, self.tick_ms);
        let target: u64 = if now == TICK_MAX {
            TICK_MAX - 1
        } else {
            now
        };
        self.poll_to(target)
    }

    /// Polls for an expired timer.
    ///
    /// The return value holds the state associated with the first expired
    /// timer, if any: one that is due by what the clock reads.
    pub fn poll(&mut self) -> (state: Option<T>)
        requires
            old(self).wf(),
            old(self).current() < u64::MAX,
        ensures
            final(self).wf(),
            exists|elapsed: int|
                clock::is_elapsed(old(self).origin(), elapsed) && final(self).polled(
                    *old(self),
                    #[trigger] old(self).poll_tick(elapsed),
                    state,
                ),
    {
        let elapsed = clock::elapsed(&self.start);
        self.poll_at(elapsed)
    }
}

/// Used to create a `Timer`.
#[derive(Clone, Copy, Debug)]
pub struct Builder {
    tick: Duration,
    num_slots: usize,
    capacity: usize,
}

impl Builder {
    /// Approximate duration of each tick.
    pub closed spec fn tick_span(self) -> Duration {
        self.tick
    }

    /// Number of slots in the timer wheel.
    pub closed spec fn slot_count(self) -> usize {
        self.num_slots
    }

    /// Number of timeouts for which room is made from the start.
    pub closed spec fn room(self) -> usize {
        self.capacity
    }

    /// Sets the tick duration. Default is 100ms.
    pub fn tick_duration(self, duration: Duration) -> (b: Builder)
        ensures
            b.tick_span() == duration,
            b.slot_count() == self.slot_count(),
            b.room() == self.room(),
    {
        Builder { tick: duration, num_slots: self.num_slots, capacity: self.capacity }
    }

    /// Sets the number of slots. Default is 256.
    pub fn num_slots(self, num_slots: usize) -> (b: Builder)
        ensures
            b.tick_span() == self.tick_span(),
            b.slot_count() == num_slots,
            b.room() == self.room(),
    {
        Builder { tick: self.tick, num_slots, capacity: self.capacity }
    }

    /// Sets the capacity. Default is 65536.
    pub fn capacity(self, capacity: usize) -> (b: Builder)
        ensures
            b.tick_span() == self.tick_span(),
            b.slot_count() == self.slot_count(),
            b.room() == capacity,
    {
        Builder { tick: self.tick, num_slots: self.num_slots, capacity }
    }

    /// Builds a `Timer` with the parameters set on this `Builder`, whose tick
    /// zero is now.
    pub fn build<T>(self) -> (timer: Timer<T>)
        requires
            clock::millis_of(self.tick_span()@) > 0,
            self.slot_count() <= usize::MAX / 2,
            self.room() <= isize::MAX / 64,
        ensures
            timer.wf(),
            timer.pending() == Map::<usize, (u64, T)>::empty(),
            timer.current() == 0,
            timer.looked_at() == 0,
            timer.tick_length() == clock::millis_of(self.tick_span()@),
            is_next_power_of_two(timer.slots().len() as int, self.slot_count() as int),
    {
        Timer::new(self.tick.millis(), self.num_slots, self.capacity, clock::now())
    }
}

impl Default for Builder {
    /// Ticks of 100 ms, 256 slots, room for 65536 timeouts.
    fn default() -> (b: Builder)
        ensures
            b.tick_span()@ == 100_000_000,
            b.slot_count() == 256,
            b.room() == 65536,
    {
        Builder { tick: Duration::milliseconds(100), num_slots: 256, capacity: 65536 }
    }
}

impl<T> Default for Timer<T> {
    /// The timer of the default `Builder`.
    fn default() -> (timer: Timer<T>)
        ensures
            timer.wf(),
            timer.pending() == Map::<usize, (u64, T)>::empty(),
            timer.current() == 0,
            timer.looked_at() == 0,
            timer.tick_length() == 100,
            is_next_power_of_two(timer.slots().len() as int, 256),
    {
        Builder::default().build()
    }
}

/// A timeout that a session sets, cancels and resets on its worker's timer.
#[derive(Clone, Debug)]
pub struct TimeoutContainer {
    // An option, so that a timeout is not cancelled multiple times.
    timeout: Option<Timeout>,
    duration: Duration,
}

impl TimeoutContainer {
    /// The timeout that is set, if any.
    pub closed spec fn set_to(self) -> Option<Timeout> {
        self.timeout
    }

    /// How long the timeout lasts when it is set.
    pub closed spec fn span(self) -> Duration {
        self.duration
    }

    /// Sets a timeout for `token`.
    pub fn new(timer: &mut Timer<Token>, duration: Duration, token: Token) -> (c: TimeoutContainer)
        requires
            old(timer).wf(),
            old(timer).has_room(),
            old(timer).current() < u64::MAX,
        ensures
            final(timer).wf(),
            final(timer).same_wheel(*old(timer)),
            c.span() == duration,
            c.set_to() matches Some(t) && final(timer).inserted(*old(timer), t, token) && old(
                timer,
            ).is_due_after(t.due(), duration@),
    {
        let timeout = timer.set_timeout(duration, token);
        TimeoutContainer { timeout: Some(timeout), duration }
    }

    /// A container without a timeout.
    pub fn new_empty(duration: Duration) -> (c: TimeoutContainer)
        ensures
            c.set_to() is None,
            c.span() == duration,
    {
        TimeoutContainer { timeout: None, duration }
    }

    /// Moves the timeout to another container.
    pub fn take(&mut self) -> (c: TimeoutContainer)
        ensures
            c == *old(self),
            final(self).set_to() is None,
            final(self).span() == old(self).span(),
    {
        TimeoutContainer { timeout: self.timeout.take(), duration: self.duration }
    }

    /// Must be called when a timeout was triggered, to prevent errors when
    /// canceling.
    pub fn triggered(&mut self)
        ensures
            final(self).set_to() is None,
            final(self).span() == old(self).span(),
    {
        let _ = self.timeout.take();
    }

    /// Sets the timeout for `token`; one that is set already is cancelled
    /// first.
    pub fn set(&mut self, timer: &mut Timer<Token>, token: Token)
        requires
            old(timer).wf(),
            old(timer).has_room(),
            old(timer).current() < u64::MAX,
        ensures
            final(timer).wf(),
            final(timer).same_wheel(*old(timer)),
            final(timer).current() == old(timer).current(),
            final(self).span() == old(self).span(),
            final(self).set_to() matches Some(t) && t.due() > old(timer).current() && old(
                timer,
            ).is_due_after(t.due(), old(self).span()@)
                && !without(old(timer).pending(), old(self).set_to()).dom().contains(t.key())
                && final(timer).pending() == without(old(timer).pending(), old(self).set_to()).insert(
                t.key(),
                (t.due(), token),
            ),
    {
        let ghost before = *timer;
        proof {
            lemma_without_len(*timer, self.timeout);
        }
        if let Some(timeout) = self.timeout.take() {
            let _ = timer.cancel_timeout(&timeout);
        }
        assert(timer.pending() == without(before.pending(), old(self).set_to()));
        let timeout = timer.set_timeout(self.duration, token);
        self.timeout = Some(timeout);
    }

    /// Warning: this does not reset the timer.
    pub fn set_duration(&mut self, duration: Duration)
        ensures
            final(self).set_to() == old(self).set_to(),
            final(self).span() == duration,
    {
        self.duration = duration;
    }

    /// How long the timeout lasts when it is set.
    pub fn duration(&self) -> (d: Duration)
        ensures
            d == self.span(),
    {
        self.duration
    }

    /// Cancels the timeout; `false` if none is set.
    pub fn cancel(&mut self, timer: &mut Timer<Token>) -> (cancelled: bool)
        requires
            old(timer).wf(),
        ensures
            final(timer).wf(),
            final(timer).same_wheel(*old(timer)),
            final(timer).current() == old(timer).current(),
            final(timer).pending() == without(old(timer).pending(), old(self).set_to()),
            cancelled == old(self).set_to() is Some,
            final(self).set_to() is None,
            final(self).span() == old(self).span(),
    {
        match self.timeout.take() {
            None => false,
            Some(timeout) => {
                let _ = timer.cancel_timeout(&timeout);
                true
            },
        }
    }

    /// Sets the timeout anew, for what it was set; `false` if it was not
    /// pending.
    pub fn reset(&mut self, timer: &mut Timer<Token>) -> (reset: bool)
        requires
            old(timer).wf(),
            old(timer).pending().dom().len() <= slots::slab_growth_limit(),
            old(timer).current() < u64::MAX,
        ensures
            final(timer).wf(),
            final(timer).same_wheel(*old(timer)),
            final(timer).current() == old(timer).current(),
            final(self).span() == old(self).span(),
            reset == final(self).set_to() is Some,
            reset == (old(self).set_to() matches Some(t) && old(timer).holds(t)),
            !reset ==> final(timer).pending() == old(timer).pending(),
            final(self).set_to() matches Some(f) ==> {
                let k = old(self).set_to()->0.key();
                &&& f.due() > old(timer).current()
                &&& old(timer).is_due_after(f.due(), old(self).span()@)
                &&& !old(timer).pending().remove(k).dom().contains(f.key())
                &&& final(timer).pending() == old(timer).pending().remove(k).insert(
                    f.key(),
                    (f.due(), old(timer).pending()[k].1),
                )
            },
    {
        match self.timeout.take() {
            None => {
                return false;
            },
            Some(timeout) => {
                self.timeout = timer.reset_timeout(&timeout, self.duration);
            },
        }
        self.timeout.is_some()
    }
}

/// The pending timeouts without `timeout`, if it is among them.
pub open spec fn without(pending: Map<usize, (u64, Token)>, timeout: Option<Timeout>) -> Map<
    usize,
    (u64, Token),
> {
    match timeout {
        Some(t) if pending.dom().contains(t.key()) && pending[t.key()].0 == t.due() => pending.remove(
            t.key(),
        ),
        _ => pending,
    }
}

proof fn lemma_without_len(timer: Timer<Token>, timeout: Option<Timeout>)
    requires
        timer.wf(),
    ensures
        without(timer.pending(), timeout).dom().len() <= timer.pending().dom().len(),
{
    assert(timer.pending().dom() =~= timer.links().dom());
    if let Some(t) = timeout {
        if timer.holds(t) {
            assert(timer.pending().remove(t.key()).dom() =~= timer.pending().dom().remove(t.key()));
        }
    }
}

/// A timeout that was set is pending, and cancelling it leaves the timeouts and
/// their order as they were.
pub proof fn law_cancel_undoes_set<T>(
    before: Timer<T>,
    set: Timer<T>,
    after: Timer<T>,
    timeout: Timeout,
    state: T,
)
    requires
        before.wf(),
        set.same_wheel(before),
        set.inserted(before, timeout, state),
        after.removed(set, timeout.key()),
    ensures
        set.holds(timeout),
        set.pending()[timeout.key()].1 == state,
        after.pending() == before.pending(),
        after.slots() == before.slots(),
        after.current() == before.current(),
        after.looked_at() == before.looked_at(),
{
    let slot = before.slot(timeout.due());
    let list = seq![timeout.key()] + before.slots()[slot];
    assert(list[0] == timeout.key());
    assert(after.pending() =~= before.pending());
    assert(set.slots()[slot] == list);
    let at = set.position(timeout.key());
    assert(list[at] == timeout.key());
    if at > 0 {
        assert(before.slots()[slot][at - 1] == timeout.key());
        assert(before.lists@[slot][at - 1] == timeout.key());
        assert(before.links().dom().contains(timeout.key()));
        assert(before.pending().dom().contains(timeout.key()));
    }
    assert(list.remove(0) =~= before.slots()[slot]);
    assert(after.slots() =~= before.slots());
}

/// A timeout that fired is no longer pending, so it neither fires nor can be
/// cancelled again.
pub proof fn law_fires_once<T>(before: Timer<T>, after: Timer<T>, state: T, timeout: Timeout)
    requires
        after.fired(before, state),
        timeout.key() == before.slots()[before.slot(after.current())][after.looked_at()],
    ensures
        before.pending().dom().contains(timeout.key()),
        before.pending()[timeout.key()] == (after.current(), state),
        !after.holds(timeout),
{
}

/// Of two timeouts that are set one after the other for the same tick, the
/// second fires first when that tick is reached.
pub proof fn law_last_set_fires_first<T>(
    t0: Timer<T>,
    t1: Timer<T>,
    t2: Timer<T>,
    t3: Timer<T>,
    first: Timeout,
    first_state: T,
    second: Timeout,
    second_state: T,
    fired: T,
)
    requires
        t0.slots().len() > 0,
        t1.same_wheel(t0),
        t2.same_wheel(t1),
        t1.inserted(t0, first, first_state),
        t2.inserted(t1, second, second_state),
        first.due() == second.due(),
        t2.current() < second.due(),
        t3.fired(t2, fired),
        t3.current() == second.due(),
    ensures
        fired == second_state,
        !t3.holds(second),
        t3.holds(first),
{
    let slot = t2.slot(second.due());
    assert(t2.slots()[slot][0] == second.key());
    assert(t2.pending()[second.key()].0 == second.due());
    assert(t3.looked_at() == 0);
    assert(t1.pending().dom().contains(first.key()));
}

/// The next poll is not asked for later than any pending timeout is due.
pub proof fn law_wakes_in_time<T>(timer: Timer<T>, timeout: Timeout, tick: u64)
    requires
        timer.holds(timeout),
        timer.is_next_tick(tick),
    ensures
        tick <= timeout.due(),
{
}

/// What lies `more` nanoseconds after a moment has a tick that is not before
/// that of the moment.
proof fn lemma_ticks_in_order(nanos: int, more: int, tick_ms: u64)
    requires
        tick_ms > 0,
        0 <= nanos,
        0 <= more,
    ensures
        tick_of(nanos, tick_ms) <= tick_of(nanos + more, tick_ms),
{
    let a = clock::millis_of(nanos) as int;
    let b = clock::millis_of(nanos + more) as int;
    assert(a <= b);
    let t = tick_ms as int;
    let x = if a + t / 2 > u64::MAX {
        u64::MAX as int
    } else {
        a + t / 2
    };
    let y = if b + t / 2 > u64::MAX {
        u64::MAX as int
    } else {
        b + t / 2
    };
    assert(x / t <= y / t <= u64::MAX && 0 <= x / t) by (nonlinear_arith)
        requires
            0 <= x <= y <= u64::MAX,
            t > 0,
    ;
}

/// A timeout that was set for `delay` does not fire before its delay has passed,
/// to the tick: polling at a moment whose tick is before that of the end of the
/// delay hands it out only if it was due already at the tick that the timer had
/// come to.
pub proof fn law_does_not_fire_early<T>(
    before: Timer<T>,
    timeout: Timeout,
    set_at: int,
    delay: int,
    polling: Timer<T>,
    after: Timer<T>,
    polled_at: int,
    state: Option<T>,
)
    requires
        timeout.due() == before.due_tick(clock::saturated_nanos(set_at + delay)),
        polling.same_wheel(before),
        polling.wf(),
        polling.holds(timeout),
        polling.current() < timeout.due(),
        polling.poll_tick(polled_at) < tick_of(
            clock::saturated_nanos(set_at + delay),
            before.tick_length(),
        ),
        after.polled(polling, polling.poll_tick(polled_at), state),
    ensures
        after.holds(timeout),
{
    if state is Some {
        let slot = polling.slot(after.current());
        let fired = polling.slots()[slot][after.looked_at()];
        assert(polling.pending()[fired].0 == after.current());
    }
}

/// A timeout that was set for `delay` fires once its delay has passed: as long
/// as it is pending, and the timer has moved on since it was set, polling at a
/// moment that is not before the end of the delay hands something out.
pub proof fn law_fires_in_time<T>(
    before: Timer<T>,
    timeout: Timeout,
    set_at: int,
    delay: int,
    polling: Timer<T>,
    after: Timer<T>,
    polled_at: int,
    state: Option<T>,
)
    requires
        before.wf(),
        timeout.due() == before.due_tick(clock::saturated_nanos(set_at + delay)),
        timeout.due() < TICK_MAX,
        polling.same_wheel(before),
        polling.holds(timeout),
        polling.current() > before.current(),
        0 <= clock::saturated_nanos(set_at + delay) <= polled_at,
        after.polled(polling, polling.poll_tick(polled_at), state),
    ensures
        state is Some,
{
    let end = clock::saturated_nanos(set_at + delay);
    lemma_ticks_in_order(end, polled_at - end, before.tick_length());
    if state is None {
        assert(polling.pending().dom().contains(timeout.key()));
        assert(timeout.due() >= after.current());
    }
}

/// The tick of a moment is the nearest one, with halves rounded up: that many
/// ticks lie at most half a tick behind the moment in whole milliseconds, and
/// less than half a tick ahead of it. The moment itself is rounded up to
/// milliseconds.
pub proof fn law_a_moment_has_the_nearest_tick(nanos: int, tick_ms: u64)
    requires
        tick_ms > 0,
        0 <= nanos,
        nanos / 1_000_000 + 1 + tick_ms <= u64::MAX,
    ensures
        ({
            let tick = tick_of(nanos, tick_ms) as int;
            let ms = clock::millis_of(nanos) as int;
            &&& (ms - 1) * 1_000_000 < nanos <= ms * 1_000_000
            &&& tick * tick_ms <= ms + tick_ms / 2 < (tick + 1) * tick_ms
        }),
{
    let ms = clock::millis_of(nanos) as int;
    let t = tick_ms as int;
    let x = ms + t / 2;
    assert((x / t) * t <= x < (x / t + 1) * t && 0 <= x / t <= x) by (nonlinear_arith)
        requires
            t > 0,
            x >= 0,
    ;
}

/// A timeout is due at the tick of its moment, unless that is not ahead: then at
/// the next tick. So it is never due at once, nor in the past.
pub proof fn law_a_timeout_is_due_ahead<T>(timer: Timer<T>, nanos: int)
    ensures
        timer.due_tick(nanos) > timer.current(),
        tick_of(nanos, timer.tick_length()) > timer.current() ==> timer.due_tick(nanos)
            == tick_of(nanos, timer.tick_length()),
        tick_of(nanos, timer.tick_length()) <= timer.current() ==> timer.due_tick(nanos)
            == timer.current() + 1,
{
}

/// Polling at a moment moves on to its tick.
pub proof fn law_polling_moves_on_to_the_moment<T>(timer: Timer<T>, nanos: int)
    ensures
        tick_of(nanos, timer.tick_length()) < u64::MAX ==> timer.poll_tick(nanos) == tick_of(
            nanos,
            timer.tick_length(),
        ),
        tick_of(nanos, timer.tick_length()) == u64::MAX ==> timer.poll_tick(nanos)
            == u64::MAX - 1,
{
}

/// Setting a timeout keeps all others, and gives it a key that none of them has;
/// taking one out keeps all others too.
pub proof fn law_other_timeouts_stay<T>(
    before: Timer<T>,
    after: Timer<T>,
    timeout: Timeout,
    state: T,
    gone: usize,
    key: usize,
)
    ensures
        after.inserted(before, timeout, state) ==> {
            &&& !before.pending().dom().contains(timeout.key())
            &&& after.pending().dom().contains(timeout.key())
            &&& after.pending()[timeout.key()] == (timeout.due(), state)
            &&& key != timeout.key() ==> (after.pending().dom().contains(key)
                <==> before.pending().dom().contains(key))
            &&& key != timeout.key() && after.pending().dom().contains(key)
                ==> after.pending()[key] == before.pending()[key]
            &&& after.current() == before.current()
        },
        after.removed(before, gone) ==> {
            &&& before.pending().dom().contains(gone)
            &&& !after.pending().dom().contains(gone)
            &&& key != gone ==> (after.pending().dom().contains(key)
                <==> before.pending().dom().contains(key))
            &&& key != gone && after.pending().dom().contains(key) ==> after.pending()[key]
                == before.pending()[key]
            &&& after.current() == before.current()
        },
{
}

/// Polling hands out one timeout at most, which is due at the tick that the timer
/// comes to, no later than asked for; all others stay pending, and none of them
/// is overdue. If nothing is handed out, nothing is due at the tick that was
/// asked for or before, and the timer has moved past it.
pub proof fn law_what_polling_hands_out<T>(
    before: Timer<T>,
    after: Timer<T>,
    target: u64,
    state: Option<T>,
    key: usize,
)
    requires
        after.polled(before, target, state),
        before.pending().dom().contains(key),
    ensures
        before.pending()[key].0 >= after.current(),
        after.current() >= before.current(),
        state is None ==> {
            &&& after.pending() == before.pending()
            &&& before.pending()[key].0 > target
            &&& after.current() > target
        },
        state is Some ==> {
            &&& after.current() <= target || after.current() == before.current()
            &&& exists|k: usize| #[trigger]
                before.pending().dom().contains(k) && before.pending()[k] == (
                    after.current(),
                    state->0,
                ) && after.pending() == before.pending().remove(k)
        },
{
    if state is Some {
        let slot = before.slot(after.current());
        let k = before.slots()[slot][after.looked_at()];
        assert(before.pending().dom().contains(k));
    }
}

/// The date of a tick is as many ticks behind the start as the tick says.
pub proof fn law_ticks_are_evenly_spaced<T>(timer: Timer<T>, tick: u64)
    ensures
        timer.poll_millis(0) == 0,
        tick > 0 ==> timer.poll_millis(tick) == timer.poll_millis((tick - 1) as u64)
            + timer.tick_length(),
{
    if tick > 0 {
        let t = timer.tick_length() as int;
        let n = tick as int;
        assert(t * n == t * (n - 1) + t) by (nonlinear_arith);
    }
}

/// A timeout is held as long as it is pending at the tick that it was set for.
/// Without it, all others are as they were; without one that is not held, so is
/// everything.
pub proof fn law_only_a_held_timeout_is_taken_out(
    pending: Map<usize, (u64, Token)>,
    timeout: Timeout,
    key: usize,
)
    ensures
        ({
            let rest = without(pending, Some(timeout));
            let held = pending.dom().contains(timeout.key()) && pending[timeout.key()].0
                == timeout.due();
            &&& held ==> !rest.dom().contains(timeout.key())
            &&& !held ==> rest == pending
            &&& key != timeout.key() ==> (rest.dom().contains(key)
                <==> pending.dom().contains(key))
            &&& key != timeout.key() && rest.dom().contains(key) ==> rest[key] == pending[key]
        }),
        without(pending, None) == pending,
{
}

/// What stays of a timer: the length of its ticks, its start and its slots.
pub proof fn law_a_timer_keeps_its_wheel<T>(after: Timer<T>, before: Timer<T>, timeout: Timeout)
    ensures
        after.same_wheel(before) ==> {
            &&& after.tick_length() == before.tick_length()
            &&& after.origin() == before.origin()
            &&& after.slots().len() == before.slots().len()
        },
        before.holds(timeout) <==> before.pending().dom().contains(timeout.key())
            && before.pending()[timeout.key()].0 == timeout.due(),
{
}

proof fn lemma_powers_lie_apart(q: int, p: int)
    requires
        is_pow2(q),
        is_pow2(p),
        q < p,
    ensures
        q <= p / 2,
    decreases p,
{
    reveal(is_pow2);
    if q > 1 {
        lemma_powers_lie_apart(q / 2, p / 2);
    }
}

/// The wheel has as few slots as a power of two allows: there are no fewer than
/// asked for, and no lesser power of two would do.
pub proof fn law_the_wheel_is_as_small_as_can_be(p: int, n: int, q: int)
    requires
        is_next_power_of_two(p, n),
        is_pow2(q),
    ensures
        is_pow2(p),
        n <= p,
        n <= q ==> p <= q,
{
    reveal(is_pow2);
    if q < p {
        lemma_powers_lie_apart(q, p);
    }
}

} // verus!
