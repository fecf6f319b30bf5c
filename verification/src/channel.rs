//! Bounded multi-producer multi-consumer channel core, backed by a
//! preallocated ring of slots.
//!
//! The design follows Vyukov's bounded queue: each slot carries a *stamp*
//! packing a lap and an index into one machine word, and the `head` and
//! `tail` positions are stamps as well. A slot whose stamp equals the tail
//! is the next to be written; one whose stamp equals the head is the next
//! to be read. The head's lap is always odd and the tail's lap always even,
//! which disambiguates the `head == tail` case. Only adjacent-lap relations
//! are ever tested, so laps advance modulo four laps: two rounds of the
//! ring cover every lap parity a stamp can be compared against, and all
//! stamp arithmetic stays exact (no machine-word wraparound to reason
//! about). Capacity is bounded by a quarter of the machine word so that a
//! stamp of any of the four laps fits.

use vstd::prelude::*;
use vstd::pervasive::VecAdditionalExecFns;

use crate::errors::TryRecvError;
use crate::errors::TrySendError;

verus! {

/// One cell of the ring: a message and the stamp that tells whose turn the
/// cell is. The cell holds a message exactly when its stamp is one lap
/// ahead of the lap at which the tail last visited it.
struct Slot<T> {
    /// If the stamp equals the tail, this slot is next written to. If it
    /// equals the head, it is next read from.
    stamp: usize,
    /// The message, if the slot is occupied.
    value: Option<T>,
}

/// The token a reservation hands to the follow-up commit (`write` or
/// `read`). A token with no slot is the closed-channel sentinel.
pub struct ArrayToken {
    /// Index of the reserved slot, or `None` when the channel was observed
    /// closed (and, for receivers, empty).
    slot: Option<usize>,
    /// Stamp to publish into the slot when the operation commits.
    stamp: usize,
}

impl ArrayToken {
    /// The reserved slot, if any.
    pub closed spec fn spec_slot(&self) -> Option<usize> {
        self.slot
    }

    /// The stamp the commit will publish.
    pub closed spec fn spec_stamp(&self) -> int {
        self.stamp as int
    }
}

impl Default for ArrayToken {
    /// A fresh token, holding no reservation.
    fn default() -> (r: Self)
        ensures
            r.spec_slot() is None,
            r.spec_stamp() == 0,
    {
        ArrayToken { slot: None, stamp: 0 }
    }
}

/// Bounded channel on a preallocated ring of `cap` slots.
///
/// `head` and `tail` are stamps: `lap + index` with `0 <= index < cap` and
/// `lap` a multiple of `one_lap` (the capacity rounded up to a power of
/// two). The lap of `head` is odd, the lap of `tail` even; laps advance by
/// two (modulo four laps) each time a position wraps around the ring.
pub struct Channel<T> {
    /// Stamp of the next slot to read from. Its lap is `one_lap` or
    /// `3 * one_lap`.
    head: usize,
    /// Stamp of the next slot to write to. Its lap is `0` or `2 * one_lap`.
    tail: usize,
    /// The ring of slots; its length is exactly `cap`.
    buffer: Vec<Slot<T>>,
    /// The channel capacity.
    cap: usize,
    /// The stamp `{ lap: 1, index: 0 }`: the capacity rounded up to the
    /// next power of two, so an index occupies the low bits of a stamp.
    one_lap: usize,
    /// Set once by `close`; never cleared.
    closed: bool,
    /// History of every message committed by a send, in commit order.
    sent: Ghost<Seq<T>>,
    /// How many messages of `sent` have been committed by a receive.
    taken: Ghost<int>,
}

impl<T> View for Channel<T> {
    type V = Seq<T>;

    /// The queue of messages currently held, oldest first: the suffix of
    /// the send history that has not been received yet.
    closed spec fn view(&self) -> Seq<T> {
        self.sent@.skip(self.taken@)
    }
}

impl<T> Channel<T> {
    /// The lap unit, as a mathematical integer.
    spec fn lap_unit(&self) -> int {
        self.one_lap as int
    }

    /// The lap base of stamp `s`: the greatest multiple of the lap unit
    /// not exceeding it, for stamps below four laps.
    spec fn lap_of(&self, s: int) -> int {
        if s < self.lap_unit() {
            0
        } else if s < 2 * self.lap_unit() {
            self.lap_unit()
        } else if s < 3 * self.lap_unit() {
            2 * self.lap_unit()
        } else {
            3 * self.lap_unit()
        }
    }

    /// The index component of stamp `s`.
    spec fn ix_of(&self, s: int) -> int {
        s - self.lap_of(s)
    }

    /// A lap base advanced by two laps, wrapping past four.
    spec fn two_laps_on(&self, lap: int) -> int {
        if lap + 2 * self.lap_unit() < 4 * self.lap_unit() {
            lap + 2 * self.lap_unit()
        } else {
            lap + 2 * self.lap_unit() - 4 * self.lap_unit()
        }
    }

    spec fn hix(&self) -> int {
        self.ix_of(self.head as int)
    }

    spec fn tix(&self) -> int {
        self.ix_of(self.tail as int)
    }

    spec fn hlap(&self) -> int {
        self.lap_of(self.head as int)
    }

    spec fn tlap(&self) -> int {
        self.lap_of(self.tail as int)
    }

    /// True while the tail is on the round the head is draining: the
    /// head's lap is one ahead of the tail's. Otherwise the tail has
    /// wrapped and sits one lap ahead of the head.
    spec fn same_round(&self) -> bool {
        self.hlap() == self.tlap() + self.lap_unit()
    }

    /// Number of messages held, read off the two stamps.
    spec fn count(&self) -> int {
        if self.same_round() {
            self.tix() - self.hix()
        } else {
            self.cap as int + self.tix() - self.hix()
        }
    }

    /// Offset of ring position `j` from the head, going forward around
    /// the ring.
    spec fn woff(&self, j: int) -> int {
        if j >= self.hix() {
            j - self.hix()
        } else {
            j + self.cap as int - self.hix()
        }
    }

    /// Ring position `j` holds a message: it lies within `count` positions
    /// from the head.
    spec fn full_at(&self, j: int) -> bool {
        self.woff(j) < self.count()
    }

    /// Stamp an occupied slot at position `j` must carry: the head's own
    /// lap while the head has not wrapped past `j`, two laps back
    /// otherwise.
    spec fn full_stamp(&self, j: int) -> int {
        if j >= self.hix() {
            self.hlap() + j
        } else {
            self.two_laps_on(self.hlap()) + j
        }
    }

    /// Stamp a free slot at position `j` must carry, relative to the tail.
    spec fn empty_stamp(&self, j: int) -> int {
        if j >= self.tix() {
            self.tlap() + j
        } else {
            self.two_laps_on(self.tlap()) + j
        }
    }

    /// The slot at ring position `j` agrees with the stamp protocol and,
    /// when occupied, holds the message the history says it does.
    spec fn slot_ok(&self, j: int) -> bool {
        if self.full_at(j) {
            &&& self.buffer@[j].stamp as int == self.full_stamp(j)
            &&& self.buffer@[j].value == Some(self.sent@[self.taken@ + self.woff(j)])
        } else {
            &&& self.buffer@[j].stamp as int == self.empty_stamp(j)
            &&& self.buffer@[j].value is None
        }
    }

    /// Well-formedness: the invariant every operation preserves.
    pub closed spec fn wf(&self) -> bool {
        &&& 1 <= self.cap as int <= self.lap_unit()
        &&& 4 * self.lap_unit() - 1 <= usize::MAX as int
        &&& self.buffer@.len() == self.cap as int
        &&& (self.head as int) < 4 * self.lap_unit()
        &&& (self.tail as int) < 4 * self.lap_unit()
        &&& (self.hlap() == self.lap_unit() || self.hlap() == 3 * self.lap_unit())
        &&& (self.tlap() == 0 || self.tlap() == 2 * self.lap_unit())
        &&& self.hix() < self.cap as int
        &&& self.tix() < self.cap as int
        &&& (if self.same_round() {
            self.tix() >= self.hix()
        } else {
            &&& (self.tlap() == 0 && self.hlap() == 3 * self.lap_unit()) || (self.tlap() == 2
                * self.lap_unit() && self.hlap() == self.lap_unit())
            &&& self.tix() <= self.hix()
        })
        &&& 0 <= self.taken@ <= self.sent@.len()
        &&& self.sent@.len() - self.taken@ == self.count()
        &&& forall|j: int| 0 <= j < self.cap as int ==> #[trigger] self.slot_ok(j)
    }

    /// The configured capacity.
    pub closed spec fn spec_cap(&self) -> int {
        self.cap as int
    }

    /// Whether `close` has been called.
    pub closed spec fn spec_closed(&self) -> bool {
        self.closed
    }

    /// Every message a send has committed, in commit order.
    pub closed spec fn spec_sent(&self) -> Seq<T> {
        self.sent@
    }

    /// Every message a receive has committed, in commit order.
    pub closed spec fn spec_received(&self) -> Seq<T> {
        self.sent@.take(self.taken@)
    }

    /// Creates a bounded channel of capacity `cap`.
    ///
    /// The capacity must be positive and leave two spare high bits in a
    /// machine word, so that a stamp of any lap fits.
    pub fn with_capacity(cap: usize) -> (r: Self)
        requires
            1 <= cap,
            cap as int <= usize::MAX as int / 4,
        ensures
            r.wf(),
            r@ == Seq::<T>::empty(),
            r.spec_cap() == cap as int,
            !r.spec_closed(),
            r.spec_sent() == Seq::<T>::empty(),
            r.spec_received() == Seq::<T>::empty(),
    {
        // One lap is the smallest power of two greater than or equal to
        // `cap`. `lap_limit` is the largest lap unit that leaves two spare
        // high bits; doubling is capped there so no step overflows.
        let lap_limit: usize = (usize::MAX - 3) / 4 + 1;
        proof {
            vstd::arithmetic::div_mod::lemma_fundamental_div_mod(usize::MAX as int, 4);
            vstd::arithmetic::div_mod::lemma_fundamental_div_mod(usize::MAX as int - 3, 4);
            vstd::arithmetic::div_mod::lemma_mod_bound(usize::MAX as int, 4);
            vstd::arithmetic::div_mod::lemma_mod_bound(usize::MAX as int - 3, 4);
            assert(cap as int <= lap_limit as int);
        }
        let mut one_lap: usize = 1;
        while one_lap < cap
            invariant
                1 <= one_lap,
                one_lap <= lap_limit,
                lap_limit == (usize::MAX - 3) / 4 + 1,
                cap <= lap_limit,
                cap as int <= usize::MAX as int / 4,
            decreases lap_limit as int - one_lap as int,
        {
            if one_lap <= lap_limit / 2 {
                one_lap = one_lap * 2;
            } else {
                one_lap = lap_limit;
            }
        }

        // Every slot starts empty, stamped with its own index: lap zero,
        // the lap at which the tail will first visit it.
        let mut buffer: Vec<Slot<T>> = Vec::new();
        let mut i: usize = 0;
        while i < cap
            invariant
                i <= cap,
                buffer@.len() == i as int,
                forall|j: int|
                    0 <= j < i as int ==> (#[trigger] buffer@[j]).stamp as int == j
                        && buffer@[j].value is None,
            decreases cap as int - i as int,
        {
            buffer.push(Slot { stamp: i, value: None });
            i = i + 1;
        }

        // Head starts at `{ lap: 1, index: 0 }`, tail at `{ lap: 0,
        // index: 0 }`: the channel is empty.
        let r = Channel {
            head: one_lap,
            tail: 0,
            buffer,
            cap,
            one_lap,
            closed: false,
            sent: Ghost(Seq::empty()),
            taken: Ghost(0),
        };
        proof {
            assert(r.hlap() == r.lap_unit());
            assert(r.tlap() == 0);
            assert forall|j: int| 0 <= j < r.cap as int implies #[trigger] r.slot_ok(j) by {
                assert(!r.full_at(j));
                assert(r.empty_stamp(j) == j);
            }
            assert(r@ =~= Seq::<T>::empty());
            assert(r.spec_received() =~= Seq::<T>::empty());
        }
        r
    }

    /// Builds a channel of capacity `cap`, or returns `None` exactly when
    /// the capacity is out of range: zero, or so large that a stamp could
    /// not spare two high bits for the lap.
    pub fn with_capacity_checked(cap: usize) -> (r: Option<Self>)
        ensures
            r is Some <==> (1 <= cap && cap as int <= usize::MAX as int / 4),
            r matches Some(ch) ==> ch.wf() && ch@ == Seq::<T>::empty() && ch.spec_cap()
                == cap as int && !ch.spec_closed() && ch.spec_sent() == Seq::<T>::empty(),
    {
        if 1 <= cap && cap <= usize::MAX / 4 {
            Some(Self::with_capacity(cap))
        } else {
            None
        }
    }

    /// The capacity of the channel.
    pub fn capacity(&self) -> (c: Option<usize>)
        ensures
            c matches Some(n) && n as int == self.spec_cap(),
    {
        Some(self.cap)
    }

    /// Closes the channel. Idempotent: the flag is monotonic. After this,
    /// sends fail with `Disconnected` and receives drain what is queued,
    /// then fail with `Disconnected`.
    pub fn close(&mut self)
        requires
            old(self).wf(),
        ensures
            final(self).wf(),
            final(self).spec_closed(),
            final(self)@ == old(self)@,
            final(self).spec_cap() == old(self).spec_cap(),
            final(self).spec_sent() == old(self).spec_sent(),
            final(self).spec_received() == old(self).spec_received(),
    {
        self.closed = true;
        proof {
            assert forall|j: int| 0 <= j < self.cap as int implies #[trigger] self.slot_ok(j) by {
                assert(old(self).slot_ok(j));
            }
        }
    }

    /// Whether the channel is closed.
    pub fn is_closed(&self) -> (r: bool)
        ensures
            r == self.spec_closed(),
    {
        self.closed
    }

    /// A token a successful send reservation carries: the slot at the tail
    /// and the stamp one lap ahead of the tail, to be published by the
    /// commit. Such a token exists only while the channel has room.
    pub closed spec fn send_token_ok(&self, token: ArrayToken) -> bool {
        &&& token.slot == Some(self.tix() as usize)
        &&& token.stamp as int == self.tlap() + self.lap_unit() + self.tix()
        &&& self.count() < self.cap as int
    }

    /// A token a successful receive reservation carries: the slot at the
    /// head and the stamp one lap ahead of the head (wrapping past four
    /// laps). Such a token exists only while a message is queued.
    pub closed spec fn recv_token_ok(&self, token: ArrayToken) -> bool {
        &&& token.slot == Some(self.hix() as usize)
        &&& token.stamp as int == (if self.hlap() == self.lap_unit() {
            2 * self.lap_unit()
        } else {
            0
        }) + self.hix()
        &&& self.count() > 0
    }

    /// What the stamp protocol says about the slot at the tail: free and
    /// stamped with the tail itself while there is room, otherwise still
    /// holding last lap's message and stamped with the head.
    proof fn lemma_tail_slot(&self)
        requires
            self.wf(),
        ensures
            0 <= self.count() <= self.cap as int,
            self.count() < self.cap as int ==> !self.full_at(self.tix()) && self.buffer@[self.tix()].stamp as int == self.tail as int,
            self.count() == self.cap as int ==> self.full_at(self.tix()) && self.buffer@[self.tix()].stamp as int == self.head as int,
            self.head != self.tail,
    {
        assert(self.slot_ok(self.tix()));
        if self.count() < self.cap as int {
            assert(self.woff(self.tix()) == self.count());
        } else {
            assert(self.tix() == self.hix());
            assert(self.woff(self.tix()) == 0);
        }
    }

    /// What the stamp protocol says about the slot at the head: holding
    /// the oldest message and stamped with the head itself while any
    /// message is queued, otherwise free and stamped with the tail.
    proof fn lemma_head_slot(&self)
        requires
            self.wf(),
        ensures
            0 <= self.count() <= self.cap as int,
            self.count() > 0 ==> self.full_at(self.hix()) && self.buffer@[self.hix()].stamp as int == self.head as int && self.buffer@[self.hix()].value == Some(self.sent@[self.taken@]),
            self.count() == 0 ==> self.buffer@[self.hix()].stamp as int == self.tail as int,
            self.head != self.tail,
    {
        assert(self.slot_ok(self.hix()));
        if self.count() > 0 {
            assert(self.woff(self.hix()) == 0);
        } else {
            assert(self.tix() == self.hix());
        }
    }

    /// Attempts to reserve the slot at the tail for a send.
    ///
    /// Returns `true` with a filled token when the reservation succeeded,
    /// or — when the channel is closed — with the sentinel token, which
    /// makes the follow-up `write` report the disconnect. Returns `false`
    /// when the channel is full.
    pub fn start_send(&self, token: &mut ArrayToken) -> (ready: bool)
        requires
            self.wf(),
        ensures
            ready == (self.spec_closed() || self@.len() < self.spec_cap()),
            ready && self.spec_closed() ==> final(token).spec_slot() is None,
            ready && !self.spec_closed() ==> self.send_token_ok(*final(token)),
            !ready ==> self@.len() == self.spec_cap(),
    {
        // A closed channel refuses the reservation outright.
        if self.closed {
            token.slot = None;
            token.stamp = 0;
            return true;
        }
        proof {
            self.lemma_tail_slot();
        }
        // Deconstruct the tail: its lap is zero or two, so one comparison
        // recovers the index.
        let two_laps: usize = 2 * self.one_lap;
        let tix: usize = if self.tail >= two_laps {
            self.tail - two_laps
        } else {
            self.tail
        };
        let stamp: usize = self.buffer[tix].stamp;
        if stamp == self.tail {
            // The slot is free on the tail's lap: reserve it and carry the
            // stamp one lap ahead, to be published by the commit.
            token.slot = Some(tix);
            token.stamp = stamp + self.one_lap;
            true
        } else {
            // The slot still holds last lap's message: the head lags one
            // lap behind the tail, so the channel is full.
            false
        }
    }

    /// Commits a reserved send: writes the message, publishes the token's
    /// stamp and advances the tail past the slot.
    ///
    /// With the sentinel token (closed channel) nothing is written and the
    /// message is handed back.
    pub fn write(&mut self, token: &ArrayToken, msg: T) -> (r: Result<(), T>)
        requires
            old(self).wf(),
            token.spec_slot() is Some ==> old(self).send_token_ok(*token),
        ensures
            final(self).wf(),
            final(self).spec_cap() == old(self).spec_cap(),
            final(self).spec_closed() == old(self).spec_closed(),
            token.spec_slot() is None ==> r == Err::<(), T>(msg) && *final(self) == *old(self),
            token.spec_slot() is Some ==> r == Ok::<(), T>(()) && final(self)@ == old(self)@.push(msg) && final(self).spec_sent() == old(self).spec_sent().push(msg) && final(self).spec_received() == old(self).spec_received(),
            final(self).spec_head_stamp() == old(self).spec_head_stamp(),
            token.spec_slot() is Some ==> final(self).spec_tail_stamp() != old(self).spec_tail_stamp(),
    {
        match token.slot {
            None => Err(msg),
            Some(ix) => {
                proof {
                    old(self).lemma_tail_slot();
                }
                // Advance the tail: same lap while the index stays below
                // `cap`; on wraparound the index returns to zero and the
                // lap advances by two, keeping its parity.
                let new_tail: usize = if ix + 1 < self.cap {
                    self.tail + 1
                } else if self.tail >= 2 * self.one_lap {
                    0
                } else {
                    2 * self.one_lap
                };
                let ghost m = msg;
                self.sent = Ghost(self.sent@.push(msg));
                self.buffer.set(ix, Slot { stamp: token.stamp, value: Some(msg) });
                self.tail = new_tail;
                proof {
                    self.lemma_write_commit(*old(self), *token, m);
                }
                Ok(())
            },
        }
    }

    /// The send commit re-establishes the invariant and pushes the message
    /// onto the queue.
    proof fn lemma_write_commit(&self, pre: Self, token: ArrayToken, m: T)
        requires
            pre.wf(),
            pre.send_token_ok(token),
            self.head == pre.head,
            self.cap == pre.cap,
            self.one_lap == pre.one_lap,
            self.closed == pre.closed,
            self.taken@ == pre.taken@,
            self.sent@ == pre.sent@.push(m),
            self.buffer@ == pre.buffer@.update(pre.tix(), self.buffer@[pre.tix()]),
            self.buffer@[pre.tix()].stamp == token.stamp,
            self.buffer@[pre.tix()].value == Some(m),
            self.tail as int == (if pre.tix() + 1 < pre.cap as int {
                pre.tail as int + 1
            } else if pre.tlap() == 2 * pre.lap_unit() {
                0
            } else {
                2 * pre.lap_unit()
            }),
        ensures
            self.wf(),
            self@ == pre@.push(m),
            self.spec_received() == pre.spec_received(),
    {
        let c = pre.cap as int;
        let t = pre.tix();
        if t + 1 < c {
            assert(self.tlap() == pre.tlap());
            assert(self.tix() == t + 1);
        } else {
            // Wraparound: a full round from a tail already ahead of the
            // head would mean the ring was full, so the round was shared.
            assert(pre.same_round());
            assert(self.tix() == 0);
            assert(self.tlap() == pre.two_laps_on(pre.tlap()));
        }
        assert(self.count() == pre.count() + 1);
        assert forall|j: int| 0 <= j < c implies #[trigger] self.slot_ok(j) by {
            assert(pre.slot_ok(j));
            assert(self.woff(j) == pre.woff(j));
            if j == t {
                assert(self.woff(j) == pre.count());
                assert(self.full_at(j));
                assert(self.full_stamp(j) == token.stamp as int);
            } else {
                assert(self.buffer@[j] == pre.buffer@[j]);
                assert(pre.woff(j) == pre.count() ==> j == t);
                assert(self.full_at(j) == pre.full_at(j));
                if pre.full_at(j) {
                    assert(self.full_stamp(j) == pre.full_stamp(j));
                    assert(self.sent@[self.taken@ + self.woff(j)] == pre.sent@[pre.taken@
                        + pre.woff(j)]);
                } else {
                    assert(self.empty_stamp(j) == pre.empty_stamp(j));
                }
            }
        }
        assert(self@ =~= pre@.push(m));
        assert(self.spec_received() =~= pre.spec_received());
    }

    /// Attempts to reserve the slot at the head for a receive.
    ///
    /// Returns `true` with a filled token when a message is queued, or —
    /// when the channel is closed and drained — with the sentinel token,
    /// which makes the follow-up `read` report the disconnect. Returns
    /// `false` when the channel is empty but still open.
    pub fn start_recv(&self, token: &mut ArrayToken) -> (ready: bool)
        requires
            self.wf(),
        ensures
            ready == (self@.len() > 0 || self.spec_closed()),
            ready && self@.len() > 0 ==> self.recv_token_ok(*final(token)),
            ready && self@.len() == 0 ==> final(token).spec_slot() is None,
            !ready ==> self@.len() == 0 && !self.spec_closed(),
    {
        proof {
            self.lemma_head_slot();
        }
        // Deconstruct the head: its lap is one or three, so one comparison
        // recovers the index.
        let three_laps: usize = 3 * self.one_lap;
        let hix: usize = if self.head >= three_laps {
            self.head - three_laps
        } else {
            self.head - self.one_lap
        };
        let stamp: usize = self.buffer[hix].stamp;
        if stamp == self.head {
            // The slot holds the oldest message: reserve it and carry the
            // stamp one lap ahead (wrapping past four laps), to be
            // published by the commit.
            token.slot = Some(hix);
            token.stamp = if self.head >= three_laps {
                self.head - three_laps
            } else {
                self.head + self.one_lap
            };
            true
        } else {
            // The slot is still empty on the head's lap: the tail lags one
            // lap behind the head, so the channel is empty.
            if self.closed {
                token.slot = None;
                token.stamp = 0;
                true
            } else {
                false
            }
        }
    }

    /// Commits a reserved receive: moves the message out, publishes the
    /// token's stamp and advances the head past the slot.
    ///
    /// With the sentinel token (closed and drained channel) an error is
    /// returned instead.
    pub fn read(&mut self, token: &ArrayToken) -> (r: Result<T, ()>)
        requires
            old(self).wf(),
            token.spec_slot() is Some ==> old(self).recv_token_ok(*token),
        ensures
            final(self).wf(),
            final(self).spec_cap() == old(self).spec_cap(),
            final(self).spec_closed() == old(self).spec_closed(),
            token.spec_slot() is None ==> r == Err::<T, ()>(()) && *final(self) == *old(self),
            token.spec_slot() is Some ==> old(self)@.len() > 0 && r == Ok::<T, ()>(old(self)@[0]) && final(self)@ == old(self)@.skip(1) && final(self).spec_sent() == old(self).spec_sent() && final(self).spec_received() == old(self).spec_received().push(old(self)@[0]),
            final(self).spec_tail_stamp() == old(self).spec_tail_stamp(),
            token.spec_slot() is Some ==> final(self).spec_head_stamp() != old(self).spec_head_stamp(),
    {
        match token.slot {
            None => Err(()),
            Some(ix) => {
                proof {
                    old(self).lemma_head_slot();
                }
                // Advance the head: same lap while the index stays below
                // `cap`; on wraparound the index returns to zero and the
                // lap advances by two, keeping its parity.
                let new_head: usize = if ix + 1 < self.cap {
                    self.head + 1
                } else if self.head >= 3 * self.one_lap {
                    self.one_lap
                } else {
                    3 * self.one_lap
                };
                // Move the message out, leaving the slot free and stamped
                // one lap ahead for the tail's next visit.
                let mut slot = Slot { stamp: token.stamp, value: None };
                self.buffer.set_and_swap(ix, &mut slot);
                self.head = new_head;
                self.taken = Ghost(self.taken@ + 1);
                proof {
                    self.lemma_read_commit(*old(self), *token);
                }
                match slot.value {
                    Some(m) => Ok(m),
                    None => vstd::pervasive::unreached(),
                }
            },
        }
    }

    /// The receive commit re-establishes the invariant and pops the oldest
    /// message off the queue.
    proof fn lemma_read_commit(&self, pre: Self, token: ArrayToken)
        requires
            pre.wf(),
            pre.recv_token_ok(token),
            self.tail == pre.tail,
            self.cap == pre.cap,
            self.one_lap == pre.one_lap,
            self.closed == pre.closed,
            self.taken@ == pre.taken@ + 1,
            self.sent@ == pre.sent@,
            self.buffer@ == pre.buffer@.update(pre.hix(), self.buffer@[pre.hix()]),
            self.buffer@[pre.hix()].stamp == token.stamp,
            self.buffer@[pre.hix()].value is None,
            self.head as int == (if pre.hix() + 1 < pre.cap as int {
                pre.head as int + 1
            } else if pre.hlap() == 3 * pre.lap_unit() {
                pre.lap_unit()
            } else {
                3 * pre.lap_unit()
            }),
        ensures
            self.wf(),
            self@ == pre@.skip(1),
            self.spec_received() == pre.spec_received().push(pre@[0]),
    {
        let c = pre.cap as int;
        let h = pre.hix();
        if h + 1 < c {
            assert(self.hlap() == pre.hlap());
            assert(self.hix() == h + 1);
        } else {
            // Wraparound of the head: the round it was draining is done.
            assert(self.hix() == 0);
            assert(self.hlap() == pre.two_laps_on(pre.hlap()));
        }
        assert(self.count() == pre.count() - 1);
        assert forall|j: int| 0 <= j < c implies #[trigger] self.slot_ok(j) by {
            assert(pre.slot_ok(j));
            if j == h {
                assert(!self.full_at(j));
                assert(self.empty_stamp(j) == token.stamp as int);
            } else {
                assert(self.buffer@[j] == pre.buffer@[j]);
                assert(self.woff(j) == pre.woff(j) - 1);
                if pre.full_at(j) {
                    assert(self.full_at(j));
                    assert(self.full_stamp(j) == pre.full_stamp(j));
                    assert(self.sent@[self.taken@ + self.woff(j)] == pre.sent@[pre.taken@
                        + pre.woff(j)]);
                } else {
                    assert(!self.full_at(j));
                    assert(self.empty_stamp(j) == pre.empty_stamp(j));
                }
            }
        }
        assert(self@ =~= pre@.skip(1));
        assert(self.spec_received() =~= pre.spec_received().push(pre@[0]));
    }

    /// Attempts to send a message without blocking.
    ///
    /// Commits the message at the tail, or fails with `Full` when `cap`
    /// messages are queued, or with `Disconnected` when the channel is
    /// closed. In either failure the caller keeps the message and the
    /// channel is unchanged.
    pub fn try_send(&mut self, msg: T) -> (r: Result<(), TrySendError<T>>)
        requires
            old(self).wf(),
        ensures
            final(self).wf(),
            final(self).spec_cap() == old(self).spec_cap(),
            final(self).spec_closed() == old(self).spec_closed(),
            old(self).spec_closed() ==> r == Err::<(), TrySendError<T>>(
                TrySendError::Disconnected(msg),
            ) && *final(self) == *old(self),
            !old(self).spec_closed() && old(self)@.len() == old(self).spec_cap() ==> r == Err::<
                (),
                TrySendError<T>,
            >(TrySendError::Full(msg)) && *final(self) == *old(self),
            !old(self).spec_closed() && old(self)@.len() < old(self).spec_cap() ==> r == Ok::<
                (),
                TrySendError<T>,
            >(()) && final(self)@ == old(self)@.push(msg) && final(self).spec_sent() == old(
                self,
            ).spec_sent().push(msg) && final(self).spec_received() == old(self).spec_received(),
    {
        let mut token = ArrayToken::default();
        if self.start_send(&mut token) {
            match self.write(&token, msg) {
                Ok(()) => Ok(()),
                Err(m) => Err(TrySendError::Disconnected(m)),
            }
        } else {
            Err(TrySendError::Full(msg))
        }
    }

    /// Attempts to receive a message without blocking.
    ///
    /// Pops the oldest message, or fails with `Empty` when nothing is
    /// queued and the channel is open, or with `Disconnected` when it is
    /// closed and drained.
    pub fn try_recv(&mut self) -> (r: Result<T, TryRecvError>)
        requires
            old(self).wf(),
        ensures
            final(self).wf(),
            final(self).spec_cap() == old(self).spec_cap(),
            final(self).spec_closed() == old(self).spec_closed(),
            old(self)@.len() == 0 && !old(self).spec_closed() ==> r == Err::<T, TryRecvError>(
                TryRecvError::Empty,
            ) && *final(self) == *old(self),
            old(self)@.len() == 0 && old(self).spec_closed() ==> r == Err::<T, TryRecvError>(
                TryRecvError::Disconnected,
            ) && *final(self) == *old(self),
            old(self)@.len() > 0 ==> r == Ok::<T, TryRecvError>(old(self)@[0]) && final(self)@
                == old(self)@.skip(1) && final(self).spec_sent() == old(self).spec_sent()
                && final(self).spec_received() == old(self).spec_received().push(old(self)@[0]),
    {
        let mut token = ArrayToken::default();
        if self.start_recv(&mut token) {
            match self.read(&token) {
                Ok(m) => Ok(m),
                Err(()) => Err(TryRecvError::Disconnected),
            }
        } else {
            Err(TryRecvError::Empty)
        }
    }

    /// The number of messages currently queued.
    pub fn len(&self) -> (n: usize)
        requires
            self.wf(),
        ensures
            n as int == self@.len(),
            n as int <= self.spec_cap(),
    {
        let hix: usize = if self.head >= 3 * self.one_lap {
            self.head - 3 * self.one_lap
        } else {
            self.head - self.one_lap
        };
        let tix: usize = if self.tail >= 2 * self.one_lap {
            self.tail - 2 * self.one_lap
        } else {
            self.tail
        };
        if hix < tix {
            tix - hix
        } else if hix > tix {
            self.cap - hix + tix
        } else if self.tail + self.one_lap == self.head {
            // Equal indices: empty when the tail lags exactly one lap
            // behind the head, full otherwise.
            0
        } else {
            self.cap
        }
    }

    /// Whether the channel holds no message: the tail lags one lap behind
    /// the head.
    pub fn is_empty(&self) -> (r: bool)
        requires
            self.wf(),
        ensures
            r == (self@.len() == 0),
    {
        self.tail + self.one_lap == self.head
    }

    /// Whether the channel holds `cap` messages: the head lags one lap
    /// behind the tail.
    pub fn is_full(&self) -> (r: bool)
        requires
            self.wf(),
        ensures
            r == (self@.len() == self.spec_cap()),
    {
        let head_ahead: usize = if self.head >= 3 * self.one_lap {
            self.head - 3 * self.one_lap
        } else {
            self.head + self.one_lap
        };
        head_ahead == self.tail
    }

    /// The head stamp, as an opaque counter.
    pub closed spec fn spec_head_stamp(&self) -> int {
        self.head as int
    }

    /// The tail stamp, as an opaque counter.
    pub closed spec fn spec_tail_stamp(&self) -> int {
        self.tail as int
    }

    /// Select-handle state for a sender: the head stamp. It moves exactly
    /// when a receive commits — which is what a blocked sender waits for,
    /// so a changed value warrants a retry.
    pub fn sender_state(&self) -> (s: usize)
        ensures
            s as int == self.spec_head_stamp(),
    {
        self.head
    }

    /// Select-handle state for a receiver: the tail stamp. It moves
    /// exactly when a send commits — which is what a blocked receiver
    /// waits for, so a changed value warrants a retry.
    pub fn receiver_state(&self) -> (s: usize)
        ensures
            s as int == self.spec_tail_stamp(),
    {
        self.tail
    }

    /// Law: the receive history is exactly a prefix of the send history.
    /// Receives pop messages in the order sends committed them, each one
    /// once.
    pub proof fn lemma_receives_prefix_of_sends(&self)
        requires
            self.wf(),
        ensures
            self.spec_received() == self.spec_sent().take(self.spec_received().len() as int),
            self.spec_sent() == self.spec_received() + self@,
    {
        assert(self.spec_sent() =~= self.spec_received() + self@);
    }

    /// Law: no message is lost or duplicated. The messages received so far
    /// together with the messages still queued are, as a multiset, exactly
    /// the messages sent: every committed send is received once, or is
    /// still queued (as at close).
    pub proof fn lemma_no_message_lost_or_duplicated(&self)
        requires
            self.wf(),
        ensures
            self.spec_received().to_multiset().add(self@.to_multiset())
                == self.spec_sent().to_multiset(),
    {
        self.lemma_receives_prefix_of_sends();
        vstd::seq_lib::lemma_multiset_commutative(self.spec_received(), self@);
    }

    /// Law: the multiset of received messages is contained in the multiset
    /// of sent messages.
    pub proof fn lemma_received_within_sent(&self)
        requires
            self.wf(),
        ensures
            self.spec_received().to_multiset().subset_of(self.spec_sent().to_multiset()),
    {
        broadcast use vstd::multiset::group_multiset_axioms;

        self.lemma_no_message_lost_or_duplicated();
    }

    /// Law: receives preserve the order of sends. If the send of one
    /// message committed before the send of another and both messages have
    /// been received, the first was received before the second, at the
    /// same positions of the two histories.
    pub proof fn lemma_fifo(&self, i: int, j: int)
        requires
            self.wf(),
            0 <= i < j < self.spec_received().len(),
        ensures
            self.spec_received()[i] == self.spec_sent()[i],
            self.spec_received()[j] == self.spec_sent()[j],
    {
    }

    /// Law: the queue length always lies between zero and the capacity.
    pub proof fn lemma_len_in_range(&self)
        requires
            self.wf(),
        ensures
            0 <= self@.len() <= self.spec_cap(),
    {
    }
}

} // verus!
