//! The reactor's timer table: one-shot timers with handles, kept on a
//! millisecond clock that the caller supplies.

use vstd::prelude::*;
use crate::session::StompTimeout;

verus! {

/// The handle of a timer that was armed.
#[derive(Clone, Copy, Debug, PartialEq, Eq, Structural)]
pub struct Timeout {
    pub slot: usize,
}

/// A pending timer: what it is for and when it is due.
#[derive(Clone, Copy, Debug, PartialEq, Eq, Structural)]
pub struct Timer {
    pub kind: StompTimeout,
    pub due_ms: u64,
}

/// The mathematical value of a timer table: its slots, each free or holding
/// a pending timer.
pub type Slots = Seq<Option<Timer>>;

/// Whether a slot holds a pending timer of the given kind.
pub open spec fn holds(entry: Option<Timer>, kind: StompTimeout) -> bool {
    match entry {
        Some(t) => t.kind == kind,
        None => false,
    }
}

/// One for a slot that holds a pending timer of the given kind, else zero.
pub open spec fn weight(entry: Option<Timer>, kind: StompTimeout) -> nat {
    if holds(entry, kind) {
        1
    } else {
        0
    }
}

/// The number of pending timers of the given kind.
pub open spec fn spec_count(slots: Slots, kind: StompTimeout) -> nat
    decreases slots.len(),
{
    if slots.len() == 0 {
        0
    } else {
        spec_count(slots.drop_last(), kind) + weight(slots.last(), kind)
    }
}

/// Index of the first free slot at or after `from`; the number of slots
/// when all of them are taken.
pub open spec fn spec_free_slot(slots: Slots, from: int) -> int
    decreases slots.len() - from,
{
    if from < 0 || from >= slots.len() {
        slots.len() as int
    } else if slots[from] is None {
        from
    } else {
        spec_free_slot(slots, from + 1)
    }
}

/// The slots after a timer is armed: it takes the first free slot, or a new
/// slot at the end.
pub open spec fn spec_arm(slots: Slots, timer: Timer) -> Slots {
    let i = spec_free_slot(slots, 0);
    if i < slots.len() {
        slots.update(i, Some(timer))
    } else {
        slots.push(Some(timer))
    }
}

/// The slots after the timer with handle `slot` is cleared. A handle whose
/// slot is free or does not exist clears nothing.
pub open spec fn spec_clear(slots: Slots, slot: int) -> Slots {
    if 0 <= slot < slots.len() && slots[slot] is Some {
        slots.update(slot, None)
    } else {
        slots
    }
}

/// Index of the pending timer among the first `n` slots that is due first,
/// the lowest slot winning a tie; `-1` when none is pending there.
pub open spec fn spec_earliest(slots: Slots, n: int) -> int
    decreases n,
{
    if n <= 0 || n > slots.len() {
        -1
    } else {
        let best = spec_earliest(slots, n - 1);
        match slots[n - 1] {
            Some(t) => if best == -1 || t.due_ms < slots[best]->0.due_ms {
                n - 1
            } else {
                best
            },
            None => best,
        }
    }
}

/// Index of the timer that fires next at time `now_ms`: the pending timer
/// that is due first, if it is due by then; `-1` otherwise.
pub open spec fn spec_due(slots: Slots, now_ms: u64) -> int {
    let e = spec_earliest(slots, slots.len() as int);
    if e != -1 && slots[e]->0.due_ms <= now_ms {
        e
    } else {
        -1
    }
}

/// The free slot that `spec_free_slot` returns is free, and every slot
/// before it from `from` on is taken.
pub proof fn lemma_free_slot(slots: Slots, from: int)
    requires
        0 <= from <= slots.len(),
    ensures
        from <= spec_free_slot(slots, from) <= slots.len(),
        spec_free_slot(slots, from) < slots.len() ==> slots[spec_free_slot(slots, from)] is None,
        forall|j: int| from <= j < spec_free_slot(slots, from) ==> (#[trigger] slots[j]) is Some,
    decreases slots.len() - from,
{
    if from < slots.len() && slots[from] is Some {
        lemma_free_slot(slots, from + 1);
    }
}

/// `spec_earliest` returns `-1` when no timer is pending among the first `n`
/// slots, and otherwise a pending timer that none of them precedes.
pub proof fn lemma_earliest(slots: Slots, n: int)
    requires
        0 <= n <= slots.len(),
    ensures
        spec_earliest(slots, n) == -1 ==> forall|j: int| 0 <= j < n ==> (#[trigger] slots[j]) is None,
        spec_earliest(slots, n) != -1 ==> {
            &&& 0 <= spec_earliest(slots, n) < n
            &&& slots[spec_earliest(slots, n)] is Some
            &&& forall|j: int|
                0 <= j < n && (#[trigger] slots[j]) is Some ==> slots[spec_earliest(
                    slots,
                    n,
                )]->0.due_ms <= slots[j]->0.due_ms
        },
    decreases n,
{
    if n > 0 {
        lemma_earliest(slots, n - 1);
    }
}

/// Changing one slot changes the count of a kind by what the slot held and
/// what it holds now.
pub proof fn lemma_count_update(slots: Slots, i: int, entry: Option<Timer>, kind: StompTimeout)
    requires
        0 <= i < slots.len(),
    ensures
        spec_count(slots.update(i, entry), kind) + weight(slots[i], kind) == spec_count(
            slots,
            kind,
        ) + weight(entry, kind),
    decreases slots.len(),
{
    let after = slots.update(i, entry);
    if i == slots.len() - 1 {
        assert(after.drop_last() =~= slots.drop_last());
    } else {
        assert(after.drop_last() =~= slots.drop_last().update(i, entry));
        lemma_count_update(slots.drop_last(), i, entry, kind);
    }
}

/// A new slot at the end adds to the count of its timer's kind.
pub proof fn lemma_count_push(slots: Slots, entry: Option<Timer>, kind: StompTimeout)
    ensures
        spec_count(slots.push(entry), kind) == spec_count(slots, kind) + weight(entry, kind),
{
    assert(slots.push(entry).drop_last() =~= slots);
}

/// A table without pending timers of a kind holds none in any slot.
pub proof fn lemma_count_zero(slots: Slots, kind: StompTimeout)
    requires
        spec_count(slots, kind) == 0,
    ensures
        forall|j: int| 0 <= j < slots.len() ==> !holds(#[trigger] slots[j], kind),
    decreases slots.len(),
{
    if slots.len() > 0 {
        lemma_count_zero(slots.drop_last(), kind);
        assert forall|j: int| 0 <= j < slots.len() implies !holds(#[trigger] slots[j], kind) by {
            if j < slots.len() - 1 {
                assert(slots[j] == slots.drop_last()[j]);
            }
        }
    }
}

/// Arming a timer adds one to the count of its kind and leaves the other
/// counts and every pending timer as they were.
pub proof fn lemma_arm(slots: Slots, timer: Timer, kind: StompTimeout)
    ensures
        spec_count(spec_arm(slots, timer), kind) == spec_count(slots, kind) + weight(
            Some(timer),
            kind,
        ),
        spec_arm(slots, timer).len() >= slots.len(),
        forall|j: int|
            0 <= j < slots.len() && (#[trigger] slots[j]) is Some ==> spec_arm(slots, timer)[j]
                == slots[j],
{
    let i = spec_free_slot(slots, 0);
    lemma_free_slot(slots, 0);
    if i < slots.len() {
        lemma_count_update(slots, i, Some(timer), kind);
    } else {
        lemma_count_push(slots, Some(timer), kind);
    }
}

/// Clearing a pending timer takes one from the count of its kind and leaves
/// the other counts and every other slot as they were.
pub proof fn lemma_clear(slots: Slots, slot: int, kind: StompTimeout)
    ensures
        spec_count(spec_clear(slots, slot), kind) + (if 0 <= slot < slots.len() {
            weight(slots[slot], kind)
        } else {
            0nat
        }) == spec_count(slots, kind),
        spec_clear(slots, slot).len() == slots.len(),
        forall|j: int| 0 <= j < slots.len() && j != slot ==> spec_clear(slots, slot)[j] == slots[j],
{
    if 0 <= slot < slots.len() && slots[slot] is Some {
        lemma_count_update(slots, slot, None, kind);
    }
}

/// The time at which a timer is due that is armed at `now_ms` to fire after
/// `delay_ms`; the clock's last value when that lies beyond it.
pub open spec fn spec_deadline(now_ms: u64, delay_ms: u64) -> u64 {
    if now_ms + delay_ms > u64::MAX {
        u64::MAX
    } else {
        (now_ms + delay_ms) as u64
    }
}

/// A table of one-shot timers.
pub struct Timers {
    slots: Vec<Option<Timer>>,
}

impl View for Timers {
    type V = Slots;

    closed spec fn view(&self) -> Slots {
        self.slots@
    }
}

impl Timers {
    /// A table without timers.
    pub fn new() -> (r: Timers)
        ensures
            r@ == Seq::<Option<Timer>>::empty(),
    {
        Timers { slots: Vec::new() }
    }

    /// The number of pending timers of the given kind.
    pub fn count(&self, kind: StompTimeout) -> (r: usize)
        ensures
            r == spec_count(self@, kind),
    {
        let mut n: usize = 0;
        let mut i: usize = 0;
        assert(self@.take(0) =~= Seq::<Option<Timer>>::empty());
        while i < self.slots.len()
            invariant
                i <= self.slots@.len(),
                n <= i,
                n == spec_count(self@.take(i as int), kind),
            decreases self.slots@.len() - i,
        {
            assert(self@.take(i + 1).drop_last() =~= self@.take(i as int));
            match self.slots[i] {
                Some(t) => {
                    if t.kind == kind {
                        n += 1;
                    }
                },
                None => {},
            }
            i += 1;
        }
        assert(self@.take(i as int) =~= self@);
        n
    }

    /// The pending timer with the given handle.
    pub fn get(&self, timeout: Timeout) -> (r: Option<Timer>)
        ensures
            r == if timeout.slot < self@.len() {
                self@[timeout.slot as int]
            } else {
                None
            },
    {
        if timeout.slot < self.slots.len() {
            self.slots[timeout.slot]
        } else {
            None
        }
    }

    /// Arms a timer of the given kind that is due `delay_ms` after `now_ms`,
    /// and returns its handle.
    pub fn timeout_ms(&mut self, kind: StompTimeout, delay_ms: u64, now_ms: u64) -> (r: Timeout)
        ensures
            r.slot == spec_free_slot(old(self)@, 0),
            final(self)@ == spec_arm(
                old(self)@,
                Timer { kind: kind, due_ms: spec_deadline(now_ms, delay_ms) },
            ),
            final(self)@[r.slot as int] == Some(
                Timer { kind: kind, due_ms: spec_deadline(now_ms, delay_ms) },
            ),
    {
        let timer = Timer { kind: kind, due_ms: now_ms.saturating_add(delay_ms) };
        let mut i: usize = 0;
        proof {
            lemma_free_slot(self@, 0);
        }
        while i < self.slots.len()
            invariant
                i <= self.slots@.len(),
                self@ == old(self)@,
                timer == (Timer { kind: kind, due_ms: spec_deadline(now_ms, delay_ms) }),
                spec_free_slot(self@, 0) == spec_free_slot(self@, i as int),
            decreases self.slots@.len() - i,
        {
            if self.slots[i].is_none() {
                self.slots[i] = Some(timer);
                return Timeout { slot: i };
            }
            i += 1;
        }
        self.slots.push(Some(timer));
        Timeout { slot: i }
    }

    /// Clears the pending timer with the given handle. Returns whether there
    /// was one.
    pub fn clear_timeout(&mut self, timeout: Timeout) -> (r: bool)
        ensures
            final(self)@ == spec_clear(old(self)@, timeout.slot as int),
            r == (timeout.slot < old(self)@.len() && old(self)@[timeout.slot as int] is Some),
    {
        if timeout.slot < self.slots.len() && self.slots[timeout.slot].is_some() {
            self.slots[timeout.slot] = None;
            true
        } else {
            false
        }
    }

    /// The handle of the pending timer that is due first, the lowest slot
    /// winning a tie.
    pub fn earliest(&self) -> (r: Option<Timeout>)
        ensures
            match r {
                Some(h) => spec_earliest(self@, self@.len() as int) == h.slot,
                None => spec_earliest(self@, self@.len() as int) == -1,
            },
    {
        let mut best: Option<Timeout> = None;
        let mut best_due: u64 = 0;
        let mut i: usize = 0;
        while i < self.slots.len()
            invariant
                i <= self.slots@.len(),
                match best {
                    Some(h) => {
                        &&& spec_earliest(self@, i as int) == h.slot
                        &&& h.slot < i
                        &&& self@[h.slot as int] matches Some(t)
                        &&& t.due_ms == best_due
                    },
                    None => spec_earliest(self@, i as int) == -1,
                },
            decreases self.slots@.len() - i,
        {
            match self.slots[i] {
                Some(t) => {
                    if best.is_none() || t.due_ms < best_due {
                        best = Some(Timeout { slot: i });
                        best_due = t.due_ms;
                    }
                },
                None => {},
            }
            i += 1;
        }
        best
    }

    /// When the next pending timer is due.
    pub fn next_due(&self) -> (r: Option<u64>)
        ensures
            match r {
                Some(due) => {
                    &&& spec_earliest(self@, self@.len() as int) != -1
                    &&& self@[spec_earliest(self@, self@.len() as int)] matches Some(t)
                    &&& t.due_ms == due
                },
                None => spec_earliest(self@, self@.len() as int) == -1,
            },
    {
        proof {
            lemma_earliest(self@, self@.len() as int);
        }
        match self.earliest() {
            Some(h) => match self.slots[h.slot] {
                Some(t) => Some(t.due_ms),
                None => None,
            },
            None => None,
        }
    }

    /// Takes out the timer that fires next at time `now_ms`, if one is due
    /// by then, and returns its handle and its kind.
    pub fn expire(&mut self, now_ms: u64) -> (r: Option<(Timeout, StompTimeout)>)
        ensures
            match r {
                Some((h, kind)) => {
                    &&& spec_due(old(self)@, now_ms) == h.slot
                    &&& holds(old(self)@[h.slot as int], kind)
                    &&& final(self)@ == spec_clear(old(self)@, h.slot as int)
                },
                None => spec_due(old(self)@, now_ms) == -1 && final(self)@ == old(self)@,
            },
    {
        proof {
            lemma_earliest(self@, self@.len() as int);
        }
        match self.earliest() {
            Some(h) => match self.slots[h.slot] {
                Some(t) => {
                    if t.due_ms <= now_ms {
                        self.slots[h.slot] = None;
                        Some((h, t.kind))
                    } else {
                        None
                    }
                },
                None => None,
            },
            None => None,
        }
    }
}

} // verus!
