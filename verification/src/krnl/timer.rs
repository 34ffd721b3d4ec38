use vstd::prelude::*;
use crate::krnl::irq::Irq;
use crate::krnl::port::Port;

verus! {

pub const MAX_ENTRIES: usize = 16;

/// Names a timer: its slot in the timer table.
pub struct TimerDescriptor(usize);

impl TimerDescriptor {
    pub closed spec fn id(self) -> usize {
        self.0
    }

    /// The slot of the timer.
    pub fn index(&self) -> (i: usize)
        ensures
            i == self.id(),
    {
        self.0
    }
}

/// A periodic timer: it fires every `interval` ticks; `count_down` ticks
/// are left until it fires next; it has fired `trigger_count` times; `f`
/// is what the caller runs when it fires.
pub struct TimerEntry<F> {
    pub interval: u64,
    pub trigger_count: u64,
    pub count_down: u64,
    pub f: F,
}

pub struct TimerView<F> {
    pub entries: Seq<Option<TimerEntry<F>>>,
    pub ticks: nat,
}

/// There are `MAX_ENTRIES` slots, and every timer fires within its interval.
pub open spec fn timer_wf<F>(v: TimerView<F>) -> bool {
    &&& v.entries.len() == MAX_ENTRIES
    &&& forall|i: int|
        0 <= i < v.entries.len() && (#[trigger] v.entries[i]) is Some ==> 1 <= v.entries[i].unwrap().count_down
            <= v.entries[i].unwrap().interval
}

/// What `add` does: a timer with a nonzero interval goes into the first
/// free slot, whose descriptor is returned; without a free slot, or with a
/// zero interval, nothing changes.
pub open spec fn add_spec<F>(
    old_v: TimerView<F>,
    interval: u64,
    f: F,
    new_v: TimerView<F>,
    d: Option<TimerDescriptor>,
) -> bool {
    match d {
        Some(d) => {
            &&& interval > 0
            &&& d.id() < MAX_ENTRIES
            &&& old_v.entries[d.id() as int] is None
            &&& forall|j: int| 0 <= j < d.id() ==> (#[trigger] old_v.entries[j] is Some)
            &&& new_v == (TimerView {
                entries: old_v.entries.update(
                    d.id() as int,
                    Some(TimerEntry { interval, trigger_count: 0, count_down: interval, f }),
                ),
                ticks: old_v.ticks,
            })
        },
        None => {
            &&& (interval == 0 || forall|j: int|
                0 <= j < MAX_ENTRIES ==> (#[trigger] old_v.entries[j] is Some))
            &&& new_v == old_v
        },
    }
}

/// A timer after one tick: with one tick left it fires, so its trigger
/// count goes up and its count down restarts from its interval; otherwise
/// it has one tick less left.
pub open spec fn step<F>(e: TimerEntry<F>) -> TimerEntry<F> {
    if e.count_down == 1 {
        TimerEntry { trigger_count: (e.trigger_count + 1) as u64, count_down: e.interval, ..e }
    } else {
        TimerEntry { count_down: (e.count_down - 1) as u64, ..e }
    }
}

/// A timer after `n` ticks.
pub open spec fn steps<F>(e: TimerEntry<F>, n: nat) -> TimerEntry<F>
    decreases n,
{
    if n == 0 {
        e
    } else {
        step(steps(e, (n - 1) as nat))
    }
}

/// What one count down does to slot `i`: an empty slot stays empty and
/// nothing fires; a timer takes one step, and fires (giving its descriptor,
/// its new trigger count and its `f`) when it had one tick left.
pub open spec fn countdown_spec<F>(
    old_e: Seq<Option<TimerEntry<F>>>,
    i: int,
    new_e: Seq<Option<TimerEntry<F>>>,
    fired: Option<(TimerDescriptor, u64, F)>,
) -> bool {
    match old_e[i] {
        None => fired is None && new_e == old_e,
        Some(e) => {
            &&& new_e == old_e.update(i, Some(step(e)))
            &&& if e.count_down == 1 {
                fired matches Some(r) && r.0.id() == i && r.1 == e.trigger_count + 1 && r.2 == e.f
            } else {
                fired is None
            }
        },
    }
}

/// A timer whose count down has just started from its interval has one tick
/// less left after each tick, fires on the `interval`-th tick and no
/// earlier, and then starts over with its trigger count one higher.
pub proof fn lemma_fires_every_interval<F>(e: TimerEntry<F>)
    requires
        1 <= e.count_down == e.interval,
        e.trigger_count < u64::MAX,
    ensures
        forall|j: nat| j < e.interval ==> (#[trigger] steps(e, j)).count_down == e.interval - j
            && steps(e, j).trigger_count == e.trigger_count,
        steps(e, e.interval as nat) == (TimerEntry { trigger_count: (e.trigger_count + 1) as u64, ..e }),
{
    assert forall|j: nat| j < e.interval implies (#[trigger] steps(e, j)).count_down == e.interval - j
        && steps(e, j).trigger_count == e.trigger_count by {
        lemma_steps_count_down(e, j);
    }
    lemma_steps_count_down(e, (e.interval - 1) as nat);
    assert(steps(e, e.interval as nat) == step(steps(e, (e.interval - 1) as nat)));
}

/// A timer added with interval `n` (its count down starting from `n`), after
/// any `k` ticks: it has fired `k / n` times, so its trigger count is `k / n`
/// higher, and `n - k % n` ticks are left until it fires next, which is
/// always between 1 and `n`; it fires on a tick exactly when the count of
/// ticks so far, that one included, is a multiple of `n`.
pub proof fn lemma_after_ticks<F>(e: TimerEntry<F>, k: nat)
    requires
        1 <= e.count_down == e.interval,
        e.trigger_count + k / (e.interval as nat) <= u64::MAX,
    ensures
        steps(e, k) == (TimerEntry {
            trigger_count: (e.trigger_count + k / (e.interval as nat)) as u64,
            count_down: (e.interval - k % (e.interval as nat)) as u64,
            ..e
        }),
        1 <= steps(e, k).count_down <= steps(e, k).interval,
        (steps(e, k).count_down == 1) == ((k + 1) % (e.interval as nat) == 0),
    decreases k,
{
    let n = e.interval as nat;
    if k == 0 {
        assert(k / n == 0 && k % n == 0) by (nonlinear_arith)
            requires
                k == 0,
                n >= 1,
        ;
    } else {
        let j = (k - 1) as nat;
        assert(j / n <= k / n) by (nonlinear_arith)
            requires
                j + 1 == k,
                n >= 1,
        ;
        lemma_after_ticks(e, j);
        if j % n == n - 1 {
            assert(k / n == j / n + 1 && k % n == 0) by (nonlinear_arith)
                requires
                    j + 1 == k,
                    n >= 1,
                    j % n == n - 1,
            ;
        } else {
            assert(k / n == j / n && k % n == j % n + 1) by (nonlinear_arith)
                requires
                    j + 1 == k,
                    n >= 1,
                    j % n != n - 1,
                    0 <= j % n < n,
            ;
        }
    }
    assert(0 <= k % n < n) by (nonlinear_arith)
        requires
            n >= 1,
    ;
    assert((k % n == n - 1) == ((k + 1) % n == 0)) by (nonlinear_arith)
        requires
            n >= 1,
    ;
}

/// How many of the first `k` ticks make the timer fire.
pub open spec fn fire_count<F>(e: TimerEntry<F>, k: nat) -> nat
    decreases k,
{
    if k == 0 {
        0
    } else {
        fire_count(e, (k - 1) as nat) + if steps(e, (k - 1) as nat).count_down == 1 {
            1nat
        } else {
            0nat
        }
    }
}

/// A timer added with interval `n` fires `k / n` times in `k` ticks, and
/// each time it fires it hands over the next trigger count: the one that
/// fires on tick `k + 1` hands over its start count plus `(k + 1) / n`, so
/// the counts handed over run 1, 2, 3, ... above the start.
pub proof fn lemma_fire_count<F>(e: TimerEntry<F>, k: nat)
    requires
        1 <= e.count_down == e.interval,
        e.trigger_count + (k + 1) / (e.interval as nat) <= u64::MAX,
    ensures
        fire_count(e, k) == k / (e.interval as nat),
        steps(e, k).count_down == 1 ==> steps(e, k).trigger_count + 1 == e.trigger_count + (k + 1) / (
        e.interval as nat),
    decreases k,
{
    let n = e.interval as nat;
    assert(k / n <= (k + 1) / n) by (nonlinear_arith)
        requires
            n >= 1,
    ;
    lemma_after_ticks(e, k);
    if k == 0 {
        assert(k / n == 0) by (nonlinear_arith)
            requires
                k == 0,
                n >= 1,
        ;
    } else {
        let j = (k - 1) as nat;
        assert(j / n <= k / n && (j + 1) / n == k / n) by (nonlinear_arith)
            requires
                j + 1 == k,
                n >= 1,
        ;
        lemma_fire_count(e, j);
        lemma_after_ticks(e, j);
        if (j + 1) % n == 0 {
            assert(k / n == j / n + 1) by (nonlinear_arith)
                requires
                    j + 1 == k,
                    n >= 1,
                    (j + 1) % n == 0,
            ;
        } else {
            assert(k / n == j / n) by (nonlinear_arith)
                requires
                    j + 1 == k,
                    n >= 1,
                    (j + 1) % n != 0,
            ;
        }
    }
    if steps(e, k).count_down == 1 {
        assert((k + 1) / n == k / n + 1) by (nonlinear_arith)
            requires
                n >= 1,
                (k + 1) % n == 0,
        ;
    }
}

proof fn lemma_steps_count_down<F>(e: TimerEntry<F>, j: nat)
    requires
        1 <= e.count_down == e.interval,
        j < e.interval,
    ensures
        steps(e, j) == (TimerEntry { count_down: (e.interval - j) as u64, ..e }),
    decreases j,
{
    if j > 0 {
        lemma_steps_count_down(e, (j - 1) as nat);
    }
}

/// The table of timers and the count of ticks since start.
pub struct Timer<F> {
    entries: Vec<Option<TimerEntry<F>>>,
    ticks: u64,
}

impl<F> View for Timer<F> {
    type V = TimerView<F>;

    closed spec fn view(&self) -> TimerView<F> {
        TimerView { entries: self.entries@, ticks: self.ticks as nat }
    }
}

impl<F: Copy> Timer<F> {
    pub open spec fn wf(&self) -> bool {
        timer_wf(self@)
    }

    /// A table with no timer, at tick 0.
    pub fn new() -> (t: Timer<F>)
        ensures
            t.wf(),
            t@.entries == Seq::new(MAX_ENTRIES as nat, |i: int| None::<TimerEntry<F>>),
            t@.ticks == 0,
    {
        let mut entries: Vec<Option<TimerEntry<F>>> = Vec::new();
        let mut i: usize = 0;
        while i < MAX_ENTRIES
            invariant
                i <= MAX_ENTRIES,
                entries@ == Seq::new(i as nat, |k: int| None::<TimerEntry<F>>),
            decreases MAX_ENTRIES - i,
        {
            entries.push(None);
            i += 1;
            assert(entries@ =~= Seq::new(i as nat, |k: int| None::<TimerEntry<F>>));
        }
        Timer { entries, ticks: 0 }
    }

    pub fn ticks(&self) -> (t: u64)
        ensures
            t == self@.ticks,
    {
        self.ticks
    }

    /// The timer in slot `index`.
    pub fn entry(&self, index: usize) -> (e: Option<&TimerEntry<F>>)
        requires
            index < self@.entries.len(),
        ensures
            e == (match self@.entries[index as int] {
                Some(t) => Some(&t),
                None => None::<&TimerEntry<F>>,
            }),
    {
        self.entries[index].as_ref()
    }

    /// Adds a timer that fires every `interval` ticks, in the first free
    /// slot. `None`, and no change, for a zero interval or a full table.
    pub fn add(&mut self, interval: u64, f: F) -> (d: Option<TimerDescriptor>)
        requires
            old(self).wf(),
        ensures
            final(self).wf(),
            add_spec(old(self)@, interval, f, final(self)@, d),
    {
        if interval == 0 {
            return None;
        }
        let mut i: usize = 0;
        while i < MAX_ENTRIES
            invariant
                i <= MAX_ENTRIES,
                interval > 0,
                self.wf(),
                self@ == old(self)@,
                forall|j: int| 0 <= j < i ==> #[trigger] self@.entries[j] is Some,
            decreases MAX_ENTRIES - i,
        {
            if self.entries[i].is_none() {
                self.entries.set(
                    i,
                    Some(TimerEntry { interval: interval, trigger_count: 0, count_down: interval, f: f }),
                );
                assert(self@.entries =~= old(self)@.entries.update(
                    i as int,
                    Some(TimerEntry { interval, trigger_count: 0, count_down: interval, f }),
                ));
                return Some(TimerDescriptor(i));
            }
            i += 1;
        }
        None
    }

    /// Removes the timer `d`; gives whether there was one.
    pub fn remove(&mut self, d: TimerDescriptor) -> (removed: bool)
        requires
            old(self).wf(),
            d.id() < MAX_ENTRIES,
        ensures
            final(self).wf(),
            removed == (old(self)@.entries[d.id() as int] is Some),
            final(self)@ == (TimerView {
                entries: old(self)@.entries.update(d.id() as int, None),
                ticks: old(self)@.ticks,
            }),
    {
        let index = d.0;
        if self.entries[index].is_none() {
            assert(self@.entries.update(d.id() as int, None) =~= self@.entries);
            return false;
        }
        self.entries.set(index, None);
        true
    }

    /// Counts one tick of the timer interrupt.
    pub fn tick(&mut self)
        requires
            old(self)@.ticks < u64::MAX,
        ensures
            final(self)@ == (TimerView { ticks: old(self)@.ticks + 1, ..old(self)@ }),
    {
        self.ticks = self.ticks + 1;
    }

    /// Counts one tick down on the timer in slot `index`. When it reaches
    /// zero the timer fires: its trigger count goes up, its count down
    /// starts again from its interval, and the result holds the timer's
    /// descriptor, its new trigger count and its `f` for the caller to run.
    pub fn countdown(&mut self, index: usize) -> (fired: Option<(TimerDescriptor, u64, F)>)
        requires
            old(self).wf(),
            index < MAX_ENTRIES,
            (old(self)@.entries[index as int] is Some && old(self)@.entries[index as int].unwrap().count_down
                == 1) ==> old(self)@.entries[index as int].unwrap().trigger_count < u64::MAX,
        ensures
            final(self).wf(),
            final(self)@.ticks == old(self)@.ticks,
            countdown_spec(old(self)@.entries, index as int, final(self)@.entries, fired),
    {
        let (interval, trigger_count, count_down, f) = match &self.entries[index] {
            None => {
                return None;
            },
            Some(e) => (e.interval, e.trigger_count, e.count_down, e.f),
        };
        assert(self@.entries[index as int] is Some);
        let count_down = count_down - 1;
        if count_down == 0 {
            let trigger_count = trigger_count + 1;
            self.entries.set(
                index,
                Some(TimerEntry { interval, trigger_count, count_down: interval, f }),
            );
            Some((TimerDescriptor(index), trigger_count, f))
        } else {
            self.entries.set(index, Some(TimerEntry { interval, trigger_count, count_down, f }));
            None
        }
    }
}

pub const PORT_PIT_CHANNEL0: u16 = 0x40;

pub const PORT_PIT_CMD: u16 = 0x43;

/// The writes that set the programmable interval timer to its default
/// rate, 18 ticks a second: channel 0, square wave, divisor 0 (65536).
pub open spec fn pit_init_writes() -> Seq<(Port, u8)> {
    seq![(Port(PORT_PIT_CMD), 0x36u8), (Port(PORT_PIT_CHANNEL0), 0u8), (Port(PORT_PIT_CHANNEL0), 0u8)]
}

/// Installs the timer interrupt handler on IRQ 0. Gives the writes that set
/// the timer rate and whether a handler was installed there already. The
/// caller then unmasks IRQ 0.
pub fn initialize<G: Copy>(irq: &mut Irq<G>, handler: G) -> (r: (Vec<(Port, u8)>, bool))
    requires
        old(irq)@.len() == crate::krnl::irq::MAX_IRQ_ENTRIES,
    ensures
        r.0@ == pit_init_writes(),
        r.1 == (old(irq)@[0] is Some),
        final(irq)@ == old(irq)@.update(0, Some(handler)),
{
    let mut w: Vec<(Port, u8)> = Vec::new();
    w.push((Port::new(PORT_PIT_CMD), 0x36));
    w.push((Port::new(PORT_PIT_CHANNEL0), 0));
    w.push((Port::new(PORT_PIT_CHANNEL0), 0));
    assert(w@ =~= pit_init_writes());
    let replaced = irq.install(0, handler);
    (w, replaced)
}

/// Removing the timer that `add` just added gives back the table as it
/// was before.
pub proof fn lemma_add_then_remove<F>(
    v: TimerView<F>,
    interval: u64,
    f: F,
    added: TimerView<F>,
    d: TimerDescriptor,
)
    requires
        v.entries.len() == MAX_ENTRIES,
        add_spec(v, interval, f, added, Some(d)),
    ensures
        (TimerView { entries: added.entries.update(d.id() as int, None), ticks: added.ticks }) == v,
{
    assert(added.entries.update(d.id() as int, None) =~= v.entries);
}

/// A timer that has been removed is gone: removing it again removes nothing.
pub proof fn lemma_remove_twice<F>(v: TimerView<F>, d: TimerDescriptor)
    requires
        d.id() < v.entries.len(),
    ensures
        v.entries.update(d.id() as int, None)[d.id() as int] is None,
        v.entries.update(d.id() as int, None).update(d.id() as int, None) == v.entries.update(
            d.id() as int,
            None,
        ),
{
    assert(v.entries.update(d.id() as int, None).update(d.id() as int, None) =~= v.entries.update(
        d.id() as int,
        None,
    ));
}

} // verus!
