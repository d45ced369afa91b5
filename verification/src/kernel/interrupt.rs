//! Interrupt controller with a simulated clock: a bounded FIFO of pending
//! interrupts that fills only while interrupts are enabled.

use vstd::prelude::*;

verus! {

/// Interrupt lines.
#[derive(Debug, Clone, Copy, PartialEq, Eq, Structural)]
pub enum Irq {
    /// Line 0.
    Timer,
    /// Line 1.
    Keyboard,
}

impl Irq {
    /// The line number.
    pub open spec fn spec_line(self) -> u8 {
        match self {
            Irq::Timer => 0,
            Irq::Keyboard => 1,
        }
    }

    /// The line number.
    pub fn line(self) -> (r: u8)
        ensures
            r == self.spec_line(),
    {
        match self {
            Irq::Timer => 0,
            Irq::Keyboard => 1,
        }
    }
}

/// Saved state of an interrupt.
#[derive(Debug, Clone, Copy)]
pub struct InterruptFrame {
    pub irq: Irq,
    pub error_code: u64,
}

/// Capacity of the pending queue.
pub const PENDING_CAPACITY: usize = 32;

/// The interrupts held, front first, by a pending queue.
pub uninterp spec fn pending_contents(q: heapless::Vec<Irq, 32>) -> Seq<Irq>;

/// `heapless::Vec::new`: an empty vector.
#[verifier::external_body]
fn queue_new() -> (r: heapless::Vec<Irq, 32>)
    ensures
        pending_contents(r) == Seq::<Irq>::empty(),
{
    heapless::Vec::new()
}

/// `heapless::Vec::push`: appends where fewer than 32 items are held
/// (`true`), else keeps the vector (`false`; the item comes back in `Err`).
#[verifier::external_body]
fn queue_push(q: &mut heapless::Vec<Irq, 32>, irq: Irq) -> (pushed: bool)
    ensures
        pending_contents(*old(q)).len() < 32 ==> pushed && pending_contents(*final(q)) == pending_contents(*old(q)).push(irq),
        pending_contents(*old(q)).len() >= 32 ==> !pushed && pending_contents(*final(q)) == pending_contents(*old(q)),
{
    q.push(irq).is_ok()
}

/// `heapless::Vec::is_empty`: whether no item is held.
#[verifier::external_body]
fn queue_is_empty(q: &heapless::Vec<Irq, 32>) -> (r: bool)
    ensures
        r == (pending_contents(*q).len() == 0),
{
    q.is_empty()
}

/// `heapless::Vec::remove` at index 0: takes out the front item and shifts the
/// rest down. (It panics on an empty vector, which `requires` leaves out.)
#[verifier::external_body]
fn queue_remove_front(q: &mut heapless::Vec<Irq, 32>) -> (r: Irq)
    requires
        pending_contents(*old(q)).len() > 0,
    ensures
        r == pending_contents(*old(q))[0]
            && pending_contents(*final(q)) == pending_contents(*old(q)).subrange(1, pending_contents(*old(q)).len() as int),
{
    q.remove(0)
}

/// The interrupt controller.
pub struct InterruptController {
    /// Whether interrupts are enabled.
    enabled: bool,
    /// Pending interrupts, oldest first.
    pending: heapless::Vec<Irq, 32>,
    /// Clock ticks so far.
    timer_ticks: u64,
    /// Clock frequency (Hz).
    timer_freq_hz: u64,
}

impl InterruptController {
    /// Whether interrupts are enabled.
    pub closed spec fn is_enabled(self) -> bool {
        self.enabled
    }

    /// The pending interrupts, oldest first.
    pub closed spec fn pending(self) -> Seq<Irq> {
        pending_contents(self.pending)
    }

    /// Clock ticks so far.
    pub closed spec fn ticks(self) -> u64 {
        self.timer_ticks
    }

    /// Clock frequency.
    pub closed spec fn freq(self) -> u64 {
        self.timer_freq_hz
    }

    /// At most `PENDING_CAPACITY` interrupts are pending.
    pub open spec fn wf(self) -> bool {
        self.pending().len() <= PENDING_CAPACITY
    }

    /// Disabled, nothing pending, clock at 0, 100 Hz.
    pub fn new() -> (r: Self)
        ensures
            r.wf(),
            !r.is_enabled(),
            r.pending() == Seq::<Irq>::empty(),
            r.ticks() == 0,
            r.freq() == 100,
    {
        InterruptController { enabled: false, pending: queue_new(), timer_ticks: 0, timer_freq_hz: 100 }
    }

    /// Enables interrupts.
    pub fn enable(&mut self)
        ensures
            final(self).is_enabled(),
            final(self).pending() == old(self).pending(),
            final(self).ticks() == old(self).ticks(),
            final(self).freq() == old(self).freq(),
    {
        self.enabled = true;
    }

    /// Disables interrupts; pending ones stay queued.
    pub fn disable(&mut self)
        ensures
            !final(self).is_enabled(),
            final(self).pending() == old(self).pending(),
            final(self).ticks() == old(self).ticks(),
            final(self).freq() == old(self).freq(),
    {
        self.enabled = false;
    }

    /// The interrupt queued after `irq` is raised: appended while enabled
    /// and not full, else unchanged.
    pub open spec fn raised(self, irq: Irq) -> Seq<Irq> {
        if self.is_enabled() && self.pending().len() < PENDING_CAPACITY {
            self.pending().push(irq)
        } else {
            self.pending()
        }
    }

    /// Advances the clock by one tick and, while enabled, raises a timer
    /// interrupt (dropped where the queue is full).
    pub fn tick(&mut self)
        requires
            old(self).wf(),
            old(self).ticks() < u64::MAX,
        ensures
            final(self).wf(),
            final(self).ticks() == old(self).ticks() + 1,
            final(self).pending() == old(self).raised(Irq::Timer),
            final(self).is_enabled() == old(self).is_enabled(),
            final(self).freq() == old(self).freq(),
    {
        self.timer_ticks += 1;
        if self.enabled {
            let _ = queue_push(&mut self.pending, Irq::Timer);
        }
    }

    /// Raises an external interrupt: queued while enabled (dropped where the
    /// queue is full), ignored while disabled.
    pub fn trigger(&mut self, irq: Irq)
        requires
            old(self).wf(),
        ensures
            final(self).wf(),
            final(self).pending() == old(self).raised(irq),
            final(self).ticks() == old(self).ticks(),
            final(self).is_enabled() == old(self).is_enabled(),
            final(self).freq() == old(self).freq(),
    {
        if self.enabled {
            let _ = queue_push(&mut self.pending, irq);
        }
    }

    /// The oldest pending interrupt, taken out of the queue; `None` while
    /// disabled or with nothing pending.
    pub fn next_irq(&mut self) -> (r: Option<Irq>)
        requires
            old(self).wf(),
        ensures
            final(self).wf(),
            final(self).ticks() == old(self).ticks(),
            final(self).is_enabled() == old(self).is_enabled(),
            final(self).freq() == old(self).freq(),
            !old(self).is_enabled() || old(self).pending().len() == 0 ==> r is None
                && final(self).pending() == old(self).pending(),
            old(self).is_enabled() && old(self).pending().len() > 0 ==> r == Some(old(self).pending()[0])
                && final(self).pending() == old(self).pending().subrange(1, old(self).pending().len() as int),
    {
        if !self.enabled || queue_is_empty(&self.pending) {
            None
        } else {
            Some(queue_remove_front(&mut self.pending))
        }
    }

    /// Clock ticks so far.
    pub fn elapsed_ticks(&self) -> (r: u64)
        ensures
            r == self.ticks(),
    {
        self.timer_ticks
    }
}

/// Interrupts come out in the order they were raised: raising `a` and then
/// `b` on an enabled controller with nothing pending queues exactly `a`, `b`.
pub proof fn law_fifo_order(c0: InterruptController, c1: InterruptController, c2: InterruptController, a: Irq, b: Irq)
    requires
        c0.is_enabled(),
        c0.pending().len() == 0,
        c1.is_enabled(),
        c1.pending() == c0.raised(a),
        c2.pending() == c1.raised(b),
    ensures
        c2.pending() == seq![a, b],
        c2.pending()[0] == a,
{
    assert(c1.pending() =~= seq![a]);
    assert(c2.pending() =~= seq![a, b]);
}

/// A disabled controller queues nothing: raising leaves the queue as it is.
pub proof fn law_disabled_raises_nothing(c: InterruptController, irq: Irq)
    requires
        !c.is_enabled(),
    ensures
        c.raised(irq) == c.pending(),
{
}

} // verus!
