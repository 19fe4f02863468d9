//! The click counter: a signal that counts the clicks on a button, and the
//! value derived from it.

use crate::display::doubled;
use crate::runtime::Runtime;
use crate::signal::Signal;
use vstd::prelude::*;

verus! {

/// The number of clicks from which the counter starts.
pub open spec fn initial_clicks() -> int {
    4
}

/// A counter of clicks.
pub struct ClickCounter {
    count: Signal<i32>,
}

impl View for ClickCounter {
    type V = int;

    /// The number of clicks counted so far.
    closed spec fn view(&self) -> int {
        self.count@ as int
    }
}

impl ClickCounter {
    /// The signal that holds the count.
    pub closed spec fn spec_signal(&self) -> usize {
        self.count.spec_id()
    }

    /// The counter is registered with `rt`.
    pub open spec fn wf(&self, rt: &Runtime) -> bool {
        self.spec_signal() < rt@.signals()
    }

    /// A counter that stands at its initial value and has no dependents.
    pub fn create(rt: &mut Runtime) -> (counter: ClickCounter)
        requires
            old(rt).wf(),
        ensures
            final(rt).wf(),
            final(rt)@ == old(rt)@.add_signal(),
            counter.wf(final(rt)),
            counter.spec_signal() == old(rt)@.signals(),
            counter@ == initial_clicks(),
    {
        let mut count = Signal::create(0i32, rt);
        let _ = count.set(4, rt);
        ClickCounter { count }
    }

    /// The signal that holds the count, for a resource that is keyed by it.
    pub fn signal(&self) -> (signal: &Signal<i32>)
        ensures
            signal@ == self@,
            signal.spec_id() == self.spec_signal(),
    {
        &self.count
    }

    /// One more click.  The dependents of the count are returned to be run
    /// again.
    pub fn click(&mut self, rt: &Runtime) -> (notified: Vec<usize>)
        requires
            old(self).wf(rt),
            old(self)@ < i32::MAX,
        ensures
            final(self).spec_signal() == old(self).spec_signal(),
            final(self)@ == old(self)@ + 1,
            notified@ == rt@.dependents(old(self).spec_signal()),
    {
        let count = self.count.get_untracked();
        self.count.set(count + 1, rt)
    }

    /// Reads the count.  Inside a run the innermost observer becomes a
    /// dependent of the count.
    pub fn count(&self, rt: &mut Runtime) -> (clicks: i32)
        requires
            old(rt).wf(),
            self.wf(old(rt)),
        ensures
            clicks == self@,
            final(rt).wf(),
            final(rt)@ == old(rt)@.read(self.spec_signal()),
    {
        self.count.get(rt)
    }

    /// Twice the count: a value derived from the count, computed anew at each
    /// call.  Whoever reads it inside a run becomes a dependent of the count.
    pub fn double_count(&self, rt: &mut Runtime) -> (twice: i32)
        requires
            old(rt).wf(),
            self.wf(old(rt)),
            i32::MIN <= 2 * self@ <= i32::MAX,
        ensures
            twice == 2 * self@,
            final(rt).wf(),
            final(rt)@ == old(rt)@.read(self.spec_signal()),
    {
        doubled(self.count.get(rt))
    }
}

} // verus!
