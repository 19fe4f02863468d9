//! Signals: mutable cells whose reads are tracked and whose writes tell
//! every dependent, whether or not the value has changed.

use crate::runtime::{Graph, Runtime};
use vstd::prelude::*;

verus! {

/// The observers that are told of a write to `signal` that replaces `before`
/// by `after`: all its dependents, in subscription order.  The two values
/// play no part; a write that changes nothing is announced like any other.
pub open spec fn notified_by_write<T>(g: Graph, signal: usize, before: T, after: T) -> Seq<usize> {
    g.dependents(signal)
}

/// A mutable cell of type `T`, registered with a [`Runtime`].
pub struct Signal<T> {
    id: usize,
    value: T,
}

impl<T> View for Signal<T> {
    type V = T;

    /// The value that the cell holds.
    closed spec fn view(&self) -> T {
        self.value
    }
}

impl<T> Signal<T> {
    /// The number under which the runtime knows the signal.
    pub closed spec fn spec_id(&self) -> usize {
        self.id
    }

    /// The signal is registered with `rt`.
    pub open spec fn wf(&self, rt: &Runtime) -> bool {
        self.spec_id() < rt@.signals()
    }

    /// A new signal that holds `initial` and has no dependents.
    pub fn create(initial: T, rt: &mut Runtime) -> (signal: Signal<T>)
        requires
            old(rt).wf(),
        ensures
            final(rt).wf(),
            final(rt)@ == old(rt)@.add_signal(),
            signal.spec_id() == old(rt)@.signals(),
            signal@ == initial,
            signal.wf(final(rt)),
    {
        let id = rt.add_signal();
        Signal { id, value: initial }
    }

    /// The number under which the runtime knows the signal.
    #[verifier::when_used_as_spec(spec_id)]
    pub fn id(&self) -> (id: usize)
        ensures
            id == self.spec_id(),
    {
        self.id
    }

    /// Reads the value.  Inside a run the innermost observer becomes a
    /// dependent of the signal; outside of any run this is a plain read.
    pub fn with<'a>(&'a self, rt: &mut Runtime) -> (value: &'a T)
        requires
            old(rt).wf(),
            self.wf(old(rt)),
        ensures
            *value == self@,
            final(rt).wf(),
            final(rt)@ == old(rt)@.read(self.spec_id()),
    {
        rt.track(self.id);
        &self.value
    }

    /// Reads the value without recording a dependency.
    pub fn peek(&self) -> (value: &T)
        ensures
            *value == self@,
    {
        &self.value
    }

    /// Replaces the value and returns the observers to run again: every
    /// dependent once, in subscription order, also where `value` equals what
    /// the signal held.
    pub fn set(&mut self, value: T, rt: &Runtime) -> (notified: Vec<usize>)
        requires
            old(self).wf(rt),
        ensures
            final(self).spec_id() == old(self).spec_id(),
            final(self)@ == value,
            notified@ == notified_by_write(rt@, old(self).spec_id(), old(self)@, value),
    {
        self.value = value;
        rt.dependents(self.id)
    }
}

impl<T: Copy> Signal<T> {
    /// Reads the value as [`Signal::with`] does and hands out a copy.
    pub fn get(&self, rt: &mut Runtime) -> (value: T)
        requires
            old(rt).wf(),
            self.wf(old(rt)),
        ensures
            value == self@,
            final(rt).wf(),
            final(rt)@ == old(rt)@.read(self.spec_id()),
    {
        rt.track(self.id);
        self.value
    }

    /// Reads the value without recording a dependency and hands out a copy.
    pub fn get_untracked(&self) -> (value: T)
        ensures
            value == self@,
    {
        self.value
    }

    /// Replaces the value by what `f` makes of it and returns the observers to
    /// run again: every dependent once, in subscription order, also where `f`
    /// hands back the value it was given.
    pub fn update<F: FnOnce(T) -> T>(&mut self, f: F, rt: &Runtime) -> (notified: Vec<usize>)
        requires
            old(self).wf(rt),
            f.requires((old(self)@,)),
        ensures
            final(self).spec_id() == old(self).spec_id(),
            f.ensures((old(self)@,), final(self)@),
            notified@ == notified_by_write(rt@, old(self).spec_id(), old(self)@, final(self)@),
    {
        let next = f(self.value);
        self.value = next;
        rt.dependents(self.id)
    }
}

/// A write is announced to each dependent exactly once.
pub proof fn lemma_write_notifies_each_dependent_once<T>(
    g: Graph,
    signal: usize,
    before: T,
    after: T,
    observer: usize,
)
    requires
        g.wf(),
        signal < g.signals(),
    ensures
        notified_by_write(g, signal, before, after).to_multiset().count(observer) == (if g.subscribed(
            signal,
            observer,
        ) {
            1nat
        } else {
            0nat
        }),
{
    let list = g.dependents(signal);
    assert(g.subscribers_ok(signal as int));
    list.lemma_multiset_has_no_duplicates();
    broadcast use vstd::seq_lib::group_to_multiset_ensures;

    if !list.contains(observer) {
        assert(!list.to_multiset().contains(observer));
    }
}

/// No write is held back because it changes nothing: an observer that read a
/// signal during its latest run is told once of a write that puts back the
/// value the signal already held.
pub proof fn lemma_unchanged_write_recomputes_reader<T>(
    g: Graph,
    observer: usize,
    reads: Seq<usize>,
    signal: usize,
    value: T,
)
    requires
        g.wf(),
        observer < g.observers(),
        forall|i: int| 0 <= i < reads.len() ==> #[trigger] reads[i] < g.signals(),
        reads.contains(signal),
    ensures
        notified_by_write(
            g.enter(observer).read_all(reads).exit(),
            signal,
            value,
            value,
        ).to_multiset().count(observer) == 1,
{
    let after_run = g.enter(observer).read_all(reads).exit();
    crate::runtime::lemma_run_tracks_exactly(g, observer, reads);
    let at = choose|i: int| 0 <= i < reads.len() && reads[i] == signal;
    assert(reads[at] < g.signals());
    crate::runtime::lemma_enter(g, observer);
    crate::runtime::lemma_read_all(g.enter(observer), reads);
    assert(after_run.subscribed(signal, observer));
    lemma_write_notifies_each_dependent_once(after_run, signal, value, value, observer);
}

} // verus!
