//! Resources: values that are loaded asynchronously for a tracked input.
//!
//! The library does not perform the load.  Starting a fetch hands the caller
//! a [`FetchRequest`]; the caller runs the loader and reports how it ended
//! with [`Resource::complete`].  Each request carries a ticket, and only the
//! completion of the fetch that was started last is let through.

use crate::runtime::Runtime;
use crate::signal::Signal;
use vstd::prelude::*;
use vstd::std_specs::cmp::PartialEqSpec;

verus! {

/// Why a fetch produced no usable data.
#[derive(Debug, Clone, Copy, PartialEq, Eq, Structural)]
pub enum LoadError {
    /// The transport failed, or the answer was not a success.
    Fetch,
    /// The payload did not have the shape of a list of records.
    Parse,
}

/// What a reader of a resource sees.
#[derive(Debug, Clone, PartialEq, Eq)]
pub enum ResourceState<T> {
    /// No fetch has completed yet.
    Pending,
    /// The latest completed fetch produced this value.
    Ready(T),
    /// The latest completed fetch failed.
    Failed,
}

/// The order to run the loader once on `input`.
#[derive(Debug, Clone, Copy, PartialEq, Eq)]
pub struct FetchRequest<I> {
    pub ticket: u64,
    pub input: I,
}

/// The state that the completion of a fetch leaves: a failure of either kind
/// shows as `Failed`.
pub open spec fn settled<T>(outcome: Result<T, LoadError>) -> ResourceState<T> {
    match outcome {
        Ok(value) => ResourceState::Ready(value),
        Err(_) => ResourceState::Failed,
    }
}

/// Mathematical model of a resource.
pub struct ResourceView<I, T> {
    /// What readers see.
    pub state: ResourceState<T>,
    /// The input of the fetch that was started last.
    pub input: I,
    /// The ticket of the fetch that was started last; tickets count up from 1.
    pub issued: nat,
    /// Whether the fetch that was started last is still outstanding.
    pub loading: bool,
    /// The ticket of the fetch whose completion readers see; 0 before the
    /// first completion.
    pub resolved: nat,
}

impl<I, T> ResourceView<I, T> {
    /// A resource right after its creation: the first fetch is under way and
    /// nothing has been loaded.
    pub open spec fn fresh(input: I) -> Self {
        ResourceView { state: ResourceState::Pending, input, issued: 1, loading: true, resolved: 0 }
    }

    /// Tickets count up from 1, what is seen stems from a fetch that was
    /// started, and it is from before the latest fetch exactly while that one
    /// is outstanding.
    pub open spec fn wf(self) -> bool {
        &&& self.issued >= 1
        &&& self.loading ==> self.resolved < self.issued
        &&& !self.loading ==> self.resolved == self.issued
        &&& self.state is Pending <==> self.resolved == 0
    }

    /// A new fetch is started for `input`; what readers see stays.
    pub open spec fn start(self, input: I) -> Self {
        ResourceView { input, issued: self.issued + 1, loading: true, ..self }
    }

    /// One fetch after the other is started, for each input of `inputs`.
    pub open spec fn start_all(self, inputs: Seq<I>) -> Self
        decreases inputs.len(),
    {
        if inputs.len() == 0 {
            self
        } else {
            self.start_all(inputs.drop_last()).start(inputs.last())
        }
    }

    /// Whether the completion of the fetch with this ticket is let through:
    /// it is the fetch that was started last, and it has not completed before.
    pub open spec fn accepts(self, ticket: nat) -> bool {
        self.loading && ticket == self.issued
    }

    /// The fetch with this ticket has ended with `outcome`.
    pub open spec fn complete(self, ticket: nat, outcome: Result<T, LoadError>) -> Self {
        if self.accepts(ticket) {
            ResourceView { state: settled(outcome), loading: false, resolved: self.issued, ..self }
        } else {
            self
        }
    }
}

/// Starting a fetch and taking a completion keep a resource consistent, and
/// what readers see changes only when a completion is let through.
pub proof fn lemma_resource_steps<I, T>(
    resource: ResourceView<I, T>,
    input: I,
    ticket: nat,
    outcome: Result<T, LoadError>,
)
    requires
        resource.wf(),
    ensures
        resource.start(input).wf(),
        resource.start(input).state == resource.state,
        resource.complete(ticket, outcome).wf(),
        !resource.accepts(ticket) ==> resource.complete(ticket, outcome) == resource,
        resource.accepts(ticket) ==> resource.complete(ticket, outcome).state == settled(outcome),
        ResourceView::<I, T>::fresh(input).wf(),
{
}

/// Completions count by the order in which the fetches were started, not by
/// the order in which they end.  Of two fetches under way at once, the one
/// started first never shows: neither when it ends last, nor when it ends
/// first.
pub proof fn lemma_superseded_fetch_never_shows<I, T>(
    resource: ResourceView<I, T>,
    first_input: I,
    second_input: I,
    first_outcome: Result<T, LoadError>,
    second_outcome: Result<T, LoadError>,
)
    ensures
        ({
            let first = resource.start(first_input);
            let second = first.start(second_input);
            &&& second.complete(second.issued, second_outcome).complete(
                first.issued,
                first_outcome,
            ).state == settled(second_outcome)
            &&& second.complete(first.issued, first_outcome).state == resource.state
            &&& second.complete(first.issued, first_outcome).complete(
                second.issued,
                second_outcome,
            ).state == settled(second_outcome)
        }),
{
}

/// Until a fetch completes, a resource shows `Pending`, however many fetches
/// have been started.
pub proof fn lemma_pending_before_first_completion<I, T>(input: I, later: Seq<I>)
    ensures
        ResourceView::<I, T>::fresh(input).start_all(later).state is Pending,
        ResourceView::<I, T>::fresh(input).start_all(later).loading,
        ResourceView::<I, T>::fresh(input).start_all(later).issued == 1 + later.len(),
    decreases later.len(),
{
    if later.len() > 0 {
        lemma_pending_before_first_completion::<I, T>(input, later.drop_last());
    }
}

/// A value loaded asynchronously for the input `I`.
pub struct Resource<I, T> {
    value: Signal<ResourceState<T>>,
    observer: usize,
    input: I,
    issued: u64,
    loading: bool,
    resolved: u64,
}

impl<I, T> View for Resource<I, T> {
    type V = ResourceView<I, T>;

    closed spec fn view(&self) -> ResourceView<I, T> {
        ResourceView {
            state: self.value@,
            input: self.input,
            issued: self.issued as nat,
            loading: self.loading,
            resolved: self.resolved as nat,
        }
    }
}

impl<I: Copy, T> Resource<I, T> {
    /// The signal through which the state is read.
    pub closed spec fn spec_signal(&self) -> usize {
        self.value.spec_id()
    }

    /// The observer under which the resource reads its tracked input.
    pub closed spec fn spec_observer(&self) -> usize {
        self.observer
    }

    /// The resource is consistent and registered with `rt`.
    pub open spec fn wf(&self, rt: &Runtime) -> bool {
        &&& self@.wf()
        &&& self.spec_signal() < rt@.signals()
        &&& self.spec_observer() < rt@.observers()
    }

    /// A new resource for `input`, and the request for its first fetch.
    pub fn create(input: I, rt: &mut Runtime) -> (made: (Resource<I, T>, FetchRequest<I>))
        requires
            old(rt).wf(),
        ensures
            final(rt).wf(),
            final(rt)@ == old(rt)@.add_signal().add_observer(),
            made.0.wf(final(rt)),
            made.0.spec_signal() == old(rt)@.signals(),
            made.0.spec_observer() == old(rt)@.observers(),
            made.0@ == ResourceView::<I, T>::fresh(input),
            made.1.ticket == 1,
            made.1.input == input,
    {
        let value = Signal::create(ResourceState::Pending, rt);
        let observer = rt.add_observer();
        let resource = Resource { value, observer, input, issued: 1, loading: true, resolved: 0 };
        (resource, FetchRequest { ticket: 1, input })
    }

    /// A new resource that is keyed by `source`, and the request for its
    /// first fetch.  The resource reads the signal inside a run of its own,
    /// so that it is named when the signal is written.
    pub fn create_from(source: &Signal<I>, rt: &mut Runtime) -> (made: (
        Resource<I, T>,
        FetchRequest<I>,
    ))
        requires
            old(rt).wf(),
            source.wf(old(rt)),
        ensures
            final(rt).wf(),
            final(rt)@ == old(rt)@.add_signal().add_observer().enter(made.0.spec_observer()).read(
                source.spec_id(),
            ).exit(),
            made.0.wf(final(rt)),
            made.0.spec_signal() == old(rt)@.signals(),
            made.0.spec_observer() == old(rt)@.observers(),
            made.0@ == ResourceView::<I, T>::fresh(source@),
            made.1.ticket == 1,
            made.1.input == source@,
    {
        let value = Signal::create(ResourceState::Pending, rt);
        let observer = rt.add_observer();
        rt.enter(observer);
        let input = source.get(rt);
        rt.exit();
        let resource = Resource { value, observer, input, issued: 1, loading: true, resolved: 0 };
        (resource, FetchRequest { ticket: 1, input })
    }

    /// The signal through which the state is read.
    #[verifier::when_used_as_spec(spec_signal)]
    pub fn signal(&self) -> (id: usize)
        ensures
            id == self.spec_signal(),
    {
        self.value.id()
    }

    /// The observer under which the resource reads its tracked input.
    #[verifier::when_used_as_spec(spec_observer)]
    pub fn observer(&self) -> (id: usize)
        ensures
            id == self.spec_observer(),
    {
        self.observer
    }

    /// Reads the state.  Inside a run the innermost observer becomes a
    /// dependent of the resource.
    pub fn read<'a>(&'a self, rt: &mut Runtime) -> (state: &'a ResourceState<T>)
        requires
            old(rt).wf(),
            self.wf(old(rt)),
        ensures
            *state == self@.state,
            final(rt).wf(),
            final(rt)@ == old(rt)@.read(self.spec_signal()),
    {
        self.value.with(rt)
    }

    /// Reads the state without recording a dependency.
    pub fn state(&self) -> (state: &ResourceState<T>)
        ensures
            *state == self@.state,
    {
        self.value.peek()
    }

    /// Whether the fetch that was started last is still outstanding.
    pub fn is_loading(&self) -> (loading: bool)
        ensures
            loading == self@.loading,
    {
        self.loading
    }

    /// The ticket of the fetch that was started last.
    pub fn latest_ticket(&self) -> (ticket: u64)
        ensures
            ticket == self@.issued,
    {
        self.issued
    }

    /// The ticket of the fetch whose completion readers see; 0 before the
    /// first completion.
    pub fn resolved_ticket(&self) -> (ticket: u64)
        ensures
            ticket == self@.resolved,
    {
        self.resolved
    }

    /// Starts a new fetch for `input`, whether or not the input is new.
    pub fn refetch(&mut self, input: I) -> (request: FetchRequest<I>)
        requires
            old(self)@.wf(),
            old(self)@.issued < u64::MAX,
        ensures
            final(self)@.wf(),
            final(self)@ == old(self)@.start(input),
            final(self).spec_signal() == old(self).spec_signal(),
            final(self).spec_observer() == old(self).spec_observer(),
            request.ticket == final(self)@.issued,
            request.input == input,
    {
        self.issued = self.issued + 1;
        self.input = input;
        self.loading = true;
        FetchRequest { ticket: self.issued, input }
    }

    /// Reports that the fetch with this ticket has ended.  Only the fetch that
    /// was started last is let through, once: then the state becomes `Ready`
    /// or `Failed`, `true` is returned, and the dependents of the resource
    /// are returned to be run again.  Any other completion is dropped: the
    /// state stays, and `false` and an empty list are returned.
    pub fn complete(&mut self, ticket: u64, outcome: Result<T, LoadError>, rt: &Runtime) -> (done: (
        bool,
        Vec<usize>,
    ))
        requires
            old(self).wf(rt),
        ensures
            final(self).wf(rt),
            final(self)@ == old(self)@.complete(ticket as nat, outcome),
            final(self).spec_signal() == old(self).spec_signal(),
            final(self).spec_observer() == old(self).spec_observer(),
            done.0 == old(self)@.accepts(ticket as nat),
            done.1@ == (if done.0 {
                rt@.dependents(old(self).spec_signal())
            } else {
                Seq::empty()
            }),
    {
        if self.loading && ticket == self.issued {
            let state = match outcome {
                Ok(value) => ResourceState::Ready(value),
                Err(_) => ResourceState::Failed,
            };
            let notified = self.value.set(state, rt);
            self.loading = false;
            self.resolved = self.issued;
            (true, notified)
        } else {
            (false, Vec::new())
        }
    }
}

impl<I: Copy + PartialEq, T> Resource<I, T> {
    /// Takes note of the value that the tracked input has now.  A value that
    /// differs from the input of the latest fetch starts a new fetch, whose
    /// request is returned; an equal value changes nothing.
    pub fn refresh(&mut self, input: I) -> (request: Option<FetchRequest<I>>)
        requires
            old(self)@.wf(),
            old(self)@.issued < u64::MAX,
        ensures
            final(self)@.wf(),
            I::obeys_eq_spec() ==> (request is None <==> input.eq_spec(&old(self)@.input)),
            match request {
                Some(r) => {
                    &&& final(self)@ == old(self)@.start(input)
                    &&& r.ticket == final(self)@.issued
                    &&& r.input == input
                },
                None => final(self)@ == old(self)@,
            },
            final(self).spec_signal() == old(self).spec_signal(),
            final(self).spec_observer() == old(self).spec_observer(),
    {
        if input == self.input {
            None
        } else {
            Some(self.refetch(input))
        }
    }

    /// Runs the resource as an observer of `source`: reads the signal inside
    /// a run of its own, and takes note of the value as [`Resource::refresh`]
    /// does.  Afterwards the resource depends on `source` and on nothing
    /// else.
    pub fn refresh_from(&mut self, source: &Signal<I>, rt: &mut Runtime) -> (request: Option<
        FetchRequest<I>,
    >)
        requires
            old(rt).wf(),
            old(self).wf(old(rt)),
            source.wf(old(rt)),
            old(self)@.issued < u64::MAX,
        ensures
            final(rt).wf(),
            final(self).wf(final(rt)),
            final(rt)@ == old(rt)@.enter(old(self).spec_observer()).read(source.spec_id()).exit(),
            I::obeys_eq_spec() ==> (request is None <==> source@.eq_spec(&old(self)@.input)),
            match request {
                Some(r) => {
                    &&& final(self)@ == old(self)@.start(source@)
                    &&& r.ticket == final(self)@.issued
                    &&& r.input == source@
                },
                None => final(self)@ == old(self)@,
            },
            final(self).spec_signal() == old(self).spec_signal(),
            final(self).spec_observer() == old(self).spec_observer(),
    {
        rt.enter(self.observer);
        let input = source.get(rt);
        rt.exit();
        self.refresh(input)
    }
}

} // verus!
