//! The page: the list resource, the items made from what it has loaded, and
//! the tally of things left to do that the items share.
//!
//! The tally is not counted anew when the list is shown.  Each item adds its
//! share once, when it is made, and takes it back when it is taken away, and
//! each toggle that succeeds moves the tally by one.  Showing the list again
//! for the same load makes no item and counts nothing twice.

use crate::item::{ItemEvent, ItemModel, ItemView, Resolution, TodoItemState, ToggleError};
use crate::record::{incomplete_count, TodoRecord};
use crate::resource::{FetchRequest, LoadError, Resource, ResourceState, ResourceView};
use crate::runtime::{lemma_add_signals, lemma_add_signals_sum, lemma_read, Graph, Runtime};
use crate::signal::Signal;
use vstd::prelude::*;

verus! {

/// What is seen of each item of a list of items.
pub open spec fn views(items: Seq<TodoItemState>) -> Seq<ItemView> {
    Seq::new(items.len(), |i: int| items[i]@)
}

/// How many of `items` are not completed.
pub open spec fn left(items: Seq<ItemView>) -> int
    decreases items.len(),
{
    if items.len() == 0 {
        0
    } else {
        left(items.drop_last()) + items.last().model.contribution()
    }
}

/// There is one item for each record, in the order of the records, with the
/// identifier and the text of its record.
pub open spec fn made_from(items: Seq<ItemView>, records: Seq<TodoRecord>) -> bool {
    &&& items.len() == records.len()
    &&& forall|i: int|
        0 <= i < items.len() ==> (#[trigger] items[i]).id == records[i].id && items[i].text
            == records[i].text@
}

/// The item that is made from `record` when its two signals are registered
/// as `first_signal` and the one after.
pub open spec fn seeded(record: TodoRecord, first_signal: int) -> ItemView {
    ItemView {
        id: record.id,
        text: record.text@,
        model: ItemModel::seeded(record.completed),
        completed_signal: first_signal as usize,
        updating_signal: (first_signal + 1) as usize,
    }
}

/// The items are as they are right after they were made from the records:
/// each has the flag of its record and is idle, and their signals follow
/// each other from `first_signal` on.
pub open spec fn seeded_from(
    items: Seq<ItemView>,
    records: Seq<TodoRecord>,
    first_signal: int,
) -> bool {
    &&& items.len() == records.len()
    &&& forall|i: int|
        0 <= i < items.len() ==> #[trigger] items[i] == seeded(records[i], first_signal + 2 * i)
}

/// Between none and all of the items are left to do.
pub proof fn lemma_left_bounds(items: Seq<ItemView>)
    ensures
        0 <= left(items) <= items.len(),
    decreases items.len(),
{
    if items.len() > 0 {
        lemma_left_bounds(items.drop_last());
    }
}

/// Replacing one item changes the tally by the difference of what the two
/// items add to it.
pub proof fn lemma_left_update(items: Seq<ItemView>, at: int, item: ItemView)
    requires
        0 <= at < items.len(),
    ensures
        left(items.update(at, item)) == left(items) - items[at].model.contribution()
            + item.model.contribution(),
    decreases items.len(),
{
    let changed = items.update(at, item);
    if at == items.len() - 1 {
        assert(changed.drop_last() =~= items.drop_last());
    } else {
        lemma_left_update(items.drop_last(), at, item);
        assert(changed.drop_last() =~= items.drop_last().update(at, item));
    }
}

/// The tally stays the number of items left to do through everything that
/// happens to an item: a gesture moves neither, and the end of a remote call
/// moves both by the same step.
pub proof fn lemma_tally_follows_items(items: Seq<ItemView>, at: int, event: ItemEvent)
    requires
        0 <= at < items.len(),
    ensures
        left(items.update(at, ItemView { model: items[at].model.step(event), ..items[at] }))
            == left(items) + (match event {
            ItemEvent::Gesture => 0,
            ItemEvent::Resolved(ok) => items[at].model.tally_change(ok),
        }),
{
    lemma_left_update(items, at, ItemView { model: items[at].model.step(event), ..items[at] });
}

/// Right after the items were made, as many of them are left to do as there
/// are records that are not completed.
pub proof fn lemma_left_seeded(items: Seq<ItemView>, records: Seq<TodoRecord>, first_signal: int)
    requires
        seeded_from(items, records, first_signal),
    ensures
        left(items) == incomplete_count(records),
        made_from(items, records),
    decreases items.len(),
{
    if items.len() > 0 {
        assert(items.last() == seeded(records.last(), first_signal + 2 * (items.len() - 1)));
        assert(seeded_from(items.drop_last(), records.drop_last(), first_signal)) by {
            assert forall|i: int| 0 <= i < items.drop_last().len() implies #[trigger] items.drop_last()[i]
                == seeded(records.drop_last()[i], first_signal + 2 * i) by {
                assert(items.drop_last()[i] == items[i]);
            }
        }
        lemma_left_seeded(items.drop_last(), records.drop_last(), first_signal);
    }
    assert forall|i: int| 0 <= i < items.len() implies (#[trigger] items[i]).id == records[i].id
        && items[i].text == records[i].text@ by {
        assert(items[i] == seeded(records[i], first_signal + 2 * i));
    }
}

/// Takes all items away and their shares out of the tally.  Tells whether
/// the counter was written.
fn unmount_all(items: &mut Vec<TodoItemState>, counter: &mut Signal<i32>, rt: &Runtime) -> (wrote:
    bool)
    requires
        forall|i: int| 0 <= i < old(items).len() ==> (#[trigger] old(items)[i]).wf(rt),
        old(counter).wf(rt),
        old(counter)@ == left(views(old(items)@)),
    ensures
        final(items).len() == 0,
        final(counter)@ == 0,
        final(counter).spec_id() == old(counter).spec_id(),
        wrote == (left(views(old(items)@)) > 0),
{
    let mut wrote = false;
    while items.len() > 0
        invariant
            forall|i: int| 0 <= i < items.len() ==> (#[trigger] items[i]).wf(rt),
            counter.wf(rt),
            counter.spec_id() == old(counter).spec_id(),
            counter@ == left(views(items@)),
            counter@ <= left(views(old(items)@)),
            wrote == (counter@ < left(views(old(items)@))),
        decreases items.len(),
    {
        let ghost before = items@;
        let item = items.pop().unwrap();
        proof {
            assert(views(items@) =~= views(before).drop_last());
            assert(views(before).last() == item@);
            lemma_left_bounds(views(items@));
        }
        if !item.completed() {
            wrote = true;
        }
        let _ = item.unmount(counter, rt);
    }
    wrote
}

/// Makes one item for each record, in order, and counts each into the tally.
/// Tells whether the counter was written.
fn mount_all(
    records: &Vec<TodoRecord>,
    items: &mut Vec<TodoItemState>,
    counter: &mut Signal<i32>,
    rt: &mut Runtime,
) -> (wrote: bool)
    requires
        old(items).len() == 0,
        old(counter)@ == 0,
        old(counter).wf(old(rt)),
        old(rt).wf(),
        records.len() <= i32::MAX,
    ensures
        final(rt).wf(),
        final(rt)@ == old(rt)@.add_signals(2 * records.len() as nat),
        final(counter).spec_id() == old(counter).spec_id(),
        final(counter)@ == incomplete_count(records@),
        seeded_from(views(final(items)@), records@, old(rt)@.signals() as int),
        forall|i: int| 0 <= i < final(items).len() ==> (#[trigger] final(items)[i]).wf(final(rt)),
        wrote == (incomplete_count(records@) > 0),
{
    let ghost first = old(rt)@.signals() as int;
    let mut i: usize = 0;
    while i < records.len()
        invariant
            i <= records.len(),
            records.len() <= i32::MAX,
            rt.wf(),
            old(rt).wf(),
            first == old(rt)@.signals(),
            rt@ == old(rt)@.add_signals(2 * i as nat),
            rt@.signals() == first + 2 * i,
            counter.wf(rt),
            counter.spec_id() == old(counter).spec_id(),
            counter@ == incomplete_count(records@.take(i as int)),
            0 <= counter@ <= i,
            items.len() == i,
            seeded_from(views(items@), records@.take(i as int), first),
            forall|k: int| 0 <= k < items.len() ==> (#[trigger] items[k]).wf(rt),
        decreases records.len() - i,
    {
        let ghost items_before = items@;
        let ghost graph_before = rt@;
        let (item, _) = TodoItemState::mount(&records[i], counter, rt);
        items.push(item);
        proof {
            lemma_add_signals_sum(old(rt)@, 2 * i as nat, 2);
            assert(graph_before.add_signals(2) == graph_before.add_signal().add_signal()) by {
                assert(graph_before.add_signals(1) == graph_before.add_signals(0).add_signal());
                assert(graph_before.add_signals(0) == graph_before);
            }
            lemma_add_signals(old(rt)@, (2 * i + 2) as nat);
            assert(records@.take(i + 1).drop_last() =~= records@.take(i as int));
            assert(records@.take(i + 1).last() == records[i as int]);
            assert forall|k: int| 0 <= k < items.len() implies #[trigger] views(items@)[k] == seeded(
                records@.take(i + 1)[k],
                first + 2 * k,
            ) by {
                if k < i {
                    assert(views(items_before)[k] == seeded(
                        records@.take(i as int)[k],
                        first + 2 * k,
                    ));
                    assert(items@[k] == items_before[k]);
                }
            }
            assert forall|k: int| 0 <= k < items.len() implies (#[trigger] items[k]).wf(rt) by {
                if k < i {
                    assert(items@[k] == items_before[k]);
                    assert(items_before[k].wf(rt));
                }
            }
        }
        i += 1;
    }
    proof {
        assert(records@.take(i as int) =~= records@);
    }
    counter.get_untracked() > 0
}

/// What the list fragment of the view is to show.
#[derive(Debug, Clone, Copy, PartialEq, Eq, Structural)]
pub enum Composition {
    /// Nothing has been loaded yet: one placeholder.
    Loading,
    /// The latest load failed.
    Failed,
    /// The latest load brought this many records, and there is one item for
    /// each.
    Items(usize),
}

/// A toggle under way: what to call the remote source for, and which item of
/// which load it belongs to.
#[derive(Debug, Clone, Copy, PartialEq, Eq, Structural)]
pub struct PendingToggle {
    /// The identifier of the record to toggle.
    pub id: u64,
    /// The place of the item in the list.
    pub index: usize,
    /// The ticket of the load from which the item was made.
    pub list_ticket: u64,
}

/// Mathematical model of the page.
pub struct PageView {
    /// Who depends on what.
    pub graph: Graph,
    /// The tally of things left to do.
    pub counter: int,
    /// The signal that holds the tally.
    pub counter_signal: usize,
    /// The list resource.
    pub list: ResourceView<(), Vec<TodoRecord>>,
    /// The signal through which the state of the list resource is read.
    pub list_signal: usize,
    /// The items that stand at present, in the order of their records.
    pub items: Seq<ItemView>,
    /// The ticket of the load for which the list was composed last; 0 before
    /// it was ever composed.
    pub mounted: nat,
}

impl PageView {
    /// The invariant of the page.  Its heart: the tally equals the number of
    /// items that are not completed.
    pub open spec fn wf(self) -> bool {
        &&& self.graph.wf()
        &&& self.list.wf()
        &&& self.counter_signal < self.graph.signals()
        &&& self.list_signal < self.graph.signals()
        &&& forall|i: int|
            0 <= i < self.items.len() ==> (#[trigger] self.items[i]).completed_signal
                < self.graph.signals() && self.items[i].updating_signal < self.graph.signals()
        &&& self.counter == left(self.items)
        &&& self.items.len() <= i32::MAX
        &&& self.mounted <= self.list.resolved
        &&& self.mounted == 0 ==> self.items.len() == 0
        &&& match self.list.state {
            ResourceState::Ready(records) => records.len() <= i32::MAX && (self.mounted
                == self.list.resolved ==> made_from(self.items, records@)),
            _ => self.mounted == self.list.resolved ==> self.items.len() == 0,
        }
    }

    /// Whether the list has been composed for what the resource shows now.
    pub open spec fn composed(self) -> bool {
        self.mounted == self.list.resolved
    }

    /// Whether composing the list writes the counter: items are taken away or
    /// made, and one of them is not completed.
    pub open spec fn compose_writes(self) -> bool {
        !self.composed() && (left(self.items) > 0 || (match self.list.state {
            ResourceState::Ready(records) => incomplete_count(records@) > 0,
            _ => false,
        }))
    }

    /// How many signals composing the list registers: two for each item made.
    pub open spec fn compose_signals(self) -> nat {
        match self.list.state {
            ResourceState::Ready(records) => if self.composed() {
                0
            } else {
                2 * records.len() as nat
            },
            _ => 0,
        }
    }

    /// Whether a toggle under way belongs to an item that stands now.
    pub open spec fn owns(self, pending: PendingToggle) -> bool {
        &&& pending.list_ticket == self.mounted
        &&& pending.index < self.items.len()
        &&& self.items[pending.index as int].id == pending.id
    }

    /// The page with the flags of the item at `index` replaced.
    pub open spec fn with_item(self, index: int, model: ItemModel) -> PageView {
        PageView {
            items: self.items.update(index, ItemView { model, ..self.items[index] }),
            ..self
        }
    }
}

/// The state behind the page.
pub struct TodoPage {
    rt: Runtime,
    counter: Signal<i32>,
    todos: Resource<(), Vec<TodoRecord>>,
    items: Vec<TodoItemState>,
    mounted: u64,
}

impl View for TodoPage {
    type V = PageView;

    closed spec fn view(&self) -> PageView {
        PageView {
            graph: self.rt@,
            counter: self.counter@ as int,
            counter_signal: self.counter.spec_id(),
            list: self.todos@,
            list_signal: self.todos.spec_signal(),
            items: views(self.items@),
            mounted: self.mounted as nat,
        }
    }
}

impl TodoPage {
    /// What the view does not show: each item is consistent, and the list
    /// resource is registered.
    pub closed spec fn inv(&self) -> bool {
        &&& forall|i: int| 0 <= i < self.items.len() ==> (#[trigger] self.items[i]).inv()
        &&& self.todos.spec_observer() < self.rt@.observers()
    }

    /// The page is consistent: see [`PageView::wf`].
    pub open spec fn wf(&self) -> bool {
        &&& self@.wf()
        &&& self.inv()
    }

    /// A page on which nothing has been loaded yet, and the request for the
    /// first load of the list.
    pub fn create() -> (made: (TodoPage, FetchRequest<()>))
        ensures
            made.0.wf(),
            made.0@.graph == Graph::empty().add_signal().add_signal().add_observer(),
            made.0@.counter == 0,
            made.0@.counter_signal == 0,
            made.0@.list == ResourceView::<(), Vec<TodoRecord>>::fresh(()),
            made.0@.list_signal == 1,
            made.0@.items.len() == 0,
            made.0@.mounted == 0,
            made.1.ticket == 1,
    {
        let mut rt = Runtime::new();
        let counter = Signal::create(0i32, &mut rt);
        let (todos, request) = Resource::create((), &mut rt);
        let page = TodoPage { rt, counter, todos, items: Vec::new(), mounted: 0 };
        assert(page@.items =~= Seq::<ItemView>::empty());
        (page, request)
    }
}

impl TodoPage {
    /// Registers an observer, a fragment of the view that wants to be run
    /// again when what it read has changed, and returns its number.
    pub fn add_observer(&mut self) -> (id: usize)
        requires
            old(self).wf(),
        ensures
            final(self).wf(),
            id == old(self)@.graph.observers(),
            final(self)@ == (PageView { graph: old(self)@.graph.add_observer(), ..old(self)@ }),
    {
        proof {
            crate::runtime::lemma_grow_wf(self.rt@);
        }
        self.rt.add_observer()
    }

    /// Number of observers that have been registered.
    pub fn observer_count(&self) -> (n: usize)
        ensures
            n == self@.graph.observers(),
    {
        self.rt.observer_count()
    }

    /// Opens a run of `observer`: what it reads from now on, until the run
    /// is closed, is what it depends on.
    pub fn enter(&mut self, observer: usize)
        requires
            old(self).wf(),
            observer < old(self)@.graph.observers(),
        ensures
            final(self).wf(),
            final(self)@ == (PageView { graph: old(self)@.graph.enter(observer), ..old(self)@ }),
    {
        self.rt.enter(observer);
    }

    /// Closes the innermost run.
    pub fn exit(&mut self)
        requires
            old(self).wf(),
        ensures
            final(self).wf(),
            final(self)@ == (PageView { graph: old(self)@.graph.exit(), ..old(self)@ }),
    {
        self.rt.exit();
    }

    /// Reads the tally of things left to do.  Inside a run the innermost
    /// observer becomes a dependent of the tally.
    pub fn remaining(&mut self) -> (left: i32)
        requires
            old(self).wf(),
        ensures
            final(self).wf(),
            left == old(self)@.counter,
            final(self)@ == (PageView {
                graph: old(self)@.graph.read(old(self)@.counter_signal),
                ..old(self)@
            }),
    {
        proof {
            lemma_read(self.rt@, self.counter.spec_id());
        }
        self.counter.get(&mut self.rt)
    }

    /// Number of items that stand at present.
    pub fn len(&self) -> (n: usize)
        ensures
            n == self@.items.len(),
    {
        self.items.len()
    }

    /// The identifier of the item at `index`.
    pub fn item_id(&self, index: usize) -> (id: u64)
        requires
            index < self@.items.len(),
        ensures
            id == self@.items[index as int].id,
    {
        self.items[index].id()
    }

    /// The text of the item at `index`.
    pub fn item_text(&self, index: usize) -> (text: &String)
        requires
            index < self@.items.len(),
        ensures
            text@ == self@.items[index as int].text,
    {
        self.items[index].text()
    }

    /// Reads `completed` of the item at `index`.  Inside a run the innermost
    /// observer becomes a dependent of the flag.
    pub fn item_completed(&mut self, index: usize) -> (completed: bool)
        requires
            old(self).wf(),
            index < old(self)@.items.len(),
        ensures
            final(self).wf(),
            completed == old(self)@.items[index as int].model.completed,
            final(self)@ == (PageView {
                graph: old(self)@.graph.read(old(self)@.items[index as int].completed_signal),
                ..old(self)@
            }),
    {
        proof {
            assert(self@.items[index as int] == self.items[index as int]@);
            lemma_read(self.rt@, self.items[index as int]@.completed_signal);
        }
        self.items[index].is_completed(&mut self.rt)
    }

    /// Reads `updating` of the item at `index`.  Inside a run the innermost
    /// observer becomes a dependent of the flag.
    pub fn item_updating(&mut self, index: usize) -> (updating: bool)
        requires
            old(self).wf(),
            index < old(self)@.items.len(),
        ensures
            final(self).wf(),
            updating == old(self)@.items[index as int].model.updating,
            final(self)@ == (PageView {
                graph: old(self)@.graph.read(old(self)@.items[index as int].updating_signal),
                ..old(self)@
            }),
    {
        proof {
            assert(self@.items[index as int] == self.items[index as int]@);
            lemma_read(self.rt@, self.items[index as int]@.updating_signal);
        }
        self.items[index].is_updating(&mut self.rt)
    }

    /// The ticket of the fetch of the list that was started last.
    pub fn latest_ticket(&self) -> (ticket: u64)
        ensures
            ticket == self@.list.issued,
    {
        self.todos.latest_ticket()
    }

    /// Asks for the list to be loaded again and returns the request for the
    /// new fetch.  What the page shows stays until that fetch completes.
    pub fn reload(&mut self) -> (request: FetchRequest<()>)
        requires
            old(self).wf(),
            old(self)@.list.issued < u64::MAX,
        ensures
            final(self).wf(),
            final(self)@ == (PageView { list: old(self)@.list.start(()), ..old(self)@ }),
            request.ticket == final(self)@.list.issued,
    {
        self.todos.refetch(())
    }

    /// Reports that the fetch of the list with this ticket has ended.  Only
    /// the fetch that was started last is let through, once: then the list
    /// resource shows its records or its failure, `true` is returned, and the
    /// dependents of the resource are returned to be run again.  Any other
    /// completion is dropped.  The items stay as they are until the list is
    /// composed again.
    pub fn list_loaded(&mut self, ticket: u64, outcome: Result<Vec<TodoRecord>, LoadError>) -> (done:
        (bool, Vec<usize>))
        requires
            old(self).wf(),
            outcome matches Ok(records) ==> records.len() <= i32::MAX,
        ensures
            final(self).wf(),
            final(self)@ == (PageView {
                list: old(self)@.list.complete(ticket as nat, outcome),
                ..old(self)@
            }),
            done.0 == old(self)@.list.accepts(ticket as nat),
            done.1@ == (if done.0 {
                old(self)@.graph.dependents(old(self)@.list_signal)
            } else {
                Seq::<usize>::empty()
            }),
    {
        self.todos.complete(ticket, outcome, &self.rt)
    }

    /// Composes the list from what the list resource shows, and tells what
    /// the list fragment is to show.  The read of the resource is tracked.
    ///
    /// While nothing has been loaded there are no items.  For a load that
    /// failed, the items of the load before are taken away.  For a load that
    /// brought records, the items of the load before are taken away and one
    /// item is made for each record, in order; each adds its share to the
    /// tally, so that the tally is then the number of records that are not
    /// completed.  Composing again for the same load changes nothing.
    ///
    /// The dependents of the tally are returned to be run again if the tally
    /// was written, once however often it was written.
    pub fn compose(&mut self) -> (shown: (Composition, Vec<usize>))
        requires
            old(self).wf(),
        ensures
            final(self).wf(),
            final(self)@.list == old(self)@.list,
            final(self)@.counter_signal == old(self)@.counter_signal,
            final(self)@.list_signal == old(self)@.list_signal,
            final(self)@.mounted == old(self)@.list.resolved,
            final(self)@.graph == old(self)@.graph.read(old(self)@.list_signal).add_signals(
                old(self)@.compose_signals(),
            ),
            old(self)@.composed() ==> final(self)@.items == old(self)@.items,
            match old(self)@.list.state {
                ResourceState::Pending => shown.0 == Composition::Loading && final(self)@.items.len()
                    == 0,
                ResourceState::Failed => shown.0 == Composition::Failed && final(self)@.items.len()
                    == 0,
                ResourceState::Ready(records) => {
                    &&& shown.0 == Composition::Items(records.len())
                    &&& made_from(final(self)@.items, records@)
                    &&& !old(self)@.composed() ==> seeded_from(
                        final(self)@.items,
                        records@,
                        old(self)@.graph.signals() as int,
                    ) && final(self)@.counter == incomplete_count(records@)
                },
            },
            shown.1@ == (if old(self)@.compose_writes() {
                final(self)@.graph.dependents(old(self)@.counter_signal)
            } else {
                Seq::<usize>::empty()
            }),
    {
        let ghost before = self@;
        let ghost read_graph = before.graph.read(before.list_signal);
        proof {
            lemma_read(before.graph, before.list_signal);
            lemma_add_signals(read_graph, before.compose_signals());
        }
        let resolved = self.todos.resolved_ticket();
        let composed = self.mounted == resolved;
        let state = self.todos.read(&mut self.rt);
        proof {
            assert forall|i: int| 0 <= i < self.items.len() implies (#[trigger] self.items[i]).wf(
                &self.rt,
            ) by {
                assert(before.items[i] == self.items[i]@);
            }
        }
        let (shown, wrote) = match state {
            ResourceState::Pending => (Composition::Loading, false),
            ResourceState::Failed => {
                if composed {
                    (Composition::Failed, false)
                } else {
                    let wrote = unmount_all(&mut self.items, &mut self.counter, &self.rt);
                    self.mounted = resolved;
                    (Composition::Failed, wrote)
                }
            },
            ResourceState::Ready(records) => {
                if composed {
                    (Composition::Items(records.len()), false)
                } else {
                    let took = unmount_all(&mut self.items, &mut self.counter, &self.rt);
                    let made = mount_all(records, &mut self.items, &mut self.counter, &mut self.rt);
                    self.mounted = resolved;
                    proof {
                        lemma_left_seeded(views(self.items@), records@, read_graph.signals() as int);
                    }
                    (Composition::Items(records.len()), took || made)
                }
            },
        };
        let notified = if wrote {
            self.rt.dependents(self.counter.id())
        } else {
            Vec::new()
        };
        proof {
            assert(self@.graph == read_graph.add_signals(before.compose_signals()));
            assert(self@.items.len() == 0 ==> self@.items =~= Seq::<ItemView>::empty());
        }
        (shown, notified)
    }

    /// A gesture of the user on the item at `index`.  On an idle item it is
    /// accepted: the item shows as updating from now on, and the toggle to
    /// carry out is returned with the dependents of its `updating` flag.  On
    /// an item that is updating, and where there is no item, it is turned
    /// away: nothing changes, and no toggle and no observer are returned.
    pub fn toggle(&mut self, index: usize) -> (begun: (Option<PendingToggle>, Vec<usize>))
        requires
            old(self).wf(),
        ensures
            final(self).wf(),
            index < old(self)@.items.len() && old(self)@.items[index as int].model.accepts_gesture()
                ==> {
                &&& final(self)@ == old(self)@.with_item(
                    index as int,
                    old(self)@.items[index as int].model.begin(),
                )
                &&& begun.0 == Some(
                    PendingToggle {
                        id: old(self)@.items[index as int].id,
                        index,
                        list_ticket: old(self)@.mounted as u64,
                    },
                )
                &&& begun.1@ == old(self)@.graph.dependents(
                    old(self)@.items[index as int].updating_signal,
                )
            },
            !(index < old(self)@.items.len() && old(self)@.items[index as int].model.accepts_gesture())
                ==> {
                &&& final(self)@ == old(self)@
                &&& begun.0 is None
                &&& begun.1@ == Seq::<usize>::empty()
            },
    {
        if index >= self.items.len() {
            return (None, Vec::new());
        }
        let ghost before = self@;
        proof {
            assert(before.items[index as int] == self.items[index as int]@);
        }
        let (request, notified) = self.items[index].begin_toggle(&self.rt);
        proof {
            let changed = ItemView {
                model: before.items[index as int].model.begin(),
                ..before.items[index as int]
            };
            assert(self@.items =~= before.items.update(index as int, changed));
            lemma_left_update(before.items, index as int, changed);
            assert(forall|i: int|
                0 <= i < self.items.len() && i != index ==> self.items[i] == old(self).items[i]);
        }
        match request {
            Some(r) => (
                Some(PendingToggle { id: r.id, index, list_ticket: self.mounted }),
                notified,
            ),
            None => {
                proof {
                    assert(self@.items =~= before.items);
                }
                (None, notified)
            },
        }
    }

    /// The report that the remote call of a toggle has ended.
    ///
    /// Where the item of the toggle still stands and is updating: after a
    /// success the tally moves by one, in the direction given by the value
    /// that `completed` had when the gesture was accepted, and the flag is
    /// flipped; after a failure both stay.  Either way the item is idle
    /// again.  The observers to run again are returned: after a success the
    /// dependents of the tally, of `completed` and of `updating`, in this
    /// order; after a failure those of `updating`.
    ///
    /// Where the item was taken away in the meantime, or is not updating,
    /// the report is ignored and nothing changes.
    pub fn toggle_resolved(&mut self, pending: PendingToggle, outcome: Result<(), ToggleError>) -> (done:
        (Resolution, Vec<usize>))
        requires
            old(self).wf(),
        ensures
            final(self).wf(),
            old(self)@.owns(pending) ==> {
                let item = old(self)@.items[pending.index as int];
                &&& final(self)@ == (PageView {
                    counter: old(self)@.counter + item.model.tally_change(outcome is Ok),
                    ..old(self)@.with_item(pending.index as int, item.model.resolve(outcome is Ok))
                })
                &&& done.0 == item.model.resolution(outcome)
                &&& done.1@ == (match done.0 {
                    Resolution::Toggled => old(self)@.graph.dependents(old(self)@.counter_signal)
                        + old(self)@.graph.dependents(item.completed_signal)
                        + old(self)@.graph.dependents(item.updating_signal),
                    Resolution::Failed(_) => old(self)@.graph.dependents(item.updating_signal),
                    Resolution::Ignored => Seq::<usize>::empty(),
                })
            },
            !old(self)@.owns(pending) ==> {
                &&& final(self)@ == old(self)@
                &&& done.0 == Resolution::Ignored
                &&& done.1@ == Seq::<usize>::empty()
            },
    {
        let index = pending.index;
        if pending.list_ticket != self.mounted || index >= self.items.len() {
            return (Resolution::Ignored, Vec::new());
        }
        let ghost before = self@;
        proof {
            assert(before.items[index as int] == self.items[index as int]@);
        }
        if self.items[index].id() != pending.id {
            return (Resolution::Ignored, Vec::new());
        }
        proof {
            let item = before.items[index as int];
            let changed = ItemView { model: item.model.resolve(outcome is Ok), ..item };
            lemma_left_update(before.items, index as int, changed);
            lemma_left_bounds(before.items.update(index as int, changed));
            crate::item::lemma_tally_follows_flag(item.model, outcome is Ok);
        }
        let done = self.items[index].resolve(outcome, &mut self.counter, &self.rt);
        proof {
            let item = before.items[index as int];
            let changed = ItemView { model: item.model.resolve(outcome is Ok), ..item };
            assert(self@.items =~= before.items.update(index as int, changed));
            assert(forall|i: int|
                0 <= i < self.items.len() && i != index ==> self.items[i] == old(self).items[i]);
        }
        done
    }
}

} // verus!
