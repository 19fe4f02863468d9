//! The state of one item of the list and the protocol of its toggle.
//!
//! A toggle is a remote mutation.  A gesture on an idle item is accepted: the
//! item shows as updating, and the caller gets a request to carry out.  A
//! gesture on an item that is updating is turned away; this is the policy of
//! this library for toggles that would overlap.  When the caller reports how
//! the call ended, the shared tally of things left to do is adjusted by the
//! value that `completed` had when the gesture was accepted, then the flag
//! is flipped; a failed call leaves both alone.  Either way the item is idle
//! again.

use crate::record::{contribution, TodoRecord};
use crate::runtime::Runtime;
use crate::signal::Signal;
use vstd::prelude::*;

verus! {

/// The remote call of a toggle did not go through.
#[derive(Debug, Clone, Copy, PartialEq, Eq, Structural)]
pub enum ToggleError {
    /// The transport failed.
    Transport,
}

/// How the report of a finished call was taken.
#[derive(Debug, Clone, Copy, PartialEq, Eq, Structural)]
pub enum Resolution {
    /// The call succeeded: the flag is flipped and the tally adjusted.
    Toggled,
    /// The call failed: the item is idle again with its flag as it was.
    Failed(ToggleError),
    /// No toggle was under way: nothing has changed.
    Ignored,
}

/// What happens to an item.
pub enum ItemEvent {
    /// The user asks for a toggle.
    Gesture,
    /// The remote call of the toggle under way has ended, well or not.
    Resolved(bool),
}

/// Mathematical model of an item: the two flags that the toggle protocol
/// speaks of.
pub struct ItemModel {
    pub completed: bool,
    pub updating: bool,
}

impl ItemModel {
    /// An item as it is made from a record.
    pub open spec fn seeded(completed: bool) -> ItemModel {
        ItemModel { completed, updating: false }
    }

    /// A gesture: an idle item starts updating, an updating item stays as it
    /// is.
    pub open spec fn begin(self) -> ItemModel {
        ItemModel { updating: true, ..self }
    }

    /// Whether a gesture is accepted.
    pub open spec fn accepts_gesture(self) -> bool {
        !self.updating
    }

    /// The end of the remote call.  Without a toggle under way nothing
    /// changes; else the item is idle again, with its flag flipped if the
    /// call went well.
    pub open spec fn resolve(self, ok: bool) -> ItemModel {
        if !self.updating {
            self
        } else if ok {
            ItemModel { completed: !self.completed, updating: false }
        } else {
            ItemModel { updating: false, ..self }
        }
    }

    /// By how much the end of the remote call changes the tally of things
    /// left to do: an item that was completed is to do again, an item that was
    /// not is done.
    pub open spec fn tally_change(self, ok: bool) -> int {
        if self.updating && ok {
            if self.completed {
                1
            } else {
                -1
            }
        } else {
            0
        }
    }

    /// How the report of the end of the remote call is taken.
    pub open spec fn resolution(self, outcome: Result<(), ToggleError>) -> Resolution {
        if !self.updating {
            Resolution::Ignored
        } else {
            match outcome {
                Ok(_) => Resolution::Toggled,
                Err(e) => Resolution::Failed(e),
            }
        }
    }

    pub open spec fn step(self, event: ItemEvent) -> ItemModel {
        match event {
            ItemEvent::Gesture => self.begin(),
            ItemEvent::Resolved(ok) => self.resolve(ok),
        }
    }

    /// The item after the events of `events`, one after the other.
    pub open spec fn run(self, events: Seq<ItemEvent>) -> ItemModel
        decreases events.len(),
    {
        if events.len() == 0 {
            self
        } else {
            self.run(events.drop_last()).step(events.last())
        }
    }

    /// What the item adds to the tally of things left to do.
    pub open spec fn contribution(self) -> int {
        contribution(self.completed)
    }
}

/// A successful toggle of an idle item flips its flag and moves the tally by
/// one in the direction that the flag had before: down for an item that was
/// not completed, up for one that was.  Afterwards the tally has changed by
/// exactly what the item adds to it.
pub proof fn lemma_toggle_sign(item: ItemModel)
    requires
        !item.updating,
    ensures
        item.begin().resolve(true).completed == !item.completed,
        !item.completed ==> item.begin().tally_change(true) == -1,
        item.completed ==> item.begin().tally_change(true) == 1,
        item.begin().tally_change(true) == item.begin().resolve(true).contribution()
            - item.contribution(),
        item.begin().resolve(false) == item,
        item.begin().tally_change(false) == 0,
{
}

/// From the gesture that is accepted to the end of the remote call the item
/// shows as updating, whatever gestures come in between, and its flag stays.
/// Right after the end of the call, however it went, the item no longer
/// shows as updating.
pub proof fn lemma_updating_visible(item: ItemModel, gestures: Seq<ItemEvent>, ok: bool)
    requires
        !item.updating,
        forall|i: int| 0 <= i < gestures.len() ==> #[trigger] gestures[i] is Gesture,
    ensures
        item.begin().run(gestures).updating,
        item.begin().run(gestures).completed == item.completed,
        !item.begin().run(gestures).resolve(ok).updating,
    decreases gestures.len(),
{
    if gestures.len() > 0 {
        let front = gestures.drop_last();
        assert forall|i: int| 0 <= i < front.len() implies #[trigger] front[i] is Gesture by {
            assert(front[i] == gestures[i]);
        }
        lemma_updating_visible(item, front, ok);
        assert(gestures.last() is Gesture);
    }
}

/// Whatever happens to an item, the tally moves in step with what the item
/// adds to it.
pub proof fn lemma_tally_follows_flag(item: ItemModel, ok: bool)
    ensures
        item.resolve(ok).contribution() == item.contribution() + item.tally_change(ok),
        item.begin().contribution() == item.contribution(),
{
}

/// The order to call the remote toggle endpoint for the item with this
/// identifier.
#[derive(Debug, Clone, Copy, PartialEq, Eq, Structural)]
pub struct ToggleRequest {
    pub id: u64,
}

/// What is seen of an item.
pub struct ItemView {
    /// The identifier that the remote source gave the record.
    pub id: u64,
    /// The text of the record.
    pub text: Seq<char>,
    /// The two flags.
    pub model: ItemModel,
    /// The signal that holds `completed`.
    pub completed_signal: usize,
    /// The signal that holds `updating`.
    pub updating_signal: usize,
}

/// The state of one item: its two flags, each in a signal of its own.
pub struct TodoItemState {
    id: u64,
    text: String,
    completed: Signal<bool>,
    updating: Signal<bool>,
    captured: Option<bool>,
}

impl View for TodoItemState {
    type V = ItemView;

    closed spec fn view(&self) -> ItemView {
        ItemView {
            id: self.id,
            text: self.text@,
            model: ItemModel { completed: self.completed@, updating: self.updating@ },
            completed_signal: self.completed.spec_id(),
            updating_signal: self.updating.spec_id(),
        }
    }
}

impl TodoItemState {
    /// While a toggle is under way, and only then, the item remembers the
    /// value that `completed` had when the gesture was accepted.
    pub closed spec fn inv(&self) -> bool {
        self.captured == (if self.updating@ {
            Some(self.completed@)
        } else {
            None::<bool>
        })
    }

    /// The item is consistent and its signals are registered with `rt`.
    pub open spec fn wf(&self, rt: &Runtime) -> bool {
        &&& self.inv()
        &&& self@.completed_signal < rt@.signals()
        &&& self@.updating_signal < rt@.signals()
    }

    /// Makes the item for `record` and counts it: the item takes its flag
    /// from the record, shows as idle, and adds one to `counter` if it is not
    /// completed.  This happens once, here.  The observers to run again are
    /// returned: the dependents of the counter if it was written, else none.
    pub fn mount(record: &TodoRecord, counter: &mut Signal<i32>, rt: &mut Runtime) -> (made: (
        TodoItemState,
        Vec<usize>,
    ))
        requires
            old(rt).wf(),
            old(counter).wf(old(rt)),
            !record.completed ==> old(counter)@ < i32::MAX,
        ensures
            final(rt).wf(),
            final(rt)@ == old(rt)@.add_signal().add_signal(),
            final(counter).spec_id() == old(counter).spec_id(),
            final(counter)@ == old(counter)@ + contribution(record.completed),
            made.0.wf(final(rt)),
            made.0@ == (ItemView {
                id: record.id,
                text: record.text@,
                model: ItemModel::seeded(record.completed),
                completed_signal: old(rt)@.signals() as usize,
                updating_signal: (old(rt)@.signals() + 1) as usize,
            }),
            made.1@ == (if record.completed {
                Seq::<usize>::empty()
            } else {
                old(rt)@.dependents(old(counter).spec_id())
            }),
    {
        let completed = Signal::create(record.completed, rt);
        let updating = Signal::create(false, rt);
        let notified = if !completed.get_untracked() {
            let count = counter.get_untracked();
            let told = counter.set(count + 1, rt);
            assert(told@ =~= old(rt)@.dependents(old(counter).spec_id()));
            told
        } else {
            Vec::new()
        };
        let item = TodoItemState {
            id: record.id,
            text: record.text.clone(),
            completed,
            updating,
            captured: None,
        };
        (item, notified)
    }

    /// Takes the item away and its share out of the tally: an item that is
    /// not completed takes one off `counter`.  The observers to run again are
    /// returned: the dependents of the counter if it was written, else none.
    pub fn unmount(self, counter: &mut Signal<i32>, rt: &Runtime) -> (notified: Vec<usize>)
        requires
            self.wf(rt),
            old(counter).wf(rt),
            !self@.model.completed ==> old(counter)@ > i32::MIN,
        ensures
            final(counter).spec_id() == old(counter).spec_id(),
            final(counter)@ == old(counter)@ - self@.model.contribution(),
            notified@ == (if self@.model.completed {
                Seq::<usize>::empty()
            } else {
                rt@.dependents(old(counter).spec_id())
            }),
    {
        if !self.completed.get_untracked() {
            let count = counter.get_untracked();
            counter.set(count - 1, rt)
        } else {
            Vec::new()
        }
    }

    /// The identifier that the remote source gave the record.
    pub fn id(&self) -> (id: u64)
        ensures
            id == self@.id,
    {
        self.id
    }

    /// The text of the record.
    pub fn text(&self) -> (text: &String)
        ensures
            text@ == self@.text,
    {
        &self.text
    }

    /// Reads `completed`.  Inside a run the innermost observer becomes a
    /// dependent of the flag.
    pub fn is_completed(&self, rt: &mut Runtime) -> (completed: bool)
        requires
            old(rt).wf(),
            self.wf(old(rt)),
        ensures
            completed == self@.model.completed,
            final(rt).wf(),
            final(rt)@ == old(rt)@.read(self@.completed_signal),
    {
        self.completed.get(rt)
    }

    /// Reads `updating`.  Inside a run the innermost observer becomes a
    /// dependent of the flag.
    pub fn is_updating(&self, rt: &mut Runtime) -> (updating: bool)
        requires
            old(rt).wf(),
            self.wf(old(rt)),
        ensures
            updating == self@.model.updating,
            final(rt).wf(),
            final(rt)@ == old(rt)@.read(self@.updating_signal),
    {
        self.updating.get(rt)
    }

    /// Reads `completed` without recording a dependency.
    pub fn completed(&self) -> (completed: bool)
        ensures
            completed == self@.model.completed,
    {
        self.completed.get_untracked()
    }

    /// Reads `updating` without recording a dependency.
    pub fn updating(&self) -> (updating: bool)
        ensures
            updating == self@.model.updating,
    {
        self.updating.get_untracked()
    }

    /// A gesture of the user.  On an idle item it is accepted: the item shows
    /// as updating from now on, and the request to carry out is returned with
    /// the dependents of `updating`.  On an item that is updating it is
    /// turned away: nothing changes, and no request and no observer are
    /// returned.
    pub fn begin_toggle(&mut self, rt: &Runtime) -> (begun: (Option<ToggleRequest>, Vec<usize>))
        requires
            old(self).wf(rt),
        ensures
            final(self).wf(rt),
            final(self)@ == (ItemView { model: old(self)@.model.begin(), ..old(self)@ }),
            begun.0 == (if old(self)@.model.accepts_gesture() {
                Some(ToggleRequest { id: old(self)@.id })
            } else {
                None::<ToggleRequest>
            }),
            begun.1@ == (if old(self)@.model.accepts_gesture() {
                rt@.dependents(old(self)@.updating_signal)
            } else {
                Seq::<usize>::empty()
            }),
    {
        if self.updating.get_untracked() {
            (None, Vec::new())
        } else {
            self.captured = Some(self.completed.get_untracked());
            let notified = self.updating.set(true, rt);
            (Some(ToggleRequest { id: self.id }), notified)
        }
    }

    /// The report that the remote call has ended.  After a success the tally
    /// is adjusted by the value that `completed` had when the gesture was
    /// accepted, then the flag is flipped, then the item stops updating; the
    /// dependents of the counter, of `completed` and of `updating` are
    /// returned, in this order.  After a failure the item stops updating and
    /// nothing else changes; the dependents of `updating` are returned.
    /// Without a toggle under way nothing changes and no observer is returned.
    pub fn resolve(
        &mut self,
        outcome: Result<(), ToggleError>,
        counter: &mut Signal<i32>,
        rt: &Runtime,
    ) -> (done: (Resolution, Vec<usize>))
        requires
            old(self).wf(rt),
            old(counter).wf(rt),
            i32::MIN <= old(counter)@ + old(self)@.model.tally_change(outcome is Ok) <= i32::MAX,
        ensures
            final(self).wf(rt),
            final(self)@ == (ItemView {
                model: old(self)@.model.resolve(outcome is Ok),
                ..old(self)@
            }),
            final(counter).spec_id() == old(counter).spec_id(),
            final(counter)@ == old(counter)@ + old(self)@.model.tally_change(outcome is Ok),
            done.0 == old(self)@.model.resolution(outcome),
            done.1@ == (match done.0 {
                Resolution::Toggled => rt@.dependents(old(counter).spec_id()) + rt@.dependents(
                    old(self)@.completed_signal,
                ) + rt@.dependents(old(self)@.updating_signal),
                Resolution::Failed(_) => rt@.dependents(old(self)@.updating_signal),
                Resolution::Ignored => Seq::<usize>::empty(),
            }),
    {
        match self.captured {
            None => (Resolution::Ignored, Vec::new()),
            Some(was_completed) => {
                self.captured = None;
                match outcome {
                    Ok(_) => {
                        let count = counter.get_untracked();
                        let mut notified = if was_completed {
                            counter.set(count + 1, rt)
                        } else {
                            counter.set(count - 1, rt)
                        };
                        let mut told = self.completed.set(!was_completed, rt);
                        notified.append(&mut told);
                        let mut told = self.updating.set(false, rt);
                        notified.append(&mut told);
                        (Resolution::Toggled, notified)
                    },
                    Err(e) => {
                        let notified = self.updating.set(false, rt);
                        (Resolution::Failed(e), notified)
                    },
                }
            },
        }
    }
}

} // verus!
