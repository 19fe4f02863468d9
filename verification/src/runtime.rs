//! The dependency graph between signals and the computations that read them.
//!
//! A computation that wants to be told when its inputs change registers as an
//! observer.  While it runs it is the innermost open context, and every signal
//! read in that time records an edge in both directions: the signal keeps a
//! back-reference to the observer, the observer keeps the list of signals it
//! has read.  When the observer runs again, its old edges are dropped first,
//! so its dependencies are exactly the reads of its most recent run.

use vstd::prelude::*;

verus! {

/// The list `list` with the entry `x` taken out and the order of the rest kept.
pub open spec fn without(list: Seq<usize>, x: usize) -> Seq<usize> {
    if list.contains(x) {
        list.remove(list.index_of(x))
    } else {
        list
    }
}

/// Mathematical model of the dependency graph.
#[verifier::ext_equal]
pub struct Graph {
    /// For each signal, the observers that depend on it, in subscription order.
    pub subscribers: Seq<Seq<usize>>,
    /// For each observer, the signals it read during its most recent run, in
    /// the order of their first read.
    pub sources: Seq<Seq<usize>>,
    /// The observers whose runs are open, innermost last.
    pub stack: Seq<usize>,
}

impl Graph {
    pub open spec fn empty() -> Graph {
        Graph { subscribers: Seq::empty(), sources: Seq::empty(), stack: Seq::empty() }
    }

    /// Number of signals that have been registered.
    pub open spec fn signals(self) -> nat {
        self.subscribers.len()
    }

    /// Number of observers that have been registered.
    pub open spec fn observers(self) -> nat {
        self.sources.len()
    }

    /// The observer whose run is innermost, if any run is open.
    pub open spec fn current(self) -> Option<usize> {
        if self.stack.len() > 0 {
            Some(self.stack.last())
        } else {
            None
        }
    }

    /// `observer` is among the dependents of `signal`.
    pub open spec fn subscribed(self, signal: usize, observer: usize) -> bool {
        self.subscribers[signal as int].contains(observer)
    }

    /// `signal` is among the signals that `observer` read in its latest run.
    pub open spec fn reads(self, observer: usize, signal: usize) -> bool {
        self.sources[observer as int].contains(signal)
    }

    /// The dependents of `signal`, in subscription order.
    pub open spec fn dependents(self, signal: usize) -> Seq<usize> {
        self.subscribers[signal as int]
    }

    pub open spec fn subscribers_ok(self, signal: int) -> bool {
        &&& self.subscribers[signal].no_duplicates()
        &&& forall|i: int|
            0 <= i < self.subscribers[signal].len() ==> #[trigger] self.subscribers[signal][i]
                < self.sources.len()
    }

    pub open spec fn sources_ok(self, observer: int) -> bool {
        &&& self.sources[observer].no_duplicates()
        &&& forall|i: int|
            0 <= i < self.sources[observer].len() ==> #[trigger] self.sources[observer][i]
                < self.subscribers.len()
    }

    /// Every list is free of duplicates and names only registered signals and
    /// observers, and the two directions of the graph agree.
    pub open spec fn wf(self) -> bool {
        &&& forall|s: int| 0 <= s < self.subscribers.len() ==> #[trigger] self.subscribers_ok(s)
        &&& forall|o: int| 0 <= o < self.sources.len() ==> #[trigger] self.sources_ok(o)
        &&& forall|s: usize, o: usize|
            #![trigger self.subscribed(s, o)]
            #![trigger self.reads(o, s)]
            s < self.subscribers.len() && o < self.sources.len() ==> (self.subscribed(s, o)
                <==> self.reads(o, s))
        &&& forall|i: int| 0 <= i < self.stack.len() ==> #[trigger] self.stack[i] < self.sources.len()
    }

    /// The graph with one more signal, which nobody depends on yet.
    pub open spec fn add_signal(self) -> Graph {
        Graph { subscribers: self.subscribers.push(Seq::empty()), ..self }
    }

    /// The graph with `count` more signals.
    pub open spec fn add_signals(self, count: nat) -> Graph
        decreases count,
    {
        if count == 0 {
            self
        } else {
            self.add_signals((count - 1) as nat).add_signal()
        }
    }

    /// The graph with one more observer, which has read nothing yet.
    pub open spec fn add_observer(self) -> Graph {
        Graph { sources: self.sources.push(Seq::empty()), ..self }
    }

    /// `observer` starts a run: it gives up every subscription of its previous
    /// run and becomes the innermost context.
    pub open spec fn enter(self, observer: usize) -> Graph {
        Graph {
            subscribers: Seq::new(
                self.subscribers.len(),
                |s: int| without(self.subscribers[s], observer),
            ),
            sources: self.sources.update(observer as int, Seq::empty()),
            stack: self.stack.push(observer),
        }
    }

    /// The innermost run ends.  Without an open run nothing changes.
    pub open spec fn exit(self) -> Graph {
        if self.stack.len() > 0 {
            Graph { stack: self.stack.drop_last(), ..self }
        } else {
            self
        }
    }

    /// `signal` is read.  Inside a run the innermost observer becomes a
    /// dependent of the signal, once; outside of any run nothing changes.
    pub open spec fn read(self, signal: usize) -> Graph {
        match self.current() {
            Some(o) => if self.subscribed(signal, o) {
                self
            } else {
                Graph {
                    subscribers: self.subscribers.update(
                        signal as int,
                        self.subscribers[signal as int].push(o),
                    ),
                    sources: self.sources.update(o as int, self.sources[o as int].push(signal)),
                    stack: self.stack,
                }
            },
            None => self,
        }
    }

    /// The signals of `signals` are read one after the other.
    pub open spec fn read_all(self, signals: Seq<usize>) -> Graph
        decreases signals.len(),
    {
        if signals.len() == 0 {
            self
        } else {
            self.read_all(signals.drop_last()).read(signals.last())
        }
    }
}

/// Taking `x` out of a list without duplicates leaves a list without
/// duplicates that no longer holds `x` and holds everything else it held.
pub proof fn lemma_without(list: Seq<usize>, x: usize)
    requires
        list.no_duplicates(),
    ensures
        without(list, x).no_duplicates(),
        !without(list, x).contains(x),
        forall|y: usize| y != x ==> (without(list, x).contains(y) <==> list.contains(y)),
        forall|i: int|
            0 <= i < without(list, x).len() ==> list.contains(#[trigger] without(list, x)[i]),
        !list.contains(x) ==> without(list, x) == list,
{
    if list.contains(x) {
        let k = list.index_of(x);
        let rest = list.remove(k);
        list.remove_ensures(k);
        assert forall|i: int| 0 <= i < rest.len() implies list.contains(#[trigger] rest[i]) && rest[i]
            != x by {
            if i < k {
                assert(rest[i] == list[i]);
            } else {
                assert(rest[i] == list[i + 1]);
            }
        }
        assert forall|y: usize| y != x && list.contains(y) implies rest.contains(y) by {
            let j = choose|j: int| 0 <= j < list.len() && list[j] == y;
            if j < k {
                assert(rest[j] == y);
            } else {
                assert(rest[j - 1] == y);
            }
        }
        assert forall|i: int, j: int| 0 <= i < rest.len() && 0 <= j < rest.len() && i != j implies rest[i]
            != rest[j] by {
            let ii = if i < k { i } else { i + 1 };
            let jj = if j < k { j } else { j + 1 };
            assert(rest[i] == list[ii]);
            assert(rest[j] == list[jj]);
        }
    }
}

/// In a list without duplicates, the place of an entry is the only place
/// where it stands.
pub proof fn lemma_index_of_unique(list: Seq<usize>, x: usize, i: int)
    requires
        list.no_duplicates(),
        0 <= i < list.len(),
        list[i] == x,
    ensures
        list.contains(x),
        list.index_of(x) == i,
        without(list, x) == list.remove(i),
{
    assert(list.contains(x));
    let k = list.index_of(x);
    assert(0 <= k < list.len() && list[k] == x);
}

/// Registering a signal or an observer keeps the graph well formed.
pub proof fn lemma_grow_wf(g: Graph)
    requires
        g.wf(),
    ensures
        g.add_signal().wf(),
        g.add_observer().wf(),
{
    let a = g.add_signal();
    assert forall|s: int| 0 <= s < a.subscribers.len() implies #[trigger] a.subscribers_ok(s) by {
        if s < g.subscribers.len() {
            assert(g.subscribers_ok(s));
        }
    }
    assert forall|o: int| 0 <= o < a.sources.len() implies #[trigger] a.sources_ok(o) by {
        assert(g.sources_ok(o));
    }
    assert forall|s: usize, o: usize|
        #![trigger a.subscribed(s, o)]
        #![trigger a.reads(o, s)]
        s < a.subscribers.len() && o < a.sources.len() implies (a.subscribed(s, o) <==> a.reads(
        o,
        s,
    )) by {
        if s < g.subscribers.len() {
            assert(g.subscribed(s, o) <==> g.reads(o, s));
        } else {
            assert(g.sources_ok(o as int));
            if g.reads(o, s) {
                let i = choose|i: int| 0 <= i < g.sources[o as int].len() && g.sources[o as int][i] == s;
                assert(g.sources[o as int][i] < g.subscribers.len());
            }
        }
    }
    let b = g.add_observer();
    assert forall|s: int| 0 <= s < b.subscribers.len() implies #[trigger] b.subscribers_ok(s) by {
        assert(g.subscribers_ok(s));
    }
    assert forall|o: int| 0 <= o < b.sources.len() implies #[trigger] b.sources_ok(o) by {
        if o < g.sources.len() {
            assert(g.sources_ok(o));
        }
    }
    assert forall|s: usize, o: usize|
        #![trigger b.subscribed(s, o)]
        #![trigger b.reads(o, s)]
        s < b.subscribers.len() && o < b.sources.len() implies (b.subscribed(s, o) <==> b.reads(
        o,
        s,
    )) by {
        if o < g.sources.len() {
            assert(g.subscribed(s, o) <==> g.reads(o, s));
        } else {
            assert(g.subscribers_ok(s as int));
            if g.subscribed(s, o) {
                let i = choose|i: int|
                    0 <= i < g.subscribers[s as int].len() && g.subscribers[s as int][i] == o;
                assert(g.subscribers[s as int][i] < g.sources.len());
            }
        }
    }
}

/// Registering signals keeps the graph well formed and changes nothing for
/// the signals and observers that were there: the new signals stand behind
/// them and have no dependents.
pub proof fn lemma_add_signals(g: Graph, count: nat)
    requires
        g.wf(),
    ensures
        g.add_signals(count).wf(),
        g.add_signals(count).signals() == g.signals() + count,
        g.add_signals(count).sources == g.sources,
        g.add_signals(count).stack == g.stack,
        forall|s: int| 0 <= s < g.signals() ==> #[trigger] g.add_signals(count).subscribers[s] == g.subscribers[s],
        forall|s: int|
            g.signals() <= s < g.signals() + count ==> #[trigger] g.add_signals(count).subscribers[s]
                == Seq::<usize>::empty(),
    decreases count,
{
    if count > 0 {
        lemma_add_signals(g, (count - 1) as nat);
        lemma_grow_wf(g.add_signals((count - 1) as nat));
    }
}

/// Registering signals one batch after the other is registering them all.
pub proof fn lemma_add_signals_sum(g: Graph, first: nat, second: nat)
    ensures
        g.add_signals(first).add_signals(second) == g.add_signals(first + second),
    decreases second,
{
    if second > 0 {
        lemma_add_signals_sum(g, first, (second - 1) as nat);
    }
}

/// Starting a run keeps the graph well formed and leaves the observer without
/// any subscription; the subscriptions of every other observer stay.
pub proof fn lemma_enter(g: Graph, observer: usize)
    requires
        g.wf(),
        observer < g.observers(),
    ensures
        g.enter(observer).wf(),
        forall|s: usize| s < g.signals() ==> !#[trigger] g.enter(observer).subscribed(s, observer),
        forall|s: usize, o: usize|
            s < g.signals() && o != observer ==> (#[trigger] g.enter(observer).subscribed(s, o)
                <==> g.subscribed(s, o)),
{
    let h = g.enter(observer);
    assert forall|s: int| 0 <= s < h.subscribers.len() implies #[trigger] h.subscribers_ok(s) by {
        assert(g.subscribers_ok(s));
        lemma_without(g.subscribers[s], observer);
        assert forall|i: int| 0 <= i < h.subscribers[s].len() implies #[trigger] h.subscribers[s][i]
            < h.sources.len() by {
            let y = h.subscribers[s][i];
            assert(g.subscribers[s].contains(y));
            let j = choose|j: int| 0 <= j < g.subscribers[s].len() && g.subscribers[s][j] == y;
            assert(g.subscribers[s][j] < g.sources.len());
        }
    }
    assert forall|o: int| 0 <= o < h.sources.len() implies #[trigger] h.sources_ok(o) by {
        assert(g.sources_ok(o));
    }
    assert forall|s: usize, o: usize|
        #![trigger h.subscribed(s, o)]
        s < g.subscribers.len() implies (if o == observer {
        !h.subscribed(s, o)
    } else {
        h.subscribed(s, o) <==> g.subscribed(s, o)
    }) by {
        assert(g.subscribers_ok(s as int));
        lemma_without(g.subscribers[s as int], observer);
    }
    assert forall|s: usize, o: usize|
        #![trigger h.subscribed(s, o)]
        #![trigger h.reads(o, s)]
        s < h.subscribers.len() && o < h.sources.len() implies (h.subscribed(s, o) <==> h.reads(
        o,
        s,
    )) by {
        assert(g.subscribed(s, o) <==> g.reads(o, s));
    }
}

/// Ending a run keeps the graph well formed.
pub proof fn lemma_exit(g: Graph)
    requires
        g.wf(),
    ensures
        g.exit().wf(),
{
    let h = g.exit();
    assert forall|s: int| 0 <= s < h.subscribers.len() implies #[trigger] h.subscribers_ok(s) by {
        assert(g.subscribers_ok(s));
    }
    assert forall|o: int| 0 <= o < h.sources.len() implies #[trigger] h.sources_ok(o) by {
        assert(g.sources_ok(o));
    }
    assert forall|s: usize, o: usize|
        #![trigger h.subscribed(s, o)]
        #![trigger h.reads(o, s)]
        s < h.subscribers.len() && o < h.sources.len() implies (h.subscribed(s, o) <==> h.reads(
        o,
        s,
    )) by {
        assert(g.subscribed(s, o) <==> g.reads(o, s));
    }
    assert forall|i: int| 0 <= i < h.stack.len() implies #[trigger] h.stack[i] < h.sources.len() by {
        assert(g.stack[i] < g.sources.len());
    }
}

/// A read keeps the graph well formed.  Afterwards the innermost observer, if
/// there is one, depends on the signal, and no other edge has changed.
pub proof fn lemma_read(g: Graph, signal: usize)
    requires
        g.wf(),
        signal < g.signals(),
    ensures
        g.read(signal).wf(),
        g.read(signal).signals() == g.signals(),
        g.read(signal).observers() == g.observers(),
        g.read(signal).stack == g.stack,
        forall|s: usize, o: usize|
            s < g.signals() ==> (#[trigger] g.read(signal).subscribed(s, o) <==> g.subscribed(s, o)
                || (s == signal && g.current() == Some(o))),
{
    let h = g.read(signal);
    match g.current() {
        Some(cur) => {
            assert(g.stack[g.stack.len() - 1] < g.sources.len());
            if !g.subscribed(signal, cur) {
                let old_subs = g.subscribers[signal as int];
                let old_srcs = g.sources[cur as int];
                assert(g.subscribers_ok(signal as int));
                assert(g.sources_ok(cur as int));
                assert(g.subscribed(signal, cur) <==> g.reads(cur, signal));
                assert forall|s: usize, o: usize|
                    #![trigger h.subscribed(s, o)]
                    s < g.signals() implies (h.subscribed(s, o) <==> g.subscribed(s, o) || (s
                    == signal && o == cur)) by {
                    if s == signal {
                        lemma_push_contains(old_subs, cur, o);
                    }
                }
                assert forall|s: usize, o: usize|
                    #![trigger h.reads(o, s)]
                    o < g.observers() implies (h.reads(o, s) <==> g.reads(o, s) || (s == signal
                    && o == cur)) by {
                    if o == cur {
                        lemma_push_contains(old_srcs, signal, s);
                    }
                }
                assert forall|s: int| 0 <= s < h.subscribers.len() implies #[trigger] h.subscribers_ok(
                    s,
                ) by {
                    assert(g.subscribers_ok(s));
                    if s == signal {
                        lemma_push_no_duplicates(old_subs, cur);
                    }
                }
                assert forall|o: int| 0 <= o < h.sources.len() implies #[trigger] h.sources_ok(o) by {
                    assert(g.sources_ok(o));
                    if o == cur {
                        lemma_push_no_duplicates(old_srcs, signal);
                    }
                }
                assert forall|s: usize, o: usize|
                    #![trigger h.subscribed(s, o)]
                    #![trigger h.reads(o, s)]
                    s < h.subscribers.len() && o < h.sources.len() implies (h.subscribed(s, o)
                    <==> h.reads(o, s)) by {
                    assert(g.subscribed(s, o) <==> g.reads(o, s));
                    assert(h.subscribed(s, o) <==> g.subscribed(s, o) || (s == signal && o == cur));
                    assert(h.reads(o, s) <==> g.reads(o, s) || (s == signal && o == cur));
                }
            }
        },
        None => {},
    }
}

/// What a list holds after one more entry was put at its end.
pub proof fn lemma_push_contains(list: Seq<usize>, x: usize, y: usize)
    ensures
        list.push(x).contains(y) <==> list.contains(y) || y == x,
{
    let longer = list.push(x);
    if list.contains(y) {
        let i = choose|i: int| 0 <= i < list.len() && list[i] == y;
        assert(longer[i] == y);
    }
    if y == x {
        assert(longer[list.len() as int] == y);
    }
    if longer.contains(y) {
        let i = choose|i: int| 0 <= i < longer.len() && longer[i] == y;
        if i < list.len() {
            assert(list[i] == y);
        }
    }
}

/// A list without duplicates stays so when an entry it lacks is put at its end.
pub proof fn lemma_push_no_duplicates(list: Seq<usize>, x: usize)
    requires
        list.no_duplicates(),
        !list.contains(x),
    ensures
        list.push(x).no_duplicates(),
{
    let longer = list.push(x);
    assert forall|i: int, j: int|
        0 <= i < longer.len() && 0 <= j < longer.len() && i != j implies longer[i] != longer[j] by {
        if i < list.len() && j < list.len() {
        } else if i < list.len() {
            assert(list[i] != x);
        } else {
            assert(list[j] != x);
        }
    }
}

/// Dependents stand in the order in which they subscribed: an observer that
/// subscribes to a signal comes behind every observer that depends on the
/// signal already, and those keep their places.
pub proof fn lemma_subscription_order(g: Graph, signal: usize, observer: usize)
    requires
        g.wf(),
        signal < g.signals(),
        g.current() == Some(observer),
        !g.subscribed(signal, observer),
    ensures
        g.read(signal).dependents(signal) == g.dependents(signal).push(observer),
        forall|i: int|
            0 <= i < g.dependents(signal).len() ==> g.read(signal).dependents(signal)[i]
                == #[trigger] g.dependents(signal)[i],
        g.read(signal).dependents(signal).last() == observer,
{
}

/// A series of reads keeps the graph well formed and adds, for each signal
/// read, one edge to the innermost observer, and no other edge.
pub proof fn lemma_read_all(g: Graph, signals: Seq<usize>)
    requires
        g.wf(),
        forall|i: int| 0 <= i < signals.len() ==> #[trigger] signals[i] < g.signals(),
    ensures
        g.read_all(signals).wf(),
        g.read_all(signals).signals() == g.signals(),
        g.read_all(signals).observers() == g.observers(),
        g.read_all(signals).stack == g.stack,
        forall|s: usize, o: usize|
            s < g.signals() ==> (#[trigger] g.read_all(signals).subscribed(s, o) <==> g.subscribed(
                s,
                o,
            ) || (signals.contains(s) && g.current() == Some(o))),
    decreases signals.len(),
{
    if signals.len() > 0 {
        let front = signals.drop_last();
        let last = signals.last();
        let mid = g.read_all(front);
        lemma_read_all(g, front);
        lemma_read(mid, last);
        assert(signals == front.push(last));
        assert forall|s: usize, o: usize| s < g.signals() implies (#[trigger] g.read_all(
            signals,
        ).subscribed(s, o) <==> g.subscribed(s, o) || (signals.contains(s) && g.current() == Some(
            o,
        ))) by {
            lemma_push_contains(front, last, s);
            assert(mid.read(last).subscribed(s, o) <==> mid.subscribed(s, o) || (s == last
                && mid.current() == Some(o)));
            assert(mid.subscribed(s, o) <==> g.subscribed(s, o) || (front.contains(s) && g.current()
                == Some(o)));
        }
    } else {
        assert forall|s: usize| !signals.contains(s) by {}
    }
}

/// Dependencies are exact: once an observer has run, it depends on a signal
/// if and only if it read that signal during this run, whatever it depended
/// on before.  The edges of every other observer are as they were.
pub proof fn lemma_run_tracks_exactly(g: Graph, observer: usize, signals: Seq<usize>)
    requires
        g.wf(),
        observer < g.observers(),
        forall|i: int| 0 <= i < signals.len() ==> #[trigger] signals[i] < g.signals(),
    ensures
        g.enter(observer).read_all(signals).exit().wf(),
        g.enter(observer).read_all(signals).exit().stack == g.stack,
        forall|s: usize|
            s < g.signals() ==> (#[trigger] g.enter(observer).read_all(signals).exit().subscribed(
                s,
                observer,
            ) <==> signals.contains(s)),
        forall|s: usize, o: usize|
            s < g.signals() && o != observer ==> (#[trigger] g.enter(observer).read_all(
                signals,
            ).exit().subscribed(s, o) <==> g.subscribed(s, o)),
{
    let entered = g.enter(observer);
    let ran = entered.read_all(signals);
    let done = ran.exit();
    lemma_enter(g, observer);
    lemma_read_all(entered, signals);
    lemma_exit(ran);
    assert(entered.current() == Some(observer));
    assert(done.stack =~= g.stack);
    assert forall|s: usize| s < g.signals() implies (#[trigger] done.subscribed(s, observer)
        <==> signals.contains(s)) by {
        assert(ran.subscribed(s, observer) <==> entered.subscribed(s, observer) || (
        signals.contains(s) && entered.current() == Some(observer)));
        assert(!entered.subscribed(s, observer));
    }
    assert forall|s: usize, o: usize| s < g.signals() && o != observer implies (
    #[trigger] done.subscribed(s, o) <==> g.subscribed(s, o)) by {
        assert(ran.subscribed(s, o) <==> entered.subscribed(s, o) || (signals.contains(s)
            && entered.current() == Some(o)));
        assert(entered.subscribed(s, o) <==> g.subscribed(s, o));
    }
}

/// The place of the first `x` in `list`, if it holds one.
fn position(list: &Vec<usize>, x: usize) -> (found: Option<usize>)
    ensures
        match found {
            Some(i) => i < list.len() && list[i as int] == x,
            None => !list@.contains(x),
        },
{
    let mut i: usize = 0;
    while i < list.len()
        invariant
            i <= list.len(),
            forall|k: int| 0 <= k < i ==> list[k] != x,
        decreases list.len() - i,
    {
        if list[i] == x {
            return Some(i);
        }
        i += 1;
    }
    None
}

/// The dependency graph as it is kept at run time.
pub struct Runtime {
    subscribers: Vec<Vec<usize>>,
    sources: Vec<Vec<usize>>,
    stack: Vec<usize>,
}

impl View for Runtime {
    type V = Graph;

    closed spec fn view(&self) -> Graph {
        Graph {
            subscribers: Seq::new(self.subscribers.len() as nat, |s: int| self.subscribers[s]@),
            sources: Seq::new(self.sources.len() as nat, |o: int| self.sources[o]@),
            stack: self.stack@,
        }
    }
}

impl Runtime {
    /// The invariant of the graph: see [`Graph::wf`].
    pub open spec fn wf(&self) -> bool {
        self@.wf()
    }

    /// A graph without signals, observers or open runs.
    pub fn new() -> (rt: Runtime)
        ensures
            rt.wf(),
            rt@ == Graph::empty(),
    {
        let rt = Runtime { subscribers: Vec::new(), sources: Vec::new(), stack: Vec::new() };
        assert(rt@ =~= Graph::empty());
        rt
    }

    /// Registers a signal and returns its number.
    pub fn add_signal(&mut self) -> (id: usize)
        requires
            old(self).wf(),
        ensures
            final(self).wf(),
            id == old(self)@.signals(),
            final(self)@ == old(self)@.add_signal(),
    {
        let id = self.subscribers.len();
        self.subscribers.push(Vec::new());
        proof {
            assert(self@ =~= old(self)@.add_signal());
            lemma_grow_wf(old(self)@);
        }
        id
    }

    /// Registers an observer and returns its number.
    pub fn add_observer(&mut self) -> (id: usize)
        requires
            old(self).wf(),
        ensures
            final(self).wf(),
            id == old(self)@.observers(),
            final(self)@ == old(self)@.add_observer(),
    {
        let id = self.sources.len();
        self.sources.push(Vec::new());
        proof {
            assert(self@ =~= old(self)@.add_observer());
            lemma_grow_wf(old(self)@);
        }
        id
    }

    /// Number of registered signals.
    pub fn signal_count(&self) -> (n: usize)
        ensures
            n == self@.signals(),
    {
        self.subscribers.len()
    }

    /// Number of registered observers.
    pub fn observer_count(&self) -> (n: usize)
        ensures
            n == self@.observers(),
    {
        self.sources.len()
    }

    /// The observer whose run is innermost, if a run is open.
    pub fn current(&self) -> (cur: Option<usize>)
        ensures
            cur == self@.current(),
    {
        if self.stack.len() > 0 {
            Some(self.stack[self.stack.len() - 1])
        } else {
            None
        }
    }

    /// Opens a run of `observer`: drops the subscriptions of its previous run
    /// and makes it the innermost context.
    pub fn enter(&mut self, observer: usize)
        requires
            old(self).wf(),
            observer < old(self)@.observers(),
        ensures
            final(self).wf(),
            final(self)@ == old(self)@.enter(observer),
    {
        let ghost before = self@;
        let n = self.sources[observer].len();
        let mut j: usize = 0;
        while j < n
            invariant
                before.wf(),
                before == old(self)@,
                observer < before.observers(),
                j <= n,
                n == before.sources[observer as int].len(),
                self.sources == old(self).sources,
                self.stack == old(self).stack,
                self.subscribers.len() == before.subscribers.len(),
                forall|s: int|
                    0 <= s < self.subscribers.len() ==> #[trigger] self.subscribers[s]@ == (
                    if before.sources[observer as int].take(j as int).contains(s as usize) {
                        without(before.subscribers[s], observer)
                    } else {
                        before.subscribers[s]
                    }),
            decreases n - j,
        {
            let signal = self.sources[observer][j];
            let ghost read_so_far = before.sources[observer as int].take(j as int);
            proof {
                assert(before.sources_ok(observer as int));
                assert(before.sources[observer as int][j as int] == signal);
                assert(signal < before.subscribers.len());
                assert(before.sources[observer as int].contains(signal));
                assert(before.reads(observer, signal));
                assert(before.subscribed(signal, observer));
                assert(!read_so_far.contains(signal)) by {
                    if read_so_far.contains(signal) {
                        let k = choose|k: int| 0 <= k < read_so_far.len() && read_so_far[k] == signal;
                        assert(before.sources[observer as int][k] == signal);
                    }
                }
                assert(self.subscribers[signal as int]@ == before.subscribers[signal as int]);
                assert(before.subscribers_ok(signal as int));
            }
            match position(&self.subscribers[signal], observer) {
                Some(at) => {
                    let _ = self.subscribers[signal].remove(at);
                    proof {
                        lemma_index_of_unique(before.subscribers[signal as int], observer, at as int);
                    }
                },
                None => {},
            }
            j += 1;
            proof {
                let read_now = before.sources[observer as int].take(j as int);
                assert(read_now == read_so_far.push(signal));
                assert forall|s: int| 0 <= s < self.subscribers.len() implies #[trigger] self.subscribers[s]@
                    == (if read_now.contains(s as usize) {
                    without(before.subscribers[s], observer)
                } else {
                    before.subscribers[s]
                }) by {
                    lemma_push_contains(read_so_far, signal, s as usize);
                }
            }
        }
        self.sources[observer].clear();
        self.stack.push(observer);
        proof {
            let after = self@;
            let goal = before.enter(observer);
            assert(before.sources[observer as int].take(n as int) == before.sources[observer as int]);
            assert forall|s: int| 0 <= s < after.subscribers.len() implies after.subscribers[s]
                == goal.subscribers[s] by {
                assert(self.subscribers[s]@ == after.subscribers[s]);
                assert(before.subscribers_ok(s));
                lemma_without(before.subscribers[s], observer);
                assert(before.subscribed(s as usize, observer) <==> before.reads(observer, s as usize));
            }
            assert(after.subscribers =~= goal.subscribers);
            assert(after.sources =~= goal.sources);
            assert(after =~= goal);
            lemma_enter(before, observer);
        }
    }

    /// Closes the innermost run.  Without an open run nothing changes.
    pub fn exit(&mut self)
        requires
            old(self).wf(),
        ensures
            final(self).wf(),
            final(self)@ == old(self)@.exit(),
    {
        let _ = self.stack.pop();
        proof {
            assert(self@ =~= old(self)@.exit());
            lemma_exit(old(self)@);
        }
    }

    /// Records a read of `signal`: the innermost observer, if there is one and
    /// it is not yet a dependent of the signal, becomes its newest dependent.
    pub fn track(&mut self, signal: usize)
        requires
            old(self).wf(),
            signal < old(self)@.signals(),
        ensures
            final(self).wf(),
            final(self)@ == old(self)@.read(signal),
    {
        let ghost before = self@;
        if self.stack.len() > 0 {
            let observer = self.stack[self.stack.len() - 1];
            assert(before.stack[before.stack.len() - 1] < before.sources.len());
            if position(&self.subscribers[signal], observer).is_none() {
                self.subscribers[signal].push(observer);
                self.sources[observer].push(signal);
            }
        }
        proof {
            assert(self@ =~= before.read(signal));
            lemma_read(before, signal);
        }
    }

    /// The observers that depend on `signal`, in subscription order.
    pub fn dependents(&self, signal: usize) -> (list: Vec<usize>)
        requires
            signal < self@.signals(),
        ensures
            list@ == self@.dependents(signal),
    {
        let list = self.subscribers[signal].clone();
        assert(list@ =~= self.subscribers[signal as int]@);
        list
    }

    /// The signals that `observer` read during its most recent run, in the
    /// order of their first read.
    pub fn sources(&self, observer: usize) -> (list: Vec<usize>)
        requires
            observer < self@.observers(),
        ensures
            list@ == self@.sources[observer as int],
    {
        let list = self.sources[observer].clone();
        assert(list@ =~= self.sources[observer as int]@);
        list
    }

    /// Whether `observer` is at present a dependent of `signal`.
    pub fn depends(&self, observer: usize, signal: usize) -> (yes: bool)
        requires
            signal < self@.signals(),
        ensures
            yes == self@.subscribed(signal, observer),
    {
        position(&self.subscribers[signal], observer).is_some()
    }
}

} // verus!
