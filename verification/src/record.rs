//! The records of the to-do list as the remote source delivers them.

use vstd::prelude::*;

verus! {

/// One entry of the list.  The remote source assigns `id`; `text` does not
/// change while the entry is shown.
#[derive(Debug, Clone, PartialEq, Eq)]
pub struct TodoRecord {
    pub id: u64,
    pub completed: bool,
    pub text: String,
}

/// What one record adds to the tally of things left to do.
pub open spec fn contribution(completed: bool) -> int {
    if completed {
        0
    } else {
        1
    }
}

/// How many of `records` are not completed.
pub open spec fn incomplete_count(records: Seq<TodoRecord>) -> nat
    decreases records.len(),
{
    if records.len() == 0 {
        0
    } else {
        (incomplete_count(records.drop_last()) + contribution(records.last().completed)) as nat
    }
}

/// Taking one record out lowers the tally by what that record added.
pub proof fn lemma_incomplete_count_remove(records: Seq<TodoRecord>, at: int)
    requires
        0 <= at < records.len(),
    ensures
        incomplete_count(records) == incomplete_count(records.remove(at)) + contribution(
            records[at].completed,
        ),
    decreases records.len(),
{
    if at == records.len() - 1 {
        assert(records.remove(at) =~= records.drop_last());
    } else {
        lemma_incomplete_count_remove(records.drop_last(), at);
        assert(records.remove(at).drop_last() =~= records.drop_last().remove(at));
        assert(records.remove(at).last() == records.last());
    }
}

/// The tally does not depend on the order of the records: two lists that
/// hold the same records, each as often as the other, have the same tally.
pub proof fn lemma_incomplete_count_any_order(first: Seq<TodoRecord>, second: Seq<TodoRecord>)
    requires
        first.to_multiset() == second.to_multiset(),
    ensures
        incomplete_count(first) == incomplete_count(second),
    decreases first.len(),
{
    broadcast use vstd::seq_lib::group_to_multiset_ensures;

    first.to_multiset_ensures();
    second.to_multiset_ensures();
    if first.len() == 0 {
        assert(second.len() == 0);
    } else {
        let last = first.last();
        assert(first.to_multiset().count(last) > 0) by {
            assert(first.contains(last));
        }
        assert(second.contains(last));
        let at = choose|i: int| 0 <= i < second.len() && second[i] == last;
        assert(first.drop_last() =~= first.remove(first.len() - 1));
        vstd::seq_lib::to_multiset_remove(first, first.len() - 1);
        vstd::seq_lib::to_multiset_remove(second, at);
        lemma_incomplete_count_any_order(first.drop_last(), second.remove(at));
        lemma_incomplete_count_remove(second, at);
    }
}

impl TodoRecord {
    /// A record with the given fields.
    pub fn new(id: u64, completed: bool, text: &str) -> (record: TodoRecord)
        ensures
            record.id == id,
            record.completed == completed,
            record.text@ == text@,
    {
        TodoRecord { id, completed, text: String::from_str(text) }
    }
}

/// Counts the records that are not completed.
pub fn count_incomplete(records: &Vec<TodoRecord>) -> (left: usize)
    ensures
        left == incomplete_count(records@),
{
    let mut left: usize = 0;
    let mut i: usize = 0;
    while i < records.len()
        invariant
            i <= records.len(),
            left == incomplete_count(records@.take(i as int)),
            left <= i,
        decreases records.len() - i,
    {
        proof {
            assert(records@.take(i + 1).drop_last() =~= records@.take(i as int));
        }
        if !records[i].completed {
            left += 1;
        }
        i += 1;
    }
    proof {
        assert(records@.take(i as int) =~= records@);
    }
    left
}

} // verus!
