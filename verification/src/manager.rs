//! The task collection: an ordered sequence of tasks with append and three
//! read-only views (pending, completed, sorted by due date). Every view
//! borrows the collection immutably and its result is determined by the
//! collection's abstract value alone, so no view can change the collection
//! and repeated calls agree.

use vstd::prelude::*;

use crate::store::{all_wf, parse_store, parse_tasks, render_tasks, store_json};
use crate::task::{Task, TaskV};

verus! {

/// The abstract values of a sequence of owned tasks.
pub open spec fn task_views(s: Seq<Task>) -> Seq<TaskV> {
    s.map_values(|t: Task| t@)
}

/// The abstract values of a sequence of borrowed tasks.
pub open spec fn ref_views(s: Seq<&Task>) -> Seq<TaskV> {
    s.map_values(|t: &Task| t@)
}

/// The subsequence of not-completed tasks, in order.
pub open spec fn pending_of(s: Seq<TaskV>) -> Seq<TaskV> {
    s.filter(|t: TaskV| !t.completed)
}

/// The subsequence of completed tasks, in order.
pub open spec fn completed_of(s: Seq<TaskV>) -> Seq<TaskV> {
    s.filter(|t: TaskV| t.completed)
}

/// Ascending order on due dates: a task without one sorts before every task
/// with one, and instants compare by seconds, then nanoseconds.
pub open spec fn due_le(a: TaskV, b: TaskV) -> bool {
    match (a.due, b.due) {
        (Option::None, _) => true,
        (Option::Some(_), Option::None) => false,
        (Option::Some(x), Option::Some(y)) => x.secs < y.secs || (x.secs == y.secs && x.nanos
            <= y.nanos),
    }
}

/// Every pair of positions is in order under [`due_le`].
pub open spec fn sorted_by_due(s: Seq<TaskV>) -> bool {
    forall|i: int, j: int| 0 <= i < j < s.len() ==> due_le(s[i], s[j])
}

/// The ordered collection of tasks and its views. Tasks keep insertion
/// order; duplicates are permitted; nothing is ever removed or edited.
pub struct TaskManager {
    tasks: Vec<Task>,
}

impl View for TaskManager {
    type V = Seq<TaskV>;

    closed spec fn view(&self) -> Seq<TaskV> {
        task_views(self.tasks@)
    }
}

impl TaskManager {
    /// An empty collection: the first-run state.
    pub fn new() -> (r: TaskManager)
        ensures
            r@ == Seq::<TaskV>::empty(),
    {
        let m = TaskManager { tasks: Vec::new() };
        proof {
            assert(m@ =~= Seq::<TaskV>::empty());
        }
        m
    }

    /// Appends a task at the end; the rest of the collection is unchanged.
    pub fn add_task(&mut self, task: Task)
        ensures
            final(self)@ == old(self)@.push(task@),
    {
        proof {
            broadcast use vstd::prelude::Seq::lemma_push_map_commute;

        }
        self.tasks.push(task);
    }

    /// Every task, in insertion order.
    pub fn get_all_tasks(&self) -> (r: &Vec<Task>)
        ensures
            task_views(r@) == self@,
    {
        &self.tasks
    }

    /// The not-completed tasks, in insertion order.
    pub fn get_pending_tasks(&self) -> (r: Vec<&Task>)
        ensures
            ref_views(r@) == pending_of(self@),
    {
        self.filter_tasks(false)
    }

    /// The completed tasks, in insertion order.
    pub fn get_completed_tasks(&self) -> (r: Vec<&Task>)
        ensures
            ref_views(r@) == completed_of(self@),
    {
        self.filter_tasks(true)
    }

    /// Writes the whole collection in the store format, ready to replace the
    /// backing store; the text is exactly [`store_json`] of the collection,
    /// whose tasks are all well formed.
    pub fn to_json(&self) -> (r: String)
        ensures
            r@ == store_json(self@),
            all_wf(self@),
    {
        render_tasks(&self.tasks)
    }

    /// Reads a collection back from store-format text. `None` exactly on
    /// text that [`parse_store`] rejects — the caller treats that as the
    /// fatal malformed-store case; on success the collection is exactly what
    /// the text spelled.
    pub fn from_json(s: &str) -> (r: Option<TaskManager>)
        ensures
            (r is Some) == (parse_store(s@) is Some),
            r matches Some(m) ==> parse_store(s@) == Some(m@),
    {
        match parse_tasks(s) {
            Option::Some(tasks) => Option::Some(TaskManager { tasks }),
            Option::None => Option::None,
        }
    }

    /// Every task, sorted ascending by due date; a task without a due date
    /// sorts before every task with one. The result is a permutation of the
    /// collection; the relative order of ties is left open.
    pub fn get_tasks_by_due_date(&self) -> (r: Vec<&Task>)
        ensures
            sorted_by_due(ref_views(r@)),
            ref_views(r@).to_multiset() == self@.to_multiset(),
    {
        broadcast use vstd::prelude::Seq::to_multiset_ensures;

        let mut out: Vec<&Task> = Vec::new();
        let n = self.tasks.len();
        let mut i: usize = 0;
        proof {
            assert(ref_views(out@) =~= Seq::<TaskV>::empty());
            assert(self@.take(0) =~= Seq::<TaskV>::empty());
        }
        while i < n
            invariant
                n == self.tasks.len(),
                i <= n,
                sorted_by_due(ref_views(out@)),
                ref_views(out@).to_multiset() == self@.take(i as int).to_multiset(),
            decreases n - i,
        {
            broadcast use vstd::prelude::Seq::to_multiset_ensures;

            let t = &self.tasks[i];
            let mut pos: usize = 0;
            while pos < out.len() && due_le_exec(out[pos], t)
                invariant
                    pos <= out.len(),
                    forall|k: int| 0 <= k < pos ==> due_le(ref_views(out@)[k], t@),
                decreases out.len() - pos,
            {
                pos = pos + 1;
            }
            let ghost prev = out@;
            out.insert(pos, t);
            proof {
                lemma_ref_views_insert(prev, pos as int, t);
                let v = ref_views(out@);
                let p = ref_views(prev);
                assert(v == p.insert(pos as int, t@));
                vstd::seq_lib::to_multiset_insert(p, pos as int, t@);
                assert(v.to_multiset() == p.to_multiset().insert(t@));
                assert(self@.take(i + 1) =~= self@.take(i as int).push(self@[i as int]));
                vstd::seq_lib::to_multiset_build(self@.take(i as int), self@[i as int]);
                assert(self@[i as int] == t@);
                assert(ref_views(out@).to_multiset() == self@.take(i + 1).to_multiset());
                p.insert_ensures(pos as int, t@);
                assert forall|k: int, l: int| 0 <= k < l < v.len() implies due_le(
                    v[k],
                    v[l],
                ) by {
                    if k < pos && l == pos {
                        assert(v[k] == p[k] && due_le(p[k], t@));
                    } else if k == pos && l > pos {
                        assert(!due_le(p[pos as int], t@) || pos == p.len());
                        if pos < p.len() {
                            assert(due_le(t@, p[pos as int]));
                            if l > pos + 1 {
                                assert(due_le(p[pos as int], p[l - 1]));
                            }
                        }
                    } else if k < pos && l > pos {
                        assert(v[k] == p[k] && v[l] == p[l - 1] && due_le(p[k], p[l - 1]));
                    } else if k > pos {
                        assert(v[k] == p[k - 1] && v[l] == p[l - 1] && due_le(p[k - 1], p[l - 1]));
                    }
                }
            }
            i = i + 1;
        }
        proof {
            assert(self@.take(n as int) =~= self@);
        }
        out
    }

    /// Keeps the tasks whose completion flag equals `keep_completed`.
    fn filter_tasks(&self, keep_completed: bool) -> (r: Vec<&Task>)
        ensures
            ref_views(r@) == if keep_completed {
                completed_of(self@)
            } else {
                pending_of(self@)
            },
    {
        let ghost pred: spec_fn(TaskV) -> bool = if keep_completed {
            |t: TaskV| t.completed
        } else {
            |t: TaskV| !t.completed
        };
        let mut r: Vec<&Task> = Vec::new();
        let n = self.tasks.len();
        let mut i: usize = 0;
        proof {
            assert(ref_views(r@) =~= self@.take(0).filter(pred));
        }
        while i < n
            invariant
                n == self.tasks.len(),
                i <= n,
                forall|t: TaskV| #[trigger] pred(t) == (t.completed == keep_completed),
                ref_views(r@) == self@.take(i as int).filter(pred),
            decreases n - i,
        {
            let t = &self.tasks[i];
            proof {
                assert(self@.take(i + 1) =~= self@.take(i as int) + seq![t@]);
                Seq::filter_distributes_over_add(self@.take(i as int), seq![t@], pred);
                lemma_filter_one(t@, pred);
            }
            if t.completed == keep_completed {
                let ghost prev = r@;
                r.push(t);
                proof {
                    assert(pred(t@));
                    assert(ref_views(r@) =~= ref_views(prev).push(t@));
                    assert(seq![t@].filter(pred) == seq![t@]);
                    assert(ref_views(r@) =~= self@.take(i + 1).filter(pred));
                }
            } else {
                proof {
                    assert(!pred(t@));
                    assert(seq![t@].filter(pred) == Seq::<TaskV>::empty());
                    assert(ref_views(r@) =~= self@.take(i + 1).filter(pred));
                }
            }
            i = i + 1;
        }
        proof {
            assert(self@.take(n as int) =~= self@);
            if keep_completed {
                assert(pred =~= (|t: TaskV| t.completed));
            } else {
                assert(pred =~= (|t: TaskV| !t.completed));
            }
        }
        r
    }
}

/// Whether `a` sorts no later than `b` by due date.
fn due_le_exec(a: &Task, b: &Task) -> (r: bool)
    ensures
        r == due_le(a@, b@),
{
    match (&a.due_date, &b.due_date) {
        (Option::None, _) => true,
        (Option::Some(_), Option::None) => false,
        (Option::Some(x), Option::Some(y)) => {
            let xs = x.secs();
            let ys = y.secs();
            if xs < ys {
                true
            } else if xs == ys {
                x.nanos() <= y.nanos()
            } else {
                false
            }
        },
    }
}

/// Mapping to abstract values commutes with insertion.
proof fn lemma_ref_views_insert(s: Seq<&Task>, pos: int, x: &Task)
    requires
        0 <= pos <= s.len(),
    ensures
        ref_views(s.insert(pos, x)) == ref_views(s).insert(pos, x@),
{
    assert(ref_views(s.insert(pos, x)) =~= ref_views(s).insert(pos, x@));
}

/// Filtering a one-element sequence keeps or drops that element.
proof fn lemma_filter_one<A>(x: A, p: spec_fn(A) -> bool)
    ensures
        seq![x].filter(p) == if p(x) {
            seq![x]
        } else {
            Seq::<A>::empty()
        },
{
    reveal(Seq::filter);
    assert(seq![x].drop_last() =~= Seq::<A>::empty());
    assert(Seq::<A>::empty().filter(p) =~= Seq::<A>::empty());
    if p(x) {
        assert(seq![x].filter(p) =~= seq![x]);
    } else {
        assert(seq![x].filter(p) =~= Seq::<A>::empty());
    }
}

/// Filter correctness: every task in the pending view is not completed,
/// every task in the completed view is completed, and together (as sets)
/// they are exactly the collection; each view keeps the collection's order,
/// being a filter of it.
pub proof fn lemma_filter_partition(s: Seq<TaskV>)
    ensures
        forall|i: int| 0 <= i < pending_of(s).len() ==> !(#[trigger] pending_of(s)[i]).completed,
        forall|i: int|
            0 <= i < completed_of(s).len() ==> (#[trigger] completed_of(s)[i]).completed,
        pending_of(s).to_set().union(completed_of(s).to_set()) == s.to_set(),
    decreases s.len(),
{
    broadcast use vstd::prelude::Seq::lemma_filter_pred;

    if s.len() == 0 {
        reveal(Seq::filter);
        assert(pending_of(s).to_set().union(completed_of(s).to_set()) =~= s.to_set());
    } else {
        let rest = s.drop_last();
        lemma_filter_partition(rest);
        reveal(Seq::filter);
        let x = s.last();
        assert(s =~= rest.push(x));
        lemma_to_set_push(rest, x);
        if x.completed {
            lemma_to_set_push(completed_of(rest), x);
            assert(pending_of(s).to_set().union(completed_of(s).to_set()) =~= s.to_set());
        } else {
            lemma_to_set_push(pending_of(rest), x);
            assert(pending_of(s).to_set().union(completed_of(s).to_set()) =~= s.to_set());
        }
    }
}

/// Pushing an element inserts it into the sequence's set of elements.
proof fn lemma_to_set_push<A>(s: Seq<A>, x: A)
    ensures
        s.push(x).to_set() == s.to_set().insert(x),
{
    assert forall|y: A| s.push(x).to_set().contains(y) implies s.to_set().insert(x).contains(
        y,
    ) by {
        let i = choose|i: int| 0 <= i < s.push(x).len() && s.push(x)[i] == y;
        if i < s.len() {
            assert(s[i] == y);
        }
    }
    assert forall|y: A| s.to_set().insert(x).contains(y) implies s.push(x).to_set().contains(
        y,
    ) by {
        if y == x {
            assert(s.push(x)[s.len() as int] == x);
        } else {
            let i = choose|i: int| 0 <= i < s.len() && s[i] == y;
            assert(s.push(x)[i] == y);
        }
    }
    assert(s.push(x).to_set() =~= s.to_set().insert(x));
}

} // verus!
