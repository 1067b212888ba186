//! The relational-style task store behind the command line: tasks carry
//! server-assigned, strictly monotonic integer identifiers, and listing
//! orders them by identifier, optionally grouping pending tasks before
//! completed ones.

use vstd::prelude::*;
use crate::task::{TaskView, Todo};

verus! {

// ---------------------------------------------------------------------
// The mathematical model: sequences of task views.
// ---------------------------------------------------------------------

/// The views of a sequence of task rows.
pub open spec fn task_views(s: Seq<Todo>) -> Seq<TaskView> {
    s.map(|i: int, t: Todo| t@)
}

/// Identifiers strictly increase from left to right (so they are unique).
pub open spec fn ascending_ids(s: Seq<TaskView>) -> bool {
    forall|i: int, j: int| #![trigger s[i], s[j]] 0 <= i < j < s.len() ==> s[i].id < s[j].id
}

/// Every completion flag is 0 or 1.
pub open spec fn flags_valid(s: Seq<TaskView>) -> bool {
    forall|i: int| 0 <= i < s.len() ==> (#[trigger] s[i]).is_done <= 1
}

/// Some task of the sequence carries the given identifier.
pub open spec fn contains_id(s: Seq<TaskView>, id: int) -> bool {
    exists|i: int| 0 <= i < s.len() && (#[trigger] s[i]).id == id
}

/// The task with its completion flag turned around.
pub open spec fn flip(t: TaskView) -> TaskView {
    TaskView { id: t.id, name: t.name, date_added: t.date_added, is_done: (1 - t.is_done) as u8 }
}

/// The sequence with the flag of every task of the given identifier
/// turned around, and every other task untouched.
pub open spec fn toggled(s: Seq<TaskView>, id: int) -> Seq<TaskView> {
    s.map(|i: int, t: TaskView| if t.id == id { flip(t) } else { t })
}

/// The sequence with every task of the given identifier dropped, order
/// otherwise kept.
pub open spec fn without_id(s: Seq<TaskView>, id: int) -> Seq<TaskView>
    decreases s.len(),
{
    if s.len() == 0 {
        Seq::empty()
    } else {
        without_id(s.drop_last(), id) + (if s.last().id == id {
            Seq::<TaskView>::empty()
        } else {
            seq![s.last()]
        })
    }
}

/// The subsequence of tasks whose completion flag equals `flag`, order kept.
pub open spec fn with_flag(s: Seq<TaskView>, flag: u8) -> Seq<TaskView>
    decreases s.len(),
{
    if s.len() == 0 {
        Seq::empty()
    } else {
        with_flag(s.drop_last(), flag) + (if s.last().is_done == flag {
            seq![s.last()]
        } else {
            Seq::<TaskView>::empty()
        })
    }
}

/// The status sort: pending tasks first, completed tasks after them, the
/// stored order kept inside each group.
pub open spec fn by_status(s: Seq<TaskView>) -> Seq<TaskView> {
    with_flag(s, 0) + with_flag(s, 1)
}

// ---------------------------------------------------------------------
// The store.
// ---------------------------------------------------------------------

/// The task store: rows in ascending identifier order, together with the
/// identifier the next insertion will receive. Identifiers are never
/// reused, so the next identifier stays above every stored one even after
/// removals.
pub struct TaskStore {
    tasks: Vec<Todo>,
    next_id: i32,
}

impl View for TaskStore {
    type V = Seq<TaskView>;

    closed spec fn view(&self) -> Seq<TaskView> {
        task_views(self.tasks@)
    }
}

impl TaskStore {
    /// The identifier the next added task will receive.
    pub closed spec fn spec_next_id(&self) -> int {
        self.next_id as int
    }

    /// The store's invariant: identifiers ascend, flags are 0/1, and every
    /// identifier lies below the next one to be handed out.
    pub open spec fn wf(&self) -> bool {
        &&& ascending_ids(self@)
        &&& flags_valid(self@)
        &&& forall|i: int| 0 <= i < self@.len() ==> (#[trigger] self@[i]).id < self.spec_next_id()
        &&& 1 <= self.spec_next_id()
    }

    /// An empty store whose first identifier will be 1.
    pub fn new() -> (s: TaskStore)
        ensures
            s.wf(),
            s@ == Seq::<TaskView>::empty(),
            s.spec_next_id() == 1,
    {
        let s = TaskStore { tasks: Vec::new(), next_id: 1 };
        proof {
            assert(s@ =~= Seq::<TaskView>::empty());
        }
        s
    }
}

impl Todo {
    /// Adds a task under the next free identifier, with the given name and
    /// creation timestamp and a pending flag.
    pub fn add(store: &mut TaskStore, name: &str, date_added: &str)
        requires
            old(store).wf(),
            old(store).spec_next_id() < i32::MAX as int,
        ensures
            final(store).wf(),
            final(store)@ == old(store)@.push(
                (TaskView {
                    id: old(store).spec_next_id(),
                    name: name@,
                    date_added: date_added@,
                    is_done: 0,
                }),
            ),
            final(store).spec_next_id() == old(store).spec_next_id() + 1,
    {
        let id = store.next_id;
        let t = Todo {
            id,
            name: name.to_owned(),
            date_added: date_added.to_owned(),
            is_done: 0,
        };
        store.tasks.push(t);
        store.next_id = id + 1;
        proof {
            let ghost target = old(store)@.push(
                TaskView {
                    id: old(store).spec_next_id(),
                    name: name@,
                    date_added: date_added@,
                    is_done: 0,
                },
            );
            assert(store@ =~= target);
            assert forall|i: int, j: int| #![trigger store@[i], store@[j]]
                0 <= i < j < store@.len() implies store@[i].id < store@[j].id by {
                if j < store@.len() - 1 {
                    assert(old(store)@[i].id < old(store)@[j].id);
                }
            }
        }
    }

    /// Lists every task: in ascending identifier order, or, when asked for
    /// the status sort, pending tasks first and completed tasks after them,
    /// each group in ascending identifier order.
    pub fn list(store: &TaskStore, sort_by_status: bool) -> (r: Vec<Todo>)
        requires
            store.wf(),
        ensures
            task_views(r@) == (if sort_by_status {
                by_status(store@)
            } else {
                store@
            }),
    {
        if sort_by_status {
            sorted_by_status(&store.tasks)
        } else {
            let r = store.tasks.clone();
            proof {
                assert forall|i: int| 0 <= i < r@.len() implies r@[i] == store.tasks@[i] by {
                    assert(cloned::<Todo>(store.tasks[i], r[i]));
                }
                assert(r@ =~= store.tasks@);
            }
            r
        }
    }

    /// Turns the completion flag of the task with the given identifier
    /// around; a missing identifier leaves the store unchanged.
    #[verifier::loop_isolation(false)]
    pub fn toggle(store: &mut TaskStore, id: i32)
        requires
            old(store).wf(),
        ensures
            final(store).wf(),
            final(store)@ == toggled(old(store)@, id as int),
            final(store).spec_next_id() == old(store).spec_next_id(),
    {
        let ghost s = old(store)@;
        let mut out: Vec<Todo> = Vec::new();
        let mut i: usize = 0;
        while i < store.tasks.len()
            invariant
                i <= store.tasks.len(),
                out@.len() == i,
                forall|j: int| 0 <= j < i ==> (#[trigger] out@[j])@ == toggled(s, id as int)[j],
            decreases store.tasks.len() - i,
        {
            let t = &store.tasks[i];
            proof {
                assert(s[i as int] == store.tasks@[i as int]@);
            }
            if t.id == id {
                out.push(Todo {
                    id: t.id,
                    name: t.name.clone(),
                    date_added: t.date_added.clone(),
                    is_done: 1 - t.is_done,
                });
            } else {
                out.push(t.clone());
            }
            i += 1;
        }
        store.tasks = out;
        proof {
            assert(store@ =~= toggled(s, id as int));
            assert forall|k: int| 0 <= k < store@.len() implies (#[trigger] store@[k]).id
                == s[k].id && store@[k].is_done <= 1 by {
                assert(s[k].is_done <= 1);
            }
        }
    }

    /// Empties the store. Identifiers are not reused: the next identifier
    /// to be handed out is unchanged.
    pub fn reset(store: &mut TaskStore)
        requires
            old(store).wf(),
        ensures
            final(store).wf(),
            final(store)@ == Seq::<TaskView>::empty(),
            final(store).spec_next_id() == old(store).spec_next_id(),
    {
        store.tasks.clear();
        proof {
            assert(store@ =~= Seq::<TaskView>::empty());
        }
    }

    /// Removes the task with the given identifier; a missing identifier
    /// leaves the store unchanged. Afterwards no task carries that
    /// identifier, and the count has dropped by one exactly when the
    /// identifier was present.
    #[verifier::loop_isolation(false)]
    #[verifier::rlimit(60)]
    pub fn rm(store: &mut TaskStore, id: i32)
        requires
            old(store).wf(),
        ensures
            final(store).wf(),
            final(store)@ == without_id(old(store)@, id as int),
            forall|j: int| 0 <= j < final(store)@.len() ==> (#[trigger] final(store)@[j]).id
                != id as int,
            !contains_id(old(store)@, id as int) ==> final(store)@ == old(store)@,
            contains_id(old(store)@, id as int) ==> final(store)@.len() == old(store)@.len() - 1,
            final(store).spec_next_id() == old(store).spec_next_id(),
    {
        let ghost s = old(store)@;
        let mut out: Vec<Todo> = Vec::new();
        let mut i: usize = 0;
        while i < store.tasks.len()
            invariant
                i <= store.tasks.len(),
                task_views(out@) == without_id(s.take(i as int), id as int),
            decreases store.tasks.len() - i,
        {
            let ghost pre = out@;
            let t = &store.tasks[i];
            proof {
                assert(s[i as int] == store.tasks@[i as int]@);
            }
            if t.id != id {
                out.push(t.clone());
            }
            proof {
                lemma_without_id_take_step(s, id as int, i as int);
                if t.id != id {
                    assert(task_views(out@) =~= task_views(pre).push(s[i as int]));
                }
                assert(task_views(out@) =~= without_id(s.take(i as int + 1), id as int));
            }
            i += 1;
        }
        proof {
            assert(s.take(s.len() as int) =~= s);
        }
        store.tasks = out;
        proof {
            lemma_without_id_props(s, id as int);
            lemma_without_id_len(s, id as int);
            lemma_without_id_preserves(s, id as int, store.spec_next_id());
        }
    }
}

/// The status sort as a function on rows: pending tasks first, completed
/// tasks after them, the given order kept inside each group.
#[verifier::loop_isolation(false)]
pub fn sorted_by_status(tasks: &Vec<Todo>) -> (r: Vec<Todo>)
    ensures
        task_views(r@) == by_status(task_views(tasks@)),
{
    let ghost s = task_views(tasks@);
    let mut out: Vec<Todo> = Vec::new();
    let mut i: usize = 0;
    while i < tasks.len()
        invariant
            i <= tasks.len(),
            task_views(out@) == with_flag(s.take(i as int), 0),
        decreases tasks.len() - i,
    {
        let ghost pre = out@;
        let t = &tasks[i];
        proof {
            assert(s[i as int] == tasks@[i as int]@);
        }
        if t.is_done == 0 {
            out.push(t.clone());
        }
        proof {
            lemma_with_flag_take_step(s, 0, i as int);
            if t.is_done == 0 {
                assert(task_views(out@) =~= task_views(pre).push(s[i as int]));
            }
            assert(task_views(out@) =~= with_flag(s.take(i as int + 1), 0));
        }
        i += 1;
    }
    proof {
        assert(s.take(s.len() as int) =~= s);
        assert(s.take(0).len() == 0);
        assert(task_views(out@) =~= with_flag(s, 0) + with_flag(s.take(0), 1));
    }
    let mut i: usize = 0;
    while i < tasks.len()
        invariant
            i <= tasks.len(),
            task_views(out@) == with_flag(s, 0) + with_flag(s.take(i as int), 1),
        decreases tasks.len() - i,
    {
        let ghost pre = out@;
        let t = &tasks[i];
        proof {
            assert(s[i as int] == tasks@[i as int]@);
        }
        if t.is_done == 1 {
            out.push(t.clone());
        }
        proof {
            lemma_with_flag_take_step(s, 1, i as int);
            if t.is_done == 1 {
                assert(task_views(out@) =~= task_views(pre).push(s[i as int]));
            }
            assert(task_views(out@) =~= with_flag(s, 0) + with_flag(s.take(i as int + 1), 1));
        }
        i += 1;
    }
    proof {
        assert(s.take(s.len() as int) =~= s);
    }
    out
}

// ---------------------------------------------------------------------
// Lemmas about the model.
// ---------------------------------------------------------------------

/// Extending a prefix by one task extends its identifier-filtered image by
/// that task exactly when the task's identifier differs.
proof fn lemma_without_id_take_step(s: Seq<TaskView>, id: int, i: int)
    requires
        0 <= i < s.len(),
    ensures
        without_id(s.take(i + 1), id) == without_id(s.take(i), id) + (if s[i].id == id {
            Seq::<TaskView>::empty()
        } else {
            seq![s[i]]
        }),
{
    assert(s.take(i + 1).drop_last() =~= s.take(i));
    assert(s.take(i + 1).last() == s[i]);
}

/// Extending a prefix by one task extends its flag-filtered image by that
/// task exactly when the flag matches.
proof fn lemma_with_flag_take_step(s: Seq<TaskView>, flag: u8, i: int)
    requires
        0 <= i < s.len(),
    ensures
        with_flag(s.take(i + 1), flag) == with_flag(s.take(i), flag) + (if s[i].is_done == flag {
            seq![s[i]]
        } else {
            Seq::<TaskView>::empty()
        }),
{
    assert(s.take(i + 1).drop_last() =~= s.take(i));
    assert(s.take(i + 1).last() == s[i]);
}

/// Dropping an identifier keeps only tasks of the sequence, keeps their
/// order, and keeps no task of that identifier.
proof fn lemma_without_id_props(s: Seq<TaskView>, id: int)
    ensures
        without_id(s, id).len() <= s.len(),
        forall|j: int| 0 <= j < without_id(s, id).len() ==> (#[trigger] without_id(s, id)[j]).id
            != id,
        forall|j: int| 0 <= j < without_id(s, id).len() ==> exists|k: int|
            0 <= k < s.len() && #[trigger] without_id(s, id)[j] == s[k],
        ascending_ids(s) ==> ascending_ids(without_id(s, id)),
    decreases s.len(),
{
    if s.len() == 0 {
    } else {
        let pre = s.drop_last();
        let fpre = without_id(pre, id);
        let out = without_id(s, id);
        lemma_without_id_props(pre, id);
        assert forall|j: int| 0 <= j < out.len() implies exists|k: int|
            0 <= k < s.len() && #[trigger] out[j] == s[k] by {
            if j < fpre.len() {
                let k = choose|k: int| 0 <= k < pre.len() && fpre[j] == pre[k];
                assert(out[j] == s[k]);
            } else {
                assert(out[j] == s[s.len() - 1]);
            }
        }
        if ascending_ids(s) {
            assert forall|i: int, j: int| #![trigger out[i], out[j]]
                0 <= i < j < out.len() implies out[i].id < out[j].id by {
                if j < fpre.len() {
                    assert(fpre[i].id < fpre[j].id);
                } else {
                    let k = choose|k: int| 0 <= k < pre.len() && fpre[i] == pre[k];
                    assert(s[k].id < s[s.len() - 1].id);
                }
            }
        }
    }
}

/// Keeping one flag keeps only tasks of the sequence carrying it, in their
/// stored order.
proof fn lemma_with_flag_props(s: Seq<TaskView>, flag: u8)
    ensures
        with_flag(s, flag).len() <= s.len(),
        forall|j: int| 0 <= j < with_flag(s, flag).len() ==> (#[trigger] with_flag(s, flag)[j]).is_done
            == flag,
        forall|j: int| 0 <= j < with_flag(s, flag).len() ==> exists|k: int|
            0 <= k < s.len() && #[trigger] with_flag(s, flag)[j] == s[k],
        ascending_ids(s) ==> ascending_ids(with_flag(s, flag)),
    decreases s.len(),
{
    if s.len() == 0 {
    } else {
        let pre = s.drop_last();
        let fpre = with_flag(pre, flag);
        let out = with_flag(s, flag);
        lemma_with_flag_props(pre, flag);
        assert forall|j: int| 0 <= j < out.len() implies exists|k: int|
            0 <= k < s.len() && #[trigger] out[j] == s[k] by {
            if j < fpre.len() {
                let k = choose|k: int| 0 <= k < pre.len() && fpre[j] == pre[k];
                assert(out[j] == s[k]);
            } else {
                assert(out[j] == s[s.len() - 1]);
            }
        }
        if ascending_ids(s) {
            assert forall|i: int, j: int| #![trigger out[i], out[j]]
                0 <= i < j < out.len() implies out[i].id < out[j].id by {
                if j < fpre.len() {
                    assert(fpre[i].id < fpre[j].id);
                } else {
                    let k = choose|k: int| 0 <= k < pre.len() && fpre[i] == pre[k];
                    assert(s[k].id < s[s.len() - 1].id);
                }
            }
        }
    }
}

/// Dropping an identifier from a well-formed sequence keeps it well
/// formed: identifiers still ascend, flags stay 0/1, and every identifier
/// stays below the bound.
proof fn lemma_without_id_preserves(s: Seq<TaskView>, id: int, bound: int)
    requires
        ascending_ids(s),
        flags_valid(s),
        forall|i: int| 0 <= i < s.len() ==> (#[trigger] s[i]).id < bound,
    ensures
        ascending_ids(without_id(s, id)),
        flags_valid(without_id(s, id)),
        forall|i: int| 0 <= i < without_id(s, id).len() ==> (#[trigger] without_id(s, id)[i]).id
            < bound,
{
    lemma_without_id_props(s, id);
    let out = without_id(s, id);
    assert forall|i: int| 0 <= i < out.len() implies (#[trigger] out[i]).is_done <= 1
        && out[i].id < bound by {
        let k = choose|k: int| 0 <= k < s.len() && out[i] == s[k];
        assert(s[k].is_done <= 1);
        assert(s[k].id < bound);
    }
}

/// Removing an identifier drops exactly one task when the identifier was
/// present among ascending (hence unique) identifiers, and nothing
/// otherwise.
proof fn lemma_without_id_len(s: Seq<TaskView>, id: int)
    requires
        ascending_ids(s),
    ensures
        contains_id(s, id) ==> without_id(s, id).len() == s.len() - 1,
        !contains_id(s, id) ==> without_id(s, id) == s,
    decreases s.len(),
{
    if s.len() == 0 {
    } else {
        let pre = s.drop_last();
        lemma_without_id_len(pre, id);
        if s.last().id == id {
            assert(!contains_id(pre, id)) by {
                if contains_id(pre, id) {
                    let k = choose|k: int| 0 <= k < pre.len() && (#[trigger] pre[k]).id == id;
                    assert(s[k].id < s[s.len() - 1].id);
                }
            }
            assert(without_id(s, id) =~= pre);
            assert(contains_id(s, id)) by {
                assert(s[s.len() - 1].id == id);
            }
        } else {
            if contains_id(s, id) {
                let k = choose|k: int| 0 <= k < s.len() && (#[trigger] s[k]).id == id;
                assert(0 <= k < pre.len() && (#[trigger] pre[k]).id == id);
                assert(contains_id(pre, id));
            } else {
                assert(!contains_id(pre, id)) by {
                    if contains_id(pre, id) {
                        let k = choose|k: int| 0 <= k < pre.len() && (#[trigger] pre[k]).id == id;
                        assert(s[k].id == id);
                    }
                }
                assert(without_id(s, id) =~= s);
            }
        }
    }
}

/// Every task carries exactly one of the two flags, so the two groups of
/// the status sort share the tasks out without loss or duplication.
proof fn lemma_with_flag_count(s: Seq<TaskView>)
    requires
        flags_valid(s),
    ensures
        with_flag(s, 0).len() + with_flag(s, 1).len() == s.len(),
    decreases s.len(),
{
    if s.len() == 0 {
    } else {
        let pre = s.drop_last();
        assert(flags_valid(pre)) by {
            assert forall|i: int| 0 <= i < pre.len() implies (#[trigger] pre[i]).is_done <= 1 by {
                assert(s[i].is_done <= 1);
            }
        }
        lemma_with_flag_count(pre);
        assert(s[s.len() - 1].is_done <= 1);
    }
}

// ---------------------------------------------------------------------
// The laws the store obeys.
// ---------------------------------------------------------------------

/// Listing without the status sort returns the stored order, which is
/// ascending identifier order in every well-formed store.
pub proof fn lemma_list_order(s: TaskStore)
    requires
        s.wf(),
    ensures
        ascending_ids(s@),
{
}

/// Toggling an identifier twice restores every completion flag, whatever
/// the identifier and whether or not it is present.
pub proof fn lemma_toggle_twice(s: Seq<TaskView>, id: int)
    requires
        flags_valid(s),
    ensures
        toggled(toggled(s, id), id) == s,
{
    assert forall|i: int| 0 <= i < s.len() implies toggled(toggled(s, id), id)[i] == s[i] by {
        assert(s[i].is_done <= 1);
    }
    assert(toggled(toggled(s, id), id) =~= s);
}

/// The status sort keeps every task: pending tasks fill the first part,
/// completed tasks the second, and identifiers ascend inside each part.
pub proof fn lemma_by_status_partition(s: Seq<TaskView>)
    requires
        ascending_ids(s),
        flags_valid(s),
    ensures
        by_status(s).len() == s.len(),
        forall|j: int| 0 <= j < by_status(s).len() ==> ((#[trigger] by_status(s)[j]).is_done == 0
            <==> j < with_flag(s, 0).len()),
        forall|i: int, j: int| #![trigger by_status(s)[i], by_status(s)[j]]
            0 <= i < by_status(s).len() && 0 <= j < by_status(s).len() && by_status(s)[i].is_done
            == 0 && by_status(s)[j].is_done == 1 ==> i < j,
        ascending_ids(with_flag(s, 0)),
        ascending_ids(with_flag(s, 1)),
        forall|j: int| 0 <= j < by_status(s).len() ==> exists|k: int|
            0 <= k < s.len() && #[trigger] by_status(s)[j] == s[k],
{
    lemma_with_flag_props(s, 0);
    lemma_with_flag_props(s, 1);
    lemma_with_flag_count(s);
    assert forall|j: int| 0 <= j < by_status(s).len() implies exists|k: int|
        0 <= k < s.len() && #[trigger] by_status(s)[j] == s[k] by {
        if j < with_flag(s, 0).len() {
            assert(by_status(s)[j] == with_flag(s, 0)[j]);
        } else {
            assert(by_status(s)[j] == with_flag(s, 1)[j - with_flag(s, 0).len()]);
        }
    }
}

/// After a reset the store is empty, so a listing, sorted or not, holds
/// no task.
pub proof fn lemma_by_status_empty()
    ensures
        by_status(Seq::<TaskView>::empty()) == Seq::<TaskView>::empty(),
{
    assert(by_status(Seq::<TaskView>::empty()) =~= Seq::<TaskView>::empty());
}

} // verus!
