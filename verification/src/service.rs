//! The in-memory task service behind the HTTP front end: tasks carry
//! opaque generated identifiers, are kept in insertion order, and are
//! listed through an offset/limit window.

use vstd::prelude::*;

verus! {

/// Mathematical image of a service task: the 128-bit identifier as an
/// integer, the character sequence of the text, and the completion flag.
pub ghost struct HttpTaskView {
    pub id: int,
    pub text: Seq<char>,
    pub completed: bool,
}

/// A task of the in-memory service: opaque generated identifier, free
/// text, completion flag.
#[derive(Debug)]
pub struct HttpTask {
    pub id: u128,
    pub text: String,
    pub completed: bool,
}

impl View for HttpTask {
    type V = HttpTaskView;

    open spec fn view(&self) -> HttpTaskView {
        HttpTaskView { id: self.id as int, text: self.text@, completed: self.completed }
    }
}

impl Clone for HttpTask {
    fn clone(&self) -> (t: Self)
        ensures
            t == *self,
    {
        HttpTask { id: self.id, text: self.text.clone(), completed: self.completed }
    }
}

/// The offset/limit window of a listing request; a missing offset means
/// the start, a missing limit means no bound.
#[derive(Debug)]
pub struct Pagination {
    pub offset: Option<usize>,
    pub limit: Option<usize>,
}

impl Default for Pagination {
    /// The window that skips nothing and bounds nothing.
    fn default() -> (p: Pagination)
        ensures
            p.offset.is_none(),
            p.limit.is_none(),
    {
        Pagination { offset: None, limit: None }
    }
}

// ---------------------------------------------------------------------
// The mathematical model.
// ---------------------------------------------------------------------

/// The views of a sequence of service tasks.
pub open spec fn http_views(s: Seq<HttpTask>) -> Seq<HttpTaskView> {
    s.map(|i: int, t: HttpTask| t@)
}

/// No two tasks of the sequence share an identifier.
pub open spec fn unique_ids(s: Seq<HttpTaskView>) -> bool {
    forall|i: int, j: int| #![trigger s[i], s[j]] 0 <= i < j < s.len() ==> s[i].id != s[j].id
}

/// Some task of the sequence carries the given identifier.
pub open spec fn http_contains_id(s: Seq<HttpTaskView>, id: int) -> bool {
    exists|i: int| 0 <= i < s.len() && (#[trigger] s[i]).id == id
}

/// The task after a partial update: each supplied field replaces the old
/// one, each missing field is left as it was, and the identifier never
/// changes.
pub open spec fn patched(t: HttpTaskView, text: Option<String>, completed: Option<bool>) -> HttpTaskView {
    HttpTaskView {
        id: t.id,
        text: match text {
            Option::Some(s) => s@,
            Option::None => t.text,
        },
        completed: match completed {
            Option::Some(c) => c,
            Option::None => t.completed,
        },
    }
}

/// The offset the window starts at.
pub open spec fn spec_offset(p: Pagination) -> int {
    match p.offset {
        Option::Some(o) => o as int,
        Option::None => 0,
    }
}

/// The bound on the window's length; without one the whole remainder is
/// taken.
pub open spec fn spec_limit(p: Pagination, whole: int) -> int {
    match p.limit {
        Option::Some(l) => l as int,
        Option::None => whole,
    }
}

/// The offset/limit window over a sequence: skip `offset` tasks, then
/// take at most `limit`.
pub open spec fn page(s: Seq<HttpTaskView>, offset: int, limit: int) -> Seq<HttpTaskView> {
    let o = if offset <= s.len() {
        offset
    } else {
        s.len() as int
    };
    let l = if limit <= s.len() - o {
        limit
    } else {
        s.len() - o
    };
    s.subrange(o, o + l)
}

// ---------------------------------------------------------------------
// The service.
// ---------------------------------------------------------------------

/// Draws a fresh identifier for a created task.
///
/// Relies on `uuid::Uuid::new_v4`, which draws a random version-4
/// identifier; `as_u128` only converts it. The value depends on the
/// random generator, so nothing is promised of it, and the caller must
/// cover a collision with a stored identifier.
#[verifier::external_body]
fn fresh_uuid() -> u128 {
    uuid::Uuid::new_v4().as_u128()
}

/// The in-memory task service: tasks in insertion order, identifiers
/// unique. Every operation runs on one value of this type; the enclosing
/// request layer owns the lock that serialises access to it.
pub struct TaskService {
    tasks: Vec<HttpTask>,
}

impl View for TaskService {
    type V = Seq<HttpTaskView>;

    closed spec fn view(&self) -> Seq<HttpTaskView> {
        http_views(self.tasks@)
    }
}

impl TaskService {
    /// The service's invariant: stored identifiers are unique.
    pub open spec fn wf(&self) -> bool {
        unique_ids(self@)
    }

    /// An empty service.
    pub fn new() -> (s: TaskService)
        ensures
            s.wf(),
            s@ == Seq::<HttpTaskView>::empty(),
    {
        let s = TaskService { tasks: Vec::new() };
        proof {
            assert(s@ =~= Seq::<HttpTaskView>::empty());
        }
        s
    }

    /// The index of the task carrying the given identifier, if any.
    #[verifier::loop_isolation(false)]
    fn find_index(&self, id: u128) -> (r: Option<usize>)
        ensures
            match r {
                Option::Some(i) => i < self@.len() && self@[i as int].id == id as int,
                Option::None => !http_contains_id(self@, id as int),
            },
    {
        let mut i: usize = 0;
        while i < self.tasks.len()
            invariant
                i <= self.tasks.len(),
                forall|j: int| 0 <= j < i ==> (#[trigger] self@[j]).id != id as int,
            decreases self.tasks.len() - i,
        {
            if self.tasks[i].id == id {
                return Some(i);
            }
            i += 1;
        }
        None
    }

    /// Lists the window of tasks the pagination asks for, in stored
    /// order: `offset` tasks are skipped and at most `limit` returned.
    #[verifier::loop_isolation(false)]
    pub fn list(&self, pagination: &Pagination) -> (r: Vec<HttpTask>)
        ensures
            http_views(r@) == page(
                self@,
                spec_offset(*pagination),
                spec_limit(*pagination, self@.len() as int),
            ),
    {
        let len = self.tasks.len();
        let off: usize = match pagination.offset {
            Some(o) => o,
            None => 0,
        };
        let start: usize = if off > len {
            len
        } else {
            off
        };
        let end: usize = match pagination.limit {
            Some(l) => if l > len - start {
                len
            } else {
                start + l
            },
            None => len,
        };
        let mut out: Vec<HttpTask> = Vec::new();
        let mut i: usize = start;
        while i < end
            invariant
                start <= i <= end,
                http_views(out@) == self@.subrange(start as int, i as int),
            decreases end - i,
        {
            let ghost pre = out@;
            out.push(self.tasks[i].clone());
            proof {
                assert(http_views(out@) =~= http_views(pre).push(self@[i as int]));
                assert(http_views(out@) =~= self@.subrange(start as int, i as int + 1));
            }
            i += 1;
        }
        proof {
            assert(http_views(out@) =~= page(
                self@,
                spec_offset(*pagination),
                spec_limit(*pagination, self@.len() as int),
            ));
        }
        out
    }

    /// Creates a task under a freshly drawn identifier, with the given
    /// text and a cleared completion flag, and returns it. Should the
    /// drawn identifier collide with a stored one, the stored task is
    /// replaced in place, exactly as a map insertion would replace it.
    pub fn create(&mut self, text: String) -> (r: HttpTask)
        requires
            old(self).wf(),
        ensures
            final(self).wf(),
            r@.text == text@,
            r@.completed == false,
            http_contains_id(final(self)@, r@.id),
            !http_contains_id(old(self)@, r@.id) ==> final(self)@ == old(self)@.push(r@),
            http_contains_id(old(self)@, r@.id) ==> exists|i: int|
                0 <= i < old(self)@.len() && (#[trigger] old(self)@[i]).id == r@.id
                    && final(self)@ == old(self)@.update(i, r@),
    {
        let id = fresh_uuid();
        let t = HttpTask { id, text, completed: false };
        match self.find_index(id) {
            Some(i) => {
                let r = t.clone();
                self.tasks.remove(i);
                self.tasks.insert(i, t);
                proof {
                    assert(self@ =~= old(self)@.update(i as int, r@));
                    assert(http_contains_id(self@, r@.id)) by {
                        assert(self@[i as int].id == r@.id);
                    }
                    assert forall|a: int, b: int| #![trigger self@[a], self@[b]]
                        0 <= a < b < self@.len() implies self@[a].id
                        != self@[b].id by {
                        assert(old(self)@[a].id != old(self)@[b].id);
                    }
                }
                r
            },
            None => {
                let r = t.clone();
                self.tasks.push(t);
                proof {
                    assert(self@ =~= old(self)@.push(r@));
                    assert(http_contains_id(self@, r@.id)) by {
                        assert(self@[self@.len() - 1].id == r@.id);
                    }
                    assert forall|a: int, b: int| #![trigger self@[a], self@[b]]
                        0 <= a < b < self@.len() implies self@[a].id
                        != self@[b].id by {
                        if b < self@.len() - 1 {
                            assert(old(self)@[a].id != old(self)@[b].id);
                        } else {
                            assert(!http_contains_id(old(self)@, r@.id));
                            assert(old(self)@[a].id != r@.id);
                        }
                    }
                }
                r
            },
        }
    }

    /// Applies a partial update to the task with the given identifier:
    /// each supplied field replaces the old one, the rest stay, and the
    /// updated task is returned. A missing identifier changes nothing and
    /// reports the not-found condition as `None`.
    pub fn update(&mut self, id: u128, text: Option<String>, completed: Option<bool>) -> (r: Option<
        HttpTask,
    >)
        requires
            old(self).wf(),
        ensures
            final(self).wf(),
            r.is_some() <==> http_contains_id(old(self)@, id as int),
            match r {
                Option::Some(t) => exists|i: int|
                    0 <= i < old(self)@.len() && (#[trigger] old(self)@[i]).id == id as int
                        && t@ == patched(old(self)@[i], text, completed)
                        && final(self)@ == old(self)@.update(i, t@),
                Option::None => final(self)@ == old(self)@,
            },
    {
        match self.find_index(id) {
            None => None,
            Some(i) => {
                let t = {
                    let cur = &self.tasks[i];
                    let new_text = match text {
                        Some(s) => s,
                        None => cur.text.clone(),
                    };
                    let new_completed = match completed {
                        Some(c) => c,
                        None => cur.completed,
                    };
                    HttpTask { id: cur.id, text: new_text, completed: new_completed }
                };
                let r = t.clone();
                self.tasks.remove(i);
                self.tasks.insert(i, t);
                proof {
                    assert(self@ =~= old(self)@.update(i as int, r@));
                    assert forall|a: int, b: int| #![trigger self@[a], self@[b]]
                        0 <= a < b < self@.len() implies self@[a].id
                        != self@[b].id by {
                        assert(old(self)@[a].id != old(self)@[b].id);
                    }
                }
                Some(r)
            },
        }
    }

    /// Deletes the task with the given identifier and reports whether one
    /// was there: afterwards no task carries that identifier, and a
    /// missing identifier changes nothing.
    pub fn delete(&mut self, id: u128) -> (r: bool)
        requires
            old(self).wf(),
        ensures
            final(self).wf(),
            r <==> http_contains_id(old(self)@, id as int),
            !r ==> final(self)@ == old(self)@,
            r ==> exists|i: int|
                0 <= i < old(self)@.len() && (#[trigger] old(self)@[i]).id == id as int
                    && final(self)@ == old(self)@.remove(i),
            forall|j: int| 0 <= j < final(self)@.len() ==> (#[trigger] final(self)@[j]).id
                != id as int,
    {
        match self.find_index(id) {
            None => false,
            Some(i) => {
                self.tasks.remove(i);
                proof {
                    assert(self@ =~= old(self)@.remove(i as int));
                    assert forall|a: int, b: int| #![trigger self@[a], self@[b]]
                        0 <= a < b < self@.len() implies self@[a].id
                        != self@[b].id by {
                        let oa: int = if a < i as int {
                            a
                        } else {
                            a + 1
                        };
                        let ob: int = if b < i as int {
                            b
                        } else {
                            b + 1
                        };
                        assert(old(self)@[oa].id != old(self)@[ob].id);
                    }
                    assert forall|j: int| 0 <= j < self@.len() implies (
                    #[trigger] self@[j]).id != id as int by {
                        let oj: int = if j < i as int {
                            j
                        } else {
                            j + 1
                        };
                        assert(old(self)@[oj].id == self@[j].id);
                        if oj != i as int {
                            assert(old(self)@[i as int].id == id as int);
                        }
                    }
                }
                true
            },
        }
    }
}

} // verus!
