//! The task row type shared by the command-line store, and the helpers
//! that prepare a row for display.

use vstd::prelude::*;
use vstd::string::*;

verus! {

/// Mathematical image of a task row: the identifier, the character
/// sequences of the name and creation timestamp, and the 0/1 completion
/// flag.
pub ghost struct TaskView {
    pub id: int,
    pub name: Seq<char>,
    pub date_added: Seq<char>,
    pub is_done: u8,
}

/// A task row of the relational store: integer identifier, name, creation
/// timestamp and a 0/1 completion flag (0 = pending, 1 = done).
#[derive(Debug)]
pub struct Todo {
    pub id: i32,
    pub name: String,
    pub date_added: String,
    pub is_done: u8,
}

impl View for Todo {
    type V = TaskView;

    open spec fn view(&self) -> TaskView {
        TaskView {
            id: self.id as int,
            name: self.name@,
            date_added: self.date_added@,
            is_done: self.is_done,
        }
    }
}

impl Clone for Todo {
    fn clone(&self) -> (t: Self)
        ensures
            t == *self,
    {
        Todo {
            id: self.id,
            name: self.name.clone(),
            date_added: self.date_added.clone(),
            is_done: self.is_done,
        }
    }
}

impl Todo {
    pub fn new(id: i32, name: String, date_added: String, is_done: u8) -> (t: Todo)
        ensures
            t.id == id,
            t.name == name,
            t.date_added == date_added,
            t.is_done == is_done,
    {
        Todo { id, name, date_added, is_done }
    }
}

/// What truncation to a display width leaves of a name: names longer than
/// the width are cut so that a three-dot ellipsis brings them back to it;
/// shorter names pass through unchanged.
pub open spec fn spec_truncated(s: Seq<char>, max: int) -> Seq<char> {
    if s.len() > max {
        s.take(max - 3) + "..."@
    } else {
        s
    }
}

/// Truncates a name to at most `max` characters, ending it with an
/// ellipsis when something was cut.
pub fn truncate_at(input: &str, max: i32) -> (r: String)
    requires
        3 <= max,
    ensures
        r@ == spec_truncated(input@, max as int),
{
    let max_len: usize = max as usize;
    if input.unicode_len() > max_len {
        let cut = input.substring_char(0, max_len - 3);
        cut.to_owned().concat("...")
    } else {
        input.to_owned()
    }
}

/// The label a row's completion flag is shown under.
pub fn status_label(is_done: u8) -> (r: &'static str)
    ensures
        r@ == (if is_done == 1 { "Done"@ } else { "Pending"@ }),
{
    if is_done == 1 {
        "Done"
    } else {
        "Pending"
    }
}

} // verus!
