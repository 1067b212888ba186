use todo_rs::{sorted_by_status, status_label, truncate_at, TaskStore, Todo};

fn contains_task(todos: &Vec<Todo>, target_name: &str) -> bool {
    for todo in todos {
        if todo.name == target_name {
            return true;
        }
    }
    false
}

#[test]
fn test_add_todo() {
    let mut conn = TaskStore::new();

    let name = "Test Todo";
    Todo::add(&mut conn, name, "2024-01-01 00:00:00");

    let todos = Todo::list(&conn, false);
    let mut count = 0;
    for todo in &todos {
        if todo.name == name {
            count += 1;
        }
    }

    assert_eq!(count, 1, "Todo was not added to the database");
}

#[test]
fn test_list_todo() {
    let mut conn = TaskStore::new();

    Todo::add(&mut conn, "Task 1", "2024-01-01 00:00:00");
    Todo::add(&mut conn, "Task 2", "2024-01-01 00:00:00");
    Todo::add(&mut conn, "Task 3", "2024-01-01 00:00:00");
    let todos = Todo::list(&conn, false);

    assert_eq!(
        todos.len(),
        3,
        "Wrong number of todo items returned by list()"
    );
}

#[test]
fn test_sort_todo() {
    let mut conn = TaskStore::new();

    Todo::add(&mut conn, "Task 1", "2024-01-01 00:00:00");
    Todo::add(&mut conn, "Task 2", "2024-01-01 00:00:00");
    Todo::add(&mut conn, "Task 3", "2024-01-01 00:00:00");
    let todos = Todo::list(&conn, false);
    // toggles the first entry
    Todo::toggle(&mut conn, todos[0].id);

    // true means sorted by status
    let todos = Todo::list(&conn, true);

    assert_eq!(
        todos[2].name, "Task 1",
        "The todo marked as done was not the LAST one returned"
    );

    assert_eq!(
        todos.len(),
        3,
        "Wrong number of todo items returned by sort()"
    );
}

#[test]
fn test_rm_todo() {
    let mut conn = TaskStore::new();

    Todo::add(&mut conn, "Task 1", "2024-01-01 00:00:00");
    Todo::add(&mut conn, "Task 2", "2024-01-01 00:00:00");
    Todo::add(&mut conn, "Task 3", "2024-01-01 00:00:00");
    let todos = Todo::list(&conn, false);
    Todo::rm(&mut conn, todos[0].id);

    let todos = Todo::list(&conn, false);

    assert_eq!(
        todos.len(),
        2,
        "Wrong number of todo items returned by sort()"
    );

    assert_eq!(
        contains_task(&todos, "Task 1"),
        false,
        "Task 1 was not deleted!"
    );
}

#[test]
fn test_toggle_todo() {
    let mut conn = TaskStore::new();

    Todo::add(&mut conn, "Task 1", "2024-01-01 00:00:00");
    Todo::add(&mut conn, "Task 2", "2024-01-01 00:00:00");
    let todos = Todo::list(&conn, false);
    // toggles the first entry
    Todo::toggle(&mut conn, todos[0].id);

    let todos = Todo::list(&conn, false);

    assert_eq!(
        todos.len(),
        2,
        "Wrong number of todo items returned by toggle()"
    );

    // True and False are stored as 0 or 1 in the store
    assert_eq!(todos[0].is_done, 1, "Task 1 was not toggled!");
}

#[test]
fn test_reset_todo() {
    let mut conn = TaskStore::new();
    Todo::add(&mut conn, "Some task", "2024-01-01 00:00:00");
    Todo::reset(&mut conn);

    let todos = Todo::list(&conn, false);

    assert_eq!(todos.len(), 0, "There are still todos left after reset()");

    assert_eq!(
        contains_task(&todos, "Task 1"),
        false,
        "Task 1 was not deleted!"
    );
}

#[test]
fn add_assigns_ascending_identifiers() {
    let mut store = TaskStore::new();
    Todo::add(&mut store, "A", "d1");
    Todo::add(&mut store, "B", "d2");
    Todo::add(&mut store, "C", "d3");
    let todos = Todo::list(&store, false);
    assert_eq!(todos.len(), 3);
    assert_eq!(todos[0].id, 1);
    assert_eq!(todos[1].id, 2);
    assert_eq!(todos[2].id, 3);
    assert_eq!(todos[0].name, "A");
    assert_eq!(todos[0].date_added, "d1");
    assert_eq!(todos[0].is_done, 0);
}

#[test]
fn count_is_adds_minus_removals() {
    let mut store = TaskStore::new();
    Todo::add(&mut store, "A", "d");
    Todo::add(&mut store, "B", "d");
    Todo::add(&mut store, "C", "d");
    Todo::rm(&mut store, 2);
    let todos = Todo::list(&store, false);
    assert_eq!(todos.len(), 2);
    assert_eq!(todos[0].id, 1);
    assert_eq!(todos[1].id, 3);
}

#[test]
fn identifiers_are_not_reused_after_removal() {
    let mut store = TaskStore::new();
    Todo::add(&mut store, "A", "d");
    Todo::add(&mut store, "B", "d");
    Todo::rm(&mut store, 2);
    Todo::add(&mut store, "C", "d");
    let todos = Todo::list(&store, false);
    assert_eq!(todos.len(), 2);
    assert_eq!(todos[1].id, 3, "a removed identifier must not be reused");
}

#[test]
fn toggle_twice_restores_the_flag() {
    let mut store = TaskStore::new();
    Todo::add(&mut store, "A", "d");
    Todo::add(&mut store, "B", "d");
    Todo::toggle(&mut store, 2);
    assert_eq!(Todo::list(&store, false)[1].is_done, 1);
    Todo::toggle(&mut store, 2);
    let todos = Todo::list(&store, false);
    assert_eq!(todos[0].is_done, 0);
    assert_eq!(todos[1].is_done, 0);
}

#[test]
fn toggle_of_missing_identifier_changes_nothing() {
    let mut store = TaskStore::new();
    Todo::add(&mut store, "A", "d");
    Todo::toggle(&mut store, 77);
    let todos = Todo::list(&store, false);
    assert_eq!(todos.len(), 1);
    assert_eq!(todos[0].is_done, 0);
}

#[test]
fn sort_places_done_after_pending() {
    let mut store = TaskStore::new();
    Todo::add(&mut store, "A", "d");
    Todo::add(&mut store, "B", "d");
    Todo::add(&mut store, "C", "d");
    let first_id = Todo::list(&store, false)[0].id;
    Todo::toggle(&mut store, first_id);
    let sorted = Todo::list(&store, true);
    let names: Vec<&str> = sorted.iter().map(|t| t.name.as_str()).collect();
    assert_eq!(names, vec!["B", "C", "A"]);
}

#[test]
fn sorted_by_status_keeps_group_order() {
    let rows = vec![
        Todo::new(1, "a".to_string(), "d".to_string(), 1),
        Todo::new(2, "b".to_string(), "d".to_string(), 0),
        Todo::new(3, "c".to_string(), "d".to_string(), 1),
        Todo::new(4, "e".to_string(), "d".to_string(), 0),
    ];
    let sorted = sorted_by_status(&rows);
    let ids: Vec<i32> = sorted.iter().map(|t| t.id).collect();
    assert_eq!(ids, vec![2, 4, 1, 3]);
    assert_eq!(sorted[0].is_done, 0);
    assert_eq!(sorted[1].is_done, 0);
    assert_eq!(sorted[2].is_done, 1);
    assert_eq!(sorted[3].is_done, 1);
}

#[test]
fn rm_of_missing_identifier_changes_nothing() {
    let mut store = TaskStore::new();
    Todo::add(&mut store, "A", "d");
    Todo::add(&mut store, "B", "d");
    Todo::rm(&mut store, 99);
    let todos = Todo::list(&store, false);
    assert_eq!(todos.len(), 2);
    assert_eq!(todos[0].name, "A");
    assert_eq!(todos[1].name, "B");
}

#[test]
fn reset_of_empty_store_stays_empty() {
    let mut store = TaskStore::new();
    Todo::reset(&mut store);
    assert_eq!(Todo::list(&store, false).len(), 0);
    assert_eq!(Todo::list(&store, true).len(), 0);
}

#[test]
fn truncate_at_leaves_short_names_alone() {
    assert_eq!(truncate_at("hello", 44), "hello");
    assert_eq!(truncate_at("abc", 3), "abc");
    assert_eq!(truncate_at("", 10), "");
}

#[test]
fn truncate_at_cuts_long_names_with_ellipsis() {
    assert_eq!(truncate_at("hello world", 10), "hello w...");
    assert_eq!(truncate_at("abcd", 3), "...");
    let long = "a very long task name that goes on and on and on and on";
    let cut = truncate_at(long, 44);
    assert_eq!(cut.chars().count(), 44);
    assert_eq!(cut, "a very long task name that goes on and on...");
}

#[test]
fn status_label_names_both_states() {
    assert_eq!(status_label(0), "Pending");
    assert_eq!(status_label(1), "Done");
}
