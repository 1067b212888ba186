use todo_rs::{HttpTask, Pagination, TaskService};

fn ids_of(tasks: &Vec<HttpTask>) -> Vec<u128> {
    tasks.iter().map(|t| t.id).collect()
}

fn list_all(service: &TaskService) -> Vec<HttpTask> {
    service.list(&Pagination::default())
}

#[test]
fn create_returns_a_fresh_pending_task() {
    let mut service = TaskService::new();
    let created = service.create("x".to_string());
    assert_eq!(created.text, "x");
    assert_eq!(created.completed, false);

    let all = list_all(&service);
    assert_eq!(all.len(), 1);
    assert_eq!(all[0].id, created.id);
    assert_eq!(all[0].text, "x");
    assert_eq!(all[0].completed, false);
}

#[test]
fn created_identifiers_differ() {
    let mut service = TaskService::new();
    let a = service.create("a".to_string());
    let b = service.create("b".to_string());
    assert_ne!(a.id, b.id);
    assert_eq!(list_all(&service).len(), 2);
}

#[test]
fn update_patches_only_supplied_fields() {
    let mut service = TaskService::new();
    let created = service.create("x".to_string());

    let updated = service.update(created.id, None, Some(true));
    let updated = updated.expect("updating an existing task must succeed");
    assert_eq!(updated.completed, true);
    assert_eq!(updated.text, "x", "text must be unchanged by a completion patch");

    let updated = service.update(created.id, Some("y".to_string()), None);
    let updated = updated.expect("updating an existing task must succeed");
    assert_eq!(updated.text, "y");
    assert_eq!(updated.completed, true, "flag must be unchanged by a text patch");

    let all = list_all(&service);
    assert_eq!(all.len(), 1);
    assert_eq!(all[0].id, created.id);
    assert_eq!(all[0].text, "y");
    assert_eq!(all[0].completed, true);
}

#[test]
fn update_with_no_fields_changes_nothing() {
    let mut service = TaskService::new();
    let created = service.create("keep".to_string());
    let updated = service.update(created.id, None, None);
    let updated = updated.expect("updating an existing task must succeed");
    assert_eq!(updated.text, "keep");
    assert_eq!(updated.completed, false);
}

#[test]
fn update_of_unknown_identifier_is_not_found() {
    let mut service = TaskService::new();
    let created = service.create("x".to_string());
    assert!(service.delete(created.id));
    // the identifier is gone and never revived
    let got = service.update(created.id, Some("y".to_string()), Some(true));
    assert!(got.is_none(), "updating a deleted identifier must report not-found");
    assert_eq!(list_all(&service).len(), 0);
}

#[test]
fn delete_removes_exactly_the_task() {
    let mut service = TaskService::new();
    let a = service.create("a".to_string());
    let b = service.create("b".to_string());
    let c = service.create("c".to_string());

    assert!(service.delete(b.id));
    let all = list_all(&service);
    assert_eq!(ids_of(&all), vec![a.id, c.id], "the others keep their order");

    assert!(!service.delete(b.id), "deleting an unknown identifier reports not-found");
    assert_eq!(list_all(&service).len(), 2);
}

#[test]
fn pagination_returns_exactly_the_second_item() {
    let mut service = TaskService::new();
    let _a = service.create("a".to_string());
    let b = service.create("b".to_string());
    let _c = service.create("c".to_string());

    let window = service.list(&Pagination { offset: Some(1), limit: Some(1) });
    assert_eq!(window.len(), 1);
    assert_eq!(window[0].id, b.id);
    assert_eq!(window[0].text, "b");
}

#[test]
fn pagination_defaults_return_everything_in_order() {
    let mut service = TaskService::new();
    let a = service.create("a".to_string());
    let b = service.create("b".to_string());
    let c = service.create("c".to_string());

    let all = service.list(&Pagination { offset: None, limit: None });
    assert_eq!(ids_of(&all), vec![a.id, b.id, c.id]);
}

#[test]
fn pagination_windows_clip_at_the_ends() {
    let mut service = TaskService::new();
    let _a = service.create("a".to_string());
    let b = service.create("b".to_string());
    let c = service.create("c".to_string());

    let tail = service.list(&Pagination { offset: Some(1), limit: Some(10) });
    assert_eq!(ids_of(&tail), vec![b.id, c.id]);

    let beyond = service.list(&Pagination { offset: Some(5), limit: None });
    assert_eq!(beyond.len(), 0);

    let nothing = service.list(&Pagination { offset: None, limit: Some(0) });
    assert_eq!(nothing.len(), 0);
}

#[test]
fn crud_round_trip_over_http_semantics() {
    // create -> appears in the listing; patch -> 200 with the new flag and
    // the old text; delete -> gone from the listing; patch/delete on an
    // unknown identifier -> the not-found condition.
    let mut service = TaskService::new();
    let created = service.create("x".to_string());
    assert_eq!(created.completed, false);

    let all = list_all(&service);
    assert!(all.iter().any(|t| t.id == created.id));

    let patched = service.update(created.id, None, Some(true));
    let patched = patched.expect("patching an existing task must succeed");
    assert_eq!(patched.completed, true);
    assert_eq!(patched.text, "x");

    assert!(service.delete(created.id));
    let all = list_all(&service);
    assert!(!all.iter().any(|t| t.id == created.id));

    assert!(service.update(created.id, None, Some(true)).is_none());
    assert!(!service.delete(created.id));
}
