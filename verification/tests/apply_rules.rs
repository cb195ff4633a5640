use og::apply_logic::{apply_changes, apply_changes_on};
use og::date::Date;
use og::markdown_parser::parse_document_in_year;
use og::task_model::{RepeatInfo, Task};
use std::collections::HashMap;

fn ymd(y: i32, m: u32, d: u32) -> Date {
    Date::from_ymd_opt(y, m, d).unwrap()
}

fn task(id: i64, name: &str) -> Task {
    Task {
        name: name.to_string(),
        status: "open".to_string(),
        priority: "N".to_string(),
        id,
        created: ymd(2020, 1, 1),
        display_order: 40 + id,
        due: None,
        updated: None,
        completed: None,
        project: None,
        contexts: None,
        notes: None,
        tags: None,
        subtasks: None,
        extra: None,
        repeat: None,
    }
}

fn full(id: i64, name: &str) -> Task {
    let mut extra = HashMap::new();
    extra.insert("k".to_string(), serde_json::Value::from(id));
    let mut t = task(id, name);
    t.status = "done".to_string();
    t.priority = "A".to_string();
    t.created = ymd(2019, 5, 6);
    t.due = Some(ymd(2023, 12, 31));
    t.updated = Some(ymd(2021, 1, 1));
    t.completed = Some(ymd(2022, 2, 2));
    t.project = Some("X".to_string());
    t.contexts = Some(vec!["work".to_string()]);
    t.notes = Some("old note".to_string());
    t.tags = Some(vec!["t".to_string()]);
    t.subtasks = Some(vec![task(90, "old child")]);
    t.extra = Some(extra);
    t.repeat = Some(RepeatInfo {});
    t
}

#[test]
fn an_edit_replaces_what_the_text_can_say() {
    let today = ymd(2024, 6, 1);
    let stored = vec![full(1, "Old")];
    let edited = parse_document_in_year("- [ ] [[New]] id:1", ymd(2024, 5, 5), 2024).unwrap();
    let out = apply_changes_on(stored, edited, today).unwrap();
    assert_eq!(out.len(), 1);
    let t = &out[0];
    assert_eq!(t.name, "New");
    assert_eq!(t.status, "none");
    assert_eq!(t.priority, "N");
    assert_eq!(t.id, 1);
    assert_eq!(t.due, None);
    assert_eq!(t.completed, None);
    assert_eq!(t.project, None);
    assert_eq!(t.contexts, None);
    assert_eq!(t.notes, None);
    assert_eq!(t.tags, None);
    assert!(t.subtasks.is_none());
    assert_eq!(t.updated, Some(today));
    assert_eq!(t.display_order, 1);
}

#[test]
fn identifier_creation_date_and_extension_fields_stay() {
    let today = ymd(2024, 6, 1);
    let stored = vec![full(1, "Old"), full(2, "Other")];
    let mut edit = task(2, "Renamed");
    edit.created = ymd(2024, 5, 5);
    let out = apply_changes_on(stored, vec![edit], today).unwrap();
    assert_eq!(out.len(), 1);
    assert_eq!(out[0].id, 2);
    assert_eq!(out[0].created, ymd(2019, 5, 6));
    assert_eq!(out[0].extra.as_ref().unwrap()["k"], serde_json::Value::from(2));
    assert_eq!(out[0].repeat, Some(RepeatInfo {}));
    let again = apply_changes_on(out, vec![task(2, "Renamed twice")], ymd(2024, 6, 2)).unwrap();
    assert_eq!(again[0].created, ymd(2019, 5, 6));
    assert_eq!(again[0].extra.as_ref().unwrap()["k"], serde_json::Value::from(2));
    assert_eq!(again[0].updated, Some(ymd(2024, 6, 2)));
    assert_eq!(again[0].name, "Renamed twice");
}

#[test]
fn records_the_edit_does_not_name_are_dropped() {
    let stored = vec![task(1, "a"), task(2, "b"), task(3, "c")];
    let out = apply_changes_on(stored, vec![task(3, "c"), task(9, "n")], ymd(2024, 6, 1)).unwrap();
    assert_eq!(out.iter().map(|t| t.id).collect::<Vec<_>>(), vec![3, 9]);
    let out = apply_changes_on(vec![task(1, "a")], Vec::new(), ymd(2024, 6, 1)).unwrap();
    assert!(out.is_empty());
}

#[test]
fn ranks_are_dense_and_follow_the_edit() {
    let stored = vec![task(1, "a"), task(2, "b"), task(3, "c")];
    let mut edited = vec![task(3, "c"), task(7, "n"), task(1, "a"), task(8, "m")];
    for t in edited.iter_mut() {
        t.display_order = 17;
    }
    let out = apply_changes_on(stored, edited, ymd(2024, 6, 1)).unwrap();
    assert_eq!(out.iter().map(|t| t.id).collect::<Vec<_>>(), vec![3, 7, 1, 8]);
    assert_eq!(out.iter().map(|t| t.display_order).collect::<Vec<_>>(), vec![1, 2, 3, 4]);
}

#[test]
fn a_new_task_enters_as_it_is() {
    let today = ymd(2024, 6, 1);
    let mut new = full(5, "New");
    new.updated = Some(ymd(2000, 1, 1));
    let out = apply_changes_on(vec![task(1, "a")], vec![new], today).unwrap();
    let t = &out[0];
    assert_eq!(t.id, 5);
    assert_eq!(t.created, ymd(2019, 5, 6));
    assert_eq!(t.due, Some(ymd(2023, 12, 31)));
    assert_eq!(t.project, Some("X".to_string()));
    assert_eq!(t.updated, Some(today));
    assert_eq!(t.display_order, 1);
    assert_eq!(t.subtasks.as_ref().unwrap()[0].name, "old child");
    assert!(t.extra.is_some());
}

#[test]
fn nested_tasks_are_replaced_whole() {
    let mut stored = task(1, "p");
    stored.subtasks = Some(vec![full(2, "kept?"), task(3, "gone")]);
    let mut edit = task(1, "p");
    let mut child = task(2, "child");
    child.display_order = 2;
    edit.subtasks = Some(vec![child]);
    let out = apply_changes_on(vec![stored], vec![edit], ymd(2024, 6, 1)).unwrap();
    let kids = out[0].subtasks.as_ref().unwrap();
    assert_eq!(kids.len(), 1);
    assert_eq!(kids[0].name, "child");
    assert!(kids[0].extra.is_none());
    assert_eq!(kids[0].updated, None);
    assert_eq!(kids[0].display_order, 2);
}

#[test]
fn of_two_stored_records_with_one_identifier_the_later_is_merged() {
    let mut first = task(1, "first");
    first.created = ymd(2001, 1, 1);
    let mut second = task(1, "second");
    second.created = ymd(2002, 2, 2);
    let out = apply_changes_on(vec![first, second], vec![task(1, "edit")], ymd(2024, 6, 1)).unwrap();
    assert_eq!(out.len(), 1);
    assert_eq!(out[0].created, ymd(2002, 2, 2));
}

#[test]
fn of_two_edited_tasks_with_one_identifier_the_first_is_merged() {
    let mut stored = task(1, "stored");
    stored.created = ymd(2001, 1, 1);
    let mut a = task(1, "a");
    a.created = ymd(2010, 1, 1);
    let mut b = task(1, "b");
    b.created = ymd(2011, 1, 1);
    let out = apply_changes_on(vec![stored], vec![a, b], ymd(2024, 6, 1)).unwrap();
    assert_eq!(out.len(), 2);
    assert_eq!((out[0].name.as_str(), out[0].created), ("a", ymd(2001, 1, 1)));
    assert_eq!((out[1].name.as_str(), out[1].created), ("b", ymd(2011, 1, 1)));
    assert_eq!(out[1].display_order, 2);
}

#[test]
fn the_clock_stamps_the_merge() {
    let before = Date::today();
    let out = apply_changes(vec![task(1, "a")], vec![task(1, "b"), task(2, "c")], ymd(1999, 1, 1)).unwrap();
    let after = Date::today();
    for t in &out {
        assert!(t.updated == Some(before) || t.updated == Some(after));
    }
    assert_eq!(out[0].created, ymd(2020, 1, 1));
}

#[test]
fn a_dry_run_names_every_task() {
    assert_eq!(og::apply_logic::dry_run_summary(&[]), "Dry run summary:\nAdded tasks:\n");
    let out = apply_changes_on(vec![task(1, "a")], vec![task(2, "new"), task(1, "b")], ymd(2024, 6, 1)).unwrap();
    assert_eq!(og::apply_logic::dry_run_summary(&out), "Dry run summary:\nAdded tasks:\nnew\nb\n");
}
