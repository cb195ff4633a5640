use og::date::Date;
use og::markdown_formatter::{
    format_task_core_content, format_tasks_to_markdown_document, map_status_string_to_char,
};
use og::markdown_parser::parse_document_in_year;
use og::task_model::Task;

fn ymd(y: i32, m: u32, d: u32) -> Date {
    Date::from_ymd_opt(y, m, d).unwrap()
}

fn task(id: i64, name: &str) -> Task {
    Task {
        name: name.to_string(),
        status: "open".to_string(),
        priority: "N".to_string(),
        id,
        created: ymd(2024, 1, 2),
        display_order: 1,
        due: None,
        updated: None,
        completed: None,
        project: None,
        contexts: None,
        notes: None,
        tags: None,
        subtasks: None,
        extra: None,
        repeat: None,
    }
}

#[test]
fn status_words_are_written_as_markers_whatever_their_case() {
    for (word, marker) in [
        ("none", ' '), ("NONE", ' '), ("open", ' '), ("Open", ' '), ("pending", 'p'),
        ("PENDING", 'p'), ("doing", '>'), ("Waiting", 'w'), ("DONE", 'x'), ("done", 'x'),
        ("cancelled", 'c'), ("CANCELLED", 'c'), ("unknown", '?'), ("", '?'), ("canceled", '?'),
    ] {
        assert_eq!(map_status_string_to_char(word), marker, "{:?}", word);
    }
}

#[test]
fn a_line_has_its_attributes_in_the_fixed_order() {
    let mut t = task(12, "All of it");
    t.status = "DOING".to_string();
    t.priority = "B".to_string();
    t.due = Some(ymd(2024, 12, 31));
    t.updated = Some(ymd(2024, 2, 3));
    t.completed = Some(ymd(2024, 3, 4));
    t.project = Some("proj".to_string());
    t.contexts = Some(vec!["a".to_string(), "b".to_string()]);
    t.tags = Some(vec!["x".to_string(), "y".to_string()]);
    t.notes = Some("say \"hi\"".to_string());
    assert_eq!(
        format_task_core_content(&t),
        "[>] (B) [[All of it]] id:12 due:2024-12-31 +proj @a @b #x #y created:2024-01-02 updated:2024-02-03 completed:2024-03-04 note:\"say \"\"hi\"\"\""
    );
}

#[test]
fn absent_attributes_leave_no_trace_but_dates_keep_their_key() {
    let mut t = task(-3, "Bare");
    t.contexts = Some(Vec::new());
    t.tags = Some(Vec::new());
    assert_eq!(
        format_task_core_content(&t),
        "[ ] (N) [[Bare]] id:-3 due:\"\" created:2024-01-02 updated:\"\" completed:\"\""
    );
}

#[test]
fn nested_tasks_are_indented_under_their_parent() {
    let mut a = task(1, "a");
    let mut b = task(2, "b");
    b.subtasks = Some(vec![task(3, "c")]);
    a.subtasks = Some(vec![b, task(4, "d")]);
    let text = format_tasks_to_markdown_document(&[a, task(5, "e")]);
    let lines: Vec<&str> = text.lines().collect();
    assert_eq!(lines.len(), 5);
    assert!(lines[0].starts_with("- [ ] (N) [[a]] id:1 "));
    assert!(lines[1].starts_with("    - [ ] (N) [[b]] id:2 "));
    assert!(lines[2].starts_with("        - [ ] (N) [[c]] id:3 "));
    assert!(lines[3].starts_with("    - [ ] (N) [[d]] id:4 "));
    assert!(lines[4].starts_with("- [ ] (N) [[e]] id:5 "));
    assert!(!text.ends_with('\n'));
    assert_eq!(format_tasks_to_markdown_document(&[]), "");
}

#[test]
fn rendering_and_reading_again_gives_the_forest_back() {
    let text = "- [p] (A) [[Plan]] id:4 due:2024-08-15 +home @desk @phone #big created:2023-03-03 note:\"with \"\"quotes\"\"\"\n    - [x] [[Step one]] completed:2024-01-05\n        - [ ] [[Detail]]\n    - [>] [[Step two]] id:9\n- [?] [[Later]]\n- [c] (ZZ) [[Dropped]] updated:2024-02-02";
    let first = parse_document_in_year(text, ymd(2024, 1, 1), 2024).unwrap();
    let rendered = format_tasks_to_markdown_document(&first);
    let second = parse_document_in_year(&rendered, ymd(1999, 9, 9), 2024).unwrap();
    assert_eq!(format!("{:?}", first), format!("{:?}", second));
    assert_eq!(format_tasks_to_markdown_document(&second), rendered);
}

#[test]
fn a_plain_name_comes_back_in_brackets() {
    let first = parse_document_in_year("- [ ] Buy milk", ymd(2024, 1, 1), 2024).unwrap();
    let rendered = format_tasks_to_markdown_document(&first);
    assert_eq!(rendered, "- [ ] (N) [[Buy milk]] id:1 due:\"\" created:2024-01-01 updated:\"\" completed:\"\"");
    let second = parse_document_in_year(&rendered, ymd(2024, 1, 1), 2024).unwrap();
    assert_eq!(format!("{:?}", first), format!("{:?}", second));
}
