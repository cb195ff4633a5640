use og::date::Date;
use og::markdown_formatter;
use og::markdown_parser;
use og::task_model::{RepeatInfo, Task};
use serde_json::Value;
use std::collections::HashMap;

fn create_conversion_task(id: i64, name: &str) -> Task {
    Task {
        id,
        name: name.to_string(),
        status: "open".to_string(),
        notes: None,
        created: Date::from_ymd_opt(2024, 1, 1).unwrap(),
        updated: None,
        due: None,
        completed: None,
        tags: Some(Vec::new()),
        subtasks: Some(Vec::new()),
        priority: "N".to_string(),
        display_order: 1,
        project: None,
        contexts: None,
        extra: None,
        repeat: None,
    }
}

fn date_to_json(d: &Date) -> Value {
    Value::String(d.to_text())
}

fn texts_to_json(v: &Vec<String>) -> Value {
    Value::Array(v.iter().map(|s| Value::String(s.clone())).collect())
}

/// One task as a JSON object; a field that is absent has no key.
fn task_to_json(t: &Task) -> Value {
    let mut m = serde_json::Map::new();
    m.insert("name".to_string(), Value::String(t.name.clone()));
    m.insert("status".to_string(), Value::String(t.status.clone()));
    m.insert("priority".to_string(), Value::String(t.priority.clone()));
    m.insert("id".to_string(), Value::from(t.id));
    m.insert("created".to_string(), date_to_json(&t.created));
    m.insert("display_order".to_string(), Value::from(t.display_order));
    if let Some(d) = &t.due {
        m.insert("due".to_string(), date_to_json(d));
    }
    if let Some(d) = &t.updated {
        m.insert("updated".to_string(), date_to_json(d));
    }
    if let Some(d) = &t.completed {
        m.insert("completed".to_string(), date_to_json(d));
    }
    if let Some(p) = &t.project {
        m.insert("project".to_string(), Value::String(p.clone()));
    }
    if let Some(v) = &t.contexts {
        m.insert("contexts".to_string(), texts_to_json(v));
    }
    if let Some(n) = &t.notes {
        m.insert("notes".to_string(), Value::String(n.clone()));
    }
    if let Some(v) = &t.tags {
        m.insert("tags".to_string(), texts_to_json(v));
    }
    if let Some(v) = &t.subtasks {
        m.insert("subtasks".to_string(), Value::Array(v.iter().map(task_to_json).collect()));
    }
    if let Some(e) = &t.extra {
        m.insert("extra".to_string(), Value::Object(e.clone().into_iter().collect()));
    }
    if t.repeat.is_some() {
        m.insert("repeat".to_string(), Value::Object(serde_json::Map::new()));
    }
    Value::Object(m)
}

fn date_from_json(v: &Value) -> Date {
    let s = v.as_str().unwrap();
    let parts: Vec<&str> = s.split('-').collect();
    assert_eq!(parts.len(), 3);
    Date::from_ymd_opt(parts[0].parse().unwrap(), parts[1].parse().unwrap(), parts[2].parse().unwrap())
        .unwrap()
}

fn texts_from_json(v: &Value) -> Vec<String> {
    v.as_array().unwrap().iter().map(|s| s.as_str().unwrap().to_string()).collect()
}

fn task_from_json(v: &Value) -> Task {
    let m = v.as_object().unwrap();
    let present = |k: &str| m.get(k).filter(|x| !x.is_null());
    Task {
        name: m["name"].as_str().unwrap().to_string(),
        status: m["status"].as_str().unwrap().to_string(),
        priority: m["priority"].as_str().unwrap().to_string(),
        id: m["id"].as_i64().unwrap(),
        created: date_from_json(&m["created"]),
        display_order: m["display_order"].as_i64().unwrap(),
        due: present("due").map(date_from_json),
        updated: present("updated").map(date_from_json),
        completed: present("completed").map(date_from_json),
        project: present("project").map(|x| x.as_str().unwrap().to_string()),
        contexts: present("contexts").map(texts_from_json),
        notes: present("notes").map(|x| x.as_str().unwrap().to_string()),
        tags: present("tags").map(texts_from_json),
        subtasks: present("subtasks").map(|x| x.as_array().unwrap().iter().map(task_from_json).collect()),
        extra: present("extra").map(|x| {
            x.as_object().unwrap().iter().map(|(k, v)| (k.clone(), v.clone())).collect::<HashMap<String, Value>>()
        }),
        repeat: present("repeat").map(|_| RepeatInfo {}),
    }
}

#[test]
fn test_markdown_to_json_conversion_logic() {
    let markdown_input = "- [ ] [[Task 1]]
- [x] [[Task 2]]";
    let default_date = Date::today();
    let tasks = markdown_parser::parse_markdown_document_to_tasks(markdown_input, default_date).unwrap();

    let mut json_outputs: Vec<String> = Vec::new();
    for task in tasks {
        json_outputs.push(serde_json::to_string(&task_to_json(&task)).unwrap());
    }
    let result_json_string = json_outputs.join("\n");

    assert_eq!(json_outputs.len(), 2);
    assert!(result_json_string.contains("\"name\":\"Task 1\""));
    assert!(result_json_string.contains("\"name\":\"Task 2\""));
    assert!(result_json_string.contains("\"status\":\"none\""));
    assert!(result_json_string.contains("\"status\":\"done\""));
}

#[test]
fn test_json_to_markdown_conversion_logic() {
    let task1 = create_conversion_task(1, "Task 1 from JSON");
    let mut task2 = create_conversion_task(2, "Task 2 from JSON");
    if task2.subtasks.is_none() {
        task2.subtasks = Some(Vec::new());
    }
    task2.subtasks.as_mut().unwrap().push(create_conversion_task(3, "Subtask 2.1"));

    let json_input_task1 = serde_json::to_string(&task_to_json(&task1)).unwrap();
    let json_input_task2 = serde_json::to_string(&task_to_json(&task2)).unwrap();
    let json_input = format!("{}\n{}", json_input_task1, json_input_task2);

    let mut tasks: Vec<Task> = Vec::new();
    for line in json_input.lines() {
        if line.trim().is_empty() {
            continue;
        }
        let value: Value = serde_json::from_str(line).unwrap();
        tasks.push(task_from_json(&value));
    }

    let markdown_output = markdown_formatter::format_tasks_to_markdown_document(&tasks);

    assert!(markdown_output.contains("[[Task 1 from JSON]]"));
    assert!(markdown_output.contains("[[Task 2 from JSON]]"));
    assert!(markdown_output.contains("Subtask 2.1"));
}

#[test]
fn test_fmt_logic_no_inplace() {
    let markdown_input = "- [ ] [[Task A]]
    - [x] [[Subtask B]]
- [ ] [[Task C]]";
    let default_date = Date::today();

    let tasks = markdown_parser::parse_markdown_document_to_tasks(markdown_input, default_date).unwrap();
    let formatted_markdown = markdown_formatter::format_tasks_to_markdown_document(&tasks);

    assert!(formatted_markdown.contains("[[Task A]]"));
    assert!(formatted_markdown.contains("[[Subtask B]]"));
    assert!(formatted_markdown.contains("[[Task C]]"));

    let re_parsed_tasks = markdown_parser::parse_markdown_document_to_tasks(&formatted_markdown, default_date).unwrap();
    assert_eq!(re_parsed_tasks.len(), 2, "Formatting should preserve top-level task count.");
    assert_eq!(re_parsed_tasks[0].subtasks.as_ref().map_or(0, |s| s.len()), 1, "Formatting should preserve sub-task count for Task A.");
}

/// A dry run on an empty store: the one task of the edited text is what would
/// be added.
#[test]
fn apply_dry_run_empty_json_add() {
    let today = Date::today();
    let existing: Vec<Task> = Vec::new();
    let markdown_tasks = markdown_parser::parse_markdown_document_to_tasks("- [ ] NewTask\n", today).unwrap();
    let final_tasks = og::apply_logic::apply_changes(existing, markdown_tasks, today).unwrap();
    let report = og::apply_logic::dry_run_summary(&final_tasks);
    assert!(report.contains("Dry run summary:"));
    assert!(report.contains("Added tasks:"));
    assert!(report.contains("NewTask"));
    assert_eq!(report, "Dry run summary:\nAdded tasks:\nNewTask\n");
}

/// A stored task is renamed by the edited text; the store and the rendered
/// text both carry the new name.
#[test]
fn apply_update_json_file_and_output_markdown() {
    let today = Date::today();
    let mut m = serde_json::Map::new();
    m.insert("id".to_string(), Value::from(1));
    m.insert("name".to_string(), Value::String("OldTask".to_string()));
    m.insert("status".to_string(), Value::String("NONE".to_string()));
    m.insert("notes".to_string(), Value::Null);
    m.insert("created".to_string(), Value::String("2024-01-01".to_string()));
    m.insert("updated".to_string(), Value::Null);
    m.insert("due".to_string(), Value::Null);
    m.insert("completed".to_string(), Value::Null);
    m.insert("tags".to_string(), Value::Array(Vec::new()));
    m.insert("subtasks".to_string(), Value::Array(Vec::new()));
    m.insert("priority".to_string(), Value::String("N".to_string()));
    m.insert("display_order".to_string(), Value::from(1));
    m.insert("project".to_string(), Value::Null);
    m.insert("contexts".to_string(), Value::Null);
    m.insert("extra".to_string(), Value::Null);
    m.insert("repeat".to_string(), Value::Null);
    let stored_line = Value::Object(m).to_string();

    let existing = vec![task_from_json(&serde_json::from_str(&stored_line).unwrap())];
    let markdown_tasks = markdown_parser::parse_markdown_document_to_tasks("- [ ] NewName\n", today).unwrap();
    let final_tasks = og::apply_logic::apply_changes(existing, markdown_tasks, today).unwrap();

    let markdown_out = markdown_formatter::format_tasks_to_markdown_document(&final_tasks);
    assert!(markdown_out.contains("NewName"));

    let contents = final_tasks
        .iter()
        .map(|t| serde_json::to_string(&task_to_json(t)).unwrap())
        .collect::<Vec<_>>()
        .join("\n");
    assert!(contents.contains("\"name\":\"NewName\""));
}
