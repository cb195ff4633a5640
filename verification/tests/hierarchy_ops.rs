use og::date::Date;
use og::hierarchy::{assemble, IdAllocator};
use og::task_model::{RepeatInfo, Task};

fn task(name: &str) -> Task {
    Task {
        name: name.to_string(),
        status: "open".to_string(),
        priority: "N".to_string(),
        id: 0,
        created: Date::from_ymd_opt(2024, 1, 1).unwrap(),
        display_order: 0,
        due: None,
        updated: None,
        completed: None,
        project: None,
        contexts: None,
        notes: None,
        tags: None,
        subtasks: None,
        extra: None,
        repeat: None,
    }
}

fn shape(tasks: &[Task]) -> String {
    let mut out = String::new();
    for t in tasks {
        out.push_str(&t.name);
        match &t.subtasks {
            Some(kids) => {
                out.push('(');
                out.push_str(&shape(kids));
                out.push(')');
            }
            None => {}
        }
    }
    out
}

fn grow(levels: &[usize]) -> String {
    let names = ["a", "b", "c", "d", "e", "f", "g", "h"];
    let items = levels.iter().enumerate().map(|(i, l)| (task(names[i]), *l)).collect();
    shape(&assemble(items))
}

#[test]
fn forests_grow_by_depth() {
    assert_eq!(grow(&[]), "");
    assert_eq!(grow(&[0]), "a");
    assert_eq!(grow(&[0, 0, 0]), "abc");
    assert_eq!(grow(&[0, 1, 2, 3]), "a(b(c(d)))");
    assert_eq!(grow(&[0, 1, 1, 0, 1]), "a(bc)d(e)");
    assert_eq!(grow(&[0, 2, 1]), "a(bc)");
    assert_eq!(grow(&[0, 1, 2, 1]), "a(b(c)d)");
    assert_eq!(grow(&[1, 0]), "ab");
    assert_eq!(grow(&[2, 1, 0]), "abc");
    assert_eq!(grow(&[3, 3, 4, 3]), "ab(c)d");
    assert_eq!(grow(&[0, 5, 3, 4, 1, 0, 9]), "a(bc(d)e)f(g)");
}

#[test]
fn what_was_nested_before_is_replaced() {
    let mut parent = task("p");
    parent.subtasks = Some(vec![task("old")]);
    let mut lone = task("q");
    lone.subtasks = Some(vec![task("gone")]);
    let out = assemble(vec![(parent, 0), (task("new"), 1), (lone, 0)]);
    assert_eq!(shape(&out), "p(new)q");
    assert!(out[1].subtasks.is_none());
}

#[test]
fn other_fields_pass_through_the_forest() {
    let mut a = task("a");
    a.id = 5;
    a.display_order = 1;
    a.repeat = Some(RepeatInfo::default());
    let mut b = task("b");
    b.id = 6;
    b.project = Some("p".to_string());
    let out = assemble(vec![(a, 0), (b, 7)]);
    assert_eq!(out.len(), 1);
    assert_eq!(out[0].id, 5);
    assert_eq!(out[0].repeat, Some(RepeatInfo {}));
    let kids = out[0].subtasks.as_ref().unwrap();
    assert_eq!(kids[0].id, 6);
    assert_eq!(kids[0].project, Some("p".to_string()));
}

#[test]
fn the_smallest_free_identifier_is_given() {
    let mut ids = IdAllocator::new();
    assert!(!ids.contains(1));
    assert_eq!(ids.allocate(), 1);
    assert!(ids.contains(1));
    ids.register(2);
    ids.register(4);
    ids.register(-3);
    ids.register(0);
    assert_eq!(ids.allocate(), 3);
    assert_eq!(ids.allocate(), 5);
    ids.register(6);
    ids.register(6);
    ids.register(1);
    assert_eq!(ids.allocate(), 7);
    assert!(ids.contains(-3));
    assert!(!ids.contains(8));
}
