//! The task record and its mathematical view.

use crate::date::Date;
use std::collections::HashMap;
use vstd::prelude::*;

verus! {

/// A JSON value of `serde_json`. The library carries such values and never
/// looks inside them.
#[verifier::external_type_specification]
#[verifier::external_body]
pub struct ExJsonValue(serde_json::Value);

/// Reserved for recurrence rules; holds nothing yet.
#[derive(Debug, Clone, Copy, PartialEq, Eq, Structural)]
pub struct RepeatInfo {}

impl Default for RepeatInfo {
    /// No recurrence.
    fn default() -> (r: RepeatInfo)
        ensures
            r == (RepeatInfo {  }),
    {
        RepeatInfo {  }
    }
}

/// One task, with the tasks nested under it.
#[derive(Debug)]
pub struct Task {
    pub name: String,
    pub status: String,
    pub priority: String,
    /// Identifies the task across edits.
    pub id: i64,
    pub created: Date,
    /// Rank of the task in the document it was last read from, from 1.
    pub display_order: i64,
    pub due: Option<Date>,
    pub updated: Option<Date>,
    pub completed: Option<Date>,
    pub project: Option<String>,
    pub contexts: Option<Vec<String>>,
    pub notes: Option<String>,
    pub tags: Option<Vec<String>>,
    pub subtasks: Option<Vec<Task>>,
    /// Fields of the store that the text form cannot express.
    pub extra: Option<HashMap<String, serde_json::Value>>,
    pub repeat: Option<RepeatInfo>,
}

/// Year, month and day of a date.
pub type Ymd = (int, int, int);

/// What a task is: texts as character sequences, numbers as integers, dates
/// as year, month and day, nested tasks as a sequence of such values.
pub struct TaskView {
    pub name: Seq<char>,
    pub status: Seq<char>,
    pub priority: Seq<char>,
    pub id: int,
    pub created: Ymd,
    pub display_order: int,
    pub due: Option<Ymd>,
    pub updated: Option<Ymd>,
    pub completed: Option<Ymd>,
    pub project: Option<Seq<char>>,
    pub contexts: Option<Seq<Seq<char>>>,
    pub notes: Option<Seq<char>>,
    pub tags: Option<Seq<Seq<char>>>,
    pub subtasks: Option<Seq<TaskView>>,
    pub extra: Option<Map<String, serde_json::Value>>,
    pub repeat: Option<RepeatInfo>,
}

/// The character sequences of a sequence of texts.
pub open spec fn texts(v: Seq<String>) -> Seq<Seq<char>> {
    v.map_values(|s: String| s@)
}

/// The characters of a text that may be absent.
pub open spec fn opt_text(o: Option<String>) -> Option<Seq<char>> {
    match o {
        Some(s) => Some(s@),
        None => None,
    }
}

/// The character sequences of a list of texts that may be absent.
pub open spec fn opt_texts(o: Option<Vec<String>>) -> Option<Seq<Seq<char>>> {
    match o {
        Some(v) => Some(texts(v@)),
        None => None,
    }
}

/// Year, month and day of a date that may be absent.
pub open spec fn opt_date(o: Option<Date>) -> Option<Ymd> {
    match o {
        Some(d) => Some(d@),
        None => None,
    }
}

/// The entries of a mapping that may be absent.
pub open spec fn opt_entries(o: Option<HashMap<String, serde_json::Value>>) -> Option<
    Map<String, serde_json::Value>,
> {
    match o {
        Some(m) => Some(m@),
        None => None,
    }
}

/// The views of a sequence of tasks, in order.
pub open spec fn forest_view(tasks: Seq<Task>) -> Seq<TaskView>
    decreases tasks, 0nat,
{
    if tasks.len() == 0 {
        Seq::empty()
    } else {
        forest_view(tasks.drop_last()).push(tasks.last().view())
    }
}

impl View for Task {
    type V = TaskView;

    open spec fn view(&self) -> TaskView
        decreases self, 1nat,
    {
        TaskView {
            name: self.name@,
            status: self.status@,
            priority: self.priority@,
            id: self.id as int,
            created: self.created@,
            display_order: self.display_order as int,
            due: opt_date(self.due),
            updated: opt_date(self.updated),
            completed: opt_date(self.completed),
            project: opt_text(self.project),
            contexts: opt_texts(self.contexts),
            notes: opt_text(self.notes),
            tags: opt_texts(self.tags),
            subtasks: match self.subtasks {
                Some(v) => Some(forest_view(v@)),
                None => None,
            },
            extra: opt_entries(self.extra),
            repeat: self.repeat,
        }
    }
}

/// `forest_view` keeps the length and views each task in place.
pub proof fn lemma_forest_view(tasks: Seq<Task>)
    ensures
        forest_view(tasks).len() == tasks.len(),
        forall|i: int| 0 <= i < tasks.len() ==> (#[trigger] forest_view(tasks)[i]) == tasks[i]@,
    decreases tasks.len(),
{
    reveal_with_fuel(forest_view, 2);
    if tasks.len() > 0 {
        lemma_forest_view(tasks.drop_last());
    }
}

/// Appending a task appends its view.
pub proof fn lemma_forest_view_push(tasks: Seq<Task>, t: Task)
    ensures
        forest_view(tasks.push(t)) == forest_view(tasks).push(t@),
{
    assert(tasks.push(t).drop_last() == tasks);
}

/// A copy of each text of `v`.
pub fn clone_texts(v: &Vec<String>) -> (r: Vec<String>)
    ensures
        r@ == v@,
{
    let mut out: Vec<String> = Vec::new();
    let mut i: usize = 0;
    while i < v.len()
        invariant
            i <= v.len(),
            out@ == v@.take(i as int),
        decreases v.len() - i,
    {
        out.push(v[i].clone());
        i += 1;
    }
    out
}

impl Clone for Task {
    /// A copy of the task and of everything nested under it.
    fn clone(&self) -> (r: Task)
        ensures
            r@ == self@,
        decreases self,
    {
        let subtasks = match &self.subtasks {
            Some(v) => {
                let mut out: Vec<Task> = Vec::new();
                let mut i: usize = 0;
                while i < v.len()
                    invariant
                        i <= v.len(),
                        self.subtasks == Some(*v),
                        forest_view(out@) == forest_view(v@.take(i as int)),
                    decreases v.len() - i,
                {
                    proof {
                        assert(decreases_to!(*self => self.subtasks->0));
                    }
                    let t = v[i].clone();
                    proof {
                        lemma_forest_view_push(out@, t);
                        lemma_forest_view_push(v@.take(i as int), v@[i as int]);
                        assert(v@.take(i + 1) == v@.take(i as int).push(v@[i as int]));
                    }
                    out.push(t);
                    i += 1;
                }
                assert(v@.take(v.len() as int) == v@);
                Some(out)
            },
            None => None,
        };
        Task {
            name: self.name.clone(),
            status: self.status.clone(),
            priority: self.priority.clone(),
            id: self.id,
            created: self.created,
            display_order: self.display_order,
            due: self.due,
            updated: self.updated,
            completed: self.completed,
            project: match &self.project {
                Some(s) => Some(s.clone()),
                None => None,
            },
            contexts: match &self.contexts {
                Some(v) => Some(clone_texts(v)),
                None => None,
            },
            notes: match &self.notes {
                Some(s) => Some(s.clone()),
                None => None,
            },
            tags: match &self.tags {
                Some(v) => Some(clone_texts(v)),
                None => None,
            },
            subtasks,
            extra: match &self.extra {
                Some(m) => Some(m.clone()),
                None => None,
            },
            repeat: self.repeat,
        }
    }
}

} // verus!
