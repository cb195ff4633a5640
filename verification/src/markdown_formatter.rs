//! Writing the text form: a task into its line, a forest into a document.

use crate::date::{date_text, Date};
use crate::hierarchy::{
    bare, bared, law_forest_of_listing, lemma_listing_add, lemma_trees_ignore_nested, listing,
    listing_tree, well_nested, Entry,
};
use crate::markdown_parser::{
    base_match, cleared_token, content_of, entries_of_lines, fields_of_match, indent_level,
    is_task_line, line_item, map_string_to_status_char, marker_char, parsed_document, prepared,
    status_marker, status_word, task_lines, task_lines_of, task_of_fields, LineFieldsView,
};
use crate::task_model::{forest_view, lemma_forest_view_push, Task, TaskView, Ymd};
use crate::text::{
    ascii_lower, chars_of, escape_quotes, int_text, join, join_rows, law_int_text_reads_back,
    law_lines_of_joined, law_unescape_escape, lemma_leading_len, lemma_trim_end_clean, push_all,
    push_escaped, push_int, push_text, rows, string_of, trailing_run, trim_end, trim_start,
    CharClass,
};
use vstd::prelude::*;

verus! {

/// The marker character that a status is written as.
pub fn map_status_string_to_char(status_string: &str) -> (r: char)
    ensures
        r == status_marker(status_string@),
{
    map_string_to_status_char(status_string)
}

/// A date attribute: its key, then the date, or the clearing value where
/// there is no date.
pub open spec fn date_attribute_text(key: Seq<char>, d: Option<Ymd>) -> Seq<char> {
    key + match d {
        Some(x) => date_text(x),
        None => cleared_token(),
    }
}

/// Each of `items` with `prefix` before it.
pub open spec fn prefixed(prefix: char, items: Seq<Seq<char>>) -> Seq<Seq<char>> {
    items.map_values(|c: Seq<char>| seq![prefix] + c)
}

/// The fields that the line of a task carries: the marker of its status, its
/// priority, its name in double brackets, its identifier in digits, its dates,
/// project, contexts and tags as they are, and its note with every quotation
/// mark doubled.
pub open spec fn fields_written(t: TaskView) -> LineFieldsView {
    LineFieldsView {
        status: Some(seq![status_marker(t.status)]),
        priority: Some(t.priority),
        wiki_name: Some(t.name),
        plain_name: None,
        id: Some(int_text(t.id)),
        created: Some(t.created),
        due: t.due,
        updated: t.updated,
        completed: t.completed,
        project: t.project,
        contexts: match t.contexts {
            Some(cs) => cs,
            None => Seq::empty(),
        },
        tags: match t.tags {
            Some(cs) => cs,
            None => Seq::empty(),
        },
        note: match t.notes {
            Some(n) => Some(escape_quotes(n)),
            None => None,
        },
    }
}

/// A text that may be absent; nothing where it is.
pub open spec fn text_or_none(o: Option<Seq<char>>) -> Seq<char> {
    match o {
        Some(t) => t,
        None => Seq::empty(),
    }
}

/// `list` with one more attribute for the items, each with `prefix` before
/// it and a space between each two; `list` itself where there are none.
pub open spec fn with_items(list: Seq<Seq<char>>, prefix: char, items: Seq<Seq<char>>) -> Seq<
    Seq<char>,
> {
    if items.len() > 0 {
        list.push(join(prefixed(prefix, items), " "@))
    } else {
        list
    }
}

/// The attributes that write the fields of a line, in the order in which
/// they are written: identifier, due date, project, contexts, tags, creation
/// date, date of last change, completion date, note.
pub open spec fn field_attributes(f: LineFieldsView) -> Seq<Seq<char>> {
    let a = seq!["id:"@ + text_or_none(f.id), date_attribute_text("due:"@, f.due)];
    let b = match f.project {
        Some(p) => a.push(seq!['+'] + p),
        None => a,
    };
    let c = with_items(b, '@', f.contexts);
    let d = with_items(c, '#', f.tags);
    let e = d.push(
        "created:"@ + match f.created {
            Some(x) => date_text(x),
            None => Seq::empty(),
        },
    ).push(date_attribute_text("updated:"@, f.updated)).push(
        date_attribute_text("completed:"@, f.completed),
    );
    match f.note {
        Some(n) => e.push("note:\""@ + n + "\""@),
        None => e,
    }
}

/// The text that writes the fields of a line: status marker, priority, name
/// in double brackets, attributes.
pub open spec fn fields_text(f: LineFieldsView) -> Seq<char> {
    trim_end(
        "["@ + seq![marker_char(f.status)] + "] ("@ + text_or_none(f.priority) + ") [["@
            + text_or_none(f.wiki_name) + "]] "@ + trim_end(join(field_attributes(f), " "@)),
    )
}

/// The attributes of a task in the order in which they are written.
pub open spec fn attribute_texts(t: TaskView) -> Seq<Seq<char>> {
    field_attributes(fields_written(t))
}

/// The line of a task without indentation and list marker: its fields,
/// written out.
pub open spec fn core_text(t: TaskView) -> Seq<char> {
    fields_text(fields_written(t))
}

/// A task as it comes back from the fields of its line: with the status that
/// its marker stands for, with contexts and tags absent where there were
/// none, with nothing nested and without extension fields or recurrence.
pub open spec fn as_read(t: TaskView) -> TaskView {
    TaskView {
        status: status_word(status_marker(t.status)),
        contexts: match t.contexts {
            Some(cs) => if cs.len() > 0 {
                Some(cs)
            } else {
                None
            },
            None => None,
        },
        tags: match t.tags {
            Some(cs) => if cs.len() > 0 {
                Some(cs)
            } else {
                None
            },
            None => None,
        },
        subtasks: None,
        extra: None,
        repeat: None,
        ..t
    }
}

/// The fields of a line give the task back: the task made from the fields
/// that the line of a task carries is that task as read, whatever the
/// defaults, where its identifier fits in 64 bits.
pub proof fn law_fields_read_back(t: TaskView, default_id: int, default_created: Ymd)
    requires
        i64::MIN <= t.id <= i64::MAX,
    ensures
        task_of_fields(fields_written(t), default_id, default_created, t.display_order) == as_read(
            t,
        ),
{
    law_int_text_reads_back(t.id);
    if t.notes is Some {
        law_unescape_escape(t.notes->0);
    }
}

/// A task that was read from a line comes back from the fields of its
/// rendered line as it was.
pub proof fn law_parsed_task_reads_back(
    f: LineFieldsView,
    id: int,
    created: Ymd,
    order: int,
    default_id: int,
    default_created: Ymd,
)
    requires
        i64::MIN <= id <= i64::MAX,
        i64::MIN <= default_id <= i64::MAX,
    ensures
        ({
            let t = task_of_fields(f, id, created, order);
            task_of_fields(fields_written(t), default_id, default_created, order) == t
        }),
{
    let t = task_of_fields(f, id, created, order);
    law_fields_read_back(t, default_id, default_created);
    law_status_reads_back(marker_char(f.status));
}

/// Removes the whitespace at the end of `out`.
fn trim_end_in_place(out: &mut Vec<char>)
    ensures
        final(out)@ == trim_end(old(out)@),
{
    let n = out.len();
    assert(out@.subrange(0, n as int) == out@);
    let m = trailing_run(out, 0, n, CharClass::Whitespace);
    out.truncate(n - m);
}

/// A date attribute.
fn date_attribute_chars(key: &str, d: &Option<Date>) -> (r: Vec<char>)
    ensures
        r@ == date_attribute_text(key@, crate::task_model::opt_date(*d)),
{
    let mut out: Vec<char> = Vec::new();
    push_text(&mut out, key);
    match d {
        Some(date) => {
            date.push_text(&mut out);
        },
        None => {
            out.push('"');
            out.push('"');
        },
    }
    out
}

/// One attribute for all of `items`, each with `prefix` before it.
fn items_chars(prefix: char, items: &Vec<String>) -> (r: Vec<char>)
    ensures
        r@ == join(prefixed(prefix, crate::task_model::texts(items@)), " "@),
{
    let ghost all = prefixed(prefix, crate::task_model::texts(items@));
    let mut parts: Vec<Vec<char>> = Vec::new();
    let mut i: usize = 0;
    while i < items.len()
        invariant
            i <= items.len(),
            all == prefixed(prefix, crate::task_model::texts(items@)),
            rows(parts@) == all.take(i as int),
        decreases items.len() - i,
    {
        let mut part: Vec<char> = Vec::new();
        part.push(prefix);
        push_text(&mut part, items[i].as_str());
        parts.push(part);
        proof {
            assert(all.take(i + 1) =~= all.take(i as int).push(all[i as int]));
        }
        i += 1;
    }
    assert(all.take(all.len() as int) == all);
    let mut sep: Vec<char> = Vec::new();
    sep.push(' ');
    proof {
        reveal_strlit(" ");
        assert(sep@ =~= " "@);
    }
    join_rows(&parts, &sep)
}

/// The line of `task` without indentation and list marker.
pub fn format_task_core_content(task: &Task) -> (r: String)
    ensures
        r@ == core_text(task@),
{
    let ghost t = task@;
    let mut attrs: Vec<Vec<char>> = Vec::new();
    let mut id_attr: Vec<char> = Vec::new();
    push_text(&mut id_attr, "id:");
    push_int(&mut id_attr, task.id);
    attrs.push(id_attr);
    attrs.push(date_attribute_chars("due:", &task.due));
    match &task.project {
        Some(p) => {
            let mut part: Vec<char> = Vec::new();
            part.push('+');
            push_text(&mut part, p.as_str());
            attrs.push(part);
        },
        None => {},
    }
    match &task.contexts {
        Some(cs) => {
            if cs.len() > 0 {
                let part = items_chars('@', cs);
                attrs.push(part);
            }
        },
        None => {},
    }
    match &task.tags {
        Some(cs) => {
            if cs.len() > 0 {
                let part = items_chars('#', cs);
                attrs.push(part);
            }
        },
        None => {},
    }
    let ghost d = rows(attrs@);
    let mut created: Vec<char> = Vec::new();
    push_text(&mut created, "created:");
    task.created.push_text(&mut created);
    attrs.push(created);
    attrs.push(date_attribute_chars("updated:", &task.updated));
    attrs.push(date_attribute_chars("completed:", &task.completed));
    let ghost e = rows(attrs@);
    proof {
        assert(e =~= d.push("created:"@ + date_text(t.created)).push(
            date_attribute_text("updated:"@, t.updated),
        ).push(date_attribute_text("completed:"@, t.completed)));
    }
    match &task.notes {
        Some(n) => {
            let mut part: Vec<char> = Vec::new();
            push_text(&mut part, "note:\"");
            push_escaped(&mut part, &chars_of(n.as_str()));
            push_text(&mut part, "\"");
            attrs.push(part);
        },
        None => {},
    }
    assert(rows(attrs@) == attribute_texts(t));
    let mut sep: Vec<char> = Vec::new();
    sep.push(' ');
    proof {
        reveal_strlit(" ");
        assert(sep@ =~= " "@);
    }
    let mut tail = join_rows(&attrs, &sep);
    trim_end_in_place(&mut tail);
    let mut out: Vec<char> = Vec::new();
    push_text(&mut out, "[");
    out.push(map_status_string_to_char(task.status.as_str()));
    push_text(&mut out, "] (");
    push_text(&mut out, task.priority.as_str());
    push_text(&mut out, ") [[");
    push_text(&mut out, task.name.as_str());
    push_text(&mut out, "]] ");
    push_all(&mut out, &tail);
    proof {
        assert(out@ =~= "["@ + seq![status_marker(t.status)] + "] ("@ + t.priority + ") [["@
            + t.name + "]] "@ + trim_end(join(attribute_texts(t), " "@)));
    }
    trim_end_in_place(&mut out);
    string_of(&out)
}

/// The indentation of depth `depth`: four spaces for each level.
pub open spec fn indent_text(depth: nat) -> Seq<char>
    decreases depth,
{
    if depth == 0 {
        Seq::empty()
    } else {
        indent_text((depth - 1) as nat) + "    "@
    }
}

/// The line of a task at depth `depth`.
pub open spec fn line_text(t: TaskView, depth: nat) -> Seq<char> {
    indent_text(depth) + "- "@ + core_text(t)
}

/// The lines of the tasks `ts` at depth `depth`, each followed by the lines
/// of what is nested under it.
pub open spec fn forest_lines(ts: Seq<TaskView>, depth: nat) -> Seq<Seq<char>>
    decreases ts, 0nat,
{
    if ts.len() == 0 {
        Seq::empty()
    } else {
        forest_lines(ts.drop_last(), depth) + tree_lines(ts.last(), depth)
    }
}

/// The line of `t` at depth `depth`, followed by the lines of what is nested
/// under it, one level deeper.
pub open spec fn tree_lines(t: TaskView, depth: nat) -> Seq<Seq<char>>
    decreases t, 1nat,
{
    seq![line_text(t, depth)] + match t.subtasks {
        Some(kids) => forest_lines(kids, depth + 1),
        None => Seq::empty(),
    }
}

/// The document of a forest: its lines with a line feed between each two.
pub open spec fn document_text(ts: Seq<TaskView>) -> Seq<char> {
    join(forest_lines(ts, 0), "\n"@)
}

/// The lines of a forest with one more tree are those of the forest, then
/// those of the tree.
pub proof fn lemma_forest_lines_push(ts: Seq<TaskView>, t: TaskView, depth: nat)
    ensures
        forest_lines(ts.push(t), depth) == forest_lines(ts, depth) + tree_lines(t, depth),
{
    assert(ts.push(t).drop_last() == ts);
}

/// Appends to `lines` the line of `task`, which `indent` indents, and the
/// lines of what is nested under it.
fn format_task_recursive_internal(
    task: &Task,
    indent: &Vec<char>,
    Ghost(depth): Ghost<nat>,
    lines: &mut Vec<Vec<char>>,
)
    requires
        indent@ == indent_text(depth),
    ensures
        rows(final(lines)@) == rows(old(lines)@) + tree_lines(task@, depth),
    decreases task,
{
    let ghost start = rows(lines@);
    let mut line: Vec<char> = Vec::new();
    push_all(&mut line, indent);
    push_text(&mut line, "- ");
    push_text(&mut line, format_task_core_content(task).as_str());
    lines.push(line);
    match &task.subtasks {
        Some(kids) => {
            let mut deeper: Vec<char> = Vec::new();
            push_all(&mut deeper, indent);
            push_text(&mut deeper, "    ");
            let mut i: usize = 0;
            proof {
                assert(forest_lines(forest_view(kids@.take(0)), depth + 1) =~= Seq::<
                    Seq<char>,
                >::empty());
            }
            while i < kids.len()
                invariant
                    i <= kids.len(),
                    task.subtasks == Some(*kids),
                    deeper@ == indent_text(depth + 1),
                    rows(lines@) == start + seq![line_text(task@, depth)] + forest_lines(
                        forest_view(kids@.take(i as int)),
                        depth + 1,
                    ),
                decreases kids.len() - i,
            {
                proof {
                    assert(kids@.take(i + 1) == kids@.take(i as int).push(kids@[i as int]));
                    lemma_forest_view_push(kids@.take(i as int), kids@[i as int]);
                    lemma_forest_lines_push(
                        forest_view(kids@.take(i as int)),
                        kids@[i as int]@,
                        depth + 1,
                    );
                }
                format_task_recursive_internal(&kids[i], &deeper, Ghost(depth + 1), lines);
                i += 1;
            }
            proof {
                assert(kids@.take(kids.len() as int) == kids@);
            }
        },
        None => {
        },
    }
}

/// The document of `tasks`: one line for each task, nested tasks below the
/// task they belong to and four spaces deeper.
pub fn format_tasks_to_markdown_document(tasks: &[Task]) -> (r: String)
    ensures
        r@ == document_text(forest_view(tasks@)),
{
    let mut lines: Vec<Vec<char>> = Vec::new();
    let indent: Vec<char> = Vec::new();
    let mut i: usize = 0;
    while i < tasks.len()
        invariant
            i <= tasks.len(),
            indent@ == indent_text(0),
            rows(lines@) == forest_lines(forest_view(tasks@.take(i as int)), 0),
        decreases tasks.len() - i,
    {
        proof {
            assert(tasks@.take(i + 1) == tasks@.take(i as int).push(tasks@[i as int]));
            lemma_forest_view_push(tasks@.take(i as int), tasks@[i as int]);
            lemma_forest_lines_push(forest_view(tasks@.take(i as int)), tasks@[i as int]@, 0);
        }
        format_task_recursive_internal(&tasks[i], &indent, Ghost(0), &mut lines);
        i += 1;
    }
    assert(tasks@.take(tasks.len() as int) == tasks@);
    let mut sep: Vec<char> = Vec::new();
    sep.push('\n');
    proof {
        reveal_strlit("\n");
        assert(sep@ =~= "\n"@);
    }
    string_of(&join_rows(&lines, &sep))
}

/// A status that was read from a marker is written as a marker that reads
/// as the same status.
pub proof fn law_status_reads_back(c: char)
    ensures
        status_word(status_marker(status_word(c))) == status_word(c),
{
    reveal_strlit("none");
    reveal_strlit("open");
    reveal_strlit("pending");
    reveal_strlit("doing");
    reveal_strlit("waiting");
    reveal_strlit("done");
    reveal_strlit("cancelled");
    reveal_strlit("unknown");
    let w = status_word(c);
    assert(ascii_lower(w) =~= w);
    if w == "done"@ {
        assert(w[0] == 'd');
    }
}

/// The indentation of depth `depth` is four spaces for each level.
pub proof fn lemma_indent_text(depth: nat)
    ensures
        indent_text(depth).len() == 4 * depth,
        forall|j: int| 0 <= j < 4 * depth ==> #[trigger] indent_text(depth)[j] == ' ',
    decreases depth,
{
    reveal_strlit("    ");
    if depth > 0 {
        lemma_indent_text((depth - 1) as nat);
    }
}

/// The line of a task begins with the bracket of its status marker and ends
/// in no whitespace.
pub proof fn lemma_core_text_shape(t: TaskView)
    ensures
        core_text(t).len() > 0,
        core_text(t)[0] == '[',
        crate::text::trailing_len(core_text(t), CharClass::Whitespace) == 0,
{
    reveal_strlit("[");
    let f = fields_written(t);
    let whole = "["@ + seq![marker_char(f.status)] + "] ("@ + text_or_none(f.priority) + ") [["@
        + text_or_none(f.wiki_name) + "]] "@ + trim_end(join(field_attributes(f), " "@));
    lemma_trim_end_clean(whole);
}

/// A rendered line is read as it was written: it is a task line, it is read
/// at the depth it was written at, and what the grammar is given of it is the
/// line of the task, without indentation and marker.
pub proof fn law_line_reads_back(t: TaskView, depth: nat)
    ensures
        is_task_line(line_text(t, depth)),
        indent_level(line_text(t, depth)) == depth,
        content_of(line_text(t, depth)) == core_text(t),
        prepared(core_text(t)) == core_text(t),
{
    reveal_strlit("- ");
    reveal_strlit("- [");
    lemma_indent_text(depth);
    lemma_core_text_shape(t);
    let line = line_text(t, depth);
    let n = 4 * depth as int;
    lemma_leading_len(line, CharClass::Space, n);
    lemma_leading_len(line, CharClass::Whitespace, n);
    assert(trim_start(line).take(3) =~= "- ["@);
    lemma_leading_len(line, CharClass::Marker, n + 2);
}

/// The lines that write a list of tasks with their depths.
pub open spec fn lines_written(entries: Seq<Entry>) -> Seq<Seq<char>> {
    entries.map_values(|e: Entry| line_text(e.0, e.1))
}

/// A forest is written line for line as it is listed: each task in document
/// order, on a line of its own, at its depth.
pub proof fn law_lines_follow_listing(forest: Seq<TaskView>, depth: nat)
    ensures
        forest_lines(forest, depth) == lines_written(listing(forest, depth)),
    decreases forest, 0nat,
{
    reveal_with_fuel(listing, 2);
    if forest.len() > 0 {
        let front = forest.drop_last();
        let t = forest.last();
        law_lines_follow_listing(front, depth);
        lemma_tree_lines_follow_listing(t, depth);
        assert(forest == front + seq![t]);
        lemma_listing_add(front, seq![t], depth);
        assert(lines_written(listing(front, depth) + listing_tree(t, depth)) =~= lines_written(
            listing(front, depth),
        ) + lines_written(listing_tree(t, depth)));
    }
}

/// A tree is written line for line as it is listed.
proof fn lemma_tree_lines_follow_listing(t: TaskView, depth: nat)
    ensures
        tree_lines(t, depth) == lines_written(listing_tree(t, depth)),
    decreases t, 1nat,
{
    let head = seq![(t, depth)];
    match t.subtasks {
        Some(kids) => {
            law_lines_follow_listing(kids, depth + 1);
            assert(lines_written(head + listing(kids, depth + 1)) =~= lines_written(head)
                + lines_written(listing(kids, depth + 1)));
        },
        None => {
            assert(lines_written(head + Seq::<Entry>::empty()) =~= seq![line_text(t, depth)]
                + Seq::<Seq<char>>::empty());
        },
    }
}

/// Lines that are all task lines are the task lines among themselves.
proof fn lemma_all_task_lines(ls: Seq<Seq<char>>)
    requires
        forall|k: int| 0 <= k < ls.len() ==> is_task_line(#[trigger] ls[k]),
    ensures
        task_lines_of(ls) == ls,
    decreases ls.len(),
{
    if ls.len() > 0 {
        let front = ls.drop_last();
        lemma_all_task_lines(front);
    }
}

/// The task lines of a rendered document are its lines, one for each task of
/// the forest, where no task writes a line feed into its line.
pub proof fn law_document_lines_read_back(forest: Seq<TaskView>)
    requires
        forall|k: int, j: int|
            0 <= k < forest_lines(forest, 0).len() && 0 <= j < forest_lines(forest, 0)[k].len()
                ==> #[trigger] forest_lines(forest, 0)[k][j] != '\n',
    ensures
        task_lines(document_text(forest)) == forest_lines(forest, 0),
        forest_lines(forest, 0) == lines_written(listing(forest, 0)),
{
    reveal_strlit("\n");
    let ls = forest_lines(forest, 0);
    law_lines_follow_listing(forest, 0);
    let entries = listing(forest, 0);
    assert forall|k: int| 0 <= k < ls.len() implies crate::text::is_line(#[trigger] ls[k])
        && is_task_line(ls[k]) by {
        let t = entries[k].0;
        let d = entries[k].1;
        law_line_reads_back(t, d);
        lemma_core_text_shape(t);
    }
    assert("\n"@ =~= seq!['\n']);
    law_lines_of_joined(ls);
    lemma_all_task_lines(ls);
}

/// Whether the grammar finds in the line of `t` the fields that the line
/// carries: the line has the shape of a task line, and what the patterns and
/// chrono find in it, read in `year`, are the fields that were written.
pub open spec fn grammar_finds_fields(t: TaskView, year: int) -> bool {
    &&& base_match(core_text(t)) is Some
    &&& fields_of_match(base_match(core_text(t))->0, year) == fields_written(t)
}

/// Whether `t` is in the form in which a task is read from a line: apart
/// from what is nested under it, it is itself as read, and its identifier is
/// not 0 and fits in 64 bits.
pub open spec fn is_as_read(t: TaskView) -> bool {
    &&& bare(t) == as_read(t)
    &&& t.id != 0
    &&& i64::MIN <= t.id <= i64::MAX
}

/// The rendered document reads back as the forest, as far as the grammar
/// goes: where every task of a forest is in the form in which tasks are read
/// and is ranked by its place, no line holds a line feed, and the grammar
/// finds in every rendered line the fields that were written, the document
/// of the forest is read as that forest, and rendering what was read gives
/// the same document. What the grammar finds is a premise here: it is
/// decided by `regex` and `chrono`, not by this library.
pub proof fn law_document_reads_back_where_grammar_does(
    forest: Seq<TaskView>,
    default_created: Ymd,
    year: int,
)
    requires
        well_nested(forest),
        forall|k: int, j: int|
            0 <= k < forest_lines(forest, 0).len() && 0 <= j < forest_lines(forest, 0)[k].len()
                ==> #[trigger] forest_lines(forest, 0)[k][j] != '\n',
        forall|k: int|
            0 <= k < listing(forest, 0).len() ==> {
                let t = (#[trigger] listing(forest, 0)[k]).0;
                &&& is_as_read(t)
                &&& t.display_order == k + 1
                &&& grammar_finds_fields(t, year)
            },
    ensures
        task_lines(document_text(forest)) == forest_lines(forest, 0),
        parsed_document(document_text(forest), default_created, year) == forest,
        document_text(parsed_document(document_text(forest), default_created, year))
            == document_text(forest),
{
    let ls = listing(forest, 0);
    let tl = task_lines(document_text(forest));
    law_document_lines_read_back(forest);
    let entries = entries_of_lines(tl, default_created, year);
    assert(entries =~= bared(ls)) by {
        assert forall|k: int| 0 <= k < ls.len() implies entries[k] == bared(ls)[k] by {
            let t = ls[k].0;
            let d = ls[k].1;
            assert(tl[k] == line_text(t, d));
            law_line_reads_back(t, d);
            law_fields_read_back(t, 0, default_created);
            assert(is_as_read(t));
            assert(line_item(tl[k], default_created, k + 1, year) == as_read(t));
        }
    }
    lemma_trees_ignore_nested(ls);
    law_forest_of_listing(forest, 0);
}

} // verus!
