//! Reading the text form: one task line into a task, a document into a forest.

use crate::date::{chrono_parse, valid_ymd, Date, MAX_YEAR, MIN_YEAR};
use crate::grammar::{
    all_matches, captured, captured_all, first_match, names, regex_captures, regex_captures_all,
    regex_compiles, BASE_PATTERN, COMPLETED_PATTERN, CONTEXT_PATTERN, CREATED_PATTERN,
    DUE_PATTERN, ID_PATTERN, NOTE_PATTERN, PROJECT_PATTERN, TAG_PATTERN, UPDATED_PATTERN,
};
use crate::hierarchy::{
    assemble, entries_of, flattened, forest_of, law_forest_keeps_order,
    lemma_smallest_free_exists, smallest_free, Entry, IdAllocator,
};
use crate::task_model::{forest_view, opt_date, opt_text, texts, Task, TaskView, Ymd};
use crate::text::{
    ascii_lower, chars_of, leading_len, leading_run, lines, lower_chars, next_line, parse_i64,
    parse_i64_chars, parse_u32, parse_u32_range, range_equals, range_starts_with, starts_with,
    string_of, string_of_range, strip_dashes, strip_dashes_range, trim, trim_range, trim_start,
    trim_start_range, unescape_quotes, unescape_quotes_chars, CharClass,
};
use vstd::prelude::*;
use vstd::string::StrSliceExecFns;
use vstd::string::StringExecFns;

verus! {

/// The nesting depth that the indentation of `line` stands for: one level for
/// every four leading spaces.
pub open spec fn indent_level(line: Seq<char>) -> nat {
    leading_len(line, CharClass::Space) / 4
}

/// `line` without its indentation and list marker: the leading run of spaces,
/// hyphens and asterisks goes, then the whitespace that follows it.
pub open spec fn content_of(line: Seq<char>) -> Seq<char> {
    trim_start(line.skip(leading_len(line, CharClass::Marker) as int))
}

/// Whether `line` is a task line: after its leading whitespace it begins with
/// `- [`.
pub open spec fn is_task_line(line: Seq<char>) -> bool {
    starts_with(trim_start(line), "- ["@)
}

/// The nesting depth of a line: a quarter of the number of its leading spaces,
/// rounded down.
pub fn calculate_indent_level(line: &str) -> (r: usize)
    ensures
        r == indent_level(line@),
{
    let v = chars_of(line);
    assert(v@.subrange(0, v.len() as int) == v@);
    leading_run(&v, 0, v.len(), CharClass::Space) / 4
}

/// The line without its indentation and list marker.
pub fn strip_indent_and_marker(line: &str) -> (r: &str)
    ensures
        r@ == content_of(line@),
{
    let v = chars_of(line);
    assert(v@.subrange(0, v.len() as int) == v@);
    let n = leading_run(&v, 0, v.len(), CharClass::Marker);
    let (a, b) = trim_start_range(&v, n, v.len());
    line.substring_char(a, b)
}

/// The status that a marker character stands for: `none` for the blank, the
/// word of the letter or sign for the others. Capitals read as their small
/// letters; a character that stands for nothing reads as `unknown`.
pub open spec fn status_word(c: char) -> Seq<char> {
    if c == ' ' {
        "none"@
    } else if c == 'p' || c == 'P' {
        "pending"@
    } else if c == '>' {
        "doing"@
    } else if c == 'w' || c == 'W' {
        "waiting"@
    } else if c == 'x' || c == 'X' {
        "done"@
    } else if c == 'c' || c == 'C' {
        "cancelled"@
    } else {
        "unknown"@
    }
}

/// The status word of a marker character.
pub fn map_status_char_to_string(status_char: char) -> (r: String)
    ensures
        r@ == status_word(status_char),
{
    if status_char == ' ' {
        String::from_str("none")
    } else if status_char == 'p' || status_char == 'P' {
        String::from_str("pending")
    } else if status_char == '>' {
        String::from_str("doing")
    } else if status_char == 'w' || status_char == 'W' {
        String::from_str("waiting")
    } else if status_char == 'x' || status_char == 'X' {
        String::from_str("done")
    } else if status_char == 'c' || status_char == 'C' {
        String::from_str("cancelled")
    } else {
        String::from_str("unknown")
    }
}

/// The marker character of a status word in small letters, `none` and `open`
/// both standing for no status; `?` for every other text.
pub open spec fn word_marker(w: Seq<char>) -> char {
    if w == "none"@ || w == "open"@ {
        ' '
    } else if w == "pending"@ {
        'p'
    } else if w == "doing"@ {
        '>'
    } else if w == "waiting"@ {
        'w'
    } else if w == "done"@ {
        'x'
    } else if w == "cancelled"@ {
        'c'
    } else {
        '?'
    }
}

/// The marker character of a status, whatever the case of its letters.
pub open spec fn status_marker(status: Seq<char>) -> char {
    word_marker(ascii_lower(status))
}

/// Whether the characters of `v` spell `word`.
pub fn spells(v: &Vec<char>, word: &str) -> (r: bool)
    ensures
        r == (v@ == word@),
{
    let w = chars_of(word);
    assert(v@.subrange(0, v.len() as int) == v@);
    range_equals(v, 0, v.len(), &w)
}

/// The marker character of a status word, whatever the case of its letters.
pub fn map_string_to_status_char(status_string: &str) -> (r: char)
    ensures
        r == status_marker(status_string@),
{
    let v = lower_chars(&chars_of(status_string));
    if spells(&v, "none") || spells(&v, "open") {
        ' '
    } else if spells(&v, "pending") {
        'p'
    } else if spells(&v, "doing") {
        '>'
    } else if spells(&v, "waiting") {
        'w'
    } else if spells(&v, "done") {
        'x'
    } else if spells(&v, "cancelled") {
        'c'
    } else {
        '?'
    }
}

/// A status word reads back from its marker: whatever the case of its
/// letters, a word for a status is written as the marker that stands for
/// that word in small letters, `none` standing for `open` too.
pub proof fn law_word_reads_back(w: Seq<char>)
    requires
        word_marker(ascii_lower(w)) != '?' || ascii_lower(w) == "unknown"@,
    ensures
        status_word(status_marker(w)) == if ascii_lower(w) == "open"@ {
            "none"@
        } else {
            ascii_lower(w)
        },
{
    reveal_strlit("none");
    reveal_strlit("open");
    reveal_strlit("pending");
    reveal_strlit("doing");
    reveal_strlit("waiting");
    reveal_strlit("done");
    reveal_strlit("cancelled");
    reveal_strlit("unknown");
}

/// What `{:?}` writes for the text `s`: the text in quotation marks, with
/// escapes where Rust's `Debug` puts them.
pub uninterp spec fn debug_text(s: Seq<char>) -> Seq<char>;

/// Formats `item` with `{:?}`. Believed, not proved: the result depends on the
/// text alone.
#[verifier::external_body]
pub fn format_for_debug(item: &str) -> (r: String)
    ensures
        r@ == debug_text(item@),
{
    format!("{:?}", item)
}

/// The attribute value that clears a date: two quotation marks.
pub open spec fn cleared_token() -> Seq<char> {
    seq!['"', '"']
}

/// The date that `chrono` reads from `t` under the format `fmt`.
pub open spec fn chrono_date(t: Seq<char>, fmt: Seq<char>) -> Option<Ymd> {
    match chrono_parse(t, fmt) {
        Some(d) => Some((d.0 as int, d.1 as int, d.2 as int)),
        None => None,
    }
}

/// The date that a month and a day, written with exactly one slash between
/// them, name in `year`; `None` where `t` is not so written or `year` has no
/// such day.
pub open spec fn month_day_date(t: Seq<char>, year: int) -> Option<Ymd> {
    let i = leading_len(t, CharClass::Except('/')) as int;
    if i < t.len() && leading_len(t.skip(i + 1), CharClass::Except('/')) == t.len() - i - 1 {
        match (parse_u32(t.take(i)), parse_u32(t.skip(i + 1))) {
            (Some(m), Some(d)) => if valid_ymd(year, m, d) {
                Some((year, m, d))
            } else {
                None
            },
            _ => None,
        }
    } else {
        None
    }
}

/// The date that the value `t` of a date attribute stands for when `dashed`
/// and `slashed` are what chrono read from it as `%Y-%m-%d` and as
/// `%Y/%m/%d`: none for the clearing value; else the first of the two
/// readings that is a date; else month and day of `year`.
pub open spec fn date_of_readings(
    t: Seq<char>,
    dashed: Option<Ymd>,
    slashed: Option<Ymd>,
    year: int,
) -> Option<Ymd> {
    if t == cleared_token() {
        None
    } else if dashed is Some {
        dashed
    } else if slashed is Some {
        slashed
    } else {
        month_day_date(t, year)
    }
}

/// The date that the value `t` of a date attribute stands for, read in
/// `year`.
pub open spec fn date_of_token(t: Seq<char>, year: int) -> Option<Ymd> {
    date_of_readings(t, chrono_date(t, "%Y-%m-%d"@), chrono_date(t, "%Y/%m/%d"@), year)
}

/// The date that `token` stands for, given what chrono read from it under the
/// two full formats, and the year in which a month and a day are to be read.
pub fn date_from_readings(token: &str, dashed: Option<Date>, slashed: Option<Date>, year: i32) -> (r:
    Option<Date>)
    ensures
        opt_date(r) == date_of_readings(token@, opt_date(dashed), opt_date(slashed), year as int),
{
    let v = chars_of(token);
    if v.len() == 2 && v[0] == '"' && v[1] == '"' {
        assert(v@ =~= cleared_token());
        return None;
    }
    if dashed.is_some() {
        return dashed;
    }
    if slashed.is_some() {
        return slashed;
    }
    let n = v.len();
    assert(v@.subrange(0, n as int) == v@);
    let i = leading_run(&v, 0, n, CharClass::Except('/'));
    if i == n {
        return None;
    }
    let rest = leading_run(&v, i + 1, n, CharClass::Except('/'));
    if rest != n - i - 1 {
        return None;
    }
    match (parse_u32_range(&v, 0, i), parse_u32_range(&v, i + 1, n)) {
        (Some(m), Some(d)) => Date::from_ymd_opt(year, m, d),
        _ => None,
    }
}

/// The date that `token` stands for when read in `year`.
pub fn resolve_date_token(token: &str, year: i32) -> (r: Option<Date>)
    ensures
        opt_date(r) == date_of_token(token@, year as int),
{
    let dashed = Date::parse_from_str(token, "%Y-%m-%d");
    let slashed = Date::parse_from_str(token, "%Y/%m/%d");
    date_from_readings(token, dashed, slashed, year)
}

/// The date that the value of a date attribute stands for in the current
/// year of the local clock, a year of the calendar; none where the attribute
/// is absent.
pub fn parse_date_or_empty_attr(token: Option<&str>) -> (r: Option<Date>)
    ensures
        token is None ==> r is None,
        token matches Some(t) ==> exists|year: int|
            MIN_YEAR <= year <= MAX_YEAR && opt_date(r) == #[trigger] date_of_token(t@, year),
{
    match token {
        Some(t) => {
            let year = Date::today().year();
            resolve_date_token(t, year)
        },
        None => None,
    }
}

/// Whether `regex` accepts every pattern of the line grammar.
pub open spec fn grammar_compiles() -> bool {
    &&& regex_compiles(BASE_PATTERN@)
    &&& regex_compiles(ID_PATTERN@)
    &&& regex_compiles(CREATED_PATTERN@)
    &&& regex_compiles(DUE_PATTERN@)
    &&& regex_compiles(UPDATED_PATTERN@)
    &&& regex_compiles(COMPLETED_PATTERN@)
    &&& regex_compiles(PROJECT_PATTERN@)
    &&& regex_compiles(CONTEXT_PATTERN@)
    &&& regex_compiles(TAG_PATTERN@)
    &&& regex_compiles(NOTE_PATTERN@)
}

/// The groups of the base pattern, in the order in which a match is read.
pub open spec fn base_groups() -> Seq<Seq<char>> {
    seq!["status_char"@, "priority_val"@, "task_name"@, "task_name_plain"@, "attributes_str"@]
}

/// What the group `group` matched in the leftmost match of `pattern` in
/// `text`, if the pattern matched and the group took part.
pub open spec fn first_group(pattern: Seq<char>, text: Seq<char>, group: Seq<char>) -> Option<
    Seq<char>,
> {
    match regex_captures(pattern, text, seq![group]) {
        Some(c) => if c.len() > 0 {
            c[0]
        } else {
            None
        },
        None => None,
    }
}

/// The texts that the first group of each match holds, in order, matches in
/// which it took no part left out.
pub open spec fn present(found: Seq<Seq<Option<Seq<char>>>>) -> Seq<Seq<char>>
    decreases found.len(),
{
    if found.len() == 0 {
        Seq::empty()
    } else {
        let rest = present(found.drop_last());
        let m = found.last();
        if m.len() > 0 && m[0] is Some {
            rest.push(m[0]->0)
        } else {
            rest
        }
    }
}

/// What the group `group` matched in each of the successive matches of
/// `pattern` in `text`.
pub open spec fn every_group(pattern: Seq<char>, text: Seq<char>, group: Seq<char>) -> Seq<
    Seq<char>,
> {
    present(regex_captures_all(pattern, text, seq![group]))
}

/// The text of the leftmost match's group, if any.
fn capture_one(pattern: &str, text: &str, group: &'static str) -> (r: Result<Option<String>, String>)
    ensures
        r is Ok <==> regex_compiles(pattern@),
        r matches Ok(o) ==> opt_text(o) == first_group(pattern@, text@, group@),
{
    let mut groups: Vec<&str> = Vec::new();
    groups.push(group);
    assert(names(groups@) =~= seq![group@]);
    match first_match(pattern, text, &groups) {
        Err(e) => Err(e),
        Ok(None) => Ok(None),
        Ok(Some(found)) => {
            let mut found = found;
            match found.pop() {
                Some(o) => Ok(o),
                None => Ok(None),
            }
        },
    }
}

/// The texts of the group in every match, in order.
fn capture_every(pattern: &str, text: &str, group: &'static str) -> (r: Result<Vec<String>, String>)
    ensures
        r is Ok <==> regex_compiles(pattern@),
        r matches Ok(v) ==> texts(v@) == every_group(pattern@, text@, group@),
{
    let mut groups: Vec<&str> = Vec::new();
    groups.push(group);
    assert(names(groups@) =~= seq![group@]);
    match all_matches(pattern, text, &groups) {
        Err(e) => Err(e),
        Ok(found) => {
            let ghost all = found@;
            let mut out: Vec<String> = Vec::new();
            for m in it: found
                invariant
                    it.seq() == all,
                    forall|i: int| 0 <= i < all.len() ==> (#[trigger] all[i]).len() == 1,
                    texts(out@) == present(captured_all(all.take(it.index()))),
            {
                let ghost i = it.index();
                let mut m = m;
                proof {
                    assert(captured_all(all.take(i + 1)) =~= captured_all(all.take(i)).push(
                        captured(all[i]@),
                    ));
                    assert(captured_all(all.take(i + 1)).drop_last() =~= captured_all(all.take(i)));
                }
                match m.pop() {
                    Some(Some(s)) => {
                        out.push(s);
                    },
                    _ => {},
                }
            }
            assert(all.take(all.len() as int) == all);
            Ok(out)
        },
    }
}

/// What the grammar found in one task line: the text of each group that took
/// part, and the dates that the date attributes stand for.
pub struct LineFields {
    pub status: Option<String>,
    pub priority: Option<String>,
    pub wiki_name: Option<String>,
    pub plain_name: Option<String>,
    pub id: Option<String>,
    pub created: Option<Date>,
    pub due: Option<Date>,
    pub updated: Option<Date>,
    pub completed: Option<Date>,
    pub project: Option<String>,
    pub contexts: Vec<String>,
    pub tags: Vec<String>,
    pub note: Option<String>,
}

/// What the fields of a line are: texts as characters, dates as year, month
/// and day.
pub struct LineFieldsView {
    pub status: Option<Seq<char>>,
    pub priority: Option<Seq<char>>,
    pub wiki_name: Option<Seq<char>>,
    pub plain_name: Option<Seq<char>>,
    pub id: Option<Seq<char>>,
    pub created: Option<Ymd>,
    pub due: Option<Ymd>,
    pub updated: Option<Ymd>,
    pub completed: Option<Ymd>,
    pub project: Option<Seq<char>>,
    pub contexts: Seq<Seq<char>>,
    pub tags: Seq<Seq<char>>,
    pub note: Option<Seq<char>>,
}

impl View for LineFields {
    type V = LineFieldsView;

    open spec fn view(&self) -> LineFieldsView {
        LineFieldsView {
            status: opt_text(self.status),
            priority: opt_text(self.priority),
            wiki_name: opt_text(self.wiki_name),
            plain_name: opt_text(self.plain_name),
            id: opt_text(self.id),
            created: opt_date(self.created),
            due: opt_date(self.due),
            updated: opt_date(self.updated),
            completed: opt_date(self.completed),
            project: opt_text(self.project),
            contexts: texts(self.contexts@),
            tags: texts(self.tags@),
            note: opt_text(self.note),
        }
    }
}

/// The marker character of a status group: its first character; a blank
/// where the group is absent or empty.
pub open spec fn marker_char(g: Option<Seq<char>>) -> char {
    match g {
        Some(t) => if t.len() > 0 {
            t[0]
        } else {
            ' '
        },
        None => ' ',
    }
}

/// The task that the fields of a line make: the name in double brackets
/// before the plain one; the word of the status marker; `N` for a missing
/// priority; the identifier that the `id` attribute writes, `default_id`
/// where there is none or it does not fit; `default_created` for a missing
/// creation date; contexts and tags absent where there are none; the note
/// with doubled quotation marks read as single ones; nothing nested.
pub open spec fn task_of_fields(
    f: LineFieldsView,
    default_id: int,
    default_created: Ymd,
    order: int,
) -> TaskView {
    TaskView {
        name: match f.wiki_name {
            Some(n) => n,
            None => match f.plain_name {
                Some(n) => n,
                None => Seq::empty(),
            },
        },
        status: status_word(marker_char(f.status)),
        priority: match f.priority {
            Some(p) => p,
            None => "N"@,
        },
        id: match f.id {
            Some(t) => match parse_i64(t) {
                Some(n) => n,
                None => default_id,
            },
            None => default_id,
        },
        created: match f.created {
            Some(d) => d,
            None => default_created,
        },
        display_order: order,
        due: f.due,
        updated: f.updated,
        completed: f.completed,
        project: f.project,
        contexts: if f.contexts.len() == 0 {
            None
        } else {
            Some(f.contexts)
        },
        notes: match f.note {
            Some(t) => Some(unescape_quotes(t)),
            None => None,
        },
        tags: if f.tags.len() == 0 {
            None
        } else {
            Some(f.tags)
        },
        subtasks: None,
        extra: None,
        repeat: None,
    }
}

/// Makes the task of a line from what the grammar found in it.
pub fn task_from_fields(
    fields: LineFields,
    default_id: i64,
    default_created_date: Date,
    default_display_order: i64,
) -> (r: Task)
    ensures
        r@ == task_of_fields(
            fields@,
            default_id as int,
            default_created_date@,
            default_display_order as int,
        ),
{
    let status_char = match &fields.status {
        Some(text) => {
            let v = chars_of(text.as_str());
            if v.len() > 0 {
                v[0]
            } else {
                ' '
            }
        },
        None => ' ',
    };
    let id = match &fields.id {
        Some(text) => {
            let v = chars_of(text.as_str());
            match parse_i64_chars(&v) {
                Some(n) => n,
                None => default_id,
            }
        },
        None => default_id,
    };
    let notes = match &fields.note {
        Some(text) => {
            let v = chars_of(text.as_str());
            let u = unescape_quotes_chars(&v);
            Some(string_of(&u))
        },
        None => None,
    };
    let name = match fields.wiki_name {
        Some(n) => n,
        None => match fields.plain_name {
            Some(n) => n,
            None => String::new(),
        },
    };
    let priority = match fields.priority {
        Some(p) => p,
        None => String::from_str("N"),
    };
    let created = match fields.created {
        Some(d) => d,
        None => default_created_date,
    };
    let contexts = if fields.contexts.len() == 0 {
        None
    } else {
        Some(fields.contexts)
    };
    let tags = if fields.tags.len() == 0 {
        None
    } else {
        Some(fields.tags)
    };
    Task {
        name,
        status: map_status_char_to_string(status_char),
        priority,
        id,
        created,
        display_order: default_display_order,
        due: fields.due,
        updated: fields.updated,
        completed: fields.completed,
        project: fields.project,
        contexts,
        notes,
        tags,
        subtasks: None,
        extra: None,
        repeat: None,
    }
}

/// A task line as the grammar reads it: without leading repetitions of `- `,
/// and without whitespace at either end.
pub open spec fn prepared(line: Seq<char>) -> Seq<char> {
    trim(strip_dashes(line))
}

/// What the base pattern finds in `text`.
pub open spec fn base_match(text: Seq<char>) -> Option<Seq<Option<Seq<char>>>> {
    regex_captures(BASE_PATTERN@, text, base_groups())
}

/// The attribute tail of a base match, without whitespace at either end.
pub open spec fn attributes_of(c: Seq<Option<Seq<char>>>) -> Seq<char> {
    trim(
        match c[4] {
            Some(a) => a,
            None => Seq::empty(),
        },
    )
}

/// The date of the first occurrence of a date attribute in `attrs`.
pub open spec fn date_attribute(
    pattern: Seq<char>,
    group: Seq<char>,
    attrs: Seq<char>,
    year: int,
) -> Option<Ymd> {
    match first_group(pattern, attrs, group) {
        Some(t) => date_of_token(t, year),
        None => None,
    }
}

/// The fields of a line whose base match is `c`: each attribute is looked for
/// in the attribute tail on its own, wherever it stands; the single-valued
/// ones are read from their first occurrence, contexts and tags from all.
pub open spec fn fields_of_match(c: Seq<Option<Seq<char>>>, year: int) -> LineFieldsView {
    let attrs = attributes_of(c);
    LineFieldsView {
        status: c[0],
        priority: c[1],
        wiki_name: c[2],
        plain_name: c[3],
        id: first_group(ID_PATTERN@, attrs, "id_val"@),
        created: date_attribute(CREATED_PATTERN@, "created_val"@, attrs, year),
        due: date_attribute(DUE_PATTERN@, "due_val"@, attrs, year),
        updated: date_attribute(UPDATED_PATTERN@, "updated_val"@, attrs, year),
        completed: date_attribute(COMPLETED_PATTERN@, "completed_val"@, attrs, year),
        project: first_group(PROJECT_PATTERN@, attrs, "project_val"@),
        contexts: every_group(CONTEXT_PATTERN@, attrs, "context_val"@),
        tags: every_group(TAG_PATTERN@, attrs, "tag_val"@),
        note: first_group(NOTE_PATTERN@, attrs, "note_val"@),
    }
}

/// Whether `line` has the shape of a task line.
pub open spec fn line_matches(line: Seq<char>) -> bool {
    base_match(prepared(line)) is Some
}

/// The task that `line` writes, read in `year`.
pub open spec fn parsed_line(
    line: Seq<char>,
    default_id: int,
    default_created: Ymd,
    order: int,
    year: int,
) -> TaskView {
    task_of_fields(
        fields_of_match(base_match(prepared(line))->0, year),
        default_id,
        default_created,
        order,
    )
}

/// The error text for a line that has not the shape of a task line.
pub open spec fn mismatch_message(text: Seq<char>) -> Seq<char> {
    "Line '"@ + debug_text(text) + "' does not match base task format"@
}

/// An omitted date and a cleared date read alike: a date attribute that the
/// line does not have and one whose value is the clearing value both give no
/// date, whatever chrono reads and whatever the year.
pub proof fn law_cleared_date_is_absent(
    pattern: Seq<char>,
    group: Seq<char>,
    attrs: Seq<char>,
    year: int,
)
    requires
        first_group(pattern, attrs, group) is None || first_group(pattern, attrs, group) == Some(
            cleared_token(),
        ),
    ensures
        date_attribute(pattern, group, attrs, year) is None,
{
}

/// Whether `regex` accepts the nine attribute patterns.
pub open spec fn attributes_compile() -> bool {
    &&& regex_compiles(ID_PATTERN@)
    &&& regex_compiles(CREATED_PATTERN@)
    &&& regex_compiles(DUE_PATTERN@)
    &&& regex_compiles(UPDATED_PATTERN@)
    &&& regex_compiles(COMPLETED_PATTERN@)
    &&& regex_compiles(PROJECT_PATTERN@)
    &&& regex_compiles(CONTEXT_PATTERN@)
    &&& regex_compiles(TAG_PATTERN@)
    &&& regex_compiles(NOTE_PATTERN@)
}

/// Takes the last text off `found`.
fn take_last(found: &mut Vec<Option<String>>) -> (r: Option<String>)
    requires
        old(found).len() > 0,
    ensures
        final(found)@ == old(found)@.drop_last(),
        r == old(found)@.last(),
{
    match found.pop() {
        Some(o) => o,
        None => None,
    }
}

/// The date of the first occurrence of a date attribute in `attrs`.
fn date_attribute_value(pattern: &str, group: &'static str, attrs: &str, year: i32) -> (r: Result<
    Option<Date>,
    String,
>)
    ensures
        r is Ok <==> regex_compiles(pattern@),
        r matches Ok(d) ==> opt_date(d) == date_attribute(pattern@, group@, attrs@, year as int),
{
    match capture_one(pattern, attrs, group) {
        Err(e) => Err(e),
        Ok(Some(token)) => Ok(resolve_date_token(token.as_str(), year)),
        Ok(None) => Ok(None),
    }
}

/// Reads the attributes of a line whose base match is `found`.
fn read_fields(found: Vec<Option<String>>, year: i32) -> (r: Result<LineFields, String>)
    requires
        found.len() == 5,
    ensures
        r is Ok <==> attributes_compile(),
        r matches Ok(f) ==> f@ == fields_of_match(captured(found@), year as int),
{
    let mut found = found;
    let tail = take_last(&mut found);
    let plain_name = take_last(&mut found);
    let wiki_name = take_last(&mut found);
    let priority = take_last(&mut found);
    let status = take_last(&mut found);
    let tail_chars = match &tail {
        Some(a) => chars_of(a.as_str()),
        None => Vec::new(),
    };
    let (a, b) = trim_range(&tail_chars, 0, tail_chars.len());
    assert(tail_chars@.subrange(0, tail_chars.len() as int) == tail_chars@);
    let attrs_text = string_of_range(&tail_chars, a, b);
    let attrs = attrs_text.as_str();
    let id = match capture_one(ID_PATTERN, attrs, "id_val") {
        Ok(o) => o,
        Err(e) => return Err(e),
    };
    let created = match date_attribute_value(CREATED_PATTERN, "created_val", attrs, year) {
        Ok(o) => o,
        Err(e) => return Err(e),
    };
    let due = match date_attribute_value(DUE_PATTERN, "due_val", attrs, year) {
        Ok(o) => o,
        Err(e) => return Err(e),
    };
    let updated = match date_attribute_value(UPDATED_PATTERN, "updated_val", attrs, year) {
        Ok(o) => o,
        Err(e) => return Err(e),
    };
    let completed = match date_attribute_value(COMPLETED_PATTERN, "completed_val", attrs, year) {
        Ok(o) => o,
        Err(e) => return Err(e),
    };
    let project = match capture_one(PROJECT_PATTERN, attrs, "project_val") {
        Ok(o) => o,
        Err(e) => return Err(e),
    };
    let contexts = match capture_every(CONTEXT_PATTERN, attrs, "context_val") {
        Ok(v) => v,
        Err(e) => return Err(e),
    };
    let tags = match capture_every(TAG_PATTERN, attrs, "tag_val") {
        Ok(v) => v,
        Err(e) => return Err(e),
    };
    let note = match capture_one(NOTE_PATTERN, attrs, "note_val") {
        Ok(o) => o,
        Err(e) => return Err(e),
    };
    Ok(
        LineFields {
            status,
            priority,
            wiki_name,
            plain_name,
            id,
            created,
            due,
            updated,
            completed,
            project,
            contexts,
            tags,
            note,
        },
    )
}

/// The text of `line` as the grammar reads it.
fn prepare_line(line: &str) -> (r: String)
    ensures
        r@ == prepared(line@),
{
    let v = chars_of(line);
    let n = v.len();
    assert(v@.subrange(0, n as int) == v@);
    let a = strip_dashes_range(&v, 0, n);
    let (b, c) = trim_range(&v, a, n);
    string_of_range(&v, b, c)
}

/// The names of the base pattern's groups.
fn base_group_names() -> (r: Vec<&'static str>)
    ensures
        names(r@) == base_groups(),
        r.len() == 5,
{
    let mut groups: Vec<&'static str> = Vec::new();
    groups.push("status_char");
    groups.push("priority_val");
    groups.push("task_name");
    groups.push("task_name_plain");
    groups.push("attributes_str");
    groups
}

/// Reads one task line, a month and a day without a year being read in
/// `year`. Fails where the line has not the shape of a task line, and where
/// `regex` refuses a pattern of the grammar.
pub fn parse_line_in_year(
    line: &str,
    default_id: i64,
    default_created_date: Date,
    default_display_order: i64,
    year: i32,
) -> (r: Result<Task, String>)
    ensures
        r is Ok <==> grammar_compiles() && line_matches(line@),
        r matches Ok(t) ==> t@ == parsed_line(
            line@,
            default_id as int,
            default_created_date@,
            default_display_order as int,
            year as int,
        ),
        r matches Err(e) ==> regex_compiles(BASE_PATTERN@) && !line_matches(line@) ==> e@
            == mismatch_message(prepared(line@)),
        r matches Err(e) ==> !regex_compiles(BASE_PATTERN@) ==> starts_with(
            e@,
            "Failed to compile base regex: "@,
        ),
{
    let text = prepare_line(line);
    let groups = base_group_names();
    match first_match(BASE_PATTERN, text.as_str(), &groups) {
        Err(e) => {
            let mut message = String::from_str("Failed to compile base regex: ");
            message.append(e.as_str());
            assert(message@.take("Failed to compile base regex: "@.len() as int)
                == "Failed to compile base regex: "@);
            Err(message)
        },
        Ok(None) => {
            let quoted = format_for_debug(text.as_str());
            let mut message = String::from_str("Line '");
            message.append(quoted.as_str());
            message.append("' does not match base task format");
            Err(message)
        },
        Ok(Some(found)) => {
            match read_fields(found, year) {
                Ok(fields) => Ok(
                    task_from_fields(
                        fields,
                        default_id,
                        default_created_date,
                        default_display_order,
                    ),
                ),
                Err(e) => Err(e),
            }
        },
    }
}

/// Reads one task line, a month and a day without a year being read in the
/// current year of the local clock: the result is `parsed_line` for whichever
/// year the clock gave.
pub fn parse_markdown_line_to_task(
    line: &str,
    default_id: i64,
    default_created_date: Date,
    default_display_order: i64,
) -> (r: Result<Task, String>)
    ensures
        r is Ok <==> grammar_compiles() && line_matches(line@),
        r matches Ok(t) ==> exists|year: int|
            MIN_YEAR <= year <= MAX_YEAR && t@ == #[trigger] parsed_line(
                line@,
                default_id as int,
                default_created_date@,
                default_display_order as int,
                year,
            ),
        r matches Err(e) ==> regex_compiles(BASE_PATTERN@) && !line_matches(line@) ==> e@
            == mismatch_message(prepared(line@)),
        r matches Err(e) ==> !regex_compiles(BASE_PATTERN@) ==> starts_with(
            e@,
            "Failed to compile base regex: "@,
        ),
{
    let year = Date::today().year();
    parse_line_in_year(line, default_id, default_created_date, default_display_order, year)
}

/// The task lines among `ls`, in order.
pub open spec fn task_lines_of(ls: Seq<Seq<char>>) -> Seq<Seq<char>>
    decreases ls.len(),
{
    if ls.len() == 0 {
        Seq::empty()
    } else if is_task_line(ls.last()) {
        task_lines_of(ls.drop_last()).push(ls.last())
    } else {
        task_lines_of(ls.drop_last())
    }
}

/// The task lines of a document, in order.
pub open spec fn task_lines(doc: Seq<char>) -> Seq<Seq<char>> {
    task_lines_of(lines(doc))
}

/// The task lines of `doc`.
fn collect_task_lines(doc: &str) -> (r: Vec<String>)
    ensures
        texts(r@) == task_lines(doc@),
{
    let v = chars_of(doc);
    let marker = chars_of("- [");
    let mut out: Vec<String> = Vec::new();
    let mut pos: usize = 0;
    let ghost mut seen: Seq<Seq<char>> = Seq::empty();
    proof {
        assert(v@.skip(0) == v@);
    }
    while pos < v.len()
        invariant
            pos <= v.len(),
            v@ == doc@,
            marker@ == "- ["@,
            seen + lines(v@.skip(pos as int)) == lines(v@),
            texts(out@) == task_lines_of(seen),
        decreases v.len() - pos,
    {
        let (end, next) = next_line(&v, pos);
        let ghost line = v@.subrange(pos as int, end as int);
        let (a, b) = trim_start_range(&v, pos, end);
        proof {
            assert(seen.push(line).drop_last() == seen);
            assert(seen.push(line) + lines(v@.skip(next as int)) == seen + (seq![line] + lines(
                v@.skip(next as int),
            )));
        }
        if range_starts_with(&v, a, b, &marker) {
            let text = string_of_range(&v, pos, end);
            out.push(text);
        }
        proof {
            seen = seen.push(line);
        }
        pos = next;
    }
    out
}

/// The identifier that a task line writes out, as the first reading of the
/// document sees it: the `id` attribute in the attribute tail of the line
/// without its indentation and marker.
pub open spec fn authored_id(line: Seq<char>) -> Option<int> {
    let attrs = match base_match(content_of(line)) {
        Some(c) => attributes_of(c),
        None => Seq::empty(),
    };
    match first_group(ID_PATTERN@, attrs, "id_val"@) {
        Some(t) => parse_i64(t),
        None => None,
    }
}

/// The identifiers that the task lines `tl` write out.
pub open spec fn authored_ids(tl: Seq<Seq<char>>) -> Set<int>
    decreases tl.len(),
{
    if tl.len() == 0 {
        Set::empty()
    } else {
        match authored_id(tl.last()) {
            Some(n) => authored_ids(tl.drop_last()).insert(n),
            None => authored_ids(tl.drop_last()),
        }
    }
}

/// The task that a task line of the document writes, before its identifier
/// is settled: the line is read without its indentation and marker, with 0
/// standing for a missing identifier.
pub open spec fn line_item(line: Seq<char>, default_created: Ymd, rank: int, year: int) -> TaskView {
    parsed_line(content_of(line), 0, default_created, rank, year)
}

/// The identifier of a task that wrote `written`: what it wrote, or for 0
/// the smallest positive integer not in use.
pub open spec fn resolved_id(written: int, used: Set<int>) -> int {
    if written != 0 {
        written
    } else {
        smallest_free(used)
    }
}

/// The identifiers in use once the task lines `tl` are read, `seed` being in
/// use before the first.
pub open spec fn used_after(tl: Seq<Seq<char>>, seed: Set<int>, default_created: Ymd, year: int) -> Set<
    int,
>
    decreases tl.len(),
{
    if tl.len() == 0 {
        seed
    } else {
        let before = used_after(tl.drop_last(), seed, default_created, year);
        before.insert(
            resolved_id(line_item(tl.last(), default_created, tl.len() as int, year).id, before),
        )
    }
}

/// The `k`-th task of the document with its depth: ranked `k + 1`, and with
/// its identifier settled against the identifiers the whole document writes
/// out and those given to earlier lines.
pub open spec fn item_entry(tl: Seq<Seq<char>>, default_created: Ymd, year: int, k: int) -> Entry {
    let t = line_item(tl[k], default_created, k + 1, year);
    let used = used_after(tl.take(k), authored_ids(tl), default_created, year);
    (TaskView { id: resolved_id(t.id, used), ..t }, indent_level(tl[k]))
}

/// The tasks of the task lines `tl` with their depths.
pub open spec fn entries_of_lines(tl: Seq<Seq<char>>, default_created: Ymd, year: int) -> Seq<Entry> {
    Seq::new(tl.len(), |k: int| item_entry(tl, default_created, year, k))
}

/// The forest that a document writes, read in `year`.
pub open spec fn parsed_document(doc: Seq<char>, default_created: Ymd, year: int) -> Seq<TaskView> {
    forest_of(entries_of_lines(task_lines(doc), default_created, year))
}

/// Whether every one of the task lines has the shape of a task line.
pub open spec fn all_lines_match(tl: Seq<Seq<char>>) -> bool {
    forall|k: int| 0 <= k < tl.len() ==> line_matches(content_of(#[trigger] tl[k]))
}

/// The most task lines a document may have: a quarter of the largest
/// identifier, so that ranks and identifiers fit.
pub const MAX_TASK_LINES: u64 = 0x1FFF_FFFF_FFFF_FFFF;

/// The error text for a document with more task lines than that.
pub open spec fn too_many_lines_message() -> Seq<char> {
    "too many task lines"@
}

/// Whether a document with the task lines `tl` can be read.
pub open spec fn readable(tl: Seq<Seq<char>>) -> bool {
    &&& tl.len() <= MAX_TASK_LINES
    &&& tl.len() > 0 ==> grammar_compiles() && all_lines_match(tl)
}

/// The identifier that a task line writes out, as the first reading sees it.
fn scan_authored_id(line: &str) -> (r: Result<Option<i64>, String>)
    ensures
        r is Ok <==> regex_compiles(BASE_PATTERN@) && regex_compiles(ID_PATTERN@),
        r matches Ok(Some(n)) ==> authored_id(line@) == Some(n as int),
        r matches Ok(None) ==> authored_id(line@) is None,
{
    let content = strip_indent_and_marker(line);
    let groups = base_group_names();
    let attrs_text = match first_match(BASE_PATTERN, content, &groups) {
        Err(e) => return Err(e),
        Ok(None) => String::new(),
        Ok(Some(found)) => {
            let mut found = found;
            let tail = take_last(&mut found);
            let tail_chars = match &tail {
                Some(a) => chars_of(a.as_str()),
                None => Vec::new(),
            };
            let (a, b) = trim_range(&tail_chars, 0, tail_chars.len());
            assert(tail_chars@.subrange(0, tail_chars.len() as int) == tail_chars@);
            string_of_range(&tail_chars, a, b)
        },
    };
    match capture_one(ID_PATTERN, attrs_text.as_str(), "id_val") {
        Err(e) => Err(e),
        Ok(None) => Ok(None),
        Ok(Some(token)) => {
            let v = chars_of(token.as_str());
            Ok(parse_i64_chars(&v))
        },
    }
}

/// Whether the `k`-th of the task lines is the first that has not the shape
/// of a task line.
pub open spec fn first_mismatch(tl: Seq<Seq<char>>, k: int) -> bool {
    &&& 0 <= k < tl.len()
    &&& !line_matches(content_of(tl[k]))
    &&& forall|j: int| 0 <= j < k ==> line_matches(content_of(#[trigger] tl[j]))
}

/// First reading: marks every identifier that the lines write out.
fn scan_authored_ids(lines: &Vec<String>, ids: &mut IdAllocator) -> (r: Result<(), String>)
    requires
        old(ids).wf(),
        old(ids)@ == Set::<int>::empty(),
    ensures
        r is Err ==> lines.len() > 0 && !(regex_compiles(BASE_PATTERN@) && regex_compiles(
            ID_PATTERN@,
        )),
        r is Ok ==> {
            &&& lines.len() > 0 ==> regex_compiles(BASE_PATTERN@) && regex_compiles(ID_PATTERN@)
            &&& final(ids).wf()
            &&& final(ids)@ == authored_ids(texts(lines@))
            &&& final(ids)@.len() <= lines.len()
        },
{
    let ghost tl = texts(lines@);
    let mut i: usize = 0;
    while i < lines.len()
        invariant
            i <= lines.len(),
            tl == texts(lines@),
            ids.wf(),
            ids@.finite(),
            ids@ == authored_ids(tl.take(i as int)),
            ids@.len() <= i,
            i > 0 ==> regex_compiles(BASE_PATTERN@) && regex_compiles(ID_PATTERN@),
        decreases lines.len() - i,
    {
        proof {
            assert(tl.take(i + 1).drop_last() == tl.take(i as int));
        }
        match scan_authored_id(lines[i].as_str()) {
            Err(e) => {
                return Err(e);
            },
            Ok(Some(id)) => {
                ids.register(id);
            },
            Ok(None) => {},
        }
        i += 1;
    }
    assert(tl.take(tl.len() as int) == tl);
    Ok(())
}

/// Second reading: parses every line and settles its identifier.
fn read_items(lines: &Vec<String>, ids: IdAllocator, default_created_date: Date, year: i32) -> (r:
    Result<Vec<(Task, usize)>, String>)
    requires
        ids.wf(),
        ids@ == authored_ids(texts(lines@)),
        ids@.len() <= lines.len() <= MAX_TASK_LINES,
    ensures
        r is Ok <==> (lines.len() > 0 ==> grammar_compiles()) && all_lines_match(texts(lines@)),
        r matches Ok(items) ==> entries_of(items@) == entries_of_lines(
            texts(lines@),
            default_created_date@,
            year as int,
        ),
        r matches Err(e) ==> grammar_compiles() ==> exists|k: int|
            first_mismatch(texts(lines@), k) && e@ == mismatch_message(
                prepared(content_of(#[trigger] texts(lines@)[k])),
            ),
{
    let ghost tl = texts(lines@);
    let ghost seed = ids@;
    let ghost dc = default_created_date@;
    let mut ids = ids;
    let mut items: Vec<(Task, usize)> = Vec::new();
    let mut k: usize = 0;
    proof {
        ids.lemma_finite();
    }
    while k < lines.len()
        invariant
            k <= lines.len() <= MAX_TASK_LINES,
            tl == texts(lines@),
            seed == authored_ids(tl),
            dc == default_created_date@,
            ids.wf(),
            ids@.finite(),
            ids@ == used_after(tl.take(k as int), seed, dc, year as int),
            ids@.len() <= lines.len() + k,
            items.len() == k,
            forall|j: int|
                0 <= j < k ==> (#[trigger] entries_of(items@)[j]) == item_entry(
                    tl,
                    dc,
                    year as int,
                    j,
                ),
            forall|j: int| 0 <= j < k ==> line_matches(content_of(#[trigger] tl[j])),
            k > 0 ==> grammar_compiles(),
        decreases lines.len() - k,
    {
        let line = lines[k].as_str();
        let level = calculate_indent_level(line);
        let content = strip_indent_and_marker(line);
        let rank: i64 = (k + 1) as i64;
        let ghost before = items@;
        proof {
            assert(tl.take(k + 1).drop_last() == tl.take(k as int));
        }
        match parse_line_in_year(content, 0, default_created_date, rank, year) {
            Err(e) => {
                proof {
                    if grammar_compiles() {
                        assert(first_mismatch(tl, k as int));
                    }
                }
                return Err(e);
            },
            Ok(task) => {
                let mut task = task;
                if task.id != 0 {
                    ids.register(task.id);
                } else {
                    let id = ids.allocate();
                    task.id = id;
                }
                items.push((task, level));
                proof {
                    assert forall|j: int| 0 <= j < k + 1 implies (#[trigger] entries_of(
                        items@,
                    )[j]) == item_entry(tl, dc, year as int, j) by {
                        if j < k {
                            assert(entries_of(items@)[j] == entries_of(before)[j]);
                        }
                    }
                }
            },
        }
        k += 1;
    }
    Ok(items)
}

/// Reads a document into its forest, a month and a day without a year being
/// read in `year`.
///
/// The task lines are read twice. The first reading collects the identifiers
/// that the document writes out, so that no line is given an identifier that
/// a later line claims. The second parses each line, ranks it by its place
/// among the task lines and settles its identifier. The first line that has
/// not the shape of a task line fails the whole document.
pub fn parse_document_in_year(markdown_document: &str, default_created_date: Date, year: i32) -> (r:
    Result<Vec<Task>, String>)
    ensures
        r is Ok <==> readable(task_lines(markdown_document@)),
        r matches Ok(v) ==> forest_view(v@) == parsed_document(
            markdown_document@,
            default_created_date@,
            year as int,
        ),
        r matches Err(e) ==> ({
            let tl = task_lines(markdown_document@);
            tl.len() <= MAX_TASK_LINES && grammar_compiles() ==> exists|k: int|
                first_mismatch(tl, k) && e@ == mismatch_message(
                    prepared(content_of(#[trigger] tl[k])),
                )
        }),
        r matches Err(e) ==> task_lines(markdown_document@).len() > MAX_TASK_LINES ==> e@
            == too_many_lines_message(),
{
    let lines = collect_task_lines(markdown_document);
    if lines.len() as u64 > MAX_TASK_LINES {
        return Err("too many task lines".to_string());
    }
    let mut ids = IdAllocator::new();
    match scan_authored_ids(&lines, &mut ids) {
        Err(e) => {
            return Err(e);
        },
        Ok(_) => {},
    }
    match read_items(&lines, ids, default_created_date, year) {
        Err(e) => Err(e),
        Ok(items) => Ok(assemble(items)),
    }
}

/// Reads a document into its forest, a month and a day without a year being
/// read in the current year of the local clock: the result is
/// `parsed_document` for whichever year the clock gave.
pub fn parse_markdown_document_to_tasks(markdown_document: &str, default_created_date: Date) -> (r:
    Result<Vec<Task>, String>)
    ensures
        r is Ok <==> readable(task_lines(markdown_document@)),
        r matches Ok(v) ==> exists|year: int|
            MIN_YEAR <= year <= MAX_YEAR && forest_view(v@) == #[trigger] parsed_document(
                markdown_document@,
                default_created_date@,
                year,
            ),
        r matches Err(e) ==> ({
            let tl = task_lines(markdown_document@);
            tl.len() <= MAX_TASK_LINES && grammar_compiles() ==> exists|k: int|
                first_mismatch(tl, k) && e@ == mismatch_message(
                    prepared(content_of(#[trigger] tl[k])),
                )
        }),
        r matches Err(e) ==> task_lines(markdown_document@).len() > MAX_TASK_LINES ==> e@
            == too_many_lines_message(),
{
    let year = Date::today().year();
    parse_document_in_year(markdown_document, default_created_date, year)
}

/// Finitely many identifiers are written out.
pub proof fn lemma_authored_ids_finite(tl: Seq<Seq<char>>)
    ensures
        authored_ids(tl).finite(),
    decreases tl.len(),
{
    if tl.len() > 0 {
        lemma_authored_ids_finite(tl.drop_last());
    }
}

/// The identifiers in use only grow: they stay finite, keep what was in use
/// before the first line, and hold the identifier of every line read.
pub proof fn lemma_used_after(
    tl: Seq<Seq<char>>,
    seed: Set<int>,
    default_created: Ymd,
    year: int,
    n: int,
)
    requires
        seed.finite(),
        0 <= n <= tl.len(),
    ensures
        used_after(tl.take(n), seed, default_created, year).finite(),
        seed.subset_of(used_after(tl.take(n), seed, default_created, year)),
        forall|j: int|
            0 <= j < n ==> used_after(tl.take(n), seed, default_created, year).contains(
                resolved_id(
                    #[trigger] line_item(tl[j], default_created, j + 1, year).id,
                    used_after(tl.take(j), seed, default_created, year),
                ),
            ),
    decreases n,
{
    if n > 0 {
        lemma_used_after(tl, seed, default_created, year, n - 1);
        assert(tl.take(n).drop_last() == tl.take(n - 1));
    }
}

/// Ranks follow the lines: read in document order, the tasks of a document
/// are as many as its task lines and are ranked 1, 2, 3, ...
pub proof fn law_ranks_follow_lines(doc: Seq<char>, default_created: Ymd, year: int)
    ensures
        flattened(parsed_document(doc, default_created, year)).len() == task_lines(doc).len(),
        forall|k: int|
            0 <= k < task_lines(doc).len() ==> (#[trigger] flattened(
                parsed_document(doc, default_created, year),
            )[k]).display_order == k + 1,
{
    let entries = entries_of_lines(task_lines(doc), default_created, year);
    law_forest_keeps_order(entries);
    assert forall|k: int| 0 <= k < task_lines(doc).len() implies (#[trigger] flattened(
        parsed_document(doc, default_created, year),
    )[k]).display_order == k + 1 by {}
}

/// The text writes no extension fields: no task of a document carries any,
/// nor a recurrence.
pub proof fn law_text_writes_no_extension(doc: Seq<char>, default_created: Ymd, year: int, k: int)
    requires
        0 <= k < task_lines(doc).len(),
    ensures
        flattened(parsed_document(doc, default_created, year))[k].extra is None,
        flattened(parsed_document(doc, default_created, year))[k].repeat is None,
{
    let entries = entries_of_lines(task_lines(doc), default_created, year);
    law_forest_keeps_order(entries);
}

/// Identifiers are honoured and never collide by allocation: a line that
/// writes an identifier keeps it; a line that writes none is given a positive
/// identifier that no line of the document writes out and no earlier line
/// has.
pub proof fn law_identifiers_settle(tl: Seq<Seq<char>>, default_created: Ymd, year: int, k: int)
    requires
        0 <= k < tl.len(),
    ensures
        ({
            let written = line_item(tl[k], default_created, k + 1, year).id;
            let id = item_entry(tl, default_created, year, k).0.id;
            &&& written != 0 ==> id == written
            &&& written == 0 ==> {
                &&& id >= 1
                &&& !authored_ids(tl).contains(id)
                &&& forall|j: int|
                    0 <= j < k ==> (#[trigger] item_entry(tl, default_created, year, j)).0.id != id
            }
        }),
{
    let seed = authored_ids(tl);
    let used = used_after(tl.take(k), seed, default_created, year);
    lemma_authored_ids_finite(tl);
    lemma_used_after(tl, seed, default_created, year, k);
    lemma_smallest_free_exists(used);
    let written = line_item(tl[k], default_created, k + 1, year).id;
    let id = item_entry(tl, default_created, year, k).0.id;
    if written == 0 {
        assert forall|j: int| 0 <= j < k implies (#[trigger] item_entry(
            tl,
            default_created,
            year,
            j,
        )).0.id != id by {
            let earlier = line_item(tl[j], default_created, j + 1, year).id;
            assert(used.contains(
                resolved_id(earlier, used_after(tl.take(j), seed, default_created, year)),
            ));
        }
    }
}

/// The identifier that the `k`-th task line writes, as the second reading
/// finds it; 0 where it writes none.
pub open spec fn written_id(tl: Seq<Seq<char>>, default_created: Ymd, year: int, k: int) -> int {
    line_item(tl[k], default_created, k + 1, year).id
}

/// Identifiers are unique: where no line writes a negative identifier, no
/// identifier is written on two lines, and the first reading has seen every
/// identifier that the second finds, the tasks of the document have
/// identifiers that are positive and pairwise distinct.
pub proof fn law_identifiers_distinct(tl: Seq<Seq<char>>, default_created: Ymd, year: int)
    requires
        forall|k: int| 0 <= k < tl.len() ==> #[trigger] written_id(tl, default_created, year, k) >= 0,
        forall|j: int, k: int|
            0 <= j < k < tl.len() && written_id(tl, default_created, year, j) != 0
                ==> #[trigger] written_id(tl, default_created, year, j) != #[trigger] written_id(
                tl,
                default_created,
                year,
                k,
            ),
        forall|k: int|
            0 <= k < tl.len() && written_id(tl, default_created, year, k) != 0
                ==> authored_ids(tl).contains(#[trigger] written_id(tl, default_created, year, k)),
    ensures
        forall|k: int|
            0 <= k < tl.len() ==> (#[trigger] item_entry(tl, default_created, year, k)).0.id >= 1,
        forall|j: int, k: int|
            0 <= j < k < tl.len() ==> (#[trigger] item_entry(tl, default_created, year, j)).0.id != (
            #[trigger] item_entry(tl, default_created, year, k)).0.id,
{
    assert forall|k: int| 0 <= k < tl.len() implies (#[trigger] item_entry(
        tl,
        default_created,
        year,
        k,
    )).0.id >= 1 by {
        law_identifiers_settle(tl, default_created, year, k);
        assert(written_id(tl, default_created, year, k) >= 0);
    }
    assert forall|j: int, k: int| 0 <= j < k < tl.len() implies (#[trigger] item_entry(
        tl,
        default_created,
        year,
        j,
    )).0.id != (#[trigger] item_entry(tl, default_created, year, k)).0.id by {
        law_identifiers_settle(tl, default_created, year, j);
        law_identifiers_settle(tl, default_created, year, k);
        let wj = written_id(tl, default_created, year, j);
        let wk = written_id(tl, default_created, year, k);
        if wk != 0 && wj != 0 {
            assert(wj != wk);
        } else if wk != 0 {
            assert(authored_ids(tl).contains(wk));
        }
    }
}

} // verus!
