//! The patterns of the line grammar, and the matching that `regex` does for
//! them.
//!
//! The patterns are the library's own. What a pattern matches in a text is
//! decided by the `regex` crate: the library names those results and builds
//! on them, it does not say what they are.

use crate::task_model::opt_text;
use vstd::prelude::*;

verus! {

/// The shape of a task line: status marker, optional priority, name, and the
/// rest of the line as its attributes.
pub const BASE_PATTERN: &'static str =
    r#"^\s*\[(?P<status_char>[ xpw?>c-])\]\s*(?:\((?P<priority_val>[A-Z]{1,}|N)\)\s*)?(?:(?:\[\[(?P<task_name>.+?)\]\])|(?P<task_name_plain>.+))\s*(?P<attributes_str>.*)"#;

/// The identifier: digits after `id:`.
pub const ID_PATTERN: &'static str = r#"id:(?P<id_val>\d+)"#;

/// The creation date: year, month and day with hyphens or slashes, or month and
/// day with a slash, after `created:`.
pub const CREATED_PATTERN: &'static str =
    r#"created:(?P<created_val>(?:\d{4}[-/]\d{1,2}[-/]\d{1,2}|\d{1,2}/\d{1,2}))"#;

/// The due date: a date as for the creation date, or two quotation marks to
/// clear it, after `due:`.
pub const DUE_PATTERN: &'static str =
    r#"due:(?P<due_val>(?:\d{4}[-/]\d{1,2}[-/]\d{1,2}|\d{1,2}/\d{1,2}|\"\"))"#;

/// The date of last change, as the due date, after `updated:`.
pub const UPDATED_PATTERN: &'static str =
    r#"updated:(?P<updated_val>(?:\d{4}[-/]\d{1,2}[-/]\d{1,2}|\d{1,2}/\d{1,2}|\"\"))"#;

/// The completion date, as the due date, after `completed:`.
pub const COMPLETED_PATTERN: &'static str =
    r#"completed:(?P<completed_val>(?:\d{4}[-/]\d{1,2}[-/]\d{1,2}|\d{1,2}/\d{1,2}|\"\"))"#;

/// The project: what follows a `+` up to the next whitespace.
pub const PROJECT_PATTERN: &'static str = r#"\+(?P<project_val>\S+)"#;

/// A context: what follows an `@` up to the next whitespace.
pub const CONTEXT_PATTERN: &'static str = r#"@(?P<context_val>\S+)"#;

/// A tag: what follows a `#` up to the next whitespace.
pub const TAG_PATTERN: &'static str = r#"#(?P<tag_val>\S+)"#;

/// The note: after `note:`, a text in quotation marks in which a quotation mark
/// is written twice.
pub const NOTE_PATTERN: &'static str = r#"note:"(?P<note_val>(?:[^"]|\"\")*)""#;

/// Whether `regex::Regex::new` accepts `pattern`.
pub uninterp spec fn regex_compiles(pattern: Seq<char>) -> bool;

/// What `regex::Regex::captures` finds for `pattern` in `text`: `None` where
/// the pattern matches nowhere; else, for the leftmost match and each name of
/// `groups` in turn, the text that the group of that name matched, `None`
/// where the pattern has no such group or the group took no part.
pub uninterp spec fn regex_captures(
    pattern: Seq<char>,
    text: Seq<char>,
    groups: Seq<Seq<char>>,
) -> Option<Seq<Option<Seq<char>>>>;

/// What `regex::Regex::captures_iter` yields for `pattern` in `text`: for each
/// of the successive matches that do not overlap, the texts of the groups
/// named by `groups`, as `regex_captures` gives them for the first.
pub uninterp spec fn regex_captures_all(
    pattern: Seq<char>,
    text: Seq<char>,
    groups: Seq<Seq<char>>,
) -> Seq<Seq<Option<Seq<char>>>>;

/// The character sequences of a list of names.
pub open spec fn names(groups: Seq<&str>) -> Seq<Seq<char>> {
    groups.map_values(|g: &str| g@)
}

/// The character sequences of the texts that a match handed out.
pub open spec fn captured(found: Seq<Option<String>>) -> Seq<Option<Seq<char>>> {
    found.map_values(|o: Option<String>| opt_text(o))
}

/// The character sequences of the texts that a series of matches handed out.
pub open spec fn captured_all(found: Seq<Vec<Option<String>>>) -> Seq<Seq<Option<Seq<char>>>> {
    found.map_values(|v: Vec<Option<String>>| captured(v@))
}

/// Compiles `pattern` with `regex::Regex::new` and searches `text` with
/// `Regex::captures`, reading each group of `groups` with `Captures::name`.
/// Believed, not proved: the call fails exactly where the pattern does not
/// compile, and what it finds depends on the pattern, the text and the names
/// alone; one text, or `None`, comes back for each name.
#[verifier::external_body]
pub(crate) fn first_match(pattern: &str, text: &str, groups: &Vec<&str>) -> (r: Result<
    Option<Vec<Option<String>>>,
    String,
>)
    ensures
        r is Ok <==> regex_compiles(pattern@),
        r matches Ok(Some(found)) ==> found.len() == groups.len() && regex_captures(
            pattern@,
            text@,
            names(groups@),
        ) == Some(captured(found@)),
        r matches Ok(None) ==> regex_captures(pattern@, text@, names(groups@)) is None,
{
    let re = match regex::Regex::new(pattern) {
        Ok(re) => re,
        Err(e) => return Err(e.to_string()),
    };
    Ok(
        re.captures(text).map(
            |c| groups.iter().map(|g| c.name(g).map(|m| m.as_str().to_string())).collect(),
        ),
    )
}

/// Compiles `pattern` with `regex::Regex::new` and walks `text` with
/// `Regex::captures_iter`, reading each group of `groups` in each match.
/// Believed, not proved: the call fails exactly where the pattern does not
/// compile, and what it finds depends on the pattern, the text and the names
/// alone; each match hands out one text, or `None`, for each name.
#[verifier::external_body]
pub(crate) fn all_matches(pattern: &str, text: &str, groups: &Vec<&str>) -> (r: Result<
    Vec<Vec<Option<String>>>,
    String,
>)
    ensures
        r is Ok <==> regex_compiles(pattern@),
        r matches Ok(found) ==> regex_captures_all(pattern@, text@, names(groups@)) == captured_all(
            found@,
        ) && forall|i: int| 0 <= i < found.len() ==> (#[trigger] found[i]).len() == groups.len(),
{
    let re = match regex::Regex::new(pattern) {
        Ok(re) => re,
        Err(e) => return Err(e.to_string()),
    };
    Ok(
        re.captures_iter(text).map(
            |c| groups.iter().map(|g| c.name(g).map(|m| m.as_str().to_string())).collect(),
        ).collect(),
    )
}

} // verus!
