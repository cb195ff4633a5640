//! Calendar events of one day, and how they are listed.

use crate::date::{push_two_digits, two_digits};
use crate::text::{chars_of, push_text, range_starts_with, starts_with, string_of};
use vstd::prelude::*;
use vstd::string::StringExecFns;

verus! {

/// A time of day, to the minute.
#[derive(Clone, Copy, Debug, PartialEq, Eq, Structural)]
pub struct ClockTime {
    hour: u32,
    minute: u32,
}

impl View for ClockTime {
    type V = (int, int);

    /// Hour and minute.
    closed spec fn view(&self) -> (int, int) {
        (self.hour as int, self.minute as int)
    }
}

/// The text of a time of day: hour and minute in two digits each.
pub open spec fn clock_text(t: (int, int)) -> Seq<char> {
    two_digits(t.0) + seq![':'] + two_digits(t.1)
}

impl ClockTime {
    #[verifier::type_invariant]
    spec fn on_the_dial(self) -> bool {
        self.hour < 24 && self.minute < 60
    }

    /// The time with the given hour and minute, where there is such a time.
    pub fn from_hm_opt(hour: u32, minute: u32) -> (r: Option<ClockTime>)
        ensures
            r is Some <==> hour < 24 && minute < 60,
            r matches Some(t) ==> t@ == (hour as int, minute as int),
    {
        if hour < 24 && minute < 60 {
            Some(ClockTime { hour, minute })
        } else {
            None
        }
    }

    /// The hour, from 0 to 23.
    pub fn hour(&self) -> (r: u32)
        ensures
            r == self@.0,
    {
        self.hour
    }

    /// The minute, from 0 to 59.
    pub fn minute(&self) -> (r: u32)
        ensures
            r == self@.1,
    {
        self.minute
    }

    /// Appends the text of the time to `out`.
    pub fn push_text(&self, out: &mut Vec<char>)
        ensures
            final(out)@ == old(out)@ + clock_text(self@),
    {
        proof {
            use_type_invariant(self);
        }
        push_two_digits(out, self.hour);
        out.push(':');
        push_two_digits(out, self.minute);
    }
}

/// One event of a calendar.
#[derive(Debug)]
pub struct CalendarEvent {
    pub start_time: Option<ClockTime>,
    pub end_time: Option<ClockTime>,
    pub title: String,
    pub is_all_day: bool,
}

/// What an event is: its times as hour and minute, its title as characters.
pub struct CalendarEventView {
    pub start_time: Option<(int, int)>,
    pub end_time: Option<(int, int)>,
    pub title: Seq<char>,
    pub is_all_day: bool,
}

/// Hour and minute of a time that may be absent.
pub open spec fn opt_clock(o: Option<ClockTime>) -> Option<(int, int)> {
    match o {
        Some(t) => Some(t@),
        None => None,
    }
}

impl View for CalendarEvent {
    type V = CalendarEventView;

    open spec fn view(&self) -> CalendarEventView {
        CalendarEventView {
            start_time: opt_clock(self.start_time),
            end_time: opt_clock(self.end_time),
            title: self.title@,
            is_all_day: self.is_all_day,
        }
    }
}

impl Clone for CalendarEvent {
    /// A copy of the event.
    fn clone(&self) -> (r: CalendarEvent)
        ensures
            r@ == self@,
    {
        CalendarEvent {
            start_time: self.start_time,
            end_time: self.end_time,
            title: self.title.clone(),
            is_all_day: self.is_all_day,
        }
    }
}

/// The line of an event with its hours: the whole day for an event that
/// lasts all day or lacks a start or an end.
pub open spec fn timed_text(e: CalendarEventView) -> Seq<char> {
    if !e.is_all_day && e.start_time is Some && e.end_time is Some {
        clock_text(e.start_time->0) + seq!['-'] + clock_text(e.end_time->0) + seq![' '] + e.title
    } else {
        "00:00-23:59 "@ + e.title
    }
}

/// The event that a calendar entry stands for: `summary` as its title, or
/// `No Title`; from `start` to `end`, or to `start` where it has no end; an
/// event of the whole day where it has no start time.
pub open spec fn event_of_parts(
    summary: Option<Seq<char>>,
    start: Option<(int, int)>,
    end: Option<(int, int)>,
) -> CalendarEventView {
    let title = match summary {
        Some(s) => s,
        None => "No Title"@,
    };
    match start {
        Some(s) => CalendarEventView {
            start_time: Some(s),
            end_time: match end {
                Some(e) => Some(e),
                None => Some(s),
            },
            title,
            is_all_day: false,
        },
        None => CalendarEventView { start_time: None, end_time: None, title, is_all_day: true },
    }
}

impl CalendarEvent {
    /// The event that a calendar entry stands for, given its summary and the
    /// local times of its start and its end where it has them.
    pub fn from_parts(summary: Option<String>, start: Option<ClockTime>, end: Option<ClockTime>) -> (r:
        CalendarEvent)
        ensures
            r@ == event_of_parts(
                crate::task_model::opt_text(summary),
                opt_clock(start),
                opt_clock(end),
            ),
    {
        let title = match summary {
            Some(s) => s,
            None => String::from_str("No Title"),
        };
        match start {
            Some(s) => CalendarEvent {
                start_time: Some(s),
                end_time: match end {
                    Some(e) => Some(e),
                    None => Some(s),
                },
                title,
                is_all_day: false,
            },
            None => CalendarEvent { start_time: None, end_time: None, title, is_all_day: true },
        }
    }

    /// The line of the event with its hours.
    pub fn format_with_time(&self) -> (r: String)
        ensures
            r@ == timed_text(self@),
    {
        let mut out: Vec<char> = Vec::new();
        if self.is_all_day {
            push_text(&mut out, "00:00-23:59 ");
        } else {
            match (self.start_time, self.end_time) {
                (Some(start), Some(end)) => {
                    start.push_text(&mut out);
                    out.push('-');
                    end.push_text(&mut out);
                    out.push(' ');
                },
                _ => {
                    push_text(&mut out, "00:00-23:59 ");
                },
            }
        }
        push_text(&mut out, self.title.as_str());
        string_of(&out)
    }

    /// The title of the event.
    pub fn format_title_only(&self) -> (r: String)
        ensures
            r@ == self@.title,
    {
        self.title.clone()
    }
}

/// The line of an event in a listing, with a line feed after it.
pub open spec fn event_line(e: CalendarEventView, show_title_only: bool) -> Seq<char> {
    (if show_title_only {
        e.title
    } else {
        timed_text(e)
    }) + "\n"@
}

/// The lines of the events, one after the other.
pub open spec fn event_lines(events: Seq<CalendarEvent>, show_title_only: bool) -> Seq<char>
    decreases events.len(),
{
    if events.len() == 0 {
        Seq::empty()
    } else {
        event_lines(events.drop_last(), show_title_only) + event_line(
            events.last()@,
            show_title_only,
        )
    }
}

/// The listing of the events of a day: a heading, then one line for each
/// event, or a line that says there is none.
pub open spec fn events_text(events: Seq<CalendarEvent>, show_title_only: bool) -> Seq<char> {
    "### 予定\n"@ + if events.len() == 0 {
        "予定はありません。\n"@
    } else {
        event_lines(events, show_title_only)
    }
}

/// The listing of the events of a day, with or without their hours.
pub fn format_events_output(events: &[CalendarEvent], show_title_only: bool) -> (r: String)
    ensures
        r@ == events_text(events@, show_title_only),
{
    let mut out: Vec<char> = Vec::new();
    push_text(&mut out, "### 予定\n");
    if events.len() == 0 {
        push_text(&mut out, "予定はありません。\n");
    } else {
        let ghost head = out@;
        let mut i: usize = 0;
        while i < events.len()
            invariant
                i <= events.len(),
                out@ == head + event_lines(events@.take(i as int), show_title_only),
            decreases events.len() - i,
        {
            proof {
                assert(events@.take(i + 1).drop_last() == events@.take(i as int));
            }
            let line = if show_title_only {
                events[i].format_title_only()
            } else {
                events[i].format_with_time()
            };
            push_text(&mut out, line.as_str());
            push_text(&mut out, "\n");
            i += 1;
        }
        assert(events@.take(events.len() as int) == events@);
    }
    string_of(&out)
}

/// Whether `pattern` occurs somewhere in `s`.
pub open spec fn contains_text(s: Seq<char>, pattern: Seq<char>) -> bool {
    exists|i: int| 0 <= i <= s.len() && starts_with(#[trigger] s.skip(i), pattern)
}

/// Whether `pattern` occurs somewhere in `s`.
pub fn text_contains(s: &str, pattern: &str) -> (r: bool)
    ensures
        r == contains_text(s@, pattern@),
{
    let v = chars_of(s);
    let p = chars_of(pattern);
    let mut i: usize = 0;
    while i < v.len()
        invariant
            i <= v.len(),
            v@ == s@,
            p@ == pattern@,
            forall|j: int| 0 <= j < i ==> !starts_with(#[trigger] v@.skip(j), p@),
        decreases v.len() - i,
    {
        if range_starts_with(&v, i, v.len(), &p) {
            return true;
        }
        i += 1;
    }
    range_starts_with(&v, i, v.len(), &p)
}

/// Whether the text of a failure says that access was refused.
pub open spec fn says_access_refused(error_text: Seq<char>) -> bool {
    contains_text(error_text, "access_denied"@) || contains_text(error_text, "unauthorized"@)
}

/// What to tell the user when the events could not be fetched.
pub open spec fn fetch_failure_text(error_text: Seq<char>) -> Seq<char> {
    if says_access_refused(error_text) {
        "Google Calendar access denied. The OAuth application may not be verified. Please check with the app developer or use your own Google Cloud credentials."@
    } else {
        "Failed to fetch calendar events: "@ + error_text
    }
}

/// What to tell the user when signing in failed.
pub open spec fn sign_in_failure_text(error_text: Seq<char>) -> Seq<char> {
    if says_access_refused(error_text) {
        "Google OAuth access denied. This application may not be verified by Google. You need to:\n1. Create your own Google Cloud project\n2. Enable Calendar API\n3. Create OAuth credentials\n4. Replace the credentials.json file"@
    } else {
        "Authentication failed: "@ + error_text
    }
}

/// The message for a failure to fetch the events, from the text of the
/// failure.
pub fn fetch_failure_message(error_text: &str) -> (r: String)
    ensures
        r@ == fetch_failure_text(error_text@),
{
    if text_contains(error_text, "access_denied") || text_contains(error_text, "unauthorized") {
        String::from_str(
            "Google Calendar access denied. The OAuth application may not be verified. Please check with the app developer or use your own Google Cloud credentials.",
        )
    } else {
        let mut message = String::from_str("Failed to fetch calendar events: ");
        message.append(error_text);
        message
    }
}

/// The message for a failure to sign in, from the text of the failure.
pub fn sign_in_failure_message(error_text: &str) -> (r: String)
    ensures
        r@ == sign_in_failure_text(error_text@),
{
    if text_contains(error_text, "access_denied") || text_contains(error_text, "unauthorized") {
        String::from_str(
            "Google OAuth access denied. This application may not be verified by Google. You need to:\n1. Create your own Google Cloud project\n2. Enable Calendar API\n3. Create OAuth credentials\n4. Replace the credentials.json file",
        )
    } else {
        let mut message = String::from_str("Authentication failed: ");
        message.append(error_text);
        message
    }
}

} // verus!
