//! Calendar dates as year, month and day, and the clock readings the library
//! takes from `chrono`.

use crate::text::{digit_char, digits, push_digits, string_of};
use chrono::{Datelike, Local, NaiveDate};
use vstd::prelude::*;

verus! {

/// The earliest year a date can have.
pub const MIN_YEAR: i32 = -262143;

/// The latest year a date can have.
pub const MAX_YEAR: i32 = 262142;

/// Whether year `y` of the proleptic Gregorian calendar has a 29th of February.
pub open spec fn is_leap_year(y: int) -> bool {
    y % 4 == 0 && (y % 100 != 0 || y % 400 == 0)
}

/// The number of days of month `m` in year `y`; 0 where `m` is no month.
pub open spec fn days_in_month(y: int, m: int) -> int {
    if m == 1 || m == 3 || m == 5 || m == 7 || m == 8 || m == 10 || m == 12 {
        31
    } else if m == 4 || m == 6 || m == 9 || m == 11 {
        30
    } else if m == 2 {
        if is_leap_year(y) {
            29
        } else {
            28
        }
    } else {
        0
    }
}

/// Whether year `y`, month `m` and day `d` name a day of the calendar.
pub open spec fn valid_ymd(y: int, m: int, d: int) -> bool {
    &&& MIN_YEAR <= y <= MAX_YEAR
    &&& 1 <= m <= 12
    &&& 1 <= d <= days_in_month(y, m)
}

/// The number of leap days in the years up to and with `y`, counted from
/// year 0.
pub open spec fn leap_days(y: int) -> int {
    y / 4 - y / 100 + y / 400
}

/// The number of days between the first of March and the first of month
/// `m` that next follows it.
pub open spec fn days_from_march(m: int) -> int {
    if m == 3 {
        0
    } else if m == 4 {
        31
    } else if m == 5 {
        61
    } else if m == 6 {
        92
    } else if m == 7 {
        122
    } else if m == 8 {
        153
    } else if m == 9 {
        184
    } else if m == 10 {
        214
    } else if m == 11 {
        245
    } else if m == 12 {
        275
    } else if m == 1 {
        306
    } else {
        337
    }
}

/// The number of the day in the run of all days, counted so that
/// consecutive days have consecutive numbers. Years are counted from March,
/// so that the leap day is the last day of its year.
pub open spec fn day_number(y: int, m: int, d: int) -> int {
    let yy = if m <= 2 {
        y - 1
    } else {
        y
    };
    365 * yy + leap_days(yy) + days_from_march(m) + d - 1
}

/// The day of the week: 0 for Monday, up to 6 for Sunday.
pub open spec fn weekday_of(d: (int, int, int)) -> int {
    (day_number(d.0, d.1, d.2) + 2) % 7
}

/// Whether the day is a Saturday or a Sunday.
pub open spec fn is_weekend(d: (int, int, int)) -> bool {
    weekday_of(d) >= 5
}

/// The day after `d`.
pub open spec fn next_day(d: (int, int, int)) -> (int, int, int) {
    if d.2 < days_in_month(d.0, d.1) {
        (d.0, d.1, d.2 + 1)
    } else if d.1 < 12 {
        (d.0, d.1 + 1, 1)
    } else {
        (d.0 + 1, 1, 1)
    }
}

/// The first day after `d` that is neither a Saturday nor a Sunday.
pub open spec fn next_business_day_of(d: (int, int, int)) -> (int, int, int) {
    let a = next_day(d);
    if !is_weekend(a) {
        a
    } else {
        let b = next_day(a);
        if !is_weekend(b) {
            b
        } else {
            next_day(b)
        }
    }
}

/// A year has one more leap day behind it than the year before exactly
/// where it is a leap year.
proof fn lemma_leap_step(y: int)
    ensures
        leap_days(y) - leap_days(y - 1) == if is_leap_year(y) {
            1int
        } else {
            0int
        },
{
    assert(y / 4 - (y - 1) / 4 == if y % 4 == 0 {
        1int
    } else {
        0int
    });
    assert(y / 100 - (y - 1) / 100 == if y % 100 == 0 {
        1int
    } else {
        0int
    });
    assert(y / 400 - (y - 1) / 400 == if y % 400 == 0 {
        1int
    } else {
        0int
    });
    assert(y % 400 == 0 ==> y % 100 == 0);
    assert(y % 100 == 0 ==> y % 4 == 0);
}

/// The day after a day has the next number.
proof fn lemma_next_day_number(d: (int, int, int))
    requires
        1 <= d.1 <= 12,
        1 <= d.2 <= days_in_month(d.0, d.1),
    ensures
        day_number(next_day(d).0, next_day(d).1, next_day(d).2) == day_number(d.0, d.1, d.2) + 1,
{
    if d.2 == days_in_month(d.0, d.1) && d.1 == 2 {
        lemma_leap_step(d.0);
    }
}

/// The day after a day has the next number, falls on the next day of the
/// week, and has a month and a day of the calendar.
pub proof fn lemma_next_day(d: (int, int, int))
    requires
        1 <= d.1 <= 12,
        1 <= d.2 <= days_in_month(d.0, d.1),
    ensures
        day_number(next_day(d).0, next_day(d).1, next_day(d).2) == day_number(d.0, d.1, d.2) + 1,
        1 <= next_day(d).1 <= 12,
        1 <= next_day(d).2 <= days_in_month(next_day(d).0, next_day(d).1),
        weekday_of(next_day(d)) == (weekday_of(d) + 1) % 7,
{
    lemma_next_day_number(d);
    let n = day_number(d.0, d.1, d.2);
    assert((n + 1 + 2) % 7 == ((n + 2) % 7 + 1) % 7);
}

/// Four hundred years are a whole number of weeks: the day number of a day
/// 262400 years later is greater by a multiple of seven.
proof fn lemma_shift_years(y: int, m: int, d: int)
    ensures
        day_number(y + 262400, m, d) == day_number(y, m, d) + 95839632,
        (day_number(y + 262400, m, d) + 2) % 7 == (day_number(y, m, d) + 2) % 7,
{
    let yy = if m <= 2 {
        y - 1
    } else {
        y
    };
    assert((yy + 262400) / 4 == yy / 4 + 65600);
    assert((yy + 262400) / 100 == yy / 100 + 2624);
    assert((yy + 262400) / 400 == yy / 400 + 656);
    assert(95839632 == 7 * 13691376);
}

/// The next business day is a business day, and only Saturdays and Sundays
/// lie between a day and its next business day.
pub proof fn law_next_business_day(d: (int, int, int))
    requires
        1 <= d.1 <= 12,
        1 <= d.2 <= days_in_month(d.0, d.1),
    ensures
        !is_weekend(next_business_day_of(d)),
        next_business_day_of(d) != next_day(d) ==> is_weekend(next_day(d)),
        next_business_day_of(d) != next_day(d) && next_business_day_of(d) != next_day(next_day(d))
            ==> is_weekend(next_day(next_day(d))),
{
    lemma_next_day(d);
    lemma_next_day(next_day(d));
    lemma_next_day(next_day(next_day(d)));
}

/// The two digits that write `n`, a number below 100.
pub open spec fn two_digits(n: int) -> Seq<char> {
    seq![digit_char(n / 10), digit_char(n % 10)]
}

/// The four digits that write `n`, a number below 10000.
pub open spec fn four_digits(n: int) -> Seq<char> {
    seq![
        digit_char(n / 1000),
        digit_char(n / 100 % 10),
        digit_char(n / 10 % 10),
        digit_char(n % 10),
    ]
}

/// The text of a year: four digits from 0 to 9999; outside that, a sign and
/// at least four digits.
pub open spec fn year_text(y: int) -> Seq<char> {
    if 0 <= y <= 9999 {
        four_digits(y)
    } else if -9999 <= y < 0 {
        seq!['-'] + four_digits(-y)
    } else if y < 0 {
        seq!['-'] + digits((-y) as nat)
    } else {
        seq!['+'] + digits(y as nat)
    }
}

/// The text of a date: year, month and day with hyphens between, month and
/// day in two digits each.
pub open spec fn date_text(d: (int, int, int)) -> Seq<char> {
    year_text(d.0) + seq!['-'] + two_digits(d.1) + seq!['-'] + two_digits(d.2)
}

/// Appends the two digits of `n` to `out`.
pub fn push_two_digits(out: &mut Vec<char>, n: u32)
    requires
        n < 100,
    ensures
        final(out)@ == old(out)@ + two_digits(n as int),
{
    out.push(((n / 10) as u8 + 48) as char);
    out.push(((n % 10) as u8 + 48) as char);
}

/// Appends the four digits of `n` to `out`.
fn push_four_digits(out: &mut Vec<char>, n: u32)
    requires
        n < 10000,
    ensures
        final(out)@ == old(out)@ + four_digits(n as int),
{
    out.push(((n / 1000) as u8 + 48) as char);
    out.push(((n / 100 % 10) as u8 + 48) as char);
    out.push(((n / 10 % 10) as u8 + 48) as char);
    out.push(((n % 10) as u8 + 48) as char);
}

/// What `chrono::NaiveDate::parse_from_str` returns for the text `s` under the
/// format `fmt`: the parsed year, month and day, or `None` where it reports an
/// error.
pub uninterp spec fn chrono_parse(s: Seq<char>, fmt: Seq<char>) -> Option<(i32, u32, u32)>;

/// Calls `chrono::NaiveDate::parse_from_str` and hands out the fields of the
/// date it returns. Believed, not proved: the result is a function of the two
/// texts, and a date that chrono returns is a day of the calendar within
/// chrono's range of years.
#[verifier::external_body]
pub(crate) fn parse_with_format(s: &str, fmt: &str) -> (r: Option<(i32, u32, u32)>)
    ensures
        r == chrono_parse(s@, fmt@),
        r matches Some(t) ==> valid_ymd(t.0 as int, t.1 as int, t.2 as int),
{
    match NaiveDate::parse_from_str(s, fmt) {
        Ok(d) => Some((d.year(), d.month(), d.day())),
        Err(_) => None,
    }
}

/// Reads the local date from `chrono::Local::now`. Believed, not proved: the
/// reading is a day of the calendar within chrono's range of years. The clock
/// decides which.
#[verifier::external_body]
pub(crate) fn local_today() -> (r: (i32, u32, u32))
    ensures
        valid_ymd(r.0 as int, r.1 as int, r.2 as int),
{
    let d = Local::now().date_naive();
    (d.year(), d.month(), d.day())
}

/// The number of days of month `month` in year `year`.
fn last_day_of_month(year: i32, month: u32) -> (r: u32)
    requires
        1 <= month <= 12,
    ensures
        r == days_in_month(year as int, month as int),
{
    if month == 2 {
        if year % 4 == 0 && (year % 100 != 0 || year % 400 == 0) {
            29
        } else {
            28
        }
    } else if month == 4 || month == 6 || month == 9 || month == 11 {
        30
    } else {
        31
    }
}

/// The number of days between the first of March and the first of month
/// `month` that next follows it.
fn days_from_march_of(month: u32) -> (r: i64)
    requires
        1 <= month <= 12,
    ensures
        r == days_from_march(month as int),
{
    if month == 3 {
        0
    } else if month == 4 {
        31
    } else if month == 5 {
        61
    } else if month == 6 {
        92
    } else if month == 7 {
        122
    } else if month == 8 {
        153
    } else if month == 9 {
        184
    } else if month == 10 {
        214
    } else if month == 11 {
        245
    } else if month == 12 {
        275
    } else if month == 1 {
        306
    } else {
        337
    }
}

/// A day of the proleptic Gregorian calendar.
#[derive(Clone, Copy, Debug, PartialEq, Eq, Structural)]
pub struct Date {
    year: i32,
    month: u32,
    day: u32,
}

impl View for Date {
    type V = (int, int, int);

    /// Year, month and day.
    closed spec fn view(&self) -> (int, int, int) {
        (self.year as int, self.month as int, self.day as int)
    }
}

impl Date {
    #[verifier::type_invariant]
    spec fn is_calendar_day(self) -> bool {
        valid_ymd(self.year as int, self.month as int, self.day as int)
    }

    /// The date with the given year, month and day, where there is such a day.
    pub fn from_ymd_opt(year: i32, month: u32, day: u32) -> (r: Option<Date>)
        ensures
            r is Some <==> valid_ymd(year as int, month as int, day as int),
            r matches Some(d) ==> d@ == (year as int, month as int, day as int),
    {
        if year < MIN_YEAR || year > MAX_YEAR || month < 1 || month > 12 || day < 1 {
            return None;
        }
        if day > last_day_of_month(year, month) {
            None
        } else {
            Some(Date { year, month, day })
        }
    }

    /// The year.
    pub fn year(&self) -> (r: i32)
        ensures
            r == self@.0,
    {
        self.year
    }

    /// The month, from 1.
    pub fn month(&self) -> (r: u32)
        ensures
            r == self@.1,
    {
        self.month
    }

    /// The day of the month, from 1.
    pub fn day(&self) -> (r: u32)
        ensures
            r == self@.2,
    {
        self.day
    }

    /// Today's date by the local clock: a day of the calendar, whichever the
    /// clock gave.
    pub fn today() -> (r: Date)
        ensures
            valid_ymd(r@.0, r@.1, r@.2),
    {
        let (y, m, d) = local_today();
        Date { year: y, month: m, day: d }
    }

    /// The date that `parse_with_format` read from `s`, if it read one.
    pub fn parse_from_str(s: &str, fmt: &str) -> (r: Option<Date>)
        ensures
            r is Some <==> chrono_parse(s@, fmt@) is Some,
            r matches Some(date) ==> chrono_parse(s@, fmt@) matches Some(t) && date@ == (
                t.0 as int,
                t.1 as int,
                t.2 as int,
            ),
    {
        match parse_with_format(s, fmt) {
            Some((y, m, d)) => Some(Date { year: y, month: m, day: d }),
            None => None,
        }
    }

    /// The day of the week: 0 for Monday, up to 6 for Sunday.
    pub fn weekday(&self) -> (r: u32)
        ensures
            r == weekday_of(self@),
            r < 7,
    {
        proof {
            use_type_invariant(self);
            lemma_shift_years(self.year as int, self.month as int, self.day as int);
        }
        let y: i64 = self.year as i64 + 262400;
        let yy: i64 = if self.month <= 2 {
            y - 1
        } else {
            y
        };
        let n: i64 = 365 * yy + (yy / 4 - yy / 100 + yy / 400) + days_from_march_of(self.month)
            + self.day as i64 - 1;
        ((n + 2) % 7) as u32
    }

    /// The day after this one; none after the last day of the calendar.
    pub fn succ_opt(&self) -> (r: Option<Date>)
        ensures
            r is Some <==> valid_ymd(next_day(self@).0, next_day(self@).1, next_day(self@).2),
            r matches Some(x) ==> x@ == next_day(self@),
    {
        proof {
            use_type_invariant(self);
            lemma_next_day(self@);
        }
        let last = last_day_of_month(self.year, self.month);
        if self.day < last {
            Some(Date { year: self.year, month: self.month, day: self.day + 1 })
        } else if self.month < 12 {
            Some(Date { year: self.year, month: self.month + 1, day: 1 })
        } else if self.year < MAX_YEAR {
            Some(Date { year: self.year + 1, month: 1, day: 1 })
        } else {
            None
        }
    }

    /// The first day after this one that is neither a Saturday nor a Sunday;
    /// none where that day lies after the last day of the calendar.
    pub fn next_business_day(&self) -> (r: Option<Date>)
        ensures
            r is Some <==> valid_ymd(
                next_business_day_of(self@).0,
                next_business_day_of(self@).1,
                next_business_day_of(self@).2,
            ),
            r matches Some(x) ==> x@ == next_business_day_of(self@),
    {
        proof {
            use_type_invariant(self);
        }
        let a = match self.succ_opt() {
            Some(a) => a,
            None => return None,
        };
        if a.weekday() < 5 {
            return Some(a);
        }
        let b = match a.succ_opt() {
            Some(b) => b,
            None => return None,
        };
        if b.weekday() < 5 {
            return Some(b);
        }
        b.succ_opt()
    }

    /// Appends the text of the date to `out`.
    pub fn push_text(&self, out: &mut Vec<char>)
        ensures
            final(out)@ == old(out)@ + date_text(self@),
    {
        proof {
            use_type_invariant(self);
        }
        let y = self.year;
        if 0 <= y && y <= 9999 {
            push_four_digits(out, y as u32);
        } else if -9999 <= y && y < 0 {
            out.push('-');
            push_four_digits(out, (-y) as u32);
        } else if y < 0 {
            out.push('-');
            push_digits(out, (-y) as u64);
        } else {
            out.push('+');
            push_digits(out, y as u64);
        }
        out.push('-');
        push_two_digits(out, self.month);
        out.push('-');
        push_two_digits(out, self.day);
    }

    /// The text of the date.
    pub fn to_text(&self) -> (r: String)
        ensures
            r@ == date_text(self@),
    {
        let mut out: Vec<char> = Vec::new();
        self.push_text(&mut out);
        string_of(&out)
    }
}

} // verus!
