//! Character sequences: the small text operations the parser and the renderer
//! are built from, each with its meaning as a function on `Seq<char>`.

use vstd::prelude::*;

verus! {

/// `String::push` of std. Believed, not proved: the text afterwards is the
/// text before with `c` appended.
pub assume_specification[ String::push ](s: &mut String, c: char)
    ensures
        final(s)@ == old(s)@.push(c),
;

/// A set of characters that a run at either end of a text may consist of.
#[derive(Clone, Copy, Debug, PartialEq, Eq, Structural)]
pub enum CharClass {
    /// The space character alone.
    Space,
    /// Space, hyphen and asterisk: indentation and list markers.
    Marker,
    /// Every character with the Unicode property `White_Space`.
    Whitespace,
    /// Every character but the one given.
    Except(char),
}

/// The characters with the Unicode property `White_Space`.
pub open spec fn is_whitespace(c: char) -> bool {
    let n = c as u32;
    ||| 0x09 <= n <= 0x0D
    ||| n == 0x20
    ||| n == 0x85
    ||| n == 0xA0
    ||| n == 0x1680
    ||| 0x2000 <= n <= 0x200A
    ||| n == 0x2028
    ||| n == 0x2029
    ||| n == 0x202F
    ||| n == 0x205F
    ||| n == 0x3000
}

impl CharClass {
    /// Whether `c` belongs to the class.
    pub open spec fn has(self, c: char) -> bool {
        match self {
            CharClass::Space => c == ' ',
            CharClass::Marker => c == ' ' || c == '-' || c == '*',
            CharClass::Whitespace => is_whitespace(c),
            CharClass::Except(x) => c != x,
        }
    }

    /// Whether `c` belongs to the class.
    pub fn contains(self, c: char) -> (r: bool)
        ensures
            r == self.has(c),
    {
        let n: u32 = c as u32;
        match self {
            CharClass::Space => c == ' ',
            CharClass::Marker => c == ' ' || c == '-' || c == '*',
            CharClass::Whitespace => (0x09 <= n && n <= 0x0D) || n == 0x20 || n == 0x85 || n == 0xA0
                || n == 0x1680 || (0x2000 <= n && n <= 0x200A) || n == 0x2028 || n == 0x2029
                || n == 0x202F || n == 0x205F || n == 0x3000,
            CharClass::Except(x) => c != x,
        }
    }
}

/// The characters of `s`, in order.
pub fn chars_of(s: &str) -> (r: Vec<char>)
    ensures
        r@ == s@,
{
    let mut out: Vec<char> = Vec::new();
    for c in it: s.chars()
        invariant
            it.seq() == s@,
            out@ == s@.take(it.index()),
    {
        out.push(c);
    }
    out
}

/// The text made of `v[from..to]`.
pub fn string_of_range(v: &Vec<char>, from: usize, to: usize) -> (r: String)
    requires
        from <= to <= v.len(),
    ensures
        r@ == v@.subrange(from as int, to as int),
{
    let mut out = String::new();
    let mut i: usize = from;
    while i < to
        invariant
            from <= i <= to <= v.len(),
            out@ == v@.subrange(from as int, i as int),
        decreases to - i,
    {
        out.push(v[i]);
        assert(v@.subrange(from as int, i as int).push(v@[i as int]) == v@.subrange(
            from as int,
            i + 1,
        ));
        i += 1;
    }
    out
}

/// The text made of the characters of `v`.
pub fn string_of(v: &Vec<char>) -> (r: String)
    ensures
        r@ == v@,
{
    let r = string_of_range(v, 0, v.len());
    r
}

/// How many characters at the start of `s` belong to `class`.
pub open spec fn leading_len(s: Seq<char>, class: CharClass) -> nat
    decreases s.len(),
{
    if s.len() > 0 && class.has(s[0]) {
        1 + leading_len(s.drop_first(), class)
    } else {
        0
    }
}

/// How many characters at the end of `s` belong to `class`.
pub open spec fn trailing_len(s: Seq<char>, class: CharClass) -> nat
    decreases s.len(),
{
    if s.len() > 0 && class.has(s.last()) {
        1 + trailing_len(s.drop_last(), class)
    } else {
        0
    }
}

/// A run of `n` class members at the start of `s` that cannot be extended is
/// the leading run.
pub proof fn lemma_leading_len(s: Seq<char>, class: CharClass, n: int)
    requires
        0 <= n <= s.len(),
        forall|j: int| 0 <= j < n ==> class.has(s[j]),
        n < s.len() ==> !class.has(s[n]),
    ensures
        leading_len(s, class) == n,
    decreases n,
{
    if n > 0 {
        lemma_leading_len(s.drop_first(), class, n - 1);
    }
}

/// A run of `n` class members at the end of `s` that cannot be extended is the
/// trailing run.
pub proof fn lemma_trailing_len(s: Seq<char>, class: CharClass, n: int)
    requires
        0 <= n <= s.len(),
        forall|j: int| s.len() - n <= j < s.len() ==> class.has(s[j]),
        n < s.len() ==> !class.has(s[s.len() - n - 1]),
    ensures
        trailing_len(s, class) == n,
    decreases n,
{
    if n > 0 {
        lemma_trailing_len(s.drop_last(), class, n - 1);
    }
}

/// The length of the run of `class` members that starts at `v[from]`.
pub fn leading_run(v: &Vec<char>, from: usize, to: usize, class: CharClass) -> (n: usize)
    requires
        from <= to <= v.len(),
    ensures
        n == leading_len(v@.subrange(from as int, to as int), class),
        from + n <= to,
{
    let ghost s = v@.subrange(from as int, to as int);
    let mut i: usize = from;
    while i < to && class.contains(v[i])
        invariant
            from <= i <= to <= v.len(),
            s == v@.subrange(from as int, to as int),
            forall|j: int| 0 <= j < i - from ==> class.has(s[j]),
        decreases to - i,
    {
        i += 1;
    }
    proof {
        lemma_leading_len(s, class, i - from);
    }
    i - from
}

/// The length of the run of `class` members that ends just before `v[to]`.
pub fn trailing_run(v: &Vec<char>, from: usize, to: usize, class: CharClass) -> (n: usize)
    requires
        from <= to <= v.len(),
    ensures
        n == trailing_len(v@.subrange(from as int, to as int), class),
        from + n <= to,
{
    let ghost s = v@.subrange(from as int, to as int);
    let mut i: usize = to;
    while i > from && class.contains(v[i - 1])
        invariant
            from <= i <= to <= v.len(),
            s == v@.subrange(from as int, to as int),
            forall|j: int| i - from <= j < s.len() ==> class.has(s[j]),
        decreases i,
    {
        i -= 1;
    }
    proof {
        lemma_trailing_len(s, class, to - i);
    }
    to - i
}

/// `s` without its leading whitespace.
pub open spec fn trim_start(s: Seq<char>) -> Seq<char> {
    s.skip(leading_len(s, CharClass::Whitespace) as int)
}

/// `s` without its trailing whitespace.
pub open spec fn trim_end(s: Seq<char>) -> Seq<char> {
    s.take(s.len() - trailing_len(s, CharClass::Whitespace))
}

/// `s` without its leading and trailing whitespace.
pub open spec fn trim(s: Seq<char>) -> Seq<char> {
    trim_end(trim_start(s))
}

/// `s` after every leading repetition of the two characters `"- "` is removed.
pub open spec fn strip_dashes(s: Seq<char>) -> Seq<char>
    decreases s.len(),
{
    if s.len() >= 2 && s[0] == '-' && s[1] == ' ' {
        strip_dashes(s.skip(2))
    } else {
        s
    }
}

/// Whether `s` begins with `prefix`.
pub open spec fn starts_with(s: Seq<char>, prefix: Seq<char>) -> bool {
    prefix.len() <= s.len() && s.take(prefix.len() as int) == prefix
}

/// The bounds `(a, b)` of `v[from..to]` without its leading whitespace.
pub fn trim_start_range(v: &Vec<char>, from: usize, to: usize) -> (r: (usize, usize))
    requires
        from <= to <= v.len(),
    ensures
        from <= r.0 <= r.1 == to,
        v@.subrange(r.0 as int, r.1 as int) == trim_start(v@.subrange(from as int, to as int)),
{
    let n = leading_run(v, from, to, CharClass::Whitespace);
    (from + n, to)
}

/// The bounds `(a, b)` of `v[from..to]` without its leading and trailing
/// whitespace.
pub fn trim_range(v: &Vec<char>, from: usize, to: usize) -> (r: (usize, usize))
    requires
        from <= to <= v.len(),
    ensures
        from <= r.0 <= r.1 <= to,
        v@.subrange(r.0 as int, r.1 as int) == trim(v@.subrange(from as int, to as int)),
{
    let (a, _) = trim_start_range(v, from, to);
    let m = trailing_run(v, a, to, CharClass::Whitespace);
    (a, to - m)
}

/// The start of `v[from..to]` once every leading `"- "` is removed.
pub fn strip_dashes_range(v: &Vec<char>, from: usize, to: usize) -> (a: usize)
    requires
        from <= to <= v.len(),
    ensures
        from <= a <= to,
        v@.subrange(a as int, to as int) == strip_dashes(v@.subrange(from as int, to as int)),
{
    let mut i: usize = from;
    while to - i >= 2 && v[i] == '-' && v[i + 1] == ' '
        invariant
            from <= i <= to <= v.len(),
            strip_dashes(v@.subrange(i as int, to as int)) == strip_dashes(
                v@.subrange(from as int, to as int),
            ),
        decreases to - i,
    {
        assert(v@.subrange(i as int, to as int).skip(2) == v@.subrange(i + 2, to as int));
        i += 2;
    }
    i
}

/// Whether `v[from..to]` begins with the characters of `prefix`.
pub fn range_starts_with(v: &Vec<char>, from: usize, to: usize, prefix: &Vec<char>) -> (r: bool)
    requires
        from <= to <= v.len(),
    ensures
        r == starts_with(v@.subrange(from as int, to as int), prefix@),
{
    let ghost s = v@.subrange(from as int, to as int);
    if prefix.len() > to - from {
        return false;
    }
    let mut i: usize = 0;
    while i < prefix.len()
        invariant
            from <= to <= v.len(),
            prefix.len() <= to - from,
            i <= prefix.len(),
            s == v@.subrange(from as int, to as int),
            s.take(i as int) == prefix@.take(i as int),
        decreases prefix.len() - i,
    {
        if v[from + i] != prefix[i] {
            return false;
        }
        i += 1;
    }
    assert(prefix@.take(prefix.len() as int) == prefix@);
    true
}

/// Whether `v[from..to]` is exactly the characters of `other`.
pub fn range_equals(v: &Vec<char>, from: usize, to: usize, other: &Vec<char>) -> (r: bool)
    requires
        from <= to <= v.len(),
    ensures
        r == (v@.subrange(from as int, to as int) == other@),
{
    if other.len() != to - from {
        return false;
    }
    let r = range_starts_with(v, from, to, other);
    assert(v@.subrange(from as int, to as int).take(other.len() as int) == v@.subrange(
        from as int,
        to as int,
    ));
    r
}

/// Whether `c` is one of the ten ASCII digits.
pub open spec fn is_digit(c: char) -> bool {
    '0' <= c <= '9'
}

/// The number that the ASCII digit `c` stands for.
pub open spec fn digit_value(c: char) -> int {
    c as int - 48
}

/// Whether `s` consists of ASCII digits only.
pub open spec fn all_digits(s: Seq<char>) -> bool {
    forall|i: int| 0 <= i < s.len() ==> is_digit(#[trigger] s[i])
}

/// The number that the digits of `s` write in base ten.
pub open spec fn decimal_value(s: Seq<char>) -> int
    decreases s.len(),
{
    if s.len() == 0 {
        0
    } else {
        decimal_value(s.drop_last()) * 10 + digit_value(s.last())
    }
}

/// The integer that `s` writes, as `str::parse` reads integers: an optional
/// sign (`+`, and `-` where `signed`), then at least one digit and digits
/// only; `None` where `s` is not of that form or the number lies outside
/// `min..=max`.
pub open spec fn parse_integer(s: Seq<char>, signed: bool, min: int, max: int) -> Option<int> {
    let negative = signed && s.len() > 0 && s[0] == '-';
    let body = if s.len() > 0 && (s[0] == '+' || negative) {
        s.skip(1)
    } else {
        s
    };
    let value = if negative {
        -decimal_value(body)
    } else {
        decimal_value(body)
    };
    if body.len() > 0 && all_digits(body) && min <= value <= max {
        Some(value)
    } else {
        None
    }
}

/// The `i64` that `s` writes.
pub open spec fn parse_i64(s: Seq<char>) -> Option<int> {
    parse_integer(s, true, i64::MIN as int, i64::MAX as int)
}

/// The `u32` that `s` writes.
pub open spec fn parse_u32(s: Seq<char>) -> Option<int> {
    parse_integer(s, false, 0, u32::MAX as int)
}

/// Digits written after a number only make it larger.
pub proof fn lemma_decimal_value_grows(s: Seq<char>, n: int)
    requires
        0 <= n <= s.len(),
        all_digits(s),
    ensures
        0 <= decimal_value(s.take(n)) <= decimal_value(s),
    decreases s.len() - n,
{
    if n == s.len() {
        assert(s.take(n) == s);
        lemma_decimal_value_nonnegative(s);
    } else {
        let t = s.drop_last();
        assert(t.take(n) == s.take(n));
        lemma_decimal_value_grows(t, n);
    }
}

/// Digits write a number that is not negative.
pub proof fn lemma_decimal_value_nonnegative(s: Seq<char>)
    requires
        all_digits(s),
    ensures
        0 <= decimal_value(s),
    decreases s.len(),
{
    if s.len() > 0 {
        lemma_decimal_value_nonnegative(s.drop_last());
    }
}

/// The number that the digits `v[from..to]` write, where there is at least
/// one, all are digits and the number is at most `limit`.
pub fn parse_magnitude(v: &Vec<char>, from: usize, to: usize, limit: u64) -> (r: Option<u64>)
    requires
        from <= to <= v.len(),
    ensures
        r is Some <==> {
            let body = v@.subrange(from as int, to as int);
            body.len() > 0 && all_digits(body) && decimal_value(body) <= limit
        },
        r matches Some(m) ==> m == decimal_value(v@.subrange(from as int, to as int)),
{
    let ghost body = v@.subrange(from as int, to as int);
    if from == to {
        return None;
    }
    let mut acc: u64 = 0;
    let mut i: usize = from;
    while i < to
        invariant
            from <= i <= to <= v.len(),
            body == v@.subrange(from as int, to as int),
            all_digits(body.take(i - from)),
            acc == decimal_value(body.take(i - from)),
            acc <= limit,
        decreases to - i,
    {
        let c = v[i];
        if !('0' <= c && c <= '9') {
            assert(!is_digit(body[i - from]));
            return None;
        }
        let d: u64 = (c as u32 - 48) as u64;
        let next: u128 = acc as u128 * 10 + d as u128;
        proof {
            let k = i - from;
            assert(body.take(k + 1).drop_last() == body.take(k));
        }
        if next > limit as u128 {
            proof {
                if all_digits(body) {
                    lemma_decimal_value_grows(body, i - from + 1);
                }
            }
            return None;
        }
        acc = next as u64;
        i += 1;
    }
    assert(body.take(to - from) == body);
    Some(acc)
}

/// The `i64` that the characters of `v` write.
pub fn parse_i64_chars(v: &Vec<char>) -> (r: Option<i64>)
    ensures
        r is Some <==> parse_i64(v@) is Some,
        r matches Some(n) ==> parse_i64(v@) == Some(n as int),
{
    let n = v.len();
    if n > 0 && v[0] == '-' {
        match parse_magnitude(v, 1, n, 0x8000_0000_0000_0000) {
            Some(m) => {
                if m == 0x8000_0000_0000_0000 {
                    Some(i64::MIN)
                } else {
                    Some(-(m as i64))
                }
            },
            None => None,
        }
    } else if n > 0 && v[0] == '+' {
        match parse_magnitude(v, 1, n, 0x7FFF_FFFF_FFFF_FFFF) {
            Some(m) => Some(m as i64),
            None => None,
        }
    } else {
        assert(v@.subrange(0, n as int) == v@);
        match parse_magnitude(v, 0, n, 0x7FFF_FFFF_FFFF_FFFF) {
            Some(m) => Some(m as i64),
            None => None,
        }
    }
}

/// The `u32` that the characters `v[from..to]` write.
pub fn parse_u32_range(v: &Vec<char>, from: usize, to: usize) -> (r: Option<u32>)
    requires
        from <= to <= v.len(),
    ensures
        r is Some <==> parse_u32(v@.subrange(from as int, to as int)) is Some,
        r matches Some(n) ==> parse_u32(v@.subrange(from as int, to as int)) == Some(n as int),
{
    let ghost s = v@.subrange(from as int, to as int);
    let start = if from < to && v[from] == '+' {
        assert(v@.subrange(from + 1, to as int) == s.skip(1));
        from + 1
    } else {
        from
    };
    match parse_magnitude(v, start, to, 0xFFFF_FFFF) {
        Some(m) => Some(m as u32),
        None => None,
    }
}

/// `s` with every doubled quotation mark, read from the left, made single.
pub open spec fn unescape_quotes(s: Seq<char>) -> Seq<char>
    decreases s.len(),
{
    if s.len() >= 2 && s[0] == '"' && s[1] == '"' {
        seq!['"'] + unescape_quotes(s.skip(2))
    } else if s.len() > 0 {
        seq![s[0]] + unescape_quotes(s.skip(1))
    } else {
        s
    }
}

/// `s` with every quotation mark doubled.
pub open spec fn escape_quotes(s: Seq<char>) -> Seq<char>
    decreases s.len(),
{
    if s.len() == 0 {
        s
    } else if s[0] == '"' {
        seq!['"', '"'] + escape_quotes(s.skip(1))
    } else {
        seq![s[0]] + escape_quotes(s.skip(1))
    }
}

/// The lower-case form of an ASCII capital; every other character as it is.
pub open spec fn lower_char(c: char) -> char {
    if 'A' <= c <= 'Z' {
        ((c as u8) + 32) as char
    } else {
        c
    }
}

/// `s` with its ASCII capitals in lower case.
pub open spec fn ascii_lower(s: Seq<char>) -> Seq<char> {
    s.map_values(|c: char| lower_char(c))
}

/// Doubling the quotation marks and then reading doubled marks as single ones
/// gives the text back.
pub proof fn law_unescape_escape(s: Seq<char>)
    ensures
        unescape_quotes(escape_quotes(s)) == s,
    decreases s.len(),
{
    if s.len() > 0 {
        let rest = escape_quotes(s.skip(1));
        law_unescape_escape(s.skip(1));
        if s[0] == '"' {
            assert((seq!['"', '"'] + rest).skip(2) == rest);
        } else {
            assert((seq![s[0]] + rest).skip(1) == rest);
        }
    }
}

/// The characters of `v` with doubled quotation marks made single.
pub fn unescape_quotes_chars(v: &Vec<char>) -> (r: Vec<char>)
    ensures
        r@ == unescape_quotes(v@),
{
    let mut out: Vec<char> = Vec::new();
    let mut i: usize = 0;
    assert(v@.skip(0) == v@);
    while i < v.len()
        invariant
            i <= v.len(),
            out@ + unescape_quotes(v@.skip(i as int)) == unescape_quotes(v@),
        decreases v.len() - i,
    {
        let ghost rest = v@.skip(i as int);
        if v[i] == '"' && v.len() - i >= 2 && v[i + 1] == '"' {
            out.push('"');
            assert(rest.skip(2) == v@.skip(i + 2));
            i += 2;
        } else {
            out.push(v[i]);
            assert(rest.skip(1) == v@.skip(i + 1));
            i += 1;
        }
    }
    out
}

/// Appends the characters of `v`, with quotation marks doubled, to `out`.
pub fn push_escaped(out: &mut Vec<char>, v: &Vec<char>)
    ensures
        final(out)@ == old(out)@ + escape_quotes(v@),
{
    let ghost start = out@;
    let mut i: usize = 0;
    assert(v@.skip(0) == v@);
    let ghost mut done: Seq<char> = Seq::empty();
    while i < v.len()
        invariant
            i <= v.len(),
            out@ == start + done,
            done + escape_quotes(v@.skip(i as int)) == escape_quotes(v@),
        decreases v.len() - i,
    {
        let ghost rest = v@.skip(i as int);
        assert(rest.skip(1) == v@.skip(i + 1));
        if v[i] == '"' {
            out.push('"');
            out.push('"');
            proof {
                done = done + seq!['"', '"'];
            }
        } else {
            out.push(v[i]);
            proof {
                done = done + seq![v@[i as int]];
            }
        }
        i += 1;
    }
}

/// The characters of `v` with ASCII capitals in lower case.
pub fn lower_chars(v: &Vec<char>) -> (r: Vec<char>)
    ensures
        r@ == ascii_lower(v@),
{
    let mut out: Vec<char> = Vec::new();
    let mut i: usize = 0;
    while i < v.len()
        invariant
            i <= v.len(),
            out.len() == i,
            forall|j: int| 0 <= j < i ==> out[j] == lower_char(v[j]),
        decreases v.len() - i,
    {
        let c = v[i];
        let l = if 'A' <= c && c <= 'Z' {
            ((c as u8) + 32) as char
        } else {
            c
        };
        out.push(l);
        i += 1;
    }
    out
}

/// `t` without one carriage return at its end.
pub open spec fn without_cr(t: Seq<char>) -> Seq<char> {
    if t.len() > 0 && t.last() == '\r' {
        t.drop_last()
    } else {
        t
    }
}

/// The lines of `s`: the stretches between line feeds, each without the
/// carriage return that may stand before its line feed. A text that ends in a
/// line feed has no empty last line, and the empty text has no line.
pub open spec fn lines(s: Seq<char>) -> Seq<Seq<char>>
    decreases s.len(),
{
    if s.len() == 0 {
        Seq::empty()
    } else {
        let n = leading_len(s, CharClass::Except('\n')) as int;
        if n < s.len() {
            seq![without_cr(s.take(n))] + lines(s.skip(n + 1))
        } else {
            seq![s]
        }
    }
}

/// Where the first line of `v[from..]` ends and the next begins.
///
/// Returns `(end, next)`: the line is `v[from..end]`, and the rest of the
/// text starts at `next`.
pub fn next_line(v: &Vec<char>, from: usize) -> (r: (usize, usize))
    requires
        from < v.len(),
    ensures
        from <= r.0 <= r.1 <= v.len(),
        from < r.1,
        lines(v@.skip(from as int)) == seq![v@.subrange(from as int, r.0 as int)] + lines(
            v@.skip(r.1 as int),
        ),
{
    let ghost s = v@.skip(from as int);
    let len = v.len();
    let n = leading_run(v, from, len, CharClass::Except('\n'));
    let stop = from + n;
    if stop < len {
        assert(s.skip(n + 1) == v@.skip(stop + 1));
        assert(s.take(n as int) == v@.subrange(from as int, stop as int));
        if n > 0 && v[stop - 1] == '\r' {
            assert(s.take(n as int).drop_last() == v@.subrange(from as int, stop - 1));
            (stop - 1, stop + 1)
        } else {
            (stop, stop + 1)
        }
    } else {
        (len, len)
    }
}

/// Appends the characters of `v` to `out`.
pub fn push_all(out: &mut Vec<char>, v: &Vec<char>)
    ensures
        final(out)@ == old(out)@ + v@,
{
    let ghost start = out@;
    let mut i: usize = 0;
    while i < v.len()
        invariant
            i <= v.len(),
            out@ == start + v@.take(i as int),
        decreases v.len() - i,
    {
        out.push(v[i]);
        i += 1;
    }
}

/// Appends the characters of `s` to `out`.
pub fn push_text(out: &mut Vec<char>, s: &str)
    ensures
        final(out)@ == old(out)@ + s@,
{
    let v = chars_of(s);
    push_all(out, &v);
}

/// The character that writes the digit `d`.
pub open spec fn digit_char(d: int) -> char {
    (d + 48) as u8 as char
}

/// The digits that write `n` in base ten, without leading zeros.
pub open spec fn digits(n: nat) -> Seq<char>
    decreases n,
{
    if n < 10 {
        seq![digit_char(n as int)]
    } else {
        digits(n / 10).push(digit_char((n % 10) as int))
    }
}

/// The text that writes the integer `n` in base ten.
pub open spec fn int_text(n: int) -> Seq<char> {
    if n < 0 {
        seq!['-'] + digits((-n) as nat)
    } else {
        digits(n as nat)
    }
}

/// Appends the digits of `n` to `out`.
pub fn push_digits(out: &mut Vec<char>, n: u64)
    ensures
        final(out)@ == old(out)@ + digits(n as nat),
    decreases n,
{
    if n >= 10 {
        push_digits(out, n / 10);
    }
    let d: u8 = (n % 10) as u8;
    out.push((d + 48) as char);
}

/// Appends the text of the integer `n` to `out`.
pub fn push_int(out: &mut Vec<char>, n: i64)
    ensures
        final(out)@ == old(out)@ + int_text(n as int),
{
    if n < 0 {
        out.push('-');
        let m: u64 = (-(n as i128)) as u64;
        push_digits(out, m);
    } else {
        push_digits(out, n as u64);
    }
}

/// The character sequences of a list of character vectors.
pub open spec fn rows(parts: Seq<Vec<char>>) -> Seq<Seq<char>> {
    parts.map_values(|v: Vec<char>| v@)
}

/// The texts `parts` set one after the other with `sep` between each two.
pub open spec fn join(parts: Seq<Seq<char>>, sep: Seq<char>) -> Seq<char>
    decreases parts.len(),
{
    if parts.len() == 0 {
        Seq::empty()
    } else if parts.len() == 1 {
        parts[0]
    } else {
        join(parts.drop_last(), sep) + sep + parts.last()
    }
}

/// The rows of `parts` joined by `sep`.
pub fn join_rows(parts: &Vec<Vec<char>>, sep: &Vec<char>) -> (r: Vec<char>)
    ensures
        r@ == join(rows(parts@), sep@),
{
    let ghost all = rows(parts@);
    let mut out: Vec<char> = Vec::new();
    let mut i: usize = 0;
    while i < parts.len()
        invariant
            i <= parts.len(),
            all == rows(parts@),
            out@ == join(all.take(i as int), sep@),
        decreases parts.len() - i,
    {
        proof {
            assert(all.take(i + 1).drop_last() == all.take(i as int));
        }
        if i > 0 {
            push_all(&mut out, sep);
        }
        push_all(&mut out, &parts[i]);
        i += 1;
    }
    assert(all.take(all.len() as int) == all);
    out
}

/// The digits of a number are digits, at least one, and write that number.
pub proof fn lemma_digits(n: nat)
    ensures
        digits(n).len() > 0,
        all_digits(digits(n)),
        decimal_value(digits(n)) == n,
    decreases n,
{
    if n < 10 {
        assert(digits(n).drop_last() =~= Seq::<char>::empty());
        assert(decimal_value(Seq::<char>::empty()) == 0);
    } else {
        lemma_digits(n / 10);
        let front = digits(n / 10);
        assert(digits(n).drop_last() =~= front);
    }
}

/// An identifier written out and read again is the same identifier: reading
/// the text of an integer that fits in 64 bits gives that integer.
pub proof fn law_int_text_reads_back(n: int)
    requires
        i64::MIN <= n <= i64::MAX,
    ensures
        parse_i64(int_text(n)) == Some(n),
{
    if n < 0 {
        lemma_digits((-n) as nat);
        let body = digits((-n) as nat);
        assert(int_text(n).skip(1) =~= body);
    } else {
        lemma_digits(n as nat);
    }
}

/// The trailing run is a suffix of class members, and stops at a non-member.
pub proof fn lemma_trailing_len_bounds(s: Seq<char>, class: CharClass)
    ensures
        trailing_len(s, class) <= s.len(),
        forall|j: int| s.len() - trailing_len(s, class) <= j < s.len() ==> class.has(s[j]),
        trailing_len(s, class) < s.len() ==> !class.has(s[s.len() - trailing_len(s, class) - 1]),
    decreases s.len(),
{
    if s.len() > 0 && class.has(s.last()) {
        let t = s.drop_last();
        lemma_trailing_len_bounds(t, class);
        assert forall|j: int| s.len() - trailing_len(s, class) <= j < s.len() implies class.has(
            s[j],
        ) by {
            if j < s.len() - 1 {
                assert(s[j] == t[j]);
            }
        }
        if trailing_len(s, class) < s.len() {
            assert(s[s.len() - trailing_len(s, class) - 1] == t[t.len() - trailing_len(t, class)
                - 1]);
        }
    }
}

/// A text without its trailing whitespace ends in no whitespace, and keeps
/// its first character where that is no whitespace.
pub proof fn lemma_trim_end_clean(s: Seq<char>)
    ensures
        trailing_len(trim_end(s), CharClass::Whitespace) == 0,
        s.len() > 0 && !is_whitespace(s[0]) ==> trim_end(s).len() > 0 && trim_end(s)[0] == s[0],
{
    lemma_trailing_len_bounds(s, CharClass::Whitespace);
}

/// Whether `l` can stand as a line of a text: it is not empty, holds no line
/// feed and does not end in a carriage return.
pub open spec fn is_line(l: Seq<char>) -> bool {
    &&& l.len() > 0
    &&& forall|j: int| 0 <= j < l.len() ==> #[trigger] l[j] != '\n'
    &&& l.last() != '\r'
}

/// Joining with one more text in front puts that text and the separator
/// before the rest.
pub proof fn lemma_join_front(first: Seq<char>, rest: Seq<Seq<char>>, sep: Seq<char>)
    requires
        rest.len() > 0,
    ensures
        join(seq![first] + rest, sep) == first + sep + join(rest, sep),
    decreases rest.len(),
{
    let all = seq![first] + rest;
    assert(all.drop_last() =~= seq![first] + rest.drop_last());
    if rest.len() == 1 {
        assert(join(seq![first], sep) == first);
    } else {
        lemma_join_front(first, rest.drop_last(), sep);
        assert(first + sep + join(rest.drop_last(), sep) + sep + rest.last() =~= first + sep + (
        join(rest.drop_last(), sep) + sep + rest.last()));
    }
}

/// Lines joined by line feeds are the lines of the text they make.
pub proof fn law_lines_of_joined(ls: Seq<Seq<char>>)
    requires
        forall|k: int| 0 <= k < ls.len() ==> is_line(#[trigger] ls[k]),
    ensures
        lines(join(ls, seq!['\n'])) == ls,
    decreases ls.len(),
{
    let sep = seq!['\n'];
    if ls.len() > 0 {
        let first = ls[0];
        let rest = ls.drop_first();
        assert(ls =~= seq![first] + rest);
        if rest.len() == 0 {
            lemma_leading_len(first, CharClass::Except('\n'), first.len() as int);
        } else {
            law_lines_of_joined(rest);
            lemma_join_front(first, rest, sep);
            let text = first + sep + join(rest, sep);
            let n = first.len() as int;
            assert forall|j: int| 0 <= j < n implies CharClass::Except('\n').has(
                #[trigger] text[j],
            ) by {}
            lemma_leading_len(text, CharClass::Except('\n'), n);
            assert(text.take(n) =~= first);
            assert(text.skip(n + 1) =~= join(rest, sep));
        }
    }
}

} // verus!
