//! Texts shown to users: numbers, durations and reports.
use crate::day::{day_text, text_of_day};
use crate::report::{Experience, ReportEntry};
use vstd::prelude::*;

verus! {

/// Experience gained per hour of activity.
pub const GEXP_PER_HOUR: i64 = 9000;

/// Experience gained per minute of activity.
pub const GEXP_PER_MINUTE: i64 = 150;

/// Integer division rounding toward zero, as Rust's `/` does.
pub open spec fn quot(a: int, b: int) -> int
    recommends
        b > 0,
{
    if a >= 0 {
        a / b
    } else {
        -((-a) / b)
    }
}

/// The remainder that goes with `quot`, of the sign of `a`, as Rust's `%` gives it.
pub open spec fn rem(a: int, b: int) -> int
    recommends
        b > 0,
{
    a - b * quot(a, b)
}

/// The character of a decimal digit.
pub open spec fn digit_char(d: int) -> char
    recommends
        0 <= d < 10,
{
    if d == 0 {
        '0'
    } else if d == 1 {
        '1'
    } else if d == 2 {
        '2'
    } else if d == 3 {
        '3'
    } else if d == 4 {
        '4'
    } else if d == 5 {
        '5'
    } else if d == 6 {
        '6'
    } else if d == 7 {
        '7'
    } else if d == 8 {
        '8'
    } else {
        '9'
    }
}

/// The decimal digits of a natural number, without leading zeros.
pub open spec fn nat_text(n: nat) -> Seq<char>
    decreases n,
{
    if n < 10 {
        seq![digit_char(n as int)]
    } else {
        nat_text((n / 10) as nat).push(digit_char((n % 10) as int))
    }
}

/// The decimal text of an integer, with a leading `-` when it is negative.
pub open spec fn int_text(n: int) -> Seq<char> {
    if n < 0 {
        seq!['-'] + nat_text((-n) as nat)
    } else {
        nat_text(n as nat)
    }
}

/// The text of an amount of experience as hours and minutes: `"<h>h <m>m"`.
pub open spec fn uptime_text(gexp: int) -> Seq<char> {
    int_text(quot(gexp, GEXP_PER_HOUR as int)) + seq!['h', ' ']
        + int_text(quot(rem(gexp, GEXP_PER_HOUR as int), GEXP_PER_MINUTE as int)) + seq!['m']
}

fn digit_str(d: u64) -> (r: &'static str)
    requires
        d < 10,
    ensures
        r@ == seq![digit_char(d as int)],
{
    if d == 0 {
        proof { reveal_strlit("0"); }
        "0"
    } else if d == 1 {
        proof { reveal_strlit("1"); }
        "1"
    } else if d == 2 {
        proof { reveal_strlit("2"); }
        "2"
    } else if d == 3 {
        proof { reveal_strlit("3"); }
        "3"
    } else if d == 4 {
        proof { reveal_strlit("4"); }
        "4"
    } else if d == 5 {
        proof { reveal_strlit("5"); }
        "5"
    } else if d == 6 {
        proof { reveal_strlit("6"); }
        "6"
    } else if d == 7 {
        proof { reveal_strlit("7"); }
        "7"
    } else if d == 8 {
        proof { reveal_strlit("8"); }
        "8"
    } else {
        proof { reveal_strlit("9"); }
        "9"
    }
}

/// Appends the decimal digits of `n`.
pub fn push_nat(out: &mut String, n: u128)
    ensures
        final(out)@ == old(out)@ + nat_text(n as nat),
    decreases n,
{
    if n >= 10 {
        push_nat(out, n / 10);
        out.append(digit_str((n % 10) as u64));
    } else {
        out.append(digit_str(n as u64));
    }
}

/// Appends the decimal text of `n`.
pub fn push_int(out: &mut String, n: i128)
    ensures
        final(out)@ == old(out)@ + int_text(n as int),
{
    if n < 0 {
        proof { reveal_strlit("-"); }
        out.append("-");
        let m = ((0 - (n + 1)) as u128) + 1;
        push_nat(out, m);
        assert(final(out)@ =~= old(out)@ + int_text(n as int));
    } else {
        push_nat(out, n as u128);
    }
}

/// Appends an amount of experience as hours and minutes: `"<h>h <m>m"`.
pub fn push_uptime(out: &mut String, g: i128)
    ensures
        final(out)@ == old(out)@ + uptime_text(g as int),
{
    let (hours, within) = if g >= 0 {
        (g / 9000, g % 9000)
    } else {
        let a = (0 - (g + 1)) as u128 + 1;
        (0 - (a / 9000) as i128, 0 - (a % 9000) as i128)
    };
    let minutes = if within >= 0 {
        within / 150
    } else {
        0 - (0 - within) / 150
    };
    assert(hours == quot(g as int, GEXP_PER_HOUR as int));
    assert(within == rem(g as int, GEXP_PER_HOUR as int));
    assert(minutes == quot(within as int, GEXP_PER_MINUTE as int));
    push_int(out, hours);
    proof { reveal_strlit("h "); reveal_strlit("m"); }
    out.append("h ");
    push_int(out, minutes);
    out.append("m");
    assert(final(out)@ =~= old(out)@ + uptime_text(g as int));
}

/// Writes an amount of experience as the hours and minutes of activity that
/// it stands for, rounding toward zero: `"<h>h <m>m"`.
pub fn gexp_to_uptime_as_string(gexp: i64) -> (r: String)
    ensures
        r@ == uptime_text(gexp as int),
{
    let mut s = String::new();
    push_uptime(&mut s, gexp as i128);
    assert(s@ =~= uptime_text(gexp as int));
    s
}

/// The short `dd/mm/yy` form of a `YYYY-MM-DD` text, taken by position; a
/// text shorter than ten characters stays as it is.
pub open spec fn short_date_text(date: Seq<char>) -> Seq<char> {
    if date.len() >= 10 {
        date.subrange(8, 10) + seq!['/'] + date.subrange(5, 7) + seq!['/'] + date.subrange(2, 4)
    } else {
        date
    }
}

/// The sum of the integer values of a history; entries without one count
/// nothing.
pub open spec fn history_total(history: Seq<(String, Option<i64>)>) -> int
    decreases history.len(),
{
    if history.len() == 0 {
        0
    } else {
        history_total(history.drop_last()) + match history.last().1 {
            Some(x) => x as int,
            None => 0,
        }
    }
}

/// The lines of a history: the short date and the uptime of each entry with
/// an integer value, in order.
pub open spec fn history_lines(history: Seq<(String, Option<i64>)>) -> Seq<(Seq<char>, Seq<char>)>
    decreases history.len(),
{
    if history.len() == 0 {
        seq![]
    } else {
        let rest = history_lines(history.drop_last());
        match history.last().1 {
            Some(x) => rest.push((short_date_text(history.last().0@), uptime_text(x as int))),
            None => rest,
        }
    }
}

/// The short `dd/mm/yy` form of a `YYYY-MM-DD` date.
pub fn short_date(date: &str) -> (r: String)
    ensures
        r@ == short_date_text(date@),
{
    let n = date.unicode_len();
    if n < 10 {
        return date.to_owned();
    }
    let mut s = String::from_str(date.substring_char(8, 10));
    proof { reveal_strlit("/"); }
    s.append("/");
    s.append(date.substring_char(5, 7));
    s.append("/");
    s.append(date.substring_char(2, 4));
    assert(s@ =~= short_date_text(date@));
    s
}

/// A member's experience history as shown in a player check: one line per
/// day that has an integer value, with its short date and its uptime, and
/// the average uptime of a week, the sum of the values over seven days.
pub fn uptime_summary(history: &Vec<(String, Option<i64>)>) -> (r: (Vec<(String, String)>, String))
    ensures
        r.0@.map_values(|l: (String, String)| (l.0@, l.1@)) == history_lines(history@),
        r.1@ == uptime_text(quot(history_total(history@), 7)),
{
    let mut lines: Vec<(String, String)> = Vec::new();
    let mut total: i128 = 0;
    let mut i: usize = 0;
    while i < history.len()
        invariant
            i <= history@.len(),
            total == history_total(history@.take(i as int)),
            -i * 0x8000_0000_0000_0000 <= total <= i * 0x8000_0000_0000_0000,
            lines@.map_values(|l: (String, String)| (l.0@, l.1@)) == history_lines(history@.take(i as int)),
        decreases history@.len() - i,
    {
        let (date, value) = &history[i];
        assert(history@.take(i + 1).drop_last() =~= history@.take(i as int));
        let ghost before = lines@;
        match value {
            Some(x) => {
                total = total + *x as i128;
                lines.push((short_date(date.as_str()), gexp_to_uptime_as_string(*x)));
                assert(lines@.map_values(|l: (String, String)| (l.0@, l.1@)) =~= before.map_values(
                    |l: (String, String)| (l.0@, l.1@),
                ).push((short_date_text(date@), uptime_text(*x as int))));
            },
            None => {},
        }
        i += 1;
    }
    assert(history@.take(i as int) =~= history@);
    let mut average = String::new();
    let week = if total >= 0 {
        total / 7
    } else {
        0 - (0 - total) / 7
    };
    push_uptime(&mut average, week);
    assert(average@ =~= uptime_text(quot(history_total(history@), 7)));
    (lines, average)
}

/// The text of a report day's date: its `YYYY-MM-DD` text in bold, or
/// `Unknown Date` where the day number has no date.
pub open spec fn date_label(day: i32) -> Seq<char> {
    match text_of_day(day) {
        Some(t) => seq!['*', '*'] + t + seq!['*', '*'],
        None => "Unknown Date"@,
    }
}

/// The text of a report day's experience.
pub open spec fn experience_label(e: Experience) -> Seq<char> {
    match e {
        Experience::Known(g) => uptime_text(g as int),
        Experience::Unknown => "Unknown"@,
    }
}

/// One line of a report: `"<date>: <uptime>"` and a line break.
pub open spec fn report_line(e: ReportEntry) -> Seq<char> {
    date_label(e.day) + seq![':', ' '] + experience_label(e.experience) + seq!['\n']
}

/// The lines of a report, in its order.
pub open spec fn report_text(entries: Seq<ReportEntry>) -> Seq<char>
    decreases entries.len(),
{
    if entries.len() == 0 {
        seq![]
    } else {
        report_text(entries.drop_last()) + report_line(entries.last())
    }
}

/// Writes a report as text, one line per day in the report's order.
pub fn report_description(entries: &Vec<ReportEntry>) -> (r: String)
    ensures
        r@ == report_text(entries@),
{
    let mut out = String::new();
    let mut i: usize = 0;
    while i < entries.len()
        invariant
            i <= entries@.len(),
            out@ == report_text(entries@.take(i as int)),
        decreases entries@.len() - i,
    {
        let e = entries[i];
        let ghost before = out@;
        proof {
            reveal_strlit("**");
            reveal_strlit("Unknown Date");
            reveal_strlit(": ");
            reveal_strlit("Unknown");
            reveal_strlit("\n");
        }
        match day_text(e.day) {
            Some(t) => {
                out.append("**");
                out.append(t.as_str());
                out.append("**");
            },
            None => {
                out.append("Unknown Date");
            },
        }
        out.append(": ");
        match e.experience {
            Experience::Known(g) => {
                let u = gexp_to_uptime_as_string(g);
                out.append(u.as_str());
            },
            Experience::Unknown => {
                out.append("Unknown");
            },
        }
        out.append("\n");
        assert(out@ =~= before + report_line(e));
        assert(entries@.take(i + 1).drop_last() =~= entries@.take(i as int));
        i += 1;
    }
    assert(entries@.take(i as int) =~= entries@);
    out
}

/// The accent color used where a user has chosen none, or an unreadable one.
pub const DEFAULT_COLOR: u32 = 0x2b2d31;

/// Whether a character is a hexadecimal digit.
pub open spec fn is_hex_digit(c: char) -> bool {
    ('0' <= c <= '9') || ('a' <= c <= 'f') || ('A' <= c <= 'F')
}

/// The value of a hexadecimal digit.
pub open spec fn hex_digit_value(c: char) -> int {
    if '0' <= c <= '9' {
        c as int - '0' as int
    } else if 'a' <= c <= 'f' {
        c as int - 'a' as int + 10
    } else {
        c as int - 'A' as int + 10
    }
}

/// The value of a sequence of hexadecimal digits.
pub open spec fn hex_value(digits: Seq<char>) -> int
    decreases digits.len(),
{
    if digits.len() == 0 {
        0
    } else {
        hex_value(digits.drop_last()) * 16 + hex_digit_value(digits.last())
    }
}

/// The text with every leading `0x` taken off.
pub open spec fn strip_hex_prefix(s: Seq<char>) -> Seq<char>
    decreases s.len(),
{
    if s.len() >= 2 && s[0] == '0' && s[1] == 'x' {
        strip_hex_prefix(s.skip(2))
    } else {
        s
    }
}

/// The digits of a number text: the text without its leading `+`, if any.
pub open spec fn unsigned_digits(s: Seq<char>) -> Seq<char> {
    if s.len() > 0 && s[0] == '+' {
        s.skip(1)
    } else {
        s
    }
}

/// Whether every character is a hexadecimal digit.
pub open spec fn all_hex(digits: Seq<char>) -> bool {
    forall|i: int| 0 <= i < digits.len() ==> is_hex_digit(#[trigger] digits[i])
}

/// A text read as a hexadecimal `u32`: an optional `+`, then one or more
/// hexadecimal digits whose value fits.
pub open spec fn hex_u32(s: Seq<char>) -> Option<u32> {
    let digits = unsigned_digits(s);
    if digits.len() > 0 && all_hex(digits) && hex_value(digits) <= u32::MAX {
        Some(hex_value(digits) as u32)
    } else {
        None
    }
}

/// The color that a stored color text gives: the text without its leading
/// `0x`s read as hexadecimal, or the default color where there is no text or
/// it does not read.
pub open spec fn color_of(stored: Option<Seq<char>>) -> u32 {
    match stored {
        Some(t) => match hex_u32(strip_hex_prefix(t)) {
            Some(c) => c,
            None => DEFAULT_COLOR,
        },
        None => DEFAULT_COLOR,
    }
}

proof fn lemma_hex_value_nonneg(digits: Seq<char>)
    requires
        forall|i: int| 0 <= i < digits.len() ==> is_hex_digit(#[trigger] digits[i]),
    ensures
        hex_value(digits) >= 0,
    decreases digits.len(),
{
    if digits.len() > 0 {
        lemma_hex_value_nonneg(digits.drop_last());
    }
}

proof fn lemma_hex_value_grows(digits: Seq<char>, n: int)
    requires
        1 <= n <= digits.len(),
        forall|i: int| 0 <= i < digits.len() ==> is_hex_digit(#[trigger] digits[i]),
    ensures
        hex_value(digits.take(n - 1)) <= hex_value(digits.take(n)),
        hex_value(digits.take(n)) <= hex_value(digits),
    decreases digits.len() - n,
{
    assert(digits.take(n).drop_last() =~= digits.take(n - 1));
    lemma_hex_value_nonneg(digits.take(n - 1));
    if n < digits.len() {
        lemma_hex_value_grows(digits, n + 1);
    } else {
        assert(digits.take(n) =~= digits);
    }
}

/// Reads a text as a hexadecimal `u32`, as `u32::from_str_radix(_, 16)` does.
pub fn parse_hex_u32(s: &str) -> (r: Option<u32>)
    ensures
        r == hex_u32(s@),
{
    let n = s.unicode_len();
    let mut i: usize = 0;
    if n > 0 && s.get_char(0) == '+' {
        i = 1;
    }
    let ghost digits = unsigned_digits(s@);
    let start = i;
    if start == n {
        return None;
    }
    let mut value: u64 = 0;
    while i < n
        invariant
            n == s@.len(),
            start <= i <= n,
            start < n,
            digits == s@.skip(start as int),
            digits == unsigned_digits(s@),
            forall|j: int| 0 <= j < i - start ==> is_hex_digit(#[trigger] digits[j]),
            value == hex_value(digits.take(i - start)),
            value <= u32::MAX,
        decreases n - i,
    {
        let c = s.get_char(i);
        assert(c == digits[i - start]);
        let d: u64 = if '0' <= c && c <= '9' {
            (c as u32 - '0' as u32) as u64
        } else if 'a' <= c && c <= 'f' {
            (c as u32 - 'a' as u32 + 10) as u64
        } else if 'A' <= c && c <= 'F' {
            (c as u32 - 'A' as u32 + 10) as u64
        } else {
            assert(!is_hex_digit(digits[i - start]));
            assert(!all_hex(digits));
            assert(hex_u32(s@).is_none());
            return None;
        };
        assert(d == hex_digit_value(c));
        assert(digits.take(i - start + 1).drop_last() =~= digits.take(i - start));
        assert(digits.take(i - start + 1).last() == c);
        assert(hex_value(digits.take(i - start + 1)) == value * 16 + d);
        let next = value * 16 + d;
        if next > u32::MAX as u64 {
            proof {
                assert(!all_hex(digits) || hex_value(digits) > u32::MAX) by {
                    if all_hex(digits) {
                        lemma_hex_value_grows(digits, i - start + 1);
                    }
                }
                assert(hex_u32(s@).is_none());
            }
            return None;
        }
        value = next;
        i += 1;
    }
    assert(digits.take(i - start) =~= digits);
    Some(value as u32)
}

/// Takes every leading `0x` off a text.
pub fn strip_hex_prefixes(s: &str) -> (r: &str)
    ensures
        r@ == strip_hex_prefix(s@),
{
    let mut t: &str = s;
    proof { reveal_strlit("0x"); }
    while t.unicode_len() >= 2 && t.get_char(0) == '0' && t.get_char(1) == 'x'
        invariant
            strip_hex_prefix(t@) == strip_hex_prefix(s@),
        decreases t@.len(),
    {
        let n = t.unicode_len();
        t = t.substring_char(2, n);
    }
    t
}

/// The accent color of a user from the color text stored for them, if any:
/// the text read as hexadecimal after its leading `0x`s, or the default
/// color where there is none or it does not read.
pub fn get_color(stored: Option<String>) -> (r: u32)
    ensures
        r == color_of(match stored {
            Some(t) => Some(t@),
            None => None,
        }),
{
    match stored {
        Some(t) => match parse_hex_u32(strip_hex_prefixes(t.as_str())) {
            Some(c) => c,
            None => DEFAULT_COLOR,
        },
        None => DEFAULT_COLOR,
    }
}

/// The text without its `#` characters.
pub open spec fn without_hashes(s: Seq<char>) -> Seq<char>
    decreases s.len(),
{
    if s.len() == 0 {
        seq![]
    } else if s.last() == '#' {
        without_hashes(s.drop_last())
    } else {
        without_hashes(s.drop_last()).push(s.last())
    }
}

/// Whether a color code, its `#`s taken out, is six hexadecimal digits.
pub open spec fn valid_color_code(s: Seq<char>) -> bool {
    without_hashes(s).len() == 6 && all_hex(without_hashes(s))
}

/// Sixteen to the power `n`.
pub open spec fn pow16(n: nat) -> int
    decreases n,
{
    if n == 0 {
        1
    } else {
        16 * pow16((n - 1) as nat)
    }
}

proof fn lemma_hex_value_below(digits: Seq<char>)
    requires
        all_hex(digits),
    ensures
        0 <= hex_value(digits) < pow16(digits.len()),
    decreases digits.len(),
{
    if digits.len() > 0 {
        let rest = digits.drop_last();
        assert(all_hex(rest)) by {
            assert forall|i: int| 0 <= i < rest.len() implies is_hex_digit(#[trigger] rest[i]) by {
                assert(rest[i] == digits[i]);
            }
        }
        lemma_hex_value_below(rest);
        let v = hex_value(rest);
        let p = pow16(rest.len());
        let x = hex_digit_value(digits.last());
        assert(is_hex_digit(digits[digits.len() - 1]));
        assert(0 <= x < 16);
        assert(0 <= v * 16 + x < 16 * p) by (nonlinear_arith)
            requires
                0 <= v < p,
                0 <= x < 16,
        ;
    }
}

fn remove_hashes(s: &str) -> (r: String)
    ensures
        r@ == without_hashes(s@),
{
    let n = s.unicode_len();
    let mut out = String::new();
    let mut i: usize = 0;
    while i < n
        invariant
            n == s@.len(),
            i <= n,
            out@ == without_hashes(s@.take(i as int)),
        decreases n - i,
    {
        let c = s.get_char(i);
        assert(s@.take(i + 1).drop_last() =~= s@.take(i as int));
        assert(s@.take(i + 1).last() == c);
        if c != '#' {
            let one = s.substring_char(i, i + 1);
            assert(one@ =~= seq![c]);
            out.append(one);
        }
        i += 1;
    }
    assert(s@.take(i as int) =~= s@);
    out
}

/// Reads a color code that a user gives: with its `#`s taken out it must be
/// six hexadecimal digits. Gives the color and the text stored for it, the
/// digits after `0x`.
pub fn parse_color_code(input: &str) -> (r: Option<(u32, String)>)
    ensures
        match r {
            Some((value, stored)) => {
                &&& valid_color_code(input@)
                &&& value == hex_value(without_hashes(input@))
                &&& stored@ == "0x"@ + without_hashes(input@)
            },
            None => !valid_color_code(input@),
        },
{
    let code = remove_hashes(input);
    let n = code.unicode_len();
    if n != 6 {
        return None;
    }
    let mut i: usize = 0;
    while i < n
        invariant
            n == code@.len(),
            code@ == without_hashes(input@),
            i <= n,
            forall|j: int| 0 <= j < i ==> is_hex_digit(#[trigger] code@[j]),
        decreases n - i,
    {
        let c = code.as_str().get_char(i);
        if !(('0' <= c && c <= '9') || ('a' <= c && c <= 'f') || ('A' <= c && c <= 'F')) {
            assert(!is_hex_digit(code@[i as int]));
            return None;
        }
        i += 1;
    }
    proof {
        lemma_hex_value_below(code@);
        reveal_with_fuel(pow16, 7);
        assert(code@[0] != '+');
        assert(unsigned_digits(code@) == code@);
    }
    match parse_hex_u32(code.as_str()) {
        Some(value) => {
            let mut stored = String::from_str("0x");
            stored.append(code.as_str());
            Some((value, stored))
        },
        None => None,
    }
}

} // verus!
