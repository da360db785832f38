//! Spans of time in whole seconds, the text form that query filters use
//! (`1y2d3h4m5s`), and its parser.

use vstd::prelude::*;
use vstd::string::*;
use crate::clock::now_timestamp;
use crate::error::DoomsdayError;
use crate::text::{
    chars_of, decimal, decimal_chars, decimal_value, digit_value, is_digit,
    lemma_decimal_reads_back, string_of,
};

verus! {

/// A span of time in whole seconds; negative where the end lies before the
/// start.
#[derive(Clone, Copy, Debug, PartialEq, Eq, Structural)]
pub struct Duration {
    pub seconds: i64,
}

pub const SECONDS_PER_MINUTE: i64 = 60;

pub const SECONDS_PER_HOUR: i64 = 3600;

pub const SECONDS_PER_DAY: i64 = 86400;

pub const SECONDS_PER_WEEK: i64 = 604800;

pub const SECONDS_PER_MONTH: i64 = 2592000;

pub const SECONDS_PER_YEAR: i64 = 31536000;

impl Duration {
    pub fn zero() -> (d: Self)
        ensures
            d.seconds == 0,
    {
        Duration { seconds: 0 }
    }

    pub fn seconds(n: i64) -> (d: Self)
        ensures
            d.seconds == n,
    {
        Duration { seconds: n }
    }

    pub fn minutes(n: i64) -> (d: Self)
        requires
            i64::MIN <= n * 60 <= i64::MAX,
        ensures
            d.seconds == n * 60,
    {
        Duration { seconds: n * SECONDS_PER_MINUTE }
    }

    pub fn hours(n: i64) -> (d: Self)
        requires
            i64::MIN <= n * 3600 <= i64::MAX,
        ensures
            d.seconds == n * 3600,
    {
        Duration { seconds: n * SECONDS_PER_HOUR }
    }

    pub fn days(n: i64) -> (d: Self)
        requires
            i64::MIN <= n * 86400 <= i64::MAX,
        ensures
            d.seconds == n * 86400,
    {
        Duration { seconds: n * SECONDS_PER_DAY }
    }

    pub fn weeks(n: i64) -> (d: Self)
        requires
            i64::MIN <= n * 604800 <= i64::MAX,
        ensures
            d.seconds == n * 604800,
    {
        Duration { seconds: n * SECONDS_PER_WEEK }
    }

    /// The two spans one after the other.
    pub fn plus(self, other: Duration) -> (d: Self)
        requires
            i64::MIN <= self.seconds + other.seconds <= i64::MAX,
        ensures
            d.seconds == self.seconds + other.seconds,
    {
        Duration { seconds: self.seconds + other.seconds }
    }

    pub fn num_seconds(&self) -> (n: i64)
        ensures
            n == self.seconds,
    {
        self.seconds
    }

    /// The whole days in the span, rounded toward zero.
    pub open spec fn spec_num_days(&self) -> int {
        if self.seconds >= 0 {
            self.seconds / 86400
        } else {
            -((-self.seconds) / 86400)
        }
    }

    /// The whole days in the span, rounded toward zero.
    pub fn num_days(&self) -> (n: i64)
        ensures
            n == self.spec_num_days(),
    {
        if self.seconds >= 0 {
            self.seconds / SECONDS_PER_DAY
        } else if self.seconds == i64::MIN {
            -106751991167300
        } else {
            -((-self.seconds) / SECONDS_PER_DAY)
        }
    }
}

/// The seconds from the instant `from` to the instant `to`.
pub open spec fn seconds_between(from: i64, to: i64) -> int {
    to - from
}

/// The span from the instant `from` to the instant `to`, where it fits in 64
/// bits.
pub open spec fn span_between(from: i64, to: i64) -> Option<Duration> {
    if i64::MIN <= to - from <= i64::MAX {
        Some(Duration { seconds: (to - from) as i64 })
    } else {
        None
    }
}

/// Whether `c` is one of the seven unit letters.
pub open spec fn is_unit(c: char) -> bool {
    c == 'y' || c == 'M' || c == 'w' || c == 'd' || c == 'h' || c == 'm' || c == 's'
}

/// The seconds in one unit: `s` 1, `m` 60, `h` 3600, `d` a day, `w` seven
/// days, `M` thirty days, `y` 365 days.
pub open spec fn unit_seconds(c: char) -> int {
    if c == 's' {
        1
    } else if c == 'm' {
        60
    } else if c == 'h' {
        3600
    } else if c == 'd' {
        86400
    } else if c == 'w' {
        604800
    } else if c == 'M' {
        2592000
    } else if c == 'y' {
        31536000
    } else {
        0
    }
}

/// Where the run of digits that ends just before position `end` begins; `end`
/// itself where no digit stands before it.
pub open spec fn run_start(s: Seq<char>, end: int) -> int
    decreases end,
{
    if 0 < end <= s.len() && is_digit(s[end - 1]) {
        run_start(s, end - 1)
    } else {
        end
    }
}

/// The seconds that the segment ending at position `i` stands for: where a
/// unit letter stands at `i` right after a run of digits, the run's number
/// times the unit; otherwise nothing.
pub open spec fn segment_seconds(s: Seq<char>, i: int) -> nat {
    if 0 <= i < s.len() && is_unit(s[i]) && run_start(s, i) < i {
        (decimal_value(s.subrange(run_start(s, i), i)) * unit_seconds(s[i])) as nat
    } else {
        0
    }
}

/// The sum of the segments that end within the first `n` characters.
pub open spec fn total_seconds(s: Seq<char>, n: int) -> nat
    decreases n,
{
    if n <= 0 {
        0
    } else {
        total_seconds(s, n - 1) + segment_seconds(s, n - 1)
    }
}

/// The seconds that a duration text stands for: the sum of all its segments,
/// each a run of digits directly followed by a unit letter. Anything else in
/// the text is passed over.
pub open spec fn parsed_seconds(s: Seq<char>) -> nat {
    total_seconds(s, s.len() as int)
}

/// One part of the human form: the number and the unit letter, or nothing
/// where the number is zero.
pub open spec fn human_part(n: nat, unit: char) -> Seq<char> {
    if n > 0 {
        decimal(n).push(unit)
    } else {
        Seq::empty()
    }
}

/// The human form of a span of `secs` seconds: `expired` where it is
/// negative; otherwise its years of 365 days, days, hours, minutes and seconds,
/// largest first, each with its letter, those that are zero left out (`0s` for
/// the empty span).
pub open spec fn human(secs: int) -> Seq<char> {
    if secs < 0 {
        "expired"@
    } else {
        let years = (secs / 31536000) as nat;
        let days = ((secs % 31536000) / 86400) as nat;
        let hours = ((secs % 86400) / 3600) as nat;
        let minutes = ((secs % 3600) / 60) as nat;
        let seconds = (secs % 60) as nat;
        let front = human_part(years, 'y') + human_part(days, 'd') + human_part(hours, 'h')
            + human_part(minutes, 'm');
        if seconds > 0 || front.len() == 0 {
            front + decimal(seconds).push('s')
        } else {
            front
        }
    }
}

proof fn lemma_total_monotone(s: Seq<char>, n: int, more: int)
    requires
        n <= more,
    ensures
        total_seconds(s, n) <= total_seconds(s, more),
    decreases more - n,
{
    if n < more {
        lemma_total_monotone(s, n, more - 1);
    }
}

proof fn lemma_run_start_bounds(s: Seq<char>, end: int)
    requires
        0 <= end <= s.len(),
    ensures
        0 <= run_start(s, end) <= end,
        forall|j: int| run_start(s, end) <= j < end ==> is_digit(#[trigger] s[j]),
        run_start(s, end) > 0 ==> !is_digit(s[run_start(s, end) - 1]),
    decreases end,
{
    if 0 < end && is_digit(s[end - 1]) {
        lemma_run_start_bounds(s, end - 1);
    }
}

/// The run that ends before `end` does not depend on what follows `end`.
proof fn lemma_run_start_prefix(s: Seq<char>, t: Seq<char>, end: int)
    requires
        0 <= end <= s.len(),
        end <= t.len(),
        s.subrange(0, end) == t.subrange(0, end),
    ensures
        run_start(s, end) == run_start(t, end),
    decreases end,
{
    if end > 0 {
        assert(s[end - 1] == s.subrange(0, end)[end - 1]);
        assert(t[end - 1] == t.subrange(0, end)[end - 1]);
        if is_digit(s[end - 1]) {
            assert(s.subrange(0, end - 1) =~= s.subrange(0, end).subrange(0, end - 1));
            assert(t.subrange(0, end - 1) =~= t.subrange(0, end).subrange(0, end - 1));
            lemma_run_start_prefix(s, t, end - 1);
        }
    }
}

/// The segments that end within a common prefix of two texts are the same.
proof fn lemma_total_prefix(s: Seq<char>, t: Seq<char>, n: int)
    requires
        0 <= n <= s.len(),
        n <= t.len(),
        s.subrange(0, n) == t.subrange(0, n),
    ensures
        total_seconds(s, n) == total_seconds(t, n),
    decreases n,
{
    if n > 0 {
        assert(s.subrange(0, n - 1) =~= s.subrange(0, n).subrange(0, n - 1));
        assert(t.subrange(0, n - 1) =~= t.subrange(0, n).subrange(0, n - 1));
        lemma_total_prefix(s, t, n - 1);
        let i = n - 1;
        assert(s[i] == s.subrange(0, n)[i]);
        assert(t[i] == t.subrange(0, n)[i]);
        lemma_run_start_prefix(s, t, i);
        lemma_run_start_bounds(s, i);
        let a = run_start(s, i);
        assert(s.subrange(a, i) =~= s.subrange(0, n).subrange(a, i));
        assert(t.subrange(a, i) =~= t.subrange(0, n).subrange(a, i));
    }
}

/// No segment ends within a run of digits.
proof fn lemma_total_over_digits(s: Seq<char>, from: int, to: int)
    requires
        0 <= from <= to <= s.len(),
        forall|j: int| from <= j < to ==> is_digit(#[trigger] s[j]),
    ensures
        total_seconds(s, to) == total_seconds(s, from),
    decreases to - from,
{
    if from < to {
        lemma_total_over_digits(s, from, to - 1);
        assert(is_digit(s[to - 1]));
    }
}

/// A text that does not end in a digit (a clean text), followed by a numeral
/// and a unit letter, stands for what the text stood for and the numeral
/// times the unit more.
proof fn lemma_append_segment(s: Seq<char>, n: nat, unit: char)
    requires
        s.len() == 0 || !is_digit(s.last()),
        is_unit(unit),
    ensures
        parsed_seconds(s + decimal(n).push(unit)) == parsed_seconds(s) + n * unit_seconds(unit),
{
    let digits = decimal(n);
    let t = s + digits.push(unit);
    let a = s.len() as int;
    let b = a + digits.len();
    lemma_decimal_reads_back(n);
    assert(t.subrange(0, a) =~= s.subrange(0, a));
    lemma_total_prefix(t, s, a);
    assert forall|j: int| a <= j < b implies is_digit(#[trigger] t[j]) by {
        assert(t[j] == digits[j - a]);
    }
    lemma_total_over_digits(t, a, b);
    assert(t[b] == unit);
    lemma_run_start_bounds(t, b);
    let r = run_start(t, b);
    assert(r == a) by {
        lemma_run_start_at(t, a, b);
    }
    assert(t.subrange(a, b) =~= digits);
    assert(total_seconds(t, b + 1) == total_seconds(t, b) + segment_seconds(t, b));
    assert(n * unit_seconds(unit) >= 0) by (nonlinear_arith)
        requires
            n >= 0,
            unit_seconds(unit) >= 0,
    ;
}

/// A run of digits from `a` to `b` with no digit before `a` starts at `a`.
proof fn lemma_run_start_at(t: Seq<char>, a: int, b: int)
    requires
        0 <= a <= b <= t.len(),
        forall|j: int| a <= j < b ==> is_digit(#[trigger] t[j]),
        a == 0 || !is_digit(t[a - 1]),
    ensures
        run_start(t, b) == a,
    decreases b - a,
{
    if a < b {
        assert(is_digit(t[b - 1]));
        lemma_run_start_at(t, a, b - 1);
    }
}

/// A text that ends in a unit letter, or is empty, stays so when a part of the
/// human form is appended.
proof fn lemma_append_part(s: Seq<char>, n: nat, unit: char)
    requires
        s.len() == 0 || !is_digit(s.last()),
        is_unit(unit),
    ensures
        parsed_seconds(s + human_part(n, unit)) == parsed_seconds(s) + n * unit_seconds(unit),
        (s + human_part(n, unit)).len() == 0 || !is_digit((s + human_part(n, unit)).last()),
        (s + human_part(n, unit)).len() == 0 <==> s.len() == 0 && n == 0,
{
    if n > 0 {
        lemma_append_segment(s, n, unit);
        assert((s + decimal(n).push(unit)).last() == unit);
    } else {
        assert(s + human_part(n, unit) =~= s);
    }
}

/// A number is its quotient by `d` times `d`, and its remainder.
proof fn lemma_quotient_and_remainder(x: int, d: int)
    requires
        0 < d,
    ensures
        x == (x / d) * d + x % d,
        0 <= x % d < d,
{
    vstd::arithmetic::div_mod::lemma_fundamental_div_mod(x, d);
    vstd::arithmetic::div_mod::lemma_mod_bound(x, d);
    assert(d * (x / d) == (x / d) * d) by (nonlinear_arith);
}

/// What is left of a day in a year is what is left of the day.
proof fn lemma_day_of_year(secs: int)
    ensures
        (secs % 31536000) % 86400 == secs % 86400,
{
    vstd::arithmetic::div_mod::lemma_mod_mod(secs, 86400, 365);
}

/// What is left of an hour in a day is what is left of the hour.
proof fn lemma_hour_of_day(secs: int)
    ensures
        (secs % 86400) % 3600 == secs % 3600,
{
    vstd::arithmetic::div_mod::lemma_mod_mod(secs, 3600, 24);
}

/// What is left of a minute in an hour is what is left of the minute.
proof fn lemma_minute_of_hour(secs: int)
    ensures
        (secs % 3600) % 60 == secs % 60,
{
    vstd::arithmetic::div_mod::lemma_mod_mod(secs, 60, 60);
}

/// A span is its years, days, hours, minutes and seconds put together.
proof fn lemma_split_seconds(secs: int)
    requires
        0 <= secs,
    ensures
        (secs / 31536000) * 31536000 + ((secs % 31536000) / 86400) * 86400 + ((secs % 86400)
            / 3600) * 3600 + ((secs % 3600) / 60) * 60 + secs % 60 == secs,
{
    let in_year = secs % 31536000;
    let in_day = secs % 86400;
    let in_hour = secs % 3600;
    let in_minute = secs % 60;
    let years = secs / 31536000;
    let days = in_year / 86400;
    let hours = in_day / 3600;
    let minutes = in_hour / 60;
    lemma_quotient_and_remainder(secs, 31536000);
    lemma_quotient_and_remainder(in_year, 86400);
    lemma_quotient_and_remainder(in_day, 3600);
    lemma_quotient_and_remainder(in_hour, 60);
    lemma_day_of_year(secs);
    lemma_hour_of_day(secs);
    lemma_minute_of_hour(secs);
    assert(secs == years * 31536000 + in_year);
    assert(in_year == days * 86400 + in_day);
    assert(in_day == hours * 3600 + in_hour);
    assert(in_hour == minutes * 60 + in_minute);
}

/// Formatting a positive span and parsing the text gives the span back.
pub proof fn lemma_human_round_trip(secs: int)
    requires
        0 < secs,
    ensures
        parsed_seconds(human(secs)) == secs,
{
    let years = (secs / 31536000) as nat;
    let days = ((secs % 31536000) / 86400) as nat;
    let hours = ((secs % 86400) / 3600) as nat;
    let minutes = ((secs % 3600) / 60) as nat;
    let seconds = (secs % 60) as nat;
    let e = Seq::<char>::empty();
    lemma_append_part(e, years, 'y');
    let with_years = e + human_part(years, 'y');
    lemma_append_part(with_years, days, 'd');
    let with_days = with_years + human_part(days, 'd');
    lemma_append_part(with_days, hours, 'h');
    let with_hours = with_days + human_part(hours, 'h');
    lemma_append_part(with_hours, minutes, 'm');
    let with_minutes = with_hours + human_part(minutes, 'm');
    assert(parsed_seconds(e) == 0);
    let front = human_part(years, 'y') + human_part(days, 'd') + human_part(hours, 'h')
        + human_part(minutes, 'm');
    assert(with_minutes =~= front);
    lemma_split_seconds(secs);
    if seconds > 0 || front.len() == 0 {
        lemma_append_segment(with_minutes, seconds, 's');
    }
}

fn unit_of(c: char) -> (r: Option<u64>)
    ensures
        match r {
            Some(n) => is_unit(c) && n == unit_seconds(c),
            None => !is_unit(c),
        },
{
    if c == 's' {
        Some(1)
    } else if c == 'm' {
        Some(60)
    } else if c == 'h' {
        Some(3600)
    } else if c == 'd' {
        Some(86400)
    } else if c == 'w' {
        Some(604800)
    } else if c == 'M' {
        Some(2592000)
    } else if c == 'y' {
        Some(31536000)
    } else {
        None
    }
}

fn digit_of(c: char) -> (r: Option<u64>)
    ensures
        match r {
            Some(d) => is_digit(c) && d == digit_value(c) && d < 10,
            None => !is_digit(c),
        },
{
    if '0' <= c && c <= '9' {
        Some((c as u64) - ('0' as u64))
    } else {
        None
    }
}

proof fn lemma_decimal_value_push(run: Seq<char>, c: char)
    ensures
        decimal_value(run.push(c)) == decimal_value(run) * 10 + digit_value(c) || digit_value(c)
            < 0,
{
    assert(run.push(c).drop_last() =~= run);
    assert(run.push(c).last() == c);
}

/// Parsing and formatting of duration texts.
#[derive(Clone, Copy, Debug)]
pub struct DurationParser;

impl DurationParser {
    /// The span that `input` stands for: the sum of its segments, each a run
    /// of digits directly followed by one of `s m h d w M y`. Refused as invalid
    /// input where the sum is zero (no segment, or only zeros) or does not fit in
    /// 63 bits.
    pub fn parse(input: &str) -> (r: Result<Duration, DoomsdayError>)
        ensures
            match r {
                Ok(d) => 0 < parsed_seconds(input@) <= i64::MAX && d.seconds == parsed_seconds(
                    input@,
                ),
                Err(e) => e matches DoomsdayError::InvalidInput(m) && if parsed_seconds(input@)
                    == 0 {
                    m@ == "No valid duration found"@
                } else {
                    parsed_seconds(input@) > i64::MAX && m@
                        == "Invalid number: number too large to fit in target type"@
                },
            },
    {
        let chars = chars_of(input);
        let ghost s = input@;
        let n: usize = chars.len();
        let limit: u128 = 9223372036854775807;
        let mut total: u128 = 0;
        let mut run: u128 = 0;
        let mut in_run: bool = false;
        let mut run_over: bool = false;
        let mut i: usize = 0;
        while i < n
            invariant
                chars@ == s,
                s == input@,
                n == s.len(),
                0 <= run_start(s, i as int) <= i,
                i <= n,
                limit == i64::MAX,
                total == total_seconds(s, i as int),
                total <= limit,
                in_run == (run_start(s, i as int) < i),
                !in_run ==> run == 0 && !run_over,
                !run_over ==> run == decimal_value(s.subrange(run_start(s, i as int), i as int)),
                run <= limit,
                run_over ==> decimal_value(s.subrange(run_start(s, i as int), i as int)) > limit,
            decreases n - i,
        {
            let c = chars[i];
            proof {
                lemma_run_start_bounds(s, i as int);
            }
            let ghost start = run_start(s, i as int);
            let ghost digits = s.subrange(start, i as int);
            match digit_of(c) {
                Some(d) => {
                    proof {
                        assert(run_start(s, i + 1) == start);
                        assert(s.subrange(start, i + 1) =~= digits.push(c));
                        lemma_decimal_value_push(digits, c);
                        assert(segment_seconds(s, i as int) == 0);
                    }
                    if !run_over {
                        let v: u128 = run * 10 + d as u128;
                        if v > limit {
                            run_over = true;
                        } else {
                            run = v;
                        }
                    }
                    in_run = true;
                },
                None => {
                    proof {
                        assert(run_start(s, i + 1) == i + 1);
                        assert(s.subrange(i + 1, i + 1) =~= Seq::<char>::empty());
                    }
                    match unit_of(c) {
                        Some(unit) => {
                            if in_run {
                                let ghost value = decimal_value(digits);
                                proof {
                                    assert(segment_seconds(s, i as int) == value * unit);
                                    assert(total_seconds(s, i + 1) == total + value * unit);
                                    lemma_total_monotone(s, i + 1, n as int);
                                }
                                if run_over {
                                    proof {
                                        assert(value * unit >= value) by (nonlinear_arith)
                                            requires
                                                value >= 0,
                                                unit >= 1,
                                        ;
                                    }
                                    return Err(
                                        DoomsdayError::invalid_input(
                                            "Invalid number: number too large to fit in target type",
                                        ),
                                    );
                                }
                                assert(run * unit <= 9223372036854775807 * 31536000)
                                    by (nonlinear_arith)
                                    requires
                                        0 <= run <= 9223372036854775807,
                                        0 <= unit <= 31536000,
                                ;
                                let sum: u128 = total + run * (unit as u128);
                                if sum > limit {
                                    return Err(
                                        DoomsdayError::invalid_input(
                                            "Invalid number: number too large to fit in target type",
                                        ),
                                    );
                                }
                                total = sum;
                            } else {
                                proof {
                                    assert(segment_seconds(s, i as int) == 0);
                                }
                            }
                        },
                        None => {
                            proof {
                                assert(segment_seconds(s, i as int) == 0);
                            }
                        },
                    }
                    in_run = false;
                    run = 0;
                    run_over = false;
                },
            }
            i += 1;
        }
        if total == 0 {
            return Err(DoomsdayError::invalid_input("No valid duration found"));
        }
        Ok(Duration { seconds: total as i64 })
    }

    /// The human form of `duration`.
    pub fn format_human(duration: Duration) -> (text: String)
        ensures
            text@ == human(duration.seconds as int),
    {
        if duration.seconds < 0 {
            return String::from_str("expired");
        }
        let secs: u64 = duration.seconds as u64;
        let years: u64 = secs / 31536000;
        let days: u64 = (secs % 31536000) / 86400;
        let hours: u64 = (secs % 86400) / 3600;
        let minutes: u64 = (secs % 3600) / 60;
        let seconds: u64 = secs % 60;
        let mut out: Vec<char> = Vec::new();
        push_part(&mut out, years, 'y');
        push_part(&mut out, days, 'd');
        push_part(&mut out, hours, 'h');
        push_part(&mut out, minutes, 'm');
        if seconds > 0 || out.len() == 0 {
            let mut digits = decimal_chars(seconds);
            out.append(&mut digits);
            out.push('s');
        }
        string_of(&out)
    }

    /// The span from the instant `now` to the instant `expiry`.
    pub fn until_expiry_at(expiry: i64, now: i64) -> (d: Duration)
        requires
            i64::MIN <= seconds_between(now, expiry) <= i64::MAX,
        ensures
            d.seconds == seconds_between(now, expiry),
    {
        Duration { seconds: expiry - now }
    }

    /// The span from the instant `now` to the instant `expiry`; nothing where
    /// it does not fit in 64 bits.
    pub fn until_expiry_from(expiry: i64, now: i64) -> (d: Option<Duration>)
        ensures
            d == span_between(now, expiry),
    {
        let diff: i128 = expiry as i128 - now as i128;
        if diff < -9223372036854775808 || diff > 9223372036854775807 {
            None
        } else {
            Some(DurationParser::until_expiry_at(expiry, now))
        }
    }

    /// The span from the instant the clock shows when this is called to the
    /// instant `expiry`; nothing where it does not fit in 64 bits. The clock
    /// never shows an instant before the epoch, so there is a span for every
    /// expiry from one second before the epoch on.
    pub fn until_expiry(expiry: i64) -> (d: Option<Duration>)
        ensures
            exists|now: i64| 0 <= now && d == #[trigger] span_between(now, expiry),
            expiry >= -1 ==> d is Some,
    {
        let now = now_timestamp();
        DurationParser::until_expiry_from(expiry, now)
    }
}

fn push_part(out: &mut Vec<char>, n: u64, unit: char)
    ensures
        final(out)@ == old(out)@ + human_part(n as nat, unit),
{
    if n > 0 {
        let mut digits = decimal_chars(n);
        out.append(&mut digits);
        out.push(unit);
        assert(out@ =~= old(out)@ + human_part(n as nat, unit));
    } else {
        assert(out@ =~= old(out)@ + human_part(n as nat, unit));
    }
}

} // verus!
