//! Calendar dates and the pure date classification used by the views:
//! day numbering, ordering, week and month windows, and overdue-day counts.
use vstd::prelude::*;

use crate::task::TdError;
use crate::text::digit_str;
use crate::text::dec_string;
use crate::text::spec_digit_char;
use vstd::string::StrSliceExecFns;
use vstd::string::StringExecFns;

verus! {

/// A calendar date in the proleptic Gregorian calendar, year 0 through 9999.
#[derive(Clone, Copy, PartialEq, Eq, Structural, Debug)]
pub struct Date {
    pub year: u32,
    pub month: u32,
    pub day: u32,
}

/// True when `year` is a leap year.
pub open spec fn spec_is_leap_year(year: int) -> bool {
    (year % 4 == 0 && year % 100 != 0) || year % 400 == 0
}

/// Number of days in the given month of the given year.
pub open spec fn spec_days_in_month(year: int, month: int) -> int {
    if month == 2 {
        if spec_is_leap_year(year) {
            29
        } else {
            28
        }
    } else if month == 4 || month == 6 || month == 9 || month == 11 {
        30
    } else {
        31
    }
}

/// Number of days in the given year.
pub open spec fn spec_days_in_year(year: int) -> int {
    if spec_is_leap_year(year) {
        366
    } else {
        365
    }
}

/// A well-formed date: the year fits in four digits and the day exists
/// in the calendar.
pub open spec fn spec_valid_date(d: Date) -> bool {
    d.year <= 9999 && 1 <= d.month <= 12 && 1 <= d.day <= spec_days_in_month(
        d.year as int,
        d.month as int,
    )
}

/// Days in all years before `year`, counted from year 0.
pub open spec fn spec_days_before_year(year: int) -> int
    decreases year,
{
    if year <= 0 {
        0
    } else {
        spec_days_before_year(year - 1) + spec_days_in_year(year - 1)
    }
}

/// Days in all months of `year` before `month`.
pub open spec fn spec_days_before_month(year: int, month: int) -> int
    decreases month,
{
    if month <= 1 {
        0
    } else {
        spec_days_before_month(year, month - 1) + spec_days_in_month(year, month - 1)
    }
}

/// Day index of a date: whole days elapsed since January 1 of year 0.
pub open spec fn spec_day_number(d: Date) -> int {
    spec_days_before_year(d.year as int) + spec_days_before_month(d.year as int, d.month as int)
        + d.day - 1
}

/// Day index of the last representable date, December 31 of year 9999.
pub open spec fn spec_max_day_number() -> int {
    spec_day_number(Date { year: 9999, month: 12, day: 31 })
}

/// Lexicographic order on dates: `a` is on or before `b`.
pub open spec fn spec_date_le(a: Date, b: Date) -> bool {
    a.year < b.year || (a.year == b.year && (a.month < b.month || (a.month == b.month && a.day
        <= b.day)))
}

/// Strict lexicographic order on dates: `a` is strictly before `b`.
pub open spec fn spec_date_lt(a: Date, b: Date) -> bool {
    spec_date_le(a, b) && a != b
}

/// Days since the previous Monday: 0 for a Monday through 6 for a Sunday.
pub open spec fn spec_weekday_offset(d: Date) -> int {
    (spec_day_number(d) + 5) % 7
}

proof fn lemma_days_before_year_bounds(year: int)
    requires
        year >= 0,
    ensures
        365 * year <= spec_days_before_year(year) <= 366 * year,
    decreases year,
{
    if year > 0 {
        lemma_days_before_year_bounds(year - 1);
    }
}

proof fn lemma_days_before_month_bounds(year: int, month: int)
    requires
        month >= 1,
    ensures
        0 <= spec_days_before_month(year, month) <= 31 * (month - 1),
    decreases month,
{
    if month > 1 {
        lemma_days_before_month_bounds(year, month - 1);
    }
}

/// The months of a year account for exactly all its days.
proof fn lemma_days_before_month_total(year: int)
    ensures
        spec_days_before_month(year, 13) == spec_days_in_year(year),
{
    reveal_with_fuel(spec_days_before_month, 14);
}

proof fn lemma_days_before_month_mono(year: int, m1: int, m2: int)
    requires
        1 <= m1 <= m2,
    ensures
        spec_days_before_month(year, m1) <= spec_days_before_month(year, m2),
    decreases m2 - m1,
{
    if m1 < m2 {
        lemma_days_before_month_mono(year, m1, m2 - 1);
    }
}

proof fn lemma_days_before_year_mono(y1: int, y2: int)
    requires
        0 <= y1 <= y2,
    ensures
        spec_days_before_year(y1) <= spec_days_before_year(y2),
    decreases y2 - y1,
{
    if y1 < y2 {
        lemma_days_before_year_mono(y1, y2 - 1);
    }
}

/// Within its year, a date's day index stays below the days of that year.
proof fn lemma_day_number_within_year(d: Date)
    requires
        spec_valid_date(d),
    ensures
        spec_days_before_year(d.year as int) <= spec_day_number(d) < spec_days_before_year(
            d.year as int,
        ) + spec_days_in_year(d.year as int),
{
    lemma_days_before_month_bounds(d.year as int, d.month as int);
    lemma_days_before_month_mono(d.year as int, d.month as int + 1, 13);
    lemma_days_before_month_total(d.year as int);
    assert(spec_days_before_month(d.year as int, d.month as int + 1) == spec_days_before_month(
        d.year as int,
        d.month as int,
    ) + spec_days_in_month(d.year as int, d.month as int));
}

/// Day numbering is strictly monotone with respect to date order.
pub proof fn lemma_date_lt_day_number(a: Date, b: Date)
    requires
        spec_valid_date(a),
        spec_valid_date(b),
        spec_date_lt(a, b),
    ensures
        spec_day_number(a) < spec_day_number(b),
{
    if a.year < b.year {
        lemma_day_number_within_year(a);
        lemma_day_number_within_year(b);
        lemma_days_before_year_mono(a.year as int + 1, b.year as int);
    } else if a.month < b.month {
        lemma_days_before_month_mono(a.year as int, a.month as int + 1, b.month as int);
        assert(spec_days_before_month(a.year as int, a.month as int + 1)
            == spec_days_before_month(a.year as int, a.month as int) + spec_days_in_month(
            a.year as int,
            a.month as int,
        ));
    }
}

/// Date order agrees with the order of day indices.
pub proof fn lemma_date_le_day_number(a: Date, b: Date)
    requires
        spec_valid_date(a),
        spec_valid_date(b),
    ensures
        spec_date_le(a, b) <==> spec_day_number(a) <= spec_day_number(b),
        spec_date_lt(a, b) <==> spec_day_number(a) < spec_day_number(b),
        a == b <==> spec_day_number(a) == spec_day_number(b),
{
    if spec_date_lt(a, b) {
        lemma_date_lt_day_number(a, b);
    }
    if spec_date_lt(b, a) {
        lemma_date_lt_day_number(b, a);
    }
    if !spec_date_le(a, b) {
        assert(spec_date_lt(b, a));
    }
    if !spec_date_le(b, a) {
        assert(spec_date_lt(a, b));
    }
}

impl Date {
    /// True when `year` is a leap year.
    pub fn is_leap_year(year: u32) -> (r: bool)
        ensures
            r == spec_is_leap_year(year as int),
    {
        (year % 4 == 0 && year % 100 != 0) || year % 400 == 0
    }

    /// Number of days in the given month of the given year.
    pub fn days_in_month(year: u32, month: u32) -> (r: u32)
        requires
            1 <= month <= 12,
        ensures
            r == spec_days_in_month(year as int, month as int),
    {
        if month == 2 {
            if Date::is_leap_year(year) {
                29
            } else {
                28
            }
        } else if month == 4 || month == 6 || month == 9 || month == 11 {
            30
        } else {
            31
        }
    }

    /// Number of days in the given year.
    pub fn days_in_year(year: u32) -> (r: u32)
        ensures
            r == spec_days_in_year(year as int),
    {
        if Date::is_leap_year(year) {
            366
        } else {
            365
        }
    }

    /// True when the date exists in the calendar and its year has four digits.
    pub fn is_valid(&self) -> (r: bool)
        ensures
            r == spec_valid_date(*self),
    {
        self.year <= 9999 && 1 <= self.month && self.month <= 12 && 1 <= self.day && self.day
            <= Date::days_in_month(self.year, self.month)
    }

    /// Whole days elapsed since January 1 of year 0.
    pub fn day_number(&self) -> (r: u32)
        requires
            spec_valid_date(*self),
        ensures
            r == spec_day_number(*self),
    {
        let mut acc: u32 = 0;
        let mut y: u32 = 0;
        while y < self.year
            invariant
                y <= self.year <= 9999,
                acc == spec_days_before_year(y as int),
                acc <= 366 * y,
            decreases self.year - y,
        {
            acc = acc + Date::days_in_year(y);
            y = y + 1;
            proof {
                lemma_days_before_year_bounds(y as int);
            }
        }
        let mut m: u32 = 1;
        while m < self.month
            invariant
                1 <= m <= self.month <= 12,
                self.year <= 9999,
                acc == spec_days_before_year(self.year as int) + spec_days_before_month(
                    self.year as int,
                    m as int,
                ),
                acc <= 366 * 9999 + 31 * 12,
            decreases self.month - m,
        {
            proof {
                lemma_days_before_year_bounds(self.year as int);
                lemma_days_before_month_bounds(self.year as int, m as int + 1);
            }
            acc = acc + Date::days_in_month(self.year, m);
            m = m + 1;
        }
        acc + self.day - 1
    }

    /// Days since the previous Monday: 0 for a Monday through 6 for a Sunday.
    pub fn weekday_offset(&self) -> (r: u32)
        requires
            spec_valid_date(*self),
        ensures
            r == spec_weekday_offset(*self),
            r < 7,
    {
        proof {
            lemma_days_before_year_bounds(self.year as int);
            lemma_days_before_month_bounds(self.year as int, self.month as int);
        }
        (self.day_number() + 5) % 7
    }

    /// True when `self` is on or before `other`.
    pub fn le(&self, other: &Date) -> (r: bool)
        ensures
            r == spec_date_le(*self, *other),
    {
        self.year < other.year || (self.year == other.year && (self.month < other.month || (
        self.month == other.month && self.day <= other.day)))
    }

    /// True when `self` is strictly before `other`.
    pub fn lt(&self, other: &Date) -> (r: bool)
        ensures
            r == spec_date_lt(*self, *other),
    {
        self.year < other.year || (self.year == other.year && (self.month < other.month || (
        self.month == other.month && self.day < other.day)))
    }

    /// The date one day earlier.
    pub fn prev_day(&self) -> (r: Date)
        requires
            spec_valid_date(*self),
            spec_day_number(*self) > 0,
        ensures
            spec_valid_date(r),
            spec_day_number(r) == spec_day_number(*self) - 1,
    {
        if self.day > 1 {
            Date { year: self.year, month: self.month, day: self.day - 1 }
        } else if self.month > 1 {
            let dim = Date::days_in_month(self.year, self.month - 1);
            Date { year: self.year, month: self.month - 1, day: dim }
        } else {
            proof {
                lemma_days_before_month_total(self.year as int - 1);
                reveal_with_fuel(spec_days_before_month, 14);
            }
            Date { year: self.year - 1, month: 12, day: 31 }
        }
    }

    /// The date one day later.
    pub fn next_day(&self) -> (r: Date)
        requires
            spec_valid_date(*self),
            spec_day_number(*self) < spec_max_day_number(),
        ensures
            spec_valid_date(r),
            spec_day_number(r) == spec_day_number(*self) + 1,
    {
        let dim = Date::days_in_month(self.year, self.month);
        if self.day < dim {
            Date { year: self.year, month: self.month, day: self.day + 1 }
        } else if self.month < 12 {
            Date { year: self.year, month: self.month + 1, day: 1 }
        } else {
            proof {
                lemma_days_before_month_total(self.year as int);
                reveal_with_fuel(spec_days_before_month, 14);
                if self.year == 9999 {
                    assert(spec_day_number(*self) == spec_max_day_number());
                }
            }
            Date { year: self.year + 1, month: 1, day: 1 }
        }
    }
}

/// The Monday of the week containing `today`: the unique well-formed date
/// whose day index lies a weekday offset before `today`'s.
pub open spec fn spec_week_start(today: Date) -> Date {
    choose|d: Date|
        spec_valid_date(d) && #[trigger] spec_day_number(d) == spec_day_number(today)
            - spec_weekday_offset(today)
}

/// The Sunday of the week containing `today`.
pub open spec fn spec_week_end(today: Date) -> Date {
    choose|d: Date|
        spec_valid_date(d) && #[trigger] spec_day_number(d) == spec_day_number(today)
            - spec_weekday_offset(today) + 6
}

/// A well-formed date with the day index of `spec_week_start(today)` is
/// that very date: day numbering is injective.
pub proof fn lemma_week_start_unique(today: Date, m: Date)
    requires
        spec_valid_date(m),
        spec_day_number(m) == spec_day_number(today) - spec_weekday_offset(today),
    ensures
        spec_week_start(today) == m,
{
    assert(spec_valid_date(m) && spec_day_number(m) == spec_day_number(today)
        - spec_weekday_offset(today));
    let c = spec_week_start(today);
    assert(spec_valid_date(c) && spec_day_number(c) == spec_day_number(today)
        - spec_weekday_offset(today));
    lemma_date_le_day_number(c, m);
}

/// A well-formed date with the day index of `spec_week_end(today)` is
/// that very date.
pub proof fn lemma_week_end_unique(today: Date, s: Date)
    requires
        spec_valid_date(s),
        spec_day_number(s) == spec_day_number(today) - spec_weekday_offset(today) + 6,
    ensures
        spec_week_end(today) == s,
{
    assert(spec_valid_date(s) && spec_day_number(s) == spec_day_number(today)
        - spec_weekday_offset(today) + 6);
    let c = spec_week_end(today);
    assert(spec_valid_date(c) && spec_day_number(c) == spec_day_number(today)
        - spec_weekday_offset(today) + 6);
    lemma_date_le_day_number(c, s);
}

/// The window of the week containing `today`: its Monday and its Sunday.
pub fn week_range(today: &Date) -> (r: (Date, Date))
    requires
        spec_valid_date(*today),
        1 <= today.year <= 9998,
    ensures
        spec_valid_date(r.0),
        spec_valid_date(r.1),
        spec_day_number(r.0) == spec_day_number(*today) - spec_weekday_offset(*today),
        spec_day_number(r.1) == spec_day_number(r.0) + 6,
        spec_weekday_offset(r.0) == 0,
        spec_weekday_offset(r.1) == 6,
        spec_date_le(r.0, *today),
        spec_date_le(*today, r.1),
        r.0 == spec_week_start(*today),
        r.1 == spec_week_end(*today),
{
    let wd = today.weekday_offset();
    proof {
        lemma_days_before_year_bounds(today.year as int);
        lemma_days_before_month_bounds(today.year as int, today.month as int);
        lemma_day_number_within_year(*today);
        lemma_days_before_year_mono(today.year as int + 1, 9999);
        lemma_days_before_year_bounds(9999);
        lemma_days_before_month_bounds(9999, 12);
    }
    let mut monday: Date = *today;
    let mut i: u32 = 0;
    while i < wd
        invariant
            i <= wd < 7,
            spec_valid_date(monday),
            spec_valid_date(*today),
            spec_day_number(monday) == spec_day_number(*today) - i,
            spec_day_number(*today) >= 365,
        decreases wd - i,
    {
        monday = monday.prev_day();
        i = i + 1;
    }
    let mut sunday: Date = monday;
    let mut j: u32 = 0;
    while j < 6
        invariant
            j <= 6,
            spec_valid_date(sunday),
            spec_day_number(sunday) == spec_day_number(monday) - 0 + j,
            spec_day_number(monday) + 6 < spec_max_day_number(),
        decreases 6 - j,
    {
        sunday = sunday.next_day();
        j = j + 1;
    }
    proof {
        lemma_date_le_day_number(monday, *today);
        lemma_date_le_day_number(*today, sunday);
        lemma_week_start_unique(*today, monday);
        lemma_week_end_unique(*today, sunday);
    }
    (monday, sunday)
}

/// The window of the month containing `today`: its first and last day.
pub fn month_range(today: &Date) -> (r: (Date, Date))
    requires
        spec_valid_date(*today),
    ensures
        r.0 == (Date { year: today.year, month: today.month, day: 1 }),
        r.1 == (Date {
            year: today.year,
            month: today.month,
            day: spec_days_in_month(today.year as int, today.month as int) as u32,
        }),
        spec_valid_date(r.0),
        spec_valid_date(r.1),
        spec_date_le(r.0, *today),
        spec_date_le(*today, r.1),
{
    let first = Date { year: today.year, month: today.month, day: 1 };
    let last = Date {
        year: today.year,
        month: today.month,
        day: Date::days_in_month(today.year, today.month),
    };
    (first, last)
}

/// True when `c` is a decimal digit.
pub open spec fn spec_is_digit(c: char) -> bool {
    '0' <= c && c <= '9'
}

/// The value of a decimal digit character.
pub open spec fn spec_digit_val(c: char) -> int {
    c as int - 48
}

/// The ten characters of a date: a four-digit year, a two-digit month and
/// a two-digit day, separated by hyphens.
pub open spec fn spec_date_chars(d: Date) -> Seq<char> {
    seq![
        spec_digit_char(d.year as int / 1000),
        spec_digit_char((d.year as int / 100) % 10),
        spec_digit_char((d.year as int / 10) % 10),
        spec_digit_char(d.year as int % 10),
        '-',
        spec_digit_char(d.month as int / 10),
        spec_digit_char(d.month as int % 10),
        '-',
        spec_digit_char(d.day as int / 10),
        spec_digit_char(d.day as int % 10),
    ]
}

/// The date a ten-character text denotes, when it is well-formed.
pub open spec fn spec_parse_date(s: Seq<char>) -> Option<Date> {
    if s.len() == 10 && spec_is_digit(s[0]) && spec_is_digit(s[1]) && spec_is_digit(s[2])
        && spec_is_digit(s[3]) && s[4] == '-' && spec_is_digit(s[5]) && spec_is_digit(s[6]) && s[7]
        == '-' && spec_is_digit(s[8]) && spec_is_digit(s[9]) {
        let d = Date {
            year: (1000 * spec_digit_val(s[0]) + 100 * spec_digit_val(s[1]) + 10 * spec_digit_val(
                s[2],
            ) + spec_digit_val(s[3])) as u32,
            month: (10 * spec_digit_val(s[5]) + spec_digit_val(s[6])) as u32,
            day: (10 * spec_digit_val(s[8]) + spec_digit_val(s[9])) as u32,
        };
        if spec_valid_date(d) {
            Some(d)
        } else {
            None
        }
    } else {
        None
    }
}

/// A four-digit number is rebuilt from its decimal digits.
proof fn lemma_four_digits(y: int)
    requires
        0 <= y <= 9999,
    ensures
        0 <= y / 1000 <= 9,
        0 <= (y / 100) % 10 <= 9,
        0 <= (y / 10) % 10 <= 9,
        0 <= y % 10 <= 9,
        1000 * (y / 1000) + 100 * ((y / 100) % 10) + 10 * ((y / 10) % 10) + y % 10 == y,
{
    vstd::arithmetic::div_mod::lemma_div_denominator(y, 10, 10);
    vstd::arithmetic::div_mod::lemma_div_denominator(y, 100, 10);
    assert(y == 10 * (y / 10) + y % 10);
    assert(y / 10 == 10 * ((y / 10) / 10) + (y / 10) % 10);
    assert(y / 100 == 10 * ((y / 100) / 10) + (y / 100) % 10);
    assert((y / 10) / 10 == y / 100);
    assert((y / 100) / 10 == y / 1000);
}

/// A two-digit number is rebuilt from its decimal digits.
proof fn lemma_two_digits(m: int)
    requires
        0 <= m <= 99,
    ensures
        0 <= m / 10 <= 9,
        0 <= m % 10 <= 9,
        10 * (m / 10) + m % 10 == m,
{
}

/// A digit character carries its digit back.
pub proof fn lemma_digit_char_val(x: int)
    requires
        0 <= x <= 9,
    ensures
        spec_is_digit(spec_digit_char(x)),
        spec_digit_val(spec_digit_char(x)) == x,
{
}

/// Formatting a well-formed date yields a text that parses back to it.
pub proof fn lemma_date_chars_parse(d: Date)
    requires
        spec_valid_date(d),
    ensures
        spec_parse_date(spec_date_chars(d)) == Some(d),
{
    let s = spec_date_chars(d);
    lemma_four_digits(d.year as int);
    lemma_two_digits(d.month as int);
    lemma_two_digits(d.day as int);
    lemma_digit_char_val(d.year as int / 1000);
    lemma_digit_char_val((d.year as int / 100) % 10);
    lemma_digit_char_val((d.year as int / 10) % 10);
    lemma_digit_char_val(d.year as int % 10);
    lemma_digit_char_val(d.month as int / 10);
    lemma_digit_char_val(d.month as int % 10);
    lemma_digit_char_val(d.day as int / 10);
    lemma_digit_char_val(d.day as int % 10);
    assert(spec_digit_val(s[0]) == d.year as int / 1000);
    assert(spec_digit_val(s[1]) == (d.year as int / 100) % 10);
    assert(spec_digit_val(s[2]) == (d.year as int / 10) % 10);
    assert(spec_digit_val(s[3]) == d.year as int % 10);
}

/// Every character of a written date is a digit or a hyphen: never a
/// quote, a backslash, or a control character.
pub proof fn lemma_date_chars_digits(d: Date, k: int)
    requires
        spec_valid_date(d),
        0 <= k < spec_date_chars(d).len(),
    ensures
        spec_date_chars(d)[k] != '"',
        spec_date_chars(d)[k] != '\\',
        spec_date_chars(d)[k] as int >= 32,
{
    lemma_four_digits(d.year as int);
    lemma_two_digits(d.month as int);
    lemma_two_digits(d.day as int);
}

impl Date {
    /// Reads a single digit at position `i` of `s`.
    fn digit_at(s: &str, i: usize) -> (r: Option<u32>)
        requires
            i < s@.len(),
        ensures
            spec_is_digit(s@[i as int]) ==> r == Some(spec_digit_val(s@[i as int]) as u32),
            !spec_is_digit(s@[i as int]) ==> r is None,
    {
        let c = s.get_char(i);
        if '0' <= c && c <= '9' {
            Some(c as u32 - 48)
        } else {
            None
        }
    }

    /// Reads a date from its ten-character form, rejecting any other text
    /// and any day that does not exist in the calendar.
    pub fn parse_date_str(s: &str) -> (r: Result<Date, TdError>)
        ensures
            r == (match spec_parse_date(s@) {
                Some(d) => Ok::<Date, TdError>(d),
                None => Err::<Date, TdError>(TdError::InvalidDate),
            }),
    {
        if s.unicode_len() != 10 {
            return Err(TdError::InvalidDate);
        }
        if s.get_char(4) != '-' || s.get_char(7) != '-' {
            return Err(TdError::InvalidDate);
        }
        let y0 = Date::digit_at(s, 0);
        let y1 = Date::digit_at(s, 1);
        let y2 = Date::digit_at(s, 2);
        let y3 = Date::digit_at(s, 3);
        let m0 = Date::digit_at(s, 5);
        let m1 = Date::digit_at(s, 6);
        let d0 = Date::digit_at(s, 8);
        let d1 = Date::digit_at(s, 9);
        match (y0, y1, y2, y3, m0, m1, d0, d1) {
            (
                Some(y0),
                Some(y1),
                Some(y2),
                Some(y3),
                Some(m0),
                Some(m1),
                Some(d0),
                Some(d1),
            ) => {
                let d = Date {
                    year: 1000 * y0 + 100 * y1 + 10 * y2 + y3,
                    month: 10 * m0 + m1,
                    day: 10 * d0 + d1,
                };
                if d.is_valid() {
                    Ok(d)
                } else {
                    Err(TdError::InvalidDate)
                }
            },
            _ => Err(TdError::InvalidDate),
        }
    }

    /// Writes the date in its ten-character form.
    pub fn format_date(&self) -> (r: String)
        requires
            spec_valid_date(*self),
        ensures
            r@ == spec_date_chars(*self),
    {
        proof {
            reveal_strlit("-");
        }
        let mut out = dec_string((self.year / 1000) as usize);
        out.append(digit_str(((self.year / 100) % 10) as usize));
        out.append(digit_str(((self.year / 10) % 10) as usize));
        out.append(digit_str((self.year % 10) as usize));
        out.append("-");
        out.append(digit_str((self.month / 10) as usize));
        out.append(digit_str((self.month % 10) as usize));
        out.append("-");
        out.append(digit_str((self.day / 10) as usize));
        out.append(digit_str((self.day % 10) as usize));
        proof {
            assert(out@ =~= spec_date_chars(*self));
        }
        out
    }
}

/// Whole days from `from` up to the later date `to`.
pub fn days_between(from: &Date, to: &Date) -> (r: u32)
    requires
        spec_valid_date(*from),
        spec_valid_date(*to),
        spec_date_le(*from, *to),
    ensures
        r == spec_day_number(*to) - spec_day_number(*from),
{
    proof {
        lemma_date_le_day_number(*from, *to);
    }
    to.day_number() - from.day_number()
}

} // verus!
