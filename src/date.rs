//! Calendar dates in the proleptic Gregorian calendar, with a day numbering.
use vstd::prelude::*;
use crate::text::{is_digit, is_digit_byte};

verus! {

/// A calendar date.
#[derive(Clone, Copy, Debug, PartialEq, Eq, Structural)]
pub struct Date {
    pub year: u32,
    pub month: u32,
    pub day: u32,
}

pub open spec fn is_leap(y: int) -> bool {
    y % 4 == 0 && (y % 100 != 0 || y % 400 == 0)
}

pub open spec fn days_in_month(y: int, m: int) -> int {
    if m == 2 {
        if is_leap(y) {
            29
        } else {
            28
        }
    } else if m == 4 || m == 6 || m == 9 || m == 11 {
        30
    } else {
        31
    }
}

pub open spec fn year_length(y: int) -> int {
    if is_leap(y) {
        366
    } else {
        365
    }
}

/// Days of year `y` that come before the first of month `m`.
pub open spec fn days_before_month(y: int, m: int) -> int
    decreases m,
{
    if m <= 1 {
        0
    } else {
        days_before_month(y, m - 1) + days_in_month(y, m - 1)
    }
}

/// Days from the first of January of year 0 to the first of January of year `y`.
pub open spec fn days_before_year(y: int) -> int
    decreases y,
{
    if y <= 0 {
        0
    } else {
        days_before_year(y - 1) + year_length(y - 1)
    }
}

pub open spec fn valid_date(y: int, m: int, d: int) -> bool {
    1 <= m <= 12 && 1 <= d <= days_in_month(y, m)
}

/// Days since the first of January of year 0.
pub open spec fn day_number(d: Date) -> int {
    days_before_year(d.year as int) + days_before_month(d.year as int, d.month as int) + d.day - 1
}

/// `a` is on or before `b`, comparing year, then month, then day.
pub open spec fn on_or_before(a: Date, b: Date) -> bool {
    a.year < b.year || (a.year == b.year && (a.month < b.month || (a.month == b.month && a.day
        <= b.day)))
}

impl Date {
    /// A real date whose year has at most four digits.
    pub open spec fn wf(self) -> bool {
        valid_date(self.year as int, self.month as int, self.day as int) && self.year <= 9999
    }
}

proof fn lemma_month_prefix(y: int, m1: int, m2: int)
    requires
        1 <= m1 < m2 <= 13,
    ensures
        days_before_month(y, m1) + days_in_month(y, m1) <= days_before_month(y, m2),
    decreases m2,
{
    if m2 > m1 + 1 {
        lemma_month_prefix(y, m1, m2 - 1);
    }
}

proof fn lemma_year_total(y: int)
    ensures
        days_before_month(y, 13) == year_length(y),
{
    reveal_with_fuel(days_before_month, 13);
}

proof fn lemma_year_prefix(y1: int, y2: int)
    requires
        0 <= y1 < y2,
    ensures
        days_before_year(y1) + year_length(y1) <= days_before_year(y2),
    decreases y2,
{
    if y2 > y1 + 1 {
        lemma_year_prefix(y1, y2 - 1);
    }
}

/// A date's number falls inside its year.
proof fn lemma_within_year(d: Date)
    requires
        valid_date(d.year as int, d.month as int, d.day as int),
    ensures
        days_before_year(d.year as int) <= day_number(d) < days_before_year(d.year as int)
            + year_length(d.year as int),
{
    lemma_year_total(d.year as int);
    lemma_month_prefix(d.year as int, d.month as int, 13);
    if d.month > 1 {
        lemma_month_prefix(d.year as int, 1, d.month as int);
    }
}

/// Calendar order and day-number order agree.
pub proof fn lemma_order_by_number(a: Date, b: Date)
    requires
        valid_date(a.year as int, a.month as int, a.day as int),
        valid_date(b.year as int, b.month as int, b.day as int),
    ensures
        on_or_before(a, b) <==> day_number(a) <= day_number(b),
        day_number(a) == day_number(b) ==> a == b,
{
    lemma_within_year(a);
    lemma_within_year(b);
    if a.year < b.year {
        lemma_year_prefix(a.year as int, b.year as int);
    } else if b.year < a.year {
        lemma_year_prefix(b.year as int, a.year as int);
    } else if a.month < b.month {
        lemma_month_prefix(a.year as int, a.month as int, b.month as int);
    } else if b.month < a.month {
        lemma_month_prefix(b.year as int, b.month as int, a.month as int);
    }
}

pub fn month_length(year: u32, month: u32) -> (r: u32)
    ensures
        r == days_in_month(year as int, month as int),
{
    if month == 2 {
        if year % 4 == 0 && (year % 100 != 0 || year % 400 == 0) {
            29
        } else {
            28
        }
    } else if month == 4 || month == 6 || month == 9 || month == 11 {
        30
    } else {
        31
    }
}

impl Date {
    /// The day after this one.
    pub fn next_day(&self) -> (r: Date)
        requires
            valid_date(self.year as int, self.month as int, self.day as int),
            self.year < 10000,
        ensures
            valid_date(r.year as int, r.month as int, r.day as int),
            r.year <= self.year + 1,
            day_number(r) == day_number(*self) + 1,
    {
        if self.day < month_length(self.year, self.month) {
            Date { year: self.year, month: self.month, day: self.day + 1 }
        } else if self.month < 12 {
            Date { year: self.year, month: self.month + 1, day: 1 }
        } else {
            proof {
                reveal_with_fuel(days_before_month, 13);
            }
            Date { year: self.year + 1, month: 1, day: 1 }
        }
    }

    /// Whether this date is on or before `other`.
    pub fn is_on_or_before(&self, other: &Date) -> (r: bool)
        ensures
            r == on_or_before(*self, *other),
    {
        self.year < other.year || (self.year == other.year && (self.month < other.month || (
        self.month == other.month && self.day <= other.day)))
    }
}

/// The value of the decimal digits `s[lo..hi]`.
pub open spec fn digits_value(s: Seq<u8>, lo: int, hi: int) -> int
    decreases hi - lo,
{
    if hi <= lo {
        0
    } else {
        digits_value(s, lo, hi - 1) * 10 + (s[hi - 1] - 48)
    }
}

/// The date written `YYYY-MM-DD` in `s`, if `s` is exactly such a real date.
pub open spec fn date_of(s: Seq<u8>) -> Option<Date> {
    if s.len() == 10 && s[4] == 45 && s[7] == 45 && (forall|i: int|
        0 <= i < 10 && i != 4 && i != 7 ==> is_digit(#[trigger] s[i])) && valid_date(
        digits_value(s, 0, 4),
        digits_value(s, 5, 7),
        digits_value(s, 8, 10),
    ) {
        Some(
            Date {
                year: digits_value(s, 0, 4) as u32,
                month: digits_value(s, 5, 7) as u32,
                day: digits_value(s, 8, 10) as u32,
            },
        )
    } else {
        None
    }
}

/// The value of the decimal digits `s[lo..hi]`, at most four of them.
pub fn read_digits(s: &[u8], lo: usize, hi: usize) -> (r: u32)
    requires
        lo <= hi <= s.len(),
        hi - lo <= 4,
        forall|i: int| lo <= i < hi ==> is_digit(#[trigger] s@[i]),
    ensures
        r == digits_value(s@, lo as int, hi as int),
        r < 10000,
        hi - lo <= 2 ==> r < 100,
{
    let mut v: u32 = 0;
    let mut k: usize = lo;
    while k < hi
        invariant
            lo <= k <= hi,
            hi <= s.len(),
            hi - lo <= 4,
            forall|i: int| lo <= i < hi ==> is_digit(#[trigger] s@[i]),
            v == digits_value(s@, lo as int, k as int),
            v < 1000 || k == hi,
            k - lo <= 1 ==> v < 10,
            k - lo <= 2 ==> v < 100,
            k - lo <= 3 ==> v < 1000,
            v < 10000,
        decreases hi - k,
    {
        assert(is_digit(s@[k as int]));
        v = v * 10 + (s[k] - 48) as u32;
        k += 1;
    }
    v
}

/// Reads a date written `YYYY-MM-DD`; `None` unless `s` is exactly such a real date.
pub fn parse_date(s: &[u8]) -> (r: Option<Date>)
    ensures
        r == date_of(s@),
        r matches Some(d) ==> d.wf(),
{
    if s.len() != 10 || s[4] != 45 || s[7] != 45 {
        return None;
    }
    let mut i: usize = 0;
    while i < 10
        invariant
            s.len() == 10,
            i <= 10,
            forall|j: int| 0 <= j < i && j != 4 && j != 7 ==> is_digit(#[trigger] s@[j]),
        decreases 10 - i,
    {
        if i != 4 && i != 7 && !is_digit_byte(s[i]) {
            return None;
        }
        i += 1;
    }
    let year = read_digits(s, 0, 4);
    let month = read_digits(s, 5, 7);
    let day = read_digits(s, 8, 10);
    if month < 1 || month > 12 || day < 1 || day > month_length(year, month) {
        return None;
    }
    Some(Date { year, month, day })
}

} // verus!
