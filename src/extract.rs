//! Extraction of a warning's outline, issue time and style from its record text.
use vstd::prelude::*;
use crate::date::{digits_value, month_length, read_digits, valid_date};
use crate::error::HttpError;
use crate::records::{Style, style_of, warning_color};
use crate::text::{is_digit, is_digit_byte, is_space, is_space_byte, matches_at, occurs_at};

verus! {

/// `LAT...LON ` followed by a space.
pub open spec fn path_marker() -> Seq<u8> {
    seq![76u8, 65u8, 84u8, 46u8, 46u8, 46u8, 76u8, 79u8, 78u8, 32u8]
}

/// A path block starts at `i`: the marker, then a digit or whitespace.
pub open spec fn path_at(s: Seq<u8>, i: int) -> bool {
    occurs_at(s, path_marker(), i) && i + 10 < s.len() && (is_digit(s[i + 10]) || is_space(
        s[i + 10],
    ))
}

/// The first path block at or after `i`, or -1.
pub open spec fn path_from(s: Seq<u8>, i: int) -> int
    decreases s.len() - i,
{
    if i < 0 || i >= s.len() {
        -1
    } else if path_at(s, i) {
        i
    } else {
        path_from(s, i + 1)
    }
}

/// The end of the run of digits that starts at `i`.
pub open spec fn digit_run_end(s: Seq<u8>, i: int) -> int
    decreases s.len() - i,
{
    if 0 <= i < s.len() && is_digit(s[i]) {
        digit_run_end(s, i + 1)
    } else {
        i
    }
}

/// The whitespace-separated numbers written from `i` on, up to the first byte that
/// is neither a digit nor whitespace.
pub open spec fn numbers_from(s: Seq<u8>, i: int) -> Seq<int>
    decreases s.len() - i,
{
    if i < 0 || i >= s.len() {
        seq![]
    } else if is_space(s[i]) {
        numbers_from(s, i + 1)
    } else if is_digit(s[i]) && i < digit_run_end(s, i) <= s.len() {
        seq![digits_value(s, i, digit_run_end(s, i))] + numbers_from(s, digit_run_end(s, i))
    } else {
        seq![]
    }
}

/// Every number in the run that starts at `i` has at most nine digits.
pub open spec fn runs_fit(s: Seq<u8>, i: int) -> bool
    decreases s.len() - i,
{
    if i < 0 || i >= s.len() {
        true
    } else if is_space(s[i]) {
        runs_fit(s, i + 1)
    } else if is_digit(s[i]) && i < digit_run_end(s, i) <= s.len() {
        digit_run_end(s, i) - i <= 9 && runs_fit(s, digit_run_end(s, i))
    } else {
        true
    }
}

/// The coordinate values of a record's path block, in hundredths of a degree: the
/// numbers after the marker but the first, which counts points. `None` when there
/// is no path block, a number has more than nine digits, or fewer than two values remain.
pub open spec fn components_of(s: Seq<u8>) -> Option<Seq<int>> {
    let p = path_from(s, 0);
    if p < 0 || !runs_fit(s, p + 10) || numbers_from(s, p + 10).len() < 3 {
        None
    } else {
        Some(numbers_from(s, p + 10).subrange(1, numbers_from(s, p + 10).len() as int))
    }
}

/// The closed ring of (latitude, longitude) vertices: values taken in pairs, a
/// trailing odd value dropped, and the first vertex repeated at the end.
pub open spec fn ring_of(c: Seq<int>) -> Seq<(int, int)> {
    let v = Seq::new((c.len() / 2) as nat, |k: int| (c[2 * k], c[2 * k + 1]));
    v.push(v[0])
}

/// An issue time token starts at `i`: it follows a byte other than a line feed, and
/// reads six digits, `T`, four digits, `Z`, `-`.
pub open spec fn stamp_at(s: Seq<u8>, i: int) -> bool {
    1 <= i && i + 13 <= s.len() && s[i - 1] != 10 && (forall|j: int|
        i <= j < i + 11 && j != i + 6 ==> is_digit(#[trigger] s[j])) && s[i + 6] == 84 && s[i
        + 11] == 90 && s[i + 12] == 45
}

/// The first issue time token at or after `i`, or -1.
pub open spec fn stamp_from(s: Seq<u8>, i: int) -> int
    decreases s.len() - i,
{
    if i < 0 || i >= s.len() {
        -1
    } else if stamp_at(s, i) {
        i
    } else {
        stamp_from(s, i + 1)
    }
}

/// A UTC minute.
#[derive(Clone, Copy, Debug, PartialEq, Eq, Structural)]
pub struct Stamp {
    pub year: u32,
    pub month: u32,
    pub day: u32,
    pub hour: u32,
    pub minute: u32,
}

impl Stamp {
    pub open spec fn wf(self) -> bool {
        valid_date(self.year as int, self.month as int, self.day as int) && self.hour < 24
            && self.minute < 60 && 1970 <= self.year <= 2069
    }
}

/// A two-digit year: 00 to 69 are 2000 to 2069, 70 to 99 are 1970 to 1999.
pub open spec fn full_year(yy: int) -> int {
    if yy < 70 {
        2000 + yy
    } else {
        1900 + yy
    }
}

/// The fields of the token `YYMMDDTHHMMZ` that starts at `i`.
pub open spec fn stamp_fields(s: Seq<u8>, i: int) -> Stamp {
    Stamp {
        year: full_year(digits_value(s, i, i + 2)) as u32,
        month: digits_value(s, i + 2, i + 4) as u32,
        day: digits_value(s, i + 4, i + 6) as u32,
        hour: digits_value(s, i + 7, i + 9) as u32,
        minute: digits_value(s, i + 9, i + 11) as u32,
    }
}

/// The issue time of a record: its first time token, if that names a real minute.
pub open spec fn stamp_of(s: Seq<u8>) -> Option<Stamp> {
    let i = stamp_from(s, 0);
    if i >= 0 && stamp_fields(s, i).wf() {
        Some(stamp_fields(s, i))
    } else {
        None
    }
}

/// What a warning is, as values.
pub struct WarningModel {
    pub ring: Seq<(int, int)>,
    pub stamp: Stamp,
    pub style: Style,
}

/// The warning that a valid record describes, or `None` when its path block or
/// issue time is missing or malformed.
pub open spec fn warning_of(s: Seq<u8>) -> Option<WarningModel> {
    match (components_of(s), stamp_of(s)) {
        (Some(c), Some(t)) => Some(WarningModel { ring: ring_of(c), stamp: t, style: style_of(s) }),
        _ => None,
    }
}

/// A warning: its closed outline in hundredths of a degree, issue time and style.
pub struct Warning {
    /// (latitude, longitude) vertices; the last repeats the first.
    pub ring: Vec<(u32, u32)>,
    pub stamp: Stamp,
    pub style: Style,
}

pub open spec fn ring_view(r: Seq<(u32, u32)>) -> Seq<(int, int)> {
    r.map_values(|p: (u32, u32)| (p.0 as int, p.1 as int))
}

pub open spec fn ints_view(v: Seq<u32>) -> Seq<int> {
    v.map_values(|x: u32| x as int)
}

impl Warning {
    pub open spec fn model(&self) -> WarningModel {
        WarningModel { ring: ring_view(self.ring@), stamp: self.stamp, style: self.style }
    }
}

/// The first path block in `s`.
fn find_path(s: &[u8]) -> (r: Option<usize>)
    ensures
        match r {
            Some(p) => p as int == path_from(s@, 0) && p + 10 < s.len(),
            None => path_from(s@, 0) < 0,
        },
{
    let marker: [u8; 10] = [76, 65, 84, 46, 46, 46, 76, 79, 78, 32];
    assert(marker@ =~= path_marker());
    let mut i: usize = 0;
    while i < s.len()
        invariant
            i <= s.len(),
            marker@ == path_marker(),
            path_from(s@, i as int) == path_from(s@, 0),
        decreases s.len() - i,
    {
        if matches_at(s, marker.as_slice(), i) && i + 10 < s.len() && (is_digit_byte(s[i + 10])
            || is_space_byte(s[i + 10])) {
            return Some(i);
        }
        i += 1;
    }
    None
}

/// Reads the run of digits at `i`; `None` when it has more than nine digits.
fn read_number(s: &[u8], i: usize) -> (r: Option<(usize, u32)>)
    requires
        i < s.len(),
        is_digit(s@[i as int]),
    ensures
        match r {
            Some((e, v)) => e as int == digit_run_end(s@, i as int) && i < e <= s.len() && e - i
                <= 9 && v as int == digits_value(s@, i as int, e as int),
            None => digit_run_end(s@, i as int) - i > 9,
        },
{
    let mut j: usize = i;
    let mut v: u32 = 0;
    while j < s.len() && is_digit_byte(s[j]) && j - i < 9
        invariant
            i <= j <= s.len(),
            j - i <= 9,
            digit_run_end(s@, j as int) == digit_run_end(s@, i as int),
            v as int == digits_value(s@, i as int, j as int),
            j - i <= 1 ==> v < 10,
            j - i <= 2 ==> v < 100,
            j - i <= 3 ==> v < 1000,
            j - i <= 4 ==> v < 10000,
            j - i <= 5 ==> v < 100000,
            j - i <= 6 ==> v < 1000000,
            j - i <= 7 ==> v < 10000000,
            j - i <= 8 ==> v < 100000000,
            v < 1000000000,
        decreases s.len() - j,
    {
        v = v * 10 + (s[j] - 48) as u32;
        j += 1;
    }
    if j < s.len() && is_digit_byte(s[j]) {
        assert(digit_run_end(s@, j as int) > j) by {
            assert(digit_run_end(s@, j as int) == digit_run_end(s@, j + 1));
            lemma_run_end_after(s@, j as int + 1);
        }
        return None;
    }
    Some((j, v))
}

proof fn lemma_run_end_after(s: Seq<u8>, i: int)
    ensures
        digit_run_end(s, i) >= i,
        0 <= i <= s.len() ==> digit_run_end(s, i) <= s.len(),
    decreases s.len() - i,
{
    if 0 <= i < s.len() && is_digit(s[i]) {
        lemma_run_end_after(s, i + 1);
    }
}

/// The numbers written from `start` on; `None` when one has more than nine digits.
fn read_numbers(s: &[u8], start: usize) -> (r: Option<Vec<u32>>)
    requires
        start <= s.len(),
    ensures
        match r {
            Some(v) => runs_fit(s@, start as int) && ints_view(v@) == numbers_from(
                s@,
                start as int,
            ),
            None => !runs_fit(s@, start as int),
        },
{
    let mut out: Vec<u32> = Vec::new();
    let mut i: usize = start;
    while i < s.len() && (is_space_byte(s[i]) || is_digit_byte(s[i]))
        invariant
            start <= i <= s.len(),
            runs_fit(s@, i as int) == runs_fit(s@, start as int),
            ints_view(out@) + numbers_from(s@, i as int) == numbers_from(s@, start as int),
        decreases s.len() - i,
    {
        if is_space_byte(s[i]) {
            i += 1;
        } else {
            proof {
                lemma_run_end_after(s@, i as int);
            }
            match read_number(s, i) {
                None => return None,
                Some((e, v)) => {
                    let ghost before = out@;
                    out.push(v);
                    assert(ints_view(out@) =~= ints_view(before).push(v as int));
                    assert(ints_view(out@) + numbers_from(s@, e as int) =~= ints_view(before)
                        + numbers_from(s@, i as int));
                    i = e;
                },
            }
        }
    }
    assert(ints_view(out@) =~= ints_view(out@) + numbers_from(s@, i as int));
    Some(out)
}

/// Pairs the coordinate values into vertices and closes the ring.
fn close_ring(c: &Vec<u32>) -> (r: Vec<(u32, u32)>)
    requires
        c@.len() >= 2,
    ensures
        ring_view(r@) == ring_of(ints_view(c@)),
{
    let ghost cv = ints_view(c@);
    let ghost v = Seq::new((cv.len() / 2) as nat, |k: int| (cv[2 * k], cv[2 * k + 1]));
    let mut out: Vec<(u32, u32)> = Vec::new();
    let mut k: usize = 0;
    while k < c.len() / 2
        invariant
            k <= c@.len() / 2,
            cv == ints_view(c@),
            v == Seq::new((cv.len() / 2) as nat, |k: int| (cv[2 * k], cv[2 * k + 1])),
            ring_view(out@) == v.subrange(0, k as int),
        decreases c.len() / 2 - k,
    {
        let ghost before = out@;
        out.push((c[2 * k], c[2 * k + 1]));
        assert(cv[2 * k] == c@[2 * k] as int && cv[2 * k + 1] == c@[2 * k + 1] as int);
        assert(ring_view(out@) =~= ring_view(before).push(
            (c@[2 * k] as int, c@[2 * k + 1] as int),
        ));
        assert(ring_view(out@) =~= v.subrange(0, k + 1));
        k += 1;
    }
    let first = out[0];
    let ghost before = out@;
    out.push(first);
    assert(ring_view(out@) =~= ring_view(before).push((first.0 as int, first.1 as int)));
    assert(v.subrange(0, k as int) =~= v);
    out
}

/// The first time token in `s`.
fn find_stamp(s: &[u8]) -> (r: Option<usize>)
    ensures
        match r {
            Some(i) => i as int == stamp_from(s@, 0) && stamp_at(s@, i as int),
            None => stamp_from(s@, 0) < 0,
        },
{
    let mut i: usize = 0;
    while i < s.len()
        invariant
            i <= s.len(),
            stamp_from(s@, i as int) == stamp_from(s@, 0),
        decreases s.len() - i,
    {
        if i >= 1 && s.len() - i >= 13 && s[i - 1] != 10 && s[i + 6] == 84 && s[i + 11] == 90
            && s[i + 12] == 45 {
            let mut j: usize = i;
            let mut ok = true;
            while j < i + 11
                invariant
                    i <= j <= i + 11,
                    i + 13 <= s.len(),
                    ok ==> forall|m: int| i <= m < j && m != i + 6 ==> is_digit(#[trigger] s@[m]),
                    !ok ==> !stamp_at(s@, i as int),
                decreases i + 11 - j,
            {
                if j != i + 6 && !is_digit_byte(s[j]) {
                    ok = false;
                }
                j += 1;
            }
            if ok {
                return Some(i);
            }
        }
        i += 1;
    }
    None
}

/// The issue time written in the record, if it has a token naming a real minute.
fn read_stamp(s: &[u8]) -> (r: Option<Stamp>)
    ensures
        r == stamp_of(s@),
{
    let i = match find_stamp(s) {
        Some(i) => i,
        None => return None,
    };
    assert(stamp_at(s@, i as int));
    let n = s.len();
    assert(i + 13 <= n);
    let yy = read_digits(s, i, i + 2);
    let year = if yy < 70 {
        2000 + yy
    } else {
        1900 + yy
    };
    let month = read_digits(s, i + 2, i + 4);
    let day = read_digits(s, i + 4, i + 6);
    let hour = read_digits(s, i + 7, i + 9);
    let minute = read_digits(s, i + 9, i + 11);
    if month < 1 || month > 12 || day < 1 || day > month_length(year, month) || hour >= 24
        || minute >= 60 {
        return None;
    }
    Some(Stamp { year, month, day, hour, minute })
}

/// The warning described by a record: its path block, first time token and
/// severity. Fails with `ExtractionFault` when the path block or the time is
/// missing or malformed.
pub fn extract_warning(text: &[u8]) -> (r: Result<Warning, HttpError>)
    ensures
        match warning_of(text@) {
            Some(m) => r matches Ok(w) && w.model() == m && w.stamp.wf(),
            None => r == Err::<Warning, HttpError>(HttpError::ExtractionFault),
        },
{
    let p = match find_path(text) {
        Some(p) => p,
        None => return Err(HttpError::ExtractionFault),
    };
    let numbers = match read_numbers(text, p + 10) {
        Some(v) => v,
        None => return Err(HttpError::ExtractionFault),
    };
    if numbers.len() < 3 {
        return Err(HttpError::ExtractionFault);
    }
    let mut components: Vec<u32> = Vec::new();
    let mut k: usize = 1;
    while k < numbers.len()
        invariant
            1 <= k <= numbers@.len(),
            ints_view(components@) == ints_view(numbers@).subrange(1, k as int),
        decreases numbers.len() - k,
    {
        let ghost before = components@;
        components.push(numbers[k]);
        assert(ints_view(components@) =~= ints_view(before).push(numbers@[k as int] as int));
        k += 1;
        assert(ints_view(components@) =~= ints_view(numbers@).subrange(1, k as int));
    }
    let stamp = match read_stamp(text) {
        Some(t) => t,
        None => return Err(HttpError::ExtractionFault),
    };
    let ring = close_ring(&components);
    let style = warning_color(text);
    Ok(Warning { ring, stamp, style })
}

/// The outline of every extracted warning is closed: its last vertex repeats its first.
pub proof fn lemma_ring_closed(s: Seq<u8>)
    requires
        warning_of(s) is Some,
    ensures
        warning_of(s).unwrap().ring.len() >= 2,
        warning_of(s).unwrap().ring.last() == warning_of(s).unwrap().ring[0],
{
}

} // verus!
