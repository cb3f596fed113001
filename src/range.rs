//! The requested date range and the daily source documents it covers.
use vstd::prelude::*;
use vstd::string::StringSliceAdditionalSpecFns;
use crate::date::{Date, date_of, day_number, on_or_before, valid_date, lemma_order_by_number, parse_date};
use crate::error::HttpError;
use crate::query::{find_param, lookup, params_of, parse_params};
use crate::text::{decimal, two_digits, push_all, push_decimal, push_two_digits};

verus! {

/// Both ends of the requested range, inclusive.
#[derive(Clone, Copy, Debug, PartialEq, Eq, Structural)]
pub struct DateRange {
    pub start: Date,
    pub end: Date,
}

pub open spec fn start_key() -> Seq<u8> {
    seq![115u8, 116u8, 97u8, 114u8, 116u8]
}

pub open spec fn end_key() -> Seq<u8> {
    seq![101u8, 110u8, 100u8]
}

/// The range that the `start` and `end` parameters of a request target name.
pub open spec fn range_of(target: Seq<u8>) -> Option<DateRange> {
    let ps = params_of(target);
    match (lookup(ps, start_key()), lookup(ps, end_key())) {
        (Some(a), Some(b)) => match (date_of(a), date_of(b)) {
            (Some(s), Some(e)) => Some(DateRange { start: s, end: e }),
            _ => None,
        },
        _ => None,
    }
}

/// Reads the inclusive date range from the `start` and `end` parameters of a
/// request target. Each must be present and hold a real date written
/// `YYYY-MM-DD`; otherwise the request is bad. No order between them is required.
pub fn parse_times(target: &str) -> (r: Result<DateRange, HttpError>)
    ensures
        r == match range_of(target.spec_bytes()) {
            Some(range) => Ok::<DateRange, HttpError>(range),
            None => Err(HttpError::BadRequest),
        },
        r matches Ok(range) ==> range.start.wf() && range.end.wf(),
        lookup(params_of(target.spec_bytes()), start_key()) is None ==> r == Err::<
            DateRange,
            HttpError,
        >(HttpError::BadRequest),
        lookup(params_of(target.spec_bytes()), end_key()) is None ==> r == Err::<
            DateRange,
            HttpError,
        >(HttpError::BadRequest),
{
    let params = parse_params(target);
    let start_name: [u8; 5] = [115, 116, 97, 114, 116];
    let end_name: [u8; 3] = [101, 110, 100];
    assert(start_name@ =~= start_key());
    assert(end_name@ =~= end_key());
    let start_text = match find_param(&params, start_name.as_slice()) {
        Some(v) => v,
        None => return Err(HttpError::BadRequest),
    };
    let end_text = match find_param(&params, end_name.as_slice()) {
        Some(v) => v,
        None => return Err(HttpError::BadRequest),
    };
    let start = match parse_date(start_text.as_slice()) {
        Some(d) => d,
        None => return Err(HttpError::BadRequest),
    };
    let end = match parse_date(end_text.as_slice()) {
        Some(d) => d,
        None => return Err(HttpError::BadRequest),
    };
    Ok(DateRange { start, end })
}

/// The number of days from `start` to `end`, both included; zero when `start` is after `end`.
pub open spec fn day_count(range: DateRange) -> int {
    if on_or_before(range.start, range.end) {
        day_number(range.end) - day_number(range.start) + 1
    } else {
        0
    }
}

/// One date per calendar day of the range, in order, from `start` to `end`
/// inclusive; none when `start` is after `end`.
pub fn enumerate_days(range: &DateRange) -> (r: Vec<Date>)
    requires
        range.start.wf(),
        range.end.wf(),
    ensures
        r@.len() == day_count(*range),
        forall|i: int|
            0 <= i < r@.len() ==> (#[trigger] r@[i]).wf() && day_number(r@[i]) == day_number(
                range.start,
            ) + i,
{
    let mut out: Vec<Date> = Vec::new();
    let mut cur = range.start;
    while cur.is_on_or_before(&range.end)
        invariant
            range.start.wf(),
            range.end.wf(),
            valid_date(cur.year as int, cur.month as int, cur.day as int),
            day_number(cur) == day_number(range.start) + out@.len(),
            out@.len() == 0 ==> cur == range.start,
            out@.len() > 0 ==> day_number(cur) <= day_number(range.end) + 1,
            forall|i: int|
                0 <= i < out@.len() ==> (#[trigger] out@[i]).wf() && day_number(out@[i])
                    == day_number(range.start) + i,
        decreases day_number(range.end) + 1 - day_number(cur),
    {
        proof {
            lemma_order_by_number(cur, range.end);
        }
        out.push(cur);
        cur = cur.next_day();
    }
    proof {
        lemma_order_by_number(cur, range.end);
        lemma_order_by_number(range.start, range.end);
    }
    out
}

pub open spec fn archive_prefix() -> Seq<u8> {
    "https://mesonet.agron.iastate.edu/archive/data/".spec_bytes()
}

pub open spec fn archive_middle() -> Seq<u8> {
    "/text/noaaport/TOR_".spec_bytes()
}

pub open spec fn slash() -> Seq<u8> {
    seq![47u8]
}

pub open spec fn text_suffix() -> Seq<u8> {
    ".txt".spec_bytes()
}

/// The address of the archived tornado-warning document of one day.
pub open spec fn url_of(d: Date) -> Seq<u8> {
    archive_prefix() + decimal(d.year as nat) + slash() + two_digits(d.month as nat) + slash()
        + two_digits(d.day as nat) + archive_middle() + decimal(d.year as nat) + two_digits(
        d.month as nat,
    ) + two_digits(d.day as nat) + text_suffix()
}

/// The address of the archived tornado-warning document of the day `d`.
pub fn locator_url(d: &Date) -> (r: Vec<u8>)
    requires
        d.wf(),
    ensures
        r@ == url_of(*d),
{
    let mut out: Vec<u8> = Vec::new();
    push_all(&mut out, "https://mesonet.agron.iastate.edu/archive/data/".as_bytes());
    push_decimal(&mut out, d.year);
    out.push(47);
    push_two_digits(&mut out, d.month);
    out.push(47);
    push_two_digits(&mut out, d.day);
    push_all(&mut out, "/text/noaaport/TOR_".as_bytes());
    push_decimal(&mut out, d.year);
    push_two_digits(&mut out, d.month);
    push_two_digits(&mut out, d.day);
    push_all(&mut out, ".txt".as_bytes());
    assert(out@ =~= url_of(*d));
    out
}

/// The days of a range are exactly its calendar days: a real date lies between
/// `start` and `end` (both included) if and only if its offset from `start`, in
/// days, is below the range's day count; and two real dates at the same offset are
/// the same date.
pub proof fn lemma_day_count_is_calendar_days(range: DateRange, d: Date)
    requires
        range.start.wf(),
        range.end.wf(),
        valid_date(d.year as int, d.month as int, d.day as int),
    ensures
        (on_or_before(range.start, d) && on_or_before(d, range.end)) <==> (0 <= day_number(d)
            - day_number(range.start) < day_count(range)),
        forall|e: Date|
            valid_date(e.year as int, e.month as int, e.day as int) && day_number(e) == day_number(
                d,
            ) ==> e == d,
{
    lemma_order_by_number(range.start, d);
    lemma_order_by_number(d, range.end);
    lemma_order_by_number(range.start, range.end);
    assert forall|e: Date|
        valid_date(e.year as int, e.month as int, e.day as int) && day_number(e) == day_number(
            d,
        ) implies e == d by {
        lemma_order_by_number(e, d);
    }
}

} // verus!
