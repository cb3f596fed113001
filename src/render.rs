//! The overlay text: a header, then one block per warning.
use vstd::prelude::*;
use vstd::string::StringSliceAdditionalSpecFns;
use vstd::utf8::encode_utf8;
use crate::date::{Date, day_number};
use crate::extract::{Stamp, Warning, WarningModel};
use crate::text::{decimal, two_digits, push_all, push_decimal, push_two_digits};

verus! {

/// The English abbreviation of weekday `k`, counting from Sunday.
#[verifier::opaque]
pub open spec fn weekday_abbrev(k: int) -> Seq<u8> {
    if k == 0 {
        "Sun".spec_bytes()
    } else if k == 1 {
        "Mon".spec_bytes()
    } else if k == 2 {
        "Tue".spec_bytes()
    } else if k == 3 {
        "Wed".spec_bytes()
    } else if k == 4 {
        "Thu".spec_bytes()
    } else if k == 5 {
        "Fri".spec_bytes()
    } else {
        "Sat".spec_bytes()
    }
}

/// The English abbreviation of month `m`.
#[verifier::opaque]
pub open spec fn month_abbrev(m: int) -> Seq<u8> {
    if m == 1 {
        "Jan".spec_bytes()
    } else if m == 2 {
        "Feb".spec_bytes()
    } else if m == 3 {
        "Mar".spec_bytes()
    } else if m == 4 {
        "Apr".spec_bytes()
    } else if m == 5 {
        "May".spec_bytes()
    } else if m == 6 {
        "Jun".spec_bytes()
    } else if m == 7 {
        "Jul".spec_bytes()
    } else if m == 8 {
        "Aug".spec_bytes()
    } else if m == 9 {
        "Sep".spec_bytes()
    } else if m == 10 {
        "Oct".spec_bytes()
    } else if m == 11 {
        "Nov".spec_bytes()
    } else {
        "Dec".spec_bytes()
    }
}

/// The weekday of a date, counting from Sunday; the first day of year 0 is a Saturday.
pub open spec fn weekday_of(d: Date) -> int {
    (day_number(d) + 6) % 7
}

/// A day of the month padded with a space to two places.
pub open spec fn space_padded(n: nat) -> Seq<u8> {
    if n < 10 {
        seq![32u8, (48 + n) as u8]
    } else {
        two_digits(n)
    }
}

/// A UTC minute written as `Fri Dec 10 20:45:00 2021`: weekday, month, day padded
/// with a space, hour, minute and second on two digits, and the year.
pub open spec fn label_of(t: Stamp) -> Seq<u8> {
    let d = Date { year: t.year, month: t.month, day: t.day };
    weekday_abbrev(weekday_of(d)) + seq![32u8] + month_abbrev(t.month as int) + seq![32u8]
        + space_padded(t.day as nat) + seq![32u8] + two_digits(t.hour as nat) + seq![58u8]
        + two_digits(t.minute as nat) + seq![58u8, 48u8, 48u8, 32u8] + decimal(t.year as nat)
}

/// Relies on chrono's `NaiveDate::from_ymd_opt`, `NaiveDate::and_hms_opt` and the
/// `%c` format of `NaiveDateTime`. Both constructors succeed on a real date with an
/// hour under 24 and a minute under 60. Without locales, `%c` is chrono's fixed item
/// list: short weekday name, short month name, the day padded with a space, the
/// hour, minute and second on two digits, and the year on four (so for years
/// 1970 to 2069, its decimal text).
#[verifier::external_body]
fn calendar_text(t: &Stamp) -> (r: String)
    requires
        t.wf(),
    ensures
        encode_utf8(r@) == label_of(*t),
{
    let date = chrono::NaiveDate::from_ymd_opt(t.year as i32, t.month, t.day).unwrap();
    date.and_hms_opt(t.hour, t.minute, 0).unwrap().format("%c").to_string()
}

/// The label of a warning issued at `t`.
pub fn issue_label(t: &Stamp) -> (r: Vec<u8>)
    requires
        t.wf(),
    ensures
        r@ == label_of(*t),
{
    let text = calendar_text(t);
    let mut out: Vec<u8> = Vec::new();
    push_all(&mut out, text.as_str().as_bytes());
    out
}

pub open spec fn header_text() -> Seq<u8> {
    "Title: Past TORs\nRefresh: 9999\n\n".spec_bytes()
}

/// A value in hundredths, written with two decimals.
pub open spec fn hundredths_text(v: int) -> Seq<u8> {
    decimal((v / 100) as nat) + seq![46u8] + two_digits((v % 100) as nat)
}

/// One vertex, (latitude, longitude), written as `longitude, -latitude`.
pub open spec fn coord_line(p: (int, int)) -> Seq<u8> {
    hundredths_text(p.1) + ", -".spec_bytes() + hundredths_text(p.0) + seq![10u8]
}

pub open spec fn coord_lines(ring: Seq<(int, int)>) -> Seq<u8>
    decreases ring.len(),
{
    if ring.len() == 0 {
        seq![]
    } else {
        coord_lines(ring.drop_last()) + coord_line(ring.last())
    }
}

/// A width in tenths: the whole part, then a decimal only where it is not zero.
pub open spec fn width_text(t: int) -> Seq<u8> {
    if t % 10 == 0 {
        decimal((t / 10) as nat)
    } else {
        decimal((t / 10) as nat) + seq![46u8, (48 + t % 10) as u8]
    }
}

/// The block that draws one warning, with `label` as its issue time.
pub open spec fn block_text(m: WarningModel, label: Seq<u8>) -> Seq<u8> {
    "Color: ".spec_bytes() + decimal(m.style.red as nat) + seq![32u8] + decimal(
        m.style.green as nat,
    ) + seq![32u8] + decimal(m.style.blue as nat) + "\nLine: ".spec_bytes() + width_text(
        m.style.width_tenths as int,
    ) + ", 0, \"Issued ".spec_bytes() + label + "\"\n".spec_bytes() + coord_lines(m.ring)
        + "End:\n\n".spec_bytes()
}

/// Appends the overlay header.
pub fn render_header(out: &mut Vec<u8>)
    ensures
        final(out)@ == old(out)@ + header_text(),
{
    push_all(out, "Title: Past TORs\nRefresh: 9999\n\n".as_bytes());
}

fn push_hundredths(out: &mut Vec<u8>, v: u32)
    ensures
        final(out)@ == old(out)@ + hundredths_text(v as int),
{
    push_decimal(out, v / 100);
    out.push(46);
    push_two_digits(out, v % 100);
    assert(out@ =~= old(out)@ + hundredths_text(v as int));
}

/// Appends the coordinate line of one vertex.
pub fn render_vertex(out: &mut Vec<u8>, p: (u32, u32))
    ensures
        final(out)@ == old(out)@ + coord_line((p.0 as int, p.1 as int)),
{
    push_hundredths(out, p.1);
    push_all(out, ", -".as_bytes());
    push_hundredths(out, p.0);
    out.push(10);
    assert(out@ =~= old(out)@ + coord_line((p.0 as int, p.1 as int)));
}

/// Appends a line width given in tenths.
pub fn render_width(out: &mut Vec<u8>, t: u32)
    ensures
        final(out)@ == old(out)@ + width_text(t as int),
{
    push_decimal(out, t / 10);
    if t % 10 != 0 {
        out.push(46);
        out.push((48 + t % 10) as u8);
    }
    assert(out@ =~= old(out)@ + width_text(t as int));
}

/// Appends the block that draws `w`, labelled with the issue-time text `label`.
pub fn render_block(out: &mut Vec<u8>, w: &Warning, label: &[u8])
    ensures
        final(out)@ == old(out)@ + block_text(w.model(), label@),
{
    push_all(out, "Color: ".as_bytes());
    push_decimal(out, w.style.red as u32);
    out.push(32);
    push_decimal(out, w.style.green as u32);
    out.push(32);
    push_decimal(out, w.style.blue as u32);
    push_all(out, "\nLine: ".as_bytes());
    render_width(out, w.style.width_tenths);
    push_all(out, ", 0, \"Issued ".as_bytes());
    push_all(out, label);
    push_all(out, "\"\n".as_bytes());
    let ghost mid = out@;
    let mut k: usize = 0;
    while k < w.ring.len()
        invariant
            k <= w.ring@.len(),
            out@ == mid + coord_lines(w.model().ring.subrange(0, k as int)),
        decreases w.ring.len() - k,
    {
        render_vertex(out, w.ring[k]);
        k += 1;
        assert(w.model().ring.subrange(0, k as int).drop_last() =~= w.model().ring.subrange(
            0,
            k - 1,
        ));
    }
    assert(w.model().ring.subrange(0, k as int) =~= w.model().ring);
    push_all(out, "End:\n\n".as_bytes());
    assert(out@ =~= old(out)@ + block_text(w.model(), label@));
}

} // verus!
