//! The request pipeline around the network fetch: from request target to the
//! addresses to fetch, and from the fetched documents to the overlay.
use vstd::prelude::*;
use vstd::string::StringSliceAdditionalSpecFns;
use crate::error::HttpError;
use crate::extract::{extract_warning, warning_of};
use crate::range::{DateRange, end_key, start_key, enumerate_days, locator_url, parse_times, range_of, day_count, url_of};
use crate::date::{Date, day_number, on_or_before};
use crate::query::{lookup, params_of};
use crate::records::{bytes_view, record_is_valid, records_of, split_records, valid_record};
use crate::render::{block_text, header_text, issue_label, label_of, render_block, render_header};
use crate::text::{matches_at, occurs_at};

verus! {

/// The blocks that draw the valid records of `recs`, in order; `None` when a valid
/// record has no path block or issue time.
pub open spec fn blocks_of(recs: Seq<Seq<u8>>) -> Option<Seq<u8>>
    decreases recs.len(),
{
    if recs.len() == 0 {
        Some(seq![])
    } else {
        match blocks_of(recs.drop_last()) {
            None => None,
            Some(prefix) => if !valid_record(recs.last()) {
                Some(prefix)
            } else {
                match warning_of(recs.last()) {
                    None => None,
                    Some(m) => Some(prefix + block_text(m, label_of(m.stamp))),
                }
            },
        }
    }
}

/// The records of all documents, document after document.
pub open spec fn doc_records(docs: Seq<Seq<u8>>) -> Seq<Seq<u8>>
    decreases docs.len(),
{
    if docs.len() == 0 {
        seq![]
    } else {
        doc_records(docs.drop_last()) + records_of(docs.last())
    }
}

/// The overlay that draws the warnings of the fetched documents.
pub open spec fn overlay_of(docs: Seq<Seq<u8>>) -> Option<Seq<u8>> {
    match blocks_of(doc_records(docs)) {
        Some(b) => Some(header_text() + b),
        None => None,
    }
}

proof fn lemma_none_extends(a: Seq<Seq<u8>>, b: Seq<Seq<u8>>)
    requires
        blocks_of(a) is None,
    ensures
        blocks_of(a + b) is None,
    decreases b.len(),
{
    if b.len() == 0 {
        assert(a + b =~= a);
    } else {
        lemma_none_extends(a, b.drop_last());
        assert((a + b).drop_last() =~= a + b.drop_last());
    }
}

proof fn lemma_doc_records_split(s: Seq<Seq<u8>>, j: int, i: int)
    requires
        0 <= j <= i <= s.len(),
    ensures
        doc_records(s.subrange(0, i)) == doc_records(s.subrange(0, j)) + doc_records(
            s.subrange(j, i),
        ),
    decreases i - j,
{
    if i == j {
        assert(s.subrange(j, i) =~= Seq::<Seq<u8>>::empty());
        assert(doc_records(s.subrange(0, j)) + seq![] =~= doc_records(s.subrange(0, j)));
    } else {
        lemma_doc_records_split(s, j, i - 1);
        assert(s.subrange(0, i).drop_last() =~= s.subrange(0, i - 1));
        assert(s.subrange(j, i).drop_last() =~= s.subrange(j, i - 1));
        assert(doc_records(s.subrange(0, i)) =~= doc_records(s.subrange(0, j)) + doc_records(
            s.subrange(j, i),
        ));
    }
}

/// Draws every valid record of the fetched documents: the overlay header, then one
/// block per warning, documents and records in order. Fails with `ExtractionFault`
/// as soon as a valid record lacks its path block or issue time.
pub fn find_warnings(docs: &Vec<Vec<u8>>) -> (r: Result<Vec<u8>, HttpError>)
    ensures
        match overlay_of(bytes_view(docs@)) {
            Some(o) => r matches Ok(v) && v@ == o,
            None => r == Err::<Vec<u8>, HttpError>(HttpError::ExtractionFault),
        },
{
    let ghost dv = bytes_view(docs@);
    let mut body: Vec<u8> = Vec::new();
    let mut d: usize = 0;
    assert(dv.subrange(0, 0) =~= Seq::<Seq<u8>>::empty());
    while d < docs.len()
        invariant
            d <= docs@.len(),
            dv == bytes_view(docs@),
            blocks_of(doc_records(dv.subrange(0, d as int))) == Some(body@),
        decreases docs.len() - d,
    {
        let recs = split_records(docs[d].as_slice());
        let ghost done = doc_records(dv.subrange(0, d as int));
        let ghost rv = bytes_view(recs@);
        assert(rv == records_of(dv[d as int]));
        let mut k: usize = 0;
        assert(done + rv.subrange(0, 0) =~= done);
        while k < recs.len()
            invariant
                k <= recs@.len(),
                d < docs@.len(),
                dv == bytes_view(docs@),
                rv == bytes_view(recs@),
                rv == records_of(dv[d as int]),
                done == doc_records(dv.subrange(0, d as int)),
                blocks_of(done + rv.subrange(0, k as int)) == Some(body@),
            decreases recs.len() - k,
        {
            let ghost seen = done + rv.subrange(0, k as int + 1);
            assert(seen.drop_last() =~= done + rv.subrange(0, k as int));
            assert(seen.last() == recs@[k as int]@);
            if record_is_valid(recs[k].as_slice()) {
                match extract_warning(recs[k].as_slice()) {
                    Ok(w) => {
                        let label = issue_label(&w.stamp);
                        render_block(&mut body, &w, label.as_slice());
                    },
                    Err(e) => {
                        proof {
                            let n = dv.len() as int;
                            lemma_doc_records_split(dv, d as int, n);
                            assert(dv.subrange(0, n) =~= dv);
                            let rest = dv.subrange(d as int, n);
                            assert(doc_records(dv) == done + doc_records(rest));
                            lemma_doc_records_split(rest, 1, rest.len() as int);
                            assert(rest.subrange(0, rest.len() as int) =~= rest);
                            let first = rest.subrange(0, 1);
                            assert(first.drop_last() =~= Seq::<Seq<u8>>::empty());
                            assert(first.last() == dv[d as int]);
                            assert(doc_records(first.drop_last()) == Seq::<Seq<u8>>::empty());
                            assert(doc_records(first) =~= rv);
                            let tail = doc_records(rest.subrange(1, rest.len() as int));
                            assert(doc_records(rest) == rv + tail);
                            let later = rv.subrange(k as int + 1, rv.len() as int);
                            assert(rv =~= rv.subrange(0, k as int + 1) + later);
                            assert(doc_records(dv) =~= seen + (later + tail));
                            lemma_none_extends(seen, later + tail);
                        }
                        return Err(e);
                    },
                }
            }
            k += 1;
        }
        proof {
            assert(rv.subrange(0, k as int) =~= rv);
            assert(dv.subrange(0, d as int + 1).drop_last() =~= dv.subrange(0, d as int));
        }
        d += 1;
    }
    assert(dv.subrange(0, d as int) =~= dv);
    let mut out: Vec<u8> = Vec::new();
    render_header(&mut out);
    crate::text::push_all(&mut out, body.as_slice());
    Ok(out)
}

pub open spec fn route_prefix() -> Seq<u8> {
    "/warnings.txt".spec_bytes()
}

/// `u` is the document address of the day numbered `n`.
pub open spec fn is_url_of_day(u: Seq<u8>, n: int) -> bool {
    exists|d: Date| d.wf() && day_number(d) == n && u == url_of(d)
}

/// Whether the request target names the overlay's route.
pub fn is_overlay_route(target: &str) -> (r: bool)
    ensures
        r == occurs_at(target.spec_bytes(), route_prefix(), 0),
{
    matches_at(target.as_bytes(), "/warnings.txt".as_bytes(), 0)
}

/// The addresses of the daily documents that a request target asks for, one per
/// day of its range in day order. Fails with `NotFound` off the route and with
/// `BadRequest` when a date parameter is missing or malformed; no address is
/// handed out then.
pub fn plan_request(target: &str) -> (r: Result<Vec<Vec<u8>>, HttpError>)
    ensures
        !occurs_at(target.spec_bytes(), route_prefix(), 0) ==> r == Err::<Vec<Vec<u8>>, HttpError>(
            HttpError::NotFound,
        ),
        occurs_at(target.spec_bytes(), route_prefix(), 0) && range_of(target.spec_bytes()) is None
            ==> r == Err::<Vec<Vec<u8>>, HttpError>(HttpError::BadRequest),
        occurs_at(target.spec_bytes(), route_prefix(), 0) && range_of(target.spec_bytes()) is Some
            ==> (r matches Ok(urls) && urls@.len() == day_count(
            range_of(target.spec_bytes()).unwrap(),
        ) && forall|i: int|
            0 <= i < urls@.len() ==> is_url_of_day(
                (#[trigger] urls@[i])@,
                day_number(range_of(target.spec_bytes()).unwrap().start) + i,
            )),
{
    if !is_overlay_route(target) {
        return Err(HttpError::NotFound);
    }
    let range = match parse_times(target) {
        Ok(range) => range,
        Err(e) => return Err(e),
    };
    let days = enumerate_days(&range);
    let mut urls: Vec<Vec<u8>> = Vec::new();
    let mut k: usize = 0;
    while k < days.len()
        invariant
            k <= days@.len(),
            urls@.len() == k,
            forall|i: int|
                0 <= i < days@.len() ==> (#[trigger] days@[i]).wf() && day_number(days@[i])
                    == day_number(range.start) + i,
            forall|i: int| 0 <= i < k ==> (#[trigger] urls@[i])@ == url_of(days@[i]),
        decreases days.len() - k,
    {
        let url = locator_url(&days[k]);
        urls.push(url);
        k += 1;
    }
    assert forall|i: int| 0 <= i < urls@.len() implies is_url_of_day(
        (#[trigger] urls@[i])@,
        day_number(range.start) + i,
    ) by {
        assert(days@[i].wf() && day_number(days@[i]) == day_number(range.start) + i && urls@[i]@
            == url_of(days@[i]));
    }
    assert(range_of(target.spec_bytes()) == Some(range));
    assert(urls@.len() == day_count(range));
    Ok(urls)
}

/// A request target without a `start` or an `end` parameter names no range, so
/// the request is answered as bad and no document address is produced.
pub proof fn lemma_missing_parameter(target: Seq<u8>)
    requires
        lookup(params_of(target), start_key()) is None || lookup(params_of(target), end_key()) is None,
    ensures
        range_of(target) is None,
{
}

/// With no documents to read, the overlay is the header alone.
pub proof fn lemma_no_documents()
    ensures
        overlay_of(Seq::<Seq<u8>>::empty()) == Some(header_text()),
{
    assert(header_text() + Seq::<u8>::empty() =~= header_text());
}

/// A range whose start is after its end covers no day.
pub proof fn lemma_reversed_range_is_empty(range: DateRange)
    requires
        !on_or_before(range.start, range.end),
    ensures
        day_count(range) == 0,
{
}

} // verus!
