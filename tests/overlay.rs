use tor_overlay::date::{parse_date, Date};
use tor_overlay::error::HttpError;
use tor_overlay::extract::extract_warning;
use tor_overlay::pipeline::{find_warnings, is_overlay_route, plan_request};
use tor_overlay::query::{find_param, parse_params};
use tor_overlay::range::{enumerate_days, locator_url, parse_times, DateRange};
use tor_overlay::records::{is_valid, record_is_valid, split_records, warning_color, Style};
use tor_overlay::extract::Stamp;
use tor_overlay::render::{issue_label, render_block, render_header, render_vertex, render_width};

const HEADER: &str = "Title: Past TORs\nRefresh: 9999\n\n";

fn record(path: &str, stamp: &str, extra: &str) -> String {
    format!(
        "\nBULLETIN - IMMEDIATE BROADCAST REQUESTED\nTornado Warning\n/O.NEW.KOHX.TO.W.0042.{stamp}-211210T2115Z/\n{extra}\n{path}\nTIME...MOT...LOC 2045Z 240DEG 45KT 3540 08720\n"
    )
}

fn date(year: u32, month: u32, day: u32) -> Date {
    Date { year, month, day }
}

#[test]
fn single_day_round_trip() {
    let urls = plan_request("/warnings.txt?start=2021-12-10&end=2021-12-10").unwrap();
    assert_eq!(urls.len(), 1);
    assert_eq!(
        String::from_utf8(urls[0].clone()).unwrap(),
        "https://mesonet.agron.iastate.edu/archive/data/2021/12/10/text/noaaport/TOR_20211210.txt"
    );
    let doc = format!("{}$$", record("LAT...LON 2 3540 08720", "211210T2045Z", "A tornado is possible."));
    let out = String::from_utf8(find_warnings(&vec![doc.into_bytes()]).unwrap()).unwrap();
    assert_eq!(out.matches("Color:").count(), 1);
    assert_eq!(out.matches("Line:").count(), 1);
    assert_eq!(out.matches("87.20, -35.40\n").count(), 2);
    assert!(out.contains("Issued Fri Dec 10 20:45:00 2021"));
    assert_eq!(
        out,
        format!(
            "{HEADER}Color: 255 0 0\nLine: 3, 0, \"Issued Fri Dec 10 20:45:00 2021\"\n87.20, -35.40\n87.20, -35.40\nEnd:\n\n"
        )
    );
}

#[test]
fn reversed_range_gives_header_only() {
    let urls = plan_request("/warnings.txt?start=2021-12-11&end=2021-12-10").unwrap();
    assert!(urls.is_empty());
    let out = find_warnings(&Vec::new()).unwrap();
    assert_eq!(String::from_utf8(out).unwrap(), HEADER);
}

#[test]
fn malformed_date_is_bad_request() {
    let r = plan_request("/warnings.txt?start=2021-13-40&end=2021-12-10");
    assert_eq!(r.unwrap_err(), HttpError::BadRequest);
    assert_eq!(HttpError::BadRequest.status_code(), 400);
}

#[test]
fn missing_parameter_is_bad_request() {
    assert_eq!(plan_request("/warnings.txt?start=2021-12-10").unwrap_err(), HttpError::BadRequest);
    assert_eq!(plan_request("/warnings.txt?end=2021-12-10").unwrap_err(), HttpError::BadRequest);
    assert_eq!(plan_request("/warnings.txt").unwrap_err(), HttpError::BadRequest);
    assert_eq!(parse_times("/warnings.txt?begin=2021-12-10&end=2021-12-10"), Err(HttpError::BadRequest));
}

#[test]
fn other_route_is_not_found() {
    assert!(!is_overlay_route("/index.html?start=2021-12-10&end=2021-12-10"));
    assert!(is_overlay_route("/warnings.txt?x=1"));
    assert_eq!(plan_request("/other?start=2021-12-10&end=2021-12-10").unwrap_err(), HttpError::NotFound);
    assert_eq!(HttpError::NotFound.status_code(), 404);
    assert_eq!(HttpError::FetchError.status_code(), 500);
    assert_eq!(HttpError::ExtractionFault.status_code(), 500);
}

#[test]
fn day_count_spans_month_and_year_ends() {
    let range = DateRange { start: date(2020, 12, 30), end: date(2021, 3, 1) };
    let days = enumerate_days(&range);
    assert_eq!(days.len(), 62);
    assert_eq!(days[0], date(2020, 12, 30));
    assert_eq!(days[2], date(2021, 1, 1));
    assert_eq!(days[61], date(2021, 3, 1));
    let leap = DateRange { start: date(2024, 2, 28), end: date(2024, 3, 1) };
    assert_eq!(enumerate_days(&leap).len(), 3);
    let one = DateRange { start: date(2021, 12, 10), end: date(2021, 12, 10) };
    assert_eq!(enumerate_days(&one).len(), 1);
    let urls = plan_request("/warnings.txt?start=2021-12-30&end=2022-01-02").unwrap();
    assert_eq!(urls.len(), 4);
    assert!(String::from_utf8(urls[3].clone()).unwrap().ends_with("/2022/01/02/text/noaaport/TOR_20220102.txt"));
}

#[test]
fn locator_address_pads_month_and_day() {
    let url = String::from_utf8(locator_url(&date(2019, 5, 3))).unwrap();
    assert_eq!(url, "https://mesonet.agron.iastate.edu/archive/data/2019/05/03/text/noaaport/TOR_20190503.txt");
}

#[test]
fn dates_parse_strictly() {
    assert_eq!(parse_date(b"2024-02-29"), Some(date(2024, 2, 29)));
    assert_eq!(parse_date(b"2023-02-29"), None);
    assert_eq!(parse_date(b"2021-13-40"), None);
    assert_eq!(parse_date(b"2021-12-1"), None);
    assert_eq!(parse_date(b"2021/12/10"), None);
    assert_eq!(parse_date(b"2021-12-00"), None);
}

#[test]
fn parameters_are_read_in_order() {
    let ps = parse_params("/warnings.txt?start=2021-12-10&end=2021-12-11&bad&=x&k=");
    assert_eq!(ps.len(), 2);
    assert_eq!(ps[0], (b"start".to_vec(), b"2021-12-10".to_vec()));
    assert_eq!(ps[1], (b"end".to_vec(), b"2021-12-11".to_vec()));
    let dup = parse_params("?a=1&a=2");
    assert_eq!(find_param(&dup, b"a"), Some(&b"2".to_vec()));
    assert_eq!(find_param(&dup, b"b"), None);
    assert!(parse_params("no parameters here").is_empty());
}

#[test]
fn validity_filter() {
    let long = "x".repeat(50);
    assert!(is_valid(&long));
    assert!(!is_valid(&"x".repeat(49)));
    assert!(!is_valid(&format!("{long}TEST")));
    assert!(!is_valid(&format!("{long} 404 ")));
    assert!(is_valid(&format!("{long} 40 4 Test")));
    assert!(!record_is_valid(b""));
}

#[test]
fn validity_counts_characters() {
    let thirty = "\u{e9}".repeat(30);
    assert_eq!(thirty.len(), 60);
    assert!(!is_valid(&thirty));
    assert!(!record_is_valid(thirty.as_bytes()));
    let fifty = "\u{e9}".repeat(50);
    assert!(is_valid(&fifty));
    assert!(record_is_valid(fifty.as_bytes()));
    let forty_nine = format!("{}\u{1f32a}", "\u{e9}".repeat(48));
    assert!(!is_valid(&forty_nine));
    let doc = format!("{thirty}$$");
    let out = find_warnings(&vec![doc.into_bytes()]).unwrap();
    assert_eq!(String::from_utf8(out).unwrap(), HEADER);
}

#[test]
fn severity_first_match_wins() {
    let both = warning_color(b"TORNADO EMERGENCY ... tornado OBSERVED");
    assert_eq!(both, Style { red: 0, green: 0, blue: 0, width_tenths: 50 });
    assert_eq!(
        warning_color(b"PARTICULARLY DANGEROUS SITUATION reported"),
        Style { red: 255, green: 0, blue: 255, width_tenths: 40 }
    );
    assert_eq!(warning_color(b"a tornado was reported"), Style { red: 150, green: 0, blue: 0, width_tenths: 35 });
    assert_eq!(warning_color(b"radar OBSERVED"), Style { red: 150, green: 0, blue: 0, width_tenths: 35 });
    assert_eq!(warning_color(b"radar indicated"), Style { red: 255, green: 0, blue: 0, width_tenths: 30 });
}

#[test]
fn records_split_on_separator() {
    let parts = split_records(b"a$$b$$$c$$");
    assert_eq!(parts, vec![b"a".to_vec(), b"b".to_vec(), b"$c".to_vec(), b"".to_vec()]);
    assert_eq!(split_records(b""), vec![Vec::<u8>::new()]);
}

#[test]
fn ring_is_closed() {
    let text = record("LAT...LON 4 3540 08720 3560 08700 3541", "211210T2045Z", "");
    let w = extract_warning(text.as_bytes()).ok().unwrap();
    assert_eq!(w.ring, vec![(3540, 8720), (3560, 8700), (3540, 8720)]);
    assert_eq!(w.stamp.year, 2021);
    assert_eq!((w.stamp.hour, w.stamp.minute), (20, 45));
}

#[test]
fn extraction_faults_fail_the_request() {
    let no_path = record("no outline here at all", "211210T2045Z", "");
    assert!(matches!(extract_warning(no_path.as_bytes()), Err(HttpError::ExtractionFault)));
    let no_time = record("LAT...LON 2 3540 08720", "21121XT2045Z", "");
    assert!(matches!(extract_warning(no_time.as_bytes()), Err(HttpError::ExtractionFault)));
    let bad_time = record("LAT...LON 2 3540 08720", "211310T2045Z", "");
    assert!(matches!(extract_warning(bad_time.as_bytes()), Err(HttpError::ExtractionFault)));
    let good = record("LAT...LON 2 3540 08720", "211210T2045Z", "");
    let docs = vec![good.into_bytes(), format!("$${no_path}$$").into_bytes()];
    assert_eq!(find_warnings(&docs).unwrap_err(), HttpError::ExtractionFault);
}

#[test]
fn invalid_records_are_skipped() {
    let test = record("no outline", "211210T2045Z", "THIS IS A TEST");
    let out = find_warnings(&vec![format!("short$${test}$$").into_bytes()]).unwrap();
    assert_eq!(String::from_utf8(out).unwrap(), HEADER);
}

#[test]
fn two_digit_years_pick_their_century() {
    let old = record("LAT...LON 2 3540 08720", "990503T0100Z", "");
    assert_eq!(extract_warning(old.as_bytes()).ok().unwrap().stamp.year, 1999);
    let new = record("LAT...LON 2 3540 08720", "690503T0100Z", "");
    assert_eq!(extract_warning(new.as_bytes()).ok().unwrap().stamp.year, 2069);
}

#[test]
fn rendering_formats() {
    let mut out = Vec::new();
    render_header(&mut out);
    assert_eq!(out, HEADER.as_bytes());
    let mut v = Vec::new();
    render_vertex(&mut v, (3505, 10003));
    assert_eq!(v, b"100.03, -35.05\n");
    let mut w = Vec::new();
    render_width(&mut w, 35);
    render_width(&mut w, 50);
    assert_eq!(w, b"3.55");
    let text = record("LAT...LON 2 3540 08720", "211210T2045Z", "TORNADO EMERGENCY");
    let warning = extract_warning(text.as_bytes()).ok().unwrap();
    let mut b = Vec::new();
    render_block(&mut b, &warning, b"LABEL");
    assert_eq!(b, b"Color: 0 0 0\nLine: 5, 0, \"Issued LABEL\"\n87.20, -35.40\n87.20, -35.40\nEnd:\n\n");
}

#[test]
fn label_pads_the_day_with_a_space() {
    let t = Stamp { year: 1970, month: 1, day: 1, hour: 0, minute: 5 };
    assert_eq!(String::from_utf8(issue_label(&t)).unwrap(), "Thu Jan  1 00:05:00 1970");
    let t = Stamp { year: 2069, month: 12, day: 31, hour: 23, minute: 59 };
    assert_eq!(String::from_utf8(issue_label(&t)).unwrap(), "Tue Dec 31 23:59:00 2069");
}
