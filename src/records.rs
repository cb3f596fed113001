//! Splitting source documents into report records, the validity filter, and severity.
use vstd::prelude::*;
use vstd::string::StringSliceAdditionalSpecFns;
use vstd::utf8::{encode_scalar, encode_utf8};
use crate::text::{contains, contains_bytes, copy_range};

verus! {

/// The index of the first `$$` at or after `i`, or the length of `s` if there is none.
pub open spec fn next_separator(s: Seq<u8>, i: int) -> int
    decreases s.len() - i,
{
    if i + 2 > s.len() {
        s.len() as int
    } else if s[i] == 36 && s[i + 1] == 36 {
        i
    } else {
        next_separator(s, i + 1)
    }
}

/// The pieces of `s` from index `i` on, between non-overlapping `$$` separators taken
/// left to right.
pub open spec fn records_from(s: Seq<u8>, i: int) -> Seq<Seq<u8>>
    decreases s.len() - i,
{
    let j = next_separator(s, i);
    if 0 <= i <= j && j + 2 <= s.len() {
        seq![s.subrange(i, j)] + records_from(s, j + 2)
    } else if 0 <= i <= s.len() {
        seq![s.subrange(i, s.len() as int)]
    } else {
        seq![]
    }
}

/// The report records of a document.
pub open spec fn records_of(doc: Seq<u8>) -> Seq<Seq<u8>> {
    records_from(doc, 0)
}

pub open spec fn bytes_view(v: Seq<Vec<u8>>) -> Seq<Seq<u8>> {
    v.map_values(|b: Vec<u8>| b@)
}

fn find_separator(s: &[u8], i: usize) -> (r: usize)
    requires
        i <= s.len(),
    ensures
        r == next_separator(s@, i as int),
        i <= r <= s.len(),
        r < s.len() ==> r + 2 <= s.len(),
{
    let mut j: usize = i;
    while j < s.len() && 2 <= s.len() - j && !(s[j] == 36 && s[j + 1] == 36)
        invariant
            i <= j <= s.len(),
            next_separator(s@, j as int) == next_separator(s@, i as int),
        decreases s.len() - j,
    {
        j += 1;
    }
    if j >= s.len() || s.len() - j < 2 {
        s.len()
    } else {
        j
    }
}

/// Splits a document into its report records on each `$$`.
pub fn split_records(doc: &[u8]) -> (r: Vec<Vec<u8>>)
    ensures
        bytes_view(r@) == records_of(doc@),
{
    let mut out: Vec<Vec<u8>> = Vec::new();
    let mut i: usize = 0;
    loop
        invariant
            i <= doc.len(),
            bytes_view(out@) + records_from(doc@, i as int) == records_of(doc@),
        decreases doc.len() - i,
    {
        let j = find_separator(doc, i);
        let piece = copy_range(doc, i, j);
        let ghost before = out@;
        out.push(piece);
        assert(bytes_view(out@) =~= bytes_view(before).push(piece@));
        if j < doc.len() {
            assert(bytes_view(out@) + records_from(doc@, j + 2) =~= bytes_view(before)
                + records_from(doc@, i as int));
            i = j + 2;
        } else {
            assert(bytes_view(out@) =~= bytes_view(before) + records_from(doc@, i as int));
            return out;
        }
    }
}

pub open spec fn test_word() -> Seq<u8> {
    seq![84u8, 69u8, 83u8, 84u8]
}

pub open spec fn not_found_code() -> Seq<u8> {
    seq![52u8, 48u8, 52u8]
}

/// A byte that begins a character in UTF-8 text: anything but a continuation
/// byte (`10xxxxxx`).
pub open spec fn starts_char(b: u8) -> bool {
    b < 128 || b >= 192
}

/// The number of characters in UTF-8 bytes: the bytes that begin one.
pub open spec fn char_count(s: Seq<u8>) -> int
    decreases s.len(),
{
    if s.len() == 0 {
        0
    } else {
        (if starts_char(s[0]) {
            1int
        } else {
            0int
        }) + char_count(s.drop_first())
    }
}

pub proof fn lemma_char_count_concat(a: Seq<u8>, b: Seq<u8>)
    ensures
        char_count(a + b) == char_count(a) + char_count(b),
    decreases a.len(),
{
    if a.len() == 0 {
        assert(a + b =~= b);
    } else {
        lemma_char_count_concat(a.drop_first(), b);
        assert((a + b).drop_first() =~= a.drop_first() + b);
    }
}

proof fn lemma_lead_bytes(y: u8)
    by (bit_vector)
    ensures
        (0xC0u8 | y) >= 0xC0u8,
        (0xE0u8 | y) >= 0xC0u8,
        (0xF0u8 | y) >= 0xC0u8,
{
}

proof fn lemma_continuation_byte(y: u8)
    by (bit_vector)
    requires
        y <= 0x3Fu8,
    ensures
        0x80u8 <= (0x80u8 | y) < 0xC0u8,
{
}

proof fn lemma_low_bits(v: u32)
    by (bit_vector)
    ensures
        (v & 0x3Fu32) <= 0x3Fu32,
        ((v >> 6u32) & 0x3Fu32) <= 0x3Fu32,
        ((v >> 12u32) & 0x3Fu32) <= 0x3Fu32,
        (v & 0x7Fu32) <= 0x7Fu32,
{
}

/// The encoding of one character holds exactly one byte that begins a character.
proof fn lemma_scalar_one_char(v: u32)
    ensures
        char_count(encode_scalar(v)) == 1,
{
    lemma_low_bits(v);
    lemma_continuation_byte((v & 0x3F) as u8);
    lemma_continuation_byte(((v >> 6) & 0x3F) as u8);
    lemma_continuation_byte(((v >> 12) & 0x3F) as u8);
    lemma_lead_bytes(((v >> 6) & 0x1F) as u8);
    lemma_lead_bytes(((v >> 12) & 0x0F) as u8);
    lemma_lead_bytes(((v >> 18) & 0x7) as u8);
    let e = encode_scalar(v);
    reveal_with_fuel(char_count, 5);
    assert(e.drop_first().len() == e.len() - 1);
    if e.len() >= 2 {
        assert(e.drop_first().drop_first() =~= e.subrange(2, e.len() as int));
    }
    if e.len() >= 3 {
        assert(e.drop_first().drop_first().drop_first() =~= e.subrange(3, e.len() as int));
    }
}

/// UTF-8 text holds as many character-starting bytes as it encodes characters.
pub proof fn lemma_char_count_of_text(cs: Seq<char>)
    ensures
        char_count(encode_utf8(cs)) == cs.len(),
    decreases cs.len(),
{
    if cs.len() > 0 {
        lemma_char_count_of_text(cs.drop_first());
        lemma_scalar_one_char(cs[0] as u32);
        lemma_char_count_concat(encode_scalar(cs[0] as u32), encode_utf8(cs.drop_first()));
    }
}

/// A record is a real warning unless it mentions `TEST` or `404`, or is under 50
/// characters long.
pub open spec fn valid_record(s: Seq<u8>) -> bool {
    !(contains(s, test_word()) || char_count(s) < 50 || contains(s, not_found_code()))
}

/// The number of characters in the UTF-8 bytes `s`.
pub fn count_chars(s: &[u8]) -> (r: usize)
    ensures
        r == char_count(s@),
{
    let mut n: usize = 0;
    let mut i: usize = 0;
    while i < s.len()
        invariant
            i <= s.len(),
            n <= i,
            n == char_count(s@.subrange(0, i as int)),
        decreases s.len() - i,
    {
        proof {
            lemma_char_count_concat(s@.subrange(0, i as int), seq![s@[i as int]]);
            assert(s@.subrange(0, i + 1) =~= s@.subrange(0, i as int) + seq![s@[i as int]]);
            assert(seq![s@[i as int]].drop_first() =~= Seq::<u8>::empty());
            assert(char_count(Seq::<u8>::empty()) == 0);
            assert(char_count(seq![s@[i as int]]) == if starts_char(s@[i as int]) {
                1int
            } else {
                0int
            });
        }
        if s[i] < 128 || s[i] >= 192 {
            n += 1;
        }
        i += 1;
    }
    assert(s@.subrange(0, i as int) =~= s@);
    n
}

/// Whether the record bytes `text`, UTF-8 text, are a real warning.
pub fn record_is_valid(text: &[u8]) -> (r: bool)
    ensures
        r == valid_record(text@),
{
    let test: [u8; 4] = [84, 69, 83, 84];
    let code: [u8; 3] = [52, 48, 52];
    assert(test@ =~= test_word());
    assert(code@ =~= not_found_code());
    !(contains_bytes(text, test.as_slice()) || count_chars(text) < 50 || contains_bytes(
        text,
        code.as_slice(),
    ))
}

/// Whether the record `text` is a real warning: it is at least 50 characters long
/// and mentions neither `TEST` nor `404`.
pub fn is_valid(text: &str) -> (r: bool)
    ensures
        r == !(contains(text.spec_bytes(), test_word()) || text@.len() < 50 || contains(
            text.spec_bytes(),
            not_found_code(),
        )),
        r == valid_record(text.spec_bytes()),
{
    proof {
        lemma_char_count_of_text(text@);
    }
    record_is_valid(text.as_bytes())
}

/// The color and line width that draw a warning.
#[derive(Clone, Copy, Debug, PartialEq, Eq, Structural)]
pub struct Style {
    pub red: u8,
    pub green: u8,
    pub blue: u8,
    /// Line width in tenths.
    pub width_tenths: u32,
}

pub open spec fn emergency_word() -> Seq<u8> {
    "EMERGENCY".spec_bytes()
}

pub open spec fn dangerous_words() -> Seq<u8> {
    "PARTICULARLY DANGEROUS SITUATION".spec_bytes()
}

pub open spec fn observed_word() -> Seq<u8> {
    "OBSERVED".spec_bytes()
}

pub open spec fn reported_word() -> Seq<u8> {
    "reported".spec_bytes()
}

pub open spec fn emergency_style() -> Style {
    Style { red: 0, green: 0, blue: 0, width_tenths: 50 }
}

pub open spec fn dangerous_style() -> Style {
    Style { red: 255, green: 0, blue: 255, width_tenths: 40 }
}

pub open spec fn observed_style() -> Style {
    Style { red: 150, green: 0, blue: 0, width_tenths: 35 }
}

pub open spec fn plain_style() -> Style {
    Style { red: 255, green: 0, blue: 0, width_tenths: 30 }
}

/// Severity tiers, most severe first; the first whose words occur decides.
pub open spec fn style_of(s: Seq<u8>) -> Style {
    if contains(s, emergency_word()) {
        emergency_style()
    } else if contains(s, dangerous_words()) {
        dangerous_style()
    } else if contains(s, observed_word()) || contains(s, reported_word()) {
        observed_style()
    } else {
        plain_style()
    }
}

/// The severity style of a warning's text.
pub fn warning_color(text: &[u8]) -> (r: Style)
    ensures
        r == style_of(text@),
{
    if contains_bytes(text, "EMERGENCY".as_bytes()) {
        Style { red: 0, green: 0, blue: 0, width_tenths: 50 }
    } else if contains_bytes(text, "PARTICULARLY DANGEROUS SITUATION".as_bytes()) {
        Style { red: 255, green: 0, blue: 255, width_tenths: 40 }
    } else if contains_bytes(text, "OBSERVED".as_bytes()) || contains_bytes(
        text,
        "reported".as_bytes(),
    ) {
        Style { red: 150, green: 0, blue: 0, width_tenths: 35 }
    } else {
        Style { red: 255, green: 0, blue: 0, width_tenths: 30 }
    }
}

/// A record that mentions an emergency is drawn in the emergency style, whatever
/// lesser severity words it also holds.
pub proof fn lemma_emergency_wins(s: Seq<u8>)
    requires
        contains(s, emergency_word()),
    ensures
        style_of(s) == emergency_style(),
{
}

/// A record of under 50 characters, or one that mentions `TEST` or `404`, is never
/// kept, whatever else it holds.
pub proof fn lemma_excluded(text: Seq<char>)
    requires
        text.len() < 50 || contains(encode_utf8(text), test_word()) || contains(
            encode_utf8(text),
            not_found_code(),
        ),
    ensures
        !valid_record(encode_utf8(text)),
{
    lemma_char_count_of_text(text);
}

} // verus!
