//! Extraction of `key=value` parameters from a request target.
use vstd::prelude::*;
use crate::text::copy_range;
use vstd::string::StringSliceAdditionalSpecFns;

verus! {

/// `&` or `=`: the bytes that end a key or a value.
pub open spec fn ends_run(b: u8) -> bool {
    b == 38 || b == 61
}

/// The first index at or after `i` that holds `&` or `=`, or the length of `s`.
pub open spec fn run_end(s: Seq<u8>, i: int) -> int
    decreases s.len() - i,
{
    if i >= s.len() {
        s.len() as int
    } else if ends_run(s[i]) {
        i
    } else {
        run_end(s, i + 1)
    }
}

/// A parameter starts at `i`: `?` or `&`, a non-empty key, `=`, a non-empty value.
pub open spec fn pair_at(s: Seq<u8>, i: int) -> bool {
    let k = run_end(s, i + 1);
    0 <= i < s.len() && (s[i] == 63 || s[i] == 38) && i + 1 < k < s.len() && s[k] == 61
        && k + 1 < run_end(s, k + 1) <= s.len()
}

/// The parameters found scanning `s` from index `i`, in order of appearance.
pub open spec fn pairs_from(s: Seq<u8>, i: int) -> Seq<(Seq<u8>, Seq<u8>)>
    decreases s.len() - i,
{
    if i < 0 || i >= s.len() {
        seq![]
    } else if pair_at(s, i) {
        let k = run_end(s, i + 1);
        let v = run_end(s, k + 1);
        seq![(s.subrange(i + 1, k), s.subrange(k + 1, v))] + pairs_from(s, v)
    } else {
        pairs_from(s, i + 1)
    }
}

/// The parameters of a request target.
pub open spec fn params_of(s: Seq<u8>) -> Seq<(Seq<u8>, Seq<u8>)> {
    pairs_from(s, 0)
}

/// The value of the last parameter named `key`.
pub open spec fn lookup(ps: Seq<(Seq<u8>, Seq<u8>)>, key: Seq<u8>) -> Option<Seq<u8>>
    decreases ps.len(),
{
    if ps.len() == 0 {
        None
    } else if ps.last().0 == key {
        Some(ps.last().1)
    } else {
        lookup(ps.drop_last(), key)
    }
}

/// The byte strings of a list of parameters.
pub open spec fn params_view(ps: Seq<(Vec<u8>, Vec<u8>)>) -> Seq<(Seq<u8>, Seq<u8>)> {
    ps.map_values(|p: (Vec<u8>, Vec<u8>)| (p.0@, p.1@))
}

/// The end of the key or value that starts at `i`.
fn scan_run(s: &[u8], i: usize) -> (r: usize)
    requires
        i <= s.len(),
    ensures
        r as int == run_end(s@, i as int),
        i <= r <= s.len(),
{
    let mut j: usize = i;
    while j < s.len() && s[j] != 38 && s[j] != 61
        invariant
            i <= j <= s.len(),
            run_end(s@, j as int) == run_end(s@, i as int),
        decreases s.len() - j,
    {
        j += 1;
    }
    j
}

/// Every `key=value` parameter of `target`, in order of appearance. A parameter
/// begins at `?` or `&`; its key and its value are non-empty runs of bytes
/// other than `&` and `=`.
pub fn parse_params(target: &str) -> (r: Vec<(Vec<u8>, Vec<u8>)>)
    ensures
        params_view(r@) == params_of(target.spec_bytes()),
{
    let s = target.as_bytes();
    let mut out: Vec<(Vec<u8>, Vec<u8>)> = Vec::new();
    let mut i: usize = 0;
    while i < s.len()
        invariant
            i <= s.len(),
            s@ == target.spec_bytes(),
            params_view(out@) + pairs_from(s@, i as int) == pairs_from(s@, 0),
        decreases s.len() - i,
    {
        let mut found = false;
        if s[i] == 63 || s[i] == 38 {
            let k = scan_run(s, i + 1);
            if k > i + 1 && k < s.len() && s[k] == 61 {
                let v = scan_run(s, k + 1);
                if v > k + 1 {
                    let key = copy_range(s, i + 1, k);
                    let value = copy_range(s, k + 1, v);
                    let ghost before = out@;
                    out.push((key, value));
                    assert(params_view(out@) =~= params_view(before).push(
                        (s@.subrange(i + 1, k as int), s@.subrange(k + 1, v as int)),
                    ));
                    assert(params_view(out@) + pairs_from(s@, v as int) =~= params_view(before)
                        + pairs_from(s@, i as int));
                    i = v;
                    found = true;
                }
            }
        }
        if !found {
            i += 1;
        }
    }
    assert(params_view(out@) =~= params_view(out@) + pairs_from(s@, i as int));
    out
}

/// The value of the last parameter named `key`, if any.
pub fn find_param<'a>(params: &'a Vec<(Vec<u8>, Vec<u8>)>, key: &[u8]) -> (r: Option<&'a Vec<u8>>)
    ensures
        match r {
            Some(v) => lookup(params_view(params@), key@) == Some(v@),
            None => lookup(params_view(params@), key@) is None,
        },
{
    let mut n: usize = params.len();
    assert(params@.subrange(0, n as int) =~= params@);
    while n > 0
        invariant
            n <= params.len(),
            lookup(params_view(params@), key@) == lookup(params_view(params@.subrange(0, n as int)), key@),
        decreases n,
    {
        let ghost ps = params_view(params@.subrange(0, n as int));
        assert(ps.drop_last() =~= params_view(params@.subrange(0, n - 1)));
        if crate::text::bytes_eq(params[n - 1].0.as_slice(), key) {
            return Some(&params[n - 1].1);
        }
        n -= 1;
    }
    None
}

} // verus!
