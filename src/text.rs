use vstd::prelude::*;
use vstd::std_specs::iter::IteratorSpec;

verus! {

/// Position `k` may open an inline span, so a run of plain text stops there:
/// `\\`, `*`, `_`, `~`, `[`, or a `!` right before `[`.
pub open spec fn opens_span(s: Seq<char>, k: int, lim: int) -> bool {
    let c = s[k];
    c == '\\' || c == '*' || c == '_' || c == '~' || c == '[' || (c == '!' && k + 1 < lim && s[k
        + 1] == '[')
}

pub open spec fn is_ws(c: char) -> bool {
    c == ' ' || c == '\t' || c == '\n' || c == '\r'
}

/// The first position at or after `i` that is `lim` or holds `c`.
pub open spec fn scan_to(s: Seq<char>, i: int, lim: int, c: char) -> int
    decreases lim - i,
{
    if i < lim && s[i] != c {
        scan_to(s, i + 1, lim, c)
    } else {
        i
    }
}

/// The first position at or after `i` that is `lim` or does not hold `c`.
pub open spec fn scan_past(s: Seq<char>, i: int, lim: int, c: char) -> int
    decreases lim - i,
{
    if i < lim && s[i] == c {
        scan_past(s, i + 1, lim, c)
    } else {
        i
    }
}

/// The end of the run of plain-text characters that starts at `i`.
pub open spec fn text_end(s: Seq<char>, i: int, lim: int) -> int
    decreases lim - i,
{
    if i < lim && !opens_span(s, i, lim) {
        text_end(s, i + 1, lim)
    } else {
        i
    }
}

/// The end of the run of whitespace that starts at `i`.
pub open spec fn ws_end(s: Seq<char>, i: int, lim: int) -> int
    decreases lim - i,
{
    if i < lim && is_ws(s[i]) {
        ws_end(s, i + 1, lim)
    } else {
        i
    }
}

/// `e` with the spaces and tabs before it (but not before `lo`) taken off.
pub open spec fn trim_end(s: Seq<char>, lo: int, e: int) -> int
    decreases e - lo,
{
    if e > lo && (s[e - 1] == ' ' || s[e - 1] == '\t') {
        trim_end(s, lo, e - 1)
    } else {
        e
    }
}

pub fn to_chars(text: &str) -> (r: Vec<char>)
    ensures
        r@ == text@,
{
    broadcast use vstd::string::group_string_axioms;

    let mut it = text.chars();
    let mut out: Vec<char> = Vec::new();
    loop
        invariant
            out@ + it.remaining() == text@,
            it.obeys_prophetic_iter_laws(),
        ensures
            out@ == text@,
        decreases text@.len() - out@.len(),
    {
        match it.next() {
            Some(c) => {
                out.push(c);
            },
            None => {
                break ;
            },
        }
    }
    out
}

pub fn exec_scan_to(s: &Vec<char>, i: usize, lim: usize, c: char) -> (r: usize)
    requires
        i <= lim <= s@.len(),
    ensures
        r == scan_to(s@, i as int, lim as int, c),
        i <= r <= lim,
        r < lim ==> s@[r as int] == c,
{
    let mut k = i;
    while k < lim && s[k] != c
        invariant
            i <= k <= lim <= s@.len(),
            scan_to(s@, i as int, lim as int, c) == scan_to(s@, k as int, lim as int, c),
        decreases lim - k,
    {
        k = k + 1;
    }
    k
}

pub fn exec_scan_past(s: &Vec<char>, i: usize, lim: usize, c: char) -> (r: usize)
    requires
        i <= lim <= s@.len(),
    ensures
        r == scan_past(s@, i as int, lim as int, c),
        i <= r <= lim,
{
    let mut k = i;
    while k < lim && s[k] == c
        invariant
            i <= k <= lim <= s@.len(),
            scan_past(s@, i as int, lim as int, c) == scan_past(s@, k as int, lim as int, c),
        decreases lim - k,
    {
        k = k + 1;
    }
    k
}

fn exec_opens_span(s: &Vec<char>, k: usize, lim: usize) -> (r: bool)
    requires
        k < lim <= s@.len(),
    ensures
        r == opens_span(s@, k as int, lim as int),
{
    let c = s[k];
    c == '\\' || c == '*' || c == '_' || c == '~' || c == '[' || (c == '!' && k + 1 < lim && s[k
        + 1] == '[')
}

pub fn whitespace(c: char) -> (r: bool)
    ensures
        r == is_ws(c),
{
    c == ' ' || c == '\t' || c == '\n' || c == '\r'
}

pub fn exec_text_end(s: &Vec<char>, i: usize, lim: usize) -> (r: usize)
    requires
        i <= lim <= s@.len(),
    ensures
        r == text_end(s@, i as int, lim as int),
        i <= r <= lim,
{
    let mut k = i;
    while k < lim && !exec_opens_span(s, k, lim)
        invariant
            i <= k <= lim <= s@.len(),
            text_end(s@, i as int, lim as int) == text_end(s@, k as int, lim as int),
        decreases lim - k,
    {
        k = k + 1;
    }
    k
}

pub fn exec_ws_end(s: &Vec<char>, i: usize, lim: usize) -> (r: usize)
    requires
        i <= lim <= s@.len(),
    ensures
        r == ws_end(s@, i as int, lim as int),
        i <= r <= lim,
{
    let mut k = i;
    while k < lim && whitespace(s[k])
        invariant
            i <= k <= lim <= s@.len(),
            ws_end(s@, i as int, lim as int) == ws_end(s@, k as int, lim as int),
        decreases lim - k,
    {
        k = k + 1;
    }
    k
}

pub fn exec_trim_end(s: &Vec<char>, lo: usize, e: usize) -> (r: usize)
    requires
        lo <= e <= s@.len(),
    ensures
        r == trim_end(s@, lo as int, e as int),
        lo <= r <= e,
{
    let mut k = e;
    while k > lo && (s[k - 1] == ' ' || s[k - 1] == '\t')
        invariant
            lo <= k <= e <= s@.len(),
            trim_end(s@, lo as int, e as int) == trim_end(s@, lo as int, k as int),
        decreases k - lo,
    {
        k = k - 1;
    }
    k
}

} // verus!
