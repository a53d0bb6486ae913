use vstd::prelude::*;
use crate::inline::{exec_spans, new_leaf, spans};
use crate::text::{
    exec_scan_past, exec_scan_to, exec_trim_end, exec_ws_end, scan_past, scan_to, trim_end, ws_end,
};
use crate::tree::{
    leaf, lemma_view_inner, lemma_views_cons, lemma_views_push, views, Node, Pair, ParseError, Rule,
};

verus! {

/// The end of the line that starts at `p` (the position of its `'\n'`, or
/// the end of the text).
pub open spec fn line_end(s: Seq<char>, p: int) -> int {
    scan_to(s, p, s.len() as int, '\n')
}

/// Where the line after the one ending at `e` starts.
pub open spec fn next_line(s: Seq<char>, e: int) -> int {
    if e < s.len() {
        e + 1
    } else {
        e
    }
}

pub open spec fn is_blank(s: Seq<char>, p: int, e: int) -> bool {
    ws_end(s, p, e) == e
}

/// How many `#` the line `[p, e)` starts with.
pub open spec fn hashes(s: Seq<char>, p: int, e: int) -> int {
    scan_past(s, p, e, '#') - p
}

/// The line opens a heading: one to three `#`, then a space or the line's end.
pub open spec fn heading_start(s: Seq<char>, p: int, e: int) -> bool {
    let k = hashes(s, p, e);
    1 <= k <= 3 && (p + k == e || s[p + k] == ' ')
}

pub open spec fn heading_rule(k: int) -> Rule {
    if k == 1 {
        Rule::heading1
    } else if k == 2 {
        Rule::heading2
    } else {
        Rule::heading3
    }
}

pub open spec fn fence_start(s: Seq<char>, p: int, e: int) -> bool {
    e - p >= 3 && s[p] == '`' && s[p + 1] == '`' && s[p + 2] == '`'
}

/// The line `[q, e)` is exactly three backticks.
pub open spec fn is_close_fence(s: Seq<char>, q: int, e: int) -> bool {
    e - q == 3 && s[q] == '`' && s[q + 1] == '`' && s[q + 2] == '`'
}

pub open spec fn is_rule_char(c: char) -> bool {
    c == '-' || c == '*' || c == '\u{2013}'
}

/// The line, without trailing spaces and tabs, is three or more copies of
/// one rule character.
pub open spec fn is_hr(s: Seq<char>, p: int, e: int) -> bool {
    let t = trim_end(s, p, e);
    t - p >= 3 && is_rule_char(s[p]) && scan_past(s, p, t, s[p]) == t
}

pub open spec fn quote_start(s: Seq<char>, p: int, e: int) -> bool {
    p < e && s[p] == '>'
}

/// The line `[p, e)` begins a block other than a paragraph.
pub open spec fn starts_block(s: Seq<char>, p: int, e: int) -> bool {
    is_blank(s, p, e) || heading_start(s, p, e) || fence_start(s, p, e) || is_hr(s, p, e)
        || quote_start(s, p, e)
}

/// Where the inline text of a paragraph line starts: inside a quote, after
/// the `>` marker and at most one space.
pub open spec fn text_start(s: Seq<char>, q: int, e: int, in_quote: bool) -> int {
    if in_quote && quote_start(s, q, e) {
        if q + 1 < e && s[q + 1] == ' ' {
            q + 2
        } else {
            q + 1
        }
    } else {
        q
    }
}

/// The line at `q` carries on the paragraph (or quote) above it.
pub open spec fn continues(s: Seq<char>, q: int, in_quote: bool) -> bool {
    let e = line_end(s, q);
    (in_quote && quote_start(s, q, e)) || !starts_block(s, q, e)
}

/// The lines of a paragraph (or of a quote) whose first line starts at `q`,
/// each split into inline spans, and the end of the last one.
pub open spec fn para_lines(s: Seq<char>, q: int, in_quote: bool) -> Result<
    (Seq<Node>, int),
    ParseError,
>
    decreases s.len() - q,
{
    let e = line_end(s, q);
    let a = text_start(s, q, e, in_quote);
    match spans(s, a, e, ' ', 0, Rule::plain_text) {
        Err(x) => Err(x),
        Ok((kids, _j)) => {
            let node = Node { rule: Rule::paragraph_line, start: a, end: e, inner: kids };
            let q2 = next_line(s, e);
            if q < q2 < s.len() && continues(s, q2, in_quote) {
                match para_lines(s, q2, in_quote) {
                    Err(x) => Err(x),
                    Ok((rest, last)) => Ok((seq![node] + rest, last)),
                }
            } else {
                Ok((seq![node], e))
            }
        },
    }
}

/// The start of the first line at or after `q` that closes a code block, or
/// -1 when no line does.
pub open spec fn find_close(s: Seq<char>, q: int) -> int
    decreases s.len() - q,
{
    if 0 <= q < s.len() {
        let e = line_end(s, q);
        if is_close_fence(s, q, e) {
            q
        } else {
            let q2 = next_line(s, e);
            if q < q2 <= s.len() {
                find_close(s, q2)
            } else {
                -1
            }
        }
    } else {
        -1
    }
}

/// The block whose first line starts at `p`, and the position where the
/// next block starts.
pub open spec fn block(s: Seq<char>, p: int) -> Result<(Node, int), ParseError> {
    let e = line_end(s, p);
    if is_blank(s, p, e) {
        Ok((leaf(Rule::empty_line, p, e), next_line(s, e)))
    } else if heading_start(s, p, e) {
        let k = hashes(s, p, e);
        let t = if p + k < e {
            p + k + 1
        } else {
            e
        };
        if ws_end(s, t, e) < e {
            Ok(
                (
                    Node {
                        rule: heading_rule(k),
                        start: p,
                        end: e,
                        inner: seq![leaf(Rule::single_line_text, t, e)],
                    },
                    next_line(s, e),
                ),
            )
        } else {
            Err(ParseError::MalformedHeading(p as usize))
        }
    } else if fence_start(s, p, e) {
        let c = find_close(s, e + 1);
        if e < s.len() && c >= 0 {
            let ce = if c > e + 1 {
                c - 1
            } else {
                e + 1
            };
            Ok(
                (
                    Node {
                        rule: Rule::code_block,
                        start: p,
                        end: c + 3,
                        inner: seq![leaf(Rule::code_lang, p + 3, e), leaf(Rule::code_content, e + 1, ce)],
                    },
                    next_line(s, c + 3),
                ),
            )
        } else {
            Err(ParseError::UnterminatedCodeFence(p as usize))
        }
    } else if is_hr(s, p, e) {
        Ok((leaf(Rule::horizontal_rule, p, e), next_line(s, e)))
    } else if quote_start(s, p, e) {
        match para_lines(s, p, true) {
            Err(x) => Err(x),
            Ok((lines, last)) => Ok(
                (
                    Node {
                        rule: Rule::quote,
                        start: p,
                        end: last,
                        inner: seq![
                            Node {
                                rule: Rule::paragraph,
                                start: text_start(s, p, e, true),
                                end: last,
                                inner: lines,
                            },
                        ],
                    },
                    next_line(s, last),
                ),
            ),
        }
    } else {
        match para_lines(s, p, false) {
            Err(x) => Err(x),
            Ok((lines, last)) => Ok(
                (Node { rule: Rule::paragraph, start: p, end: last, inner: lines }, next_line(s, last)),
            ),
        }
    }
}

/// The blocks of the text from `p` on, in order.
pub open spec fn blocks(s: Seq<char>, p: int) -> Result<Seq<Node>, ParseError>
    decreases s.len() - p,
{
    if 0 <= p < s.len() {
        match block(s, p) {
            Err(x) => Err(x),
            Ok((n, q)) => if p < q <= s.len() {
                match blocks(s, q) {
                    Err(x) => Err(x),
                    Ok(rest) => Ok(seq![n] + rest),
                }
            } else {
                Err(ParseError::NoMatch(p as usize))
            },
        }
    } else {
        Ok(Seq::empty())
    }
}

/// The parse tree of a whole document: its blocks, then the end marker.
pub open spec fn markdown(s: Seq<char>) -> Result<Node, ParseError> {
    match blocks(s, 0) {
        Err(x) => Err(x),
        Ok(bs) => Ok(
            Node {
                rule: Rule::markdown,
                start: 0,
                end: s.len() as int,
                inner: bs.push(leaf(Rule::EOI, s.len() as int, s.len() as int)),
            },
        ),
    }
}

pub fn exec_line_end(s: &Vec<char>, p: usize) -> (r: usize)
    requires
        p <= s@.len(),
    ensures
        r == line_end(s@, p as int),
        p <= r <= s@.len(),
        r < s@.len() ==> s@[r as int] == '\n',
{
    exec_scan_to(s, p, s.len(), '\n')
}

fn exec_next_line(s: &Vec<char>, e: usize) -> (r: usize)
    requires
        e <= s@.len(),
    ensures
        r == next_line(s@, e as int),
        e <= r <= s@.len(),
{
    if e < s.len() {
        e + 1
    } else {
        e
    }
}

fn exec_heading_start(s: &Vec<char>, p: usize, e: usize) -> (r: bool)
    requires
        p <= e <= s@.len(),
    ensures
        r == heading_start(s@, p as int, e as int),
{
    let h = exec_scan_past(s, p, e, '#');
    let k = h - p;
    1 <= k && k <= 3 && (h == e || s[h] == ' ')
}

fn exec_fence_start(s: &Vec<char>, p: usize, e: usize) -> (r: bool)
    requires
        p <= e <= s@.len(),
    ensures
        r == fence_start(s@, p as int, e as int),
{
    e - p >= 3 && s[p] == '`' && s[p + 1] == '`' && s[p + 2] == '`'
}

fn exec_is_hr(s: &Vec<char>, p: usize, e: usize) -> (r: bool)
    requires
        p <= e <= s@.len(),
    ensures
        r == is_hr(s@, p as int, e as int),
{
    let t = exec_trim_end(s, p, e);
    if t - p >= 3 {
        let c = s[p];
        (c == '-' || c == '*' || c == '\u{2013}') && exec_scan_past(s, p, t, c) == t
    } else {
        false
    }
}

fn exec_quote_start(s: &Vec<char>, p: usize, e: usize) -> (r: bool)
    requires
        p <= e <= s@.len(),
    ensures
        r == quote_start(s@, p as int, e as int),
{
    p < e && s[p] == '>'
}

fn exec_starts_block(s: &Vec<char>, p: usize, e: usize) -> (r: bool)
    requires
        p <= e <= s@.len(),
    ensures
        r == starts_block(s@, p as int, e as int),
{
    exec_ws_end(s, p, e) == e || exec_heading_start(s, p, e) || exec_fence_start(s, p, e)
        || exec_is_hr(s, p, e) || exec_quote_start(s, p, e)
}

fn exec_text_start(s: &Vec<char>, q: usize, e: usize, in_quote: bool) -> (r: usize)
    requires
        q <= e <= s@.len(),
    ensures
        r == text_start(s@, q as int, e as int, in_quote),
        q <= r <= e,
{
    if in_quote && exec_quote_start(s, q, e) {
        if q + 1 < e && s[q + 1] == ' ' {
            q + 2
        } else {
            q + 1
        }
    } else {
        q
    }
}

fn exec_para_lines(s: &Vec<char>, q: usize, in_quote: bool) -> (r: Result<
    (Vec<Pair>, usize),
    ParseError,
>)
    requires
        q <= s@.len(),
    ensures
        match r {
            Ok((v, last)) => para_lines(s@, q as int, in_quote) == Ok::<(Seq<Node>, int), ParseError>(
                (views(v@), last as int),
            ) && q <= last <= s@.len(),
            Err(x) => para_lines(s@, q as int, in_quote) == Err::<(Seq<Node>, int), ParseError>(x),
        },
    decreases s@.len() - q,
{
    let e = exec_line_end(s, q);
    let a = exec_text_start(s, q, e, in_quote);
    let kids = match exec_spans(s, a, e, ' ', 0, Rule::plain_text) {
        Err(x) => return Err(x),
        Ok((kids, _j)) => kids,
    };
    let node = Pair { rule: Rule::paragraph_line, start: a, end: e, inner: kids };
    proof {
        lemma_view_inner(node);
    }
    let q2 = exec_next_line(s, e);
    let more = if q < q2 && q2 < s.len() {
        let e2 = exec_line_end(s, q2);
        (in_quote && exec_quote_start(s, q2, e2)) || !exec_starts_block(s, q2, e2)
    } else {
        false
    };
    if more {
        let (mut rest, last) = match exec_para_lines(s, q2, in_quote) {
            Err(x) => return Err(x),
            Ok(x) => x,
        };
        let ghost rest0 = rest@;
        let ghost nn = node;
        let mut v = vec![node];
        v.append(&mut rest);
        proof {
            assert(v@ == seq![nn] + rest0);
            lemma_views_cons(nn, rest0);
        }
        Ok((v, last))
    } else {
        let ghost nn = node;
        let v = vec![node];
        proof {
            assert(views(v@) =~= seq![nn.view()]);
        }
        Ok((v, e))
    }
}

fn exec_find_close(s: &Vec<char>, q: usize) -> (r: Option<usize>)
    requires
        q <= s@.len(),
    ensures
        match r {
            Some(c) => find_close(s@, q as int) == c as int && c + 3 <= s@.len(),
            None => find_close(s@, q as int) == -1,
        },
    decreases s@.len() - q,
{
    if q < s.len() {
        let e = exec_line_end(s, q);
        if e - q == 3 && s[q] == '`' && s[q + 1] == '`' && s[q + 2] == '`' {
            Some(q)
        } else {
            let q2 = exec_next_line(s, e);
            if q < q2 {
                exec_find_close(s, q2)
            } else {
                None
            }
        }
    } else {
        None
    }
}

/// Executable form of `block`, for a position `p` inside the text.
pub fn exec_block(s: &Vec<char>, p: usize) -> (r: Result<(Pair, usize), ParseError>)
    requires
        p < s@.len(),
    ensures
        match r {
            Ok((n, q)) => block(s@, p as int) == Ok::<(Node, int), ParseError>((n.view(), q as int))
                && q <= s@.len(),
            Err(x) => block(s@, p as int) == Err::<(Node, int), ParseError>(x),
        },
{
    let e = exec_line_end(s, p);
    if exec_ws_end(s, p, e) == e {
        let n = new_leaf(Rule::empty_line, p, e);
        Ok((n, exec_next_line(s, e)))
    } else if exec_heading_start(s, p, e) {
        let k = exec_scan_past(s, p, e, '#') - p;
        let t = if p + k < e {
            p + k + 1
        } else {
            e
        };
        if exec_ws_end(s, t, e) < e {
            let rule = if k == 1 {
                Rule::heading1
            } else if k == 2 {
                Rule::heading2
            } else {
                Rule::heading3
            };
            let txt = new_leaf(Rule::single_line_text, t, e);
            let n = Pair { rule, start: p, end: e, inner: vec![txt] };
            proof {
                lemma_view_inner(n);
                assert(views(n.inner@) =~= seq![txt.view()]);
            }
            Ok((n, exec_next_line(s, e)))
        } else {
            Err(ParseError::MalformedHeading(p))
        }
    } else if exec_fence_start(s, p, e) {
        if e < s.len() {
            match exec_find_close(s, e + 1) {
                Some(c) => {
                    let ce = if c > e + 1 {
                        c - 1
                    } else {
                        e + 1
                    };
                    let lang = new_leaf(Rule::code_lang, p + 3, e);
                    let body = new_leaf(Rule::code_content, e + 1, ce);
                    let n = Pair { rule: Rule::code_block, start: p, end: c + 3, inner: vec![lang, body] };
                    proof {
                        lemma_view_inner(n);
                        assert(views(n.inner@) =~= seq![lang.view(), body.view()]);
                    }
                    Ok((n, exec_next_line(s, c + 3)))
                },
                None => Err(ParseError::UnterminatedCodeFence(p)),
            }
        } else {
            Err(ParseError::UnterminatedCodeFence(p))
        }
    } else if exec_is_hr(s, p, e) {
        let n = new_leaf(Rule::horizontal_rule, p, e);
        Ok((n, exec_next_line(s, e)))
    } else if exec_quote_start(s, p, e) {
        match exec_para_lines(s, p, true) {
            Err(x) => Err(x),
            Ok((lines, last)) => {
                let a = exec_text_start(s, p, e, true);
                let para = Pair { rule: Rule::paragraph, start: a, end: last, inner: lines };
                proof {
                    lemma_view_inner(para);
                }
                let n = Pair { rule: Rule::quote, start: p, end: last, inner: vec![para] };
                proof {
                    lemma_view_inner(n);
                    assert(views(n.inner@) =~= seq![para.view()]);
                }
                Ok((n, exec_next_line(s, last)))
            },
        }
    } else {
        match exec_para_lines(s, p, false) {
            Err(x) => Err(x),
            Ok((lines, last)) => {
                let n = Pair { rule: Rule::paragraph, start: p, end: last, inner: lines };
                proof {
                    lemma_view_inner(n);
                }
                Ok((n, exec_next_line(s, last)))
            },
        }
    }
}

/// Executable form of `blocks`.
pub fn exec_blocks(s: &Vec<char>, p: usize) -> (r: Result<Vec<Pair>, ParseError>)
    requires
        p <= s@.len(),
    ensures
        match r {
            Ok(v) => blocks(s@, p as int) == Ok::<Seq<Node>, ParseError>(views(v@)),
            Err(x) => blocks(s@, p as int) == Err::<Seq<Node>, ParseError>(x),
        },
    decreases s@.len() - p,
{
    if p < s.len() {
        match exec_block(s, p) {
            Err(x) => Err(x),
            Ok((n, q)) => if p < q {
                let mut rest = match exec_blocks(s, q) {
                    Err(x) => return Err(x),
                    Ok(v) => v,
                };
                let ghost rest0 = rest@;
                let ghost nn = n;
                let mut v = vec![n];
                v.append(&mut rest);
                proof {
                    assert(v@ == seq![nn] + rest0);
                    lemma_views_cons(nn, rest0);
                }
                Ok(v)
            } else {
                Err(ParseError::NoMatch(p))
            },
        }
    } else {
        proof {
            assert(views(Seq::<Pair>::empty()) =~= Seq::<Node>::empty());
        }
        Ok(Vec::new())
    }
}

/// Executable form of `markdown`.
pub fn exec_markdown(s: &Vec<char>) -> (r: Result<Pair, ParseError>)
    ensures
        match r {
            Ok(n) => markdown(s@) == Ok::<Node, ParseError>(n.view()),
            Err(x) => markdown(s@) == Err::<Node, ParseError>(x),
        },
{
    match exec_blocks(s, 0) {
        Err(x) => Err(x),
        Ok(mut bs) => {
            let eoi = new_leaf(Rule::EOI, s.len(), s.len());
            let ghost bs0 = bs@;
            bs.push(eoi);
            proof {
                lemma_views_push(bs0, eoi);
            }
            let n = Pair { rule: Rule::markdown, start: 0, end: s.len(), inner: bs };
            proof {
                lemma_view_inner(n);
            }
            Ok(n)
        },
    }
}

} // verus!
