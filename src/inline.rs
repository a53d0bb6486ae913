use vstd::prelude::*;
use crate::text::{exec_scan_to, exec_text_end, is_ws, scan_to, text_end, whitespace};
use crate::tree::{leaf, lemma_view_inner, lemma_views_cons, views, Node, Pair, ParseError, Rule};

verus! {

/// A run of `l` (one or two) copies of `c` starts at `i` and ends by `lim`.
pub open spec fn run_at(s: Seq<char>, i: int, lim: int, c: char, l: int) -> bool {
    (l == 1 || l == 2) && 0 <= i && i + l <= lim && s[i] == c && (l == 1 || s[i + 1] == c)
}

/// The inline spans from `i` up to `lim`, or up to the first place where the
/// closing delimiter (`sl` copies of `sc`; none when `sl` is 0) starts.
/// Returns the spans and the position where they stop.
pub open spec fn spans(s: Seq<char>, i: int, lim: int, sc: char, sl: int, tr: Rule) -> Result<
    (Seq<Node>, int),
    ParseError,
>
    decreases lim - i, 3int,
{
    if i >= lim || run_at(s, i, lim, sc, sl) {
        Ok((Seq::empty(), i))
    } else {
        match span(s, i, lim, tr) {
            Err(e) => Err(e),
            Ok(n) => if i < n.end <= lim {
                match spans(s, n.end, lim, sc, sl, tr) {
                    Err(e) => Err(e),
                    Ok((rest, j)) => Ok((seq![n] + rest, j)),
                }
            } else {
                Err(ParseError::NoMatch(i as usize))
            },
        }
    }
}

/// The one inline span that starts at `i` (`i < lim`). Plain text gets the
/// rule `tr`; a delimiter that opens no span becomes one character of it.
pub open spec fn span(s: Seq<char>, i: int, lim: int, tr: Rule) -> Result<Node, ParseError>
    decreases lim - i, 2int,
{
    let c = s[i];
    if c == '\\' {
        if i + 1 < lim && !is_ws(s[i + 1]) {
            Ok(Node { rule: Rule::escaped, start: i, end: i + 2, inner: seq![leaf(Rule::char, i + 1, i + 2)] })
        } else {
            Err(ParseError::MalformedEscape(i as usize))
        }
    } else if c == '*' || c == '_' || c == '~' {
        styled(s, i, lim, tr)
    } else if c == '[' {
        match link(s, i, lim) {
            Some(n) => Ok(n),
            None => Ok(leaf(tr, i, i + 1)),
        }
    } else if c == '!' && i + 1 < lim && s[i + 1] == '[' {
        match image(s, i, lim) {
            Some(n) => Ok(n),
            None => Ok(leaf(tr, i, i + 1)),
        }
    } else {
        Ok(leaf(tr, i, text_end(s, i, lim)))
    }
}

/// The rule that a doubled delimiter character opens.
pub open spec fn double_rule(c: char) -> Rule {
    if c == '*' {
        Rule::bold
    } else if c == '_' {
        Rule::underline
    } else {
        Rule::strikethrough
    }
}

/// A span opened by `*`, `_` or `~` at `i`: the doubled delimiter is tried
/// first, then the single one (not for `~`), then the character is plain text.
pub open spec fn styled(s: Seq<char>, i: int, lim: int, tr: Rule) -> Result<Node, ParseError>
    decreases lim - i, 1int,
{
    let c = s[i];
    match delimited(s, i, lim, c, 2, double_rule(c)) {
        Err(e) => Err(e),
        Ok(Some(n)) => Ok(n),
        Ok(None) => if c != '~' {
            match delimited(s, i, lim, c, 1, Rule::italic) {
                Err(e) => Err(e),
                Ok(Some(n)) => Ok(n),
                Ok(None) => Ok(leaf(tr, i, i + 1)),
            }
        } else {
            Ok(leaf(tr, i, i + 1))
        },
    }
}

/// A span of rule `rule` between two runs of `l` copies of `c`, the first at
/// `i`, with non-empty content; `None` when there is no such span.
pub open spec fn delimited(s: Seq<char>, i: int, lim: int, c: char, l: int, rule: Rule) -> Result<
    Option<Node>,
    ParseError,
>
    decreases lim - i, 0int,
{
    if run_at(s, i, lim, c, l) {
        match spans(s, i + l, lim, c, l, Rule::content) {
            Err(e) => Err(e),
            Ok((kids, j)) => if j > i + l && run_at(s, j, lim, c, l) {
                Ok(Some(Node { rule, start: i, end: j + l, inner: kids }))
            } else {
                Ok(None)
            },
        }
    } else {
        Ok(None)
    }
}

/// `[text](url)` at `i`, where neither part runs past `lim`.
pub open spec fn link(s: Seq<char>, i: int, lim: int) -> Option<Node> {
    let b = scan_to(s, i + 1, lim, ']');
    if lim - b > 1 && s[b + 1] == '(' {
        let d = scan_to(s, b + 2, lim, ')');
        if d < lim {
            Some(
                Node {
                    rule: Rule::inline_link,
                    start: i,
                    end: d + 1,
                    inner: seq![leaf(Rule::link_text, i + 1, b), leaf(Rule::url, b + 2, d)],
                },
            )
        } else {
            None
        }
    } else {
        None
    }
}

/// `![alt](url)` at `i`, where neither part runs past `lim`.
pub open spec fn image(s: Seq<char>, i: int, lim: int) -> Option<Node> {
    if i + 1 < lim && s[i + 1] == '[' {
        let b = scan_to(s, i + 2, lim, ']');
        if lim - b > 1 && s[b + 1] == '(' {
            let d = scan_to(s, b + 2, lim, ')');
            if d < lim {
                Some(
                    Node {
                        rule: Rule::inline_image,
                        start: i,
                        end: d + 1,
                        inner: seq![leaf(Rule::alt_text, i + 2, b), leaf(Rule::url, b + 2, d)],
                    },
                )
            } else {
                None
            }
        } else {
            None
        }
    } else {
        None
    }
}

pub fn new_leaf(rule: Rule, start: usize, end: usize) -> (r: Pair)
    ensures
        r.view() == leaf(rule, start as int, end as int),
        r.rule == rule,
        r.start == start,
        r.end == end,
{
    let r = Pair { rule, start, end, inner: Vec::new() };
    proof {
        lemma_view_inner(r);
        assert(r.view().inner =~= Seq::<Node>::empty());
    }
    r
}

fn exec_run_at(s: &Vec<char>, i: usize, lim: usize, c: char, l: usize) -> (r: bool)
    requires
        lim <= s@.len(),
    ensures
        r == run_at(s@, i as int, lim as int, c, l as int),
{
    (l == 1 || l == 2) && i < lim && l <= lim - i && s[i] == c && (l == 1 || s[i + 1] == c)
}

fn exec_link(s: &Vec<char>, i: usize, lim: usize) -> (r: Option<Pair>)
    requires
        i < lim <= s@.len(),
    ensures
        match r {
            Some(p) => link(s@, i as int, lim as int) == Some(p.view()) && p.end <= lim,
            None => link(s@, i as int, lim as int) is None,
        },
{
    let b = exec_scan_to(s, i + 1, lim, ']');
    if lim - b > 1 && s[b + 1] == '(' {
        let d = exec_scan_to(s, b + 2, lim, ')');
        if d < lim {
            let t = new_leaf(Rule::link_text, i + 1, b);
            let u = new_leaf(Rule::url, b + 2, d);
            let p = Pair { rule: Rule::inline_link, start: i, end: d + 1, inner: vec![t, u] };
            proof {
                lemma_view_inner(p);
                assert(views(p.inner@) =~= seq![t.view(), u.view()]);
            }
            Some(p)
        } else {
            None
        }
    } else {
        None
    }
}

fn exec_image(s: &Vec<char>, i: usize, lim: usize) -> (r: Option<Pair>)
    requires
        i < lim <= s@.len(),
    ensures
        match r {
            Some(p) => image(s@, i as int, lim as int) == Some(p.view()) && p.end <= lim,
            None => image(s@, i as int, lim as int) is None,
        },
{
    if i + 1 < lim && s[i + 1] == '[' {
        let b = exec_scan_to(s, i + 2, lim, ']');
        if lim - b > 1 && s[b + 1] == '(' {
            let d = exec_scan_to(s, b + 2, lim, ')');
            if d < lim {
                let t = new_leaf(Rule::alt_text, i + 2, b);
                let u = new_leaf(Rule::url, b + 2, d);
                let p = Pair { rule: Rule::inline_image, start: i, end: d + 1, inner: vec![t, u] };
                proof {
                    lemma_view_inner(p);
                    assert(views(p.inner@) =~= seq![t.view(), u.view()]);
                }
                Some(p)
            } else {
                None
            }
        } else {
            None
        }
    } else {
        None
    }
}

/// Executable form of `spans`: the spans and where they stop.
pub fn exec_spans(s: &Vec<char>, i: usize, lim: usize, sc: char, sl: usize, tr: Rule) -> (r: Result<
    (Vec<Pair>, usize),
    ParseError,
>)
    requires
        lim <= s@.len(),
    ensures
        match r {
            Ok((v, j)) => spans(s@, i as int, lim as int, sc, sl as int, tr) == Ok::<
                (Seq<Node>, int),
                ParseError,
            >((views(v@), j as int)),
            Err(e) => spans(s@, i as int, lim as int, sc, sl as int, tr) == Err::<
                (Seq<Node>, int),
                ParseError,
            >(e),
        },
    decreases lim - i, 3int,
{
    if i >= lim || exec_run_at(s, i, lim, sc, sl) {
        proof {
            assert(views(Seq::<Pair>::empty()) =~= Seq::<Node>::empty());
        }
        return Ok((Vec::new(), i));
    }
    let n = match exec_span(s, i, lim, tr) {
        Err(e) => return Err(e),
        Ok(n) => n,
    };
    if i < n.end && n.end <= lim {
        let (mut rest, j) = match exec_spans(s, n.end, lim, sc, sl, tr) {
            Err(e) => return Err(e),
            Ok(x) => x,
        };
        let ghost rest0 = rest@;
        let ghost nn = n;
        let mut v = vec![n];
        v.append(&mut rest);
        proof {
            assert(v@ == seq![nn] + rest0);
            lemma_views_cons(nn, rest0);
        }
        Ok((v, j))
    } else {
        Err(ParseError::NoMatch(i))
    }
}

/// Executable form of `span`.
pub fn exec_span(s: &Vec<char>, i: usize, lim: usize, tr: Rule) -> (r: Result<Pair, ParseError>)
    requires
        i < lim <= s@.len(),
    ensures
        match r {
            Ok(p) => span(s@, i as int, lim as int, tr) == Ok::<Node, ParseError>(p.view()),
            Err(e) => span(s@, i as int, lim as int, tr) == Err::<Node, ParseError>(e),
        },
    decreases lim - i, 2int,
{
    let c = s[i];
    if c == '\\' {
        if i + 1 < lim && !whitespace(s[i + 1]) {
            let ch = new_leaf(Rule::char, i + 1, i + 2);
            let p = Pair { rule: Rule::escaped, start: i, end: i + 2, inner: vec![ch] };
            proof {
                lemma_view_inner(p);
                assert(views(p.inner@) =~= seq![ch.view()]);
            }
            Ok(p)
        } else {
            Err(ParseError::MalformedEscape(i))
        }
    } else if c == '*' || c == '_' || c == '~' {
        exec_styled(s, i, lim, tr)
    } else if c == '[' {
        match exec_link(s, i, lim) {
            Some(p) => Ok(p),
            None => Ok(new_leaf(tr, i, i + 1)),
        }
    } else if c == '!' && i + 1 < lim && s[i + 1] == '[' {
        match exec_image(s, i, lim) {
            Some(p) => Ok(p),
            None => Ok(new_leaf(tr, i, i + 1)),
        }
    } else {
        let e = exec_text_end(s, i, lim);
        Ok(new_leaf(tr, i, e))
    }
}

fn exec_double_rule(c: char) -> (r: Rule)
    ensures
        r == double_rule(c),
{
    if c == '*' {
        Rule::bold
    } else if c == '_' {
        Rule::underline
    } else {
        Rule::strikethrough
    }
}

/// Executable form of `styled`.
pub fn exec_styled(s: &Vec<char>, i: usize, lim: usize, tr: Rule) -> (r: Result<Pair, ParseError>)
    requires
        i < lim <= s@.len(),
    ensures
        match r {
            Ok(p) => styled(s@, i as int, lim as int, tr) == Ok::<Node, ParseError>(p.view()),
            Err(e) => styled(s@, i as int, lim as int, tr) == Err::<Node, ParseError>(e),
        },
    decreases lim - i, 1int,
{
    let c = s[i];
    match exec_delimited(s, i, lim, c, 2, exec_double_rule(c)) {
        Err(e) => Err(e),
        Ok(Some(p)) => Ok(p),
        Ok(None) => if c != '~' {
            match exec_delimited(s, i, lim, c, 1, Rule::italic) {
                Err(e) => Err(e),
                Ok(Some(p)) => Ok(p),
                Ok(None) => Ok(new_leaf(tr, i, i + 1)),
            }
        } else {
            Ok(new_leaf(tr, i, i + 1))
        },
    }
}

/// Executable form of `delimited`.
pub fn exec_delimited(s: &Vec<char>, i: usize, lim: usize, c: char, l: usize, rule: Rule) -> (r:
    Result<Option<Pair>, ParseError>)
    requires
        i < lim <= s@.len(),
    ensures
        match r {
            Ok(Some(p)) => delimited(s@, i as int, lim as int, c, l as int, rule) == Ok::<
                Option<Node>,
                ParseError,
            >(Some(p.view())),
            Ok(None) => delimited(s@, i as int, lim as int, c, l as int, rule) == Ok::<
                Option<Node>,
                ParseError,
            >(None),
            Err(e) => delimited(s@, i as int, lim as int, c, l as int, rule) == Err::<
                Option<Node>,
                ParseError,
            >(e),
        },
    decreases lim - i, 0int,
{
    if !exec_run_at(s, i, lim, c, l) {
        return Ok(None);
    }
    match exec_spans(s, i + l, lim, c, l, Rule::content) {
        Err(e) => Err(e),
        Ok((kids, j)) => {
            if j > i + l && exec_run_at(s, j, lim, c, l) {
                let p = Pair { rule, start: i, end: j + l, inner: kids };
                proof {
                    lemma_view_inner(p);
                }
                Ok(Some(p))
            } else {
                Ok(None)
            }
        },
    }
}

} // verus!
