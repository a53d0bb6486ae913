use vstd::prelude::*;
use crate::block::{block, blocks, exec_block, exec_blocks, exec_line_end, exec_markdown, line_end, markdown};
use crate::inline::{exec_span, span};
use crate::render::{render, render_pair};
use crate::text::to_chars;
use crate::tree::{views, ErrorParse, Node, Pair, ParseError, RenderError, Rule};

verus! {

pub open spec fn is_block_rule(r: Rule) -> bool {
    r == Rule::empty_line || r == Rule::heading1 || r == Rule::heading2 || r == Rule::heading3 || r
        == Rule::horizontal_rule || r == Rule::code_block || r == Rule::quote || r == Rule::paragraph
}

pub open spec fn is_styled_rule(r: Rule) -> bool {
    r == Rule::bold || r == Rule::italic || r == Rule::underline || r == Rule::strikethrough
}

pub open spec fn is_inline_rule(r: Rule) -> bool {
    r == Rule::plain_text || r == Rule::content || r == Rule::escaped || r == Rule::styled_text
        || is_styled_rule(r) || r == Rule::inline_link || r == Rule::inline_image
}

/// A node of rule `got` answers a request for rule `want`.
pub open spec fn accepts(want: Rule, got: Rule) -> bool {
    got == want || (want == Rule::styled_text && is_styled_rule(got))
}

/// The node that rule `rule` yields at the start of `s`: the whole document
/// for `markdown`, the first block for a block rule, the first inline span of
/// the first line for an inline rule.
pub open spec fn rule_at(s: Seq<char>, rule: Rule) -> Result<Node, ParseError> {
    if rule == Rule::markdown {
        markdown(s)
    } else if is_block_rule(rule) && 0 < s.len() {
        match block(s, 0) {
            Err(x) => Err(x),
            Ok((n, _q)) => if n.rule == rule {
                Ok(n)
            } else {
                Err(ParseError::NoMatch(0))
            },
        }
    } else if is_inline_rule(rule) && 0 < line_end(s, 0) {
        let tr = if rule == Rule::content {
            Rule::content
        } else {
            Rule::plain_text
        };
        match span(s, 0, line_end(s, 0), tr) {
            Err(x) => Err(x),
            Ok(n) => if accepts(rule, n.rule) {
                Ok(n)
            } else {
                Err(ParseError::NoMatch(0))
            },
        }
    } else {
        Err(ParseError::NoMatch(0))
    }
}

/// The HTML of each block, in order; the first error from the left.
pub open spec fn render_all(s: Seq<char>, bs: Seq<Node>) -> Result<Seq<Seq<char>>, RenderError>
    decreases bs.len(),
{
    if bs.len() == 0 {
        Ok(Seq::empty())
    } else {
        match render(s, bs[0]) {
            Err(e) => Err(e),
            Ok(a) => match render_all(s, bs.subrange(1, bs.len() as int)) {
                Err(e) => Err(e),
                Ok(rest) => Ok(seq![a] + rest),
            },
        }
    }
}

/// The HTML fragments of a markdown text: one per block, in order.
pub open spec fn html_lines(s: Seq<char>) -> Result<Seq<Seq<char>>, ErrorParse> {
    match blocks(s, 0) {
        Err(e) => Err(ErrorParse::ParsingError(e)),
        Ok(bs) => match render_all(s, bs) {
            Err(e) => Err(ErrorParse::RenderingError(e)),
            Ok(ls) => Ok(ls),
        },
    }
}

pub open spec fn string_views(v: Seq<String>) -> Seq<Seq<char>> {
    Seq::new(v.len(), |k: int| v[k]@)
}

/// The grammar of the markdown dialect.
pub struct Grammar;

impl Grammar {
    /// Parses `input` by `rule`, from its start; the result holds one node.
    pub fn parse(rule: Rule, input: &str) -> (r: Result<Vec<Pair>, ParseError>)
        ensures
            match r {
                Ok(v) => v.len() == 1 && rule_at(input@, rule) == Ok::<Node, ParseError>(v[0].view()),
                Err(x) => rule_at(input@, rule) == Err::<Node, ParseError>(x),
            },
    {
        let s = to_chars(input);
        let got = if rule == Rule::markdown {
            exec_markdown(&s)
        } else if is_block(rule) && 0 < s.len() {
            match exec_block(&s, 0) {
                Err(x) => Err(x),
                Ok((n, _q)) => if n.rule == rule {
                    Ok(n)
                } else {
                    Err(ParseError::NoMatch(0))
                },
            }
        } else {
            let lim = exec_line_end(&s, 0);
            if is_inline(rule) && 0 < lim {
                let tr = if rule == Rule::content {
                    Rule::content
                } else {
                    Rule::plain_text
                };
                match exec_span(&s, 0, lim, tr) {
                    Err(x) => Err(x),
                    Ok(n) => if n.rule == rule || (rule == Rule::styled_text && is_styled(n.rule)) {
                        Ok(n)
                    } else {
                        Err(ParseError::NoMatch(0))
                    },
                }
            } else {
                Err(ParseError::NoMatch(0))
            }
        };
        match got {
            Ok(n) => Ok(vec![n]),
            Err(x) => Err(x),
        }
    }
}

fn is_block(r: Rule) -> (b: bool)
    ensures
        b == is_block_rule(r),
{
    r == Rule::empty_line || r == Rule::heading1 || r == Rule::heading2 || r == Rule::heading3 || r
        == Rule::horizontal_rule || r == Rule::code_block || r == Rule::quote || r == Rule::paragraph
}

fn is_styled(r: Rule) -> (b: bool)
    ensures
        b == is_styled_rule(r),
{
    r == Rule::bold || r == Rule::italic || r == Rule::underline || r == Rule::strikethrough
}

fn is_inline(r: Rule) -> (b: bool)
    ensures
        b == is_inline_rule(r),
{
    r == Rule::plain_text || r == Rule::content || r == Rule::escaped || r == Rule::styled_text
        || is_styled(r) || r == Rule::inline_link || r == Rule::inline_image
}

/// The parse tree of a whole markdown text: one `markdown` node whose
/// children are the blocks and, last, the end marker.
pub fn parse_markdown(input: &str) -> (r: Result<Vec<Pair>, ErrorParse>)
    ensures
        match r {
            Ok(v) => v.len() == 1 && markdown(input@) == Ok::<Node, ParseError>(v[0].view()),
            Err(x) => markdown(input@) matches Err(e) && x == ErrorParse::ParsingError(e),
        },
{
    match Grammar::parse(Rule::markdown, input) {
        Ok(v) => Ok(v),
        Err(x) => Err(ErrorParse::ParsingError(x)),
    }
}

/// Parses `input` by one rule of the grammar, from its start.
pub fn parse_by_rule(rule: Rule, input: &str) -> (r: Result<Vec<Pair>, ErrorParse>)
    ensures
        match r {
            Ok(v) => v.len() == 1 && rule_at(input@, rule) == Ok::<Node, ParseError>(v[0].view()),
            Err(x) => rule_at(input@, rule) matches Err(e) && x == ErrorParse::ParsingError(e),
        },
{
    match Grammar::parse(rule, input) {
        Ok(v) => Ok(v),
        Err(x) => Err(ErrorParse::ParsingError(x)),
    }
}

/// Converts a markdown text to HTML: one fragment per block, in order.
pub fn str_to_html(text: &str) -> (r: Result<Vec<String>, ErrorParse>)
    ensures
        match r {
            Ok(v) => html_lines(text@) == Ok::<Seq<Seq<char>>, ErrorParse>(string_views(v@)),
            Err(x) => html_lines(text@) == Err::<Seq<Seq<char>>, ErrorParse>(x),
        },
{
    let s = to_chars(text);
    let bs = match exec_blocks(&s, 0) {
        Ok(bs) => bs,
        Err(x) => return Err(ErrorParse::ParsingError(x)),
    };
    let ghost src = text@;
    let ghost all = views(bs@);
    let mut out: Vec<String> = Vec::new();
    let mut k: usize = 0;
    proof {
        assert(all.subrange(0, all.len() as int) =~= all);
        assert(string_views(out@) =~= Seq::<Seq<char>>::empty());
    }
    while k < bs.len()
        invariant
            0 <= k <= bs.len(),
            all == views(bs@),
            src == text@,
            s@ == text@,
            blocks(src, 0) == Ok::<Seq<Node>, ParseError>(all),
            render_all(src, all) == match render_all(src, all.subrange(k as int, all.len() as int)) {
                Ok(rest) => Ok(string_views(out@) + rest),
                Err(e) => Err(e),
            },
        decreases bs.len() - k,
    {
        let ghost suffix = all.subrange(k as int, all.len() as int);
        proof {
            assert(suffix[0] == bs@[k as int].view());
            assert(suffix.subrange(1, suffix.len() as int) =~= all.subrange(k + 1, all.len() as int));
        }
        match render_pair(text, &bs[k]) {
            Err(e) => {
                return Err(ErrorParse::RenderingError(e));
            },
            Ok(a) => {
                let ghost before = string_views(out@);
                out.push(a);
                proof {
                    assert(string_views(out@) =~= before.push(a@));
                    match render_all(src, all.subrange(k + 1, all.len() as int)) {
                        Ok(rest) => {
                            assert(before + (seq![a@] + rest) =~= string_views(out@) + rest);
                        },
                        Err(_) => {},
                    }
                }
            },
        }
        k = k + 1;
    }
    proof {
        assert(all.subrange(k as int, all.len() as int) =~= Seq::<Node>::empty());
        assert(string_views(out@) + Seq::<Seq<char>>::empty() =~= string_views(out@));
    }
    Ok(out)
}

} // verus!
