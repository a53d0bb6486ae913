use vstd::prelude::*;
use vstd::string::StringExecFns;
use crate::tree::{clamped_text, lemma_view_inner, slice_text, views, Node, Pair, RenderError, Rule};

verus! {

/// The HTML form of one character: the five HTML-unsafe characters become
/// entities, every other character stays as it is.
pub open spec fn escape_char(c: char) -> Seq<char> {
    if c == '&' {
        "&amp;"@
    } else if c == '<' {
        "&lt;"@
    } else if c == '>' {
        "&gt;"@
    } else if c == '"' {
        "&quot;"@
    } else if c == '\'' {
        "&#x27;"@
    } else {
        seq![c]
    }
}

/// HTML escaping of a text, character by character.
pub open spec fn escape(t: Seq<char>) -> Seq<char>
    decreases t.len(),
{
    if t.len() == 0 {
        Seq::empty()
    } else {
        escape(t.drop_last()) + escape_char(t.last())
    }
}

/// Relies on html_escape::encode_quoted_attribute, which replaces each `&`,
/// `<`, `>`, `"` and `'` by `&amp;`, `&lt;`, `&gt;`, `&quot;` and `&#x27;`
/// and copies every other character.
#[verifier::external_body]
fn escape_html(t: &str) -> (r: String)
    ensures
        r@ == escape(t@),
{
    html_escape::encode_quoted_attribute(t).into_owned()
}

/// The text that a node covers.
pub open spec fn node_text(s: Seq<char>, n: Node) -> Seq<char> {
    clamped_text(s, n.start, n.end)
}

/// The element name of a heading or of a styled span.
pub open spec fn tag(r: Rule) -> Seq<char> {
    if r == Rule::heading1 {
        "h1"@
    } else if r == Rule::heading2 {
        "h2"@
    } else if r == Rule::heading3 {
        "h3"@
    } else if r == Rule::bold {
        "strong"@
    } else if r == Rule::italic {
        "em"@
    } else if r == Rule::underline {
        "u"@
    } else {
        "del"@
    }
}

pub open spec fn element(r: Rule, body: Seq<char>) -> Seq<char> {
    "<"@ + tag(r) + ">"@ + body + "</"@ + tag(r) + ">"@
}

/// `r` with `a` put in front of its text.
pub open spec fn prepend(a: Seq<char>, r: Result<Seq<char>, RenderError>) -> Result<Seq<char>, RenderError> {
    match r {
        Ok(b) => Ok(a + b),
        Err(e) => Err(e),
    }
}

/// The HTML of a node of the parse tree of `s`.
pub open spec fn render(s: Seq<char>, n: Node) -> Result<Seq<char>, RenderError>
    decreases n,
{
    let k = n.inner;
    let r = n.rule;
    if r == Rule::empty_line {
        Ok("<br/>"@)
    } else if r == Rule::horizontal_rule {
        Ok("<hr>"@)
    } else if r == Rule::EOI {
        Ok(Seq::empty())
    } else if r == Rule::heading1 || r == Rule::heading2 || r == Rule::heading3 {
        if k.len() >= 1 {
            Ok(element(r, escape(node_text(s, k[0]))))
        } else {
            Err(RenderError::MissingChild { parent: r, expected: 1 })
        }
    } else if r == Rule::code_block {
        if k.len() >= 2 {
            Ok(
                "<pre><code class=\"language-"@ + escape(node_text(s, k[0])) + "\">"@ + escape(
                    node_text(s, k[1]),
                ) + "</code></pre>"@,
            )
        } else {
            Err(RenderError::MissingChild { parent: r, expected: 2 })
        }
    } else if r == Rule::quote {
        if k.len() >= 1 {
            match render(s, k[0]) {
                Ok(b) => Ok("<blockquote>"@ + b + "</blockquote>"@),
                Err(e) => Err(e),
            }
        } else {
            Err(RenderError::MissingChild { parent: r, expected: 1 })
        }
    } else if r == Rule::paragraph {
        match render_lines(s, k) {
            Ok(b) => Ok("<p>"@ + b + "</p>"@),
            Err(e) => Err(e),
        }
    } else if r == Rule::inline_link {
        if k.len() >= 2 {
            Ok("<a href=\""@ + node_text(s, k[1]) + "\">"@ + escape(node_text(s, k[0])) + "</a>"@)
        } else {
            Err(RenderError::MissingChild { parent: r, expected: 2 })
        }
    } else if r == Rule::inline_image {
        if k.len() >= 2 {
            Ok(
                "<img src=\""@ + node_text(s, k[1]) + "\" alt=\""@ + escape(node_text(s, k[0]))
                    + "\">"@,
            )
        } else {
            Err(RenderError::MissingChild { parent: r, expected: 2 })
        }
    } else if r == Rule::bold || r == Rule::italic || r == Rule::underline || r
        == Rule::strikethrough {
        match render_seq(s, k) {
            Ok(b) => Ok(element(r, b)),
            Err(e) => Err(e),
        }
    } else if r == Rule::escaped {
        if k.len() >= 1 {
            Ok(escape(node_text(s, k[0])))
        } else {
            Err(RenderError::MissingChild { parent: r, expected: 1 })
        }
    } else if r == Rule::content || r == Rule::plain_text {
        Ok(escape(node_text(s, n)))
    } else {
        Err(RenderError::UnknownNodeKind(r))
    }
}

/// The HTML of a sequence of nodes, concatenated in order; the first error
/// from the left when there is one.
pub open spec fn render_seq(s: Seq<char>, ks: Seq<Node>) -> Result<Seq<char>, RenderError>
    decreases ks,
{
    if ks.len() == 0 {
        Ok(Seq::empty())
    } else {
        match render(s, ks[0]) {
            Err(e) => Err(e),
            Ok(a) => prepend(a, render_seq(s, ks.subrange(1, ks.len() as int))),
        }
    }
}

/// The HTML of one line of a paragraph: its spans, concatenated.
pub open spec fn render_line(s: Seq<char>, l: Node) -> Result<Seq<char>, RenderError>
    decreases l, 0int,
{
    if l.rule == Rule::paragraph_line {
        render_seq(s, l.inner)
    } else {
        Err(RenderError::UnknownNodeKind(l.rule))
    }
}

/// The lines of a paragraph, each preceded by `<br>`.
pub open spec fn sep_lines(s: Seq<char>, ls: Seq<Node>) -> Result<Seq<char>, RenderError>
    decreases ls,
{
    if ls.len() == 0 {
        Ok(Seq::empty())
    } else {
        match render_line(s, ls[0]) {
            Err(e) => Err(e),
            Ok(a) => prepend("<br>"@ + a, sep_lines(s, ls.subrange(1, ls.len() as int))),
        }
    }
}

/// The lines of a paragraph joined with `<br>`: one between each two
/// neighbouring lines, none before the first or after the last.
pub open spec fn render_lines(s: Seq<char>, ls: Seq<Node>) -> Result<Seq<char>, RenderError>
    decreases ls,
{
    if ls.len() == 0 {
        Ok(Seq::empty())
    } else {
        match render_line(s, ls[0]) {
            Err(e) => Err(e),
            Ok(a) => prepend(a, sep_lines(s, ls.subrange(1, ls.len() as int))),
        }
    }
}

pub open spec fn same_result(r: Result<String, RenderError>, m: Result<Seq<char>, RenderError>) -> bool {
    match r {
        Ok(o) => m == Ok::<Seq<char>, RenderError>(o@),
        Err(e) => m == Err::<Seq<char>, RenderError>(e),
    }
}

fn tag_of(r: Rule) -> (t: &'static str)
    ensures
        t@ == tag(r),
{
    if r == Rule::heading1 {
        "h1"
    } else if r == Rule::heading2 {
        "h2"
    } else if r == Rule::heading3 {
        "h3"
    } else if r == Rule::bold {
        "strong"
    } else if r == Rule::italic {
        "em"
    } else if r == Rule::underline {
        "u"
    } else {
        "del"
    }
}

fn exec_element(r: Rule, body: &str) -> (o: String)
    ensures
        o@ == element(r, body@),
{
    let t = tag_of(r);
    let mut o = "<".to_string();
    o.append(t);
    o.append(">");
    o.append(body);
    o.append("</");
    o.append(t);
    o.append(">");
    o
}

fn escaped_text(input: &str, p: &Pair) -> (o: String)
    ensures
        o@ == escape(node_text(input@, p.view())),
{
    proof {
        lemma_view_inner(*p);
    }
    let t = slice_text(input, p.start, p.end);
    escape_html(t.as_str())
}

/// The escaped text of a node's first child.
fn escaped_first_child(input: &str, p: &Pair) -> (r: Result<String, RenderError>)
    ensures
        match r {
            Ok(t) => p.inner.len() >= 1 && t@ == escape(node_text(input@, p.inner@[0].view())),
            Err(e) => p.inner.len() < 1 && e == RenderError::MissingChild { parent: p.rule, expected: 1 },
        },
{
    if p.inner.len() >= 1 {
        Ok(escaped_text(input, &p.inner[0]))
    } else {
        Err(RenderError::MissingChild { parent: p.rule, expected: 1 })
    }
}

/// The escaped text of a heading's single-line text.
fn parse_heading(input: &str, p: &Pair) -> (r: Result<String, RenderError>)
    ensures
        match r {
            Ok(t) => p.inner.len() >= 1 && t@ == escape(node_text(input@, p.inner@[0].view())),
            Err(e) => p.inner.len() < 1 && e == RenderError::MissingChild { parent: p.rule, expected: 1 },
        },
{
    escaped_first_child(input, p)
}

/// The escaped character of an escape sequence.
fn parse_escaped_char(input: &str, p: &Pair) -> (r: Result<String, RenderError>)
    ensures
        match r {
            Ok(t) => p.inner.len() >= 1 && t@ == escape(node_text(input@, p.inner@[0].view())),
            Err(e) => p.inner.len() < 1 && e == RenderError::MissingChild { parent: p.rule, expected: 1 },
        },
{
    escaped_first_child(input, p)
}

/// The escaped language and escaped content of a code block.
fn parse_code_block(input: &str, p: &Pair) -> (r: Result<(String, String), RenderError>)
    ensures
        match r {
            Ok((l, c)) => p.inner.len() >= 2 && l@ == escape(node_text(input@, p.inner@[0].view()))
                && c@ == escape(node_text(input@, p.inner@[1].view())),
            Err(e) => p.inner.len() < 2 && e == RenderError::MissingChild { parent: p.rule, expected: 2 },
        },
{
    if p.inner.len() >= 2 {
        Ok((escaped_text(input, &p.inner[0]), escaped_text(input, &p.inner[1])))
    } else {
        Err(RenderError::MissingChild { parent: p.rule, expected: 2 })
    }
}

/// The escaped first child and the verbatim second child of a link or an
/// image: its text (or alt text) and its URL.
fn text_and_url(input: &str, p: &Pair) -> (r: Result<(String, String), RenderError>)
    ensures
        match r {
            Ok((t, u)) => p.inner.len() >= 2 && t@ == escape(node_text(input@, p.inner@[0].view()))
                && u@ == node_text(input@, p.inner@[1].view()),
            Err(e) => p.inner.len() < 2 && e == RenderError::MissingChild { parent: p.rule, expected: 2 },
        },
{
    if p.inner.len() >= 2 {
        proof {
            lemma_view_inner(p.inner@[1]);
        }
        let url = slice_text(input, p.inner[1].start, p.inner[1].end);
        Ok((escaped_text(input, &p.inner[0]), url))
    } else {
        Err(RenderError::MissingChild { parent: p.rule, expected: 2 })
    }
}

/// The escaped link text and the URL of a link.
fn parse_inline_link(input: &str, p: &Pair) -> (r: Result<(String, String), RenderError>)
    ensures
        match r {
            Ok((t, u)) => p.inner.len() >= 2 && t@ == escape(node_text(input@, p.inner@[0].view()))
                && u@ == node_text(input@, p.inner@[1].view()),
            Err(e) => p.inner.len() < 2 && e == RenderError::MissingChild { parent: p.rule, expected: 2 },
        },
{
    text_and_url(input, p)
}

/// The escaped alt text and the URL of an image.
fn parse_inline_image(input: &str, p: &Pair) -> (r: Result<(String, String), RenderError>)
    ensures
        match r {
            Ok((t, u)) => p.inner.len() >= 2 && t@ == escape(node_text(input@, p.inner@[0].view()))
                && u@ == node_text(input@, p.inner@[1].view()),
            Err(e) => p.inner.len() < 2 && e == RenderError::MissingChild { parent: p.rule, expected: 2 },
        },
{
    text_and_url(input, p)
}

/// The HTML of one node of the parse tree of `input`.
pub fn render_pair(input: &str, p: &Pair) -> (r: Result<String, RenderError>)
    ensures
        same_result(r, render(input@, p.view())),
    decreases p,
{
    proof {
        lemma_view_inner(*p);
    }
    let k = &p.inner;
    let r = p.rule;
    if r == Rule::empty_line {
        Ok("<br/>".to_string())
    } else if r == Rule::horizontal_rule {
        Ok("<hr>".to_string())
    } else if r == Rule::EOI {
        Ok(String::new())
    } else if r == Rule::heading1 || r == Rule::heading2 || r == Rule::heading3 {
        match parse_heading(input, p) {
            Ok(t) => Ok(exec_element(r, t.as_str())),
            Err(e) => Err(e),
        }
    } else if r == Rule::code_block {
        match parse_code_block(input, p) {
            Ok((lang, body)) => {
                let mut o = "<pre><code class=\"language-".to_string();
                o.append(lang.as_str());
                o.append("\">");
                o.append(body.as_str());
                o.append("</code></pre>");
                Ok(o)
            },
            Err(e) => Err(e),
        }
    } else if r == Rule::quote {
        if k.len() >= 1 {
            match render_pair(input, &k[0]) {
                Ok(b) => {
                    let mut o = "<blockquote>".to_string();
                    o.append(b.as_str());
                    o.append("</blockquote>");
                    Ok(o)
                },
                Err(e) => Err(e),
            }
        } else {
            Err(RenderError::MissingChild { parent: r, expected: 1 })
        }
    } else if r == Rule::paragraph {
        match render_paragraph_lines(input, k) {
            Ok(b) => {
                let mut o = "<p>".to_string();
                o.append(b.as_str());
                o.append("</p>");
                Ok(o)
            },
            Err(e) => Err(e),
        }
    } else if r == Rule::inline_link {
        match parse_inline_link(input, p) {
            Ok((txt, url)) => {
                let mut o = "<a href=\"".to_string();
                o.append(url.as_str());
                o.append("\">");
                o.append(txt.as_str());
                o.append("</a>");
                Ok(o)
            },
            Err(e) => Err(e),
        }
    } else if r == Rule::inline_image {
        match parse_inline_image(input, p) {
            Ok((alt, url)) => {
                let mut o = "<img src=\"".to_string();
                o.append(url.as_str());
                o.append("\" alt=\"");
                o.append(alt.as_str());
                o.append("\">");
                Ok(o)
            },
            Err(e) => Err(e),
        }
    } else if r == Rule::bold || r == Rule::italic || r == Rule::underline || r
        == Rule::strikethrough {
        match render_children(input, k) {
            Ok(b) => Ok(exec_element(r, b.as_str())),
            Err(e) => Err(e),
        }
    } else if r == Rule::escaped {
        parse_escaped_char(input, p)
    } else if r == Rule::content || r == Rule::plain_text {
        Ok(escaped_text(input, p))
    } else {
        Err(RenderError::UnknownNodeKind(r))
    }
}

/// The HTML of a sequence of nodes, concatenated in order.
pub fn render_children(input: &str, v: &Vec<Pair>) -> (r: Result<String, RenderError>)
    ensures
        same_result(r, render_seq(input@, views(v@))),
    decreases v,
{
    let ghost s = input@;
    let ghost all = views(v@);
    let mut out = String::new();
    let mut k: usize = 0;
    proof {
        assert(all.subrange(0, all.len() as int) =~= all);
    }
    while k < v.len()
        invariant
            0 <= k <= v.len(),
            all == views(v@),
            s == input@,
            render_seq(s, all) == prepend(out@, render_seq(s, all.subrange(k as int, all.len() as int))),
        decreases v.len() - k,
    {
        let ghost suffix = all.subrange(k as int, all.len() as int);
        proof {
            assert(suffix[0] == v@[k as int].view());
            assert(suffix.subrange(1, suffix.len() as int) =~= all.subrange(k + 1, all.len() as int));
        }
        match render_pair(input, &v[k]) {
            Err(e) => {
                return Err(e);
            },
            Ok(a) => {
                let ghost before = out@;
                out.append(a.as_str());
                proof {
                    match render_seq(s, all.subrange(k + 1, all.len() as int)) {
                        Ok(b) => {
                            assert(before + (a@ + b) =~= out@ + b);
                        },
                        Err(_) => {},
                    }
                }
            },
        }
        k = k + 1;
    }
    proof {
        assert(all.subrange(k as int, all.len() as int) =~= Seq::<Node>::empty());
        assert(out@ + Seq::<char>::empty() =~= out@);
    }
    Ok(out)
}

/// The lines of a paragraph, joined with `<br>`.
pub fn render_paragraph_lines(input: &str, v: &Vec<Pair>) -> (r: Result<String, RenderError>)
    ensures
        same_result(r, render_lines(input@, views(v@))),
    decreases v,
{
    let ghost s = input@;
    let ghost all = views(v@);
    let mut out = String::new();
    let mut k: usize = 0;
    while k < v.len()
        invariant
            0 <= k <= v.len(),
            all == views(v@),
            s == input@,
            k == 0 ==> out@ == Seq::<char>::empty(),
            k > 0 ==> render_lines(s, all) == prepend(
                out@,
                sep_lines(s, all.subrange(k as int, all.len() as int)),
            ),
        decreases v.len() - k,
    {
        let ghost suffix = all.subrange(k as int, all.len() as int);
        proof {
            assert(suffix[0] == v@[k as int].view());
            assert(suffix.subrange(1, suffix.len() as int) =~= all.subrange(k + 1, all.len() as int));
            assert(all[k as int] == v@[k as int].view());
            lemma_view_inner(v@[k as int]);
            if k == 0 {
                assert(all.subrange(1, all.len() as int) =~= all.subrange(k + 1, all.len() as int));
            }
        }
        let line = &v[k];
        proof {
            assert(render_line(s, suffix[0]) == render_line(s, all[k as int]));
            if k == 0 {
                assert(render_lines(s, all) == match render_line(s, all[0]) {
                    Err(e) => Err(e),
                    Ok(a) => prepend(a, sep_lines(s, all.subrange(1, all.len() as int))),
                });
            } else {
                assert(sep_lines(s, suffix) == match render_line(s, suffix[0]) {
                    Err(e) => Err(e),
                    Ok(a) => prepend("<br>"@ + a, sep_lines(s, suffix.subrange(1, suffix.len() as int))),
                });
            }
        }
        if line.rule != Rule::paragraph_line {
            return Err(RenderError::UnknownNodeKind(line.rule));
        }
        match render_children(input, &line.inner) {
            Err(e) => {
                return Err(e);
            },
            Ok(a) => {
                let ghost before = out@;
                if k > 0 {
                    out.append("<br>");
                }
                out.append(a.as_str());
                proof {
                    match sep_lines(s, all.subrange(k + 1, all.len() as int)) {
                        Ok(b) => {
                            if k > 0 {
                                assert(before + ("<br>"@ + a@ + b) =~= out@ + b);
                            } else {
                                assert(before =~= Seq::<char>::empty());
                                assert(a@ + b =~= out@ + b);
                            }
                        },
                        Err(_) => {},
                    }
                }
            },
        }
        k = k + 1;
    }
    proof {
        if k > 0 {
            assert(all.subrange(k as int, all.len() as int) =~= Seq::<Node>::empty());
            assert(out@ + Seq::<char>::empty() =~= out@);
        } else {
            assert(all.len() == 0);
        }
    }
    Ok(out)
}

} // verus!
