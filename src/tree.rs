use vstd::prelude::*;

verus! {

/// The grammar rules; each node of a parse tree is labelled with one of them.
#[allow(non_camel_case_types)]
#[derive(Clone, Copy, Debug, PartialEq, Eq, Structural)]
pub enum Rule {
    markdown,
    EOI,
    empty_line,
    heading1,
    heading2,
    heading3,
    single_line_text,
    horizontal_rule,
    code_block,
    code_lang,
    code_content,
    quote,
    paragraph,
    paragraph_line,
    plain_text,
    content,
    escaped,
    char,
    styled_text,
    bold,
    italic,
    underline,
    strikethrough,
    inline_link,
    link_text,
    url,
    inline_image,
    alt_text,
}

/// Mathematical parse-tree node: a rule, the half-open range of character
/// positions it covers in the input, and its children in source order.
pub struct Node {
    pub rule: Rule,
    pub start: int,
    pub end: int,
    pub inner: Seq<Node>,
}

pub open spec fn leaf(rule: Rule, start: int, end: int) -> Node {
    Node { rule, start, end, inner: Seq::empty() }
}

/// A parse-tree node. `start` and `end` are character offsets into the text
/// that was parsed: the node does not own any text.
#[derive(Debug)]
pub struct Pair {
    pub rule: Rule,
    pub start: usize,
    pub end: usize,
    pub inner: Vec<Pair>,
}

impl Pair {
    pub open spec fn view(self) -> Node
        decreases self,
    {
        Node {
            rule: self.rule,
            start: self.start as int,
            end: self.end as int,
            inner: Seq::new(
                self.inner.len() as nat,
                |k: int|
                    if 0 <= k < self.inner.len() {
                        self.inner[k].view()
                    } else {
                        leaf(Rule::EOI, 0, 0)
                    },
            ),
        }
    }

    pub fn as_rule(&self) -> (r: Rule)
        ensures
            r == self.rule,
    {
        self.rule
    }

    /// The children of this node, in source order.
    pub fn into_inner(self) -> (r: Vec<Pair>)
        ensures
            r == self.inner,
    {
        self.inner
    }

    /// The text this node covers, taken from `input`, the text that was parsed.
    pub fn as_str(&self, input: &str) -> (r: String)
        ensures
            r@ == clamped_text(input@, self.start as int, self.end as int),
    {
        slice_text(input, self.start, self.end)
    }
}

/// The views of a sequence of pairs.
pub open spec fn views(v: Seq<Pair>) -> Seq<Node> {
    Seq::new(v.len(), |k: int| v[k].view())
}

pub proof fn lemma_view_inner(p: Pair)
    ensures
        p.view().inner == views(p.inner@),
        p.view().rule == p.rule,
        p.view().start == p.start as int,
        p.view().end == p.end as int,
{
    assert(p.view().inner =~= views(p.inner@));
}

pub proof fn lemma_views_cons(p: Pair, rest: Seq<Pair>)
    ensures
        views(seq![p] + rest) == seq![p.view()] + views(rest),
{
    assert(views(seq![p] + rest) =~= seq![p.view()] + views(rest));
}

pub proof fn lemma_views_push(v: Seq<Pair>, p: Pair)
    ensures
        views(v.push(p)) == views(v).push(p.view()),
{
    assert(views(v.push(p)) =~= views(v).push(p.view()));
}

/// The text between two character offsets, with both offsets first pulled
/// into range: a node whose offsets lie outside the text yields a shorter
/// (possibly empty) piece instead of failing.
pub open spec fn clamped_text(s: Seq<char>, start: int, end: int) -> Seq<char> {
    let a = if start < s.len() { start } else { s.len() as int };
    let b = if end < a { a } else if end > s.len() { s.len() as int } else { end };
    s.subrange(a, b)
}

pub fn slice_text(input: &str, start: usize, end: usize) -> (r: String)
    ensures
        r@ == clamped_text(input@, start as int, end as int),
{
    let len = input.unicode_len();
    let a = if start < len { start } else { len };
    let b = if end < a { a } else if end > len { len } else { end };
    input.substring_char(a, b).to_string()
}

/// Why a text could not be parsed; each variant carries the character offset
/// at which the failing construct starts.
#[derive(Clone, Copy, Debug, PartialEq, Eq, Structural)]
pub enum ParseError {
    /// A heading marker with no text after it.
    MalformedHeading(usize),
    /// A code fence that is never closed.
    UnterminatedCodeFence(usize),
    /// A backslash followed by whitespace or by the end of the line.
    MalformedEscape(usize),
    /// The requested rule does not match at this offset.
    NoMatch(usize),
}

/// A parse tree that the renderer cannot turn into HTML.
#[derive(Clone, Copy, Debug, PartialEq, Eq, Structural)]
pub enum RenderError {
    /// A node of rule `parent` has fewer than `expected` children.
    MissingChild { parent: Rule, expected: usize },
    /// A node whose rule has no HTML form at its place in the tree.
    UnknownNodeKind(Rule),
}

/// The error of the conversion from markdown to HTML.
#[derive(Clone, Copy, Debug, PartialEq, Eq, Structural)]
pub enum ErrorParse {
    ParsingError(ParseError),
    RenderingError(RenderError),
}

} // verus!
