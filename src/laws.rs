use vstd::prelude::*;
use crate::block::{block, blocks, hashes, heading_rule, line_end};
use crate::convert::{html_lines, render_all};
use crate::render::{escape, node_text, render, render_lines, render_seq, sep_lines};
use crate::text::{is_ws, scan_past, scan_to, ws_end};
use crate::tree::{Node, RenderError, Rule};

verus! {

proof fn lemma_scan_to_absent(s: Seq<char>, i: int, lim: int, c: char)
    requires
        0 <= i <= lim <= s.len(),
        forall|k: int| i <= k < lim ==> s[k] != c,
    ensures
        scan_to(s, i, lim, c) == lim,
    decreases lim - i,
{
    if i < lim {
        lemma_scan_to_absent(s, i + 1, lim, c);
    }
}

proof fn lemma_scan_past_run(s: Seq<char>, i: int, n: int, lim: int, c: char)
    requires
        0 <= i,
        0 <= n,
        i + n <= lim <= s.len(),
        forall|k: int| i <= k < i + n ==> s[k] == c,
        i + n == lim || s[i + n] != c,
    ensures
        scan_past(s, i, lim, c) == i + n,
    decreases n,
{
    if n > 0 {
        lemma_scan_past_run(s, i + 1, n - 1, lim, c);
    }
}

proof fn lemma_ws_end_stops(s: Seq<char>, i: int, j: int, lim: int)
    requires
        0 <= i <= j < lim <= s.len(),
        !is_ws(s[j]),
    ensures
        ws_end(s, i, lim) <= j,
    decreases j - i,
{
    if i < j && is_ws(s[i]) {
        lemma_ws_end_stops(s, i + 1, j, lim);
    }
}

/// A line made of exactly `n` (one to three) `#`, a space and a text with a
/// non-whitespace character is a heading of level `n` whose text is
/// everything after that space.
pub proof fn law_heading_level(s: Seq<char>, n: int, j: int)
    requires
        1 <= n <= 3,
        n < j < s.len(),
        forall|k: int| 0 <= k < n ==> s[k] == '#',
        s[n] == ' ',
        !is_ws(s[j]),
        forall|k: int| 0 <= k < s.len() ==> s[k] != '\n',
    ensures
        block(s, 0) matches Ok((h, _q)) && h.rule == heading_rule(n) && h.inner.len() == 1
            && h.inner[0].start == n + 1 && h.inner[0].end == s.len(),
{
    lemma_scan_to_absent(s, 0, s.len() as int, '\n');
    lemma_scan_past_run(s, 0, n, s.len() as int, '#');
    lemma_ws_end_stops(s, n + 1, j, s.len() as int);
    assert(!crate::block::is_blank(s, 0, s.len() as int)) by {
        lemma_ws_end_stops(s, 0, 0, s.len() as int);
    }
}

/// A block of heading level `n` is only ever made from a first line that
/// starts with exactly `n` `#`.
pub proof fn law_heading_level_only(s: Seq<char>, n: int)
    requires
        1 <= n <= 3,
        block(s, 0) matches Ok((h, _q)) && h.rule == heading_rule(n),
    ensures
        hashes(s, 0, line_end(s, 0)) == n,
{
}

/// Raw text reaches the HTML escaped exactly once: a plain-text node renders
/// as the escaping of the very text it covers, an escaped character as the
/// escaping of that character.
pub proof fn law_text_escaped_once(s: Seq<char>, n: Node)
    ensures
        (n.rule == Rule::plain_text || n.rule == Rule::content) ==> render(s, n) == Ok::<
            Seq<char>,
            RenderError,
        >(escape(node_text(s, n))),
        (n.rule == Rule::escaped && n.inner.len() >= 1) ==> render(s, n) == Ok::<
            Seq<char>,
            RenderError,
        >(escape(node_text(s, n.inner[0]))),
{
}

/// A paragraph of two lines renders as `<p>`, the first line, one `<br>`,
/// the second line and `</p>`.
pub proof fn law_two_line_paragraph(s: Seq<char>, p: Node, a: Seq<char>, b: Seq<char>)
    requires
        p.rule == Rule::paragraph,
        p.inner.len() == 2,
        p.inner[0].rule == Rule::paragraph_line,
        p.inner[1].rule == Rule::paragraph_line,
        render_seq(s, p.inner[0].inner) == Ok::<Seq<char>, RenderError>(a),
        render_seq(s, p.inner[1].inner) == Ok::<Seq<char>, RenderError>(b),
    ensures
        render(s, p) == Ok::<Seq<char>, RenderError>("<p>"@ + a + "<br>"@ + b + "</p>"@),
{
    let ls = p.inner;
    let tail = ls.subrange(1, 2);
    assert(tail[0] == ls[1]);
    assert(tail.subrange(1, 1) =~= Seq::<Node>::empty());
    assert(sep_lines(s, tail.subrange(1, 1)) == Ok::<Seq<char>, RenderError>(Seq::empty()));
    assert(sep_lines(s, tail) == Ok::<Seq<char>, RenderError>("<br>"@ + b + Seq::empty()));
    assert("<br>"@ + b + Seq::<char>::empty() =~= "<br>"@ + b);
    assert(render_lines(s, ls) == Ok::<Seq<char>, RenderError>(a + ("<br>"@ + b)));
    assert("<p>"@ + (a + ("<br>"@ + b)) + "</p>"@ =~= "<p>"@ + a + "<br>"@ + b + "</p>"@);
}

proof fn lemma_render_all(s: Seq<char>, bs: Seq<Node>, ls: Seq<Seq<char>>)
    requires
        render_all(s, bs) == Ok::<Seq<Seq<char>>, RenderError>(ls),
    ensures
        ls.len() == bs.len(),
        forall|k: int| 0 <= k < bs.len() ==> render(s, bs[k]) == Ok::<Seq<char>, RenderError>(#[trigger] ls[k]),
    decreases bs.len(),
{
    if bs.len() > 0 {
        let tail = bs.subrange(1, bs.len() as int);
        let rest = render_all(s, tail)->Ok_0;
        lemma_render_all(s, tail, rest);
        assert forall|k: int| 0 <= k < bs.len() implies render(s, bs[k]) == Ok::<Seq<char>, RenderError>(#[trigger] ls[k]) by {
            if k > 0 {
                assert(bs[k] == tail[k - 1]);
                assert(ls[k] == rest[k - 1]);
            }
        }
    }
}

/// Converting a document yields exactly one HTML fragment per block, in the
/// blocks' order.
pub proof fn law_one_fragment_per_block(s: Seq<char>)
    requires
        html_lines(s) is Ok,
    ensures
        blocks(s, 0) is Ok,
        html_lines(s)->Ok_0.len() == blocks(s, 0)->Ok_0.len(),
        forall|k: int|
            0 <= k < blocks(s, 0)->Ok_0.len() ==> render(s, blocks(s, 0)->Ok_0[k]) == Ok::<
                Seq<char>,
                RenderError,
            >(#[trigger] html_lines(s)->Ok_0[k]),
{
    let bs = blocks(s, 0)->Ok_0;
    lemma_render_all(s, bs, html_lines(s)->Ok_0);
}

} // verus!
