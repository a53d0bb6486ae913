use rins_markdown_parser::render::{render_children, render_pair};
use rins_markdown_parser::{
    parse_by_rule, parse_markdown, str_to_html, ErrorParse, Grammar, Pair, ParseError, RenderError,
    Rule,
};

fn html(input: &str) -> Vec<String> {
    str_to_html(input).expect("the text should convert")
}

fn leaf(rule: Rule, start: usize, end: usize) -> Pair {
    Pair { rule, start, end, inner: Vec::new() }
}

#[test]
fn end_to_end_example() {
    let out = html("# Title\n---\n\nHello **world**!");
    assert_eq!(
        out,
        vec![
            "<h1>Title</h1>".to_string(),
            "<hr>".to_string(),
            "<br/>".to_string(),
            "<p>Hello <strong>world</strong>!</p>".to_string(),
        ]
    );
}

#[test]
fn bold_is_one_span_not_two_italics() {
    let input = "**bold**";
    let pairs = parse_by_rule(Rule::styled_text, input).unwrap();
    assert_eq!(pairs.len(), 1);
    assert_eq!(pairs[0].as_rule(), Rule::bold);
    assert_eq!(pairs[0].inner.len(), 1);
    assert_eq!(pairs[0].inner[0].as_rule(), Rule::content);
    assert_eq!(pairs[0].inner[0].as_str(input), "bold");
    assert_eq!(html(input), vec!["<p><strong>bold</strong></p>".to_string()]);
}

#[test]
fn nested_spans() {
    let input = "_a**b~~c[d](e)f~~g**h_";
    let it = parse_by_rule(Rule::styled_text, input).unwrap().remove(0);
    assert_eq!(it.rule, Rule::italic);
    assert_eq!(it.inner.len(), 3);
    assert_eq!(it.inner[0].rule, Rule::content);
    assert_eq!(it.inner[0].as_str(input), "a");
    assert_eq!(it.inner[2].rule, Rule::content);
    assert_eq!(it.inner[2].as_str(input), "h");
    let b = &it.inner[1];
    assert_eq!(b.rule, Rule::bold);
    assert_eq!(b.inner.len(), 3);
    assert_eq!(b.inner[0].as_str(input), "b");
    assert_eq!(b.inner[2].as_str(input), "g");
    let st = &b.inner[1];
    assert_eq!(st.rule, Rule::strikethrough);
    assert_eq!(st.inner.len(), 3);
    assert_eq!(st.inner[0].rule, Rule::content);
    assert_eq!(st.inner[0].as_str(input), "c");
    assert_eq!(st.inner[1].rule, Rule::inline_link);
    assert_eq!(st.inner[1].inner[0].as_str(input), "d");
    assert_eq!(st.inner[1].inner[1].as_str(input), "e");
    assert_eq!(st.inner[2].rule, Rule::content);
    assert_eq!(st.inner[2].as_str(input), "f");
    assert_eq!(
        html(input),
        vec!["<p><em>a<strong>b<del>c<a href=\"e\">d</a>f</del>g</strong>h</em></p>".to_string()]
    );
}

#[test]
fn backslash_space_is_malformed_escape() {
    assert_eq!(
        parse_by_rule(Rule::escaped, "\\ x").unwrap_err(),
        ErrorParse::ParsingError(ParseError::MalformedEscape(0))
    );
    assert_eq!(
        str_to_html("ab \\ x").unwrap_err(),
        ErrorParse::ParsingError(ParseError::MalformedEscape(3))
    );
    assert_eq!(
        str_to_html("trailing\\").unwrap_err(),
        ErrorParse::ParsingError(ParseError::MalformedEscape(8))
    );
    let p = parse_by_rule(Rule::escaped, "\\*").unwrap().remove(0);
    assert_eq!(p.rule, Rule::escaped);
    assert_eq!(p.inner[0].rule, Rule::char);
    assert_eq!(p.inner[0].as_str("\\*"), "*");
    assert_eq!(html("\\*x\\*"), vec!["<p>*x*</p>".to_string()]);
}

#[test]
fn heading_levels_are_exact() {
    assert_eq!(html("# a"), vec!["<h1>a</h1>".to_string()]);
    assert_eq!(html("## a"), vec!["<h2>a</h2>".to_string()]);
    assert_eq!(html("### a # b"), vec!["<h3>a # b</h3>".to_string()]);
    assert!(parse_by_rule(Rule::heading1, "## a").is_err());
    assert!(parse_by_rule(Rule::heading2, "### a").is_err());
    assert!(parse_by_rule(Rule::heading3, "# a").is_err());
    assert_eq!(html("#### a"), vec!["<p>#### a</p>".to_string()]);
}

#[test]
fn heading_without_text_is_an_error() {
    assert_eq!(
        str_to_html("ok\n\n##   ").unwrap_err(),
        ErrorParse::ParsingError(ParseError::MalformedHeading(4))
    );
    assert_eq!(
        str_to_html("#").unwrap_err(),
        ErrorParse::ParsingError(ParseError::MalformedHeading(0))
    );
}

#[test]
fn unterminated_code_fence_is_an_error() {
    assert_eq!(
        str_to_html("```rs\nlet x = 1;\n").unwrap_err(),
        ErrorParse::ParsingError(ParseError::UnterminatedCodeFence(0))
    );
    assert_eq!(
        str_to_html("```rs").unwrap_err(),
        ErrorParse::ParsingError(ParseError::UnterminatedCodeFence(0))
    );
}

#[test]
fn rule_that_does_not_match_is_no_match() {
    assert_eq!(
        parse_by_rule(Rule::bold, "plain").unwrap_err(),
        ErrorParse::ParsingError(ParseError::NoMatch(0))
    );
    assert_eq!(Grammar::parse(Rule::url, "x").unwrap_err(), ParseError::NoMatch(0));
}

#[test]
fn one_fragment_per_block_in_order() {
    let input = "# h\n\npara one\nstill one\n```\ncode\n```\n***\n> quoted\n\nlast";
    let tree = parse_markdown(input).unwrap().remove(0);
    let blocks: Vec<Rule> = tree.inner.iter().map(|p| p.rule).collect();
    assert_eq!(
        blocks,
        vec![
            Rule::heading1,
            Rule::empty_line,
            Rule::paragraph,
            Rule::code_block,
            Rule::horizontal_rule,
            Rule::quote,
            Rule::empty_line,
            Rule::paragraph,
            Rule::EOI,
        ]
    );
    let out = html(input);
    assert_eq!(out.len(), blocks.len() - 1);
    assert_eq!(
        out,
        vec![
            "<h1>h</h1>".to_string(),
            "<br/>".to_string(),
            "<p>para one<br>still one</p>".to_string(),
            "<pre><code class=\"language-\">code</code></pre>".to_string(),
            "<hr>".to_string(),
            "<blockquote><p>quoted</p></blockquote>".to_string(),
            "<br/>".to_string(),
            "<p>last</p>".to_string(),
        ]
    );
}

#[test]
fn empty_input_has_no_blocks() {
    assert_eq!(html(""), Vec::<String>::new());
    let tree = parse_markdown("").unwrap().remove(0);
    assert_eq!(tree.inner.len(), 1);
    assert_eq!(tree.inner[0].rule, Rule::EOI);
}

#[test]
fn two_line_paragraph_has_one_br() {
    assert_eq!(html("line1\nline2"), vec!["<p>line1<br>line2</p>".to_string()]);
    assert_eq!(html("a\nb\nc\n"), vec!["<p>a<br>b<br>c</p>".to_string()]);
}

#[test]
fn text_is_escaped_once() {
    assert_eq!(
        html("a < b & \"c\" 'd' &amp;"),
        vec!["<p>a &lt; b &amp; &quot;c&quot; &#x27;d&#x27; &amp;amp;</p>".to_string()]
    );
    assert_eq!(html("# <x>"), vec!["<h1>&lt;x&gt;</h1>".to_string()]);
}

#[test]
fn code_block_is_verbatim_and_escaped() {
    assert_eq!(
        html("```py\nprint(\"**hi**\" < 2)\n```"),
        vec!["<pre><code class=\"language-py\">print(&quot;**hi**&quot; &lt; 2)</code></pre>".to_string()]
    );
    assert_eq!(
        html("```\n```"),
        vec!["<pre><code class=\"language-\"></code></pre>".to_string()]
    );
}

#[test]
fn links_and_images_keep_url_verbatim() {
    assert_eq!(
        html("see [a<b](http://x/?q=1&r=2) and ![p&q](i.png)"),
        vec![
            "<p>see <a href=\"http://x/?q=1&r=2\">a&lt;b</a> and <img src=\"i.png\" alt=\"p&amp;q\"></p>"
                .to_string()
        ]
    );
}

#[test]
fn unmatched_delimiters_are_plain_text() {
    assert_eq!(html("a * b ~ c _d [e !f"), vec!["<p>a * b ~ c _d [e !f</p>".to_string()]);
    assert_eq!(html("**bold*"), vec!["<p>*<em>bold</em></p>".to_string()]);
    assert_eq!(html("__u__ _i_ ~~s~~"), vec!["<p><u>u</u> <em>i</em> <del>s</del></p>".to_string()]);
}

#[test]
fn quote_markers_are_stripped() {
    assert_eq!(
        html("> one\n>two\nthree"),
        vec!["<blockquote><p>one<br>two<br>three</p></blockquote>".to_string()]
    );
}

#[test]
fn horizontal_rules() {
    assert_eq!(html("---"), vec!["<hr>".to_string()]);
    assert_eq!(html("*****  "), vec!["<hr>".to_string()]);
    assert_eq!(html("–––"), vec!["<hr>".to_string()]);
    assert_eq!(html("-*-"), vec!["<p>-*-</p>".to_string()]);
    assert_eq!(html("--"), vec!["<p>--</p>".to_string()]);
}

#[test]
fn paragraph_stops_at_other_blocks() {
    assert_eq!(
        html("text\n# head\n---"),
        vec!["<p>text</p>".to_string(), "<h1>head</h1>".to_string(), "<hr>".to_string()]
    );
}

#[test]
fn renderer_reports_missing_children() {
    let input = "x";
    let heading = leaf(Rule::heading2, 0, 1);
    assert_eq!(
        render_pair(input, &heading).unwrap_err(),
        RenderError::MissingChild { parent: Rule::heading2, expected: 1 }
    );
    let link = Pair { rule: Rule::inline_link, start: 0, end: 1, inner: vec![leaf(Rule::link_text, 0, 1)] };
    assert_eq!(
        render_pair(input, &link).unwrap_err(),
        RenderError::MissingChild { parent: Rule::inline_link, expected: 2 }
    );
    assert_eq!(
        render_pair(input, &leaf(Rule::code_block, 0, 1)).unwrap_err(),
        RenderError::MissingChild { parent: Rule::code_block, expected: 2 }
    );
}

#[test]
fn renderer_reports_unknown_nodes() {
    let input = "x";
    assert_eq!(
        render_pair(input, &leaf(Rule::url, 0, 1)).unwrap_err(),
        RenderError::UnknownNodeKind(Rule::url)
    );
    let para = Pair { rule: Rule::paragraph, start: 0, end: 1, inner: vec![leaf(Rule::plain_text, 0, 1)] };
    assert_eq!(
        render_pair(input, &para).unwrap_err(),
        RenderError::UnknownNodeKind(Rule::plain_text)
    );
    let kids = vec![leaf(Rule::plain_text, 0, 1), leaf(Rule::markdown, 0, 1)];
    assert_eq!(render_children(input, &kids).unwrap_err(), RenderError::UnknownNodeKind(Rule::markdown));
}

#[test]
fn renderer_clamps_offsets() {
    let input = "a<b";
    assert_eq!(render_pair(input, &leaf(Rule::plain_text, 1, 10)).unwrap(), "&lt;b");
    assert_eq!(render_pair(input, &leaf(Rule::plain_text, 5, 2)).unwrap(), "");
}
