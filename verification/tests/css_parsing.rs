use burp_tools::css::{CssAttrOp, CssCombinator, CssPseudo};
use burp_tools::css_escape::{parse_nth_expr, unescape_css, unquote_and_unescape};
use burp_tools::css_parse::{parse_css_selector, parse_css_selector_list};
use burp_tools::html::parse_html_document;

#[test]
fn unescape_handles_hex_and_literal_escapes() {
    assert_eq!(unescape_css(r"item\:1"), "item:1");
    assert_eq!(unescape_css(r"\31 23"), "123");
    assert_eq!(unescape_css(r"\D800x"), "\u{FFFD}x");
    assert_eq!(unescape_css("a\\"), "a");
    assert_eq!(unescape_css("a\\\nb"), "a\nb");
    assert_eq!(unescape_css(r"\1F980"), "🦀");
}

#[test]
fn unquote_strips_matching_quotes_only() {
    assert_eq!(unquote_and_unescape("  'a b'  "), "a b");
    assert_eq!(unquote_and_unescape("\"x\\\"y\""), "x\"y");
    assert_eq!(unquote_and_unescape("'mixed\""), "'mixed\"");
    assert_eq!(unquote_and_unescape("\""), "\"");
}

#[test]
fn nth_expressions_follow_an_plus_b() {
    assert_eq!(parse_nth_expr("odd"), Ok((2, 1)));
    assert_eq!(parse_nth_expr(" EVEN "), Ok((2, 0)));
    assert_eq!(parse_nth_expr("3"), Ok((0, 3)));
    assert_eq!(parse_nth_expr("n+2"), Ok((1, 2)));
    assert_eq!(parse_nth_expr("-n + 3"), Ok((-1, 3)));
    assert_eq!(parse_nth_expr("2n"), Ok((2, 0)));
    assert_eq!(
        parse_nth_expr("x"),
        Err("Invalid nth integer: invalid digit found in string".to_owned())
    );
    assert_eq!(parse_nth_expr("nn"), Err("Invalid nth expression: nn".to_owned()));
    assert_eq!(
        parse_nth_expr("xn"),
        Err("Invalid nth multiplier: invalid digit found in string".to_owned())
    );
    assert_eq!(
        parse_nth_expr("n+99999999999999999999"),
        Err("Invalid nth offset: number too large to fit in target type".to_owned())
    );
    assert_eq!(
        parse_nth_expr(""),
        Err("Invalid nth integer: cannot parse integer from empty string".to_owned())
    );
}

#[test]
fn selector_lists_parse_into_steps() {
    let list = parse_css_selector_list(" div#main > p.a.b , a[href^='x' i] ").unwrap();
    assert_eq!(list.selectors.len(), 2);
    let first = &list.selectors[0];
    assert_eq!(first.steps.len(), 2);
    assert_eq!(first.steps[0].tag.as_deref(), Some("div"));
    assert_eq!(first.steps[0].id.as_deref(), Some("main"));
    assert!(first.steps[0].combinator.is_none());
    assert_eq!(first.steps[1].combinator, Some(CssCombinator::Child));
    assert_eq!(first.steps[1].classes, vec!["a".to_owned(), "b".to_owned()]);
    let attr = &list.selectors[1].steps[0].attrs[0];
    assert_eq!(attr.name, "href");
    assert_eq!(attr.op, CssAttrOp::StartsWith);
    assert_eq!(attr.value.as_deref(), Some("x"));
    assert_eq!(attr.case_sensitive, Some(false));
}

#[test]
fn pseudo_classes_parse() {
    let steps = parse_css_selector("LI:NTH-CHILD(2n+1):not(.x, #y):first-child").unwrap();
    assert_eq!(steps.len(), 1);
    assert_eq!(steps[0].tag.as_deref(), Some("li"));
    assert!(matches!(steps[0].pseudos[0], CssPseudo::NthChild { a: 2, b: 1 }));
    match &steps[0].pseudos[1] {
        CssPseudo::Not(list) => assert_eq!(list.len(), 2),
        other => panic!("unexpected {other:?}"),
    }
    assert!(matches!(steps[0].pseudos[2], CssPseudo::FirstChild));
}

#[test]
fn malformed_selectors_are_refused() {
    assert!(parse_css_selector_list("").is_err());
    assert!(parse_css_selector_list("div,").is_err());
    assert!(parse_css_selector_list("div:hover").is_err());
    assert!(parse_css_selector_list("li:nth-child(x)").is_err());
    assert!(parse_css_selector_list("a[href=]").is_err());
    assert!(parse_css_selector_list("p:contains(x)").is_err());
}

#[test]
fn html_documents_keep_structure() {
    let doc = parse_html_document("<ul><li>1</li><li>2<br></li></ul><p>x");
    assert_eq!(doc.nodes.len(), 5);
    assert_eq!(doc.root_children, vec![0, 4]);
    assert_eq!(doc.nodes[0].children, vec![1, 2]);
    assert_eq!(doc.nodes[2].children, vec![3]);
    assert_eq!(doc.nodes[1].outer_html, "<li>1</li>");
    assert_eq!(doc.nodes[4].outer_html, "<p>x");
    assert_eq!(doc.nodes[0].get_attr("missing"), None);
}

#[test]
fn one_selector_is_the_first_of_its_list() {
    let steps = parse_css_selector("h1, span.note").unwrap();
    assert_eq!(steps.len(), 1);
    assert_eq!(steps[0].tag.as_deref(), Some("h1"));
    assert!(steps[0].classes.is_empty());
    let list = parse_css_selector_list("h1, span.note").unwrap();
    assert_eq!(list.selectors.len(), 2);
    assert_eq!(list.selectors[0].steps.len(), steps.len());
    for bad in ["div[unclosed", "div > > p", ""] {
        assert_eq!(
            parse_css_selector(bad).unwrap_err(),
            parse_css_selector_list(bad).unwrap_err()
        );
    }
}
