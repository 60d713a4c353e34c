use burp_tools::html::parse_html_document;

#[test]
fn elements_are_found_in_document_order() {
    let html = "<!DOCTYPE html><DIV class=\"a\"><!-- <x> --><b/>text<script>if (a<b) {}</SCRIPT><p>hi</p></div><i";
    let doc = parse_html_document(html);
    let tags: Vec<&str> = doc.nodes.iter().map(|n| n.tag.as_str()).collect();
    assert_eq!(tags, vec!["div", "b", "script", "p", "i"]);
    assert!(doc.nodes[0].outer_html.starts_with("<DIV class=\"a\">"));
    assert!(doc.nodes[0].outer_html.ends_with("</div>"));
    assert_eq!(doc.nodes[1].outer_html, "<b/>");
    assert_eq!(doc.nodes[2].text, "if (a<b) {}");
    assert_eq!(doc.nodes[3].outer_html, "<p>hi</p>");
    assert_eq!(doc.nodes[4].outer_html, "<i");
    assert_eq!(doc.nodes[2].parent, Some(0));
    assert_eq!(doc.nodes[0].attributes, vec![("class".to_string(), "a".to_string())]);
    let doc = parse_html_document("<a href='x y' data-n=1 checked / title = \"t\">");
    assert_eq!(
        doc.nodes[0].attributes,
        vec![
            ("href".to_string(), "x y".to_string()),
            ("data-n".to_string(), "1".to_string()),
            ("checked".to_string(), String::new()),
            ("title".to_string(), "t".to_string()),
        ]
    );
}

#[test]
fn text_without_tags_has_no_elements() {
    assert!(parse_html_document("a < b and c > d").nodes.is_empty());
    assert!(parse_html_document("</p><!-- <a> -->").nodes.is_empty());
    assert!(parse_html_document("").nodes.is_empty());
}

#[test]
fn void_elements_take_no_children_and_texts_go_to_the_innermost_element() {
    let html = "<div><img src=a.png><p>x</p></div>";
    let r = parse_html_document(html);
    assert_eq!(r.root_children, vec![0]);
    assert_eq!(r.nodes.len(), 3);
    assert_eq!(r.nodes[0].children, vec![1, 2]);
    assert_eq!(r.nodes[1].tag, "img");
    assert_eq!(r.nodes[1].parent, Some(0));
    assert!(r.nodes[1].children.is_empty());
    assert_eq!(r.nodes[1].attributes, vec![("src".to_string(), "a.png".to_string())]);
    assert_eq!(r.nodes[2].parent, Some(0));
    assert_eq!(r.nodes[2].text, "x");
    assert_eq!(r.nodes[2].outer_html, "<p>x</p>");
    assert_eq!(r.nodes[0].outer_html, html);
}

#[test]
fn raw_text_quoted_attributes_and_comments() {
    let html = r#"<script>var x = "<div id='fake'></div>";</script>"#;
    let r = parse_html_document(html);
    assert_eq!(r.nodes.len(), 1);
    assert_eq!(r.nodes[0].text, r#"var x = "<div id='fake'></div>";"#);
    assert_eq!(r.nodes[0].outer_html, html);

    let html = r#"<div data-formula="a > b && c < d">Formula</div>"#;
    let r = parse_html_document(html);
    assert_eq!(r.nodes.len(), 1);
    assert_eq!(r.nodes[0].attributes, vec![("data-formula".to_string(), "a > b && c < d".to_string())]);
    assert_eq!(r.nodes[0].text, "Formula");
    assert_eq!(r.nodes[0].outer_html, html);

    let r = parse_html_document(r#"<div><!-- <p class="ghost">x</p> --><p>real</p></div>"#);
    assert_eq!(r.nodes.len(), 2);
    assert_eq!(r.root_children, vec![0]);
    assert_eq!(r.nodes[0].children, vec![1]);
    assert_eq!(r.nodes[1].parent, Some(0));
    assert_eq!(r.nodes[1].text, "real");
}
