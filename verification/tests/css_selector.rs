use burp_tools::css_extract::extract_css_selector;

#[test]
fn css_selector_test_pest_css_selector() {
    let html = r#"
    <html>
        <body>
            <div class="container">
                <form id="login" action="/login" method="POST">
                    <input type="hidden" name="csrf" value="secret123" />
                    <input type="text" name="username" class="form-control" />
                    <button type="submit" class="btn btn-primary">Log In</button>
                </form>
                <div class="alert alert-danger">Invalid credentials</div>
                <a href="https://example.com/forgot">Forgot Password</a>
            </div>
        </body>
    </html>
    "#;

    let res = extract_css_selector(html, "form#login").unwrap();
    assert_eq!(res.len(), 1);
    assert!(res[0].contains("csrf"));

    let res_input = extract_css_selector(html, "input[name=csrf]").unwrap();
    assert_eq!(res_input.len(), 1);
    assert!(res_input[0].contains("secret123"));

    let res_class = extract_css_selector(html, ".alert").unwrap();
    assert_eq!(res_class.len(), 1);
    assert!(res_class[0].contains("Invalid credentials"));

    // Multi-class
    let res_btn = extract_css_selector(html, ".btn.btn-primary").unwrap();
    assert_eq!(res_btn.len(), 1);
    assert!(res_btn[0].contains("Log In"));

    // Attribute starts-with
    let res_href = extract_css_selector(html, "a[href^='https://']").unwrap();
    assert_eq!(res_href.len(), 1);
    assert!(res_href[0].contains("Forgot Password"));

    // Pseudo :contains
    let res_contains = extract_css_selector(html, "button:contains('Log In')").unwrap();
    assert_eq!(res_contains.len(), 1);
}

#[test]
fn test_css_combinators_and_lists() {
    let html = r#"
    <div id="main">
        <h1>Title</h1>
        <p class="intro">Paragraph 1</p>
        <p class="body">Paragraph 2</p>
        <span class="note">Note</span>
    </div>
    "#;

    // Child combinator >
    let res = extract_css_selector(html, "div#main > p").unwrap();
    assert_eq!(res.len(), 2);

    // Next sibling +
    let res_next = extract_css_selector(html, "h1 + p").unwrap();
    assert_eq!(res_next.len(), 1);
    assert!(res_next[0].contains("Paragraph 1"));

    // Subsequent sibling ~
    let res_sub = extract_css_selector(html, "h1 ~ p").unwrap();
    assert_eq!(res_sub.len(), 2);

    // Selector list ,
    let res_list = extract_css_selector(html, "h1, span.note").unwrap();
    assert_eq!(res_list.len(), 2);
}

#[test]
fn test_css_escapes_and_unicode() {
    let html = r#"
    <div id="item:1">First</div>
    <div class="foo.bar">Second</div>
    <div data-emoji="🦀">Crab</div>
    "#;

    let res1 = extract_css_selector(html, r#"#item\:1"#).unwrap();
    assert_eq!(res1.len(), 1);

    let res2 = extract_css_selector(html, r#".foo\.bar"#).unwrap();
    assert_eq!(res2.len(), 1);

    let res3 = extract_css_selector(html, r#"[data-emoji="🦀"]"#).unwrap();
    assert_eq!(res3.len(), 1);
}

#[test]
fn test_css_attributes_case_flags() {
    let html = r#"
    <input name="testCASE" value="foo" />
    <input name="other" value="FOO" />
    "#;

    // Case-sensitive 's' flag
    let res_s = extract_css_selector(html, r#"input[value="foo" s]"#).unwrap();
    assert_eq!(res_s.len(), 1);

    // Case-insensitive 'i' flag
    let res_i = extract_css_selector(html, r#"input[value="foo" i]"#).unwrap();
    assert_eq!(res_i.len(), 2);
}

#[test]
fn test_css_nth_child_and_logical_pseudos() {
    let html = r#"
    <ul>
        <li class="item">One</li>
        <li class="item">Two</li>
        <li class="item special">Three</li>
        <li class="item">Four</li>
    </ul>
    "#;

    let res_first = extract_css_selector(html, "li:first-child").unwrap();
    assert_eq!(res_first.len(), 1);
    assert!(res_first[0].contains("One"));

    let res_last = extract_css_selector(html, "li:last-child").unwrap();
    assert_eq!(res_last.len(), 1);
    assert!(res_last[0].contains("Four"));

    let res_odd = extract_css_selector(html, "li:nth-child(odd)").unwrap();
    assert_eq!(res_odd.len(), 2);

    let res_not = extract_css_selector(html, "li:not(.special)").unwrap();
    assert_eq!(res_not.len(), 3);

    let res_is = extract_css_selector(html, "li:is(.special)").unwrap();
    assert_eq!(res_is.len(), 1);
}
#[test]
fn logical_pseudo_accepts_type_selectors_starting_with_n() {
    let html = "<main><nav>menu</nav><p>copy</p></main>";

    let not_nav = extract_css_selector(html, "main > :not(nav)").unwrap();
    assert_eq!(not_nav, vec!["<p>copy</p>"]);

    let is_nav = extract_css_selector(html, "main > :is(nav)").unwrap();
    assert_eq!(is_nav, vec!["<nav>menu</nav>"]);
}

#[test]
fn nth_child_supports_n_offsets_and_root_siblings() {
    let nested = "<ul><li>1</li><li>2</li><li>3</li><li>4</li></ul>";
    let nth = extract_css_selector(nested, "li:nth-child(n+2)").unwrap();
    assert_eq!(nth, vec!["<li>2</li>", "<li>3</li>", "<li>4</li>"]);

    let root = "<h1>title</h1><p>body</p><p>tail</p>";
    let adjacent = extract_css_selector(root, "h1 + p").unwrap();
    assert_eq!(adjacent, vec!["<p>body</p>"]);
    let following = extract_css_selector(root, "h1 ~ p").unwrap();
    assert_eq!(following, vec!["<p>body</p>", "<p>tail</p>"]);
}

#[test]
fn test_css_attributes_with_brackets_and_quotes() {
    let html = r#"
    <div data-formula="a > b && c < d">Formula</div>
    <script>var x = "<div id='fake'></div>";</script>
    "#;

    let res = extract_css_selector(html, "div[data-formula]").unwrap();
    assert_eq!(res.len(), 1);

    // Ensure script contents are not matched as DOM elements
    let res_fake = extract_css_selector(html, "#fake").unwrap();
    assert_eq!(res_fake.len(), 0);
}
#[test]
fn test_css_whitespace_descendant_vs_compound() {
    let html = r#"
    <div class="target">
        <span class="target">Inner</span>
    </div>
    <div class="other">
        <span class="target">Outside</span>
    </div>
    "#;

    // Compound: div.target (matches outer div only)
    let res_compound = extract_css_selector(html, "div.target").unwrap();
    assert_eq!(res_compound.len(), 1);
    assert!(res_compound[0].starts_with("<div"));

    // Descendant with whitespace: div .target (matches span inside div)
    let res_descendant = extract_css_selector(html, "div .target").unwrap();
    assert_eq!(res_descendant.len(), 2);
}

#[test]
fn test_css_empty_attributes_and_void_elements() {
    let html = r#"
    <form>
        <input type="text" disabled />
        <input type="hidden" value="" />
        <img src="pic.jpg" alt="photo" />
        <p>Text after img</p>
    </form>
    "#;

    // Empty / boolean attribute
    let res_disabled = extract_css_selector(html, "input[disabled]").unwrap();
    assert_eq!(res_disabled.len(), 1);

    let res_empty_val = extract_css_selector(html, "input[value='']").unwrap();
    assert_eq!(res_empty_val.len(), 1);

    // Void element: img is closed immediately, so p is its sibling, not child
    let res_sibling = extract_css_selector(html, "img + p").unwrap();
    assert_eq!(res_sibling.len(), 1);
    assert!(res_sibling[0].contains("Text after img"));
}

#[test]
fn test_css_comments_and_malformed_html() {
    let html = r#"
    <div>
        <!-- <div class="hidden-ghost">Fake</div> -->
        <p>Real Content</p>
    </div>
    "#;

    // Comment should not be parsed as element
    let res_ghost = extract_css_selector(html, ".hidden-ghost").unwrap();
    assert_eq!(res_ghost.len(), 0);

    let res_p = extract_css_selector(html, "div > p").unwrap();
    assert_eq!(res_p.len(), 1);
}

#[test]
fn test_css_invalid_syntax_error() {
    let res = extract_css_selector("<div></div>", "div[unclosed");
    assert!(res.is_err());

    let res2 = extract_css_selector("<div></div>", "div > > p");
    assert!(res2.is_err());
}

#[test]
fn test_css_structural_and_logical_where() {
    let html = r#"
    <div id="parent">
        <span class="only">Only Span</span>
    </div>
    <div id="parent2">
        <span class="first">First</span>
        <span class="second">Second</span>
    </div>
    "#;

    let res_only = extract_css_selector(html, "span:only-child").unwrap();
    assert_eq!(res_only.len(), 1);
    assert!(res_only[0].contains("Only Span"));

    let res_where = extract_css_selector(html, "span:where(.first, .only)").unwrap();
    assert_eq!(res_where.len(), 2);
}

#[test]
fn body_filter_test_pest_css_selector() {
    let html = r#"
    <html>
        <body>
            <div class="container">
                <form id="login" action="/login" method="POST">
                    <input type="hidden" name="csrf" value="secret123" />
                    <input type="text" name="username" class="form-control" />
                    <button type="submit" class="btn btn-primary">Log In</button>
                </form>
                <div class="alert alert-danger">Invalid credentials</div>
                <a href="https://example.com/forgot">Forgot Password</a>
            </div>
        </body>
    </html>
    "#;

    let res = extract_css_selector(html, "form#login").unwrap();
    assert_eq!(res.len(), 1);
    assert!(res[0].contains("csrf"));

    let res_input = extract_css_selector(html, "input[name=csrf]").unwrap();
    assert_eq!(res_input.len(), 1);
    assert!(res_input[0].contains("secret123"));

    let res_class = extract_css_selector(html, ".alert").unwrap();
    assert_eq!(res_class.len(), 1);
    assert!(res_class[0].contains("Invalid credentials"));

    // Multi-class
    let res_btn = extract_css_selector(html, ".btn.btn-primary").unwrap();
    assert_eq!(res_btn.len(), 1);
    assert!(res_btn[0].contains("Log In"));

    // Attribute starts-with
    let res_href = extract_css_selector(html, "a[href^='https://']").unwrap();
    assert_eq!(res_href.len(), 1);
    assert!(res_href[0].contains("Forgot Password"));

    // Pseudo :contains
    let res_contains = extract_css_selector(html, "button:contains('Log In')").unwrap();
    assert_eq!(res_contains.len(), 1);
}

#[test]
fn unparsable_selectors_are_reported_with_their_text() {
    assert_eq!(
        extract_css_selector("<p>x</p>", "p >").unwrap_err(),
        "CSS selector parse error: p >"
    );
    assert_eq!(
        extract_css_selector("<p>x</p>", "[").unwrap_err(),
        "CSS selector parse error: ["
    );
}

#[test]
fn narrowing_the_last_step_by_not_and_is_splits_its_matches() {
    let html = r#"<div id="a"><ul><li class="x">1</li><li>2</li></ul></div>
        <ul><li class="x">3</li><li class="y">4</li><li>5</li></ul>"#;
    for (x, s) in [("div ul > li", ".x"), ("ul > li", ".x, .y"), ("ul li:last-child", ".x")] {
        let all = extract_css_selector(html, x).unwrap();
        let not = extract_css_selector(html, &format!("{x}:not({s})")).unwrap();
        let is = extract_css_selector(html, &format!("{x}:is({s})")).unwrap();
        assert_eq!(not.len() + is.len(), all.len(), "{x} / {s}");
        assert!(not.iter().all(|m| all.contains(m) && !is.contains(m)));
        assert!(is.iter().all(|m| all.contains(m)));
    }
}
