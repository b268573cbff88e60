use grub_md::pipeline::convert;

#[test]
fn test_basic_heading() {
    let r = convert("<h1>Hello</h1><p>World</p>", "", true);
    assert!(r.raw_markdown.contains("# Hello"));
    assert!(r.raw_markdown.contains("World"));
}

#[test]
fn test_link_extraction() {
    let r = convert(r#"<p><a href="https://example.com">Example</a></p>"#, "", true);
    assert!(r.raw_markdown.contains("[Example](https://example.com)"));
    assert_eq!(r.links.len(), 1);
    assert_eq!(r.links[0].url, "https://example.com");
    assert_eq!(r.links[0].citation_number, 1);
}

#[test]
fn test_relative_url_resolution() {
    let r = convert(r#"<p><a href="/page">Link</a></p>"#, "https://example.com", true);
    assert!(r.raw_markdown.contains("https://example.com/page"));
}

#[test]
fn test_image() {
    let r = convert(r#"<img src="test.png" alt="Test Image" title="A test">"#, "", true);
    assert!(r.raw_markdown.contains("![Test Image](test.png \"A test\")"));
    assert_eq!(r.images.len(), 1);
}

#[test]
fn test_skip_script_style() {
    let r = convert(
        "<p>Keep</p><script>bad()</script><style>.x{}</style><p>Also keep</p>",
        "",
        true,
    );
    assert!(r.raw_markdown.contains("Keep"));
    assert!(r.raw_markdown.contains("Also keep"));
    assert!(!r.raw_markdown.contains("bad()"));
    assert!(!r.raw_markdown.contains(".x{}"));
}

#[test]
fn test_code_and_pre() {
    let r = convert("<p>Use <code>foo()</code> and:</p><pre>bar()\nbaz()</pre>", "", true);
    assert!(r.raw_markdown.contains("`foo()`"));
    assert!(r.raw_markdown.contains("```\nbar()\nbaz()\n```"));
}

#[test]
fn test_table_data() {
    let r = convert(
        "<table><tr><th>Name</th><th>Age</th></tr><tr><td>Alice</td><td>30</td></tr></table>",
        "",
        true,
    );
    assert!(r.raw_markdown.contains("| Name | Age |"));
    assert!(r.raw_markdown.contains("| --- | --- |"));
    assert!(r.raw_markdown.contains("| Alice | 30 |"));
}

#[test]
fn test_empty_input() {
    let r = convert("", "", true);
    assert!(r.raw_markdown.is_empty());
}

#[test]
fn test_plain_strips_links() {
    let r = convert(r#"<p><a href="https://example.com">Click</a> here</p>"#, "", true);
    assert!(r.markdown_plain.contains("Click"));
    assert!(!r.markdown_plain.contains("example.com"));
}

#[test]
fn test_citations() {
    let r = convert(
        r#"<p><a href="https://a.com">A</a> and <a href="https://b.com">B</a></p>"#,
        "",
        true,
    );
    assert!(r.markdown_with_citations.contains("A[1]"));
    assert!(r.markdown_with_citations.contains("B[2]"));
    assert!(r.references_markdown.contains("[1]: https://a.com"));
    assert!(r.references_markdown.contains("[2]: https://b.com"));
}

#[test]
fn test_main_content_detection() {
    let html = r#"
        <html><body>
            <nav><a href="/home">Home</a></nav>
            <main><h1>Main Title</h1><p>Main content</p></main>
            <footer>Footer stuff</footer>
        </body></html>
    "#;
    let r = convert(html, "", true);
    assert!(r.raw_markdown.contains("Main Title"));
    assert!(r.raw_markdown.contains("Main content"));
    assert!(!r.raw_markdown.contains("Home"));
    assert!(!r.raw_markdown.contains("Footer stuff"));
}

#[test]
fn test_fallback_sparse() {
    let padding = "<div>x</div>".repeat(500);
    let html = format!(
        "<html><body><main><p>tiny</p></main><article>{}</article></body></html>",
        padding
    );
    let r = convert(&html, "", true);
    assert!(r.raw_markdown.contains("x"));
}

#[test]
fn test_hidden_removed() {
    let html = r#"<p>Visible</p><span class="sr-only">Hidden</span><div hidden>Also hidden</div>"#;
    let r = convert(html, "", true);
    assert!(r.raw_markdown.contains("Visible"));
    assert!(!r.raw_markdown.contains("Hidden"));
    assert!(!r.raw_markdown.contains("Also hidden"));
}

#[test]
fn test_citation_numbers_dense() {
    let r = convert(
        r#"<p><a href="https://a.com">A</a><a href="https://b.com">B</a><a href="https://c.com">C</a></p>"#,
        "",
        true,
    );
    assert_eq!(r.links.len(), 3);
    for (k, l) in r.links.iter().enumerate() {
        assert_eq!(l.citation_number, k + 1);
    }
    assert_eq!(r.urls, vec!["https://a.com", "https://b.com", "https://c.com"]);
}

#[test]
fn test_no_triple_newlines() {
    let html = "<h1>A</h1><p>B</p><br><br><br><h2>C</h2><p>D</p><ul><li>x</li></ul>";
    let r = convert(html, "", true);
    for out in [
        &r.raw_markdown,
        &r.markdown_with_citations,
        &r.markdown_plain,
        &r.clean_markdown,
    ] {
        assert!(!out.contains("\n\n\n"), "triple newline in {:?}", out);
    }
}

#[test]
fn test_clean_idempotent() {
    let cases = ["a\n\n\n\nb   c\nd", "# T\n\n\n\ntext  here", "", "x\n- y\nz"];
    for case in cases {
        let v = grub_md::chars::str_to_chars(case);
        let once = grub_md::clean::clean_markdown(&v);
        let twice = grub_md::clean::clean_markdown(&once);
        assert_eq!(once, twice);
    }
}

#[test]
fn test_table_separator_width() {
    let r = convert(
        "<table><tr><th>A</th><th>B</th><th>C</th></tr><tr><td>1</td><td>2</td><td>3</td></tr></table>",
        "",
        true,
    );
    assert!(r.raw_markdown.contains("| A | B | C |"));
    assert!(r.raw_markdown.contains("| --- | --- | --- |"));
}

#[test]
fn test_layout_table_recursed() {
    let mut rows = String::new();
    for k in 0..20 {
        rows.push_str(&format!("<tr><td>cell{}</td></tr>", k));
    }
    let html = format!("<table>{}</table>", rows);
    let r = convert(&html, "", true);
    assert!(r.raw_markdown.contains("cell0"));
    assert!(!r.raw_markdown.contains("| cell0 |"));
}

#[test]
fn test_plain_no_link_syntax() {
    let r = convert(
        r#"<p><a href="https://a.com">A</a></p><img src="i.png" alt="pic">"#,
        "",
        true,
    );
    assert!(!r.markdown_plain.contains("]("));
}

#[test]
fn test_ordered_list() {
    let r = convert("<ol><li>First</li><li>Second</li></ol>", "", true);
    assert!(r.raw_markdown.contains("1. First"));
    assert!(r.raw_markdown.contains("2. Second"));
}

#[test]
fn test_unordered_list_and_blockquote() {
    let r = convert("<ul><li>Item</li></ul><blockquote>Quoted text</blockquote>", "", true);
    assert!(r.raw_markdown.contains("- Item"));
    assert!(r.raw_markdown.contains("> Quoted text"));
}

#[test]
fn test_emphasis() {
    let r = convert("<p><strong>Bold</strong> and <em>Italic</em></p>", "", true);
    assert!(r.raw_markdown.contains("**Bold**"));
    assert!(r.raw_markdown.contains("*Italic*"));
}

#[test]
fn test_small_document_no_fallback() {
    let html = "<html><body><nav>Menu</nav><main><p>Body text</p></main></body></html>";
    let r = convert(html, "", true);
    assert!(r.raw_markdown.contains("Body text"));
    assert!(!r.raw_markdown.contains("Menu"));
}

#[test]
fn test_markdown_references_combined() {
    let r = convert(r#"<p><a href="https://a.com">A</a></p>"#, "", true);
    assert!(r.markdown_references.contains("A[1]"));
    assert!(r.markdown_references.contains("## References"));
    assert!(r.markdown_references.contains("[1]: https://a.com"));
}

#[test]
fn test_link_without_href_text_only() {
    let r = convert("<p><a>Just text</a></p>", "", true);
    assert!(r.raw_markdown.contains("Just text"));
    assert!(!r.raw_markdown.contains("]("));
    assert_eq!(r.links.len(), 0);
}

#[test]
fn test_image_without_alt_defaults() {
    let r = convert(r#"<img src="x.png">"#, "", true);
    assert!(r.raw_markdown.contains("![Image](x.png)"));
}

#[test]
fn test_readable_heading_spacing() {
    let r = convert("<p>intro</p><h2>Title</h2><p>body</p>", "", true);
    assert!(r.clean_markdown.contains("## Title"));
    assert!(!r.clean_markdown.contains("\n\n\n"));
}

#[test]
fn test_code_inside_pre_content_root() {
    let r = convert("<pre><code class=\"content\">a  b\nc</code></pre>", "", true);
    assert_eq!(r.raw_markdown, "a b\nc");
    assert!(!r.raw_markdown.contains('`'));
}

#[test]
fn test_resolution_idempotent() {
    let base = grub_md::chars::str_to_chars("https://example.com/dir/");
    let href = grub_md::chars::str_to_chars("../page?x=1");
    let once = grub_md::urlres::resolve_url(&href, &base);
    let twice = grub_md::urlres::resolve_url(&once, &base);
    assert_eq!(once, twice);
    let s: String = once.iter().collect();
    assert_eq!(s, "https://example.com/page?x=1");
}
