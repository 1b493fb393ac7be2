use flatmarkdown::{body_to_html, body_to_html_with, BodyOptions};

#[test]
fn basic_paragraph() {
    let result = body_to_html("Hello, world!");
    assert_eq!(result, "<p>Hello, world!</p>\n");
}

#[test]
fn heading() {
    let result = body_to_html("# Title");
    assert_eq!(result, "<h1>Title</h1>\n");
}

#[test]
fn strikethrough() {
    let result = body_to_html("~~deleted~~");
    assert_eq!(result, "<p><del>deleted</del></p>\n");
}

#[test]
fn tasklist() {
    let result = body_to_html("- [x] done\n- [ ] todo");
    assert!(result.contains("checked"));
    assert!(result.contains("type=\"checkbox\""));
}

#[test]
fn hardbreaks() {
    let result = body_to_html("line1\nline2");
    assert!(result.contains("<br"));
}

#[test]
fn wikilink_html_basic() {
    let result = body_to_html("[[page]]");
    assert_eq!(result, "<p><a href=\"page\" data-wikilink=\"true\">page</a></p>\n");
}

#[test]
fn wikilink_html_with_label() {
    let result = body_to_html("[[url|link label]]");
    assert_eq!(result, "<p><a href=\"url\" data-wikilink=\"true\">link label</a></p>\n");
}

#[test]
fn wikilink_html_inline() {
    let result = body_to_html("See [[page]] for details.");
    assert!(result.contains("<a href=\"page\" data-wikilink=\"true\">page</a>"));
    assert!(result.contains("See "));
    assert!(result.contains(" for details."));
}

#[test]
fn wikilink_multiple() {
    let result = body_to_html("[[page1]] and [[page2]]");
    assert!(result.contains("<a href=\"page1\" data-wikilink=\"true\">page1</a>"));
    assert!(result.contains("<a href=\"page2\" data-wikilink=\"true\">page2</a>"));
}

#[test]
fn paragraph_with_bold_italic_code() {
    let result = body_to_html("Hello **world** and _italic_ with `code`");
    assert_eq!(
        result,
        "<p>Hello <strong>world</strong> and <em>italic</em> with <code>code</code></p>\n"
    );
}

#[test]
fn handle_empty_lines() {
    let input = "```rust\nlet x = 1;\n\nlet y = 2;\n```\n\nAfter the block.";
    let html = body_to_html(input);
    assert_eq!(
        html,
        "<pre><code class=\"language-rust\">let x = 1;\n\nlet y = 2;\n</code></pre>\n<br />\nAfter the block."
    );
}

#[test]
fn html_escapes_text() {
    let result = body_to_html("a < b & c");
    assert_eq!(result, "<p>a &lt; b &amp; c</p>\n");
}

#[test]
fn html_blank_line_keeps_one_paragraph() {
    let result = body_to_html("line1\n\nline2");
    assert_eq!(result.matches("<p>").count(), 1);
    assert!(result.contains("<br />"));
}

#[test]
fn html_hashtag_only_with_resolution() {
    let plain = body_to_html("#tag");
    assert!(!plain.contains("hashtag"));
    let resolved = body_to_html_with("#tag", &BodyOptions { resolve_links: true });
    assert_ne!(plain, resolved);
}

#[test]
fn html_relative_link_becomes_wikilink_with_resolution() {
    let resolved = body_to_html_with("[label](../page.md)", &BodyOptions { resolve_links: true });
    assert!(resolved.contains("<a href=\"page\" data-wikilink=\"true\">label</a>"));
    let plain = body_to_html("[label](../page.md)");
    assert!(plain.contains("href=\"../page.md\""));
}

#[test]
fn html_default_options_match_plain_call() {
    let input = "Some *text* with #tag and [x](../x.md)";
    assert_eq!(body_to_html(input), body_to_html_with(input, &BodyOptions::default()));
}
