use flatmarkdown::ast::{get_bool, get_num, get_str, json_members, AttrValue, Key, Kind, Member, Node};
use flatmarkdown::embed::parse_embed_url;
use flatmarkdown::hashtags::{
    is_hashtag_char, process_hashtags, restore_escaped_hashes, split_hashtags,
    ESCAPED_HASH_PLACEHOLDER,
};
use flatmarkdown::html::ast_to_html;
use flatmarkdown::links::{convert_markdown_links_to_wikilinks, markdown_link_to_wikilink_url};
use flatmarkdown::markdown::{config, options, parse_markdown};
use flatmarkdown::nodes::{serialize_node_value, AlertKind, Align, ListFacts, MdValue};
use flatmarkdown::outline::{tree_from_outline, OutlineEntry};
use flatmarkdown::preprocess::{hide_escapes, prepare_body, preprocess_body};
use flatmarkdown::text::{decimal_string, escape_html};
use flatmarkdown::{finish_ast, tree_from_values, BodyOptions};

fn node(kind: Kind, attrs: Vec<(Key, AttrValue)>, children: Vec<Node>) -> Node {
    Node { kind, attrs, children }
}

fn str_val(s: &str) -> AttrValue {
    AttrValue::Str(s.to_string())
}

fn text(s: &str) -> Node {
    node(Kind::Text, vec![(Key::Value, str_val(s))], vec![])
}

fn value_of(n: &Node) -> String {
    get_str(n, Key::Value).cloned().unwrap_or_default()
}

fn chars(s: &str) -> Vec<char> {
    s.chars().collect()
}

/// Writes the pieces of a split back as text, each hashtag with its `#`.
fn spelled(pieces: &[Node]) -> String {
    let mut out = String::new();
    for p in pieces {
        if p.kind == Kind::Hashtag {
            out.push('#');
        }
        out.push_str(&value_of(p));
    }
    out
}

#[test]
fn escape_html_replaces_markup_characters() {
    assert_eq!(
        escape_html("<a href=\"x\">&</a>"),
        "&lt;a href=&quot;x&quot;&gt;&amp;&lt;/a&gt;"
    );
    assert_eq!(escape_html("plain 'text'"), "plain 'text'");
    assert_eq!(escape_html(""), "");
}

#[test]
fn escape_html_distributes_over_concatenation() {
    let a = "x<&";
    let b = "\">y";
    assert_eq!(escape_html(&format!("{a}{b}")), format!("{}{}", escape_html(a), escape_html(b)));
}

#[test]
fn escape_html_leaves_no_markup() {
    let out = escape_html("<script>\"alert\"</script> & more > less");
    assert!(!out.contains('<'));
    assert!(!out.contains('>'));
    assert!(!out.contains('"'));
}

#[test]
fn decimal_string_writes_numbers() {
    assert_eq!(decimal_string(0), "0");
    assert_eq!(decimal_string(7), "7");
    assert_eq!(decimal_string(42), "42");
    assert_eq!(decimal_string(1000), "1000");
    assert_eq!(decimal_string(u64::MAX), "18446744073709551615");
}

#[test]
fn hashtag_chars() {
    for c in ['a', 'Z', '0', '日', 'タ', '_', '-', '/'] {
        assert!(is_hashtag_char(c), "{c:?}");
    }
    for c in ['#', ' ', '.', '。', '!', '\u{3000}', '\u{FDD0}'] {
        assert!(!is_hashtag_char(c), "{c:?}");
    }
}

#[test]
fn split_hashtags_in_text() {
    let parts = split_hashtags("hello #tag world");
    assert_eq!(parts.len(), 3);
    assert_eq!(parts[0].kind, Kind::Text);
    assert_eq!(value_of(&parts[0]), "hello ");
    assert_eq!(parts[1].kind, Kind::Hashtag);
    assert_eq!(value_of(&parts[1]), "tag");
    assert_eq!(parts[2].kind, Kind::Text);
    assert_eq!(value_of(&parts[2]), " world");
}

#[test]
fn split_hashtags_edge_cases() {
    let parts = split_hashtags("foo#bar");
    assert_eq!(parts.len(), 1);
    assert_eq!(parts[0].kind, Kind::Text);

    let parts = split_hashtags("#/tag/");
    assert_eq!(parts.len(), 1);
    assert_eq!(parts[0].kind, Kind::Text);

    let parts = split_hashtags("#a//");
    assert_eq!(parts.len(), 2);
    assert_eq!(value_of(&parts[0]), "a");
    assert_eq!(value_of(&parts[1]), "//");

    let parts = split_hashtags("#");
    assert_eq!(parts.len(), 1);
    assert_eq!(parts[0].kind, Kind::Text);

    assert!(split_hashtags("").is_empty());

    let parts = split_hashtags("a #x/y.z");
    assert_eq!(parts.len(), 3);
    assert_eq!(value_of(&parts[1]), "x/y");
    assert_eq!(value_of(&parts[2]), ".z");
}

#[test]
fn split_hashtags_spells_its_input() {
    for s in ["", "#a #b", "x #tag/ y", "##a # b", "日記 #日記。", "#/x #y/z/ #"] {
        assert_eq!(spelled(&split_hashtags(s)), s);
    }
}

#[test]
fn split_hashtags_tags_are_valid() {
    for s in ["#a/ #/b #c/d/ #-_ #", "a#b #c.d #e"] {
        for p in split_hashtags(s) {
            if p.kind == Kind::Hashtag {
                let v = value_of(&p);
                assert!(!v.is_empty());
                assert!(!v.starts_with('/'));
                assert!(!v.ends_with('/'));
                assert!(v.chars().all(is_hashtag_char));
            }
        }
    }
}

#[test]
fn markdown_links_to_wikilink_urls() {
    assert_eq!(markdown_link_to_wikilink_url("../page.md"), Some("page".to_string()));
    assert_eq!(markdown_link_to_wikilink_url("./page.md"), Some("page".to_string()));
    assert_eq!(markdown_link_to_wikilink_url("./a/b.md#x"), Some("a/b#x".to_string()));
    assert_eq!(markdown_link_to_wikilink_url("../p.md#"), Some("p#".to_string()));
    assert_eq!(markdown_link_to_wikilink_url("../.md"), Some("".to_string()));
    assert_eq!(markdown_link_to_wikilink_url("page.md"), None);
    assert_eq!(markdown_link_to_wikilink_url("../page.html"), None);
    assert_eq!(markdown_link_to_wikilink_url("https://x/y.md"), None);
    assert_eq!(markdown_link_to_wikilink_url("../a#b.md"), None);
    assert_eq!(markdown_link_to_wikilink_url(""), None);
}

#[test]
fn wikilink_url_of_page_law() {
    for page in ["p", "journal/2024-01-01", "日記"] {
        for prefix in ["../", "./"] {
            assert_eq!(
                markdown_link_to_wikilink_url(&format!("{prefix}{page}.md")),
                Some(page.to_string())
            );
            assert_eq!(
                markdown_link_to_wikilink_url(&format!("{prefix}{page}.md#id")),
                Some(format!("{page}#id"))
            );
        }
    }
}

#[test]
fn embed_urls() {
    let (base, props) = parse_embed_url("img.png#w=300&h=240");
    assert_eq!(base, "img.png");
    assert_eq!(
        props,
        vec![("w".to_string(), Some("300".to_string())), ("h".to_string(), Some("240".to_string()))]
    );

    let (base, props) = parse_embed_url("v.mp4#autoplay&&w=1");
    assert_eq!(base, "v.mp4");
    assert_eq!(props, vec![("autoplay".to_string(), None), ("w".to_string(), Some("1".to_string()))]);

    let (base, props) = parse_embed_url("a.png");
    assert_eq!(base, "a.png");
    assert!(props.is_empty());

    let (base, props) = parse_embed_url("a#b#c=d=e");
    assert_eq!(base, "a");
    assert_eq!(props, vec![("b#c".to_string(), Some("d=e".to_string()))]);

    let (base, props) = parse_embed_url("x#");
    assert_eq!(base, "x");
    assert!(props.is_empty());
}

#[test]
fn embed_url_split_law() {
    for url in ["img.png#w=1", "https://y.com/watch?v=1#start=3&x", "plain", "#only", "a#b#c"] {
        let (base, _) = parse_embed_url(url);
        assert!(!base.contains('#'));
        match url.find('#') {
            Some(p) => assert_eq!(format!("{base}#{}", &url[p + 1..]), url),
            None => assert_eq!(base, url),
        }
    }
}

#[test]
fn preprocess_whitespace_lines_become_br() {
    assert_eq!(preprocess_body("line1\n\nline2"), chars("line1\n<br />\nline2"));
    assert_eq!(preprocess_body("a\n \t \nb"), chars("a\n<br />\nb"));
    assert_eq!(preprocess_body("a\n\u{3000}\nb"), chars("a\n<br />\nb"));
    assert_eq!(preprocess_body("a\r\nb\n"), chars("a\nb"));
    assert_eq!(preprocess_body(""), chars(""));
    assert_eq!(preprocess_body("\n"), chars("<br />"));
}

#[test]
fn preprocess_keeps_fenced_blank_lines() {
    assert_eq!(preprocess_body("```\ncode\n\nmore\n```"), chars("```\ncode\n\nmore\n```"));
    assert_eq!(preprocess_body("~~~\n\n~~~\n\nx"), chars("~~~\n\n~~~\n<br />\nx"));
    assert_eq!(preprocess_body("````\n```\n\n````\n"), chars("````\n```\n\n````"));
    assert_eq!(preprocess_body("```a`b\n\nx"), chars("```a`b\n<br />\nx"));
    assert_eq!(preprocess_body("  ```\n\n  ``` \n\n"), chars("  ```\n\n  ``` \n<br />"));
}

#[test]
fn preprocess_keeps_other_lines() {
    let input = "one\n two \n\n```\n\n```\nlast";
    let out: String = preprocess_body(input).into_iter().collect();
    let lines_in: Vec<&str> = input.lines().collect();
    let lines_out: Vec<&str> = out.split('\n').collect();
    assert_eq!(lines_in.len(), lines_out.len());
    for (a, b) in lines_in.iter().zip(lines_out.iter()) {
        assert!(a == b || (*b == "<br />" && a.chars().all(char::is_whitespace)));
    }
}

#[test]
fn escaped_hashes_are_hidden_then_restored() {
    assert_eq!(hide_escapes(&chars(r"a \#b \\#c #d")), chars("a \u{FDD0}b \\\u{FDD0}c #d"));
    assert_eq!(prepare_body(r"\#tag"), "\u{FDD0}tag");
    assert_eq!(prepare_body("x\n\n\\#y"), "x\n<br />\n\u{FDD0}y");
    let hidden: String = hide_escapes(&chars(r"\#a and \#b")).into_iter().collect();
    let restored = restore_escaped_hashes(&text(&hidden));
    assert_eq!(value_of(&restored), "#a and #b");
}

#[test]
fn restore_turns_back_every_string() {
    let placeholder = ESCAPED_HASH_PLACEHOLDER.to_string();
    let link = node(
        Kind::Link,
        vec![(Key::Url, str_val(&format!("a{placeholder}b"))), (Key::Title, str_val(""))],
        vec![text(&format!("{placeholder}x"))],
    );
    let r = restore_escaped_hashes(&link);
    assert_eq!(r.kind, Kind::Link);
    assert_eq!(get_str(&r, Key::Url).unwrap(), "a#b");
    assert_eq!(value_of(&r.children[0]), "#x");

    let code = node(Kind::Code, vec![(Key::Literal, str_val(&format!("{placeholder}y")))], vec![]);
    let r = restore_escaped_hashes(&code);
    assert_eq!(get_str(&r, Key::Literal).unwrap(), "\\#y");

    let html = node(Kind::HtmlInline, vec![(Key::Value, str_val(&format!("<b>{placeholder}</b>")))], vec![]);
    let r = restore_escaped_hashes(&html);
    assert_eq!(value_of(&r), "<b>\\#</b>");

    let embed = node(
        Kind::Embed,
        vec![(Key::Props, AttrValue::Props(vec![(format!("k{placeholder}"), Some(format!("{placeholder}v")))]))],
        vec![],
    );
    let r = restore_escaped_hashes(&embed);
    match flatmarkdown::ast::get_attr(&r, Key::Props) {
        Some(AttrValue::Props(p)) => assert_eq!(p, &vec![("k#".to_string(), Some("#v".to_string()))]),
        other => panic!("unexpected props {other:?}"),
    }
}

#[test]
fn outline_builds_tree() {
    let e = |depth: usize, kind: Kind| OutlineEntry { depth, kind, attrs: vec![] };
    let t = tree_from_outline(&vec![
        e(0, Kind::Document),
        e(1, Kind::Paragraph),
        e(2, Kind::Emph),
        e(1, Kind::ThematicBreak),
    ])
    .unwrap();
    assert_eq!(t.kind, Kind::Document);
    assert_eq!(t.children.len(), 2);
    assert_eq!(t.children[0].kind, Kind::Paragraph);
    assert_eq!(t.children[0].children.len(), 1);
    assert_eq!(t.children[0].children[0].kind, Kind::Emph);
    assert_eq!(t.children[1].kind, Kind::ThematicBreak);
    assert!(t.children[1].children.is_empty());

    assert!(tree_from_outline(&vec![]).is_none());
    assert!(tree_from_outline(&vec![e(0, Kind::Document), e(0, Kind::Document)]).is_none());
    assert!(tree_from_outline(&vec![e(1, Kind::Document), e(3, Kind::Text)]).is_none());
}

#[test]
fn values_build_tree() {
    let t = tree_from_values(&vec![
        (1, Some(MdValue::Document)),
        (2, Some(MdValue::Paragraph)),
        (3, Some(MdValue::Text("hi".to_string()))),
        (3, Some(MdValue::SoftBreak)),
        (3, Some(MdValue::MultilineBlockQuote)),
    ])
    .unwrap();
    assert_eq!(t.kind, Kind::Document);
    let p = &t.children[0];
    assert_eq!(p.kind, Kind::Paragraph);
    assert_eq!(value_of(&p.children[0]), "hi");
    assert_eq!(p.children[1].kind, Kind::Linebreak);
    assert_eq!(p.children[2].kind, Kind::BlockQuote);
    assert!(tree_from_values(&vec![(1, None), (1, None)]).is_none());
}

#[test]
fn node_values_serialize() {
    let (k, attrs) = serialize_node_value(&MdValue::SoftBreak);
    assert_eq!(k, Kind::Linebreak);
    assert!(attrs.is_empty());

    let (k, attrs) = serialize_node_value(&MdValue::List(ListFacts {
        ordered: true,
        start: 3,
        tight: true,
        paren: true,
    }));
    let n = node(k, attrs, vec![]);
    assert_eq!(n.kind, Kind::List);
    assert_eq!(get_str(&n, Key::ListType).unwrap(), "ordered");
    assert_eq!(get_num(&n, Key::Start), Some(3));
    assert_eq!(get_bool(&n, Key::Tight), Some(true));
    assert_eq!(get_str(&n, Key::Delimiter).unwrap(), "paren");

    let (k, attrs) = serialize_node_value(&MdValue::Image {
        url: "v.mp4#w=640&autoplay".to_string(),
        title: "t".to_string(),
    });
    let n = node(k, attrs, vec![]);
    assert_eq!(n.kind, Kind::Embed);
    assert_eq!(get_str(&n, Key::Url).unwrap(), "v.mp4");
    assert_eq!(get_str(&n, Key::Title).unwrap(), "t");
    match flatmarkdown::ast::get_attr(&n, Key::Props) {
        Some(AttrValue::Props(p)) => {
            assert_eq!(p, &vec![("w".to_string(), Some("640".to_string())), ("autoplay".to_string(), None)])
        }
        other => panic!("unexpected props {other:?}"),
    }

    let (_, attrs) = serialize_node_value(&MdValue::Image { url: "a.png".to_string(), title: String::new() });
    assert_eq!(attrs.len(), 2);

    let (k, attrs) = serialize_node_value(&MdValue::TaskItem(None));
    assert_eq!(k, Kind::TaskItem);
    assert!(matches!(attrs.as_slice(), [(Key::Symbol, AttrValue::Null)]));

    let (k, attrs) = serialize_node_value(&MdValue::TaskItem(Some('x')));
    assert_eq!(k, Kind::TaskItem);
    assert!(matches!(attrs.as_slice(), [(Key::Symbol, AttrValue::Str(s))] if s == "x"));

    let (k, attrs) = serialize_node_value(&MdValue::Table {
        alignments: vec![Align::Unset, Align::Left, Align::Center, Align::Right],
        num_columns: 4,
        num_rows: 2,
    });
    assert_eq!(k, Kind::Table);
    match &attrs[0] {
        (Key::Alignments, AttrValue::List(l)) => assert_eq!(l, &vec!["none", "left", "center", "right"]),
        other => panic!("unexpected {other:?}"),
    }

    let (k, attrs) = serialize_node_value(&MdValue::Alert {
        alert_type: AlertKind::Warning,
        alert_title: None,
    });
    let n = node(k, attrs, vec![]);
    assert_eq!(n.kind, Kind::Alert);
    assert_eq!(get_str(&n, Key::AlertType).unwrap(), "warning");
    assert!(matches!(flatmarkdown::ast::get_attr(&n, Key::Title), Some(AttrValue::Null)));
}

#[test]
fn links_convert_to_wikilinks_and_hashtags() {
    let doc = node(
        Kind::Document,
        vec![],
        vec![node(
            Kind::Paragraph,
            vec![],
            vec![
                node(
                    Kind::Link,
                    vec![(Key::Url, str_val("../tag.md")), (Key::Title, str_val(""))],
                    vec![text("#tag")],
                ),
                node(
                    Kind::Link,
                    vec![(Key::Url, str_val("./page.md#x")), (Key::Title, str_val("T"))],
                    vec![text("label")],
                ),
                node(
                    Kind::Link,
                    vec![(Key::Url, str_val("https://e.com/a.md")), (Key::Title, str_val(""))],
                    vec![text("ext")],
                ),
            ],
        )],
    );
    let r = convert_markdown_links_to_wikilinks(&doc);
    let p = &r.children[0];
    assert_eq!(p.children[0].kind, Kind::Hashtag);
    assert_eq!(value_of(&p.children[0]), "tag");
    assert!(p.children[0].children.is_empty());
    assert!(get_str(&p.children[0], Key::Url).is_none());
    assert_eq!(p.children[1].kind, Kind::Wikilink);
    assert_eq!(get_str(&p.children[1], Key::Url).unwrap(), "page#x");
    assert!(get_str(&p.children[1], Key::Title).is_none());
    assert_eq!(value_of(&p.children[1].children[0]), "label");
    assert_eq!(p.children[2].kind, Kind::Link);
    assert_eq!(get_str(&p.children[2], Key::Url).unwrap(), "https://e.com/a.md");
}

#[test]
fn hashtags_extracted_from_text_nodes() {
    let doc = node(
        Kind::Paragraph,
        vec![],
        vec![text("a #b"), node(Kind::Emph, vec![], vec![text("#c")]), text("no tags")],
    );
    let r = process_hashtags(&doc);
    assert_eq!(r.children.len(), 4);
    assert_eq!(value_of(&r.children[0]), "a ");
    assert_eq!(r.children[1].kind, Kind::Hashtag);
    assert_eq!(value_of(&r.children[1]), "b");
    assert_eq!(r.children[2].kind, Kind::Emph);
    assert_eq!(r.children[2].children[0].kind, Kind::Hashtag);
    assert_eq!(r.children[3].kind, Kind::Text);
    assert_eq!(value_of(&r.children[3]), "no tags");
}

#[test]
fn finish_ast_follows_options() {
    let placeholder = ESCAPED_HASH_PLACEHOLDER.to_string();
    let doc = node(
        Kind::Document,
        vec![],
        vec![node(Kind::Paragraph, vec![], vec![text(&format!("{placeholder}a #b"))])],
    );
    let plain = finish_ast(&doc, &BodyOptions { resolve_links: false });
    assert_eq!(plain.children[0].children.len(), 1);
    assert_eq!(value_of(&plain.children[0].children[0]), "#a #b");
    let resolved = finish_ast(&doc, &BodyOptions { resolve_links: true });
    let cs = &resolved.children[0].children;
    assert_eq!(cs.len(), 2);
    assert_eq!(value_of(&cs[0]), "#a ");
    assert_eq!(cs[1].kind, Kind::Hashtag);
    assert_eq!(value_of(&cs[1]), "b");
}

#[test]
fn render_tables() {
    let table = node(
        Kind::Table,
        vec![],
        vec![
            node(
                Kind::TableRow,
                vec![(Key::Header, AttrValue::Bool(true))],
                vec![node(Kind::TableCell, vec![], vec![text("a")])],
            ),
            node(
                Kind::TableRow,
                vec![(Key::Header, AttrValue::Bool(false))],
                vec![node(Kind::TableCell, vec![], vec![text("1")])],
            ),
        ],
    );
    assert_eq!(
        ast_to_html(&table),
        "<table>\n<thead>\n<tr><th>a</th></tr>\n</thead>\n<tbody>\n<tr><td>1</td></tr>\n</tbody>\n</table>\n"
    );
    assert_eq!(ast_to_html(&node(Kind::Table, vec![], vec![])), "<table>\n</table>\n");
}

#[test]
fn render_lists() {
    let list = node(
        Kind::List,
        vec![
            (Key::ListType, str_val("ordered")),
            (Key::Start, AttrValue::Num(3)),
            (Key::Tight, AttrValue::Bool(true)),
        ],
        vec![
            node(Kind::Item, vec![], vec![node(Kind::Paragraph, vec![], vec![text("x")])]),
            node(
                Kind::TaskItem,
                vec![(Key::Symbol, str_val("x"))],
                vec![node(Kind::Paragraph, vec![], vec![text("y")])],
            ),
        ],
    );
    assert_eq!(
        ast_to_html(&list),
        "<ol start=\"3\">\n<li>x</li>\n<li><input type=\"checkbox\" checked disabled>y</li>\n</ol>\n"
    );
    let loose = node(
        Kind::List,
        vec![],
        vec![node(
            Kind::TaskItem,
            vec![(Key::Symbol, AttrValue::Null)],
            vec![node(Kind::Paragraph, vec![], vec![text("z")])],
        )],
    );
    assert_eq!(
        ast_to_html(&loose),
        "<ul>\n<li><input type=\"checkbox\" disabled><p>z</p>\n</li>\n</ul>\n"
    );
}

#[test]
fn render_inline_nodes() {
    let hashtag = node(Kind::Hashtag, vec![(Key::Value, str_val("a&b"))], vec![]);
    assert_eq!(ast_to_html(&hashtag), "<a href=\"a&amp;b\" class=\"hashtag\">#a&b</a>");
    let fref = node(
        Kind::FootnoteReference,
        vec![(Key::Name, str_val("1")), (Key::RefNum, AttrValue::Num(1)), (Key::Ix, AttrValue::Num(12))],
        vec![],
    );
    assert_eq!(ast_to_html(&fref), "<sup><a id=\"fnref-1\" href=\"#fn-1\">12</a></sup>");
    let link = node(
        Kind::Link,
        vec![(Key::Url, str_val("u?a=1&b")), (Key::Title, str_val("T\""))],
        vec![text("t")],
    );
    assert_eq!(ast_to_html(&link), "<a href=\"u?a=1&amp;b\" title=\"T&quot;\">t</a>");
    let embed = node(Kind::Embed, vec![(Key::Url, str_val("i.png"))], vec![text("alt")]);
    assert_eq!(ast_to_html(&embed), "<img src=\"i.png\" alt=\"alt\" />");
    assert_eq!(ast_to_html(&node(Kind::Linebreak, vec![], vec![])), "<br />\n");
    assert_eq!(
        ast_to_html(&node(Kind::EscapedTag, vec![(Key::Value, str_val("~"))], vec![])),
        "&lt;~&gt;"
    );
    assert_eq!(ast_to_html(&node(Kind::Escaped, vec![], vec![text("x")])), "");
}

#[test]
fn render_blocks() {
    let code = node(
        Kind::CodeBlock,
        vec![(Key::Info, str_val("rust")), (Key::Literal, str_val("a<b\n"))],
        vec![],
    );
    assert_eq!(ast_to_html(&code), "<pre><code class=\"language-rust\">a&lt;b\n</code></pre>\n");
    let code = node(
        Kind::CodeBlock,
        vec![(Key::Info, str_val("text")), (Key::Literal, str_val("x"))],
        vec![],
    );
    assert_eq!(ast_to_html(&code), "<pre><code>x</code></pre>\n");
    let alert = node(
        Kind::Alert,
        vec![(Key::AlertType, str_val("tip")), (Key::Title, AttrValue::Null)],
        vec![node(Kind::Paragraph, vec![], vec![text("c")])],
    );
    assert_eq!(
        ast_to_html(&alert),
        "<blockquote class=\"alert alert-tip\">\n<p class=\"alert-title\">Tip</p>\n<p>c</p>\n</blockquote>\n"
    );
    let heading = node(Kind::Heading, vec![(Key::Level, AttrValue::Num(3))], vec![text("h")]);
    assert_eq!(ast_to_html(&heading), "<h3>h</h3>\n");
    assert_eq!(ast_to_html(&node(Kind::ThematicBreak, vec![], vec![])), "<hr />\n");
}

#[test]
fn parser_options_and_parse() {
    let o = options();
    assert!(o.parse.relaxed_tasklist_matching);
    assert!(o.parse.relaxed_autolinks);
    assert_eq!(o.parse.default_info_string, "text");
    assert!(o.extension.wikilinks_title_after_pipe);
    assert!(o.extension.shortcodes);
    assert!(!o.extension.multiline_block_quotes);
    assert!(!o.extension.math_dollars);

    let c = config(o);
    let parsed = parse_markdown("Hi *there*", &c);
    assert_eq!(parsed.len(), 5);
    assert!(matches!(parsed[0], (1, Some(MdValue::Document))));
    assert!(matches!(parsed[1], (2, Some(MdValue::Paragraph))));
    assert!(matches!(&parsed[2], (3, Some(MdValue::Text(t))) if t == "Hi "));
    assert!(matches!(parsed[3], (3, Some(MdValue::Emph))));
    assert!(matches!(&parsed[4], (4, Some(MdValue::Text(t))) if t == "there"));

    let parsed = parse_markdown("```\nx\n```", &c);
    assert!(matches!(&parsed[1], (2, Some(MdValue::CodeBlock { info, literal })) if info == "text" && literal == "x\n"));
}

#[test]
fn split_hashtags_text_pieces_alternate() {
    for s in ["a #b c #d", "#a #b", "x", "#a/ #/b #c", " #t"] {
        let parts = split_hashtags(s);
        for (k, p) in parts.iter().enumerate() {
            if p.kind == Kind::Text {
                assert!(!value_of(p).is_empty());
                if k + 1 < parts.len() {
                    assert_eq!(parts[k + 1].kind, Kind::Hashtag);
                }
            }
        }
    }
}

#[test]
fn escape_html_plain_text_unchanged() {
    for s in ["plain text", "日記 #tag 'q'", ""] {
        assert_eq!(escape_html(s), s);
    }
}

#[test]
fn json_members_list_children_only_when_present() {
    let leaf = node(Kind::Text, vec![(Key::Value, str_val("x"))], vec![]);
    assert_eq!(json_members(&leaf), vec![Member::Type, Member::Attr(0)]);
    let para = node(Kind::Paragraph, vec![], vec![text("a"), text("b")]);
    assert_eq!(json_members(&para), vec![Member::Type, Member::Children]);
    let link = node(
        Kind::Link,
        vec![(Key::Url, str_val("u")), (Key::Title, str_val(""))],
        vec![text("t")],
    );
    assert_eq!(json_members(&link), vec![Member::Type, Member::Attr(0), Member::Attr(1), Member::Children]);
}

#[test]
fn split_hashtags_no_adjacent_tags() {
    for s in ["#a #b", "#a#b #c", "x #a/ #b"] {
        let parts = split_hashtags(s);
        for k in 1..parts.len() {
            assert_ne!(parts[k - 1].kind, parts[k].kind);
        }
    }
    assert!(split_hashtags("").is_empty());
}

#[test]
fn body_root_is_document() {
    for s in ["", "# h", "- a\n- b", "> q"] {
        assert_eq!(flatmarkdown::body_to_ast(s).kind, Kind::Document);
    }
}
