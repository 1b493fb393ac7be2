use flatmarkdown::ast::{json_members, key_str, kind_str, AttrValue, Member, Node};
use flatmarkdown::{body_to_ast, body_to_ast_with, BodyOptions};
use serde_json::Value;

/// The JSON form of an AST node: its `type`, its attributes, and its
/// `children` when it has any.
fn ast_json(n: &Node) -> Value {
    let mut obj = serde_json::Map::new();
    for m in json_members(n) {
        match m {
            Member::Type => {
                obj.insert("type".to_string(), Value::String(kind_str(n.kind).to_string()));
            }
            Member::Attr(i) => {
                let (k, v) = &n.attrs[i];
                obj.insert(key_str(*k).to_string(), attr_json(v));
            }
            Member::Children => {
                obj.insert(
                    "children".to_string(),
                    Value::Array(n.children.iter().map(ast_json).collect()),
                );
            }
        }
    }
    Value::Object(obj)
}

fn attr_json(a: &AttrValue) -> Value {
    match a {
        AttrValue::Null => Value::Null,
        AttrValue::Bool(b) => Value::Bool(*b),
        AttrValue::Num(n) => Value::from(*n),
        AttrValue::Str(s) => Value::String(s.clone()),
        AttrValue::List(items) => Value::Array(items.iter().map(|s| Value::String(s.clone())).collect()),
        AttrValue::Props(props) => {
            let mut m = serde_json::Map::new();
            for (k, v) in props.iter() {
                let value = match v {
                    Some(s) => Value::String(s.clone()),
                    None => Value::Bool(true),
                };
                m.insert(k.clone(), value);
            }
            Value::Object(m)
        }
    }
}

#[test]
fn ast_basic() {
    let result = body_to_ast("Hello");
    let v: Value = ast_json(&result);
    assert_eq!(v["type"], "document");
    assert_eq!(v["children"][0]["type"], "paragraph");
    assert_eq!(v["children"][0]["children"][0]["type"], "text");
    assert_eq!(v["children"][0]["children"][0]["value"], "Hello");
}

#[test]
fn ast_heading() {
    let result = body_to_ast("## Sub");
    let v: Value = ast_json(&result);
    let heading = &v["children"][0];
    assert_eq!(heading["type"], "heading");
    assert_eq!(heading["level"], 2);
    assert_eq!(heading["children"][0]["value"], "Sub");
}

#[test]
fn ast_link() {
    let result = body_to_ast("[text](https://example.com)");
    let v: Value = ast_json(&result);
    let link = &v["children"][0]["children"][0];
    assert_eq!(link["type"], "link");
    assert_eq!(link["url"], "https://example.com");
    assert_eq!(link["children"][0]["value"], "text");
}

#[test]
fn ast_code_block() {
    let result = body_to_ast("```rust\nfn main() {}\n```");
    let v: Value = ast_json(&result);
    let cb = &v["children"][0];
    assert_eq!(cb["type"], "code_block");
    assert_eq!(cb["info"], "rust");
    assert_eq!(cb["literal"], "fn main() {}\n");
}

#[test]
fn wikilink_ast_basic() {
    let result = body_to_ast("[[page]]");
    let v: Value = ast_json(&result);
    let wl = &v["children"][0]["children"][0];
    assert_eq!(wl["type"], "wikilink");
    assert_eq!(wl["url"], "page");
    assert_eq!(wl["children"][0]["type"], "text");
    assert_eq!(wl["children"][0]["value"], "page");
}

#[test]
fn wikilink_ast_with_label() {
    let result = body_to_ast("[[url|link label]]");
    let v: Value = ast_json(&result);
    let wl = &v["children"][0]["children"][0];
    assert_eq!(wl["type"], "wikilink");
    assert_eq!(wl["url"], "url");
    assert_eq!(wl["children"][0]["value"], "link label");
}

#[test]
fn ast_hashtag_basic() {
    let result = body_to_ast_with("#tag", &BodyOptions { resolve_links: true });
    let v: Value = ast_json(&result);
    let children = v["children"][0]["children"].as_array().unwrap();
    assert_eq!(children[0]["type"], "hashtag");
    assert_eq!(children[0]["value"], "tag");
}

#[test]
fn ast_hashtag_japanese() {
    let result = body_to_ast_with("#日記", &BodyOptions { resolve_links: true });
    let v: Value = ast_json(&result);
    let children = v["children"][0]["children"].as_array().unwrap();
    assert_eq!(children[0]["type"], "hashtag");
    assert_eq!(children[0]["value"], "日記");
}

#[test]
fn ast_hashtag_with_special_chars() {
    let result = body_to_ast_with("#my_tag-name/sub", &BodyOptions { resolve_links: true });
    let v: Value = ast_json(&result);
    let children = v["children"][0]["children"].as_array().unwrap();
    assert_eq!(children[0]["type"], "hashtag");
    assert_eq!(children[0]["value"], "my_tag-name/sub");
}

#[test]
fn ast_hashtag_in_text() {
    let result = body_to_ast_with("hello #tag world", &BodyOptions { resolve_links: true });
    let v: Value = ast_json(&result);
    let children = v["children"][0]["children"].as_array().unwrap();
    assert_eq!(children[0]["type"], "text");
    assert_eq!(children[0]["value"], "hello ");
    assert_eq!(children[1]["type"], "hashtag");
    assert_eq!(children[1]["value"], "tag");
    assert_eq!(children[2]["type"], "text");
    assert_eq!(children[2]["value"], " world");
}

#[test]
fn ast_hashtag_multiple() {
    let result = body_to_ast_with("#tag1 #tag2", &BodyOptions { resolve_links: true });
    let v: Value = ast_json(&result);
    let children = v["children"][0]["children"].as_array().unwrap();
    assert_eq!(children[0]["type"], "hashtag");
    assert_eq!(children[0]["value"], "tag1");
    assert_eq!(children[1]["type"], "text");
    assert_eq!(children[1]["value"], " ");
    assert_eq!(children[2]["type"], "hashtag");
    assert_eq!(children[2]["value"], "tag2");
}

#[test]
fn ast_hashtag_not_in_middle_of_word() {
    let result = body_to_ast("foo#bar");
    let v: Value = ast_json(&result);
    let children = v["children"][0]["children"].as_array().unwrap();
    assert_eq!(children[0]["type"], "text");
    assert_eq!(children[0]["value"], "foo#bar");
}

#[test]
fn ast_hashtag_terminated_by_punctuation() {
    let result = body_to_ast_with("#タグ。本文", &BodyOptions { resolve_links: true });
    let v: Value = ast_json(&result);
    let children = v["children"][0]["children"].as_array().unwrap();
    assert_eq!(children[0]["type"], "hashtag");
    assert_eq!(children[0]["value"], "タグ");
    assert_eq!(children[1]["type"], "text");
    assert_eq!(children[1]["value"], "。本文");
}

#[test]
fn ast_hashtag_leading_slash_not_hashtag() {
    // "#/tag" must not be recognized as a hashtag (leading '/' is invalid)
    let result = body_to_ast("#/tag");
    let v: Value = ast_json(&result);
    let children = v["children"][0]["children"].as_array().unwrap();
    assert_eq!(children[0]["type"], "text");
    assert_eq!(children[0]["value"], "#/tag");
}

#[test]
fn ast_hashtag_trailing_slash_trimmed() {
    // "#tag/" must be recognized as hashtag "tag" (trailing '/' is trimmed)
    let result = body_to_ast_with("#tag/", &BodyOptions { resolve_links: true });
    let v: Value = ast_json(&result);
    let children = v["children"][0]["children"].as_array().unwrap();
    assert_eq!(children[0]["type"], "hashtag");
    assert_eq!(children[0]["value"], "tag");
    assert_eq!(children[1]["type"], "text");
    assert_eq!(children[1]["value"], "/");
}

#[test]
fn ast_hashtag_leading_and_trailing_slash_not_hashtag() {
    // "#/tag/" must not be recognized as a hashtag (leading '/' is invalid)
    let result = body_to_ast("#/tag/");
    let v: Value = ast_json(&result);
    let children = v["children"][0]["children"].as_array().unwrap();
    assert_eq!(children[0]["type"], "text");
    assert_eq!(children[0]["value"], "#/tag/");
}

#[test]
fn ast_hash_only_not_hashtag() {
    let result = body_to_ast("# ");
    let v: Value = ast_json(&result);
    // "# " is a heading, not a hashtag
    assert_eq!(v["children"][0]["type"], "heading");
}

#[test]
fn ast_escaped_hashtag_basic() {
    let result = body_to_ast(r"\#tag");
    let v: Value = ast_json(&result);
    let children = v["children"][0]["children"].as_array().unwrap();
    assert_eq!(children[0]["type"], "text");
    assert_eq!(children[0]["value"], "#tag");
}

#[test]
fn ast_escaped_hashtag_in_text() {
    let result = body_to_ast(r"hello \#tag world");
    let v: Value = ast_json(&result);
    let children = v["children"][0]["children"].as_array().unwrap();
    assert_eq!(children[0]["type"], "text");
    assert_eq!(children[0]["value"], "hello #tag world");
}

#[test]
fn ast_escaped_hashtag_with_real_hashtag() {
    let result = body_to_ast_with(r"\#notag #real", &BodyOptions { resolve_links: true });
    let v: Value = ast_json(&result);
    let children = v["children"][0]["children"].as_array().unwrap();
    assert_eq!(children[0]["type"], "text");
    assert_eq!(children[0]["value"], "#notag ");
    assert_eq!(children[1]["type"], "hashtag");
    assert_eq!(children[1]["value"], "real");
}

#[test]
fn ast_escaped_hashtag_multiple() {
    let result = body_to_ast(r"\#a \#b");
    let v: Value = ast_json(&result);
    let children = v["children"][0]["children"].as_array().unwrap();
    assert_eq!(children[0]["type"], "text");
    assert_eq!(children[0]["value"], "#a #b");
}

#[test]
fn ast_embed_no_props() {
    let result = body_to_ast("![alt text](img.png)");
    let v: Value = ast_json(&result);
    let embed = &v["children"][0]["children"][0];
    assert_eq!(embed["type"], "embed");
    assert_eq!(embed["url"], "img.png");
    assert_eq!(embed["props"], Value::Null);
    assert_eq!(embed["children"][0]["value"], "alt text");
}

#[test]
fn ast_embed_with_kv_props() {
    let result = body_to_ast("![alt](img.png#w=300&h=240)");
    let v: Value = ast_json(&result);
    let embed = &v["children"][0]["children"][0];
    assert_eq!(embed["type"], "embed");
    assert_eq!(embed["url"], "img.png");
    assert_eq!(embed["props"]["w"], "300");
    assert_eq!(embed["props"]["h"], "240");
}

#[test]
fn ast_embed_with_boolean_flag() {
    let result = body_to_ast("![alt](video.mp4#w=640&autoplay)");
    let v: Value = ast_json(&result);
    let embed = &v["children"][0]["children"][0];
    assert_eq!(embed["type"], "embed");
    assert_eq!(embed["url"], "video.mp4");
    assert_eq!(embed["props"]["w"], "640");
    assert_eq!(embed["props"]["autoplay"], true);
}

#[test]
fn ast_embed_url_with_query_and_fragment() {
    let result = body_to_ast("![alt](https://youtube.com/watch?v=xxx#w=640&start=30)");
    let v: Value = ast_json(&result);
    let embed = &v["children"][0]["children"][0];
    assert_eq!(embed["type"], "embed");
    assert_eq!(embed["url"], "https://youtube.com/watch?v=xxx");
    assert_eq!(embed["props"]["w"], "640");
    assert_eq!(embed["props"]["start"], "30");
}

#[test]
fn ast_newline_produces_linebreak() {
    let result = body_to_ast("line1\nline2");
    let v: Value = ast_json(&result);
    let children = v["children"][0]["children"].as_array().unwrap();
    assert_eq!(children[0]["type"], "text");
    assert_eq!(children[0]["value"], "line1");
    assert_eq!(children[1]["type"], "linebreak");
    assert_eq!(children[2]["type"], "text");
    assert_eq!(children[2]["value"], "line2");
}

#[test]
fn ast_gfm_trailing_spaces_same_as_newline() {
    let result = body_to_ast("line1  \nline2");
    let v: Value = ast_json(&result);
    let children = v["children"][0]["children"].as_array().unwrap();
    assert_eq!(children[0]["value"], "line1");
    assert_eq!(children[1]["type"], "linebreak");
    assert_eq!(children[2]["value"], "line2");
}

#[test]
fn ast_gfm_trailing_backslash_same_as_newline() {
    let result = body_to_ast("line1\\\nline2");
    let v: Value = ast_json(&result);
    let children = v["children"][0]["children"].as_array().unwrap();
    assert_eq!(children[0]["value"], "line1");
    assert_eq!(children[1]["type"], "linebreak");
    assert_eq!(children[2]["value"], "line2");
}

#[test]
fn ast_highlight() {
    let result = body_to_ast("==highlighted==");
    let v: Value = ast_json(&result);
    let node = &v["children"][0]["children"][0];
    assert_eq!(node["type"], "highlight");
    assert_eq!(node["children"][0]["value"], "highlighted");
}

#[test]
fn ast_superscript() {
    let result = body_to_ast("^super^");
    let v: Value = ast_json(&result);
    let node = &v["children"][0]["children"][0];
    assert_eq!(node["type"], "superscript");
    assert_eq!(node["children"][0]["value"], "super");
}

#[test]
fn ast_subscript() {
    let result = body_to_ast("~sub~");
    let v: Value = ast_json(&result);
    let node = &v["children"][0]["children"][0];
    assert_eq!(node["type"], "subscript");
    assert_eq!(node["children"][0]["value"], "sub");
}

#[test]
fn ast_spoilered_text() {
    let result = body_to_ast("||spoiler||");
    let v: Value = ast_json(&result);
    let node = &v["children"][0]["children"][0];
    assert_eq!(node["type"], "spoilered_text");
    assert_eq!(node["children"][0]["value"], "spoiler");
}

#[test]
fn ast_underline() {
    let result = body_to_ast("__underlined__");
    let v: Value = ast_json(&result);
    let node = &v["children"][0]["children"][0];
    assert_eq!(node["type"], "underline");
    assert_eq!(node["children"][0]["value"], "underlined");
}

#[test]
fn ast_shortcode() {
    let result = body_to_ast(":rabbit:");
    let v: Value = ast_json(&result);
    let node = &v["children"][0]["children"][0];
    assert_eq!(node["type"], "shortcode");
    assert_eq!(node["code"], "rabbit");
    assert!(node["emoji"].is_string());
}

#[test]
fn ast_math_inline() {
    let result = body_to_ast("$`x^2`$");
    let v: Value = ast_json(&result);
    let node = &v["children"][0]["children"][0];
    assert_eq!(node["type"], "math");
    assert_eq!(node["literal"], "x^2");
}

#[test]
fn ast_alert_note() {
    let result = body_to_ast("> [!NOTE]\n> Content");
    let v: Value = ast_json(&result);
    let node = &v["children"][0];
    assert_eq!(node["type"], "alert");
    assert_eq!(node["alert_type"], "note");
}

#[test]
fn ast_footnote() {
    let result = body_to_ast("Text[^1].\n\n[^1]: Footnote.");
    let v: Value = ast_json(&result);
    let para_children = v["children"][0]["children"].as_array().unwrap();
    let fref = para_children.iter().find(|n| n["type"] == "footnote_reference");
    assert!(fref.is_some(), "expected footnote_reference in paragraph");
    assert_eq!(fref.unwrap()["name"], "1");
    let blocks = v["children"].as_array().unwrap();
    let fdef = blocks.iter().find(|n| n["type"] == "footnote_definition");
    assert!(fdef.is_some(), "expected footnote_definition block");
    assert_eq!(fdef.unwrap()["name"], "1");
}

#[test]
fn ast_task_item_checked() {
    let result = body_to_ast("- [x] done");
    let v: Value = ast_json(&result);
    let item = &v["children"][0]["children"][0];
    assert_eq!(item["type"], "task_item");
    assert_eq!(item["symbol"], "x");
}

#[test]
fn ast_task_item_unchecked() {
    let result = body_to_ast("- [ ] todo");
    let v: Value = ast_json(&result);
    let item = &v["children"][0]["children"][0];
    assert_eq!(item["type"], "task_item");
    assert_eq!(item["symbol"], Value::Null);
}

#[test]
fn ast_wikilink_block_link() {
    let result = body_to_ast("[[page#block-id]]");
    let v: Value = ast_json(&result);
    let wl = &v["children"][0]["children"][0];
    assert_eq!(wl["type"], "wikilink");
    assert_eq!(wl["url"], "page#block-id");
}

#[test]
fn ast_wikilink_block_link_with_label() {
    let result = body_to_ast("[[page#block-id|label]]");
    let v: Value = ast_json(&result);
    let wl = &v["children"][0]["children"][0];
    assert_eq!(wl["type"], "wikilink");
    assert_eq!(wl["url"], "page#block-id");
    assert_eq!(wl["children"][0]["value"], "label");
}

#[test]
fn ast_md_link_to_wikilink_no_label() {
    let result = body_to_ast_with("[pagename](../pagename.md)", &BodyOptions { resolve_links: true });
    let v: Value = ast_json(&result);
    let node = &v["children"][0]["children"][0];
    assert_eq!(node["type"], "wikilink");
    assert_eq!(node["url"], "pagename");
    assert_eq!(node["children"][0]["value"], "pagename");
}

#[test]
fn ast_md_link_to_wikilink_with_label() {
    let result = body_to_ast_with("[display label](../pagename.md)", &BodyOptions { resolve_links: true });
    let v: Value = ast_json(&result);
    let node = &v["children"][0]["children"][0];
    assert_eq!(node["type"], "wikilink");
    assert_eq!(node["url"], "pagename");
    assert_eq!(node["children"][0]["value"], "display label");
}

#[test]
fn ast_md_link_to_wikilink_with_path() {
    let result = body_to_ast_with("[label](../journal/2024-01-01.md)", &BodyOptions { resolve_links: true });
    let v: Value = ast_json(&result);
    let node = &v["children"][0]["children"][0];
    assert_eq!(node["type"], "wikilink");
    assert_eq!(node["url"], "journal/2024-01-01");
    assert_eq!(node["children"][0]["value"], "label");
}

#[test]
fn ast_md_link_to_wikilink_with_fragment() {
    let result = body_to_ast_with("[label](../page.md#block-id)", &BodyOptions { resolve_links: true });
    let v: Value = ast_json(&result);
    let node = &v["children"][0]["children"][0];
    assert_eq!(node["type"], "wikilink");
    assert_eq!(node["url"], "page#block-id");
    assert_eq!(node["children"][0]["value"], "label");
}

#[test]
fn ast_md_link_dotslash_to_wikilink() {
    let result = body_to_ast_with("[pagename](./pagename.md)", &BodyOptions { resolve_links: true });
    let v: Value = ast_json(&result);
    let node = &v["children"][0]["children"][0];
    assert_eq!(node["type"], "wikilink");
    assert_eq!(node["url"], "pagename");
    assert_eq!(node["children"][0]["value"], "pagename");
}

#[test]
fn ast_md_link_dotslash_with_path() {
    let result = body_to_ast_with("[label](./journal/2024-01-01.md)", &BodyOptions { resolve_links: true });
    let v: Value = ast_json(&result);
    let node = &v["children"][0]["children"][0];
    assert_eq!(node["type"], "wikilink");
    assert_eq!(node["url"], "journal/2024-01-01");
    assert_eq!(node["children"][0]["value"], "label");
}

#[test]
fn ast_md_link_dotslash_with_fragment() {
    let result = body_to_ast_with("[label](./page.md#block-id)", &BodyOptions { resolve_links: true });
    let v: Value = ast_json(&result);
    let node = &v["children"][0]["children"][0];
    assert_eq!(node["type"], "wikilink");
    assert_eq!(node["url"], "page#block-id");
    assert_eq!(node["children"][0]["value"], "label");
}

#[test]
fn ast_md_tag_link_dotslash_to_hashtag() {
    let result = body_to_ast_with("[#mytag](./mytag.md)", &BodyOptions { resolve_links: true });
    let v: Value = ast_json(&result);
    let node = &v["children"][0]["children"][0];
    assert_eq!(node["type"], "hashtag");
    assert_eq!(node["value"], "mytag");
    assert!(node.get("url").is_none());
    assert!(node.get("children").is_none());
}

#[test]
fn ast_md_tag_link_to_hashtag() {
    let result = body_to_ast_with("[#日記](../日記.md)", &BodyOptions { resolve_links: true });
    let v: Value = ast_json(&result);
    let node = &v["children"][0]["children"][0];
    assert_eq!(node["type"], "hashtag");
    assert_eq!(node["value"], "日記");
    assert!(node.get("url").is_none());
    assert!(node.get("children").is_none());
}

#[test]
fn ast_md_tag_link_ascii() {
    let result = body_to_ast_with("[#mytag](../mytag.md)", &BodyOptions { resolve_links: true });
    let v: Value = ast_json(&result);
    let node = &v["children"][0]["children"][0];
    assert_eq!(node["type"], "hashtag");
    assert_eq!(node["value"], "mytag");
}

#[test]
fn ast_no_resolve_hashtag_stays_text() {
    let result = body_to_ast("#tag");
    let v: Value = ast_json(&result);
    let children = v["children"][0]["children"].as_array().unwrap();
    assert!(children.iter().all(|c| c["type"] != "hashtag"));
}

#[test]
fn ast_no_resolve_tag_link_stays_link() {
    let result = body_to_ast("[#tag](../tag.md)");
    let v: Value = ast_json(&result);
    let node = &v["children"][0]["children"][0];
    assert_eq!(node["type"], "link");
}

#[test]
fn ast_no_resolve_md_link_stays_link() {
    let result = body_to_ast("[text](../page.md)");
    let v: Value = ast_json(&result);
    let node = &v["children"][0]["children"][0];
    assert_eq!(node["type"], "link");
}

#[test]
fn ast_external_link_not_converted_to_wikilink() {
    let result = body_to_ast("[text](https://example.com)");
    let v: Value = ast_json(&result);
    let node = &v["children"][0]["children"][0];
    assert_eq!(node["type"], "link");
}

#[test]
fn ast_non_md_relative_link_not_converted() {
    let result = body_to_ast("[text](../page.html)");
    let v: Value = ast_json(&result);
    let node = &v["children"][0]["children"][0];
    assert_eq!(node["type"], "link");
}

#[test]
fn ast_blank_line_becomes_br() {
    // A blank line within a body is converted to <br />, merging into one paragraph
    let result = body_to_ast("line1\n\nline2");
    let v: Value = ast_json(&result);
    // After preprocessing: "line1\n<br />\nline2" — single paragraph
    assert_eq!(v["children"].as_array().unwrap().len(), 1);
    let children = v["children"][0]["children"].as_array().unwrap();
    assert!(
        children.iter().any(|c| c["type"] == "html_inline" && c["value"] == "<br />"),
        "expected html_inline <br /> node"
    );
}

#[test]
fn ast_spaces_only_line_becomes_br() {
    let result = body_to_ast("line1\n   \nline2");
    let v: Value = ast_json(&result);
    assert_eq!(v["children"].as_array().unwrap().len(), 1);
    let children = v["children"][0]["children"].as_array().unwrap();
    assert!(
        children.iter().any(|c| c["type"] == "html_inline" && c["value"] == "<br />"),
        "expected html_inline <br /> node"
    );
}

#[test]
fn ast_fullwidth_space_line_becomes_br() {
    let result = body_to_ast("line1\n\u{3000}\nline2");
    let v: Value = ast_json(&result);
    assert_eq!(v["children"].as_array().unwrap().len(), 1);
    let children = v["children"][0]["children"].as_array().unwrap();
    assert!(
        children.iter().any(|c| c["type"] == "html_inline" && c["value"] == "<br />"),
        "expected html_inline <br /> node"
    );
}

#[test]
fn ast_blank_line_in_code_fence_preserved() {
    let result = body_to_ast("```\ncode\n\nmore code\n```");
    let v: Value = ast_json(&result);
    let cb = &v["children"][0];
    assert_eq!(cb["type"], "code_block");
    let literal = cb["literal"].as_str().unwrap();
    assert!(literal.contains("\n\n"), "blank line inside fence must be preserved");
}

#[test]
fn ast_escaped_hash_kept_in_code() {
    let result = body_to_ast("```\n\\#x\n```");
    let v: Value = ast_json(&result);
    assert_eq!(v["children"][0]["type"], "code_block");
    assert_eq!(v["children"][0]["literal"], "\\#x\n");
    let result = body_to_ast("a `\\#b` c");
    let v: Value = ast_json(&result);
    assert_eq!(v["children"][0]["children"][1]["type"], "code");
    assert_eq!(v["children"][0]["children"][1]["literal"], "\\#b");
}

#[test]
fn ast_escaped_hash_in_link_url() {
    let result = body_to_ast("[a](page\\#x)");
    let v: Value = ast_json(&result);
    assert_eq!(v["children"][0]["children"][0]["type"], "link");
    assert_eq!(v["children"][0]["children"][0]["url"], "page#x");
}

#[test]
fn ast_dollar_math_is_off() {
    let result = body_to_ast("$x$");
    let v: Value = ast_json(&result);
    assert_eq!(v["children"][0]["children"][0]["type"], "text");
    assert_eq!(v["children"][0]["children"][0]["value"], "$x$");
}

#[test]
fn ast_heading_with_strong_example() {
    let result = body_to_ast("## Hello **world**");
    let v: Value = ast_json(&result);
    let heading = &v["children"][0];
    assert_eq!(heading["type"], "heading");
    assert_eq!(heading["level"], 2);
    assert_eq!(heading["children"][0]["value"], "Hello ");
    assert_eq!(heading["children"][1]["type"], "strong");
    assert_eq!(heading["children"][1]["children"][0]["value"], "world");
}
