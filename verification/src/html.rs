//! Rendering of the body AST as HTML.
use vstd::prelude::*;
use vstd::string::*;

use crate::ast::{
    bool_attr, get_bool, get_num, get_str, lemma_nodes_view, node_view, nodes_view, num_attr,
    str_attr, str_or, Key, Kind, Node, NodeView,
};
use crate::text::{decimal, decimal_string, escape_html, escaped};

verus! {

/// The checkbox that starts a task item.
pub open spec fn checkbox(checked: bool) -> Seq<char> {
    if checked {
        "<input type=\"checkbox\" checked disabled>"@
    } else {
        "<input type=\"checkbox\" disabled>"@
    }
}

/// The title an alert gets when it has none of its own.
pub open spec fn default_alert_title(alert_type: Seq<char>) -> Seq<char> {
    if alert_type == "tip"@ {
        "Tip"@
    } else if alert_type == "important"@ {
        "Important"@
    } else if alert_type == "warning"@ {
        "Warning"@
    } else if alert_type == "caution"@ {
        "Caution"@
    } else {
        "Note"@
    }
}

/// The `class` attribute of a code block with info string `info`.
pub open spec fn code_class(info: Seq<char>) -> Seq<char> {
    if info.len() == 0 || info == "text"@ {
        Seq::empty()
    } else {
        " class=\"language-"@ + info + "\""@
    }
}

/// The HTML of a node.
pub open spec fn html(n: NodeView) -> Seq<char>
    decreases n,
{
    let inner = children_html(n.children);
    match n.kind {
        Kind::Paragraph => "<p>"@ + inner + "</p>\n"@,
        Kind::Heading => {
            let level = decimal(
                match num_attr(n, Key::Level) {
                    Some(l) => l as nat,
                    None => 1,
                },
            );
            "<h"@ + level + ">"@ + inner + "</h"@ + level + ">\n"@
        },
        Kind::CodeBlock => {
            let info = str_or(str_attr(n, Key::Info), "text"@);
            let literal = str_or(str_attr(n, Key::Literal), Seq::empty());
            "<pre><code"@ + code_class(info) + ">"@ + escaped(literal) + "</code></pre>\n"@
        },
        Kind::BlockQuote => "<blockquote>\n"@ + inner + "</blockquote>\n"@,
        Kind::List => {
            let tight = match bool_attr(n, Key::Tight) {
                Some(b) => b,
                None => false,
            };
            let items = list_items(n.children, tight);
            if str_or(str_attr(n, Key::ListType), "bullet"@) == "ordered"@ {
                let start = match num_attr(n, Key::Start) {
                    Some(s) => s,
                    None => 1,
                };
                if start == 1 {
                    "<ol>\n"@ + items + "</ol>\n"@
                } else {
                    "<ol start=\""@ + decimal(start as nat) + "\">\n"@ + items + "</ol>\n"@
                }
            } else {
                "<ul>\n"@ + items + "</ul>\n"@
            }
        },
        Kind::Item => "<li>"@ + inner + "</li>\n"@,
        Kind::TaskItem => "<li>"@ + checkbox(str_attr(n, Key::Symbol) is Some) + inner
            + "</li>\n"@,
        Kind::Table => {
            let thead = table_rows(n.children, true);
            let tbody = table_rows(n.children, false);
            "<table>\n"@ + (if thead.len() == 0 {
                Seq::empty()
            } else {
                "<thead>\n"@ + thead + "</thead>\n"@
            }) + (if tbody.len() == 0 {
                Seq::empty()
            } else {
                "<tbody>\n"@ + tbody + "</tbody>\n"@
            }) + "</table>\n"@
        },
        Kind::ThematicBreak => "<hr />\n"@,
        Kind::HtmlBlock => str_or(str_attr(n, Key::Literal), Seq::empty()),
        Kind::FootnoteDefinition => {
            let name = str_or(str_attr(n, Key::Name), Seq::empty());
            "<div id=\"fn-"@ + name + "\" class=\"footnote\">\n"@ + inner + "</div>\n"@
        },
        Kind::Alert => {
            let alert_type = str_or(str_attr(n, Key::AlertType), "note"@);
            let title = str_or(str_attr(n, Key::Title), default_alert_title(alert_type));
            "<blockquote class=\"alert alert-"@ + alert_type + "\">\n<p class=\"alert-title\">"@
                + title + "</p>\n"@ + inner + "</blockquote>\n"@
        },
        Kind::Subtext => "<sub>"@ + inner + "</sub>"@,
        Kind::Text => escaped(str_or(str_attr(n, Key::Value), Seq::empty())),
        Kind::Linebreak => "<br />\n"@,
        Kind::Emph => "<em>"@ + inner + "</em>"@,
        Kind::Strong => "<strong>"@ + inner + "</strong>"@,
        Kind::Strikethrough => "<del>"@ + inner + "</del>"@,
        Kind::Underline => "<u>"@ + inner + "</u>"@,
        Kind::Highlight => "<mark>"@ + inner + "</mark>"@,
        Kind::Superscript => "<sup>"@ + inner + "</sup>"@,
        Kind::Subscript => "<sub>"@ + inner + "</sub>"@,
        Kind::SpoileredText => "<span class=\"spoiler\">"@ + inner + "</span>"@,
        Kind::Code => "<code>"@ + escaped(str_or(str_attr(n, Key::Literal), Seq::empty()))
            + "</code>"@,
        Kind::Link => {
            let url = escaped(str_or(str_attr(n, Key::Url), Seq::empty()));
            let title = str_or(str_attr(n, Key::Title), Seq::empty());
            if title.len() == 0 {
                "<a href=\""@ + url + "\">"@ + inner + "</a>"@
            } else {
                "<a href=\""@ + url + "\" title=\""@ + escaped(title) + "\">"@ + inner + "</a>"@
            }
        },
        Kind::Embed => "<img src=\""@ + escaped(str_or(str_attr(n, Key::Url), Seq::empty()))
            + "\" alt=\""@ + inner + "\" />"@,
        Kind::Wikilink => "<a href=\""@ + escaped(str_or(str_attr(n, Key::Url), Seq::empty()))
            + "\" data-wikilink=\"true\">"@ + inner + "</a>"@,
        Kind::Hashtag => {
            let value = str_or(str_attr(n, Key::Value), Seq::empty());
            "<a href=\""@ + escaped(value) + "\" class=\"hashtag\">#"@ + value + "</a>"@
        },
        Kind::FootnoteReference => {
            let name = str_or(str_attr(n, Key::Name), Seq::empty());
            let ix = match num_attr(n, Key::Ix) {
                Some(i) => i as nat,
                None => 0,
            };
            "<sup><a id=\"fnref-"@ + name + "\" href=\"#fn-"@ + name + "\">"@ + decimal(ix)
                + "</a></sup>"@
        },
        Kind::Shortcode => str_or(str_attr(n, Key::Emoji), Seq::empty()),
        Kind::Math => "<span class=\"math\">"@ + escaped(
            str_or(str_attr(n, Key::Literal), Seq::empty()),
        ) + "</span>"@,
        Kind::HtmlInline => str_or(str_attr(n, Key::Value), Seq::empty()),
        Kind::Raw => str_or(str_attr(n, Key::Value), Seq::empty()),
        Kind::Escaped => Seq::empty(),
        Kind::EscapedTag => "&lt;"@ + str_or(str_attr(n, Key::Value), Seq::empty()) + "&gt;"@,
        _ => inner,
    }
}

/// The HTML of a sequence of sibling nodes, one after another.
pub open spec fn children_html(cs: Seq<NodeView>) -> Seq<char>
    decreases cs,
{
    if cs.len() == 0 {
        Seq::empty()
    } else {
        children_html(cs.drop_last()) + html(cs.last())
    }
}

/// The content of a list item: in a tight list, its paragraphs lose their `<p>`.
pub open spec fn item_content(cs: Seq<NodeView>, tight: bool) -> Seq<char>
    decreases cs,
{
    if cs.len() == 0 {
        Seq::empty()
    } else {
        item_content(cs.drop_last(), tight) + (if tight && cs.last().kind == Kind::Paragraph {
            children_html(cs.last().children)
        } else {
            html(cs.last())
        })
    }
}

/// The `<li>` elements of a list's items.
pub open spec fn list_items(items: Seq<NodeView>, tight: bool) -> Seq<char>
    decreases items,
{
    if items.len() == 0 {
        Seq::empty()
    } else {
        let item = items.last();
        let content = item_content(item.children, tight);
        list_items(items.drop_last(), tight) + (if item.kind == Kind::TaskItem {
            "<li>"@ + checkbox(str_attr(item, Key::Symbol) is Some) + content + "</li>\n"@
        } else {
            "<li>"@ + content + "</li>\n"@
        })
    }
}

/// Whether a table row is the header row.
pub open spec fn is_header_row(row: NodeView) -> bool {
    match bool_attr(row, Key::Header) {
        Some(b) => b,
        None => false,
    }
}

/// The `<tr>` elements of the rows that are (`header`) or are not header rows.
pub open spec fn table_rows(rows: Seq<NodeView>, header: bool) -> Seq<char>
    decreases rows,
{
    if rows.len() == 0 {
        Seq::empty()
    } else {
        let row = rows.last();
        table_rows(rows.drop_last(), header) + (if is_header_row(row) != header
            || row.children.len() == 0 {
            Seq::empty()
        } else {
            "<tr>"@ + table_cells(row.children, if header {
                "th"@
            } else {
                "td"@
            }) + "</tr>\n"@
        })
    }
}

/// The cells of one table row, as `tag` elements.
pub open spec fn table_cells(cells: Seq<NodeView>, tag: Seq<char>) -> Seq<char>
    decreases cells,
{
    if cells.len() == 0 {
        Seq::empty()
    } else {
        table_cells(cells.drop_last(), tag) + "<"@ + tag + ">"@ + children_html(
            cells.last().children,
        ) + "</"@ + tag + ">"@
    }
}

/// Siblings render one after another: the HTML of two runs of siblings is
/// the HTML of the first followed by that of the second.
pub proof fn lemma_children_html_concat(a: Seq<NodeView>, b: Seq<NodeView>)
    ensures
        children_html(a + b) == children_html(a) + children_html(b),
    decreases b.len(),
{
    if b.len() == 0 {
        assert(a + b =~= a);
        assert(children_html(a) + children_html(b) =~= children_html(a));
    } else {
        lemma_children_html_concat(a, b.drop_last());
        assert((a + b).drop_last() =~= a + b.drop_last());
        assert((a + b).last() == b.last());
    }
}

/// A single child renders as itself.
pub proof fn lemma_children_html_one(c: NodeView)
    ensures
        children_html(seq![c]) == html(c),
{
    let one = seq![c];
    assert(one.drop_last() =~= Seq::<NodeView>::empty());
    assert(one.last() == c);
    assert(children_html(one.drop_last()) == Seq::<char>::empty());
    assert(children_html(one) == children_html(one.drop_last()) + html(one.last()));
    assert(Seq::<char>::empty() + html(c) =~= html(c));
}

/// Each container renders its children's HTML inside its own tags: a block
/// quote inside `<blockquote>`, a paragraph inside `<p>`, a heading inside
/// `<hN>` for its level (1 where it has none), each inline style inside its
/// element, a wikilink inside an `<a>` to its URL, a list item inside `<li>`,
/// and a document or table cell as its children alone.
pub proof fn lemma_html_wraps(n: NodeView)
    ensures
        ({
            let inner = children_html(n.children);
            &&& n.kind == Kind::Document ==> html(n) == inner
            &&& n.kind == Kind::BlockQuote ==> html(n) == "<blockquote>\n"@ + inner + "</blockquote>\n"@
            &&& n.kind == Kind::Paragraph ==> html(n) == "<p>"@ + inner + "</p>\n"@
            &&& n.kind == Kind::Heading ==> html(n) == "<h"@ + decimal(
                match num_attr(n, Key::Level) {
                    Some(l) => l as nat,
                    None => 1,
                },
            ) + ">"@ + inner + "</h"@ + decimal(
                match num_attr(n, Key::Level) {
                    Some(l) => l as nat,
                    None => 1,
                },
            ) + ">\n"@
            &&& n.kind == Kind::Item ==> html(n) == "<li>"@ + inner + "</li>\n"@
            &&& n.kind == Kind::Emph ==> html(n) == "<em>"@ + inner + "</em>"@
            &&& n.kind == Kind::Strong ==> html(n) == "<strong>"@ + inner + "</strong>"@
            &&& n.kind == Kind::Strikethrough ==> html(n) == "<del>"@ + inner + "</del>"@
            &&& n.kind == Kind::Underline ==> html(n) == "<u>"@ + inner + "</u>"@
            &&& n.kind == Kind::Highlight ==> html(n) == "<mark>"@ + inner + "</mark>"@
            &&& n.kind == Kind::Superscript ==> html(n) == "<sup>"@ + inner + "</sup>"@
            &&& n.kind == Kind::Subscript ==> html(n) == "<sub>"@ + inner + "</sub>"@
            &&& n.kind == Kind::Subtext ==> html(n) == "<sub>"@ + inner + "</sub>"@
            &&& n.kind == Kind::SpoileredText ==> html(n) == "<span class=\"spoiler\">"@ + inner
                + "</span>"@
            &&& n.kind == Kind::Wikilink ==> html(n) == "<a href=\""@ + escaped(
                str_or(str_attr(n, Key::Url), Seq::empty()),
            ) + "\" data-wikilink=\"true\">"@ + inner + "</a>"@
            &&& (n.kind == Kind::TableRow || n.kind == Kind::TableCell) ==> html(n) == inner
        }),
{
}

/// A list renders as `<ul>` (or `<ol>` for an ordered one) around one `<li>`
/// per item, in order; in a tight list an item's paragraphs lose their `<p>`,
/// in a loose list they keep it; a task item starts with its checkbox.
pub proof fn lemma_list_html(n: NodeView, items: Seq<NodeView>, it: NodeView, p: NodeView)
    requires
        p.kind == Kind::Paragraph,
    ensures
        n.kind == Kind::List && str_or(str_attr(n, Key::ListType), "bullet"@) != "ordered"@ ==> html(n)
            == "<ul>\n"@ + list_items(
            n.children,
            match bool_attr(n, Key::Tight) {
                Some(b) => b,
                None => false,
            },
        ) + "</ul>\n"@,
        list_items(Seq::empty(), true) == Seq::<char>::empty(),
        list_items(items.push(it), true) == list_items(items, true) + "<li>"@ + (if it.kind
            == Kind::TaskItem {
            checkbox(str_attr(it, Key::Symbol) is Some)
        } else {
            Seq::empty()
        }) + item_content(it.children, true) + "</li>\n"@,
        list_items(items.push(it), false) == list_items(items, false) + "<li>"@ + (if it.kind
            == Kind::TaskItem {
            checkbox(str_attr(it, Key::Symbol) is Some)
        } else {
            Seq::empty()
        }) + item_content(it.children, false) + "</li>\n"@,
        item_content(seq![p], true) == children_html(p.children),
        item_content(seq![p], false) == "<p>"@ + children_html(p.children) + "</p>\n"@,
{
    assert(items.push(it).drop_last() =~= items);
    assert(seq![p].drop_last() =~= Seq::<NodeView>::empty());
    assert(item_content(Seq::<NodeView>::empty(), true) == Seq::<char>::empty());
    assert(item_content(Seq::<NodeView>::empty(), false) == Seq::<char>::empty());
    assert(Seq::<char>::empty() + children_html(p.children) =~= children_html(p.children));
    assert(Seq::<char>::empty() + html(p) =~= html(p));
    if it.kind == Kind::TaskItem {
    } else {
        assert("<li>"@ + Seq::<char>::empty() =~= "<li>"@);
    }
}

fn append_string(out: &mut String, s: &String)
    ensures
        final(out)@ == old(out)@ + s@,
{
    out.append(s.as_str());
}

fn lit(s: &str) -> (r: String)
    ensures
        r@ == s@,
{
    String::from_str(s)
}

/// The string attribute `k` of `n`, or `default` where it has none.
fn str_attr_or(n: &Node, k: Key, default: &str) -> (r: String)
    ensures
        r@ == str_or(str_attr(n@, k), default@),
{
    match get_str(n, k) {
        Some(s) => s.clone(),
        None => lit(default),
    }
}

/// Renders a sequence of sibling nodes.
fn render_children(cs: &Vec<Node>) -> (r: String)
    ensures
        r@ == children_html(nodes_view(cs@)),
    decreases cs,
{
    let ghost views = nodes_view(cs@);
    proof {
        lemma_nodes_view(cs@);
    }
    let mut out = String::new();
    let mut i: usize = 0;
    while i < cs.len()
        invariant
            i <= cs.len(),
            views == nodes_view(cs@),
            views.len() == cs@.len(),
            forall|j: int| 0 <= j < cs@.len() ==> #[trigger] views[j] == node_view(cs@[j]),
            out@ == children_html(views.subrange(0, i as int)),
        decreases cs.len() - i,
    {
        let h = ast_to_html(&cs[i]);
        append_string(&mut out, &h);
        assert(views.subrange(0, i + 1).drop_last() =~= views.subrange(0, i as int));
        i = i + 1;
    }
    assert(views.subrange(0, cs.len() as int) =~= views);
    out
}

/// Renders the content of a list item.
fn render_item_content(cs: &Vec<Node>, tight: bool) -> (r: String)
    ensures
        r@ == item_content(nodes_view(cs@), tight),
    decreases cs,
{
    let ghost views = nodes_view(cs@);
    proof {
        lemma_nodes_view(cs@);
    }
    let mut out = String::new();
    let mut i: usize = 0;
    while i < cs.len()
        invariant
            i <= cs.len(),
            views == nodes_view(cs@),
            views.len() == cs@.len(),
            forall|j: int| 0 <= j < cs@.len() ==> #[trigger] views[j] == node_view(cs@[j]),
            out@ == item_content(views.subrange(0, i as int), tight),
        decreases cs.len() - i,
    {
        let child = &cs[i];
        let h = if tight && child.kind == Kind::Paragraph {
            render_children(&child.children)
        } else {
            ast_to_html(child)
        };
        append_string(&mut out, &h);
        assert(views.subrange(0, i + 1).drop_last() =~= views.subrange(0, i as int));
        i = i + 1;
    }
    assert(views.subrange(0, cs.len() as int) =~= views);
    out
}

/// Renders the items of a list.
fn render_list_items(items: &Vec<Node>, tight: bool) -> (r: String)
    ensures
        r@ == list_items(nodes_view(items@), tight),
    decreases items,
{
    let ghost views = nodes_view(items@);
    proof {
        lemma_nodes_view(items@);
    }
    let mut out = String::new();
    let mut i: usize = 0;
    while i < items.len()
        invariant
            i <= items.len(),
            views == nodes_view(items@),
            views.len() == items@.len(),
            forall|j: int| 0 <= j < items@.len() ==> #[trigger] views[j] == node_view(items@[j]),
            out@ == list_items(views.subrange(0, i as int), tight),
        decreases items.len() - i,
    {
        let item = &items[i];
        let content = render_item_content(&item.children, tight);
        out.append("<li>");
        if item.kind == Kind::TaskItem {
            if get_str(item, Key::Symbol).is_some() {
                out.append("<input type=\"checkbox\" checked disabled>");
            } else {
                out.append("<input type=\"checkbox\" disabled>");
            }
        }
        append_string(&mut out, &content);
        out.append("</li>\n");
        assert(views.subrange(0, i + 1).drop_last() =~= views.subrange(0, i as int));
        i = i + 1;
    }
    assert(views.subrange(0, items.len() as int) =~= views);
    out
}

/// Renders the header rows (`header`) or the other rows of a table.
fn render_table_rows(rows: &Vec<Node>, header: bool) -> (r: String)
    ensures
        r@ == table_rows(nodes_view(rows@), header),
    decreases rows,
{
    let ghost views = nodes_view(rows@);
    proof {
        lemma_nodes_view(rows@);
    }
    let mut out = String::new();
    let mut i: usize = 0;
    while i < rows.len()
        invariant
            i <= rows.len(),
            views == nodes_view(rows@),
            views.len() == rows@.len(),
            forall|j: int| 0 <= j < rows@.len() ==> #[trigger] views[j] == node_view(rows@[j]),
            out@ == table_rows(views.subrange(0, i as int), header),
        decreases rows.len() - i,
    {
        let row = &rows[i];
        let is_header = match get_bool(row, Key::Header) {
            Some(b) => b,
            None => false,
        };
        proof {
            lemma_nodes_view(row.children@);
        }
        if is_header == header && row.children.len() > 0 {
            let cells = render_table_cells(&row.children, header);
            out.append("<tr>");
            append_string(&mut out, &cells);
            out.append("</tr>\n");
        }
        assert(views.subrange(0, i + 1).drop_last() =~= views.subrange(0, i as int));
        i = i + 1;
    }
    assert(views.subrange(0, rows.len() as int) =~= views);
    out
}

/// Renders the cells of a table row.
fn render_table_cells(cells: &Vec<Node>, header: bool) -> (r: String)
    ensures
        r@ == table_cells(
            nodes_view(cells@),
            if header {
                "th"@
            } else {
                "td"@
            },
        ),
    decreases cells,
{
    let ghost views = nodes_view(cells@);
    let ghost tag = if header {
        "th"@
    } else {
        "td"@
    };
    proof {
        lemma_nodes_view(cells@);
    }
    let mut out = String::new();
    let mut i: usize = 0;
    while i < cells.len()
        invariant
            i <= cells.len(),
            views == nodes_view(cells@),
            views.len() == cells@.len(),
            forall|j: int| 0 <= j < cells@.len() ==> #[trigger] views[j] == node_view(cells@[j]),
            tag == (if header {
                "th"@
            } else {
                "td"@
            }),
            out@ == table_cells(views.subrange(0, i as int), tag),
        decreases cells.len() - i,
    {
        let content = render_children(&cells[i].children);
        let tag = if header {
            lit("th")
        } else {
            lit("td")
        };
        out.append("<");
        append_string(&mut out, &tag);
        out.append(">");
        append_string(&mut out, &content);
        out.append("</");
        append_string(&mut out, &tag);
        out.append(">");
        assert(views.subrange(0, i + 1).drop_last() =~= views.subrange(0, i as int));
        i = i + 1;
    }
    assert(views.subrange(0, cells.len() as int) =~= views);
    out
}

/// Renders an AST node, and all below it, as HTML.
pub fn ast_to_html(n: &Node) -> (r: String)
    ensures
        r@ == html(n@),
    decreases n,
{
    let mut out = String::new();
    match n.kind {
        Kind::Paragraph => {
            out.append("<p>");
            append_string(&mut out, &render_children(&n.children));
            out.append("</p>\n");
        },
        Kind::Heading => {
            let level = decimal_string(
                match get_num(n, Key::Level) {
                    Some(l) => l,
                    None => 1,
                },
            );
            out.append("<h");
            append_string(&mut out, &level);
            out.append(">");
            append_string(&mut out, &render_children(&n.children));
            out.append("</h");
            append_string(&mut out, &level);
            out.append(">\n");
        },
        Kind::CodeBlock => {
            let info = str_attr_or(n, Key::Info, "text");
            let literal = str_attr_or(n, Key::Literal, "");
            out.append("<pre><code");
            if !(info.as_str().is_empty() || info == lit("text")) {
                out.append(" class=\"language-");
                append_string(&mut out, &info);
                out.append("\"");
            }
            out.append(">");
            append_string(&mut out, &escape_html(literal.as_str()));
            out.append("</code></pre>\n");
        },
        Kind::BlockQuote => {
            out.append("<blockquote>\n");
            append_string(&mut out, &render_children(&n.children));
            out.append("</blockquote>\n");
        },
        Kind::List => {
            let tight = match get_bool(n, Key::Tight) {
                Some(b) => b,
                None => false,
            };
            let list_type = str_attr_or(n, Key::ListType, "bullet");
            let items = render_list_items(&n.children, tight);
            if list_type == lit("ordered") {
                let start = match get_num(n, Key::Start) {
                    Some(s) => s,
                    None => 1,
                };
                if start == 1 {
                    out.append("<ol>\n");
                } else {
                    out.append("<ol start=\"");
                    append_string(&mut out, &decimal_string(start));
                    out.append("\">\n");
                }
                append_string(&mut out, &items);
                out.append("</ol>\n");
            } else {
                out.append("<ul>\n");
                append_string(&mut out, &items);
                out.append("</ul>\n");
            }
        },
        Kind::Item => {
            out.append("<li>");
            append_string(&mut out, &render_children(&n.children));
            out.append("</li>\n");
        },
        Kind::TaskItem => {
            out.append("<li>");
            if get_str(n, Key::Symbol).is_some() {
                out.append("<input type=\"checkbox\" checked disabled>");
            } else {
                out.append("<input type=\"checkbox\" disabled>");
            }
            append_string(&mut out, &render_children(&n.children));
            out.append("</li>\n");
        },
        Kind::Table => {
            let thead = render_table_rows(&n.children, true);
            let tbody = render_table_rows(&n.children, false);
            out.append("<table>\n");
            if !thead.as_str().is_empty() {
                out.append("<thead>\n");
                append_string(&mut out, &thead);
                out.append("</thead>\n");
            }
            if !tbody.as_str().is_empty() {
                out.append("<tbody>\n");
                append_string(&mut out, &tbody);
                out.append("</tbody>\n");
            }
            out.append("</table>\n");
        },
        Kind::ThematicBreak => {
            out.append("<hr />\n");
        },
        Kind::HtmlBlock => {
            append_string(&mut out, &str_attr_or(n, Key::Literal, ""));
        },
        Kind::FootnoteDefinition => {
            let name = str_attr_or(n, Key::Name, "");
            out.append("<div id=\"fn-");
            append_string(&mut out, &name);
            out.append("\" class=\"footnote\">\n");
            append_string(&mut out, &render_children(&n.children));
            out.append("</div>\n");
        },
        Kind::Alert => {
            let alert_type = str_attr_or(n, Key::AlertType, "note");
            let default_title = if alert_type == lit("tip") {
                lit("Tip")
            } else if alert_type == lit("important") {
                lit("Important")
            } else if alert_type == lit("warning") {
                lit("Warning")
            } else if alert_type == lit("caution") {
                lit("Caution")
            } else {
                lit("Note")
            };
            let title = match get_str(n, Key::Title) {
                Some(t) => t.clone(),
                None => default_title,
            };
            out.append("<blockquote class=\"alert alert-");
            append_string(&mut out, &alert_type);
            out.append("\">\n<p class=\"alert-title\">");
            append_string(&mut out, &title);
            out.append("</p>\n");
            append_string(&mut out, &render_children(&n.children));
            out.append("</blockquote>\n");
        },
        Kind::Subtext => {
            out.append("<sub>");
            append_string(&mut out, &render_children(&n.children));
            out.append("</sub>");
        },
        Kind::Text => {
            append_string(&mut out, &escape_html(str_attr_or(n, Key::Value, "").as_str()));
        },
        Kind::Linebreak => {
            out.append("<br />\n");
        },
        Kind::Emph => {
            out.append("<em>");
            append_string(&mut out, &render_children(&n.children));
            out.append("</em>");
        },
        Kind::Strong => {
            out.append("<strong>");
            append_string(&mut out, &render_children(&n.children));
            out.append("</strong>");
        },
        Kind::Strikethrough => {
            out.append("<del>");
            append_string(&mut out, &render_children(&n.children));
            out.append("</del>");
        },
        Kind::Underline => {
            out.append("<u>");
            append_string(&mut out, &render_children(&n.children));
            out.append("</u>");
        },
        Kind::Highlight => {
            out.append("<mark>");
            append_string(&mut out, &render_children(&n.children));
            out.append("</mark>");
        },
        Kind::Superscript => {
            out.append("<sup>");
            append_string(&mut out, &render_children(&n.children));
            out.append("</sup>");
        },
        Kind::Subscript => {
            out.append("<sub>");
            append_string(&mut out, &render_children(&n.children));
            out.append("</sub>");
        },
        Kind::SpoileredText => {
            out.append("<span class=\"spoiler\">");
            append_string(&mut out, &render_children(&n.children));
            out.append("</span>");
        },
        Kind::Code => {
            out.append("<code>");
            append_string(&mut out, &escape_html(str_attr_or(n, Key::Literal, "").as_str()));
            out.append("</code>");
        },
        Kind::Link => {
            let url = str_attr_or(n, Key::Url, "");
            let title = str_attr_or(n, Key::Title, "");
            out.append("<a href=\"");
            append_string(&mut out, &escape_html(url.as_str()));
            if title.as_str().is_empty() {
                out.append("\">");
            } else {
                out.append("\" title=\"");
                append_string(&mut out, &escape_html(title.as_str()));
                out.append("\">");
            }
            append_string(&mut out, &render_children(&n.children));
            out.append("</a>");
        },
        Kind::Embed => {
            out.append("<img src=\"");
            append_string(&mut out, &escape_html(str_attr_or(n, Key::Url, "").as_str()));
            out.append("\" alt=\"");
            append_string(&mut out, &render_children(&n.children));
            out.append("\" />");
        },
        Kind::Wikilink => {
            out.append("<a href=\"");
            append_string(&mut out, &escape_html(str_attr_or(n, Key::Url, "").as_str()));
            out.append("\" data-wikilink=\"true\">");
            append_string(&mut out, &render_children(&n.children));
            out.append("</a>");
        },
        Kind::Hashtag => {
            let value = str_attr_or(n, Key::Value, "");
            out.append("<a href=\"");
            append_string(&mut out, &escape_html(value.as_str()));
            out.append("\" class=\"hashtag\">#");
            append_string(&mut out, &value);
            out.append("</a>");
        },
        Kind::FootnoteReference => {
            let name = str_attr_or(n, Key::Name, "");
            let ix = match get_num(n, Key::Ix) {
                Some(i) => i,
                None => 0,
            };
            out.append("<sup><a id=\"fnref-");
            append_string(&mut out, &name);
            out.append("\" href=\"#fn-");
            append_string(&mut out, &name);
            out.append("\">");
            append_string(&mut out, &decimal_string(ix));
            out.append("</a></sup>");
        },
        Kind::Shortcode => {
            append_string(&mut out, &str_attr_or(n, Key::Emoji, ""));
        },
        Kind::Math => {
            out.append("<span class=\"math\">");
            append_string(&mut out, &escape_html(str_attr_or(n, Key::Literal, "").as_str()));
            out.append("</span>");
        },
        Kind::HtmlInline => {
            append_string(&mut out, &str_attr_or(n, Key::Value, ""));
        },
        Kind::Raw => {
            append_string(&mut out, &str_attr_or(n, Key::Value, ""));
        },
        Kind::Escaped => {},
        Kind::EscapedTag => {
            out.append("&lt;");
            append_string(&mut out, &str_attr_or(n, Key::Value, ""));
            out.append("&gt;");
        },
        _ => {
            append_string(&mut out, &render_children(&n.children));
        },
    }
    proof {
        reveal_strlit("");
    }
    assert(out@ =~= html(n@));
    out
}

} // verus!
