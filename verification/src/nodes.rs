//! The Markdown parser's nodes as plain values, and how each becomes an AST node.
use vstd::prelude::*;

use crate::ast::{attrs_view, find_attr, AttrValue, AttrView, Key, Kind};
use crate::embed::{embed_url, parse_embed_url, props_view};
use crate::text::string_of;

verus! {

/// What the parser records of a list or a list item.
pub struct ListFacts {
    pub ordered: bool,
    pub start: usize,
    pub tight: bool,
    /// The delimiter of an ordered list is `)` rather than `.`.
    pub paren: bool,
}

/// The alignment of a table column.
#[derive(Clone, Copy, PartialEq, Eq, Structural, Debug)]
pub enum Align {
    Unset,
    Left,
    Center,
    Right,
}

/// The type of a GitHub-style alert.
#[derive(Clone, Copy, PartialEq, Eq, Structural, Debug)]
pub enum AlertKind {
    Note,
    Tip,
    Important,
    Warning,
    Caution,
}

/// One node of the parsed Markdown document, as plain values: the variant
/// of the parser's node value, with the fields that the AST keeps.
pub enum MdValue {
    Document,
    FrontMatter(String),
    BlockQuote,
    List(ListFacts),
    Item(ListFacts),
    DescriptionList,
    DescriptionItem,
    DescriptionTerm,
    DescriptionDetails,
    CodeBlock { info: String, literal: String },
    HtmlBlock { block_type: u8, literal: String },
    HeexBlock,
    Paragraph,
    Heading(u8),
    ThematicBreak,
    FootnoteDefinition(String),
    Table { alignments: Vec<Align>, num_columns: usize, num_rows: usize },
    TableRow(bool),
    TableCell,
    Text(String),
    TaskItem(Option<char>),
    SoftBreak,
    LineBreak,
    Code(String),
    HtmlInline(String),
    HeexInline(String),
    Raw(String),
    Emph,
    Strong,
    Strikethrough,
    Highlight,
    Insert,
    Superscript,
    Link { url: String, title: String },
    Image { url: String, title: String },
    FootnoteReference { name: String, ref_num: u32, ix: u32 },
    ShortCode { code: String, emoji: String },
    Math(String),
    MultilineBlockQuote,
    Escaped,
    WikiLink(String),
    Underline,
    Subscript,
    SpoileredText,
    EscapedTag(String),
    Alert { alert_type: AlertKind, alert_title: Option<String> },
    Subtext,
}

pub open spec fn list_type_name(ordered: bool) -> Seq<char> {
    if ordered {
        "ordered"@
    } else {
        "bullet"@
    }
}

pub open spec fn align_name(a: Align) -> Seq<char> {
    match a {
        Align::Unset => "none"@,
        Align::Left => "left"@,
        Align::Center => "center"@,
        Align::Right => "right"@,
    }
}

pub open spec fn alert_name(a: AlertKind) -> Seq<char> {
    match a {
        AlertKind::Note => "note"@,
        AlertKind::Tip => "tip"@,
        AlertKind::Important => "important"@,
        AlertKind::Warning => "warning"@,
        AlertKind::Caution => "caution"@,
    }
}

pub open spec fn str_val(s: Seq<char>) -> AttrView {
    AttrView::Str(s)
}

/// The attributes of an embed with URL `url` and title `title`.
pub open spec fn embed_attrs(url: Seq<char>, title: Seq<char>) -> Seq<(Key, AttrView)> {
    let (base, props) = embed_url(url);
    seq![(Key::Url, str_val(base)), (Key::Title, str_val(title))] + if props.len() == 0 {
        Seq::empty()
    } else {
        seq![(Key::Props, AttrView::Props(props))]
    }
}

/// The AST type and attributes of a parsed node.
pub open spec fn node_type_attrs(v: MdValue) -> (Kind, Seq<(Key, AttrView)>) {
    match v {
        MdValue::Document => (Kind::Document, seq![]),
        MdValue::FrontMatter(s) => (Kind::FrontMatter, seq![(Key::Value, str_val(s@))]),
        MdValue::BlockQuote => (Kind::BlockQuote, seq![]),
        MdValue::List(l) => (
            Kind::List,
            seq![
                (Key::ListType, str_val(list_type_name(l.ordered))),
                (Key::Start, AttrView::Num(l.start as u64)),
                (Key::Tight, AttrView::Bool(l.tight)),
                (Key::Delimiter, str_val(
                    if l.paren {
                        "paren"@
                    } else {
                        "period"@
                    },
                )),
            ],
        ),
        MdValue::Item(l) => (
            Kind::Item,
            seq![
                (Key::ListType, str_val(list_type_name(l.ordered))),
                (Key::Start, AttrView::Num(l.start as u64)),
                (Key::Tight, AttrView::Bool(l.tight)),
            ],
        ),
        MdValue::DescriptionList => (Kind::DescriptionList, seq![]),
        MdValue::DescriptionItem => (Kind::DescriptionItem, seq![]),
        MdValue::DescriptionTerm => (Kind::DescriptionTerm, seq![]),
        MdValue::DescriptionDetails => (Kind::DescriptionDetails, seq![]),
        MdValue::CodeBlock { info, literal } => (
            Kind::CodeBlock,
            seq![(Key::Info, str_val(info@)), (Key::Literal, str_val(literal@))],
        ),
        MdValue::HtmlBlock { block_type, literal } => (
            Kind::HtmlBlock,
            seq![
                (Key::BlockType, AttrView::Num(block_type as u64)),
                (Key::Literal, str_val(literal@)),
            ],
        ),
        MdValue::HeexBlock => (Kind::HeexBlock, seq![]),
        MdValue::Paragraph => (Kind::Paragraph, seq![]),
        MdValue::Heading(level) => (Kind::Heading, seq![(Key::Level, AttrView::Num(level as u64))]),
        MdValue::ThematicBreak => (Kind::ThematicBreak, seq![]),
        MdValue::FootnoteDefinition(name) => (
            Kind::FootnoteDefinition,
            seq![(Key::Name, str_val(name@))],
        ),
        MdValue::Table { alignments, num_columns, num_rows } => (
            Kind::Table,
            seq![
                (Key::Alignments, AttrView::List(alignments@.map_values(|a: Align| align_name(a)))),
                (Key::NumColumns, AttrView::Num(num_columns as u64)),
                (Key::NumRows, AttrView::Num(num_rows as u64)),
            ],
        ),
        MdValue::TableRow(header) => (Kind::TableRow, seq![(Key::Header, AttrView::Bool(header))]),
        MdValue::TableCell => (Kind::TableCell, seq![]),
        MdValue::Text(s) => (Kind::Text, seq![(Key::Value, str_val(s@))]),
        MdValue::TaskItem(symbol) => (
            Kind::TaskItem,
            seq![
                (Key::Symbol, match symbol {
                    Some(c) => str_val(seq![c]),
                    None => AttrView::Null,
                }),
            ],
        ),
        MdValue::SoftBreak => (Kind::Linebreak, seq![]),
        MdValue::LineBreak => (Kind::Linebreak, seq![]),
        MdValue::Code(literal) => (Kind::Code, seq![(Key::Literal, str_val(literal@))]),
        MdValue::HtmlInline(s) => (Kind::HtmlInline, seq![(Key::Value, str_val(s@))]),
        MdValue::HeexInline(s) => (Kind::HeexInline, seq![(Key::Value, str_val(s@))]),
        MdValue::Raw(s) => (Kind::Raw, seq![(Key::Value, str_val(s@))]),
        MdValue::Emph => (Kind::Emph, seq![]),
        MdValue::Strong => (Kind::Strong, seq![]),
        MdValue::Strikethrough => (Kind::Strikethrough, seq![]),
        MdValue::Highlight => (Kind::Highlight, seq![]),
        MdValue::Superscript => (Kind::Superscript, seq![]),
        MdValue::Link { url, title } => (
            Kind::Link,
            seq![(Key::Url, str_val(url@)), (Key::Title, str_val(title@))],
        ),
        MdValue::Image { url, title } => (Kind::Embed, embed_attrs(url@, title@)),
        MdValue::FootnoteReference { name, ref_num, ix } => (
            Kind::FootnoteReference,
            seq![
                (Key::Name, str_val(name@)),
                (Key::RefNum, AttrView::Num(ref_num as u64)),
                (Key::Ix, AttrView::Num(ix as u64)),
            ],
        ),
        MdValue::ShortCode { code, emoji } => (
            Kind::Shortcode,
            seq![(Key::Code, str_val(code@)), (Key::Emoji, str_val(emoji@))],
        ),
        MdValue::Math(literal) => (Kind::Math, seq![(Key::Literal, str_val(literal@))]),
        MdValue::Escaped => (Kind::Escaped, seq![]),
        MdValue::WikiLink(url) => (Kind::Wikilink, seq![(Key::Url, str_val(url@))]),
        MdValue::Underline => (Kind::Underline, seq![]),
        MdValue::Subscript => (Kind::Subscript, seq![]),
        MdValue::SpoileredText => (Kind::SpoileredText, seq![]),
        MdValue::EscapedTag(s) => (Kind::EscapedTag, seq![(Key::Value, str_val(s@))]),
        MdValue::Alert { alert_type, alert_title } => (
            Kind::Alert,
            seq![
                (Key::AlertType, str_val(alert_name(alert_type))),
                (Key::Title, match alert_title {
                    Some(t) => str_val(t@),
                    None => AttrView::Null,
                }),
            ],
        ),
        MdValue::Subtext => (Kind::Subtext, seq![]),
        MdValue::Insert => (Kind::Insert, seq![]),
        MdValue::MultilineBlockQuote => (Kind::BlockQuote, seq![]),
    }
}

fn lit(s: &str) -> (r: String)
    ensures
        r@ == s@,
{
    String::from_str(s)
}

fn str_attr_value(s: &String) -> (r: AttrValue)
    ensures
        r@ == str_val(s@),
{
    AttrValue::Str(s.clone())
}

/// The AST type and attributes of a parsed node. A multiline block quote,
/// which this parser configuration never produces, is not accepted.
pub fn serialize_node_value(v: &MdValue) -> (r: (Kind, Vec<(Key, AttrValue)>))
    requires
        !(v is MultilineBlockQuote),
    ensures
        r.0 == node_type_attrs(*v).0,
        attrs_view(r.1@) == node_type_attrs(*v).1,
{
    let mut a: Vec<(Key, AttrValue)> = Vec::new();
    let kind = match v {
        MdValue::Document => Kind::Document,
        MdValue::FrontMatter(s) => {
            a.push((Key::Value, str_attr_value(s)));
            Kind::FrontMatter
        },
        MdValue::BlockQuote => Kind::BlockQuote,
        MdValue::List(l) => {
            a.push(
                (
                    Key::ListType,
                    AttrValue::Str(
                        if l.ordered {
                            lit("ordered")
                        } else {
                            lit("bullet")
                        },
                    ),
                ),
            );
            a.push((Key::Start, AttrValue::Num(l.start as u64)));
            a.push((Key::Tight, AttrValue::Bool(l.tight)));
            a.push(
                (
                    Key::Delimiter,
                    AttrValue::Str(
                        if l.paren {
                            lit("paren")
                        } else {
                            lit("period")
                        },
                    ),
                ),
            );
            Kind::List
        },
        MdValue::Item(l) => {
            a.push(
                (
                    Key::ListType,
                    AttrValue::Str(
                        if l.ordered {
                            lit("ordered")
                        } else {
                            lit("bullet")
                        },
                    ),
                ),
            );
            a.push((Key::Start, AttrValue::Num(l.start as u64)));
            a.push((Key::Tight, AttrValue::Bool(l.tight)));
            Kind::Item
        },
        MdValue::DescriptionList => Kind::DescriptionList,
        MdValue::DescriptionItem => Kind::DescriptionItem,
        MdValue::DescriptionTerm => Kind::DescriptionTerm,
        MdValue::DescriptionDetails => Kind::DescriptionDetails,
        MdValue::CodeBlock { info, literal } => {
            a.push((Key::Info, str_attr_value(info)));
            a.push((Key::Literal, str_attr_value(literal)));
            Kind::CodeBlock
        },
        MdValue::HtmlBlock { block_type, literal } => {
            a.push((Key::BlockType, AttrValue::Num(*block_type as u64)));
            a.push((Key::Literal, str_attr_value(literal)));
            Kind::HtmlBlock
        },
        MdValue::HeexBlock => Kind::HeexBlock,
        MdValue::Paragraph => Kind::Paragraph,
        MdValue::Heading(level) => {
            a.push((Key::Level, AttrValue::Num(*level as u64)));
            Kind::Heading
        },
        MdValue::ThematicBreak => Kind::ThematicBreak,
        MdValue::FootnoteDefinition(name) => {
            a.push((Key::Name, str_attr_value(name)));
            Kind::FootnoteDefinition
        },
        MdValue::Table { alignments, num_columns, num_rows } => {
            let mut names: Vec<String> = Vec::new();
            let mut i: usize = 0;
            while i < alignments.len()
                invariant
                    i <= alignments.len(),
                    names@.len() == i,
                    forall|j: int| 0 <= j < i ==> #[trigger] names@[j]@ == align_name(alignments@[j]),
                decreases alignments.len() - i,
            {
                let name = match alignments[i] {
                    Align::Unset => lit("none"),
                    Align::Left => lit("left"),
                    Align::Center => lit("center"),
                    Align::Right => lit("right"),
                };
                names.push(name);
                i = i + 1;
            }
            assert(names@.map_values(|s: String| s@) =~= alignments@.map_values(
                |x: Align| align_name(x),
            ));
            a.push((Key::Alignments, AttrValue::List(names)));
            a.push((Key::NumColumns, AttrValue::Num(*num_columns as u64)));
            a.push((Key::NumRows, AttrValue::Num(*num_rows as u64)));
            Kind::Table
        },
        MdValue::TableRow(header) => {
            a.push((Key::Header, AttrValue::Bool(*header)));
            Kind::TableRow
        },
        MdValue::TableCell => Kind::TableCell,
        MdValue::Text(s) => {
            a.push((Key::Value, str_attr_value(s)));
            Kind::Text
        },
        MdValue::TaskItem(symbol) => {
            let value = match symbol {
                Some(c) => {
                    let mut cs: Vec<char> = Vec::new();
                    cs.push(*c);
                    AttrValue::Str(string_of(&cs))
                },
                None => AttrValue::Null,
            };
            a.push((Key::Symbol, value));
            Kind::TaskItem
        },
        MdValue::SoftBreak => Kind::Linebreak,
        MdValue::LineBreak => Kind::Linebreak,
        MdValue::Code(literal) => {
            a.push((Key::Literal, str_attr_value(literal)));
            Kind::Code
        },
        MdValue::HtmlInline(s) => {
            a.push((Key::Value, str_attr_value(s)));
            Kind::HtmlInline
        },
        MdValue::HeexInline(s) => {
            a.push((Key::Value, str_attr_value(s)));
            Kind::HeexInline
        },
        MdValue::Raw(s) => {
            a.push((Key::Value, str_attr_value(s)));
            Kind::Raw
        },
        MdValue::Emph => Kind::Emph,
        MdValue::Strong => Kind::Strong,
        MdValue::Strikethrough => Kind::Strikethrough,
        MdValue::Highlight => Kind::Highlight,
        MdValue::Superscript => Kind::Superscript,
        MdValue::Link { url, title } => {
            a.push((Key::Url, str_attr_value(url)));
            a.push((Key::Title, str_attr_value(title)));
            Kind::Link
        },
        MdValue::Image { url, title } => {
            let (base, props) = parse_embed_url(url.as_str());
            a.push((Key::Url, AttrValue::Str(base)));
            a.push((Key::Title, str_attr_value(title)));
            if props.len() > 0 {
                a.push((Key::Props, AttrValue::Props(props)));
            }
            Kind::Embed
        },
        MdValue::FootnoteReference { name, ref_num, ix } => {
            a.push((Key::Name, str_attr_value(name)));
            a.push((Key::RefNum, AttrValue::Num(*ref_num as u64)));
            a.push((Key::Ix, AttrValue::Num(*ix as u64)));
            Kind::FootnoteReference
        },
        MdValue::ShortCode { code, emoji } => {
            a.push((Key::Code, str_attr_value(code)));
            a.push((Key::Emoji, str_attr_value(emoji)));
            Kind::Shortcode
        },
        MdValue::Math(literal) => {
            a.push((Key::Literal, str_attr_value(literal)));
            Kind::Math
        },
        MdValue::Escaped => Kind::Escaped,
        MdValue::WikiLink(url) => {
            a.push((Key::Url, str_attr_value(url)));
            Kind::Wikilink
        },
        MdValue::Underline => Kind::Underline,
        MdValue::Subscript => Kind::Subscript,
        MdValue::SpoileredText => Kind::SpoileredText,
        MdValue::EscapedTag(s) => {
            a.push((Key::Value, str_attr_value(s)));
            Kind::EscapedTag
        },
        MdValue::Alert { alert_type, alert_title } => {
            let name = match alert_type {
                AlertKind::Note => lit("note"),
                AlertKind::Tip => lit("tip"),
                AlertKind::Important => lit("important"),
                AlertKind::Warning => lit("warning"),
                AlertKind::Caution => lit("caution"),
            };
            a.push((Key::AlertType, AttrValue::Str(name)));
            let t = match alert_title {
                Some(t) => str_attr_value(t),
                None => AttrValue::Null,
            };
            a.push((Key::Title, t));
            Kind::Alert
        },
        MdValue::Subtext => Kind::Subtext,
        MdValue::Insert => Kind::Insert,
        MdValue::MultilineBlockQuote => Kind::BlockQuote,
    };
    assert(attrs_view(a@) =~= node_type_attrs(*v).1);
    (kind, a)
}

/// A list keeps what the parser recorded of it: its AST node is a `list`
/// whose `list_type`, `start`, `tight` and `delimiter` are the parser's, and
/// a list item an `item` whose `list_type`, `start` and `tight` are.
pub proof fn lemma_list_attrs(f: ListFacts)
    ensures
        node_type_attrs(MdValue::List(f)).0 == Kind::List,
        find_attr(node_type_attrs(MdValue::List(f)).1, Key::ListType) == Some(
            AttrView::Str(if f.ordered { "ordered"@ } else { "bullet"@ }),
        ),
        find_attr(node_type_attrs(MdValue::List(f)).1, Key::Start) == Some(AttrView::Num(f.start as u64)),
        find_attr(node_type_attrs(MdValue::List(f)).1, Key::Tight) == Some(AttrView::Bool(f.tight)),
        find_attr(node_type_attrs(MdValue::List(f)).1, Key::Delimiter) == Some(
            AttrView::Str(if f.paren { "paren"@ } else { "period"@ }),
        ),
        node_type_attrs(MdValue::Item(f)).0 == Kind::Item,
        find_attr(node_type_attrs(MdValue::Item(f)).1, Key::ListType) == Some(
            AttrView::Str(if f.ordered { "ordered"@ } else { "bullet"@ }),
        ),
        find_attr(node_type_attrs(MdValue::Item(f)).1, Key::Start) == Some(AttrView::Num(f.start as u64)),
        find_attr(node_type_attrs(MdValue::Item(f)).1, Key::Tight) == Some(AttrView::Bool(f.tight)),
{
    let a = node_type_attrs(MdValue::List(f)).1;
    assert(a.drop_first().drop_first().drop_first().drop_first() =~= Seq::<(Key, AttrView)>::empty());
    reveal_with_fuel(find_attr, 5);
    let b = node_type_attrs(MdValue::Item(f)).1;
    assert(b.drop_first()[0] == b[1]);
    assert(a.drop_first()[0] == a[1]);
    assert(a.drop_first().drop_first()[0] == a[2]);
    assert(a.drop_first().drop_first().drop_first()[0] == a[3]);
    assert(b.drop_first().drop_first()[0] == b[2]);
}

} // verus!
