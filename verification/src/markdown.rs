//! The Markdown parser (comrak): its configuration, the call that parses a
//! body, and the reading of each parsed node as a plain `MdValue`.
use vstd::prelude::*;

use comrak::nodes::{AlertType, ListDelimType, ListType, NodeValue, TableAlignment};

use crate::nodes::{AlertKind, Align, ListFacts, MdValue};

verus! {

#[verifier::external_type_specification]
#[verifier::external_body]
pub struct ExComrakOptions<'c>(comrak::Options<'c>);

#[verifier::external_type_specification]
#[verifier::external_body]
pub struct ExNodeValue(comrak::nodes::NodeValue);

#[verifier::external_type_specification]
#[verifier::external_body]
pub struct ExTableAlignment(comrak::nodes::TableAlignment);

/// Parse-time switches of the parser.
pub struct ParseFlags {
    pub relaxed_tasklist_matching: bool,
    pub relaxed_autolinks: bool,
    /// The info string of a code block that has none.
    pub default_info_string: String,
}

/// The syntax extensions the parser recognises.
pub struct ExtensionFlags {
    pub strikethrough: bool,
    pub table: bool,
    pub autolink: bool,
    pub tasklist: bool,
    pub superscript: bool,
    pub footnotes: bool,
    pub inline_footnotes: bool,
    pub math_code: bool,
    pub underline: bool,
    pub subscript: bool,
    pub spoiler: bool,
    pub greentext: bool,
    pub alerts: bool,
    pub cjk_friendly_emphasis: bool,
    pub subtext: bool,
    pub highlight: bool,
    pub shortcodes: bool,
    pub wikilinks_title_after_pipe: bool,
    /// `>>>`-fenced block quotes.
    pub multiline_block_quotes: bool,
    /// `$...$` and `$$...$$` math.
    pub math_dollars: bool,
}

/// The parser configuration of flatmarkdown. comrak reads its render
/// switches, and the `tagfilter` extension, only when it renders HTML
/// itself; this library renders the AST on its own, so they are not set.
pub struct ParserOptions {
    pub parse: ParseFlags,
    pub extension: ExtensionFlags,
}

/// The mathematical value of a parser configuration.
pub struct ParserOptionsView {
    pub relaxed_tasklist_matching: bool,
    pub relaxed_autolinks: bool,
    pub default_info_string: Seq<char>,
    pub extension: ExtensionFlags,
}

impl View for ParserOptions {
    type V = ParserOptionsView;

    open spec fn view(&self) -> ParserOptionsView {
        ParserOptionsView {
            relaxed_tasklist_matching: self.parse.relaxed_tasklist_matching,
            relaxed_autolinks: self.parse.relaxed_autolinks,
            default_info_string: self.parse.default_info_string@,
            extension: self.extension,
        }
    }
}

/// The parser configuration of flatmarkdown: GitHub-flavoured Markdown with
/// relaxed task lists and autolinks, code blocks without an info string
/// taken as `text`, and comrak's extensions for superscript, footnotes
/// (inline ones too), math in code spans, underline, subscript, spoilers,
/// greentext, alerts, CJK-friendly emphasis, subtext, highlight, emoji
/// shortcodes and `[[url|title]]` wikilinks; `>>>` block quotes and dollar
/// math are off.
pub open spec fn flat_options() -> ParserOptionsView {
    ParserOptionsView {
        relaxed_tasklist_matching: true,
        relaxed_autolinks: true,
        default_info_string: "text"@,
        extension: ExtensionFlags {
            strikethrough: true,
            table: true,
            autolink: true,
            tasklist: true,
            superscript: true,
            footnotes: true,
            inline_footnotes: true,
            math_code: true,
            underline: true,
            subscript: true,
            spoiler: true,
            greentext: true,
            alerts: true,
            cjk_friendly_emphasis: true,
            subtext: true,
            highlight: true,
            shortcodes: true,
            wikilinks_title_after_pipe: true,
            multiline_block_quotes: false,
            math_dollars: false,
        },
    }
}

/// The parser configuration of flatmarkdown (see `flat_options`).
pub fn options() -> (o: ParserOptions)
    ensures
        o@ == flat_options(),
{
    ParserOptions {
        parse: ParseFlags {
            relaxed_tasklist_matching: true,
            relaxed_autolinks: true,
            default_info_string: String::from_str("text"),
        },
        extension: ExtensionFlags {
            strikethrough: true,
            table: true,
            autolink: true,
            tasklist: true,
            superscript: true,
            footnotes: true,
            inline_footnotes: true,
            math_code: true,
            underline: true,
            subscript: true,
            spoiler: true,
            greentext: true,
            alerts: true,
            cjk_friendly_emphasis: true,
            subtext: true,
            highlight: true,
            shortcodes: true,
            wikilinks_title_after_pipe: true,
            multiline_block_quotes: false,
            math_dollars: false,
        },
    }
}

/// `comrak::Options::default()`, with the parse switches (`parse`) set from
/// `p`. Nothing is stated of the result: `Options` is opaque here.
#[verifier::external_body]
fn comrak_options(p: &ParseFlags) -> comrak::Options<'static> {
    let mut o = comrak::Options::default();
    o.parse.relaxed_tasklist_matching = p.relaxed_tasklist_matching;
    o.parse.relaxed_autolinks = p.relaxed_autolinks;
    o.parse.default_info_string = Some(p.default_info_string.clone());
    o
}

/// Sets comrak's GitHub-flavoured extension switches, and those for `>>>`
/// block quotes and dollar math (`o.extension`), from `e`.
#[verifier::external_body]
fn set_gfm_extensions(o: &mut comrak::Options<'static>, e: &ExtensionFlags) {
    o.extension.strikethrough = e.strikethrough;
    o.extension.table = e.table;
    o.extension.autolink = e.autolink;
    o.extension.tasklist = e.tasklist;
    o.extension.multiline_block_quotes = e.multiline_block_quotes;
    o.extension.math_dollars = e.math_dollars;
}

/// Sets comrak's own extension switches (`o.extension`) from `e`.
#[verifier::external_body]
fn set_comrak_extensions(o: &mut comrak::Options<'static>, e: &ExtensionFlags) {
    o.extension.superscript = e.superscript;
    o.extension.footnotes = e.footnotes;
    o.extension.inline_footnotes = e.inline_footnotes;
    o.extension.math_code = e.math_code;
    o.extension.underline = e.underline;
    o.extension.subscript = e.subscript;
    o.extension.spoiler = e.spoiler;
    o.extension.greentext = e.greentext;
    o.extension.alerts = e.alerts;
    o.extension.cjk_friendly_emphasis = e.cjk_friendly_emphasis;
    o.extension.subtext = e.subtext;
    o.extension.highlight = e.highlight;
    o.extension.shortcodes = e.shortcodes;
    o.extension.wikilinks_title_after_pipe = e.wikilinks_title_after_pipe;
}

/// A parser configuration together with the comrak `Options` built from it.
/// Its fields are private to this module, and `config` is the one place
/// that makes a `Config`: `options` is always what `config` built from
/// `flags`.
pub struct Config {
    flags: ParserOptions,
    options: comrak::Options<'static>,
}

impl View for Config {
    type V = ParserOptionsView;

    closed spec fn view(&self) -> ParserOptionsView {
        self.flags@
    }
}

/// Builds comrak's `Options` for a parser configuration.
pub fn config(p: ParserOptions) -> (c: Config)
    ensures
        c@ == p@,
{
    let mut o = comrak_options(&p.parse);
    set_gfm_extensions(&mut o, &p.extension);
    set_comrak_extensions(&mut o, &p.extension);
    Config { flags: p, options: o }
}

/// What comrak makes of `text` under a configuration: the document's nodes
/// in tree order, each with its depth (the root at 1) and its value read as
/// an `MdValue` (`None` for a kind of node that `read_value` does not know).
/// comrak's parse is a function of the text and the options alone.
pub uninterp spec fn comrak_outline(text: Seq<char>, options: ParserOptionsView) -> Seq<
    (usize, Option<MdValue>),
>;

/// `comrak::parse_document` on `text` with the options of `c`, with the
/// document's nodes listed in tree order (`descendants`: each node before
/// its children), each with the number of its `ancestors` (which count the
/// node itself) and its value read by `read_value`. The listing is named
/// `comrak_outline` of the text and of the configuration that the options
/// were built from; beside the name, the shape every such listing has is
/// stated: the root comes first with count 1, every other node has count at
/// least 2, and each is at most one level deeper than the node before it;
/// the root is the document (`parse_document` makes a `Document` root, which
/// `read_value` reads as `MdValue::Document`); and with `>>>` block quotes off, comrak makes no multiline block quote
/// (it makes one only where that extension is on).
#[verifier::external_body]
fn parse_outline(text: &str, c: &Config) -> (r: Vec<(usize, Option<MdValue>)>)
    ensures
        r@ == comrak_outline(text@, c@),
        r.len() >= 1,
        r[0].0 == 1,
        forall|k: int| 1 <= k < r.len() ==> 2 <= #[trigger] r[k].0 <= r[k - 1].0 + 1,
        r[0].1 matches Some(MdValue::Document),
        !c@.extension.multiline_block_quotes ==> forall|k: int|
            0 <= k < r.len() ==> !(#[trigger] r[k].1 matches Some(MdValue::MultilineBlockQuote)),
{
    let arena = comrak::Arena::new();
    let root = comrak::parse_document(&arena, text, &c.options);
    root.descendants().map(|n| (n.ancestors().count(), read_value(&n.data.borrow().value))).collect()
}

/// `NodeValue::xml_node_name`: the name of the node's variant.
#[verifier::external_body]
fn node_name(v: &NodeValue) -> String {
    v.xml_node_name().to_string()
}

/// The string that a node value carries: the text of `Text`, the literal of
/// `Code` and `Math`, the content of `FrontMatter`, `HtmlInline`, `Raw` and
/// `EscapedTag`, the URL of `WikiLink`, the name of `FootnoteDefinition`.
#[verifier::external_body]
fn string_payload(v: &NodeValue) -> Option<String> {
    match v {
        NodeValue::Text(t) => Some(t.to_string()),
        NodeValue::FrontMatter(s) | NodeValue::HtmlInline(s) | NodeValue::Raw(s) => Some(s.clone()),
        NodeValue::Code(c) => Some(c.literal.clone()),
        NodeValue::Math(m) => Some(m.literal.clone()),
        NodeValue::WikiLink(w) => Some(w.url.clone()),
        NodeValue::EscapedTag(t) => Some(t.to_string()),
        NodeValue::FootnoteDefinition(f) => Some(f.name.clone()),
        _ => None,
    }
}

/// The two strings that a node value carries: the info string and literal
/// of `CodeBlock`, the URL and title of `Link` and `Image`, the code and
/// emoji of `ShortCode`.
#[verifier::external_body]
fn string_pair(v: &NodeValue) -> Option<(String, String)> {
    match v {
        NodeValue::CodeBlock(c) => Some((c.info.clone(), c.literal.clone())),
        NodeValue::Link(l) | NodeValue::Image(l) => Some((l.url.clone(), l.title.clone())),
        NodeValue::ShortCode(s) => Some((s.code.clone(), s.emoji.clone())),
        _ => None,
    }
}

/// The list fields of `List` and `Item`: whether the list type is
/// `Ordered`, `start`, `tight`, and whether the delimiter is `Paren`.
#[verifier::external_body]
fn list_facts(v: &NodeValue) -> Option<ListFacts> {
    match v {
        NodeValue::List(l) | NodeValue::Item(l) => Some(ListFacts {
            ordered: matches!(l.list_type, ListType::Ordered),
            start: l.start,
            tight: l.tight,
            paren: matches!(l.delimiter, ListDelimType::Paren),
        }),
        _ => None,
    }
}

/// The `block_type` and `literal` of an `HtmlBlock`.
#[verifier::external_body]
fn html_block(v: &NodeValue) -> Option<(u8, String)> {
    match v {
        NodeValue::HtmlBlock(h) => Some((h.block_type, h.literal.clone())),
        _ => None,
    }
}

/// The `level` of a `Heading`.
#[verifier::external_body]
fn heading_level(v: &NodeValue) -> Option<u8> {
    match v {
        NodeValue::Heading(h) => Some(h.level),
        _ => None,
    }
}

/// The `alignments`, `num_columns` and `num_rows` of a `Table`.
#[verifier::external_body]
fn table_facts(v: &NodeValue) -> Option<
    (Vec<TableAlignment>, usize, usize),
> {
    match v {
        NodeValue::Table(t) => Some((t.alignments.clone(), t.num_columns, t.num_rows)),
        _ => None,
    }
}

/// The variant of a `TableAlignment`, variant for variant.
#[verifier::external_body]
fn alignment(a: &TableAlignment) -> Align {
    match a {
        TableAlignment::None => Align::Unset,
        TableAlignment::Left => Align::Left,
        TableAlignment::Center => Align::Center,
        TableAlignment::Right => Align::Right,
    }
}

/// Whether a `TableRow` is the header row.
#[verifier::external_body]
fn table_row(v: &NodeValue) -> Option<bool> {
    match v {
        NodeValue::TableRow(header) => Some(*header),
        _ => None,
    }
}

/// The `symbol` of a `TaskItem`.
#[verifier::external_body]
fn task_item(v: &NodeValue) -> Option<Option<char>> {
    match v {
        NodeValue::TaskItem(t) => Some(t.symbol),
        _ => None,
    }
}

/// The `name`, `ref_num` and `ix` of a `FootnoteReference`.
#[verifier::external_body]
fn footnote_reference(v: &NodeValue) -> Option<(String, u32, u32)> {
    match v {
        NodeValue::FootnoteReference(f) => Some((f.name.clone(), f.ref_num, f.ix)),
        _ => None,
    }
}

/// The `alert_type` (variant for variant) and `title` of an `Alert`.
#[verifier::external_body]
fn alert_facts(v: &NodeValue) -> Option<(AlertKind, Option<String>)> {
    match v {
        NodeValue::Alert(a) => Some((match a.alert_type {
            AlertType::Note => AlertKind::Note,
            AlertType::Tip => AlertKind::Tip,
            AlertType::Important => AlertKind::Important,
            AlertType::Warning => AlertKind::Warning,
            AlertType::Caution => AlertKind::Caution,
        }, a.title.clone())),
        _ => None,
    }
}

fn or_empty(s: Option<String>) -> (r: String)
    ensures
        match s {
            Some(x) => r == x,
            None => r@ == Seq::<char>::empty(),
        },
{
    match s {
        Some(s) => s,
        None => String::new(),
    }
}

fn names(s: &String, lit: &str) -> (b: bool)
    ensures
        b == (s@ == lit@),
{
    *s == String::from_str(lit)
}

/// Reads a parsed node as a plain value, by the name of its variant; `None`
/// for a kind of node that this parser configuration does not produce. It is
/// applied to each node in `parse_outline`, so what it returns is part of
/// what `comrak_outline` names; on its own nothing is stated of it, since a
/// comrak node value is opaque here.
fn read_value(v: &NodeValue) -> Option<MdValue> {
    let name = node_name(v);
    let r = if names(&name, "document") {
        MdValue::Document
    } else if names(&name, "frontmatter") {
        MdValue::FrontMatter(or_empty(string_payload(v)))
    } else if names(&name, "block_quote") {
        MdValue::BlockQuote
    } else if names(&name, "list") || names(&name, "item") {
        let facts = match list_facts(v) {
            Some(f) => f,
            None => ListFacts { ordered: false, start: 0, tight: false, paren: false },
        };
        if names(&name, "list") {
            MdValue::List(facts)
        } else {
            MdValue::Item(facts)
        }
    } else if names(&name, "description_list") {
        MdValue::DescriptionList
    } else if names(&name, "description_item") {
        MdValue::DescriptionItem
    } else if names(&name, "description_term") {
        MdValue::DescriptionTerm
    } else if names(&name, "description_details") {
        MdValue::DescriptionDetails
    } else if names(&name, "code_block") {
        let (info, literal) = match string_pair(v) {
            Some(p) => p,
            None => (String::new(), String::new()),
        };
        MdValue::CodeBlock { info, literal }
    } else if names(&name, "html_block") {
        let (block_type, literal) = match html_block(v) {
            Some(p) => p,
            None => (0, String::new()),
        };
        MdValue::HtmlBlock { block_type, literal }
    } else if names(&name, "heex_block") {
        MdValue::HeexBlock
    } else if names(&name, "paragraph") {
        MdValue::Paragraph
    } else if names(&name, "heading") {
        MdValue::Heading(
            match heading_level(v) {
                Some(l) => l,
                None => 0,
            },
        )
    } else if names(&name, "thematic_break") {
        MdValue::ThematicBreak
    } else if names(&name, "footnote_definition") {
        MdValue::FootnoteDefinition(or_empty(string_payload(v)))
    } else if names(&name, "table") {
        let (aligns, num_columns, num_rows) = match table_facts(v) {
            Some(t) => t,
            None => (Vec::new(), 0, 0),
        };
        let mut alignments: Vec<Align> = Vec::new();
        let mut i: usize = 0;
        while i < aligns.len()
            decreases aligns.len() - i,
        {
            alignments.push(alignment(&aligns[i]));
            i = i + 1;
        }
        MdValue::Table { alignments, num_columns, num_rows }
    } else if names(&name, "table_row") {
        MdValue::TableRow(
            match table_row(v) {
                Some(h) => h,
                None => false,
            },
        )
    } else if names(&name, "table_cell") {
        MdValue::TableCell
    } else if names(&name, "text") {
        MdValue::Text(or_empty(string_payload(v)))
    } else if names(&name, "taskitem") {
        MdValue::TaskItem(
            match task_item(v) {
                Some(s) => s,
                None => None,
            },
        )
    } else if names(&name, "softbreak") {
        MdValue::SoftBreak
    } else if names(&name, "linebreak") {
        MdValue::LineBreak
    } else if names(&name, "code") {
        MdValue::Code(or_empty(string_payload(v)))
    } else if names(&name, "html_inline") {
        MdValue::HtmlInline(or_empty(string_payload(v)))
    } else if names(&name, "heex_inline") {
        MdValue::HeexInline(String::new())
    } else if names(&name, "raw") {
        MdValue::Raw(or_empty(string_payload(v)))
    } else if names(&name, "emph") {
        MdValue::Emph
    } else if names(&name, "strong") {
        MdValue::Strong
    } else if names(&name, "strikethrough") {
        MdValue::Strikethrough
    } else if names(&name, "highlight") {
        MdValue::Highlight
    } else if names(&name, "insert") {
        MdValue::Insert
    } else if names(&name, "superscript") {
        MdValue::Superscript
    } else if names(&name, "link") || names(&name, "image") {
        let (url, title) = match string_pair(v) {
            Some(p) => p,
            None => (String::new(), String::new()),
        };
        if names(&name, "link") {
            MdValue::Link { url, title }
        } else {
            MdValue::Image { url, title }
        }
    } else if names(&name, "footnote_reference") {
        let (name, ref_num, ix) = match footnote_reference(v) {
            Some(f) => f,
            None => (String::new(), 0, 0),
        };
        MdValue::FootnoteReference { name, ref_num, ix }
    } else if names(&name, "shortcode") {
        let (code, emoji) = match string_pair(v) {
            Some(p) => p,
            None => (String::new(), String::new()),
        };
        MdValue::ShortCode { code, emoji }
    } else if names(&name, "math") {
        MdValue::Math(or_empty(string_payload(v)))
    } else if names(&name, "multiline_block_quote") {
        MdValue::MultilineBlockQuote
    } else if names(&name, "escaped") {
        MdValue::Escaped
    } else if names(&name, "wikilink") {
        MdValue::WikiLink(or_empty(string_payload(v)))
    } else if names(&name, "underline") {
        MdValue::Underline
    } else if names(&name, "subscript") {
        MdValue::Subscript
    } else if names(&name, "spoiler") {
        MdValue::SpoileredText
    } else if names(&name, "escaped_tag") {
        MdValue::EscapedTag(or_empty(string_payload(v)))
    } else if names(&name, "alert") {
        let (alert_type, alert_title) = match alert_facts(v) {
            Some(a) => a,
            None => (AlertKind::Note, None),
        };
        MdValue::Alert { alert_type, alert_title }
    } else if names(&name, "subtext") {
        MdValue::Subtext
    } else {
        return None;
    };
    Some(r)
}

/// Parses `text` with comrak under the configuration `c`, and lists the
/// document's nodes in tree order, each with its depth (the root at 1) and
/// its value read as a plain `MdValue` (`None` for a kind of node that this
/// configuration does not produce). The listing is `comrak_outline` of the
/// text and the configuration, has the shape of one tree's outline, and
/// starts with the document.
pub fn parse_markdown(text: &str, c: &Config) -> (r: Vec<(usize, Option<MdValue>)>)
    ensures
        r@ == comrak_outline(text@, c@),
        r.len() >= 1,
        r[0].0 == 1,
        forall|k: int| 1 <= k < r.len() ==> 2 <= #[trigger] r[k].0 <= r[k - 1].0 + 1,
        r[0].1 matches Some(MdValue::Document),
        !c@.extension.multiline_block_quotes ==> forall|k: int|
            0 <= k < r.len() ==> !(#[trigger] r[k].1 matches Some(MdValue::MultilineBlockQuote)),
{
    parse_outline(text, c)
}

} // verus!
