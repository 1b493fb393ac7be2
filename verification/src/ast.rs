//! The body AST: a tree of typed nodes, each with a flat list of attributes.
//!
//! A node is what the JSON AST of a flatmarkdown body holds as one object:
//! its `type`, its attributes, and its `children` (absent exactly when empty).
use vstd::prelude::*;

verus! {

/// The `type` of an AST node.
#[derive(Clone, Copy, PartialEq, Eq, Structural, Debug)]
pub enum Kind {
    Document,
    FrontMatter,
    BlockQuote,
    List,
    Item,
    DescriptionList,
    DescriptionItem,
    DescriptionTerm,
    DescriptionDetails,
    CodeBlock,
    HtmlBlock,
    HeexBlock,
    Paragraph,
    Heading,
    ThematicBreak,
    FootnoteDefinition,
    Table,
    TableRow,
    TableCell,
    Text,
    TaskItem,
    Linebreak,
    Code,
    HtmlInline,
    HeexInline,
    Raw,
    Emph,
    Strong,
    Strikethrough,
    Highlight,
    Superscript,
    Link,
    Embed,
    FootnoteReference,
    Shortcode,
    Math,
    Escaped,
    Wikilink,
    Underline,
    Subscript,
    SpoileredText,
    EscapedTag,
    Alert,
    Subtext,
    Insert,
    Hashtag,
}

/// The name of an attribute of an AST node.
#[derive(Clone, Copy, PartialEq, Eq, Structural, Debug)]
pub enum Key {
    Value,
    Level,
    Info,
    Literal,
    ListType,
    Start,
    Tight,
    Delimiter,
    BlockType,
    Name,
    Alignments,
    NumColumns,
    NumRows,
    Header,
    Symbol,
    Url,
    Title,
    Props,
    RefNum,
    Ix,
    Code,
    Emoji,
    AlertType,
}

/// The value of an attribute: a JSON value of one of the shapes the AST uses.
#[derive(Debug)]
pub enum AttrValue {
    Null,
    Bool(bool),
    Num(u64),
    Str(String),
    /// An array of strings.
    List(Vec<String>),
    /// An object whose values are strings, or `true` (written `None` here).
    Props(Vec<(String, Option<String>)>),
}

/// A node of the AST.
#[derive(Debug)]
pub struct Node {
    pub kind: Kind,
    pub attrs: Vec<(Key, AttrValue)>,
    pub children: Vec<Node>,
}

/// The mathematical value of an attribute.
pub enum AttrView {
    Null,
    Bool(bool),
    Num(u64),
    Str(Seq<char>),
    List(Seq<Seq<char>>),
    Props(Seq<(Seq<char>, Option<Seq<char>>)>),
}

/// The mathematical value of a node.
pub struct NodeView {
    pub kind: Kind,
    pub attrs: Seq<(Key, AttrView)>,
    pub children: Seq<NodeView>,
}

pub open spec fn opt_str_view(o: Option<String>) -> Option<Seq<char>> {
    match o {
        Some(s) => Some(s@),
        None => None,
    }
}

impl View for AttrValue {
    type V = AttrView;

    open spec fn view(&self) -> AttrView {
        match self {
            AttrValue::Null => AttrView::Null,
            AttrValue::Bool(b) => AttrView::Bool(*b),
            AttrValue::Num(n) => AttrView::Num(*n),
            AttrValue::Str(s) => AttrView::Str(s@),
            AttrValue::List(v) => AttrView::List(v@.map_values(|s: String| s@)),
            AttrValue::Props(v) => AttrView::Props(
                v@.map_values(|p: (String, Option<String>)| (p.0@, opt_str_view(p.1))),
            ),
        }
    }
}

pub open spec fn attrs_view(attrs: Seq<(Key, AttrValue)>) -> Seq<(Key, AttrView)> {
    attrs.map_values(|p: (Key, AttrValue)| (p.0, p.1@))
}

pub open spec fn node_view(n: Node) -> NodeView
    decreases n,
{
    NodeView { kind: n.kind, attrs: attrs_view(n.attrs@), children: nodes_view(n.children@) }
}

pub open spec fn nodes_view(s: Seq<Node>) -> Seq<NodeView>
    decreases s,
{
    if s.len() == 0 {
        Seq::empty()
    } else {
        nodes_view(s.drop_last()).push(node_view(s.last()))
    }
}

impl View for Node {
    type V = NodeView;

    open spec fn view(&self) -> NodeView {
        node_view(*self)
    }
}

/// The view of a sequence of nodes is taken node by node.
pub proof fn lemma_nodes_view(s: Seq<Node>)
    ensures
        nodes_view(s).len() == s.len(),
        forall|i: int| 0 <= i < s.len() ==> #[trigger] nodes_view(s)[i] == node_view(s[i]),
    decreases s.len(),
{
    if s.len() > 0 {
        lemma_nodes_view(s.drop_last());
    }
}

/// Appending a node appends its view.
pub proof fn lemma_nodes_view_push(s: Seq<Node>, n: Node)
    ensures
        nodes_view(s.push(n)) == nodes_view(s).push(node_view(n)),
{
    assert(s.push(n).drop_last() =~= s);
}

/// The value of the first attribute named `k`, if there is one.
pub open spec fn find_attr(attrs: Seq<(Key, AttrView)>, k: Key) -> Option<AttrView>
    decreases attrs.len(),
{
    if attrs.len() == 0 {
        None
    } else if attrs[0].0 == k {
        Some(attrs[0].1)
    } else {
        find_attr(attrs.drop_first(), k)
    }
}

/// The attribute `k` of `n`, where it is a string.
pub open spec fn str_attr(n: NodeView, k: Key) -> Option<Seq<char>> {
    match find_attr(n.attrs, k) {
        Some(AttrView::Str(s)) => Some(s),
        _ => None,
    }
}

/// The attribute `k` of `n`, where it is a number.
pub open spec fn num_attr(n: NodeView, k: Key) -> Option<u64> {
    match find_attr(n.attrs, k) {
        Some(AttrView::Num(v)) => Some(v),
        _ => None,
    }
}

/// The attribute `k` of `n`, where it is a boolean.
pub open spec fn bool_attr(n: NodeView, k: Key) -> Option<bool> {
    match find_attr(n.attrs, k) {
        Some(AttrView::Bool(b)) => Some(b),
        _ => None,
    }
}

pub open spec fn str_or(o: Option<Seq<char>>, d: Seq<char>) -> Seq<char> {
    match o {
        Some(s) => s,
        None => d,
    }
}

proof fn lemma_find_attr_at(attrs: Seq<(Key, AttrView)>, k: Key, i: int)
    requires
        0 <= i < attrs.len(),
        attrs[i].0 == k,
        forall|j: int| 0 <= j < i ==> attrs[j].0 != k,
    ensures
        find_attr(attrs, k) == Some(attrs[i].1),
    decreases i,
{
    if i > 0 {
        lemma_find_attr_at(attrs.drop_first(), k, i - 1);
    }
}

proof fn lemma_find_attr_none(attrs: Seq<(Key, AttrView)>, k: Key)
    requires
        forall|j: int| 0 <= j < attrs.len() ==> attrs[j].0 != k,
    ensures
        find_attr(attrs, k) is None,
    decreases attrs.len(),
{
    if attrs.len() > 0 {
        lemma_find_attr_none(attrs.drop_first(), k);
    }
}

/// Looks up the first attribute named `k`.
pub fn get_attr<'a>(n: &'a Node, k: Key) -> (r: Option<&'a AttrValue>)
    ensures
        match r {
            Some(a) => find_attr(n@.attrs, k) == Some(a@),
            None => find_attr(n@.attrs, k) is None,
        },
{
    let mut i: usize = 0;
    while i < n.attrs.len()
        invariant
            i <= n.attrs.len(),
            forall|j: int| 0 <= j < i ==> n.attrs@[j].0 != k,
        decreases n.attrs.len() - i,
    {
        if n.attrs[i].0 == k {
            proof {
                lemma_find_attr_at(attrs_view(n.attrs@), k, i as int);
            }
            return Some(&n.attrs[i].1);
        }
        i = i + 1;
    }
    proof {
        lemma_find_attr_none(attrs_view(n.attrs@), k);
    }
    None
}

/// The string attribute `k` of `n`.
pub fn get_str<'a>(n: &'a Node, k: Key) -> (r: Option<&'a String>)
    ensures
        match r {
            Some(s) => str_attr(n@, k) == Some(s@),
            None => str_attr(n@, k) is None,
        },
{
    match get_attr(n, k) {
        Some(AttrValue::Str(s)) => Some(s),
        _ => None,
    }
}

/// The numeric attribute `k` of `n`.
pub fn get_num(n: &Node, k: Key) -> (r: Option<u64>)
    ensures
        r == num_attr(n@, k),
{
    match get_attr(n, k) {
        Some(AttrValue::Num(v)) => Some(*v),
        _ => None,
    }
}

/// The boolean attribute `k` of `n`.
pub fn get_bool(n: &Node, k: Key) -> (r: Option<bool>)
    ensures
        r == bool_attr(n@, k),
{
    match get_attr(n, k) {
        Some(AttrValue::Bool(b)) => Some(*b),
        _ => None,
    }
}

/// The JSON name of a node type (its `type`).
pub open spec fn kind_name(k: Kind) -> Seq<char> {
    match k {
        Kind::Document => "document"@,
        Kind::FrontMatter => "front_matter"@,
        Kind::BlockQuote => "block_quote"@,
        Kind::List => "list"@,
        Kind::Item => "item"@,
        Kind::DescriptionList => "description_list"@,
        Kind::DescriptionItem => "description_item"@,
        Kind::DescriptionTerm => "description_term"@,
        Kind::DescriptionDetails => "description_details"@,
        Kind::CodeBlock => "code_block"@,
        Kind::HtmlBlock => "html_block"@,
        Kind::HeexBlock => "heex_block"@,
        Kind::Paragraph => "paragraph"@,
        Kind::Heading => "heading"@,
        Kind::ThematicBreak => "thematic_break"@,
        Kind::FootnoteDefinition => "footnote_definition"@,
        Kind::Table => "table"@,
        Kind::TableRow => "table_row"@,
        Kind::TableCell => "table_cell"@,
        Kind::Text => "text"@,
        Kind::TaskItem => "task_item"@,
        Kind::Linebreak => "linebreak"@,
        Kind::Code => "code"@,
        Kind::HtmlInline => "html_inline"@,
        Kind::HeexInline => "heex_inline"@,
        Kind::Raw => "raw"@,
        Kind::Emph => "emph"@,
        Kind::Strong => "strong"@,
        Kind::Strikethrough => "strikethrough"@,
        Kind::Highlight => "highlight"@,
        Kind::Superscript => "superscript"@,
        Kind::Link => "link"@,
        Kind::Embed => "embed"@,
        Kind::FootnoteReference => "footnote_reference"@,
        Kind::Shortcode => "shortcode"@,
        Kind::Math => "math"@,
        Kind::Escaped => "escaped"@,
        Kind::Wikilink => "wikilink"@,
        Kind::Underline => "underline"@,
        Kind::Subscript => "subscript"@,
        Kind::SpoileredText => "spoilered_text"@,
        Kind::EscapedTag => "escaped_tag"@,
        Kind::Alert => "alert"@,
        Kind::Subtext => "subtext"@,
        Kind::Insert => "insert"@,
        Kind::Hashtag => "hashtag"@,
    }
}

/// The JSON name of a node type (its `type`).
pub fn kind_str(k: Kind) -> (r: &'static str)
    ensures
        r@ == kind_name(k),
{
    match k {
        Kind::Document => "document",
        Kind::FrontMatter => "front_matter",
        Kind::BlockQuote => "block_quote",
        Kind::List => "list",
        Kind::Item => "item",
        Kind::DescriptionList => "description_list",
        Kind::DescriptionItem => "description_item",
        Kind::DescriptionTerm => "description_term",
        Kind::DescriptionDetails => "description_details",
        Kind::CodeBlock => "code_block",
        Kind::HtmlBlock => "html_block",
        Kind::HeexBlock => "heex_block",
        Kind::Paragraph => "paragraph",
        Kind::Heading => "heading",
        Kind::ThematicBreak => "thematic_break",
        Kind::FootnoteDefinition => "footnote_definition",
        Kind::Table => "table",
        Kind::TableRow => "table_row",
        Kind::TableCell => "table_cell",
        Kind::Text => "text",
        Kind::TaskItem => "task_item",
        Kind::Linebreak => "linebreak",
        Kind::Code => "code",
        Kind::HtmlInline => "html_inline",
        Kind::HeexInline => "heex_inline",
        Kind::Raw => "raw",
        Kind::Emph => "emph",
        Kind::Strong => "strong",
        Kind::Strikethrough => "strikethrough",
        Kind::Highlight => "highlight",
        Kind::Superscript => "superscript",
        Kind::Link => "link",
        Kind::Embed => "embed",
        Kind::FootnoteReference => "footnote_reference",
        Kind::Shortcode => "shortcode",
        Kind::Math => "math",
        Kind::Escaped => "escaped",
        Kind::Wikilink => "wikilink",
        Kind::Underline => "underline",
        Kind::Subscript => "subscript",
        Kind::SpoileredText => "spoilered_text",
        Kind::EscapedTag => "escaped_tag",
        Kind::Alert => "alert",
        Kind::Subtext => "subtext",
        Kind::Insert => "insert",
        Kind::Hashtag => "hashtag",
    }
}

/// The JSON name of an attribute.
pub open spec fn key_name(k: Key) -> Seq<char> {
    match k {
        Key::Value => "value"@,
        Key::Level => "level"@,
        Key::Info => "info"@,
        Key::Literal => "literal"@,
        Key::ListType => "list_type"@,
        Key::Start => "start"@,
        Key::Tight => "tight"@,
        Key::Delimiter => "delimiter"@,
        Key::BlockType => "block_type"@,
        Key::Name => "name"@,
        Key::Alignments => "alignments"@,
        Key::NumColumns => "num_columns"@,
        Key::NumRows => "num_rows"@,
        Key::Header => "header"@,
        Key::Symbol => "symbol"@,
        Key::Url => "url"@,
        Key::Title => "title"@,
        Key::Props => "props"@,
        Key::RefNum => "ref_num"@,
        Key::Ix => "ix"@,
        Key::Code => "code"@,
        Key::Emoji => "emoji"@,
        Key::AlertType => "alert_type"@,
    }
}

/// The JSON name of an attribute.
pub fn key_str(k: Key) -> (r: &'static str)
    ensures
        r@ == key_name(k),
{
    match k {
        Key::Value => "value",
        Key::Level => "level",
        Key::Info => "info",
        Key::Literal => "literal",
        Key::ListType => "list_type",
        Key::Start => "start",
        Key::Tight => "tight",
        Key::Delimiter => "delimiter",
        Key::BlockType => "block_type",
        Key::Name => "name",
        Key::Alignments => "alignments",
        Key::NumColumns => "num_columns",
        Key::NumRows => "num_rows",
        Key::Header => "header",
        Key::Symbol => "symbol",
        Key::Url => "url",
        Key::Title => "title",
        Key::Props => "props",
        Key::RefNum => "ref_num",
        Key::Ix => "ix",
        Key::Code => "code",
        Key::Emoji => "emoji",
        Key::AlertType => "alert_type",
    }
}

/// A member of the JSON object that an AST node is written as: its `type`,
/// its attribute at an index, or its `children`.
#[derive(Clone, Copy, PartialEq, Eq, Structural, Debug)]
pub enum Member {
    Type,
    Attr(usize),
    Children,
}

/// The members of a node's JSON object, in order: its `type`, then each of
/// its attributes, then `children`, present exactly when the node has
/// children.
pub open spec fn json_layout(n: NodeView) -> Seq<Member> {
    seq![Member::Type] + Seq::new(n.attrs.len(), |i: int| Member::Attr(i as usize)) + if n.children.len()
        > 0 {
        seq![Member::Children]
    } else {
        Seq::empty()
    }
}

/// The members of the JSON object of `n`.
pub fn json_members(n: &Node) -> (r: Vec<Member>)
    ensures
        r@ == json_layout(n@),
{
    let mut r: Vec<Member> = Vec::new();
    r.push(Member::Type);
    let mut i: usize = 0;
    while i < n.attrs.len()
        invariant
            i <= n.attrs.len(),
            r@ == seq![Member::Type] + Seq::new(i as nat, |j: int| Member::Attr(j as usize)),
        decreases n.attrs.len() - i,
    {
        r.push(Member::Attr(i));
        i = i + 1;
        assert(r@ =~= seq![Member::Type] + Seq::new(i as nat, |j: int| Member::Attr(j as usize)));
    }
    if n.children.len() > 0 {
        r.push(Member::Children);
    }
    proof {
        lemma_nodes_view(n.children@);
    }
    assert(r@ =~= json_layout(n@));
    r
}

} // verus!
