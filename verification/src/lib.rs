//! Flat Markdown parser: outline format with blank-line-delimited blocks.
//!
//! A body is preprocessed, parsed by comrak, turned into the JSON-shaped AST
//! of `ast`, and (with link resolution) its relative links and `#tag` texts
//! are read as wikilinks and hashtags; the AST renders as HTML.
pub mod ast;
pub mod embed;
pub mod hashtags;
pub mod html;
pub mod links;
pub mod markdown;
pub mod nodes;
pub mod outline;
pub mod preprocess;
pub mod text;

use vstd::prelude::*;

use crate::ast::{AttrView, Key, Kind, Node, NodeView};
use crate::hashtags::{
    lemma_restored_seq, process_hashtags, restore_escaped_hashes, restored, with_hashtags,
};
use crate::html::{html, ast_to_html};
use crate::links::{convert_markdown_links_to_wikilinks, with_wikilinks};
use crate::markdown::{comrak_outline, config, flat_options, options, parse_markdown};
use crate::nodes::{node_type_attrs, serialize_node_value, MdValue};
use crate::outline::{
    entries_view, has_no_kind, is_tree_outline, lemma_outline_avoids, lemma_outline_injective, lines_avoid,
    outline, tree_from_outline, OutlineEntry,
};
use crate::preprocess::{prepare_body, prepared};

verus! {

/// Options for parsing a flatmarkdown item body.
pub struct BodyOptions {
    /// When `true`, `../page.md` links are converted to `wikilink` nodes,
    /// `[#tag](../tag.md)` links to `hashtag` nodes, and `#tag` text patterns
    /// are extracted as `hashtag` nodes. When `false` (the default), none of
    /// these conversions are applied.
    pub resolve_links: bool,
}

impl Default for BodyOptions {
    fn default() -> (r: BodyOptions)
        ensures
            !r.resolve_links,
    {
        BodyOptions { resolve_links: false }
    }
}

/// The outline line of a parsed node: a kind of node that the parser
/// configuration does not produce is taken as a block quote.
pub open spec fn value_entry(p: (usize, Option<MdValue>)) -> (nat, Kind, Seq<(crate::ast::Key, crate::ast::AttrView)>) {
    match p.1 {
        Some(v) => (p.0 as nat, node_type_attrs(v).0, node_type_attrs(v).1),
        None => (p.0 as nat, Kind::BlockQuote, Seq::empty()),
    }
}

pub open spec fn values_outline(vs: Seq<(usize, Option<MdValue>)>) -> Seq<
    (nat, Kind, Seq<(crate::ast::Key, crate::ast::AttrView)>),
> {
    vs.map_values(|p: (usize, Option<MdValue>)| value_entry(p))
}

/// Builds the AST of a parsed document from its nodes listed in tree order
/// with their depths; `None` where the list is not the outline of one tree.
pub fn tree_from_values(vs: &Vec<(usize, Option<MdValue>)>) -> (r: Option<Node>)
    ensures
        r is Some <==> is_tree_outline(values_outline(vs@)),
        r matches Some(t) ==> outline(t@, vs@[0].0 as nat) == values_outline(vs@),
{
    let mut es: Vec<OutlineEntry> = Vec::new();
    let mut i: usize = 0;
    while i < vs.len()
        invariant
            i <= vs.len(),
            es@.len() == i,
            forall|k: int| 0 <= k < i ==> #[trigger] entries_view(es@)[k] == value_entry(vs@[k]),
        decreases vs.len() - i,
    {
        let (kind, attrs) = match &vs[i].1 {
            Some(v) => if let MdValue::MultilineBlockQuote = v {
                (Kind::BlockQuote, Vec::new())
            } else {
                serialize_node_value(v)
            },
            None => (Kind::BlockQuote, Vec::new()),
        };
        proof {
            assert(crate::ast::attrs_view(Seq::empty()) =~= Seq::empty());
        }
        let ghost before = es@;
        es.push(OutlineEntry { depth: vs[i].0, kind, attrs });
        assert forall|k: int| 0 <= k < i + 1 implies #[trigger] entries_view(es@)[k] == value_entry(vs@[k]) by {
            if k < i {
                assert(es@[k] == before[k]);
                assert(entries_view(before)[k] == value_entry(vs@[k]));
            }
        }
        i = i + 1;
    }
    assert(entries_view(es@) =~= values_outline(vs@));
    if es.len() > 0 {
        assert(entries_view(es@)[0] == value_entry(vs@[0]));
    }
    tree_from_outline(&es)
}

/// The AST after parsing: with link resolution, relative `.md` links become
/// wikilinks (or hashtags) and then `#tag` texts become hashtags; in any
/// case escaped `\#` are turned back into `#`.
pub open spec fn finished(t: NodeView, resolve_links: bool) -> NodeView {
    restored(
        if resolve_links {
            with_hashtags(with_wikilinks(t))
        } else {
            t
        },
    )
}

/// Two attribute values alike but for their strings: strings, string lists
/// and property lists on both sides, or the same value.
pub open spec fn alike_attr(x: AttrView, y: AttrView) -> bool {
    match x {
        AttrView::Str(_) => y is Str,
        AttrView::List(_) => y is List,
        AttrView::Props(_) => y is Props,
        _ => x == y,
    }
}

/// Two trees alike but for their strings: the same types, the same
/// attribute names in the same order with alike values, and children alike
/// one for one.
pub open spec fn alike_but_strings(a: NodeView, b: NodeView) -> bool
    decreases a,
{
    &&& a.kind == b.kind
    &&& a.attrs.len() == b.attrs.len()
    &&& forall|i: int|
        0 <= i < a.attrs.len() ==> #[trigger] a.attrs[i].0 == b.attrs[i].0 && alike_attr(
            a.attrs[i].1,
            b.attrs[i].1,
        )
    &&& a.children.len() == b.children.len()
    &&& forall|i: int|
        0 <= i < a.children.len() ==> alike_but_strings(#[trigger] a.children[i], b.children[i])
}

/// Without link resolution the parsed tree keeps its shape: links stay
/// links, texts stay texts, and no node is added or removed; only escaped
/// `#` come back in strings.
pub proof fn lemma_unresolved_keeps_shape(t: NodeView)
    ensures
        alike_but_strings(finished(t, false), t),
    decreases t,
{
    lemma_restored_seq(t.children);
    assert forall|i: int| 0 <= i < t.children.len() implies alike_but_strings(
        #[trigger] restored(t).children[i],
        t.children[i],
    ) by {
        lemma_unresolved_keeps_shape(t.children[i]);
    }
}

/// A tree alike but for its strings to one with no node of type `k` has
/// none either.
pub proof fn lemma_alike_has_no_kind(a: NodeView, b: NodeView, k: Kind)
    requires
        alike_but_strings(a, b),
        has_no_kind(b, k),
    ensures
        has_no_kind(a, k),
    decreases a,
{
    assert forall|i: int| 0 <= i < a.children.len() implies has_no_kind(#[trigger] a.children[i], k) by {
        lemma_alike_has_no_kind(a.children[i], b.children[i], k);
    }
}

/// Without link resolution no hashtag node appears: a `#tag` in the text
/// stays text, since comrak's nodes never become hashtags.
pub proof fn lemma_unresolved_has_no_hashtags(t: NodeView, input: Seq<char>)
    requires
        is_parse_of(t, input),
    ensures
        has_no_kind(finished(t, false), Kind::Hashtag),
{
    let es = parsed_outline(prepared(input));
    let vs = comrak_outline(prepared(input), flat_options());
    assert forall|j: int| 0 <= j < es.len() implies (#[trigger] es[j]).1 != Kind::Hashtag by {
        assert(es[j] == value_entry(vs[j]));
    }
    assert(lines_avoid(outline(t, 1), Kind::Hashtag));
    lemma_outline_avoids(t, 1, Kind::Hashtag);
    lemma_unresolved_keeps_shape(t);
    lemma_alike_has_no_kind(finished(t, false), t, Kind::Hashtag);
}

/// Applies what follows parsing to a parsed AST.
pub fn finish_ast(tree: &Node, opts: &BodyOptions) -> (r: Node)
    ensures
        r@ == finished(tree@, opts.resolve_links),
{
    if opts.resolve_links {
        let linked = convert_markdown_links_to_wikilinks(tree);
        let tagged = process_hashtags(&linked);
        restore_escaped_hashes(&tagged)
    } else {
        restore_escaped_hashes(tree)
    }
}

/// The outline of the tree that comrak parses from `text` under
/// flatmarkdown's configuration.
pub open spec fn parsed_outline(text: Seq<char>) -> Seq<(nat, Kind, Seq<(Key, crate::ast::AttrView)>)> {
    values_outline(comrak_outline(text, flat_options()))
}

/// `t` is the tree that comrak parses from the body `input` once the body is
/// prepared (whitespace-only lines made `<br />`, `\#` hidden): its outline
/// is comrak's listing of that text.
pub open spec fn is_parse_of(t: NodeView, input: Seq<char>) -> bool {
    outline(t, 1) == parsed_outline(prepared(input))
}

/// A body has one parse: two trees that are both the parse of the same body
/// are the same tree.
pub proof fn lemma_parse_is_unique(a: NodeView, b: NodeView, input: Seq<char>)
    requires
        is_parse_of(a, input),
        is_parse_of(b, input),
    ensures
        a == b,
{
    lemma_outline_injective(a, b, 1);
}

/// The tree that comrak parses from the body `input`.
pub open spec fn parse_tree(input: Seq<char>) -> NodeView {
    choose|t: NodeView| is_parse_of(t, input)
}

/// Parses a flatmarkdown item body into its AST using the given options.
pub fn body_to_ast_with(input: &str, opts: &BodyOptions) -> (r: Node)
    ensures
        is_parse_of(parse_tree(input@), input@),
        r@ == finished(parse_tree(input@), opts.resolve_links),
        r.kind == Kind::Document,
{
    let text = prepare_body(input);
    let c = config(options());
    let parsed = parse_markdown(text.as_str(), &c);
    let tree = match tree_from_values(&parsed) {
        Some(t) => t,
        None => {
            proof {
                let es = values_outline(parsed@);
                assert forall|k: int| 1 <= k < es.len() implies #[trigger] es[k].0 <= es[k - 1].0
                    + 1 by {
                    assert(es[k].0 == parsed@[k].0);
                    assert(es[k - 1].0 == parsed@[k - 1].0);
                }
                assert forall|k: int| 1 <= k < es.len() implies #[trigger] es[k].0 > es[0].0 by {
                    assert(es[k].0 == parsed@[k].0);
                }
                assert(is_tree_outline(es));
            }
            Node { kind: Kind::Document, attrs: Vec::new(), children: Vec::new() }
        },
    };
    let r = finish_ast(&tree, opts);
    proof {
        assert(is_parse_of(tree@, input@));
        lemma_parse_is_unique(parse_tree(input@), tree@, input@);
        assert(values_outline(parsed@)[0] == value_entry(parsed@[0]));
        assert(outline(tree@, 1)[0] == (1nat, tree@.kind, tree@.attrs));
        assert(tree@.kind == Kind::Document);
    }
    r
}

/// Parses a flatmarkdown item body into its AST, without link resolution.
pub fn body_to_ast(input: &str) -> (r: Node)
    ensures
        is_parse_of(parse_tree(input@), input@),
        r@ == finished(parse_tree(input@), false),
        r.kind == Kind::Document,
{
    body_to_ast_with(input, &BodyOptions::default())
}

/// Renders a flatmarkdown item body as an HTML string using the given options.
pub fn body_to_html_with(input: &str, opts: &BodyOptions) -> (r: String)
    ensures
        is_parse_of(parse_tree(input@), input@),
        r@ == html(finished(parse_tree(input@), opts.resolve_links)),
{
    let ast = body_to_ast_with(input, opts);
    ast_to_html(&ast)
}

/// Renders a flatmarkdown item body as an HTML string, without link resolution.
pub fn body_to_html(input: &str) -> (r: String)
    ensures
        is_parse_of(parse_tree(input@), input@),
        r@ == html(finished(parse_tree(input@), false)),
{
    body_to_html_with(input, &BodyOptions::default())
}

} // verus!
