//! Relative Markdown links (`../page.md`, `./page.md`, optionally with `#id`)
//! read as wikilinks, and `[#tag](../tag.md)` read as hashtags.
use vstd::prelude::*;

use crate::ast::{
    attrs_view, get_str, lemma_nodes_view, lemma_nodes_view_push, node_view, nodes_view, str_attr,
    AttrValue, AttrView, Key, Kind, Node, NodeView,
};
use crate::hashtags::clone_node;
use crate::outline::{clone_attr, has_no_kind};
use crate::text::{chars_of, find_char, index_of, lemma_find_char_found, string_of, sub_chars};

verus! {

/// `url` without a leading `../` or, failing that, `./`.
pub open spec fn strip_relative_prefix(url: Seq<char>) -> Option<Seq<char>> {
    if url.len() >= 3 && url.subrange(0, 3) == seq!['.', '.', '/'] {
        Some(url.subrange(3, url.len() as int))
    } else if url.len() >= 2 && url.subrange(0, 2) == seq!['.', '/'] {
        Some(url.subrange(2, url.len() as int))
    } else {
        None
    }
}

/// The wikilink URL of a relative Markdown link: the page path without its
/// prefix and `.md` suffix, followed by the `#id` fragment if there is one.
pub open spec fn wikilink_url_of(url: Seq<char>) -> Option<Seq<char>> {
    match strip_relative_prefix(url) {
        None => None,
        Some(rest) => {
            let (path, fragment) = match find_char(rest, '#') {
                Some(p) => (rest.subrange(0, p as int), rest.subrange(p as int, rest.len() as int)),
                None => (rest, Seq::empty()),
            };
            if path.len() >= 3 && path.subrange(path.len() - 3, path.len() as int) == seq![
                '.',
                'm',
                'd',
            ] {
                Some(path.subrange(0, path.len() - 3) + fragment)
            } else {
                None
            }
        },
    }
}

/// Converts a Markdown relative link URL (`../page_path.md`, `./page_path.md`,
/// or with `#id`) to a wikilink URL (`page_path` or `page_path#id`); `None`
/// if the URL is not of that form.
pub fn markdown_link_to_wikilink_url(url: &str) -> (r: Option<String>)
    ensures
        match r {
            Some(w) => wikilink_url_of(url@) == Some(w@),
            None => wikilink_url_of(url@) is None,
        },
{
    let v = chars_of(url);
    let len = v.len();
    let start: usize = if len >= 3 && v[0] == '.' && v[1] == '.' && v[2] == '/' {
        assert(v@.subrange(0, 3) =~= seq!['.', '.', '/']);
        3
    } else if len >= 2 && v[0] == '.' && v[1] == '/' {
        assert(v@.subrange(0, 2) =~= seq!['.', '/']);
        assert(!(v@.len() >= 3 && v@.subrange(0, 3) == seq!['.', '.', '/'])) by {
            if v@.len() >= 3 && v@.subrange(0, 3) == seq!['.', '.', '/'] {
                assert(v@.subrange(0, 3)[1] == v@[1]);
            }
        }
        2
    } else {
        assert(strip_relative_prefix(v@) is None) by {
            if v@.len() >= 3 && v@.subrange(0, 3) == seq!['.', '.', '/'] {
                assert(v@.subrange(0, 3)[0] == v@[0]);
                assert(v@.subrange(0, 3)[1] == v@[1]);
                assert(v@.subrange(0, 3)[2] == v@[2]);
            }
            if v@.len() >= 2 && v@.subrange(0, 2) == seq!['.', '/'] {
                assert(v@.subrange(0, 2)[0] == v@[0]);
                assert(v@.subrange(0, 2)[1] == v@[1]);
            }
        }
        return None;
    };
    let ghost rest = v@.subrange(start as int, len as int);
    assert(strip_relative_prefix(v@) == Some(rest));
    let path_end = match index_of(&v, start, len, '#') {
        Some(p) => p,
        None => len,
    };
    assert(rest.subrange(0, path_end - start) =~= v@.subrange(start as int, path_end as int));
    assert(rest.subrange(path_end - start, rest.len() as int) =~= v@.subrange(
        path_end as int,
        len as int,
    ));
    let ghost path = v@.subrange(start as int, path_end as int);
    if path_end - start >= 3 && v[path_end - 3] == '.' && v[path_end - 2] == 'm' && v[path_end - 1]
        == 'd' {
        assert(path.subrange(path.len() - 3, path.len() as int) =~= seq!['.', 'm', 'd']);
        let mut w = sub_chars(&v, start, path_end - 3);
        let mut fragment = sub_chars(&v, path_end, len);
        w.append(&mut fragment);
        assert(w@ =~= path.subrange(0, path.len() - 3) + v@.subrange(path_end as int, len as int));
        Some(string_of(&w))
    } else {
        assert(!(path.len() >= 3 && path.subrange(path.len() - 3, path.len() as int) == seq![
            '.',
            'm',
            'd',
        ])) by {
            if path.len() >= 3 && path.subrange(path.len() - 3, path.len() as int) == seq![
                '.',
                'm',
                'd',
            ] {
                assert(path.subrange(path.len() - 3, path.len() as int)[0] == v@[path_end - 3]);
                assert(path.subrange(path.len() - 3, path.len() as int)[1] == v@[path_end - 2]);
                assert(path.subrange(path.len() - 3, path.len() as int)[2] == v@[path_end - 1]);
            }
        }
        None
    }
}

/// The link to page `page` (a path without `#`), written `../page.md`, is the
/// wikilink `page`; written `../page.md#id`, the wikilink `page#id`; and the
/// same for `./` in place of `../`.
pub proof fn lemma_wikilink_url_of_page(page: Seq<char>, id: Seq<char>, dots: bool, with_id: bool)
    requires
        find_char(page, '#') is None,
    ensures
        ({
            let prefix = if dots {
                seq!['.', '.', '/']
            } else {
                seq!['.', '/']
            };
            let suffix = if with_id {
                seq!['#'] + id
            } else {
                Seq::empty()
            };
            wikilink_url_of(prefix + page + seq!['.', 'm', 'd'] + suffix) == Some(page + suffix)
        }),
{
    let prefix = if dots {
        seq!['.', '.', '/']
    } else {
        seq!['.', '/']
    };
    let suffix = if with_id {
        seq!['#'] + id
    } else {
        Seq::empty()
    };
    let url = prefix + page + seq!['.', 'm', 'd'] + suffix;
    let rest = page + seq!['.', 'm', 'd'] + suffix;
    if dots {
        assert(url.subrange(0, 3) =~= seq!['.', '.', '/']);
        assert(url.subrange(3, url.len() as int) =~= rest);
    } else {
        assert(url.subrange(0, 3)[1] == '/');
        assert(url.subrange(0, 2) =~= seq!['.', '/']);
        assert(url.subrange(2, url.len() as int) =~= rest);
    }
    assert(strip_relative_prefix(url) == Some(rest));
    lemma_find_char_found(page, '#');
    let p: int = page.len() + 3int;
    assert forall|j: int| 0 <= j < p implies rest[j] != '#' by {
        if j < page.len() {
            assert(rest[j] == page[j]);
        }
    }
    if with_id {
        assert(rest[p] == '#');
        crate::text::lemma_find_char(rest, '#', p);
        assert(rest.subrange(0, p) =~= page + seq!['.', 'm', 'd']);
        assert(rest.subrange(p, rest.len() as int) =~= suffix);
    } else {
        assert(rest =~= page + seq!['.', 'm', 'd']);
        crate::text::lemma_find_char(rest, '#', p);
    }
    let path = page + seq!['.', 'm', 'd'];
    assert(path.subrange(path.len() - 3, path.len() as int) =~= seq!['.', 'm', 'd']);
    assert(path.subrange(0, path.len() - 3) =~= page);
}

/// Whether a link node is a serialised tag: its only child is a text node
/// whose value is `#` followed by `wikilink_url`.
pub open spec fn is_tag_link(n: NodeView, wikilink_url: Seq<char>) -> bool {
    &&& n.children.len() == 1
    &&& n.children[0].kind == Kind::Text
    &&& str_attr(n.children[0], Key::Value) == Some(seq!['#'] + wikilink_url)
}

/// `attrs` without the attributes named `k`.
pub open spec fn without_key(attrs: Seq<(Key, AttrView)>, k: Key) -> Seq<(Key, AttrView)>
    decreases attrs.len(),
{
    if attrs.len() == 0 {
        Seq::empty()
    } else if attrs.last().0 == k {
        without_key(attrs.drop_last(), k)
    } else {
        without_key(attrs.drop_last(), k).push(attrs.last())
    }
}

/// `attrs` with the attribute `k` set to `v`.
pub open spec fn with_key(attrs: Seq<(Key, AttrView)>, k: Key, v: AttrView) -> Seq<(Key, AttrView)> {
    without_key(attrs, k).push((k, v))
}

/// A tree in which each link to a relative `.md` page becomes a wikilink, or
/// a hashtag where it is a serialised tag.
pub open spec fn with_wikilinks(n: NodeView) -> NodeView
    decreases n,
{
    let target = if n.kind == Kind::Link {
        match str_attr(n, Key::Url) {
            Some(u) => wikilink_url_of(u),
            None => None,
        }
    } else {
        None
    };
    match target {
        Some(w) => if is_tag_link(n, w) {
            NodeView {
                kind: Kind::Hashtag,
                attrs: without_key(
                    without_key(with_key(n.attrs, Key::Value, AttrView::Str(w)), Key::Url),
                    Key::Title,
                ),
                children: Seq::empty(),
            }
        } else {
            NodeView {
                kind: Kind::Wikilink,
                attrs: without_key(with_key(n.attrs, Key::Url, AttrView::Str(w)), Key::Title),
                children: n.children,
            }
        },
        None => NodeView {
            kind: n.kind,
            attrs: n.attrs,
            children: with_wikilinks_seq(n.children),
        },
    }
}

pub open spec fn with_wikilinks_seq(cs: Seq<NodeView>) -> Seq<NodeView>
    decreases cs,
{
    if cs.len() == 0 {
        Seq::empty()
    } else {
        with_wikilinks_seq(cs.drop_last()).push(with_wikilinks(cs.last()))
    }
}

fn attrs_without(attrs: &Vec<(Key, AttrValue)>, k: Key) -> (r: Vec<(Key, AttrValue)>)
    ensures
        attrs_view(r@) == without_key(attrs_view(attrs@), k),
{
    let ghost av = attrs_view(attrs@);
    let mut r: Vec<(Key, AttrValue)> = Vec::new();
    let mut i: usize = 0;
    while i < attrs.len()
        invariant
            i <= attrs.len(),
            av == attrs_view(attrs@),
            attrs_view(r@) == without_key(av.subrange(0, i as int), k),
        decreases attrs.len() - i,
    {
        let ghost before = r@;
        if attrs[i].0 != k {
            r.push((attrs[i].0, clone_attr(&attrs[i].1)));
            assert(attrs_view(r@) =~= attrs_view(before).push(av[i as int]));
        }
        assert(av.subrange(0, i + 1).drop_last() =~= av.subrange(0, i as int));
        i = i + 1;
    }
    assert(av.subrange(0, attrs.len() as int) =~= av);
    r
}

fn attrs_with(attrs: &Vec<(Key, AttrValue)>, k: Key, v: AttrValue) -> (r: Vec<(Key, AttrValue)>)
    ensures
        attrs_view(r@) == with_key(attrs_view(attrs@), k, v@),
{
    let mut r = attrs_without(attrs, k);
    let ghost before = r@;
    r.push((k, v));
    assert(attrs_view(r@) =~= attrs_view(before).push((k, v@)));
    r
}

fn clone_children(cs: &Vec<Node>) -> (r: Vec<Node>)
    ensures
        nodes_view(r@) == nodes_view(cs@),
{
    let ghost views = nodes_view(cs@);
    proof {
        lemma_nodes_view(cs@);
    }
    let mut out: Vec<Node> = Vec::new();
    let mut i: usize = 0;
    while i < cs.len()
        invariant
            i <= cs.len(),
            views == nodes_view(cs@),
            views.len() == cs@.len(),
            forall|j: int| 0 <= j < cs@.len() ==> #[trigger] views[j] == node_view(cs@[j]),
            nodes_view(out@) == views.subrange(0, i as int),
        decreases cs.len() - i,
    {
        let c = clone_node(&cs[i]);
        proof {
            lemma_nodes_view_push(out@, c);
        }
        out.push(c);
        assert(views.subrange(0, i + 1) =~= views.subrange(0, i as int).push(views[i as int]));
        i = i + 1;
    }
    assert(views.subrange(0, cs.len() as int) =~= views);
    out
}

fn tag_link_check(n: &Node, w: &String) -> (b: bool)
    ensures
        b == is_tag_link(n@, w@),
{
    proof {
        lemma_nodes_view(n.children@);
    }
    if n.children.len() != 1 || n.children[0].kind != Kind::Text {
        return false;
    }
    match get_str(&n.children[0], Key::Value) {
        Some(s) => {
            let mut expected: Vec<char> = Vec::new();
            expected.push('#');
            let mut wc = chars_of(w.as_str());
            expected.append(&mut wc);
            let e = string_of(&expected);
            assert(e@ =~= seq!['#'] + w@);
            *s == e
        },
        None => false,
    }
}

/// Turns each link to a relative `.md` page into a wikilink, or a hashtag
/// where its only child is the text `#` and the page path; other links, and
/// the links' own children, are kept as they are.
pub fn convert_markdown_links_to_wikilinks(n: &Node) -> (r: Node)
    ensures
        r@ == with_wikilinks(n@),
    decreases n,
{
    if n.kind == Kind::Link {
        if let Some(url) = get_str(n, Key::Url) {
            if let Some(w) = markdown_link_to_wikilink_url(url.as_str()) {
                if tag_link_check(n, &w) {
                    let with_value = attrs_with(&n.attrs, Key::Value, AttrValue::Str(w));
                    let without_url = attrs_without(&with_value, Key::Url);
                    let attrs = attrs_without(&without_url, Key::Title);
                    let r = Node { kind: Kind::Hashtag, attrs, children: Vec::new() };
                    assert(nodes_view(r.children@) =~= Seq::<NodeView>::empty());
                    return r;
                } else {
                    let with_url = attrs_with(&n.attrs, Key::Url, AttrValue::Str(w));
                    let attrs = attrs_without(&with_url, Key::Title);
                    return Node { kind: Kind::Wikilink, attrs, children: clone_children(&n.children) };
                }
            }
        }
    }
    let ghost views = nodes_view(n.children@);
    proof {
        lemma_nodes_view(n.children@);
    }
    let mut out: Vec<Node> = Vec::new();
    let mut i: usize = 0;
    while i < n.children.len()
        invariant
            i <= n.children.len(),
            views == nodes_view(n.children@),
            views.len() == n.children@.len(),
            forall|j: int| 0 <= j < n.children@.len() ==> #[trigger] views[j] == node_view(n.children@[j]),
            nodes_view(out@) == with_wikilinks_seq(views.subrange(0, i as int)),
        decreases n.children.len() - i,
    {
        let c = convert_markdown_links_to_wikilinks(&n.children[i]);
        proof {
            lemma_nodes_view_push(out@, c);
        }
        out.push(c);
        assert(views.subrange(0, i + 1).drop_last() =~= views.subrange(0, i as int));
        i = i + 1;
    }
    assert(views.subrange(0, n.children.len() as int) =~= views);
    Node { kind: n.kind, attrs: crate::outline::clone_attrs(&n.attrs), children: out }
}

/// Whether `n` is a link to a relative `.md` page.
pub open spec fn is_page_link(n: NodeView) -> bool {
    n.kind == Kind::Link && match str_attr(n, Key::Url) {
        Some(u) => wikilink_url_of(u) is Some,
        None => false,
    }
}

/// No node of the tree is a link to a relative `.md` page.
pub open spec fn has_no_page_link(t: NodeView) -> bool
    decreases t,
{
    &&& !is_page_link(t)
    &&& forall|i: int| 0 <= i < t.children.len() ==> has_no_page_link(#[trigger] t.children[i])
}

/// No link of the tree holds another link below it.
pub open spec fn links_unnested(t: NodeView) -> bool
    decreases t,
{
    &&& t.kind == Kind::Link ==> forall|i: int|
        0 <= i < t.children.len() ==> has_no_kind(#[trigger] t.children[i], Kind::Link)
    &&& forall|i: int| 0 <= i < t.children.len() ==> links_unnested(#[trigger] t.children[i])
}

proof fn lemma_no_link_no_page_link(t: NodeView)
    requires
        has_no_kind(t, Kind::Link),
    ensures
        has_no_page_link(t),
    decreases t,
{
    assert forall|i: int| 0 <= i < t.children.len() implies has_no_page_link(#[trigger] t.children[i]) by {
        lemma_no_link_no_page_link(t.children[i]);
    }
}

proof fn lemma_with_wikilinks_seq(cs: Seq<NodeView>)
    ensures
        with_wikilinks_seq(cs).len() == cs.len(),
        forall|i: int| 0 <= i < cs.len() ==> #[trigger] with_wikilinks_seq(cs)[i] == with_wikilinks(cs[i]),
    decreases cs.len(),
{
    if cs.len() > 0 {
        lemma_with_wikilinks_seq(cs.drop_last());
    }
}

/// After link resolution no link to a relative `.md` page is left anywhere
/// in the tree, at any depth and below nodes of every type: each has become
/// a wikilink or a hashtag. This holds of trees in which no link holds
/// another link (as Markdown's links never do).
pub proof fn lemma_no_page_link_left(t: NodeView)
    requires
        links_unnested(t),
    ensures
        has_no_page_link(with_wikilinks(t)),
    decreases t,
{
    let target = if t.kind == Kind::Link {
        match str_attr(t, Key::Url) {
            Some(u) => wikilink_url_of(u),
            None => None,
        }
    } else {
        None
    };
    let r = with_wikilinks(t);
    match target {
        Some(w) => {
            if !is_tag_link(t, w) {
                assert forall|i: int| 0 <= i < r.children.len() implies has_no_page_link(
                    #[trigger] r.children[i],
                ) by {
                    lemma_no_link_no_page_link(t.children[i]);
                }
            }
        },
        None => {
            lemma_with_wikilinks_seq(t.children);
            assert forall|i: int| 0 <= i < r.children.len() implies has_no_page_link(
                #[trigger] r.children[i],
            ) by {
                lemma_no_page_link_left(t.children[i]);
            }
        },
    }
}

} // verus!
