//! Trees and their outlines: the nodes of a tree listed in document order
//! (each before its children), each with its depth.
use vstd::prelude::*;

use crate::ast::{
    attrs_view, lemma_nodes_view_push, node_view, nodes_view, AttrValue, AttrView, Key, Kind, Node,
    NodeView,
};

verus! {

/// One line of an outline: a node's depth, type and attributes.
pub struct OutlineEntry {
    pub depth: usize,
    pub kind: Kind,
    pub attrs: Vec<(Key, AttrValue)>,
}

pub open spec fn entry_view(e: OutlineEntry) -> (nat, Kind, Seq<(Key, AttrView)>) {
    (e.depth as nat, e.kind, attrs_view(e.attrs@))
}

pub open spec fn entries_view(es: Seq<OutlineEntry>) -> Seq<(nat, Kind, Seq<(Key, AttrView)>)> {
    es.map_values(|e: OutlineEntry| entry_view(e))
}

/// The outline of the tree `n`, whose root is at depth `d`.
pub open spec fn outline(n: NodeView, d: nat) -> Seq<(nat, Kind, Seq<(Key, AttrView)>)>
    decreases n,
{
    seq![(d, n.kind, n.attrs)] + outline_seq(n.children, d + 1)
}

/// The outlines of sibling trees at depth `d`, one after another.
pub open spec fn outline_seq(cs: Seq<NodeView>, d: nat) -> Seq<(nat, Kind, Seq<(Key, AttrView)>)>
    decreases cs,
{
    if cs.len() == 0 {
        Seq::empty()
    } else {
        outline_seq(cs.drop_last(), d) + outline(cs.last(), d)
    }
}

/// Each line is at most one level deeper than the line before it.
pub open spec fn steps_down_by_one(es: Seq<(nat, Kind, Seq<(Key, AttrView)>)>) -> bool {
    forall|k: int| 1 <= k < es.len() ==> #[trigger] es[k].0 <= es[k - 1].0 + 1
}

/// An outline of one tree: a first line, and every other line deeper than
/// it and at most one level deeper than the line before.
pub open spec fn is_tree_outline(es: Seq<(nat, Kind, Seq<(Key, AttrView)>)>) -> bool {
    &&& es.len() > 0
    &&& steps_down_by_one(es)
    &&& forall|k: int| 1 <= k < es.len() ==> #[trigger] es[k].0 > es[0].0
}

/// A copy of an attribute value.
pub fn clone_attr(a: &AttrValue) -> (r: AttrValue)
    ensures
        r@ == a@,
{
    match a {
        AttrValue::Null => AttrValue::Null,
        AttrValue::Bool(b) => AttrValue::Bool(*b),
        AttrValue::Num(n) => AttrValue::Num(*n),
        AttrValue::Str(s) => AttrValue::Str(s.clone()),
        AttrValue::List(v) => {
            let mut r: Vec<String> = Vec::new();
            let mut i: usize = 0;
            while i < v.len()
                invariant
                    i <= v.len(),
                    r@.len() == i,
                    forall|j: int| 0 <= j < i ==> #[trigger] r@[j] == v@[j],
                decreases v.len() - i,
            {
                r.push(v[i].clone());
                i = i + 1;
            }
            assert(r@ =~= v@);
            AttrValue::List(r)
        },
        AttrValue::Props(v) => {
            let mut r: Vec<(String, Option<String>)> = Vec::new();
            let mut i: usize = 0;
            while i < v.len()
                invariant
                    i <= v.len(),
                    r@.len() == i,
                    forall|j: int| 0 <= j < i ==> #[trigger] r@[j] == v@[j],
                decreases v.len() - i,
            {
                let value = match &v[i].1 {
                    Some(s) => Some(s.clone()),
                    None => None,
                };
                r.push((v[i].0.clone(), value));
                i = i + 1;
            }
            assert(r@ =~= v@);
            AttrValue::Props(r)
        },
    }
}

/// A copy of a list of attributes.
pub fn clone_attrs(v: &Vec<(Key, AttrValue)>) -> (r: Vec<(Key, AttrValue)>)
    ensures
        attrs_view(r@) == attrs_view(v@),
{
    let mut r: Vec<(Key, AttrValue)> = Vec::new();
    let mut i: usize = 0;
    while i < v.len()
        invariant
            i <= v.len(),
            r@.len() == i,
            forall|j: int| 0 <= j < i ==> (#[trigger] r@[j]).0 == v@[j].0 && r@[j].1@ == v@[j].1@,
        decreases v.len() - i,
    {
        r.push((v[i].0, clone_attr(&v[i].1)));
        i = i + 1;
    }
    assert(attrs_view(r@) =~= attrs_view(v@));
    r
}

proof fn lemma_outline_seq_push(cs: Seq<NodeView>, c: NodeView, d: nat)
    ensures
        outline_seq(cs.push(c), d) == outline_seq(cs, d) + outline(c, d),
{
    assert(cs.push(c).drop_last() =~= cs);
}

/// Builds the tree whose outline starts at line `i`; also returns where the
/// lines of that tree end.
fn build_subtree(es: &Vec<OutlineEntry>, i: usize) -> (r: (Node, usize))
    requires
        i < es.len(),
        steps_down_by_one(entries_view(es@)),
    ensures
        i < r.1 <= es.len(),
        outline(r.0@, es@[i as int].depth as nat) == entries_view(es@).subrange(i as int, r.1 as int),
        r.1 < es.len() ==> es@[r.1 as int].depth <= es@[i as int].depth,
    decreases es.len() - i,
{
    let ghost esv = entries_view(es@);
    let d = es[i].depth;
    let mut children: Vec<Node> = Vec::new();
    let mut j = i + 1;
    assert(j < es.len() ==> esv[j as int].0 <= esv[j - 1].0 + 1);
    while j < es.len() && es[j].depth > d
        invariant
            i < j <= es.len(),
            esv == entries_view(es@),
            steps_down_by_one(esv),
            d == es@[i as int].depth,
            j < es.len() ==> es@[j as int].depth <= d + 1,
            outline_seq(nodes_view(children@), (d + 1) as nat) == esv.subrange(i + 1, j as int),
        decreases es.len() - j,
    {
        let (child, j2) = build_subtree(es, j);
        proof {
            lemma_nodes_view_push(children@, child);
            lemma_outline_seq_push(nodes_view(children@), child@, (d + 1) as nat);
            assert(esv.subrange(i + 1, j as int) + esv.subrange(j as int, j2 as int) =~= esv.subrange(
                i + 1,
                j2 as int,
            ));
        }
        children.push(child);
        j = j2;
    }
    let node = Node { kind: es[i].kind, attrs: clone_attrs(&es[i].attrs), children };
    assert(seq![esv[i as int]] + esv.subrange(i + 1, j as int) =~= esv.subrange(i as int, j as int));
    (node, j)
}

/// Builds the tree that an outline lists, when the lines are the outline of
/// one tree (`is_tree_outline`); `None` otherwise.
pub fn tree_from_outline(es: &Vec<OutlineEntry>) -> (r: Option<Node>)
    ensures
        r is Some <==> is_tree_outline(entries_view(es@)),
        r matches Some(t) ==> outline(t@, es@[0].depth as nat) == entries_view(es@),
{
    let ghost esv = entries_view(es@);
    if es.len() == 0 {
        return None;
    }
    let top = es[0].depth;
    let mut k: usize = 1;
    while k < es.len()
        invariant
            1 <= k <= es.len(),
            esv == entries_view(es@),
            top == es@[0].depth,
            forall|m: int| 1 <= m < k ==> #[trigger] esv[m].0 <= esv[m - 1].0 + 1 && esv[m].0 > esv[0].0,
        decreases es.len() - k,
    {
        if es[k].depth <= top || es[k].depth > es[k - 1].depth && es[k].depth - es[k - 1].depth > 1 {
            assert(!is_tree_outline(esv)) by {
                if es[k as int].depth <= top {
                    assert(!(esv[k as int].0 > esv[0].0));
                } else {
                    assert(!(esv[k as int].0 <= esv[k - 1].0 + 1));
                }
            }
            return None;
        }
        k = k + 1;
    }
    let (t, end) = build_subtree(es, 0);
    if end < es.len() {
        assert(esv[end as int].0 > esv[0].0);
    }
    assert(esv.subrange(0, end as int) =~= esv);
    Some(t)
}

/// The root's line is the first line of a tree's outline, and every later
/// line is deeper than the root.
pub proof fn lemma_outline_depths(n: NodeView, d: nat)
    ensures
        outline(n, d).len() >= 1,
        outline(n, d)[0] == (d, n.kind, n.attrs),
        forall|k: int| 1 <= k < outline(n, d).len() ==> #[trigger] outline(n, d)[k].0 > d,
    decreases n,
{
    lemma_outline_seq_depths(n.children, d + 1);
    let rest = outline_seq(n.children, d + 1);
    assert forall|k: int| 1 <= k < outline(n, d).len() implies #[trigger] outline(n, d)[k].0 > d by {
        assert(outline(n, d)[k] == rest[k - 1]);
    }
}

/// Every line of the outlines of siblings at depth `d` is at depth `d` or
/// deeper, and there is a line for each sibling at least.
pub proof fn lemma_outline_seq_depths(cs: Seq<NodeView>, d: nat)
    ensures
        outline_seq(cs, d).len() >= cs.len(),
        forall|k: int| 0 <= k < outline_seq(cs, d).len() ==> #[trigger] outline_seq(cs, d)[k].0 >= d,
    decreases cs,
{
    if cs.len() > 0 {
        lemma_outline_seq_depths(cs.drop_last(), d);
        lemma_outline_depths(cs.last(), d);
        let p = outline_seq(cs.drop_last(), d);
        let l = outline(cs.last(), d);
        assert forall|k: int| 0 <= k < outline_seq(cs, d).len() implies #[trigger] outline_seq(cs, d)[k].0
            >= d by {
            if k < p.len() {
                assert(outline_seq(cs, d)[k] == p[k]);
            } else {
                assert(outline_seq(cs, d)[k] == l[k - p.len()]);
            }
        }
    }
}

/// A tree is determined by its outline: two trees with the same outline at
/// the same depth are the same tree.
pub proof fn lemma_outline_injective(a: NodeView, b: NodeView, d: nat)
    requires
        outline(a, d) == outline(b, d),
    ensures
        a == b,
    decreases a,
{
    lemma_outline_depths(a, d);
    lemma_outline_depths(b, d);
    let o = outline(a, d);
    assert(outline_seq(a.children, d + 1) =~= o.subrange(1, o.len() as int));
    assert(outline_seq(b.children, d + 1) =~= o.subrange(1, o.len() as int));
    lemma_outline_seq_injective(a.children, b.children, d + 1);
}

/// Sibling trees are determined by their outlines.
pub proof fn lemma_outline_seq_injective(xs: Seq<NodeView>, ys: Seq<NodeView>, d: nat)
    requires
        outline_seq(xs, d) == outline_seq(ys, d),
    ensures
        xs == ys,
    decreases xs,
{
    lemma_outline_seq_depths(xs, d);
    lemma_outline_seq_depths(ys, d);
    if xs.len() == 0 || ys.len() == 0 {
        assert(xs =~= ys);
    } else {
        let px = outline_seq(xs.drop_last(), d);
        let lx = outline(xs.last(), d);
        let py = outline_seq(ys.drop_last(), d);
        let ly = outline(ys.last(), d);
        let s = outline_seq(xs, d);
        lemma_outline_depths(xs.last(), d);
        lemma_outline_depths(ys.last(), d);
        assert(s == px + lx);
        assert(s == py + ly);
        assert(s[px.len() as int] == lx[0]);
        assert(s[py.len() as int] == ly[0]);
        if px.len() < py.len() {
            let k = py.len() - px.len();
            assert(s[py.len() as int] == lx[k]);
            assert(outline(xs.last(), d)[k].0 > d);
            assert(false);
        }
        if py.len() < px.len() {
            let k = px.len() - py.len();
            assert(s[px.len() as int] == ly[k]);
            assert(outline(ys.last(), d)[k].0 > d);
            assert(false);
        }
        assert(px.len() == py.len());
        assert(px =~= s.subrange(0, px.len() as int));
        assert(py =~= s.subrange(0, py.len() as int));
        assert(lx =~= s.subrange(px.len() as int, s.len() as int));
        assert(ly =~= s.subrange(py.len() as int, s.len() as int));
        lemma_outline_seq_injective(xs.drop_last(), ys.drop_last(), d);
        lemma_outline_injective(xs.last(), ys.last(), d);
        assert(xs =~= xs.drop_last().push(xs.last()));
        assert(ys =~= ys.drop_last().push(ys.last()));
    }
}

/// No node of the tree `t` has type `k`.
pub open spec fn has_no_kind(t: NodeView, k: Kind) -> bool
    decreases t,
{
    &&& t.kind != k
    &&& forall|i: int| 0 <= i < t.children.len() ==> has_no_kind(#[trigger] t.children[i], k)
}

/// No line of an outline has type `k`.
pub open spec fn lines_avoid(es: Seq<(nat, Kind, Seq<(Key, AttrView)>)>, k: Kind) -> bool {
    forall|j: int| 0 <= j < es.len() ==> (#[trigger] es[j]).1 != k
}

/// A tree whose outline has no line of type `k` has no node of type `k`.
pub proof fn lemma_outline_avoids(t: NodeView, d: nat, k: Kind)
    requires
        lines_avoid(outline(t, d), k),
    ensures
        has_no_kind(t, k),
    decreases t,
{
    let o = outline(t, d);
    assert(o[0] == (d, t.kind, t.attrs));
    let rest = outline_seq(t.children, d + 1);
    assert forall|j: int| 0 <= j < rest.len() implies (#[trigger] rest[j]).1 != k by {
        assert(rest[j] == o[j + 1]);
    }
    lemma_outline_seq_avoids(t.children, d + 1, k);
}

/// Sibling trees whose outlines have no line of type `k` have no node of type `k`.
pub proof fn lemma_outline_seq_avoids(cs: Seq<NodeView>, d: nat, k: Kind)
    requires
        lines_avoid(outline_seq(cs, d), k),
    ensures
        forall|i: int| 0 <= i < cs.len() ==> has_no_kind(#[trigger] cs[i], k),
    decreases cs,
{
    if cs.len() > 0 {
        let p = outline_seq(cs.drop_last(), d);
        let l = outline(cs.last(), d);
        let s = outline_seq(cs, d);
        assert(s == p + l);
        assert forall|j: int| 0 <= j < p.len() implies (#[trigger] p[j]).1 != k by {
            assert(p[j] == s[j]);
        }
        assert forall|j: int| 0 <= j < l.len() implies (#[trigger] l[j]).1 != k by {
            assert(l[j] == s[j + p.len()]);
        }
        lemma_outline_seq_avoids(cs.drop_last(), d, k);
        lemma_outline_avoids(cs.last(), d, k);
        assert forall|i: int| 0 <= i < cs.len() implies has_no_kind(#[trigger] cs[i], k) by {
            if i < cs.len() - 1 {
                assert(cs[i] == cs.drop_last()[i]);
            }
        }
    }
}

} // verus!
