//! Hashtags: `#tag` in text becomes a `hashtag` node; `\#` stays a literal `#`.
use vstd::prelude::*;

use crate::ast::{
    attrs_view, get_attr, lemma_nodes_view, lemma_nodes_view_push, node_view, nodes_view, opt_str_view, str_attr, AttrValue,
    AttrView, Key, Kind, Node, NodeView,
};
use crate::outline::{clone_attr, clone_attrs};
use crate::preprocess::hide_escaped_hashes;
use crate::text::{alphanumeric, char_is_alphanumeric, chars_of, string_of, sub_string};

verus! {

/// Stands in for an escaped `\#` while the body is parsed: a noncharacter
/// (U+FDD0), which ordinary text does not hold.
pub const ESCAPED_HASH_PLACEHOLDER: char = '\u{FDD0}';

/// A hashtag character: Unicode alphanumeric, `_`, `-` or `/`.
pub open spec fn hashtag_char(c: char) -> bool {
    alphanumeric(c) || c == '_' || c == '-' || c == '/'
}

/// Whether `c` may stand in a hashtag's name.
pub fn is_hashtag_char(c: char) -> (b: bool)
    ensures
        b == hashtag_char(c),
{
    char_is_alphanumeric(c) || c == '_' || c == '-' || c == '/'
}

/// A piece of a text split at its hashtags.
pub enum Piece {
    Text(Seq<char>),
    Tag(Seq<char>),
}

/// Where the run of hashtag characters of `s` from `from` ends.
pub open spec fn tag_run_end(s: Seq<char>, from: nat) -> nat
    decreases s.len() - from,
{
    if from < s.len() && hashtag_char(s[from as int]) {
        tag_run_end(s, from + 1)
    } else {
        from
    }
}

/// `end`, moved back over the `/` before it, but not before `start`.
pub open spec fn trim_slashes(s: Seq<char>, start: nat, end: nat) -> nat
    decreases end,
{
    if end > start && s[end - 1] == '/' {
        trim_slashes(s, start, (end - 1) as nat)
    } else {
        end
    }
}

pub proof fn lemma_tag_run_end(s: Seq<char>, from: nat)
    requires
        from <= s.len(),
    ensures
        from <= tag_run_end(s, from) <= s.len(),
        forall|j: int| from <= j < tag_run_end(s, from) ==> hashtag_char(#[trigger] s[j]),
        tag_run_end(s, from) < s.len() ==> !hashtag_char(s[tag_run_end(s, from) as int]),
    decreases s.len() - from,
{
    if from < s.len() && hashtag_char(s[from as int]) {
        lemma_tag_run_end(s, from + 1);
    }
}

pub proof fn lemma_trim_slashes(s: Seq<char>, start: nat, end: nat)
    requires
        start <= end,
    ensures
        start <= trim_slashes(s, start, end) <= end,
        trim_slashes(s, start, end) > start ==> s[trim_slashes(s, start, end) - 1] != '/',
        forall|j: int| trim_slashes(s, start, end) <= j < end ==> #[trigger] s[j] == '/',
    decreases end,
{
    if end > start && s[end - 1] == '/' {
        lemma_trim_slashes(s, start, (end - 1) as nat);
    }
}

/// Where the hashtag that starts at `i` ends, if one starts there: a `#` at
/// the start or after a space, then hashtag characters, of which the first is
/// not `/` and trailing `/` are not part of the tag.
pub open spec fn hashtag_at(s: Seq<char>, i: nat) -> Option<nat> {
    if i < s.len() && s[i as int] == '#' && (i == 0 || s[i - 1] == ' ') {
        let start = i + 1;
        let end = trim_slashes(s, start, tag_run_end(s, start));
        if end > start && s[start as int] != '/' {
            Some(end)
        } else {
            None
        }
    } else {
        None
    }
}

pub proof fn lemma_hashtag_at(s: Seq<char>, i: nat)
    ensures
        hashtag_at(s, i) matches Some(e) ==> i + 1 < e <= s.len() && s[i as int] == '#' && forall|
            j: int,
        |
            i + 1 <= j < e ==> hashtag_char(#[trigger] s[j]),
        hashtag_at(s, i) matches Some(e) ==> s[i + 1 as int] != '/' && s[e - 1] != '/',
{
    if i < s.len() && s[i as int] == '#' && (i == 0 || s[i - 1] == ' ') {
        lemma_tag_run_end(s, i + 1);
        lemma_trim_slashes(s, i + 1, tag_run_end(s, i + 1));
    }
}

/// The pieces of `s` from `i` on, where the current text piece started at `b`.
pub open spec fn split_from(s: Seq<char>, i: nat, b: nat) -> Seq<Piece>
    decreases s.len() - i,
{
    if i >= s.len() {
        if b < s.len() {
            seq![Piece::Text(s.subrange(b as int, s.len() as int))]
        } else {
            Seq::empty()
        }
    } else {
        match hashtag_at(s, i) {
            Some(e) => {
                proof {
                    lemma_hashtag_at(s, i);
                }
                (if i > b {
                    seq![Piece::Text(s.subrange(b as int, i as int))]
                } else {
                    Seq::empty()
                }) + seq![Piece::Tag(s.subrange(i + 1 as int, e as int))] + split_from(s, e, e)
            },
            None => split_from(s, i + 1, b),
        }
    }
}

/// A text split into text and hashtag pieces.
pub open spec fn split_text(s: Seq<char>) -> Seq<Piece> {
    split_from(s, 0, 0)
}

/// The AST node of a piece.
pub open spec fn piece_node(p: Piece) -> NodeView {
    match p {
        Piece::Text(t) => NodeView {
            kind: Kind::Text,
            attrs: seq![(Key::Value, AttrView::Str(t))],
            children: Seq::empty(),
        },
        Piece::Tag(t) => NodeView {
            kind: Kind::Hashtag,
            attrs: seq![(Key::Value, AttrView::Str(t))],
            children: Seq::empty(),
        },
    }
}

pub open spec fn pieces_nodes(ps: Seq<Piece>) -> Seq<NodeView> {
    ps.map_values(|p: Piece| piece_node(p))
}

fn piece(kind: Kind, v: &Vec<char>, a: usize, b: usize) -> (n: Node)
    requires
        a <= b <= v.len(),
    ensures
        n@ == (NodeView {
            kind,
            attrs: seq![(Key::Value, AttrView::Str(v@.subrange(a as int, b as int)))],
            children: Seq::empty(),
        }),
{
    let mut attrs: Vec<(Key, AttrValue)> = Vec::new();
    attrs.push((Key::Value, AttrValue::Str(sub_string(v, a, b))));
    let n = Node { kind, attrs, children: Vec::new() };
    assert(attrs_view(n.attrs@) =~= seq![
        (Key::Value, AttrView::Str(v@.subrange(a as int, b as int))),
    ]);
    assert(nodes_view(n.children@) =~= Seq::<NodeView>::empty());
    n
}

/// Splits a text into `text` and `hashtag` nodes. A hashtag is `#` at the
/// start or after a space (U+0020), then hashtag characters; `/` may not
/// start it, and trailing `/` are not part of it.
pub fn split_hashtags(text: &str) -> (r: Vec<Node>)
    ensures
        nodes_view(r@) == pieces_nodes(split_text(text@)),
{
    let cs = chars_of(text);
    let ghost s = cs@;
    let mut out: Vec<Node> = Vec::new();
    let mut i: usize = 0;
    let mut b: usize = 0;
    while i < cs.len()
        invariant
            s == cs@,
            b <= i <= cs.len(),
            nodes_view(out@) + pieces_nodes(split_from(s, i as nat, b as nat)) == pieces_nodes(
                split_text(s),
            ),
        decreases cs.len() - i,
    {
        let ghost before = nodes_view(out@);
        if cs[i] == '#' && (i == 0 || cs[i - 1] == ' ') {
            let start = i + 1;
            let mut end = start;
            proof {
                lemma_tag_run_end(s, start as nat);
            }
            while end < cs.len() && is_hashtag_char(cs[end])
                invariant
                    s == cs@,
                    start <= end <= cs.len(),
                    tag_run_end(s, end as nat) == tag_run_end(s, start as nat),
                decreases cs.len() - end,
            {
                end = end + 1;
            }
            let mut actual = end;
            while actual > start && cs[actual - 1] == '/'
                invariant
                    s == cs@,
                    start <= actual <= end <= cs.len(),
                    trim_slashes(s, start as nat, actual as nat) == trim_slashes(
                        s,
                        start as nat,
                        end as nat,
                    ),
                decreases actual,
            {
                actual = actual - 1;
            }
            assert(hashtag_at(s, i as nat) == if actual > start && s[start as int] != '/' {
                Some(actual as nat)
            } else {
                None
            });
            if actual > start && cs[start] != '/' {
                proof {
                    lemma_hashtag_at(s, i as nat);
                }
                if i > b {
                    let t = piece(Kind::Text, &cs, b, i);
                    proof {
                        lemma_nodes_view_push(out@, t);
                    }
                    out.push(t);
                }
                let tag = piece(Kind::Hashtag, &cs, start, actual);
                proof {
                    lemma_nodes_view_push(out@, tag);
                }
                out.push(tag);
                assert(nodes_view(out@) + pieces_nodes(split_from(s, actual as nat, actual as nat))
                    =~= before + pieces_nodes(split_from(s, i as nat, b as nat)));
                i = actual;
                b = actual;
                continue ;
            }
        }
        i = i + 1;
    }
    if b < cs.len() {
        let t = piece(Kind::Text, &cs, b, cs.len());
        proof {
            lemma_nodes_view_push(out@, t);
        }
        out.push(t);
    }
    assert(nodes_view(out@) =~= pieces_nodes(split_text(s)));
    out
}

/// The text a piece was made from.
pub open spec fn piece_source(p: Piece) -> Seq<char> {
    match p {
        Piece::Text(t) => t,
        Piece::Tag(t) => seq!['#'] + t,
    }
}

/// The texts of the pieces, one after another.
pub open spec fn pieces_source(ps: Seq<Piece>) -> Seq<char>
    decreases ps.len(),
{
    if ps.len() == 0 {
        Seq::empty()
    } else {
        piece_source(ps[0]) + pieces_source(ps.drop_first())
    }
}

proof fn lemma_pieces_source_concat(a: Seq<Piece>, b: Seq<Piece>)
    ensures
        pieces_source(a + b) == pieces_source(a) + pieces_source(b),
    decreases a.len(),
{
    if a.len() == 0 {
        assert(a + b =~= b);
    } else {
        lemma_pieces_source_concat(a.drop_first(), b);
        assert((a + b).drop_first() =~= a.drop_first() + b);
    }
}

proof fn lemma_split_from_source(s: Seq<char>, i: nat, b: nat)
    requires
        b <= i <= s.len(),
    ensures
        pieces_source(split_from(s, i, b)) == s.subrange(b as int, s.len() as int),
    decreases s.len() - i,
{
    if i >= s.len() {
        if b < s.len() {
            let t = s.subrange(b as int, s.len() as int);
            assert(pieces_source(seq![Piece::Text(t)]) =~= t + pieces_source(
                seq![Piece::Text(t)].drop_first(),
            ));
            assert(pieces_source(seq![Piece::Text(t)]) =~= t);
        } else {
            assert(s.subrange(b as int, s.len() as int) =~= Seq::<char>::empty());
        }
    } else {
        match hashtag_at(s, i) {
            Some(e) => {
                lemma_hashtag_at(s, i);
                lemma_split_from_source(s, e, e);
                let pre: Seq<Piece> = if i > b {
                    seq![Piece::Text(s.subrange(b as int, i as int))]
                } else {
                    Seq::empty()
                };
                let tag = seq![Piece::Tag(s.subrange(i + 1 as int, e as int))];
                lemma_pieces_source_concat(pre, tag);
                lemma_pieces_source_concat(pre + tag, split_from(s, e, e));
                assert(pieces_source(tag) =~= seq!['#'] + s.subrange(i + 1 as int, e as int)
                    + pieces_source(tag.drop_first()));
                if i > b {
                    assert(pieces_source(pre) =~= s.subrange(b as int, i as int) + pieces_source(
                        pre.drop_first(),
                    ));
                }
                assert(pieces_source(pre) =~= s.subrange(b as int, i as int));
                assert(s.subrange(b as int, i as int) + seq!['#'] + s.subrange(i + 1 as int, e as int)
                    + s.subrange(e as int, s.len() as int) =~= s.subrange(b as int, s.len() as int));
            },
            None => {
                lemma_split_from_source(s, i + 1, b);
            },
        }
    }
}

/// Splitting loses nothing: the pieces, each hashtag written back with its
/// `#`, spell out the text that was split.
pub proof fn lemma_split_text_spells_input(s: Seq<char>)
    ensures
        pieces_source(split_text(s)) == s,
{
    lemma_split_from_source(s, 0, 0);
    assert(s.subrange(0, s.len() as int) =~= s);
}

proof fn lemma_split_from_tags(s: Seq<char>, i: nat, b: nat)
    requires
        b <= i <= s.len(),
    ensures
        forall|k: int|
            0 <= k < split_from(s, i, b).len() ==> (#[trigger] split_from(s, i, b)[k] matches Piece::Tag(
                t,
            ) ==> {
                &&& t.len() > 0
                &&& t[0] != '/'
                &&& t.last() != '/'
                &&& forall|j: int| 0 <= j < t.len() ==> hashtag_char(#[trigger] t[j])
            }),
    decreases s.len() - i,
{
    if i < s.len() {
        match hashtag_at(s, i) {
            Some(e) => {
                lemma_hashtag_at(s, i);
                lemma_split_from_tags(s, e, e);
                let t = s.subrange(i + 1 as int, e as int);
                assert forall|j: int| 0 <= j < t.len() implies hashtag_char(#[trigger] t[j]) by {
                    assert(t[j] == s[i + 1 + j]);
                }
                let pre: Seq<Piece> = if i > b {
                    seq![Piece::Text(s.subrange(b as int, i as int))]
                } else {
                    Seq::empty()
                };
                let whole = split_from(s, i, b);
                let rest = split_from(s, e, e);
                assert(whole == pre + seq![Piece::Tag(t)] + rest);
                assert forall|k: int| 0 <= k < whole.len() implies (#[trigger] whole[k] matches Piece::Tag(
                    u,
                ) ==> {
                    &&& u.len() > 0
                    &&& u[0] != '/'
                    &&& u.last() != '/'
                    &&& forall|j: int| 0 <= j < u.len() ==> hashtag_char(#[trigger] u[j])
                }) by {
                    if k >= pre.len() + 1 {
                        assert(whole[k] == rest[k - pre.len() - 1]);
                    }
                }
            },
            None => {
                lemma_split_from_tags(s, i + 1, b);
            },
        }
    }
}

/// Every hashtag found is a non-empty run of hashtag characters that neither
/// starts nor ends with `/`.
pub proof fn lemma_split_text_tags_valid(s: Seq<char>)
    ensures
        forall|k: int|
            0 <= k < split_text(s).len() ==> (#[trigger] split_text(s)[k] matches Piece::Tag(t) ==> {
                &&& t.len() > 0
                &&& t[0] != '/'
                &&& t.last() != '/'
                &&& forall|j: int| 0 <= j < t.len() ==> hashtag_char(#[trigger] t[j])
            }),
{
    lemma_split_from_tags(s, 0, 0);
}

/// The pieces from `i` on begin with a hashtag only where no text is
/// pending (`b == i`) and a hashtag starts right at `i`.
proof fn lemma_split_from_first_tag(s: Seq<char>, i: nat, b: nat)
    requires
        b <= i <= s.len(),
    ensures
        split_from(s, i, b).len() > 0 && split_from(s, i, b)[0] is Tag ==> i == b && hashtag_at(
            s,
            i,
        ) is Some,
    decreases s.len() - i,
{
    if i < s.len() {
        match hashtag_at(s, i) {
            Some(e) => {
                lemma_hashtag_at(s, i);
                if i > b {
                    let pre = seq![Piece::Text(s.subrange(b as int, i as int))];
                    let t = s.subrange(i + 1 as int, e as int);
                    assert(split_from(s, i, b) == pre + seq![Piece::Tag(t)] + split_from(s, e, e));
                    assert(split_from(s, i, b)[0] == pre[0]);
                }
            },
            None => {
                lemma_split_from_first_tag(s, i + 1, b);
            },
        }
    }
}

proof fn lemma_split_from_alternates(s: Seq<char>, i: nat, b: nat)
    requires
        b <= i <= s.len(),
    ensures
        forall|k: int|
            0 <= k < split_from(s, i, b).len() ==> {
                &&& (#[trigger] split_from(s, i, b)[k] matches Piece::Text(t) ==> t.len() > 0 && (k + 1
                    < split_from(s, i, b).len() ==> split_from(s, i, b)[k + 1] is Tag))
                &&& (split_from(s, i, b)[k] is Tag && k + 1 < split_from(s, i, b).len()
                    ==> split_from(s, i, b)[k + 1] is Text)
            },
    decreases s.len() - i,
{
    if i < s.len() {
        match hashtag_at(s, i) {
            Some(e) => {
                lemma_hashtag_at(s, i);
                lemma_split_from_alternates(s, e, e);
                lemma_split_from_first_tag(s, e, e);
                let t = s.subrange(i + 1 as int, e as int);
                let pre: Seq<Piece> = if i > b {
                    seq![Piece::Text(s.subrange(b as int, i as int))]
                } else {
                    Seq::empty()
                };
                let whole = split_from(s, i, b);
                let rest = split_from(s, e, e);
                assert(whole == pre + seq![Piece::Tag(t)] + rest);
                if rest.len() > 0 && rest[0] is Tag {
                    assert(hashtag_at(s, e) is Some);
                    assert(hashtag_char(s[e - 1]));
                    assert(s[e - 1] == ' ');
                    assert(false);
                }
                assert forall|k: int| 0 <= k < whole.len() implies {
                    &&& (#[trigger] whole[k] matches Piece::Text(u) ==> u.len() > 0 && (k + 1 < whole.len()
                        ==> whole[k + 1] is Tag))
                    &&& (whole[k] is Tag && k + 1 < whole.len() ==> whole[k + 1] is Text)
                } by {
                    if k < pre.len() {
                        assert(whole[k + 1] == Piece::Tag(t));
                    } else if k == pre.len() {
                        if k + 1 < whole.len() {
                            assert(whole[k + 1] == rest[0]);
                        }
                    } else {
                        assert(whole[k] == rest[k - pre.len() - 1]);
                        if k + 1 < whole.len() {
                            assert(whole[k + 1] == rest[k + 1 - pre.len() - 1]);
                        }
                    }
                }
            },
            None => {
                lemma_split_from_alternates(s, i + 1, b);
            },
        }
    }
}

/// Text and hashtag pieces alternate: a text piece is never empty, no two
/// text pieces are adjacent and no two hashtags are; and empty text has no
/// pieces.
pub proof fn lemma_split_text_alternates(s: Seq<char>)
    ensures
        s.len() == 0 ==> split_text(s).len() == 0,
        forall|k: int|
            0 <= k < split_text(s).len() ==> {
                &&& (#[trigger] split_text(s)[k] matches Piece::Text(t) ==> t.len() > 0 && (k + 1
                    < split_text(s).len() ==> split_text(s)[k + 1] is Tag))
                &&& (split_text(s)[k] is Tag && k + 1 < split_text(s).len() ==> split_text(s)[k
                    + 1] is Text)
            },
{
    lemma_split_from_alternates(s, 0, 0);
}

/// What may follow a hashtag in its text: nothing but `/` characters (which
/// a tag does not end with) up to the end of the text or to a character
/// that cannot stand in a tag.
pub open spec fn ends_tag(after: Seq<char>) -> bool {
    exists|r: int| #[trigger] slashes_then_stop(after, r)
}

/// `after` holds `/` before position `r`, and at `r` ends or holds a
/// character that cannot stand in a tag.
pub open spec fn slashes_then_stop(after: Seq<char>, r: int) -> bool {
    &&& 0 <= r <= after.len()
    &&& forall|j: int| 0 <= j < r ==> #[trigger] after[j] == '/'
    &&& r < after.len() ==> !hashtag_char(after[r])
}

proof fn lemma_split_from_maximal(s: Seq<char>, i: nat, b: nat)
    requires
        b <= i <= s.len(),
    ensures
        forall|k: int|
            0 <= k < split_from(s, i, b).len() && #[trigger] split_from(s, i, b)[k] is Tag
                ==> ends_tag(pieces_source(split_from(s, i, b).skip(k + 1))),
    decreases s.len() - i,
{
    if i < s.len() {
        match hashtag_at(s, i) {
            Some(e) => {
                lemma_hashtag_at(s, i);
                lemma_tag_run_end(s, i + 1);
                let run = tag_run_end(s, i + 1);
                lemma_trim_slashes(s, i + 1, run);
                lemma_split_from_maximal(s, e, e);
                lemma_split_from_source(s, e, e);
                let t = s.subrange(i + 1 as int, e as int);
                let pre: Seq<Piece> = if i > b {
                    seq![Piece::Text(s.subrange(b as int, i as int))]
                } else {
                    Seq::empty()
                };
                let whole = split_from(s, i, b);
                let rest = split_from(s, e, e);
                assert(whole == pre + seq![Piece::Tag(t)] + rest);
                let after = s.subrange(e as int, s.len() as int);
                assert(pieces_source(rest) == after);
                assert(e == trim_slashes(s, i + 1, run));
                let r: int = run - e;
                assert(0 <= r <= after.len());
                assert forall|j: int| 0 <= j < r implies #[trigger] after[j] == '/' by {
                    assert(after[j] == s[e + j]);
                    assert(s[e + j] == '/');
                }
                if r < after.len() {
                    assert(after[r] == s[run as int]);
                    assert(!hashtag_char(after[r]));
                }
                assert(slashes_then_stop(after, r));
                assert forall|k: int|
                    0 <= k < whole.len() && #[trigger] whole[k] is Tag implies ends_tag(
                    pieces_source(whole.skip(k + 1)),
                ) by {
                    if k == pre.len() {
                        assert(whole.skip(k + 1) =~= rest);
                    } else if k > pre.len() {
                        let m = k - pre.len() - 1;
                        assert(whole[k] == rest[m]);
                        assert(whole.skip(k + 1) =~= rest.skip(m + 1));
                    }
                }
            },
            None => {
                lemma_split_from_maximal(s, i + 1, b);
            },
        }
    }
}

/// Hashtags are as long as they can be: what follows a hashtag in the text
/// is, after any `/` it does not end with, the end of the text or a
/// character that cannot stand in a tag (so `#Rust` is the tag `Rust`, and
/// `#a/b.` the tag `a/b`).
pub proof fn lemma_split_text_maximal(s: Seq<char>)
    ensures
        forall|k: int|
            0 <= k < split_text(s).len() && #[trigger] split_text(s)[k] is Tag ==> ends_tag(
                pieces_source(split_text(s).skip(k + 1)),
            ),
{
    lemma_split_from_maximal(s, 0, 0);
}

proof fn lemma_trim_keeps_first(s: Seq<char>, start: nat, end: nat)
    requires
        start < end <= s.len(),
        s[start as int] != '/',
    ensures
        trim_slashes(s, start, end) > start,
    decreases end,
{
    if s[end - 1] == '/' {
        lemma_trim_keeps_first(s, start, (end - 1) as nat);
    }
}

/// Every hashtag is found: a `#` at the start of the text or after a space,
/// followed by a character that can stand in a tag other than `/`, starts a
/// hashtag; and a text that starts so has a hashtag as its first piece.
pub proof fn lemma_hashtag_found(s: Seq<char>, i: nat)
    requires
        i + 1 < s.len(),
        s[i as int] == '#',
        i == 0 || s[i - 1] == ' ',
        hashtag_char(s[i + 1 as int]),
        s[i + 1 as int] != '/',
    ensures
        hashtag_at(s, i) is Some,
        i == 0 ==> split_text(s).len() > 0 && split_text(s)[0] is Tag,
{
    lemma_tag_run_end(s, i + 1);
    assert(tag_run_end(s, i + 1) > i + 1);
    lemma_trim_keeps_first(s, i + 1, tag_run_end(s, i + 1));
    if i == 0 {
        let e = hashtag_at(s, 0)->0;
        lemma_hashtag_at(s, 0);
        let t = s.subrange(1, e as int);
        assert(split_text(s) == Seq::<Piece>::empty() + seq![Piece::Tag(t)] + split_from(s, e, e));
        assert(split_text(s)[0] == Piece::Tag(t));
    }
}

/// What a child of a node becomes when its hashtags are extracted: a text
/// child that holds at least one hashtag is replaced by its pieces.
pub open spec fn expand_text(c: NodeView) -> Seq<NodeView> {
    if c.kind == Kind::Text && str_attr(c, Key::Value) is Some {
        let ps = split_text(str_attr(c, Key::Value).unwrap());
        if ps.len() > 1 || (ps.len() == 1 && ps[0] is Tag) {
            pieces_nodes(ps)
        } else {
            seq![c]
        }
    } else {
        seq![c]
    }
}

pub open spec fn expand_texts(cs: Seq<NodeView>) -> Seq<NodeView>
    decreases cs.len(),
{
    if cs.len() == 0 {
        Seq::empty()
    } else {
        expand_texts(cs.drop_last()) + expand_text(cs.last())
    }
}

/// A tree with the hashtags of its text nodes extracted, children first.
pub open spec fn with_hashtags(n: NodeView) -> NodeView
    decreases n,
{
    NodeView { kind: n.kind, attrs: n.attrs, children: expand_texts(with_hashtags_seq(n.children)) }
}

pub open spec fn with_hashtags_seq(cs: Seq<NodeView>) -> Seq<NodeView>
    decreases cs,
{
    if cs.len() == 0 {
        Seq::empty()
    } else {
        with_hashtags_seq(cs.drop_last()).push(with_hashtags(cs.last()))
    }
}

/// Extracts the hashtags of the text nodes of a tree.
pub fn process_hashtags(n: &Node) -> (r: Node)
    ensures
        r@ == with_hashtags(n@),
    decreases n,
{
    let ghost views = nodes_view(n.children@);
    proof {
        lemma_nodes_view(n.children@);
    }
    let mut out: Vec<Node> = Vec::new();
    let ghost mut done: Seq<NodeView> = Seq::empty();
    let mut i: usize = 0;
    while i < n.children.len()
        invariant
            i <= n.children.len(),
            views == nodes_view(n.children@),
            views.len() == n.children@.len(),
            forall|j: int| 0 <= j < n.children@.len() ==> #[trigger] views[j] == node_view(n.children@[j]),
            done == with_hashtags_seq(views.subrange(0, i as int)),
            nodes_view(out@) == expand_texts(done),
        decreases n.children.len() - i,
    {
        let c = process_hashtags(&n.children[i]);
        let ghost cv = c@;
        expand_child(c, &mut out);
        proof {
            assert(views.subrange(0, i + 1).drop_last() =~= views.subrange(0, i as int));
            let nd = with_hashtags_seq(views.subrange(0, i + 1));
            assert(nd == done.push(cv));
            assert(nd.drop_last() =~= done);
            assert(expand_texts(nd) == expand_texts(done) + expand_text(cv));
            done = nd;
        }
        i = i + 1;
    }
    assert(views.subrange(0, n.children.len() as int) =~= views);
    let r = Node { kind: n.kind, attrs: clone_attrs(&n.attrs), children: out };
    r
}

/// Appends what a child becomes when its hashtags are extracted.
fn expand_child(c: Node, out: &mut Vec<Node>)
    ensures
        nodes_view(final(out)@) == nodes_view(old(out)@) + expand_text(c@),
{
    let ghost before = nodes_view(out@);
    if c.kind == Kind::Text {
        if let Some(AttrValue::Str(t)) = get_attr(&c, Key::Value) {
            let parts = split_hashtags(t.as_str());
            let ghost ps = split_text(t@);
            proof {
                lemma_nodes_view(parts@);
                if parts.len() >= 1 {
                    assert(nodes_view(parts@)[0] == pieces_nodes(ps)[0]);
                }
            }
            if parts.len() > 1 || (parts.len() == 1 && parts[0].kind == Kind::Hashtag) {
                let mut k: usize = 0;
                while k < parts.len()
                    invariant
                        k <= parts.len(),
                        nodes_view(parts@) == pieces_nodes(ps),
                        nodes_view(out@) == before + nodes_view(parts@).subrange(0, k as int),
                    decreases parts.len() - k,
                {
                    let p = clone_node(&parts[k]);
                    proof {
                        lemma_nodes_view(parts@);
                        lemma_nodes_view_push(out@, p);
                    }
                    out.push(p);
                    assert(nodes_view(parts@).subrange(0, k + 1) =~= nodes_view(parts@).subrange(
                        0,
                        k as int,
                    ).push(node_view(parts@[k as int])));
                    k = k + 1;
                }
                assert(nodes_view(parts@).subrange(0, parts.len() as int) =~= nodes_view(parts@));
                return;
            }
        }
    }
    proof {
        lemma_nodes_view_push(out@, c);
    }
    out.push(c);
}

/// A copy of a tree.
pub fn clone_node(n: &Node) -> (r: Node)
    ensures
        r@ == n@,
    decreases n,
{
    let ghost views = nodes_view(n.children@);
    proof {
        lemma_nodes_view(n.children@);
    }
    let mut out: Vec<Node> = Vec::new();
    let mut i: usize = 0;
    while i < n.children.len()
        invariant
            i <= n.children.len(),
            views == nodes_view(n.children@),
            views.len() == n.children@.len(),
            forall|j: int| 0 <= j < n.children@.len() ==> #[trigger] views[j] == node_view(n.children@[j]),
            nodes_view(out@) == views.subrange(0, i as int),
        decreases n.children.len() - i,
    {
        let c = clone_node(&n.children[i]);
        proof {
            lemma_nodes_view_push(out@, c);
        }
        out.push(c);
        assert(views.subrange(0, i + 1) =~= views.subrange(0, i as int).push(views[i as int]));
        i = i + 1;
    }
    assert(views.subrange(0, n.children.len() as int) =~= views);
    Node { kind: n.kind, attrs: clone_attrs(&n.attrs), children: out }
}

/// `s` with every placeholder turned back into `#`.
pub open spec fn unhide_hashes(s: Seq<char>) -> Seq<char> {
    s.map_values(|c: char| if c == ESCAPED_HASH_PLACEHOLDER { '#' } else { c })
}

/// `s` with each `\#` written as a plain `#`.
pub open spec fn without_hash_escapes(s: Seq<char>) -> Seq<char>
    decreases s.len(),
{
    if s.len() == 0 {
        Seq::empty()
    } else if s.len() >= 2 && s[0] == '\\' && s[1] == '#' {
        seq!['#'] + without_hash_escapes(s.subrange(2, s.len() as int))
    } else {
        seq![s[0]] + without_hash_escapes(s.drop_first())
    }
}

/// Turning the placeholders back into `#` undoes the hiding of escapes: what
/// comes back is the text with each `\#` written as `#`. This holds of text
/// that does not itself hold the placeholder character.
pub proof fn lemma_unhide_undoes_hide(s: Seq<char>)
    requires
        forall|i: int| 0 <= i < s.len() ==> s[i] != ESCAPED_HASH_PLACEHOLDER,
    ensures
        unhide_hashes(hide_escaped_hashes(s)) == without_hash_escapes(s),
    decreases s.len(),
{
    if s.len() == 0 {
        assert(unhide_hashes(Seq::empty()) =~= Seq::empty());
    } else if s.len() >= 2 && s[0] == '\\' && s[1] == '#' {
        let rest = s.subrange(2, s.len() as int);
        lemma_unhide_undoes_hide(rest);
        assert(unhide_hashes(seq![ESCAPED_HASH_PLACEHOLDER] + hide_escaped_hashes(rest))
            =~= seq!['#'] + unhide_hashes(hide_escaped_hashes(rest)));
    } else {
        let rest = s.drop_first();
        lemma_unhide_undoes_hide(rest);
        assert(unhide_hashes(seq![s[0]] + hide_escaped_hashes(rest))
            =~= seq![s[0]] + unhide_hashes(hide_escaped_hashes(rest)));
    }
}

/// `s` with every placeholder turned back into the `\#` it stands for: the
/// text as it was written.
pub open spec fn unhide_verbatim(s: Seq<char>) -> Seq<char>
    decreases s.len(),
{
    if s.len() == 0 {
        Seq::empty()
    } else {
        unhide_verbatim(s.drop_last()) + (if s.last() == ESCAPED_HASH_PLACEHOLDER {
            seq!['\\', '#']
        } else {
            seq![s.last()]
        })
    }
}

/// Whether an attribute holds text as it was written (the literal of code,
/// code blocks, math and HTML blocks, the value of inline HTML and raw
/// output), in which an escaped `\#` stays `\#`; in every other string an
/// escaped `\#` reads as `#`.
pub open spec fn is_verbatim(kind: Kind, key: Key) -> bool {
    key == Key::Literal || (key == Key::Value && (kind == Kind::HtmlInline || kind == Kind::Raw))
}

pub open spec fn opt_unhide(o: Option<Seq<char>>) -> Option<Seq<char>> {
    match o {
        Some(s) => Some(unhide_hashes(s)),
        None => None,
    }
}

/// Turning placeholders back into `\#` distributes over concatenation.
pub proof fn lemma_unhide_verbatim_concat(a: Seq<char>, b: Seq<char>)
    ensures
        unhide_verbatim(a + b) == unhide_verbatim(a) + unhide_verbatim(b),
    decreases b.len(),
{
    if b.len() == 0 {
        assert(a + b =~= a);
        assert(unhide_verbatim(a) + unhide_verbatim(b) =~= unhide_verbatim(a));
    } else {
        lemma_unhide_verbatim_concat(a, b.drop_last());
        assert((a + b).drop_last() =~= a + b.drop_last());
        assert((a + b).last() == b.last());
    }
}

/// Text kept as written comes back as written: turning the placeholders
/// back into `\#` undoes the hiding of escapes. This holds of text that
/// does not itself hold the placeholder character.
pub proof fn lemma_verbatim_undoes_hide(s: Seq<char>)
    requires
        forall|i: int| 0 <= i < s.len() ==> s[i] != ESCAPED_HASH_PLACEHOLDER,
    ensures
        unhide_verbatim(hide_escaped_hashes(s)) == s,
    decreases s.len(),
{
    if s.len() == 0 {
    } else if s.len() >= 2 && s[0] == '\\' && s[1] == '#' {
        let rest = s.subrange(2, s.len() as int);
        lemma_verbatim_undoes_hide(rest);
        lemma_unhide_verbatim_concat(seq![ESCAPED_HASH_PLACEHOLDER], hide_escaped_hashes(rest));
        assert(unhide_verbatim(seq![ESCAPED_HASH_PLACEHOLDER]) =~= seq!['\\', '#']) by {
            let x = seq![ESCAPED_HASH_PLACEHOLDER];
            assert(x.drop_last() =~= Seq::<char>::empty());
            assert(unhide_verbatim(x.drop_last()) == Seq::<char>::empty());
            assert(x.last() == ESCAPED_HASH_PLACEHOLDER);
        }
        assert(s =~= seq!['\\', '#'] + rest);
    } else {
        let rest = s.drop_first();
        lemma_verbatim_undoes_hide(rest);
        lemma_unhide_verbatim_concat(seq![s[0]], hide_escaped_hashes(rest));
        assert(unhide_verbatim(seq![s[0]]) =~= seq![s[0]]) by {
            let x = seq![s[0]];
            assert(x.drop_last() =~= Seq::<char>::empty());
            assert(unhide_verbatim(x.drop_last()) == Seq::<char>::empty());
            assert(x.last() == s[0]);
        }
        assert(s =~= seq![s[0]] + rest);
    }
}

/// An attribute of a node of type `kind` with its placeholders turned back.
pub open spec fn restore_attr(kind: Kind, p: (Key, AttrView)) -> (Key, AttrView) {
    (
        p.0,
        match p.1 {
            AttrView::Str(s) => AttrView::Str(
                if is_verbatim(kind, p.0) {
                    unhide_verbatim(s)
                } else {
                    unhide_hashes(s)
                },
            ),
            AttrView::List(items) => AttrView::List(
                items.map_values(|t: Seq<char>| unhide_hashes(t)),
            ),
            AttrView::Props(ps) => AttrView::Props(
                ps.map_values(
                    |q: (Seq<char>, Option<Seq<char>>)| (unhide_hashes(q.0), opt_unhide(q.1)),
                ),
            ),
            other => other,
        },
    )
}

/// A tree whose strings have their placeholders turned back: into `\#` in
/// text kept as written, into `#` everywhere else.
pub open spec fn restored(n: NodeView) -> NodeView
    decreases n,
{
    NodeView {
        kind: n.kind,
        attrs: n.attrs.map_values(|p: (Key, AttrView)| restore_attr(n.kind, p)),
        children: restored_seq(n.children),
    }
}

pub open spec fn restored_seq(cs: Seq<NodeView>) -> Seq<NodeView>
    decreases cs,
{
    if cs.len() == 0 {
        Seq::empty()
    } else {
        restored_seq(cs.drop_last()).push(restored(cs.last()))
    }
}

/// Each restored sibling is its tree restored.
pub proof fn lemma_restored_seq(cs: Seq<NodeView>)
    ensures
        restored_seq(cs).len() == cs.len(),
        forall|i: int| 0 <= i < cs.len() ==> #[trigger] restored_seq(cs)[i] == restored(cs[i]),
    decreases cs.len(),
{
    if cs.len() > 0 {
        lemma_restored_seq(cs.drop_last());
    }
}

fn unhide(s: &String) -> (r: String)
    ensures
        r@ == unhide_hashes(s@),
{
    let cs = chars_of(s.as_str());
    let mut out: Vec<char> = Vec::new();
    let mut i: usize = 0;
    while i < cs.len()
        invariant
            i <= cs.len(),
            out@.len() == i,
            forall|j: int| 0 <= j < i ==> #[trigger] out@[j] == (if cs@[j] == ESCAPED_HASH_PLACEHOLDER {
                '#'
            } else {
                cs@[j]
            }),
        decreases cs.len() - i,
    {
        if cs[i] == ESCAPED_HASH_PLACEHOLDER {
            out.push('#');
        } else {
            out.push(cs[i]);
        }
        i = i + 1;
    }
    assert(out@ =~= unhide_hashes(s@));
    string_of(&out)
}

fn unhide_written(s: &String) -> (r: String)
    ensures
        r@ == unhide_verbatim(s@),
{
    let cs = chars_of(s.as_str());
    let mut out: Vec<char> = Vec::new();
    let mut i: usize = 0;
    while i < cs.len()
        invariant
            i <= cs.len(),
            out@ == unhide_verbatim(cs@.subrange(0, i as int)),
        decreases cs.len() - i,
    {
        assert(cs@.subrange(0, i + 1).drop_last() =~= cs@.subrange(0, i as int));
        if cs[i] == ESCAPED_HASH_PLACEHOLDER {
            out.push('\\');
            out.push('#');
            assert(out@ =~= unhide_verbatim(cs@.subrange(0, i as int)) + seq!['\\', '#']);
        } else {
            out.push(cs[i]);
            assert(out@ =~= unhide_verbatim(cs@.subrange(0, i as int)) + seq![cs@[i as int]]);
        }
        i = i + 1;
    }
    assert(cs@.subrange(0, cs.len() as int) =~= cs@);
    string_of(&out)
}

/// An attribute value of a node of type `kind`, named `key`, with its
/// placeholders turned back.
fn restore_value(kind: Kind, key: Key, v: &AttrValue) -> (r: AttrValue)
    ensures
        (key, r@) == restore_attr(kind, (key, v@)),
{
    match v {
        AttrValue::Str(s) => if key == Key::Literal || (key == Key::Value && (kind == Kind::HtmlInline
            || kind == Kind::Raw)) {
            AttrValue::Str(unhide_written(s))
        } else {
            AttrValue::Str(unhide(s))
        },
        AttrValue::List(items) => {
            let mut r: Vec<String> = Vec::new();
            let mut i: usize = 0;
            while i < items.len()
                invariant
                    i <= items.len(),
                    r@.len() == i,
                    forall|j: int| 0 <= j < i ==> #[trigger] r@[j]@ == unhide_hashes(items@[j]@),
                decreases items.len() - i,
            {
                r.push(unhide(&items[i]));
                i = i + 1;
            }
            assert(r@.map_values(|t: String| t@) =~= items@.map_values(|t: String| t@).map_values(
                |t: Seq<char>| unhide_hashes(t),
            ));
            AttrValue::List(r)
        },
        AttrValue::Props(ps) => {
            let mut r: Vec<(String, Option<String>)> = Vec::new();
            let mut i: usize = 0;
            while i < ps.len()
                invariant
                    i <= ps.len(),
                    r@.len() == i,
                    forall|j: int|
                        0 <= j < i ==> #[trigger] r@[j].0@ == unhide_hashes(ps@[j].0@) && opt_str_view(
                            r@[j].1,
                        ) == opt_unhide(opt_str_view(ps@[j].1)),
                decreases ps.len() - i,
            {
                let value = match &ps[i].1 {
                    Some(t) => Some(unhide(t)),
                    None => None,
                };
                r.push((unhide(&ps[i].0), value));
                i = i + 1;
            }
            assert(r@.map_values(|q: (String, Option<String>)| (q.0@, opt_str_view(q.1))) =~= ps@.map_values(
                |q: (String, Option<String>)| (q.0@, opt_str_view(q.1)),
            ).map_values(
                |q: (Seq<char>, Option<Seq<char>>)| (unhide_hashes(q.0), opt_unhide(q.1)),
            ));
            AttrValue::Props(r)
        },
        other => clone_attr(other),
    }
}

/// Turns the escaped-hash placeholders in the strings of a tree back: into
/// `\#` in text kept as written (code, math, raw HTML), into `#` elsewhere.
pub fn restore_escaped_hashes(n: &Node) -> (r: Node)
    ensures
        r@ == restored(n@),
    decreases n,
{
    let mut attrs: Vec<(Key, AttrValue)> = Vec::new();
    let mut a: usize = 0;
    let ghost av = attrs_view(n.attrs@);
    while a < n.attrs.len()
        invariant
            a <= n.attrs.len(),
            av == attrs_view(n.attrs@),
            attrs@.len() == a,
            forall|j: int| 0 <= j < a ==> #[trigger] attrs_view(attrs@)[j] == restore_attr(n.kind, av[j]),
        decreases n.attrs.len() - a,
    {
        let key = n.attrs[a].0;
        let value = restore_value(n.kind, key, &n.attrs[a].1);
        let ghost old_attrs = attrs@;
        attrs.push((key, value));
        assert(av[a as int] == (key, n.attrs@[a as int].1@));
        assert(attrs_view(attrs@)[a as int] == restore_attr(n.kind, av[a as int]));
        assert forall|j: int| 0 <= j < a implies #[trigger] attrs_view(attrs@)[j] == restore_attr(
            n.kind,
            av[j],
        ) by {
            assert(attrs@[j] == old_attrs[j]);
            assert(attrs_view(old_attrs)[j] == restore_attr(n.kind, av[j]));
        }
        a = a + 1;
    }
    assert(attrs_view(attrs@) =~= av.map_values(|p: (Key, AttrView)| restore_attr(n.kind, p)));
    let ghost views = nodes_view(n.children@);
    proof {
        lemma_nodes_view(n.children@);
    }
    let mut out: Vec<Node> = Vec::new();
    let mut i: usize = 0;
    while i < n.children.len()
        invariant
            i <= n.children.len(),
            views == nodes_view(n.children@),
            views.len() == n.children@.len(),
            forall|j: int| 0 <= j < n.children@.len() ==> #[trigger] views[j] == node_view(n.children@[j]),
            nodes_view(out@) == restored_seq(views.subrange(0, i as int)),
        decreases n.children.len() - i,
    {
        let c = restore_escaped_hashes(&n.children[i]);
        proof {
            lemma_nodes_view_push(out@, c);
        }
        out.push(c);
        assert(views.subrange(0, i + 1).drop_last() =~= views.subrange(0, i as int));
        i = i + 1;
    }
    assert(views.subrange(0, n.children.len() as int) =~= views);
    Node { kind: n.kind, attrs, children: out }
}

} // verus!
