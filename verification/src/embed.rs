//! Media embed URLs: `url#key=value&flag` carries properties in its fragment.
use vstd::prelude::*;

use crate::ast::opt_str_view;
use crate::text::{chars_of, find_char, index_of, lemma_find_char_found, string_of, sub_string};

verus! {

/// One property of an embed: a key, and its value (`None` for a bare flag).
pub open spec fn prop_of(seg: Seq<char>) -> (Seq<char>, Option<Seq<char>>) {
    match find_char(seg, '=') {
        Some(e) => (seg.subrange(0, e as int), Some(seg.subrange(e + 1 as int, seg.len() as int))),
        None => (seg, None),
    }
}

/// The properties of a fragment: its `&`-separated segments, empty ones left out.
pub open spec fn props_of(frag: Seq<char>) -> Seq<(Seq<char>, Option<Seq<char>>)>
    decreases frag.len(),
{
    match find_char(frag, '&') {
        Some(k) => {
            proof {
                lemma_find_char_found(frag, '&');
            }
            let seg = frag.subrange(0, k as int);
            (if seg.len() == 0 {
                Seq::empty()
            } else {
                seq![prop_of(seg)]
            }) + props_of(frag.subrange(k + 1 as int, frag.len() as int))
        },
        None => if frag.len() == 0 {
            Seq::empty()
        } else {
            seq![prop_of(frag)]
        },
    }
}

/// An embed URL split into the URL without its fragment, and the fragment's properties.
pub open spec fn embed_url(url: Seq<char>) -> (Seq<char>, Seq<(Seq<char>, Option<Seq<char>>)>) {
    match find_char(url, '#') {
        Some(p) => (url.subrange(0, p as int), props_of(url.subrange(p + 1 as int, url.len() as int))),
        None => (url, Seq::empty()),
    }
}

pub open spec fn props_view(v: Seq<(String, Option<String>)>) -> Seq<
    (Seq<char>, Option<Seq<char>>),
> {
    v.map_values(|p: (String, Option<String>)| (p.0@, opt_str_view(p.1)))
}

fn make_prop(v: &Vec<char>, a: usize, b: usize) -> (r: (String, Option<String>))
    requires
        a <= b <= v.len(),
    ensures
        (r.0@, opt_str_view(r.1)) == prop_of(v@.subrange(a as int, b as int)),
{
    let ghost seg = v@.subrange(a as int, b as int);
    match index_of(v, a, b, '=') {
        Some(e) => {
            let key = sub_string(v, a, e);
            let value = sub_string(v, e + 1, b);
            assert(seg.subrange(0, e - a) =~= v@.subrange(a as int, e as int));
            assert(seg.subrange(e - a + 1, seg.len() as int) =~= v@.subrange(e + 1, b as int));
            (key, Some(value))
        },
        None => (sub_string(v, a, b), None),
    }
}

/// Splits an embed URL at its first `#`: the part before it is the URL, and
/// the part after it holds properties `key=value` or bare flags, separated by
/// `&`; empty segments are skipped.
pub fn parse_embed_url(url: &str) -> (r: (String, Vec<(String, Option<String>)>))
    ensures
        r.0@ == embed_url(url@).0,
        props_view(r.1@) == embed_url(url@).1,
{
    let v = chars_of(url);
    let len = v.len();
    match index_of(&v, 0, len, '#') {
        None => {
            assert(v@.subrange(0, len as int) =~= v@);
            (string_of(&v), Vec::new())
        },
        Some(p) => {
            assert(v@.subrange(0, len as int) =~= v@);
            let base = sub_string(&v, 0, p);
            let ghost frag = v@.subrange(p + 1, len as int);
            let mut props: Vec<(String, Option<String>)> = Vec::new();
            let mut start = p + 1;
            loop
                invariant_except_break
                    p + 1 <= start <= len,
                    len == v.len(),
                    frag == v@.subrange(p + 1, len as int),
                    props_view(props@) + props_of(v@.subrange(start as int, len as int))
                        == props_of(frag),
                ensures
                    props_view(props@) == props_of(frag),
                decreases len - start,
            {
                let ghost rest = v@.subrange(start as int, len as int);
                let ghost old_props = props@;
                match index_of(&v, start, len, '&') {
                    Some(k) => {
                        assert(rest.subrange(0, k - start) =~= v@.subrange(start as int, k as int));
                        assert(rest.subrange(k - start + 1, rest.len() as int) =~= v@.subrange(
                            k + 1,
                            len as int,
                        ));
                        if k > start {
                            let prop = make_prop(&v, start, k);
                            props.push(prop);
                            assert(props_view(props@) =~= props_view(old_props).push(
                                prop_of(v@.subrange(start as int, k as int)),
                            ));
                        }
                        assert(props_view(props@) + props_of(v@.subrange(k + 1, len as int))
                            =~= props_of(frag));
                        start = k + 1;
                    },
                    None => {
                        if len > start {
                            let prop = make_prop(&v, start, len);
                            props.push(prop);
                            assert(props_view(props@) =~= props_view(old_props).push(
                                prop_of(v@.subrange(start as int, len as int)),
                            ));
                        }
                        assert(props_view(props@) =~= props_of(frag));
                        break ;
                    },
                }
            }
            (base, props)
        },
    }
}

/// The URL that an embed keeps, followed by `#` and its fragment where it had
/// one, is the URL it was written with; and the kept URL holds no `#`.
pub proof fn lemma_embed_url_split(url: Seq<char>)
    ensures
        find_char(embed_url(url).0, '#') is None,
        match find_char(url, '#') {
            Some(p) => embed_url(url).0 + seq!['#'] + url.subrange(p + 1 as int, url.len() as int)
                == url,
            None => embed_url(url).0 == url,
        },
{
    lemma_find_char_found(url, '#');
    match find_char(url, '#') {
        Some(p) => {
            let base = url.subrange(0, p as int);
            assert(base + seq!['#'] + url.subrange(p + 1 as int, url.len() as int) =~= url);
            lemma_find_char_found(base, '#');
            if let Some(q) = find_char(base, '#') {
                assert(base[q as int] == url[q as int]);
            }
        },
        None => {
            lemma_find_char_found(url, '#');
        },
    }
}

} // verus!
