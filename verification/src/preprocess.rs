//! What the body goes through before it is parsed: whitespace-only lines
//! outside code fences become `<br />`, and `\#` is hidden from the parser.
use vstd::prelude::*;

use crate::hashtags::ESCAPED_HASH_PLACEHOLDER;
use crate::text::{
    char_is_whitespace, chars_of, find_char, index_of, is_white_space, string_of, sub_chars,
};

verus! {

/// `t` without one trailing carriage return.
pub open spec fn strip_cr(t: Seq<char>) -> Seq<char> {
    if t.len() > 0 && t.last() == '\r' {
        t.drop_last()
    } else {
        t
    }
}

/// The lines of `s`, as `str::lines` gives them: split at `\n`, a `\r`
/// before the `\n` removed, and no empty line after a final `\n`.
pub open spec fn lines_of(s: Seq<char>) -> Seq<Seq<char>>
    decreases s.len(),
{
    if s.len() == 0 {
        Seq::empty()
    } else {
        match find_char(s, '\n') {
            Some(k) => {
                proof {
                    crate::text::lemma_find_char_found(s, '\n');
                }
                seq![strip_cr(s.subrange(0, k as int))] + lines_of(
                    s.subrange(k + 1 as int, s.len() as int),
                )
            },
            None => seq![s],
        }
    }
}

pub open spec fn is_space_or_tab(c: char) -> bool {
    c == ' ' || c == '\t'
}

/// `s` without its leading spaces and tabs.
pub open spec fn trim_space_tab(s: Seq<char>) -> Seq<char>
    decreases s.len(),
{
    if s.len() > 0 && is_space_or_tab(s[0]) {
        trim_space_tab(s.drop_first())
    } else {
        s
    }
}

/// How many times `c` repeats at the start of `s`.
pub open spec fn leading(s: Seq<char>, c: char) -> nat
    decreases s.len(),
{
    if s.len() > 0 && s[0] == c {
        1 + leading(s.drop_first(), c)
    } else {
        0
    }
}

/// The state of the line scan: whether a code fence is open, and its
/// character and length.
pub struct Fence {
    pub open: bool,
    pub ch: char,
    pub len: nat,
}

pub open spec fn br_line() -> Seq<char> {
    seq!['<', 'b', 'r', ' ', '/', '>']
}

/// One line of the scan: the new state, and what the line becomes.
pub open spec fn line_step(st: Fence, line: Seq<char>) -> (Fence, Seq<char>) {
    let stripped = trim_space_tab(line);
    if st.open {
        let close_len = leading(stripped, st.ch);
        let after = stripped.subrange(close_len as int, stripped.len() as int);
        if close_len >= st.len && forall|i: int| 0 <= i < after.len() ==> is_space_or_tab(after[i]) {
            (Fence { open: false, ..st }, line)
        } else {
            (st, line)
        }
    } else {
        let backticks = leading(stripped, '`');
        let tildes = leading(stripped, '~');
        if backticks >= 3 && find_char(
            stripped.subrange(backticks as int, stripped.len() as int),
            '`',
        ) is None {
            (Fence { open: true, ch: '`', len: backticks }, line)
        } else if tildes >= 3 {
            (Fence { open: true, ch: '~', len: tildes }, line)
        } else if forall|i: int| 0 <= i < line.len() ==> is_white_space(line[i]) {
            (st, br_line())
        } else {
            (st, line)
        }
    }
}

/// The lines, each as the scan leaves it, starting in state `st`.
pub open spec fn process_lines(ls: Seq<Seq<char>>, st: Fence) -> Seq<Seq<char>>
    decreases ls.len(),
{
    if ls.len() == 0 {
        Seq::empty()
    } else {
        let (next, out) = line_step(st, ls[0]);
        seq![out] + process_lines(ls.drop_first(), next)
    }
}

/// The lines joined with `\n`.
pub open spec fn join_lines(ls: Seq<Seq<char>>) -> Seq<char>
    decreases ls.len(),
{
    if ls.len() == 0 {
        Seq::empty()
    } else if ls.len() == 1 {
        ls[0]
    } else {
        join_lines(ls.drop_last()) + seq!['\n'] + ls.last()
    }
}

pub open spec fn initial_fence() -> Fence {
    Fence { open: false, ch: '`', len: 0 }
}

/// The body with its whitespace-only lines outside code fences replaced by `<br />`.
pub open spec fn preprocessed(s: Seq<char>) -> Seq<char> {
    join_lines(process_lines(lines_of(s), initial_fence()))
}

/// `s` with each `\#` (taken left to right) replaced by the placeholder.
pub open spec fn hide_escaped_hashes(s: Seq<char>) -> Seq<char>
    decreases s.len(),
{
    if s.len() == 0 {
        Seq::empty()
    } else if s.len() >= 2 && s[0] == '\\' && s[1] == '#' {
        seq![ESCAPED_HASH_PLACEHOLDER] + hide_escaped_hashes(s.subrange(2, s.len() as int))
    } else {
        seq![s[0]] + hide_escaped_hashes(s.drop_first())
    }
}

/// The text that the Markdown parser is given for a body.
pub open spec fn prepared(s: Seq<char>) -> Seq<char> {
    hide_escaped_hashes(preprocessed(s))
}

proof fn lemma_trim(s: Seq<char>, k: int)
    requires
        0 <= k <= s.len(),
        forall|j: int| 0 <= j < k ==> is_space_or_tab(#[trigger] s[j]),
        k < s.len() ==> !is_space_or_tab(s[k]),
    ensures
        trim_space_tab(s) == s.subrange(k, s.len() as int),
    decreases k,
{
    if k > 0 {
        lemma_trim(s.drop_first(), k - 1);
        assert(s.drop_first().subrange(k - 1, s.len() - 1) =~= s.subrange(k, s.len() as int));
    } else {
        assert(s.subrange(0, s.len() as int) =~= s);
    }
}

proof fn lemma_leading(s: Seq<char>, c: char, k: int)
    requires
        0 <= k <= s.len(),
        forall|j: int| 0 <= j < k ==> #[trigger] s[j] == c,
        k < s.len() ==> s[k] != c,
    ensures
        leading(s, c) == k,
    decreases k,
{
    if k > 0 {
        lemma_leading(s.drop_first(), c, k - 1);
    }
}

proof fn lemma_leading_run(s: Seq<char>, c: char)
    ensures
        leading(s, c) <= s.len(),
        forall|j: int| 0 <= j < leading(s, c) ==> #[trigger] s[j] == c,
        leading(s, c) < s.len() ==> s[leading(s, c) as int] != c,
    decreases s.len(),
{
    if s.len() > 0 && s[0] == c {
        lemma_leading_run(s.drop_first(), c);
        assert forall|j: int| 0 <= j < leading(s, c) implies #[trigger] s[j] == c by {
            if j > 0 {
                assert(s[j] == s.drop_first()[j - 1]);
            }
        }
    }
}

proof fn lemma_trim_first(s: Seq<char>)
    ensures
        trim_space_tab(s).len() > 0 ==> !is_space_or_tab(trim_space_tab(s)[0]),
        forall|j: int|
            0 <= j < trim_space_tab(s).len() ==> exists|k: int|
                0 <= k < s.len() && #[trigger] trim_space_tab(s)[j] == s[k],
    decreases s.len(),
{
    if s.len() > 0 && is_space_or_tab(s[0]) {
        lemma_trim_first(s.drop_first());
        assert forall|j: int| 0 <= j < trim_space_tab(s).len() implies exists|k: int|
            0 <= k < s.len() && #[trigger] trim_space_tab(s)[j] == s[k] by {
            let k = choose|k: int| 0 <= k < s.drop_first().len() && trim_space_tab(s.drop_first())[j]
                == s.drop_first()[k];
            assert(s.drop_first()[k] == s[k + 1]);
        }
    } else {
        assert forall|j: int| 0 <= j < trim_space_tab(s).len() implies exists|k: int|
            0 <= k < s.len() && #[trigger] trim_space_tab(s)[j] == s[k] by {
            assert(trim_space_tab(s)[j] == s[j]);
        }
    }
}

/// Whether `t` starts with three `c`.
pub open spec fn starts_with_three(t: Seq<char>, c: char) -> bool {
    t.len() >= 3 && t[0] == c && t[1] == c && t[2] == c
}

/// Outside a code fence: a fence opens only on a line that starts, after
/// spaces and tabs, with three backticks or three tildes, and always on one
/// that starts with three tildes; a line of white space alone becomes
/// `<br />`; every other line is kept as it is.
pub proof fn lemma_fence_opening(st: Fence, line: Seq<char>)
    requires
        !st.open,
    ensures
        line_step(st, line).0.open ==> starts_with_three(trim_space_tab(line), '`')
            || starts_with_three(trim_space_tab(line), '~'),
        starts_with_three(trim_space_tab(line), '~') ==> line_step(st, line).0.open,
        (forall|i: int| 0 <= i < line.len() ==> is_white_space(#[trigger] line[i])) ==> line_step(
            st,
            line,
        ) == (st, br_line()),
        !(forall|i: int| 0 <= i < line.len() ==> is_white_space(#[trigger] line[i]))
            ==> line_step(st, line).1 == line,
{
    let t = trim_space_tab(line);
    lemma_leading_run(t, '`');
    lemma_leading_run(t, '~');
    lemma_trim_first(line);
    if starts_with_three(t, '~') {
        assert(leading(t, '`') == 0);
        lemma_leading(t, '~', leading(t, '~') as int);
        assert(t[0] == '~' && t[1] == '~' && t[2] == '~');
        if leading(t, '~') < 3 {
            assert(t[leading(t, '~') as int] != '~');
        }
    }
    if forall|i: int| 0 <= i < line.len() ==> is_white_space(#[trigger] line[i]) {
        if t.len() > 0 {
            let k = choose|k: int| 0 <= k < line.len() && t[0] == line[k];
            assert(is_white_space(line[k]));
            assert(t[0] != '`' && t[0] != '~');
        }
        assert(leading(t, '`') == 0);
        assert(leading(t, '~') == 0);
    }
}

/// Inside an open code fence every line is kept as it is.
pub proof fn lemma_fence_keeps_lines(st: Fence, line: Seq<char>)
    requires
        st.open,
    ensures
        line_step(st, line).1 == line,
{
}

/// Where the leading spaces and tabs of `v` end.
fn skip_space_tab(v: &Vec<char>) -> (k: usize)
    ensures
        k <= v.len(),
        trim_space_tab(v@) == v@.subrange(k as int, v.len() as int),
{
    let mut k: usize = 0;
    while k < v.len() && (v[k] == ' ' || v[k] == '\t')
        invariant
            k <= v.len(),
            forall|j: int| 0 <= j < k ==> is_space_or_tab(#[trigger] v@[j]),
        decreases v.len() - k,
    {
        k = k + 1;
    }
    proof {
        lemma_trim(v@, k as int);
    }
    k
}

/// How many times `c` repeats in `v` from `from` on.
fn count_leading(v: &Vec<char>, from: usize, c: char) -> (n: usize)
    requires
        from <= v.len(),
    ensures
        from + n <= v.len(),
        n == leading(v@.subrange(from as int, v.len() as int), c),
{
    let ghost s = v@.subrange(from as int, v.len() as int);
    let mut k = from;
    while k < v.len() && v[k] == c
        invariant
            from <= k <= v.len(),
            s == v@.subrange(from as int, v.len() as int),
            forall|j: int| 0 <= j < k - from ==> #[trigger] s[j] == c,
        decreases v.len() - k,
    {
        k = k + 1;
    }
    proof {
        lemma_leading(s, c, k - from);
    }
    k - from
}

/// What the scan does with one line: the new state (`open`, `ch`, `len`),
/// and whether the line becomes `<br />` (it is kept otherwise).
fn step(open: bool, ch: char, len: usize, line: &Vec<char>) -> (r: (bool, char, usize, bool))
    ensures
        ({
            let (next, out) = line_step(Fence { open, ch, len: len as nat }, line@);
            &&& next == Fence { open: r.0, ch: r.1, len: r.2 as nat }
            &&& out == if r.3 {
                br_line()
            } else {
                line@
            }
        }),
{
    let s = skip_space_tab(line);
    let ghost stripped = line@.subrange(s as int, line.len() as int);
    if open {
        let close_len = count_leading(line, s, ch);
        let after = s + close_len;
        let mut k = after;
        while k < line.len() && (line[k] == ' ' || line[k] == '\t')
            invariant
                after <= k <= line.len(),
                forall|j: int| after <= j < k ==> is_space_or_tab(#[trigger] line@[j]),
            decreases line.len() - k,
        {
            k = k + 1;
        }
        let ghost rest = stripped.subrange(close_len as int, stripped.len() as int);
        assert(rest =~= line@.subrange(after as int, line.len() as int));
        if close_len >= len && k == line.len() {
            assert forall|i: int| 0 <= i < rest.len() implies is_space_or_tab(rest[i]) by {
                assert(rest[i] == line@[after + i]);
            }
            (false, ch, len, false)
        } else {
            if close_len >= len {
                assert(!is_space_or_tab(rest[k - after]));
            }
            (open, ch, len, false)
        }
    } else {
        let backticks = count_leading(line, s, '`');
        let tildes = count_leading(line, s, '~');
        let bt_end = s + backticks;
        assert(stripped.subrange(backticks as int, stripped.len() as int) =~= line@.subrange(
            bt_end as int,
            line.len() as int,
        ));
        if backticks >= 3 && index_of(line, bt_end, line.len(), '`').is_none() {
            (true, '`', backticks, false)
        } else if tildes >= 3 {
            (true, '~', tildes, false)
        } else {
            let mut k: usize = 0;
            let mut white = true;
            while k < line.len()
                invariant
                    k <= line.len(),
                    white == forall|j: int| 0 <= j < k ==> is_white_space(#[trigger] line@[j]),
                decreases line.len() - k,
            {
                let w = char_is_whitespace(line[k]);
                white = white && w;
                k = k + 1;
            }
            (open, ch, len, white)
        }
    }
}

/// The first line of `v` from `pos` on, and where the rest begins.
fn next_line(v: &Vec<char>, pos: usize) -> (r: (Vec<char>, usize))
    requires
        pos < v.len(),
    ensures
        pos < r.1 <= v.len(),
        lines_of(v@.subrange(pos as int, v.len() as int)) == seq![r.0@] + lines_of(
            v@.subrange(r.1 as int, v.len() as int),
        ),
{
    let len = v.len();
    let ghost rest = v@.subrange(pos as int, len as int);
    let (line_end, next) = match index_of(v, pos, len, '\n') {
        Some(k) => (k, k + 1),
        None => (len, len),
    };
    let end = if line_end > pos && next > line_end && v[line_end - 1] == '\r' {
        line_end - 1
    } else {
        line_end
    };
    let line = sub_chars(v, pos, end);
    proof {
        if next > line_end {
            assert(rest.subrange(0, line_end - pos) =~= v@.subrange(pos as int, line_end as int));
            assert(rest.subrange(line_end - pos + 1, rest.len() as int) =~= v@.subrange(
                next as int,
                len as int,
            ));
            let raw = v@.subrange(pos as int, line_end as int);
            if end < line_end {
                assert(line@ =~= raw.drop_last());
            } else {
                assert(line@ =~= raw);
            }
        } else {
            assert(line@ =~= rest);
            assert(v@.subrange(next as int, len as int) =~= Seq::<char>::empty());
            assert(lines_of(rest) =~= seq![line@] + lines_of(v@.subrange(next as int, len as int)));
        }
    }
    (line, next)
}

/// Appends a line to joined lines: after a `\n` unless it is the first.
fn push_line(out: &mut Vec<char>, first: bool, line: &Vec<char>, br: bool, Ghost(done): Ghost<Seq<Seq<char>>>)
    requires
        old(out)@ == join_lines(done),
        first == (done.len() == 0),
    ensures
        final(out)@ == join_lines(done.push(if br {
            br_line()
        } else {
            line@
        })),
{
    let ghost out_line = if br {
        br_line()
    } else {
        line@
    };
    let ghost old_out = out@;
    if !first {
        out.push('\n');
    }
    let ghost sep_out = out@;
    if br {
        out.push('<');
        out.push('b');
        out.push('r');
        out.push(' ');
        out.push('/');
        out.push('>');
    } else {
        let mut copy = sub_chars(line, 0, line.len());
        assert(line@.subrange(0, line.len() as int) =~= line@);
        out.append(&mut copy);
    }
    assert(out@ =~= sep_out + out_line);
    let ghost np = done.push(out_line);
    assert(np.drop_last() =~= done);
    if first {
        assert(out@ =~= out_line);
    } else {
        assert(out@ =~= join_lines(done) + seq!['\n'] + out_line);
    }
}

/// Replaces each line outside a code fence that holds nothing but Unicode
/// white space (empty lines too) with `<br />`; lines inside code fences,
/// and the fence lines themselves, are kept as they are.
pub fn preprocess_body(input: &str) -> (r: Vec<char>)
    ensures
        r@ == preprocessed(input@),
{
    let v = chars_of(input);
    let len = v.len();
    let mut out: Vec<char> = Vec::new();
    let ghost mut produced: Seq<Seq<char>> = Seq::empty();
    let mut open = false;
    let mut ch = '`';
    let mut flen: usize = 0;
    let mut pos: usize = 0;
    let ghost all = process_lines(lines_of(v@), initial_fence());
    assert(v@.subrange(0, len as int) =~= v@);
    while pos < len
        invariant
            pos <= len,
            len == v.len(),
            all == process_lines(lines_of(v@), initial_fence()),
            produced + process_lines(
                lines_of(v@.subrange(pos as int, len as int)),
                Fence { open, ch, len: flen as nat },
            ) == all,
            out@ == join_lines(produced),
            (pos == 0) == (produced.len() == 0),
        decreases len - pos,
    {
        let ghost st = Fence { open, ch, len: flen as nat };
        let (line, next) = next_line(&v, pos);
        let (o2, c2, l2, br) = step(open, ch, flen, &line);
        let ghost out_line = if br {
            br_line()
        } else {
            line@
        };
        proof {
            let ls = lines_of(v@.subrange(pos as int, len as int));
            assert(ls[0] == line@);
            assert(ls.drop_first() =~= lines_of(v@.subrange(next as int, len as int)));
            assert(produced.push(out_line) + process_lines(
                lines_of(v@.subrange(next as int, len as int)),
                Fence { open: o2, ch: c2, len: l2 as nat },
            ) =~= produced + process_lines(ls, st));
        }
        push_line(&mut out, pos == 0, &line, br, Ghost(produced));
        proof {
            produced = produced.push(out_line);
        }
        open = o2;
        ch = c2;
        flen = l2;
        pos = next;
    }
    assert(lines_of(v@.subrange(pos as int, len as int)) =~= Seq::<Seq<char>>::empty());
    assert(produced =~= all);
    out
}

/// Hides each `\#` from the parser, replacing it with the placeholder.
pub fn hide_escapes(v: &Vec<char>) -> (r: Vec<char>)
    ensures
        r@ == hide_escaped_hashes(v@),
{
    let mut out: Vec<char> = Vec::new();
    let mut i: usize = 0;
    assert(v@.subrange(0, v.len() as int) =~= v@);
    assert(out@ + hide_escaped_hashes(v@) =~= hide_escaped_hashes(v@));
    while i < v.len()
        invariant
            i <= v.len(),
            out@ + hide_escaped_hashes(v@.subrange(i as int, v.len() as int)) == hide_escaped_hashes(
                v@,
            ),
        decreases v.len() - i,
    {
        let ghost rest = v@.subrange(i as int, v.len() as int);
        if i + 1 < v.len() && v[i] == '\\' && v[i + 1] == '#' {
            out.push(ESCAPED_HASH_PLACEHOLDER);
            assert(rest.subrange(2, rest.len() as int) =~= v@.subrange(i + 2, v.len() as int));
            i = i + 2;
        } else {
            out.push(v[i]);
            assert(rest.drop_first() =~= v@.subrange(i + 1, v.len() as int));
            i = i + 1;
        }
    }
    assert(v@.subrange(0, v.len() as int) =~= v@);
    assert(out@ =~= out@ + hide_escaped_hashes(v@.subrange(i as int, v.len() as int)));
    out
}

/// The text the Markdown parser is given for a body: the body preprocessed,
/// with each `\#` hidden.
pub fn prepare_body(input: &str) -> (r: String)
    ensures
        r@ == prepared(input@),
{
    let p = preprocess_body(input);
    string_of(&hide_escapes(&p))
}

/// The scan keeps every line, except that a whitespace-only line may become `<br />`.
pub proof fn lemma_process_lines_keeps_lines(ls: Seq<Seq<char>>, st: Fence)
    ensures
        process_lines(ls, st).len() == ls.len(),
        forall|i: int|
            0 <= i < ls.len() ==> {
                ||| #[trigger] process_lines(ls, st)[i] == ls[i]
                ||| (process_lines(ls, st)[i] == br_line() && forall|j: int|
                    0 <= j < ls[i].len() ==> is_white_space(#[trigger] ls[i][j]))
            },
    decreases ls.len(),
{
    if ls.len() > 0 {
        let (next, out) = line_step(st, ls[0]);
        lemma_process_lines_keeps_lines(ls.drop_first(), next);
        assert forall|i: int| 0 <= i < ls.len() implies {
            ||| #[trigger] process_lines(ls, st)[i] == ls[i]
            ||| (process_lines(ls, st)[i] == br_line() && forall|j: int|
                0 <= j < ls[i].len() ==> is_white_space(#[trigger] ls[i][j]))
        } by {
            if i > 0 {
                assert(process_lines(ls, st)[i] == process_lines(ls.drop_first(), next)[i - 1]);
                assert(ls[i] == ls.drop_first()[i - 1]);
            }
        }
    }
}

/// A line of the body that holds nothing but white space, outside a code
/// fence, is given to the parser as `<br />`; every other line is kept.
pub proof fn lemma_preprocessed_lines(s: Seq<char>)
    ensures
        ({
            let ls = lines_of(s);
            let out = process_lines(ls, initial_fence());
            &&& preprocessed(s) == join_lines(out)
            &&& out.len() == ls.len()
            &&& forall|i: int|
                0 <= i < ls.len() ==> {
                    ||| #[trigger] out[i] == ls[i]
                    ||| (out[i] == br_line() && forall|j: int|
                        0 <= j < ls[i].len() ==> is_white_space(#[trigger] ls[i][j]))
                }
        }),
{
    lemma_process_lines_keeps_lines(lines_of(s), initial_fence());
}

proof fn lemma_hide_first(s: Seq<char>)
    requires
        s.len() > 0,
        s[0] != '#',
    ensures
        hide_escaped_hashes(s).len() > 0,
        hide_escaped_hashes(s)[0] != '#',
{
}

/// No `\#` is left for the parser: after hiding, a backslash is never
/// followed by `#`.
pub proof fn lemma_no_escaped_hash_left(s: Seq<char>)
    ensures
        forall|i: int|
            0 <= i < hide_escaped_hashes(s).len() - 1 ==> !(#[trigger] hide_escaped_hashes(s)[i]
                == '\\' && hide_escaped_hashes(s)[i + 1] == '#'),
    decreases s.len(),
{
    let h = hide_escaped_hashes(s);
    if s.len() == 0 {
    } else if s.len() >= 2 && s[0] == '\\' && s[1] == '#' {
        let t = s.subrange(2, s.len() as int);
        lemma_no_escaped_hash_left(t);
        assert forall|i: int| 0 <= i < h.len() - 1 implies !(#[trigger] h[i] == '\\' && h[i + 1]
            == '#') by {
            if i > 0 {
                assert(h[i] == hide_escaped_hashes(t)[i - 1]);
                assert(h[i + 1] == hide_escaped_hashes(t)[i]);
            }
        }
    } else {
        let t = s.drop_first();
        lemma_no_escaped_hash_left(t);
        assert forall|i: int| 0 <= i < h.len() - 1 implies !(#[trigger] h[i] == '\\' && h[i + 1]
            == '#') by {
            if i > 0 {
                assert(h[i] == hide_escaped_hashes(t)[i - 1]);
                assert(h[i + 1] == hide_escaped_hashes(t)[i]);
            } else if s[0] == '\\' {
                if t.len() > 0 {
                    assert(t[0] == s[1]);
                    lemma_hide_first(t);
                }
            }
        }
    }
}

} // verus!
