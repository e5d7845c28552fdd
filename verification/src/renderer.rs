//! Layout primitives shared by the renderers: whitespace-preserving
//! tokenizing, greedy word wrapping, padding, and column-width computation.

use vstd::prelude::*;

use crate::style::{sp_max_width, sp_min_width, HAlign};
use crate::table::{
    lemma_cell_height, lemma_cell_ok, lemma_contents_height_at, lemma_contents_ok_at, sp_cell_at,
    sp_cell_blended, sp_content_height, sp_content_ok, sp_contents_height, sp_table_contents_ok,
    sp_table_height, Content, Table,
};
use crate::renderer::console::{render_console, sp_remap_ok, sp_render_console, Decor};
use crate::renderer::markdown::{render_markdown, sp_render_markdown};

pub mod console;
pub mod markdown;

verus! {

/// Turns a string slice into its characters.
///
/// Relies on `str::chars` and `Iterator::collect`: the characters of the
/// slice, in order. A slice occupies at most `isize::MAX` bytes and a
/// character at least one, so the count is below `usize::MAX`.
#[verifier::external_body]
pub(crate) fn str_chars(s: &str) -> (r: Vec<char>)
    ensures
        r@ == s@,
        r@.len() < usize::MAX,
{
    s.chars().collect()
}

/// Turns characters into an owned string.
///
/// Relies on `Iterator::collect` for `String`: the string of exactly these
/// characters, in order.
#[verifier::external_body]
pub(crate) fn chars_to_string(v: &Vec<char>) -> (r: String)
    ensures
        r@ == v@,
{
    v.iter().collect()
}

/// Copies a character vector.
pub(crate) fn copy_chars(v: &Vec<char>) -> (r: Vec<char>)
    ensures
        r@ == v@,
{
    let mut r: Vec<char> = Vec::new();
    let n = v.len();
    let mut i: usize = 0;
    while i < n
        invariant
            n == v@.len(),
            i <= n,
            r@ == v@.take(i as int),
        decreases n - i,
    {
        r.push(v[i]);
        proof {
            assert(v@.take(i + 1) =~= v@.take(i as int).push(v@[i as int]));
        }
        i += 1;
    }
    proof {
        assert(v@.take(n as int) =~= v@);
    }
    r
}

/// Whether `c` has the White_Space property: the set of characters that
/// `char::is_whitespace` recognizes.
pub open spec fn sp_is_ws(c: char) -> bool {
    ||| c == ' '
    ||| c == '\t'
    ||| c == '\n'
    ||| c == '\u{b}'
    ||| c == '\u{c}'
    ||| c == '\r'
    ||| c == '\u{85}'
    ||| c == '\u{a0}'
    ||| c == '\u{1680}'
    ||| c == '\u{2000}'
    ||| c == '\u{2001}'
    ||| c == '\u{2002}'
    ||| c == '\u{2003}'
    ||| c == '\u{2004}'
    ||| c == '\u{2005}'
    ||| c == '\u{2006}'
    ||| c == '\u{2007}'
    ||| c == '\u{2008}'
    ||| c == '\u{2009}'
    ||| c == '\u{200a}'
    ||| c == '\u{2028}'
    ||| c == '\u{2029}'
    ||| c == '\u{202f}'
    ||| c == '\u{205f}'
    ||| c == '\u{3000}'
}

/// Whether `c` is a whitespace character.
pub(crate) fn is_whitespace(c: char) -> (r: bool)
    ensures
        r == sp_is_ws(c),
{
    c == ' ' || c == '\t' || c == '\n' || c == '\u{b}' || c == '\u{c}' || c == '\r' || c
        == '\u{85}' || c == '\u{a0}' || c == '\u{1680}' || c == '\u{2000}' || c == '\u{2001}' || c
        == '\u{2002}' || c == '\u{2003}' || c == '\u{2004}' || c == '\u{2005}' || c == '\u{2006}'
        || c == '\u{2007}' || c == '\u{2008}' || c == '\u{2009}' || c == '\u{200a}' || c
        == '\u{2028}' || c == '\u{2029}' || c == '\u{202f}' || c == '\u{205f}' || c == '\u{3000}'
}

/// The number of whitespace characters in `s`.
pub open spec fn sp_ws_count(s: Seq<char>) -> nat
    decreases s,
{
    if s.len() == 0 {
        0
    } else {
        sp_ws_count(s.drop_first()) + if sp_is_ws(s.first()) {
            1nat
        } else {
            0nat
        }
    }
}

/// The total number of whitespace characters over all fragments.
pub open spec fn sp_frags_ws(frags: Seq<Seq<char>>) -> nat
    decreases frags,
{
    if frags.len() == 0 {
        0
    } else {
        sp_frags_ws(frags.drop_last()) + sp_ws_count(frags.last())
    }
}

proof fn lemma_ws_count_push(s: Seq<char>, c: char)
    ensures
        sp_ws_count(s.push(c)) == sp_ws_count(s) + if sp_is_ws(c) {
            1nat
        } else {
            0nat
        },
    decreases s,
{
    let t = s.push(c);
    assert(t.len() == s.len() + 1);
    if s.len() == 0 {
        assert(t.first() == c);
        assert(t.drop_first() =~= Seq::<char>::empty());
        assert(sp_ws_count(t.drop_first()) == 0);
        assert(sp_ws_count(t) == sp_ws_count(t.drop_first()) + if sp_is_ws(t.first()) {
            1nat
        } else {
            0nat
        });
    } else {
        assert(t.first() == s.first());
        assert(t.drop_first() =~= s.drop_first().push(c));
        lemma_ws_count_push(s.drop_first(), c);
        assert(sp_ws_count(t) == sp_ws_count(t.drop_first()) + if sp_is_ws(t.first()) {
            1nat
        } else {
            0nat
        });
        assert(sp_ws_count(s) == sp_ws_count(s.drop_first()) + if sp_is_ws(s.first()) {
            1nat
        } else {
            0nat
        });
    }
}

/// The whitespace-preserving splitter, from position `i` onward, given the
/// fragments already produced, the fragment being accumulated, and whether
/// the previous character was whitespace (true at the very start).
///
/// A whitespace character that follows a non-whitespace one ends the current
/// fragment and is itself dropped; any further whitespace is kept as a
/// prefix of the next fragment.
pub open spec fn sp_split_from(
    s: Seq<char>,
    i: int,
    frags: Seq<Seq<char>>,
    buf: Seq<char>,
    prev_ws: bool,
) -> Seq<Seq<char>>
    decreases s.len() - i,
{
    if i < 0 || i >= s.len() {
        frags.push(buf)
    } else {
        let c = s[i];
        if prev_ws || !sp_is_ws(c) {
            sp_split_from(s, i + 1, frags, buf.push(c), sp_is_ws(c))
        } else {
            sp_split_from(s, i + 1, frags.push(buf), Seq::empty(), true)
        }
    }
}

/// The fragments of `s`, split on whitespace while preserving extraneous
/// whitespace that appears after the first separator of each run.
pub open spec fn sp_split_pw(s: Seq<char>) -> Seq<Seq<char>> {
    sp_split_from(s, 0, Seq::empty(), Seq::empty(), true)
}

proof fn lemma_split_from_len(s: Seq<char>, i: int, frags: Seq<Seq<char>>, buf: Seq<char>, prev_ws: bool)
    ensures
        sp_split_from(s, i, frags, buf, prev_ws).len() > frags.len(),
    decreases s.len() - i,
{
    if !(i < 0 || i >= s.len()) {
        let c = s[i];
        if prev_ws || !sp_is_ws(c) {
            lemma_split_from_len(s, i + 1, frags, buf.push(c), sp_is_ws(c));
        } else {
            lemma_split_from_len(s, i + 1, frags.push(buf), Seq::empty(), true);
        }
    }
}

proof fn lemma_split_from_ws(
    s: Seq<char>,
    i: int,
    frags: Seq<Seq<char>>,
    buf: Seq<char>,
    prev_ws: bool,
)
    requires
        0 <= i <= s.len(),
    ensures
        sp_frags_ws(sp_split_from(s, i, frags, buf, prev_ws)) + sp_split_from(
            s,
            i,
            frags,
            buf,
            prev_ws,
        ).len() == sp_frags_ws(frags) + frags.len() + 1 + sp_ws_count(buf) + sp_ws_count(s.skip(i)),
    decreases s.len() - i,
{
    if i >= s.len() {
        assert(sp_split_from(s, i, frags, buf, prev_ws) == frags.push(buf));
        assert(frags.push(buf).drop_last() =~= frags);
        assert(s.skip(i) =~= Seq::<char>::empty());
    } else {
        let c = s[i];
        assert(s.skip(i).first() == c);
        assert(s.skip(i).drop_first() =~= s.skip(i + 1));
        if prev_ws || !sp_is_ws(c) {
            lemma_split_from_ws(s, i + 1, frags, buf.push(c), sp_is_ws(c));
            lemma_ws_count_push(buf, c);
        } else {
            lemma_split_from_ws(s, i + 1, frags.push(buf), Seq::empty(), true);
            assert(frags.push(buf).drop_last() =~= frags);
        }
    }
}

/// The tokenizer's round trip: the whitespace characters of the input are
/// recoverable from its fragments — the whitespace in the fragments plus one
/// dropped separator per fragment boundary is exactly the whitespace of the
/// input.
pub proof fn lemma_split_whitespace_round_trip(s: Seq<char>)
    ensures
        sp_split_pw(s).len() >= 1,
        sp_frags_ws(sp_split_pw(s)) + (sp_split_pw(s).len() - 1) == sp_ws_count(s),
{
    lemma_split_from_len(s, 0, Seq::empty(), Seq::empty(), true);
    lemma_split_from_ws(s, 0, Seq::empty(), Seq::empty(), true);
    assert(s.skip(0) =~= s);
}

/// Splits a character vector by whitespace, preserving extraneous whitespace
/// that appears after the first encountered separator.
fn split_pw_vec(line: &Vec<char>) -> (r: Vec<Vec<char>>)
    ensures
        r.deep_view() == sp_split_pw(line@),
        r@.len() >= 1,
{
    let s = line;
    let n = s.len();
    let mut frags: Vec<Vec<char>> = Vec::new();
    let mut buf: Vec<char> = Vec::new();
    let mut prev_ws = true;
    let mut i: usize = 0;
    proof {
        assert(frags.deep_view() =~~= Seq::<Seq<char>>::empty());
    }
    while i < n
        invariant
            n == s@.len(),
            i <= n,
            sp_split_pw(s@) == sp_split_from(s@, i as int, frags.deep_view(), buf@, prev_ws),
        decreases n - i,
    {
        let c = s[i];
        let ws = is_whitespace(c);
        if prev_ws || !ws {
            buf.push(c);
            prev_ws = ws;
        } else {
            let flushed = buf;
            buf = Vec::new();
            let ghost fv = frags.deep_view();
            frags.push(flushed);
            proof {
                assert(frags.deep_view() =~~= fv.push(flushed@));
            }
            prev_ws = true;
        }
        i += 1;
    }
    let ghost fv = frags.deep_view();
    frags.push(buf);
    proof {
        assert(frags.deep_view() =~~= fv.push(buf@));
        lemma_split_from_len(s@, 0, Seq::empty(), Seq::empty(), true);
    }
    frags
}

/// Splits a string slice by whitespace, while preserving extraneous
/// whitespace that appears after the first encountered separator.
///
/// This splitter has the convenient property that the number of whitespace
/// characters in the input can be deterministically obtained by counting the
/// whitespace characters in the output fragments and adding the number of
/// fragments, less one.
pub fn split_preserving_whitespace(s: &str) -> (r: Vec<String>)
    ensures
        r.deep_view() == sp_split_pw(s@),
        r@.len() >= 1,
{
    let cs = str_chars(s);
    let frags = split_pw_vec(&cs);
    vecs_to_strings(frags)
}

/// Turns each character vector into an owned string.
fn vecs_to_strings(v: Vec<Vec<char>>) -> (r: Vec<String>)
    ensures
        r.deep_view() == v.deep_view(),
        r@.len() == v@.len(),
{
    let n = v.len();
    let mut r: Vec<String> = Vec::new();
    let mut i: usize = 0;
    while i < n
        invariant
            n == v@.len(),
            i <= n,
            r.deep_view() =~~= v.deep_view().take(i as int),
        decreases n - i,
    {
        let ghost rv = r.deep_view();
        r.push(chars_to_string(&v[i]));
        proof {
            assert(r.deep_view() =~~= rv.push(v@[i as int]@));
            assert(v.deep_view().take(i + 1) =~~= v.deep_view().take(i as int).push(
                v.deep_view()[i as int],
            ));
            assert(v.deep_view()[i as int] == v@[i as int]@);
        }
        i += 1;
    }
    proof {
        assert(v.deep_view().take(n as int) =~~= v.deep_view());
    }
    r
}

/// The running state of the greedy wrapper: the output lines flushed so far,
/// the line being accumulated, and its counted width. The counted width can
/// exceed the accumulated line by one when a separating space was counted
/// but, as the last character of a full line, not emitted.
pub ghost struct WrapState {
    pub lines: Seq<Seq<char>>,
    pub buf: Seq<char>,
    pub bc: nat,
}

/// Hard-splits the characters of an over-wide word from position `j` onward,
/// flushing the accumulated line whenever its counted width reaches `width`.
pub open spec fn sp_hard_split(word: Seq<char>, j: int, st: WrapState, width: nat) -> WrapState
    decreases word.len() - j,
{
    if j < 0 || j >= word.len() {
        st
    } else {
        let st1 = if st.bc == width {
            WrapState { lines: st.lines.push(st.buf), buf: Seq::empty(), bc: 0 }
        } else {
            st
        };
        sp_hard_split(
            word,
            j + 1,
            WrapState { lines: st1.lines, buf: st1.buf.push(word[j]), bc: st1.bc + 1 },
            width,
        )
    }
}

/// One for a separating space where the current line is non-empty.
pub open spec fn sp_sep(bc: nat) -> nat {
    if bc > 0 {
        1nat
    } else {
        0nat
    }
}

/// Packs one token onto the wrapper state: a token wider than `width` is
/// hard-split (preceded by a separating space only where one still fits); a
/// token that no longer fits on the current line starts a new one; otherwise
/// it is appended, separated by a space when the line is non-empty.
pub open spec fn sp_wrap_token(st: WrapState, word: Seq<char>, width: nat) -> WrapState {
    let wc = word.len();
    if wc > width {
        let st1 = if 0 < st.bc < width {
            if st.bc + 1 < width {
                WrapState { lines: st.lines, buf: st.buf.push(' '), bc: st.bc + 1 }
            } else {
                WrapState { lines: st.lines, buf: st.buf, bc: st.bc + 1 }
            }
        } else {
            st
        };
        sp_hard_split(word, 0, st1, width)
    } else if st.bc + wc + sp_sep(st.bc) > width {
        WrapState { lines: st.lines.push(st.buf), buf: word, bc: wc }
    } else {
        if st.bc > 0 {
            WrapState { lines: st.lines, buf: st.buf.push(' ') + word, bc: st.bc + 1 + wc }
        } else {
            WrapState { lines: st.lines, buf: st.buf + word, bc: st.bc + wc }
        }
    }
}

/// Packs the tokens from position `t` onward onto the wrapper state.
pub open spec fn sp_wrap_tokens(tokens: Seq<Seq<char>>, t: int, st: WrapState, width: nat) -> WrapState
    decreases tokens.len() - t,
{
    if t < 0 || t >= tokens.len() {
        st
    } else {
        sp_wrap_tokens(tokens, t + 1, sp_wrap_token(st, tokens[t], width), width)
    }
}

/// Wraps one input line, appending its output lines to `acc`. Every input
/// line yields at least one output line, possibly empty.
pub open spec fn sp_wrap_line(acc: Seq<Seq<char>>, line: Seq<char>, width: nat) -> Seq<Seq<char>> {
    let st = sp_wrap_tokens(
        sp_split_pw(line),
        0,
        WrapState { lines: acc, buf: Seq::empty(), bc: 0 },
        width,
    );
    if st.lines.len() == acc.len() || st.bc > 0 {
        st.lines.push(st.buf)
    } else {
        st.lines
    }
}

/// The first position at or after `i` holding a newline, or the length of
/// `s` when there is none.
pub open spec fn sp_find_nl(s: Seq<char>, i: int) -> int
    decreases s.len() - i,
{
    if i < 0 || i >= s.len() {
        s.len() as int
    } else if s[i] == '\n' {
        i
    } else {
        sp_find_nl(s, i + 1)
    }
}

proof fn lemma_find_nl(s: Seq<char>, i: int)
    requires
        0 <= i <= s.len(),
    ensures
        i <= sp_find_nl(s, i) <= s.len(),
        sp_find_nl(s, i) < s.len() ==> s[sp_find_nl(s, i)] == '\n',
        forall|m: int| i <= m < sp_find_nl(s, i) ==> s[m] != '\n',
    decreases s.len() - i,
{
    if i < s.len() && s[i] != '\n' {
        lemma_find_nl(s, i + 1);
    }
}

/// A line with its carriage return stripped, where one precedes the line
/// feed it was split on.
pub open spec fn sp_strip_cr(line: Seq<char>) -> Seq<char> {
    if line.len() > 0 && line.last() == '\r' {
        line.drop_last()
    } else {
        line
    }
}

/// The input lines of `s`: split at line feeds or carriage-return line-feed
/// pairs, with an optional final line ending yielding no further line.
pub open spec fn sp_lines(s: Seq<char>) -> Seq<Seq<char>>
    decreases s.len(),
    via sp_lines_dec
{
    if s.len() == 0 {
        Seq::empty()
    } else {
        let j = sp_find_nl(s, 0);
        if j >= s.len() {
            seq![s]
        } else {
            seq![sp_strip_cr(s.take(j))] + sp_lines(s.skip(j + 1))
        }
    }
}

#[via_fn]
proof fn sp_lines_dec(s: Seq<char>) {
    if s.len() != 0 {
        lemma_find_nl(s, 0);
    }
}

/// Wraps the input lines from position `li` onward, appending the output
/// lines to `acc`.
pub open spec fn sp_wrap_lines(ls: Seq<Seq<char>>, li: int, acc: Seq<Seq<char>>, width: nat) -> Seq<
    Seq<char>,
>
    decreases ls.len() - li,
{
    if li < 0 || li >= ls.len() {
        acc
    } else {
        sp_wrap_lines(ls, li + 1, sp_wrap_line(acc, ls[li], width), width)
    }
}

/// The wrapped lines of `s` at the given width: each newline-delimited input
/// line is tokenized and greedily packed; a token wider than the width is
/// hard-split character by character. The result holds at least one line,
/// possibly empty.
pub open spec fn sp_wrap(s: Seq<char>, width: nat) -> Seq<Seq<char>> {
    let out = sp_wrap_lines(sp_lines(s), 0, Seq::empty(), width);
    if out.len() == 0 {
        seq![Seq::<char>::empty()]
    } else {
        out
    }
}

/// Splits a character vector into its newline-delimited input lines.
fn split_lines(cs: &Vec<char>) -> (r: Vec<Vec<char>>)
    ensures
        r.deep_view() == sp_lines(cs@),
{
    let n = cs.len();
    let mut out: Vec<Vec<char>> = Vec::new();
    let mut pos: usize = 0;
    let mut done = pos >= n;
    proof {
        assert(out.deep_view() =~~= Seq::<Seq<char>>::empty());
        assert(cs@.skip(0) =~= cs@);
        assert(Seq::<Seq<char>>::empty() + sp_lines(cs@) =~~= sp_lines(cs@));
    }
    while !done
        invariant
            n == cs@.len(),
            pos <= n,
            done ==> pos >= n,
            !done ==> pos < n,
            out.deep_view() + sp_lines(cs@.skip(pos as int)) =~~= sp_lines(cs@),
        decreases n - pos + (if done {
            0int
        } else {
            1int
        }),
    {
        let ghost rest = cs@.skip(pos as int);
        // scan for the next newline
        let mut j: usize = pos;
        while j < n && cs[j] != '\n'
            invariant
                n == cs@.len(),
                pos <= j <= n,
                forall|m: int| pos <= m < j ==> cs@[m] != '\n',
            decreases n - j,
        {
            j += 1;
        }
        proof {
            lemma_find_nl(rest, 0);
            let jr = sp_find_nl(rest, 0);
            assert forall|m: int| 0 <= m < j - pos implies rest[m] != '\n' by {
                assert(rest[m] == cs@[pos + m]);
            }
            if j < n {
                assert(rest[j - pos] == cs@[j as int]);
            }
            assert(jr == j - pos) by {
                if jr < j - pos {
                    assert(rest[jr] != '\n');
                } else if jr > j - pos {
                    assert(j - pos < rest.len());
                }
            }
        }
        // copy the line, stripping a carriage return before the line feed
        let mut end = j;
        if j < n && j > pos && cs[j - 1] == '\r' {
            end = j - 1;
        }
        let mut line: Vec<char> = Vec::new();
        let mut k: usize = pos;
        while k < end
            invariant
                n == cs@.len(),
                pos <= k <= end <= n,
                line@ == cs@.subrange(pos as int, k as int),
            decreases end - k,
        {
            line.push(cs[k]);
            proof {
                assert(cs@.subrange(pos as int, k + 1) =~= cs@.subrange(pos as int, k as int).push(
                    cs@[k as int],
                ));
            }
            k += 1;
        }
        proof {
            if j < n {
                assert(rest.take(j - pos) =~= cs@.subrange(pos as int, j as int));
                assert(sp_strip_cr(rest.take(j - pos)) =~= cs@.subrange(pos as int, end as int));
            } else {
                assert(rest =~= cs@.subrange(pos as int, n as int));
                assert(line@ =~= rest);
            }
        }
        let ghost ov = out.deep_view();
        out.push(line);
        proof {
            assert(out.deep_view() =~~= ov.push(line@));
        }
        if j < n {
            proof {
                assert(sp_lines(rest) =~~= seq![line@] + sp_lines(rest.skip(j - pos + 1)));
                assert(rest.skip(j - pos + 1) =~= cs@.skip(j + 1));
                assert(ov.push(line@) + sp_lines(cs@.skip(j + 1)) =~~= ov + sp_lines(rest));
            }
            pos = j + 1;
            if pos >= n {
                done = true;
                proof {
                    assert(sp_lines(cs@.skip(pos as int)) =~~= Seq::<Seq<char>>::empty());
                    assert(out.deep_view() + sp_lines(cs@.skip(pos as int)) =~~= out.deep_view());
                }
            }
        } else {
            proof {
                assert(rest.len() > 0);
                assert(sp_lines(rest) =~~= seq![line@]);
                assert(ov.push(line@) =~~= ov + sp_lines(rest));
            }
            pos = n;
            done = true;
        }
    }
    proof {
        assert(sp_lines(cs@.skip(pos as int)) =~~= Seq::<Seq<char>>::empty());
        assert(out.deep_view() + sp_lines(cs@.skip(pos as int)) =~~= out.deep_view());
    }
    out
}

/// The total number of characters over all fragments.
pub open spec fn sp_frags_chars(frags: Seq<Seq<char>>) -> nat
    decreases frags,
{
    if frags.len() == 0 {
        0
    } else {
        sp_frags_chars(frags.drop_last()) + frags.last().len()
    }
}

proof fn lemma_split_from_chars(
    s: Seq<char>,
    i: int,
    frags: Seq<Seq<char>>,
    buf: Seq<char>,
    prev_ws: bool,
)
    requires
        0 <= i <= s.len(),
    ensures
        sp_frags_chars(sp_split_from(s, i, frags, buf, prev_ws)) + sp_split_from(
            s,
            i,
            frags,
            buf,
            prev_ws,
        ).len() == sp_frags_chars(frags) + frags.len() + 1 + buf.len() + (s.len() - i),
    decreases s.len() - i,
{
    if i >= s.len() {
        assert(frags.push(buf).drop_last() =~= frags);
    } else {
        let c = s[i];
        if prev_ws || !sp_is_ws(c) {
            lemma_split_from_chars(s, i + 1, frags, buf.push(c), sp_is_ws(c));
        } else {
            lemma_split_from_chars(s, i + 1, frags.push(buf), Seq::empty(), true);
            assert(frags.push(buf).drop_last() =~= frags);
        }
    }
}

proof fn lemma_frags_chars_take_step(frags: Seq<Seq<char>>, k: int)
    requires
        0 <= k < frags.len(),
    ensures
        sp_frags_chars(frags.take(k + 1)) == sp_frags_chars(frags.take(k)) + frags[k].len(),
{
    assert(frags.take(k + 1).drop_last() =~= frags.take(k));
    assert(frags.take(k + 1).last() == frags[k]);
}

proof fn lemma_frags_chars_prefix(frags: Seq<Seq<char>>, k: int)
    requires
        0 <= k <= frags.len(),
    ensures
        sp_frags_chars(frags.take(k)) <= sp_frags_chars(frags),
    decreases frags,
{
    if k == frags.len() {
        assert(frags.take(k) =~= frags);
    } else {
        assert(frags.drop_last().take(k) =~= frags.take(k));
        lemma_frags_chars_prefix(frags.drop_last(), k);
    }
}

/// The tokens of a line hold no more characters than the line itself.
proof fn lemma_split_chars_bound(line: Seq<char>)
    ensures
        sp_frags_chars(sp_split_pw(line)) <= line.len(),
        sp_split_pw(line).len() >= 1,
{
    lemma_split_from_chars(line, 0, Seq::empty(), Seq::empty(), true);
    lemma_split_from_len(line, 0, Seq::empty(), Seq::empty(), true);
    assert(line.skip(0) =~= line);
}

/// Wraps one input line, appending its output lines to `out`.
fn wrap_one_line(out: &mut Vec<Vec<char>>, line: &Vec<char>, width: usize)
    requires
        line@.len() < usize::MAX,
    ensures
        final(out).deep_view() == sp_wrap_line(old(out).deep_view(), line@, width as nat),
{
    let tokens = split_pw_vec(line);
    let ghost t_seq = tokens.deep_view();
    let ghost w = width as nat;
    let ghost init = WrapState { lines: old(out).deep_view(), buf: Seq::empty(), bc: 0 };
    let ghost goal = sp_wrap_tokens(t_seq, 0, init, w);
    proof {
        lemma_split_chars_bound(line@);
    }
    let before = out.len();
    let mut buf: Vec<char> = Vec::new();
    let mut bc: usize = 0;
    let nt = tokens.len();
    let mut t: usize = 0;
    while t < nt
        invariant
            line@.len() < usize::MAX,
            w == width as nat,
            init == (WrapState { lines: old(out).deep_view(), buf: Seq::empty(), bc: 0nat }),
            goal == sp_wrap_tokens(t_seq, 0, init, w),
            before == old(out).deep_view().len(),
            nt == tokens@.len(),
            t <= nt,
            tokens.deep_view() == t_seq,
            t_seq == sp_split_pw(line@),
            sp_frags_chars(t_seq) <= line@.len(),
            sp_wrap_tokens(
                t_seq,
                t as int,
                WrapState { lines: out.deep_view(), buf: buf@, bc: bc as nat },
                w,
            ) == goal,
            buf@.len() <= bc,
            width > 0 ==> bc <= width,
            width == 0 ==> bc == buf@.len() && bc <= sp_frags_chars(t_seq.take(t as int)),
        decreases nt - t,
    {
        let ghost st_entry = WrapState { lines: out.deep_view(), buf: buf@, bc: bc as nat };
        let word = &tokens[t];
        let wc = word.len();
        proof {
            assert(tokens.deep_view()[t as int] == tokens@[t as int]@);
            lemma_frags_chars_take_step(t_seq, t as int);
            lemma_frags_chars_prefix(t_seq, t + 1);
            assert(word@.len() <= line@.len());
        }
        if wc > width {
            // too wide to fit on any one line: hard-split it
            if bc > 0 && bc < width {
                bc += 1;
                if bc < width {
                    buf.push(' ');
                }
            }
            let ghost st1 = WrapState { lines: out.deep_view(), buf: buf@, bc: bc as nat };
            proof {
                assert(sp_wrap_token(st_entry, word@, w) == sp_hard_split(word@, 0, st1, w));
            }
            let ghost hs_goal = sp_hard_split(word@, 0, st1, w);
            let mut j: usize = 0;
            while j < wc
                invariant
                    line@.len() < usize::MAX,
                    w == width as nat,
                    wc == word@.len(),
                    wc <= line@.len(),
                    j <= wc,
                    buf@.len() <= bc,
                    width > 0 ==> bc <= width,
                    width == 0 ==> bc == buf@.len() && bc <= sp_frags_chars(
                        t_seq.take(t as int),
                    ) + j,
                    sp_frags_chars(t_seq.take(t as int)) + wc <= sp_frags_chars(t_seq),
                    sp_frags_chars(t_seq) <= line@.len(),
                    sp_hard_split(
                        word@,
                        j as int,
                        WrapState { lines: out.deep_view(), buf: buf@, bc: bc as nat },
                        w,
                    ) == hs_goal,
                decreases wc - j,
            {
                let ghost st_i = WrapState { lines: out.deep_view(), buf: buf@, bc: bc as nat };
                if bc == width {
                    let ghost ov = out.deep_view();
                    let flushed = buf;
                    buf = Vec::new();
                    out.push(flushed);
                    proof {
                        assert(out.deep_view() =~~= ov.push(flushed@));
                    }
                    bc = 0;
                }
                buf.push(word[j]);
                bc += 1;
                proof {
                    let st_flushed = if st_i.bc == w {
                        WrapState { lines: st_i.lines.push(st_i.buf), buf: Seq::empty(), bc: 0 }
                    } else {
                        st_i
                    };
                    let st_next = WrapState {
                        lines: st_flushed.lines,
                        buf: st_flushed.buf.push(word@[j as int]),
                        bc: st_flushed.bc + 1,
                    };
                    assert(out.deep_view() == st_next.lines);
                    assert(buf@ == st_next.buf);
                    assert(bc as nat == st_next.bc);
                    assert(WrapState { lines: out.deep_view(), buf: buf@, bc: bc as nat }
                        == st_next);
                    assert(sp_hard_split(word@, j as int, st_i, w) == sp_hard_split(
                        word@,
                        j + 1,
                        st_next,
                        w,
                    ));
                }
                j += 1;
            }
            proof {
                assert(sp_hard_split(
                    word@,
                    wc as int,
                    WrapState { lines: out.deep_view(), buf: buf@, bc: bc as nat },
                    w,
                ) == WrapState { lines: out.deep_view(), buf: buf@, bc: bc as nat });
                assert(WrapState { lines: out.deep_view(), buf: buf@, bc: bc as nat }
                    == sp_wrap_token(st_entry, word@, w));
            }
        } else {
            let flush = bc > 0 && (bc >= width || wc >= width - bc);
            proof {
                if bc > 0 {
                    assert(sp_sep(st_entry.bc) == 1nat);
                } else {
                    assert(sp_sep(st_entry.bc) == 0nat);
                }
                assert(flush == (st_entry.bc + word@.len() + sp_sep(st_entry.bc) > w));
            }
            if flush {
                // fits on a line of its own, but not on this one
                let ghost ov = out.deep_view();
                let flushed = buf;
                buf = copy_chars(word);
                out.push(flushed);
                proof {
                    assert(out.deep_view() =~~= ov.push(flushed@));
                }
                bc = wc;
                proof {
                    assert(WrapState { lines: out.deep_view(), buf: buf@, bc: bc as nat }
                        == sp_wrap_token(st_entry, word@, w));
                }
            } else {
                // fits on this line
                if bc > 0 {
                    buf.push(' ');
                    bc += 1;
                }
                let ghost mid = buf@;
                let mut k: usize = 0;
                while k < wc
                    invariant
                        wc == word@.len(),
                        k <= wc,
                        buf@ == mid + word@.take(k as int),
                    decreases wc - k,
                {
                    buf.push(word[k]);
                    proof {
                        assert(mid + word@.take(k + 1) =~= (mid + word@.take(k as int)).push(
                            word@[k as int],
                        ));
                    }
                    k += 1;
                }
                proof {
                    assert(word@.take(wc as int) =~= word@);
                    assert(buf@ =~= mid + word@);
                }
                bc = bc + wc;
                proof {
                    if st_entry.bc > 0 {
                        assert(buf@ == st_entry.buf.push(' ') + word@);
                        assert(bc as nat == st_entry.bc + 1 + word@.len());
                    } else {
                        assert(st_entry.buf =~= Seq::<char>::empty() + st_entry.buf);
                        assert(buf@ == st_entry.buf + word@);
                    }
                    assert(WrapState { lines: out.deep_view(), buf: buf@, bc: bc as nat }
                        == sp_wrap_token(st_entry, word@, w));
                }
            }
        }
        proof {
            let st_exit = WrapState { lines: out.deep_view(), buf: buf@, bc: bc as nat };
            assert(st_exit == sp_wrap_token(st_entry, word@, w));
            assert(sp_wrap_tokens(t_seq, t as int, st_entry, w) == sp_wrap_tokens(
                t_seq,
                t + 1,
                st_exit,
                w,
            ));
        }
        t += 1;
    }
    proof {
        assert(sp_wrap_tokens(
            t_seq,
            nt as int,
            WrapState { lines: out.deep_view(), buf: buf@, bc: bc as nat },
            w,
        ) == WrapState { lines: out.deep_view(), buf: buf@, bc: bc as nat });
    }
    if out.len() == before || bc > 0 {
        let ghost ov = out.deep_view();
        out.push(buf);
        proof {
            assert(out.deep_view() =~~= ov.push(buf@));
        }
    }
}

proof fn lemma_lines_len(s: Seq<char>)
    ensures
        forall|k: int|
            0 <= k < sp_lines(s).len() ==> #[trigger] sp_lines(s)[k].len() <= s.len(),
    decreases s.len(),
{
    if s.len() != 0 {
        let j = sp_find_nl(s, 0);
        lemma_find_nl(s, 0);
        if j < s.len() {
            let rest = s.skip(j + 1);
            lemma_lines_len(rest);
            assert forall|k: int|
                0 <= k < sp_lines(s).len() implies #[trigger] sp_lines(s)[k].len() <= s.len() by {
                if k == 0 {
                    assert(sp_lines(s)[0] == sp_strip_cr(s.take(j)));
                } else {
                    assert(sp_lines(s)[k] == sp_lines(rest)[k - 1]);
                }
            }
        }
    }
}

/// Wraps `s` to the given width: each newline-delimited input line is
/// tokenized on whitespace and greedily packed; a token wider than the width
/// is hard-split character by character, with a boundary exactly every
/// `width` characters. The result holds at least one line, possibly empty;
/// a width of zero still terminates.
pub fn wrap(s: &str, width: usize) -> (r: Vec<String>)
    ensures
        r.deep_view() == sp_wrap(s@, width as nat),
        r@.len() >= 1,
{
    let cs = str_chars(s);
    let out = wrap_vec(&cs, width);
    vecs_to_strings(out)
}

/// Wraps the characters of `cs` to the given width.
pub(crate) fn wrap_vec(cs: &Vec<char>, width: usize) -> (r: Vec<Vec<char>>)
    requires
        cs@.len() < usize::MAX,
    ensures
        r.deep_view() == sp_wrap(cs@, width as nat),
        r@.len() >= 1,
{
    let ghost w = width as nat;
    let ls = split_lines(cs);
    let ghost lseq = ls.deep_view();
    proof {
        lemma_lines_len(cs@);
    }
    let mut out: Vec<Vec<char>> = Vec::new();
    let nl = ls.len();
    let mut li: usize = 0;
    proof {
        assert(out.deep_view() =~~= Seq::<Seq<char>>::empty());
    }
    while li < nl
        invariant
            w == width as nat,
            nl == ls@.len(),
            li <= nl,
            ls.deep_view() == lseq,
            lseq == sp_lines(cs@),
            cs@.len() < usize::MAX,
            forall|k: int| 0 <= k < lseq.len() ==> #[trigger] lseq[k].len() <= cs@.len(),
            sp_wrap_lines(lseq, li as int, out.deep_view(), w) == sp_wrap_lines(
                lseq,
                0,
                Seq::empty(),
                w,
            ),
        decreases nl - li,
    {
        let ghost prev = out.deep_view();
        proof {
            assert(ls.deep_view()[li as int] == ls@[li as int]@);
        }
        wrap_one_line(&mut out, &ls[li], width);
        proof {
            assert(out.deep_view() == sp_wrap_line(prev, lseq[li as int], w));
            assert(sp_wrap_lines(lseq, li as int, prev, w) == sp_wrap_lines(
                lseq,
                li + 1,
                out.deep_view(),
                w,
            ));
        }
        li += 1;
    }
    proof {
        assert(sp_wrap_lines(lseq, nl as int, out.deep_view(), w) == out.deep_view());
    }
    if out.len() == 0 {
        let ghost ov = out.deep_view();
        out.push(Vec::new());
        proof {
            assert(out.deep_view() =~~= ov.push(Seq::<char>::empty()));
            assert(out.deep_view() =~~= seq![Seq::<char>::empty()]);
        }
    }
    out
}

/// The character `p`, `n` times over.
pub open spec fn sp_repeat_char(p: char, n: nat) -> Seq<char> {
    Seq::new(n, |i: int| p)
}

/// `s` padded with `p` to the given width under the alignment: a string at
/// least `width` characters long is returned unchanged; centred padding
/// gives the right side the extra character when the padding is odd.
pub open spec fn sp_pad(s: Seq<char>, p: char, width: nat, a: HAlign) -> Seq<char> {
    if s.len() >= width {
        s
    } else {
        let m = (width - s.len()) as nat;
        match a {
            HAlign::Left => s + sp_repeat_char(p, m),
            HAlign::Centred => sp_repeat_char(p, m / 2) + s + sp_repeat_char(p, (m - m / 2) as nat),
            HAlign::Right => sp_repeat_char(p, m) + s,
        }
    }
}

/// Pushes `p` onto `buf`, `n` times over.
pub(crate) fn push_repeat(buf: &mut Vec<char>, p: char, n: usize)
    ensures
        final(buf)@ == old(buf)@ + sp_repeat_char(p, n as nat),
{
    let mut i: usize = 0;
    while i < n
        invariant
            i <= n,
            buf@ == old(buf)@ + sp_repeat_char(p, i as nat),
        decreases n - i,
    {
        buf.push(p);
        proof {
            assert(old(buf)@ + sp_repeat_char(p, (i + 1) as nat) =~= (old(buf)@ + sp_repeat_char(
                p,
                i as nat,
            )).push(p));
        }
        i += 1;
    }
    proof {
        assert(buf@ =~= old(buf)@ + sp_repeat_char(p, n as nat));
    }
}

/// Pushes the characters of `v` onto `buf`.
pub(crate) fn push_chars(buf: &mut Vec<char>, v: &Vec<char>)
    ensures
        final(buf)@ == old(buf)@ + v@,
{
    let n = v.len();
    let mut i: usize = 0;
    while i < n
        invariant
            n == v@.len(),
            i <= n,
            buf@ == old(buf)@ + v@.take(i as int),
        decreases n - i,
    {
        buf.push(v[i]);
        proof {
            assert(old(buf)@ + v@.take(i + 1) =~= (old(buf)@ + v@.take(i as int)).push(
                v@[i as int],
            ));
        }
        i += 1;
    }
    proof {
        assert(v@.take(n as int) =~= v@);
        assert(buf@ =~= old(buf)@ + v@);
    }
}

/// Pads `s` with `p` to the given width under the alignment. A string at
/// least `width` characters long is returned unchanged; centred padding
/// distributes the extra character of an odd padding to the right.
pub fn pad(s: &str, p: char, width: usize, alignment: &HAlign) -> (r: String)
    ensures
        r@ == sp_pad(s@, p, width as nat, *alignment),
{
    let cs = str_chars(s);
    if cs.len() >= width {
        return s.to_owned();
    }
    let m = width - cs.len();
    let mut buf: Vec<char> = Vec::new();
    match alignment {
        HAlign::Left => {
            push_chars(&mut buf, &cs);
            push_repeat(&mut buf, p, m);
            proof {
                assert(buf@ =~= (Seq::<char>::empty() + cs@) + sp_repeat_char(p, m as nat));
                assert(buf@ =~= cs@ + sp_repeat_char(p, m as nat));
            }
        },
        HAlign::Centred => {
            let lf = m / 2;
            push_repeat(&mut buf, p, lf);
            push_chars(&mut buf, &cs);
            push_repeat(&mut buf, p, m - lf);
            proof {
                assert(buf@ =~= sp_repeat_char(p, lf as nat) + cs@ + sp_repeat_char(
                    p,
                    (m - lf) as nat,
                ));
            }
        },
        HAlign::Right => {
            push_repeat(&mut buf, p, m);
            push_chars(&mut buf, &cs);
            proof {
                assert(buf@ =~= sp_repeat_char(p, m as nat) + cs@);
            }
        },
    }
    chars_to_string(&buf)
}

/// Wrapping never returns zero lines, whatever the input and width.
pub proof fn lemma_wrap_never_empty(s: Seq<char>, width: nat)
    ensures
        sp_wrap(s, width).len() >= 1,
{
}

proof fn lemma_split_from_no_ws(s: Seq<char>, i: int, frags: Seq<Seq<char>>, buf: Seq<char>, prev_ws: bool)
    requires
        0 <= i <= s.len(),
        forall|k: int| i <= k < s.len() ==> !sp_is_ws(#[trigger] s[k]),
    ensures
        sp_split_from(s, i, frags, buf, prev_ws) == frags.push(buf + s.skip(i)),
    decreases s.len() - i,
{
    if i >= s.len() {
        assert(buf + s.skip(i) =~= buf);
    } else {
        lemma_split_from_no_ws(s, i + 1, frags, buf.push(s[i]), false);
        assert(buf.push(s[i]) + s.skip(i + 1) =~= buf + s.skip(i));
    }
}

proof fn lemma_hard_split_count(word: Seq<char>, j: int, st: WrapState, w: nat)
    requires
        w >= 1,
        0 <= j <= word.len(),
        st.bc <= w,
    ensures
        j == word.len() ==> sp_hard_split(word, j, st, w) == st,
        j < word.len() ==> {
            let m = word.len() - j;
            let r = sp_hard_split(word, j, st, w);
            &&& r.lines.len() == st.lines.len() + (st.bc + m - 1) / (w as int)
            &&& r.bc == ((st.bc + m - 1) % (w as int)) + 1
            &&& r.bc <= w
        },
    decreases word.len() - j,
{
    if j < word.len() {
        let m = word.len() - j;
        let st1 = if st.bc == w {
            WrapState { lines: st.lines.push(st.buf), buf: Seq::empty(), bc: 0 }
        } else {
            st
        };
        let st2 = WrapState { lines: st1.lines, buf: st1.buf.push(word[j]), bc: st1.bc + 1 };
        lemma_hard_split_count(word, j + 1, st2, w);
        if st.bc == w {
            vstd::arithmetic::div_mod::lemma_hoist_over_denominator(m - 1, 1, w);
            assert((m - 1) / (w as int) + 1 == (m - 1 + w) / (w as int));
            if m == 1 {
                assert(0int / (w as int) == 0 && 0int % (w as int) == 0) by (nonlinear_arith)
                    requires
                        w >= 1,
                ;
            }
            assert((st.bc + m - 1) % (w as int) == (m - 1) % (w as int)) by (nonlinear_arith)
                requires
                    st.bc == w,
                    w >= 1,
                    m >= 1,
            ;
        } else {
            if m == 1 {
                assert((st.bc + m - 1) / (w as int) == 0) by (nonlinear_arith)
                    requires
                        0 <= st.bc < w,
                        m == 1,
                ;
                assert((st.bc + m - 1) % (w as int) == st.bc) by (nonlinear_arith)
                    requires
                        0 <= st.bc < w,
                        m == 1,
                ;
            }
        }
    }
}

/// The number of wrapped lines of a single whitespace-free word at width
/// `w >= 1`: one line when it fits, and one line per `w` characters,
/// rounding up, when it does not.
pub proof fn lemma_wrap_single_word_len(s: Seq<char>, w: nat)
    requires
        w >= 1,
        forall|k: int| 0 <= k < s.len() ==> !sp_is_ws(#[trigger] s[k]),
    ensures
        sp_wrap(s, w).len() == if s.len() <= w {
            1int
        } else {
            1 + (s.len() - 1) / (w as int)
        },
{
    if s.len() == 0 {
        assert(sp_lines(s) == Seq::<Seq<char>>::empty());
        assert(sp_wrap_lines(sp_lines(s), 0, Seq::empty(), w) == Seq::<Seq<char>>::empty());
        assert(sp_wrap(s, w) == seq![Seq::<char>::empty()]);
    } else {
        lemma_find_nl(s, 0);
        let j = sp_find_nl(s, 0);
        if j < s.len() {
            assert(sp_is_ws(s[j]));
            assert(false);
        }
        let ls = sp_lines(s);
        assert(ls == seq![s]);
        lemma_split_from_no_ws(s, 0, Seq::empty(), Seq::empty(), true);
        assert(s.skip(0) =~= s);
        assert(Seq::<char>::empty() + s =~= s);
        let tokens = sp_split_pw(s);
        assert(tokens == Seq::<Seq<char>>::empty().push(s));
        assert(tokens[0] == s);
        assert(tokens.len() == 1);
        let init = WrapState { lines: Seq::<Seq<char>>::empty(), buf: Seq::empty(), bc: 0 };
        let st = sp_wrap_tokens(tokens, 0, init, w);
        assert(st == sp_wrap_tokens(tokens, 1, sp_wrap_token(init, s, w), w));
        assert(st == sp_wrap_token(init, s, w));
        assert(ls[0] == s);
        assert(sp_wrap_lines(ls, 0, Seq::empty(), w) == sp_wrap_lines(
            ls,
            1,
            sp_wrap_line(Seq::empty(), s, w),
            w,
        ));
        assert(sp_wrap_lines(ls, 0, Seq::empty(), w) == sp_wrap_line(Seq::empty(), s, w));
        if s.len() <= w {
            assert(st == (WrapState { lines: Seq::<Seq<char>>::empty(), buf: Seq::empty() + s, bc: s.len() }));
            assert(sp_wrap_line(Seq::empty(), s, w) == st.lines.push(st.buf));
            assert(sp_wrap(s, w).len() == 1);
        } else {
            assert(st == sp_hard_split(s, 0, init, w));
            lemma_hard_split_count(s, 0, init, w);
            assert(st.lines.len() == (s.len() - 1) / (w as int));
            assert(st.bc >= 1);
            let out = sp_wrap_line(Seq::empty(), s, w);
            assert(out == st.lines.push(st.buf));
            assert(out.len() == (s.len() - 1) / (w as int) + 1);
            assert(out.len() >= 1);
            assert(sp_wrap(s, w) == out);
        }
    }
}

/// For a single whitespace-free word, the number of wrapped lines never
/// grows as the width grows: wrapping at a wider width yields at most as
/// many lines.
pub proof fn lemma_wrap_single_word_monotonic(s: Seq<char>, w1: nat, w2: nat)
    requires
        1 <= w1 <= w2,
        forall|k: int| 0 <= k < s.len() ==> !sp_is_ws(#[trigger] s[k]),
    ensures
        sp_wrap(s, w2).len() <= sp_wrap(s, w1).len(),
{
    lemma_wrap_single_word_len(s, w1);
    lemma_wrap_single_word_len(s, w2);
    if s.len() > w2 {
        vstd::arithmetic::div_mod::lemma_div_is_ordered_by_denominator(
            s.len() - 1,
            w1 as int,
            w2 as int,
        );
    }
}

/// A hint passed to a nested render pass.
#[derive(Debug, Clone, Copy, PartialEq, Eq, Structural)]
pub enum RenderHint {
    /// The table is rendered as the content of an enclosing table's cell:
    /// ANSI styling is disabled, while borders and layout are kept.
    Nested,
}

/// Whether the hints mark a nested render pass.
pub open spec fn sp_has_nested(hints: Seq<RenderHint>) -> bool {
    exists|i: int| 0 <= i < hints.len() && hints[i] == RenderHint::Nested
}

/// Whether the hints mark a nested render pass.
pub fn has_nested(hints: &[RenderHint]) -> (r: bool)
    ensures
        r == sp_has_nested(hints@),
{
    let n = hints.len();
    let mut i: usize = 0;
    while i < n
        invariant
            n == hints@.len(),
            i <= n,
            forall|j: int| 0 <= j < i ==> hints@[j] != RenderHint::Nested,
        decreases n - i,
    {
        if matches!(hints[i], RenderHint::Nested) {
            proof {
                assert(hints@[i as int] == RenderHint::Nested);
            }
            return true;
        }
        i += 1;
    }
    false
}

/// The renderer a nested table is resolved with: the console renderer with
/// its glyph set, or the plain-markup renderer.
pub enum RendererKind {
    Console(Decor),
    Markdown,
}

/// Whether the renderer's configuration is one the renderer can draw with:
/// a console glyph set must keep every realizable line combination
/// realizable under its remapping.
pub open spec fn sp_rk_ok(rk: RendererKind) -> bool {
    match rk {
        RendererKind::Console(d) => sp_remap_ok(d),
        RendererKind::Markdown => true,
    }
}

/// The text a cell's content resolves to: label text as it is, computed
/// text as produced, a nested table as its rendering under the same
/// renderer, and a composite as the concatenation of its parts.
pub open spec fn sp_resolve(c: Content, rk: RendererKind) -> Seq<char>
    decreases sp_content_height(c), 0int, 0int,
{
    match c {
        Content::Label(s) => s@,
        Content::Computed(p) => p.spec_produce(),
        Content::Nested(t) => match rk {
            RendererKind::Console(d) => sp_render_console(t, d, true),
            RendererKind::Markdown => sp_render_markdown(t),
        },
        Content::Composite(parts) => sp_resolve_list(parts@, rk),
    }
}

/// The concatenated resolution of a sequence of content parts.
pub open spec fn sp_resolve_list(s: Seq<Content>, rk: RendererKind) -> Seq<char>
    decreases sp_contents_height(s), 1int, s.len(),
{
    if s.len() == 0 {
        Seq::empty()
    } else {
        sp_resolve_list(s.drop_last(), rk) + sp_resolve(s.last(), rk)
    }
}

/// The text the cell at a coordinate resolves to; a missing cell resolves
/// to the empty string.
pub open spec fn sp_cell_resolved(t: Table, col: int, row: int, rk: RendererKind) -> Seq<char>
    decreases sp_table_height(t), 2int, 0int,
    via sp_cell_resolved_dec
{
    match sp_cell_at(t, col, row) {
        Some(cell) => sp_resolve(cell.sp_data(), rk),
        None => Seq::empty(),
    }
}

#[via_fn]
proof fn sp_cell_resolved_dec(t: Table, col: int, row: int, rk: RendererKind) {
    if sp_cell_at(t, col, row) is Some {
        lemma_cell_height(t, col, row);
    }
}

/// The length of the longest line in a sequence of lines, or zero when
/// there is none.
pub open spec fn sp_max_line_len(lines: Seq<Seq<char>>) -> nat
    decreases lines,
{
    if lines.len() == 0 {
        0
    } else {
        let rest = sp_max_line_len(lines.drop_last());
        let last = lines.last().len();
        if last > rest {
            last
        } else {
            rest
        }
    }
}

/// The widest physical line of a cell's resolved content, before wrapping.
pub open spec fn sp_cell_widest(t: Table, col: int, row: int, rk: RendererKind) -> nat
    decreases sp_table_height(t), 3int, 0int,
{
    sp_max_line_len(sp_lines(sp_cell_resolved(t, col, row, rk)))
}

/// The width one cell asks of its column: its widest unwrapped line,
/// clamped between the blended minimum- and maximum-width constraints.
pub open spec fn sp_cell_width_one(t: Table, col: int, row: int, rk: RendererKind) -> usize
    decreases sp_table_height(t), 4int, 0int,
{
    let styles = sp_cell_blended(t, col, row);
    let min_width = sp_min_width(styles);
    let max_width = sp_max_width(styles);
    let widest = sp_cell_widest(t, col, row, rk);
    let lower = if min_width as nat > widest {
        min_width as nat
    } else {
        widest
    };
    if lower > max_width as nat {
        max_width
    } else {
        lower as usize
    }
}

/// The greatest width asked of column `col` by the rows before `row`.
pub open spec fn sp_col_width_upto(t: Table, col: int, row: int, rk: RendererKind) -> usize
    decreases sp_table_height(t), 5int, row,
{
    if row <= 0 {
        0
    } else {
        let rest = sp_col_width_upto(t, col, row - 1, rk);
        let this = sp_cell_width_one(t, col, row - 1, rk);
        if this > rest {
            this
        } else {
            rest
        }
    }
}

/// The width of column `col`: the greatest clamped width asked by any row,
/// or zero for a table without rows.
pub open spec fn sp_col_width(t: Table, col: int, rk: RendererKind) -> usize
    decreases sp_table_height(t), 6int, 0int,
{
    sp_col_width_upto(t, col, t.sp_rows().len() as int, rk)
}

/// Resolves a cell's content to its text. A nested table is rendered by the
/// same renderer; a computed cell's producer is invoked exactly once.
pub fn resolve_content(c: &Content, rk: &RendererKind) -> (r: String)
    requires
        sp_content_ok(*c),
        sp_rk_ok(*rk),
    ensures
        r@ == sp_resolve(*c, *rk),
    decreases sp_content_height(*c), 0int, 0int,
{
    match c {
        Content::Label(s) => s.clone(),
        Content::Computed(p) => p.produce(),
        Content::Nested(t) => match rk {
            RendererKind::Console(d) => render_console(t, d, true),
            RendererKind::Markdown => render_markdown(t),
        },
        Content::Composite(parts) => {
            let mut buf = String::new();
            let n = parts.len();
            let mut i: usize = 0;
            while i < n
                invariant
                    c is Composite,
                    c->Composite_0 == *parts,
                    sp_content_ok(*c),
                    sp_rk_ok(*rk),
                    n == parts@.len(),
                    i <= n,
                    buf@ == sp_resolve_list(parts@.take(i as int), *rk),
                decreases n - i,
            {
                proof {
                    lemma_contents_height_at(parts@, i as int);
                    lemma_contents_ok_at(parts@, i as int);
                }
                let part = resolve_content(&parts[i], rk);
                buf.append(part.as_str());
                proof {
                    assert(parts@.take(i + 1).drop_last() =~= parts@.take(i as int));
                    assert(parts@.take(i + 1).last() == parts@[i as int]);
                }
                i += 1;
            }
            proof {
                assert(parts@.take(n as int) =~= parts@);
            }
            buf
        },
    }
}

/// The length of the longest of the newline-delimited lines of `cs`.
fn max_line_len(cs: &Vec<char>) -> (r: usize)
    ensures
        r == sp_max_line_len(sp_lines(cs@)),
{
    let ls = split_lines(cs);
    let ghost lseq = ls.deep_view();
    let n = ls.len();
    let mut best: usize = 0;
    let mut i: usize = 0;
    while i < n
        invariant
            n == ls@.len(),
            i <= n,
            ls.deep_view() == lseq,
            lseq == sp_lines(cs@),
            best == sp_max_line_len(lseq.take(i as int)),
        decreases n - i,
    {
        let len = ls[i].len();
        proof {
            assert(lseq.take(i + 1).drop_last() =~= lseq.take(i as int));
            assert(lseq.take(i + 1).last() == lseq[i as int]);
            assert(ls.deep_view()[i as int] == ls@[i as int]@);
        }
        if len > best {
            best = len;
        }
        i += 1;
    }
    proof {
        assert(lseq.take(n as int) =~= lseq);
    }
    best
}

impl Table {
    /// The width one cell asks of its column.
    fn cell_width_one(&self, col: usize, row: usize, rk: &RendererKind) -> (r: usize)
        requires
            sp_table_contents_ok(*self),
            sp_rk_ok(*rk),
        ensures
            r == sp_cell_width_one(*self, col as int, row as int, *rk),
        decreases sp_table_height(*self), 4int, 0int,
    {
        let styles = self.cell_blended_styles(col, row);
        let min_width = styles.min_width_or_default();
        let max_width = styles.max_width_or_default();
        let resolved: String = match self.cell_data(col, row) {
            Some(content) => {
                proof {
                    lemma_cell_ok(*self, col as int, row as int);
                    lemma_cell_height(*self, col as int, row as int);
                }
                resolve_content(content, rk)
            },
            None => String::new(),
        };
        let cs = str_chars(resolved.as_str());
        let widest = max_line_len(&cs);
        let lower = if min_width > widest {
            min_width
        } else {
            widest
        };
        if lower > max_width {
            max_width
        } else {
            lower
        }
    }

    /// The width of column `col`: the widest unwrapped line over all rows,
    /// clamped per cell between the blended minimum- and maximum-width
    /// constraints.
    pub fn col_width(&self, col: usize, rk: &RendererKind) -> (r: usize)
        requires
            sp_table_contents_ok(*self),
            sp_rk_ok(*rk),
        ensures
            r == sp_col_width(*self, col as int, *rk),
        decreases sp_table_height(*self), 6int, 0int,
    {
        let n = self.num_rows();
        let mut best: usize = 0;
        let mut row: usize = 0;
        while row < n
            invariant
                sp_table_contents_ok(*self),
                sp_rk_ok(*rk),
                n == self.sp_rows().len(),
                row <= n,
                best == sp_col_width_upto(*self, col as int, row as int, *rk),
            decreases n - row,
        {
            let this = self.cell_width_one(col, row, rk);
            if this > best {
                best = this;
            }
            row += 1;
        }
        best
    }

    /// The widths of all columns.
    pub fn col_widths(&self, rk: &RendererKind) -> (r: Vec<usize>)
        requires
            sp_table_contents_ok(*self),
            sp_rk_ok(*rk),
        ensures
            r@.len() == self.sp_cols().len(),
            forall|c: int|
                0 <= c < r@.len() ==> r@[c] == sp_col_width(*self, c, *rk),
        decreases sp_table_height(*self), 7int, 0int,
    {
        let n = self.num_cols();
        let mut r: Vec<usize> = Vec::new();
        let mut col: usize = 0;
        while col < n
            invariant
                sp_table_contents_ok(*self),
                sp_rk_ok(*rk),
                n == self.sp_cols().len(),
                col <= n,
                r@.len() == col,
                forall|c: int| 0 <= c < col ==> r@[c] == sp_col_width(*self, c, *rk),
            decreases n - col,
        {
            let width = self.col_width(col, rk);
            r.push(width);
            col += 1;
        }
        r
    }
}

/// A render-time failure.
#[derive(Debug, Clone, Copy, PartialEq, Eq, Structural)]
pub enum RenderError {
    /// The table has no rows or no columns.
    Empty,
}

/// Whether two character vectors hold the same characters.
pub(crate) fn chars_eq(a: &Vec<char>, b: &Vec<char>) -> (r: bool)
    ensures
        r == (a@ == b@),
{
    let n = a.len();
    if n != b.len() {
        proof {
            assert(a@.len() != b@.len());
        }
        return false;
    }
    let mut i: usize = 0;
    while i < n
        invariant
            n == a@.len(),
            n == b@.len(),
            i <= n,
            forall|j: int| 0 <= j < i ==> a@[j] == b@[j],
        decreases n - i,
    {
        if a[i] != b[i] {
            return false;
        }
        i += 1;
    }
    proof {
        assert(a@ =~= b@);
    }
    true
}

/// Pushes the characters of a string slice onto `buf`.
pub(crate) fn push_lit(buf: &mut Vec<char>, s: &str)
    ensures
        final(buf)@ == old(buf)@ + s@,
{
    let cs = str_chars(s);
    push_chars(buf, &cs);
}

} // verus!
