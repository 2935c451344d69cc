//! A minimal HTML to plain text conversion that keeps verification codes
//! intact: `<script>`/`<style>` blocks are dropped, block-level tags become a
//! space (a word boundary), other tags are removed (so `<b>482</b><b>913</b>`
//! reads `482913`), a few common entities are decoded and white space is
//! collapsed and trimmed.

use vstd::prelude::*;

use crate::parser::{char_matches, lit_at, match_lit};
use crate::text::{
    chars_of, find_char, find_char_from, is_white_space, string_from_chars, trim, trim_chars, trim_end,
    trim_start, white_end, white_run_end,
    white_space,
};

verus! {

/* ---------- shared scanning specs ---------- */

/// The first index at or after `i` where `lit` occurs, or `t.len()`.
pub open spec fn find_lit(t: Seq<char>, i: int, lit: Seq<char>) -> int
    decreases t.len() - i,
{
    if i < 0 || i >= t.len() {
        t.len() as int
    } else if lit_at(t, i, lit) {
        i
    } else {
        find_lit(t, i + 1, lit)
    }
}

/* ---------- stage 1: <script>/<style> blocks ---------- */

pub open spec fn lit_script_open() -> Seq<char> {
    seq!['<', 's', 'c', 'r', 'i', 'p', 't']
}

pub open spec fn lit_script_close() -> Seq<char> {
    seq!['<', '/', 's', 'c', 'r', 'i', 'p', 't', '>']
}

pub open spec fn lit_style_open() -> Seq<char> {
    seq!['<', 's', 't', 'y', 'l', 'e']
}

pub open spec fn lit_style_close() -> Seq<char> {
    seq!['<', '/', 's', 't', 'y', 'l', 'e', '>']
}

/// End of a block `open ... > ... close` starting at `p`: the opening tag runs
/// to its first `>`, the block to the first `close` after that.
pub open spec fn block_end(t: Seq<char>, p: int, open: Seq<char>, close: Seq<char>) -> Option<int> {
    if lit_at(t, p, open) {
        let g = find_char(t, p + open.len(), '>');
        if g < t.len() {
            let q = find_lit(t, g + 1, close);
            if q < t.len() {
                Some(q + close.len())
            } else {
                None
            }
        } else {
            None
        }
    } else {
        None
    }
}

/// End of a `<script ...>...</script>` or `<style ...>...</style>` block at `p`
/// (tag names case-insensitive).
pub open spec fn script_style_end(t: Seq<char>, p: int) -> Option<int> {
    match block_end(t, p, lit_script_open(), lit_script_close()) {
        Some(e) => Some(e),
        None => block_end(t, p, lit_style_open(), lit_style_close()),
    }
}

/// Stage 1 from position `p`: every block replaced by one space.
pub open spec fn strip_blocks(t: Seq<char>, p: int) -> Seq<char>
    decreases t.len() - p,
{
    if p < 0 || p >= t.len() {
        Seq::empty()
    } else {
        match script_style_end(t, p) {
            Some(e) => if p < e <= t.len() {
                seq![' '] + strip_blocks(t, e)
            } else {
                Seq::empty()
            },
            None => seq![t[p]] + strip_blocks(t, p + 1),
        }
    }
}

/* ---------- stage 2: block-level tags ---------- */

/// The block-level tag names (the `h` headings are handled apart).
pub open spec fn block_tag_names() -> Seq<Seq<char>> {
    seq![
        seq!['p'],
        seq!['d', 'i', 'v'],
        seq!['b', 'r'],
        seq!['h', 'r'],
        seq!['t', 'r'],
        seq!['t', 'd'],
        seq!['t', 'h'],
        seq!['l', 'i'],
        seq!['u', 'l'],
        seq!['o', 'l'],
        seq!['t', 'a', 'b', 'l', 'e'],
        seq!['b', 'l', 'o', 'c', 'k', 'q', 'u', 'o', 't', 'e'],
        seq!['s', 'e', 'c', 't', 'i', 'o', 'n'],
        seq!['a', 'r', 't', 'i', 'c', 'l', 'e'],
        seq!['h', 'e', 'a', 'd', 'e', 'r'],
        seq!['f', 'o', 'o', 't', 'e', 'r'],
    ]
}

/// A block-level tag name (or `h1`..`h6`) starts at `q`.
pub open spec fn block_name_at(t: Seq<char>, q: int) -> bool {
    ||| exists|k: int| 0 <= k < block_tag_names().len() && #[trigger] lit_at(t, q, block_tag_names()[k])
    ||| (lit_at(t, q, seq!['h']) && q + 1 < t.len() && 0x31 <= (t[q + 1] as u32) && (t[q + 1] as u32) <= 0x36)
}

/// End of a block-level tag `<name ...>` or `</name ...>` starting at `p`.
pub open spec fn block_tag_end(t: Seq<char>, p: int) -> Option<int> {
    if 0 <= p && p + 1 < t.len() && t[p] == '<' {
        let q = if t[p + 1] == '/' { p + 2 } else { p + 1 };
        let g = find_char(t, q, '>');
        if block_name_at(t, q) && g < t.len() {
            Some(g + 1)
        } else {
            None
        }
    } else {
        None
    }
}

/// Stage 2 from position `p`: every block-level tag replaced by one space.
pub open spec fn space_block_tags(t: Seq<char>, p: int) -> Seq<char>
    decreases t.len() - p,
{
    if p < 0 || p >= t.len() {
        Seq::empty()
    } else {
        match block_tag_end(t, p) {
            Some(e) => if p < e <= t.len() {
                seq![' '] + space_block_tags(t, e)
            } else {
                Seq::empty()
            },
            None => seq![t[p]] + space_block_tags(t, p + 1),
        }
    }
}

/* ---------- stage 3: remaining tags ---------- */

/// End of a tag `<...>` (at least one character inside) starting at `p`.
pub open spec fn tag_end(t: Seq<char>, p: int) -> Option<int> {
    if 0 <= p && p + 1 < t.len() && t[p] == '<' && t[p + 1] != '>' {
        let g = find_char(t, p + 1, '>');
        if g < t.len() {
            Some(g + 1)
        } else {
            None
        }
    } else {
        None
    }
}

/// Stage 3 from position `p`: every remaining tag removed.
pub open spec fn remove_tags(t: Seq<char>, p: int) -> Seq<char>
    decreases t.len() - p,
{
    if p < 0 || p >= t.len() {
        Seq::empty()
    } else {
        match tag_end(t, p) {
            Some(e) => if p < e <= t.len() {
                remove_tags(t, e)
            } else {
                Seq::empty()
            },
            None => seq![t[p]] + remove_tags(t, p + 1),
        }
    }
}

/* ---------- stage 4: entities ---------- */

/// `s` with every occurrence of `pat` (scanning left to right, without
/// overlap) replaced by `rep`, from position `p` on.
pub open spec fn replace_from(s: Seq<char>, p: int, pat: Seq<char>, rep: Seq<char>) -> Seq<char>
    decreases s.len() - p,
{
    if p < 0 || p >= s.len() {
        Seq::empty()
    } else if pat.len() > 0 && p + pat.len() <= s.len() && s.subrange(p, p + pat.len()) == pat {
        rep + replace_from(s, p + pat.len(), pat, rep)
    } else {
        seq![s[p]] + replace_from(s, p + 1, pat, rep)
    }
}

pub open spec fn replace_all(s: Seq<char>, pat: Seq<char>, rep: Seq<char>) -> Seq<char> {
    replace_from(s, 0, pat, rep)
}

/// The entity decoding, one entity after the other in this order.
pub open spec fn decode_entities(s: Seq<char>) -> Seq<char> {
    let a = replace_all(s, seq!['&', 'n', 'b', 's', 'p', ';'], seq![' ']);
    let b = replace_all(a, seq!['&', 'a', 'm', 'p', ';'], seq!['&']);
    let c = replace_all(b, seq!['&', 'l', 't', ';'], seq!['<']);
    let d = replace_all(c, seq!['&', 'g', 't', ';'], seq!['>']);
    let e = replace_all(d, seq!['&', 'q', 'u', 'o', 't', ';'], seq!['"']);
    replace_all(e, seq!['&', '#', '3', '9', ';'], seq!['\''])
}

/* ---------- stage 5: white space ---------- */

/// Every run of white space from position `p` on replaced by one space.
pub open spec fn collapse_ws(t: Seq<char>, p: int) -> Seq<char>
    decreases t.len() - p,
{
    if p < 0 || p >= t.len() {
        Seq::empty()
    } else if is_white_space(t[p]) {
        if p < white_run_end(t, p) <= t.len() {
            seq![' '] + collapse_ws(t, white_run_end(t, p))
        } else {
            Seq::empty()
        }
    } else {
        seq![t[p]] + collapse_ws(t, p + 1)
    }
}

/// The plain text of an HTML fragment.
pub open spec fn html_text(html: Seq<char>) -> Seq<char> {
    let a = strip_blocks(html, 0);
    let b = space_block_tags(a, 0);
    let c = remove_tags(b, 0);
    let d = decode_entities(c);
    trim(collapse_ws(d, 0))
}

/* ---------- the shape of the text ---------- */

/// The only white space is single spaces.
pub open spec fn single_spaced(s: Seq<char>) -> bool {
    &&& forall|i: int| 0 <= i < s.len() && is_white_space(#[trigger] s[i]) ==> s[i] == ' '
    &&& forall|i: int| 0 < i < s.len() && is_white_space(#[trigger] s[i]) ==> !is_white_space(s[i - 1])
}

/// No white space at either end.
pub open spec fn unpadded(s: Seq<char>) -> bool {
    s.len() > 0 ==> !is_white_space(s[0]) && !is_white_space(s.last())
}

proof fn lemma_white_run_end(t: Seq<char>, p: int)
    ensures
        white_run_end(t, p) >= p,
        !(0 <= white_run_end(t, p) < t.len() && is_white_space(t[white_run_end(t, p)])),
    decreases t.len() - p,
{
    if 0 <= p < t.len() && is_white_space(t[p]) {
        lemma_white_run_end(t, p + 1);
    }
}

proof fn lemma_collapse_ws_shape(t: Seq<char>, p: int)
    ensures
        single_spaced(collapse_ws(t, p)),
        collapse_ws(t, p).len() > 0 && is_white_space(collapse_ws(t, p)[0]) ==> 0 <= p < t.len()
            && is_white_space(t[p]),
    decreases t.len() - p,
{
    let r = collapse_ws(t, p);
    if 0 <= p < t.len() {
        if is_white_space(t[p]) {
            let w = white_run_end(t, p);
            lemma_white_run_end(t, p);
            if p < w <= t.len() {
                lemma_collapse_ws_shape(t, w);
                let c = collapse_ws(t, w);
                assert(r == seq![' '] + c);
                assert forall|i: int| 0 <= i < r.len() && is_white_space(#[trigger] r[i]) implies r[i] == ' ' by {
                    if i > 0 {
                        assert(r[i] == c[i - 1]);
                    }
                }
                assert forall|i: int| 0 < i < r.len() && is_white_space(#[trigger] r[i]) implies !is_white_space(
                    r[i - 1],
                ) by {
                    assert(r[i] == c[i - 1]);
                    if i > 1 {
                        assert(r[i - 1] == c[i - 2]);
                    }
                }
            }
        } else {
            lemma_collapse_ws_shape(t, p + 1);
            let c = collapse_ws(t, p + 1);
            assert(r == seq![t[p]] + c);
            assert forall|i: int| 0 <= i < r.len() && is_white_space(#[trigger] r[i]) implies r[i] == ' ' by {
                if i > 0 {
                    assert(r[i] == c[i - 1]);
                }
            }
            assert forall|i: int| 0 < i < r.len() && is_white_space(#[trigger] r[i]) implies !is_white_space(
                r[i - 1],
            ) by {
                assert(r[i] == c[i - 1]);
                if i > 1 {
                    assert(r[i - 1] == c[i - 2]);
                }
            }
        }
    }
}

proof fn lemma_trim_start_suffix(s: Seq<char>) -> (k: int)
    ensures
        0 <= k <= s.len(),
        trim_start(s) == s.subrange(k, s.len() as int),
        trim_start(s).len() > 0 ==> !is_white_space(trim_start(s)[0]),
    decreases s.len(),
{
    if s.len() > 0 && is_white_space(s[0]) {
        let k = lemma_trim_start_suffix(s.drop_first());
        assert(s.drop_first().subrange(k, s.drop_first().len() as int) =~= s.subrange(k + 1, s.len() as int));
        k + 1
    } else {
        assert(s.subrange(0, s.len() as int) =~= s);
        0
    }
}

proof fn lemma_trim_end_prefix(s: Seq<char>) -> (k: int)
    ensures
        0 <= k <= s.len(),
        trim_end(s) == s.subrange(0, k),
        trim_end(s).len() > 0 ==> !is_white_space(trim_end(s).last()),
    decreases s.len(),
{
    if s.len() > 0 && is_white_space(s.last()) {
        let k = lemma_trim_end_prefix(s.drop_last());
        assert(s.drop_last().subrange(0, k) =~= s.subrange(0, k));
        k
    } else {
        assert(s.subrange(0, s.len() as int) =~= s);
        s.len() as int
    }
}

proof fn lemma_single_spaced_subrange(s: Seq<char>, a: int, b: int)
    requires
        single_spaced(s),
        0 <= a <= b <= s.len(),
    ensures
        single_spaced(s.subrange(a, b)),
{
    let r = s.subrange(a, b);
    assert forall|i: int| 0 <= i < r.len() && is_white_space(#[trigger] r[i]) implies r[i] == ' ' by {
        assert(r[i] == s[a + i]);
    }
    assert forall|i: int| 0 < i < r.len() && is_white_space(#[trigger] r[i]) implies !is_white_space(r[i - 1]) by {
        assert(r[i] == s[a + i]);
        assert(r[i - 1] == s[a + i - 1]);
    }
}

/// The plain text of HTML has no white space at either end and none but
/// single spaces inside.
pub proof fn lemma_html_text_is_normalized(html: Seq<char>)
    ensures
        single_spaced(html_text(html)),
        unpadded(html_text(html)),
{
    let a = strip_blocks(html, 0);
    let b = space_block_tags(a, 0);
    let c = remove_tags(b, 0);
    let d = decode_entities(c);
    let x = collapse_ws(d, 0);
    lemma_collapse_ws_shape(d, 0);
    let k1 = lemma_trim_start_suffix(x);
    let y = trim_start(x);
    lemma_single_spaced_subrange(x, k1, x.len() as int);
    let k2 = lemma_trim_end_prefix(y);
    lemma_single_spaced_subrange(y, 0, k2);
    let z = trim_end(y);
    assert(z == trim(x));
    if z.len() > 0 {
        assert(z[0] == y[0]);
    }
}

/* ---------- block tags separate words ---------- */

/// `s` is a non-empty word of plain text: no white space and none of `<`,
/// `>` and `&`.
pub open spec fn plain_word(s: Seq<char>) -> bool {
    &&& s.len() > 0
    &&& forall|i: int|
        0 <= i < s.len() ==> (#[trigger] s[i] as u32) != 0x3c && (s[i] as u32) != 0x3e && (s[i] as u32)
            != 0x26 && !is_white_space(s[i])
}

/// `n` is one of the block-level tag names: p, div, br, hr, tr, td, th, li,
/// ul, ol, table, blockquote, section, article, header, footer, h1 to h6.
pub open spec fn listed_block_name(n: Seq<char>) -> bool {
    ||| n == seq!['p']
    ||| n == seq!['d', 'i', 'v']
    ||| n == seq!['b', 'r']
    ||| n == seq!['h', 'r']
    ||| n == seq!['t', 'r']
    ||| n == seq!['t', 'd']
    ||| n == seq!['t', 'h']
    ||| n == seq!['l', 'i']
    ||| n == seq!['u', 'l']
    ||| n == seq!['o', 'l']
    ||| n == seq!['t', 'a', 'b', 'l', 'e']
    ||| n == seq!['b', 'l', 'o', 'c', 'k', 'q', 'u', 'o', 't', 'e']
    ||| n == seq!['s', 'e', 'c', 't', 'i', 'o', 'n']
    ||| n == seq!['a', 'r', 't', 'i', 'c', 'l', 'e']
    ||| n == seq!['h', 'e', 'a', 'd', 'e', 'r']
    ||| n == seq!['f', 'o', 'o', 't', 'e', 'r']
    ||| n == seq!['h', '1']
    ||| n == seq!['h', '2']
    ||| n == seq!['h', '3']
    ||| n == seq!['h', '4']
    ||| n == seq!['h', '5']
    ||| n == seq!['h', '6']
}

/// The tag `<n>`, or `</n>` when `closing`.
pub open spec fn tag_text(n: Seq<char>, closing: bool) -> Seq<char> {
    (if closing { seq!['<', '/'] } else { seq!['<'] }) + n + seq!['>']
}

/// What a listed name is made of, and that the conversion knows it.
#[verifier::spinoff_prover]
#[verifier::rlimit(60)]
proof fn lemma_listed_block_name(n: Seq<char>)
    requires
        listed_block_name(n),
    ensures
        n.len() >= 1,
        forall|j: int|
            0 <= j < n.len() ==> (0x61 <= (#[trigger] n[j] as u32) && (n[j] as u32) <= 0x7a) || (0x31 <= (
            n[j] as u32) && (n[j] as u32) <= 0x36),
        n.len() >= 2 && n[0] == 's' ==> n[1] == 'e',
        n[0] != '/',
        forall|t: Seq<char>, q: int| lit_at(t, q, n) ==> #[trigger] block_name_at(t, q),
{
    let b = block_tag_names();
    if n == seq!['p'] {
        assert(b[0] =~= n);
    } else if n == seq!['d', 'i', 'v'] {
        assert(b[1] =~= n);
    } else if n == seq!['b', 'r'] {
        assert(b[2] =~= n);
    } else if n == seq!['h', 'r'] {
        assert(b[3] =~= n);
    } else if n == seq!['t', 'r'] {
        assert(b[4] =~= n);
    } else if n == seq!['t', 'd'] {
        assert(b[5] =~= n);
    } else if n == seq!['t', 'h'] {
        assert(b[6] =~= n);
    } else if n == seq!['l', 'i'] {
        assert(b[7] =~= n);
    } else if n == seq!['u', 'l'] {
        assert(b[8] =~= n);
    } else if n == seq!['o', 'l'] {
        assert(b[9] =~= n);
    } else if n == seq!['t', 'a', 'b', 'l', 'e'] {
        assert(b[10] =~= n);
    } else if n == seq!['b', 'l', 'o', 'c', 'k', 'q', 'u', 'o', 't', 'e'] {
        assert(b[11] =~= n);
    } else if n == seq!['s', 'e', 'c', 't', 'i', 'o', 'n'] {
        assert(b[12] =~= n);
    } else if n == seq!['a', 'r', 't', 'i', 'c', 'l', 'e'] {
        assert(b[13] =~= n);
    } else if n == seq!['h', 'e', 'a', 'd', 'e', 'r'] {
        assert(b[14] =~= n);
    } else if n == seq!['f', 'o', 'o', 't', 'e', 'r'] {
        assert(b[15] =~= n);
    }
    assert forall|t: Seq<char>, q: int| lit_at(t, q, n) implies #[trigger] block_name_at(t, q) by {
        if n.len() == 2 && n[0] == 'h' && 0x31 <= (n[1] as u32) <= 0x36 {
            assert(char_matches(t[q + 0], n[0]));
            assert(char_matches(t[q + 1], n[1]));
            assert(lit_at(t, q, seq!['h'])) by {
                assert(char_matches(t[q + 0], seq!['h'][0]));
            }
        } else {
            let k = choose|k: int| 0 <= k < b.len() && b[k] == n;
            assert(lit_at(t, q, block_tag_names()[k]));
        }
    }
}

/// `find_char` stops at the first `c`.
proof fn lemma_find_char_at(t: Seq<char>, i: int, j: int, c: char)
    requires
        0 <= i <= j < t.len(),
        t[j] == c,
        forall|k: int| i <= k < j ==> #[trigger] t[k] != c,
    ensures
        find_char(t, i, c) == j,
    decreases j - i,
{
    if i < j {
        lemma_find_char_at(t, i + 1, j, c);
    }
}

/// Stage 1 keeps a text in which no block starts.
proof fn lemma_strip_blocks_keeps(t: Seq<char>, p: int)
    requires
        0 <= p <= t.len(),
        forall|q: int| p <= q < t.len() ==> #[trigger] script_style_end(t, q) is None,
    ensures
        strip_blocks(t, p) == t.subrange(p, t.len() as int),
    decreases t.len() - p,
{
    if p < t.len() {
        lemma_strip_blocks_keeps(t, p + 1);
        assert(t.subrange(p, t.len() as int) =~= seq![t[p]] + t.subrange(p + 1, t.len() as int));
    } else {
        assert(t.subrange(p, t.len() as int) =~= Seq::<char>::empty());
    }
}

/// Stage 2 keeps a stretch without `<`.
proof fn lemma_space_tags_keeps(t: Seq<char>, p: int, k: int)
    requires
        0 <= p <= k <= t.len(),
        forall|q: int| p <= q < k ==> (#[trigger] t[q] as u32) != 0x3c,
    ensures
        space_block_tags(t, p) == t.subrange(p, k) + space_block_tags(t, k),
    decreases k - p,
{
    if p < k {
        lemma_space_tags_keeps(t, p + 1, k);
        assert(t.subrange(p, k) =~= seq![t[p]] + t.subrange(p + 1, k));
    } else {
        assert(t.subrange(p, k) =~= Seq::<char>::empty());
    }
}

/// Stage 3 keeps a text without `<`.
proof fn lemma_remove_tags_keeps(t: Seq<char>, p: int)
    requires
        0 <= p <= t.len(),
        forall|q: int| p <= q < t.len() ==> (#[trigger] t[q] as u32) != 0x3c,
    ensures
        remove_tags(t, p) == t.subrange(p, t.len() as int),
    decreases t.len() - p,
{
    if p < t.len() {
        lemma_remove_tags_keeps(t, p + 1);
        assert(t.subrange(p, t.len() as int) =~= seq![t[p]] + t.subrange(p + 1, t.len() as int));
    } else {
        assert(t.subrange(p, t.len() as int) =~= Seq::<char>::empty());
    }
}

/// Replacing a pattern that starts with `&` keeps a text without `&`.
proof fn lemma_replace_keeps(t: Seq<char>, p: int, pat: Seq<char>, rep: Seq<char>)
    requires
        0 <= p <= t.len(),
        pat.len() > 0,
        pat[0] == '&',
        forall|q: int| 0 <= q < t.len() ==> (#[trigger] t[q] as u32) != 0x26,
    ensures
        replace_from(t, p, pat, rep) == t.subrange(p, t.len() as int),
    decreases t.len() - p,
{
    if p < t.len() {
        if p + pat.len() <= t.len() && t.subrange(p, p + pat.len()) == pat {
            assert(t.subrange(p, p + pat.len())[0] == t[p]);
        }
        lemma_replace_keeps(t, p + 1, pat, rep);
        assert(t.subrange(p, t.len() as int) =~= seq![t[p]] + t.subrange(p + 1, t.len() as int));
    } else {
        assert(t.subrange(p, t.len() as int) =~= Seq::<char>::empty());
    }
}

/// Stage 5 keeps a text whose only white space is single spaces between
/// other characters.
proof fn lemma_collapse_keeps(t: Seq<char>, p: int)
    requires
        0 <= p <= t.len(),
        forall|q: int|
            p <= q < t.len() && is_white_space(#[trigger] t[q]) ==> t[q] == ' ' && q + 1 < t.len()
                && !is_white_space(t[q + 1]),
    ensures
        collapse_ws(t, p) == t.subrange(p, t.len() as int),
    decreases t.len() - p,
{
    if p < t.len() {
        lemma_collapse_keeps(t, p + 1);
        if is_white_space(t[p]) {
            assert(white_run_end(t, p + 1) == p + 1);
            assert(white_run_end(t, p) == p + 1);
        }
        assert(t.subrange(p, t.len() as int) =~= seq![t[p]] + t.subrange(p + 1, t.len() as int));
    } else {
        assert(t.subrange(p, t.len() as int) =~= Seq::<char>::empty());
    }
}

/// Where each part of `x`, the tag and `y` stands.
#[verifier::spinoff_prover]
#[verifier::rlimit(60)]
proof fn lemma_tag_doc_layout(x: Seq<char>, y: Seq<char>, n: Seq<char>, closing: bool)
    requires
        plain_word(x),
        plain_word(y),
        listed_block_name(n),
    ensures
        ({
            let t = x + tag_text(n, closing) + y;
            let k = x.len() as int;
            let q0 = if closing { k + 2 } else { k + 1 };
            let g = q0 + n.len();
            &&& t.len() == g + 1 + y.len()
            &&& forall|i: int| 0 <= i < k ==> #[trigger] t[i] == x[i]
            &&& forall|i: int| g + 1 <= i < t.len() ==> #[trigger] t[i] == y[i - g - 1]
            &&& forall|j: int| 0 <= j < n.len() ==> #[trigger] t[q0 + j] == n[j]
            &&& t[k] == '<'
            &&& (closing ==> t[k + 1] == '/')
            &&& (!closing ==> t[k + 1] == n[0])
            &&& t[g] == '>'
            &&& forall|q: int| 0 <= q < t.len() && q != k ==> (#[trigger] t[q] as u32) != 0x3c
            &&& forall|j: int| q0 <= j < g ==> #[trigger] t[j] != '>'
        }),
{
    lemma_listed_block_name(n);
    let tag = tag_text(n, closing);
    let t = x + tag + y;
    let k = x.len() as int;
    let q0 = if closing { k + 2 } else { k + 1 };
    let g = q0 + n.len();
    assert(tag.len() == q0 - k + n.len() + 1);
    assert(forall|j: int| 0 <= j < n.len() ==> #[trigger] t[q0 + j] == n[j]);
    assert forall|q: int| 0 <= q < t.len() && q != k implies (#[trigger] t[q] as u32) != 0x3c by {
        if q < k {
            assert(t[q] == x[q]);
        } else if q >= g + 1 {
            assert(t[q] == y[q - g - 1]);
        } else if q >= q0 && q < g {
            assert(t[q0 + (q - q0)] == n[q - q0]);
        }
    }
    assert forall|j: int| q0 <= j < g implies #[trigger] t[j] != '>' by {
        assert(t[q0 + (j - q0)] == n[j - q0]);
    }
}

/// Stage 1 keeps `x`, the tag and `y`: no script or style block starts.
#[verifier::spinoff_prover]
#[verifier::rlimit(60)]
proof fn lemma_tag_doc_stage1(x: Seq<char>, y: Seq<char>, n: Seq<char>, closing: bool)
    requires
        plain_word(x),
        plain_word(y),
        listed_block_name(n),
    ensures
        strip_blocks(x + tag_text(n, closing) + y, 0) == x + tag_text(n, closing) + y,
{
    lemma_listed_block_name(n);
    lemma_tag_doc_layout(x, y, n, closing);
    let t = x + tag_text(n, closing) + y;
    let k = x.len() as int;
    let q0 = if closing { k + 2 } else { k + 1 };
    assert forall|q: int| 0 <= q < t.len() implies #[trigger] script_style_end(t, q) is None by {
        if lit_at(t, q, lit_script_open()) {
            assert(char_matches(t[q + 0], lit_script_open()[0]));
            if q == k {
                assert(char_matches(t[q + 1], lit_script_open()[1]));
                assert(char_matches(t[q + 2], lit_script_open()[2]));
                assert(t[q0 + 0] == n[0]);
                if n.len() >= 2 {
                    assert(t[q0 + 1] == n[1]);
                }
            }
        }
        if lit_at(t, q, lit_style_open()) {
            assert(char_matches(t[q + 0], lit_style_open()[0]));
            if q == k {
                assert(char_matches(t[q + 1], lit_style_open()[1]));
                assert(char_matches(t[q + 2], lit_style_open()[2]));
                assert(t[q0 + 0] == n[0]);
                if n.len() >= 2 {
                    assert(t[q0 + 1] == n[1]);
                }
            }
        }
    }
    lemma_strip_blocks_keeps(t, 0);
    assert(t.subrange(0, t.len() as int) =~= t);
}

/// Stage 2 turns the tag between `x` and `y` into one space.
#[verifier::spinoff_prover]
#[verifier::rlimit(60)]
proof fn lemma_tag_doc_stage2(x: Seq<char>, y: Seq<char>, n: Seq<char>, closing: bool)
    requires
        plain_word(x),
        plain_word(y),
        listed_block_name(n),
    ensures
        space_block_tags(x + tag_text(n, closing) + y, 0) == x + seq![' '] + y,
{
    lemma_listed_block_name(n);
    lemma_tag_doc_layout(x, y, n, closing);
    let t = x + tag_text(n, closing) + y;
    let k = x.len() as int;
    let q0 = if closing { k + 2 } else { k + 1 };
    let g = q0 + n.len();
    let ye = g + 1;
    lemma_space_tags_keeps(t, 0, k);
    lemma_space_tags_keeps(t, ye, t.len() as int);
    assert(space_block_tags(t, t.len() as int) =~= Seq::<char>::empty());
    lemma_find_char_at(t, q0, g, '>');
    assert(lit_at(t, q0, n)) by {
        assert forall|i: int| 0 <= i < n.len() implies #[trigger] char_matches(t[q0 + i], n[i]) by {
            assert(t[q0 + i] == n[i]);
        }
    }
    assert(block_name_at(t, q0));
    assert(block_tag_end(t, k) == Some(ye));
    assert(space_block_tags(t, k) == seq![' '] + space_block_tags(t, ye));
    assert(t.subrange(0, k) =~= x);
    assert(t.subrange(ye, t.len() as int) =~= y);
    assert(space_block_tags(t, 0) =~= x + seq![' '] + y);
}

/// Stages 3 to 5 keep two plain words joined by one space.
#[verifier::spinoff_prover]
#[verifier::rlimit(60)]
proof fn lemma_spaced_words_kept(x: Seq<char>, y: Seq<char>)
    requires
        plain_word(x),
        plain_word(y),
    ensures
        ({
            let s = x + seq![' '] + y;
            trim(collapse_ws(decode_entities(remove_tags(s, 0)), 0)) == s
        }),
{
    let s = x + seq![' '] + y;
    assert forall|q: int| 0 <= q < s.len() implies (#[trigger] s[q] as u32) != 0x3c && (s[q] as u32) != 0x26
        by {
        if q < x.len() {
            assert(s[q] == x[q]);
        } else if q > x.len() {
            assert(s[q] == y[q - x.len() - 1]);
        }
    }
    lemma_remove_tags_keeps(s, 0);
    assert(s.subrange(0, s.len() as int) =~= s);
    let e1 = seq!['&', 'n', 'b', 's', 'p', ';'];
    let e2 = seq!['&', 'a', 'm', 'p', ';'];
    let e3 = seq!['&', 'l', 't', ';'];
    let e4 = seq!['&', 'g', 't', ';'];
    let e5 = seq!['&', 'q', 'u', 'o', 't', ';'];
    let e6 = seq!['&', '#', '3', '9', ';'];
    lemma_replace_keeps(s, 0, e1, seq![' ']);
    lemma_replace_keeps(s, 0, e2, seq!['&']);
    lemma_replace_keeps(s, 0, e3, seq!['<']);
    lemma_replace_keeps(s, 0, e4, seq!['>']);
    lemma_replace_keeps(s, 0, e5, seq!['"']);
    lemma_replace_keeps(s, 0, e6, seq!['\'']);
    assert(decode_entities(remove_tags(s, 0)) == s);
    assert forall|q: int| 0 <= q < s.len() && is_white_space(#[trigger] s[q]) implies s[q] == ' ' && q + 1
        < s.len() && !is_white_space(s[q + 1]) by {
        if q < x.len() {
            assert(s[q] == x[q]);
        } else if q > x.len() {
            assert(s[q] == y[q - x.len() - 1]);
        } else {
            assert(s[q + 1] == y[0]);
        }
    }
    lemma_collapse_keeps(s, 0);
    assert(s[0] == x[0]);
    assert(s.last() == y.last());
    assert(trim_start(s) == s);
    assert(trim_end(s) == s);
}

/// Block-level tags separate words: for plain words `x` and `y` and any
/// listed block tag name, opening or closing, the text of `x`, the tag and
/// `y` is `x`, one space and `y`. (So `<li>482913</li><li>10</li>` never
/// reads as one number.)
pub proof fn lemma_block_tag_separates_words(x: Seq<char>, y: Seq<char>, n: Seq<char>, closing: bool)
    requires
        plain_word(x),
        plain_word(y),
        listed_block_name(n),
    ensures
        html_text(x + tag_text(n, closing) + y) == x + seq![' '] + y,
{
    lemma_tag_doc_stage1(x, y, n, closing);
    lemma_tag_doc_stage2(x, y, n, closing);
    lemma_spaced_words_kept(x, y);
}

/* ---------- implementation ---------- */

fn find_lit_exec(t: &Vec<char>, i: usize, lit: &[char]) -> (r: usize)
    requires
        i <= t.len(),
    ensures
        r as int == find_lit(t@, i as int, lit@),
        i <= r <= t.len(),
        r < t.len() ==> lit_at(t@, r as int, lit@),
{
    let mut j = i;
    while j < t.len() && !match_lit(t, j, lit)
        invariant
            i <= j <= t.len(),
            find_lit(t@, i as int, lit@) == find_lit(t@, j as int, lit@),
        decreases t.len() - j,
    {
        j = j + 1;
    }
    j
}

fn block_end_exec(t: &Vec<char>, p: usize, open: &[char], close: &[char]) -> (r: Option<usize>)
    requires
        p < t.len(),
        open@.len() > 0,
        close@.len() > 0,
    ensures
        match r {
            Some(e) => block_end(t@, p as int, open@, close@) == Some(e as int) && p < e <= t.len(),
            None => block_end(t@, p as int, open@, close@) is None,
        },
{
    if !match_lit(t, p, open) {
        return None;
    }
    let g = find_char_from(t, p + open.len(), '>');
    if g >= t.len() {
        return None;
    }
    let q = find_lit_exec(t, g + 1, close);
    if q >= t.len() {
        return None;
    }
    Some(q + close.len())
}

fn script_style_end_exec(t: &Vec<char>, p: usize) -> (r: Option<usize>)
    requires
        p < t.len(),
    ensures
        match r {
            Some(e) => script_style_end(t@, p as int) == Some(e as int) && p < e <= t.len(),
            None => script_style_end(t@, p as int) is None,
        },
{
    let so = ['<', 's', 'c', 'r', 'i', 'p', 't'];
    let sc = ['<', '/', 's', 'c', 'r', 'i', 'p', 't', '>'];
    let yo = ['<', 's', 't', 'y', 'l', 'e'];
    let yc = ['<', '/', 's', 't', 'y', 'l', 'e', '>'];
    assert(so@ == lit_script_open());
    assert(sc@ == lit_script_close());
    assert(yo@ == lit_style_open());
    assert(yc@ == lit_style_close());
    match block_end_exec(t, p, &so, &sc) {
        Some(e) => Some(e),
        None => block_end_exec(t, p, &yo, &yc),
    }
}

/// Stage 1: drops `<script>`/`<style>` blocks, each leaving one space.
pub(crate) fn strip_blocks_exec(t: &Vec<char>) -> (r: Vec<char>)
    ensures
        r@ == strip_blocks(t@, 0),
{
    let mut out: Vec<char> = Vec::new();
    let mut p: usize = 0;
    while p < t.len()
        invariant
            p <= t.len(),
            strip_blocks(t@, 0) == out@ + strip_blocks(t@, p as int),
        decreases t.len() - p,
    {
        match script_style_end_exec(t, p) {
            Some(e) => {
                out.push(' ');
                p = e;
            },
            None => {
                out.push(t[p]);
                p = p + 1;
            },
        }
        assert(strip_blocks(t@, 0) == out@ + strip_blocks(t@, p as int));
    }
    out
}

fn any_name_at(t: &Vec<char>, q: usize, names: &Vec<Vec<char>>) -> (r: bool)
    requires
        q <= t.len(),
    ensures
        r == exists|k: int| 0 <= k < names@.len() && #[trigger] lit_at(t@, q as int, names@[k]@),
{
    let mut k: usize = 0;
    while k < names.len()
        invariant
            k <= names@.len(),
            q <= t.len(),
            forall|m: int| 0 <= m < k ==> !#[trigger] lit_at(t@, q as int, names@[m]@),
        decreases names.len() - k,
    {
        if match_lit(t, q, names[k].as_slice()) {
            return true;
        }
        k = k + 1;
    }
    false
}

fn block_name_at_exec(t: &Vec<char>, q: usize) -> (r: bool)
    requires
        q <= t.len(),
    ensures
        r == block_name_at(t@, q as int),
{
    let names: Vec<Vec<char>> = vec![
        vec!['p'],
        vec!['d', 'i', 'v'],
        vec!['b', 'r'],
        vec!['h', 'r'],
        vec!['t', 'r'],
        vec!['t', 'd'],
        vec!['t', 'h'],
        vec!['l', 'i'],
        vec!['u', 'l'],
        vec!['o', 'l'],
        vec!['t', 'a', 'b', 'l', 'e'],
        vec!['b', 'l', 'o', 'c', 'k', 'q', 'u', 'o', 't', 'e'],
        vec!['s', 'e', 'c', 't', 'i', 'o', 'n'],
        vec!['a', 'r', 't', 'i', 'c', 'l', 'e'],
        vec!['h', 'e', 'a', 'd', 'e', 'r'],
        vec!['f', 'o', 'o', 't', 'e', 'r'],
    ];
    let ghost bn = block_tag_names();
    assert(names@.len() == bn.len());
    assert forall|k: int| 0 <= k < bn.len() implies #[trigger] names@[k]@ == bn[k] by {
        assert(names@[0]@ =~= bn[0]);
        assert(names@[1]@ =~= bn[1]);
        assert(names@[2]@ =~= bn[2]);
        assert(names@[3]@ =~= bn[3]);
        assert(names@[4]@ =~= bn[4]);
        assert(names@[5]@ =~= bn[5]);
        assert(names@[6]@ =~= bn[6]);
        assert(names@[7]@ =~= bn[7]);
        assert(names@[8]@ =~= bn[8]);
        assert(names@[9]@ =~= bn[9]);
        assert(names@[10]@ =~= bn[10]);
        assert(names@[11]@ =~= bn[11]);
        assert(names@[12]@ =~= bn[12]);
        assert(names@[13]@ =~= bn[13]);
        assert(names@[14]@ =~= bn[14]);
        assert(names@[15]@ =~= bn[15]);
    }
    let named = any_name_at(t, q, &names);
    assert(named == exists|k: int| 0 <= k < bn.len() && #[trigger] lit_at(t@, q as int, bn[k])) by {
        if named {
            let k = choose|k: int| 0 <= k < names@.len() && #[trigger] lit_at(t@, q as int, names@[k]@);
            assert(lit_at(t@, q as int, bn[k]));
        }
        if exists|k: int| 0 <= k < bn.len() && #[trigger] lit_at(t@, q as int, bn[k]) {
            let k = choose|k: int| 0 <= k < bn.len() && #[trigger] lit_at(t@, q as int, bn[k]);
            assert(lit_at(t@, q as int, names@[k]@));
        }
    }
    if named {
        return true;
    }
    let h = ['h'];
    assert(h@ == seq!['h']);
    match_lit(t, q, &h) && q + 1 < t.len() && 0x31 <= (t[q + 1] as u32) && (t[q + 1] as u32)
        <= 0x36
}

fn block_tag_end_exec(t: &Vec<char>, p: usize) -> (r: Option<usize>)
    requires
        p < t.len(),
    ensures
        match r {
            Some(e) => block_tag_end(t@, p as int) == Some(e as int) && p < e <= t.len(),
            None => block_tag_end(t@, p as int) is None,
        },
{
    if p + 1 < t.len() && t[p] == '<' {
        let q = if t[p + 1] == '/' {
            p + 2
        } else {
            p + 1
        };
        let g = find_char_from(t, q, '>');
        if block_name_at_exec(t, q) && g < t.len() {
            Some(g + 1)
        } else {
            None
        }
    } else {
        None
    }
}

/// Stage 2: replaces each block-level tag by one space.
pub(crate) fn space_block_tags_exec(t: &Vec<char>) -> (r: Vec<char>)
    ensures
        r@ == space_block_tags(t@, 0),
{
    let mut out: Vec<char> = Vec::new();
    let mut p: usize = 0;
    while p < t.len()
        invariant
            p <= t.len(),
            space_block_tags(t@, 0) == out@ + space_block_tags(t@, p as int),
        decreases t.len() - p,
    {
        match block_tag_end_exec(t, p) {
            Some(e) => {
                out.push(' ');
                p = e;
            },
            None => {
                out.push(t[p]);
                p = p + 1;
            },
        }
    }
    out
}

fn tag_end_exec(t: &Vec<char>, p: usize) -> (r: Option<usize>)
    requires
        p < t.len(),
    ensures
        match r {
            Some(e) => tag_end(t@, p as int) == Some(e as int) && p < e <= t.len(),
            None => tag_end(t@, p as int) is None,
        },
{
    if p + 1 < t.len() && t[p] == '<' && t[p + 1] != '>' {
        let g = find_char_from(t, p + 1, '>');
        if g < t.len() {
            Some(g + 1)
        } else {
            None
        }
    } else {
        None
    }
}

/// Stage 3: removes every remaining tag.
pub(crate) fn remove_tags_exec(t: &Vec<char>) -> (r: Vec<char>)
    ensures
        r@ == remove_tags(t@, 0),
{
    let mut out: Vec<char> = Vec::new();
    let mut p: usize = 0;
    while p < t.len()
        invariant
            p <= t.len(),
            remove_tags(t@, 0) == out@ + remove_tags(t@, p as int),
        decreases t.len() - p,
    {
        match tag_end_exec(t, p) {
            Some(e) => {
                p = e;
            },
            None => {
                out.push(t[p]);
                p = p + 1;
            },
        }
    }
    out
}

fn subrange_is(s: &Vec<char>, p: usize, pat: &[char]) -> (r: bool)
    requires
        p <= s.len(),
    ensures
        r == (p + pat@.len() <= s@.len() && s@.subrange(p as int, p + pat@.len()) == pat@),
{
    if pat.len() > s.len() - p {
        return false;
    }
    let mut i: usize = 0;
    while i < pat.len()
        invariant
            i <= pat.len(),
            p + pat.len() <= s.len(),
            forall|k: int| 0 <= k < i ==> s@[p + k] == pat@[k],
        decreases pat.len() - i,
    {
        if s[p + i] != pat[i] {
            assert(s@.subrange(p as int, p + pat@.len())[i as int] != pat@[i as int]);
            return false;
        }
        i = i + 1;
    }
    assert(s@.subrange(p as int, p + pat@.len()) =~= pat@);
    true
}

/// `s` with every occurrence of `pat` replaced by `rep` (as `str::replace`).
pub(crate) fn replace_all_exec(s: &Vec<char>, pat: &[char], rep: &[char]) -> (r: Vec<char>)
    requires
        pat@.len() > 0,
    ensures
        r@ == replace_all(s@, pat@, rep@),
{
    let mut out: Vec<char> = Vec::new();
    let mut p: usize = 0;
    while p < s.len()
        invariant
            p <= s.len(),
            pat@.len() > 0,
            replace_all(s@, pat@, rep@) == out@ + replace_from(s@, p as int, pat@, rep@),
        decreases s.len() - p,
    {
        if subrange_is(s, p, pat) {
            let mut i: usize = 0;
            let ghost before = out@;
            while i < rep.len()
                invariant
                    i <= rep.len(),
                    out@ == before + rep@.subrange(0, i as int),
                decreases rep.len() - i,
            {
                out.push(rep[i]);
                i = i + 1;
            }
            assert(rep@.subrange(0, rep@.len() as int) =~= rep@);
            assert(out@ + replace_from(s@, p + pat@.len(), pat@, rep@) =~= before + (rep@
                + replace_from(s@, p + pat@.len(), pat@, rep@)));
            p = p + pat.len();
        } else {
            out.push(s[p]);
            p = p + 1;
        }
    }
    out
}

fn decode_entities_exec(s: &Vec<char>) -> (r: Vec<char>)
    ensures
        r@ == decode_entities(s@),
{
    let e1 = ['&', 'n', 'b', 's', 'p', ';'];
    let e2 = ['&', 'a', 'm', 'p', ';'];
    let e3 = ['&', 'l', 't', ';'];
    let e4 = ['&', 'g', 't', ';'];
    let e5 = ['&', 'q', 'u', 'o', 't', ';'];
    let e6 = ['&', '#', '3', '9', ';'];
    let r1 = [' '];
    let r2 = ['&'];
    let r3 = ['<'];
    let r4 = ['>'];
    let r5 = ['"'];
    let r6 = ['\''];
    assert(e1@ == seq!['&', 'n', 'b', 's', 'p', ';']);
    assert(e2@ == seq!['&', 'a', 'm', 'p', ';']);
    assert(e3@ == seq!['&', 'l', 't', ';']);
    assert(e4@ == seq!['&', 'g', 't', ';']);
    assert(e5@ == seq!['&', 'q', 'u', 'o', 't', ';']);
    assert(e6@ == seq!['&', '#', '3', '9', ';']);
    assert(r1@ == seq![' ']);
    assert(r2@ == seq!['&']);
    assert(r3@ == seq!['<']);
    assert(r4@ == seq!['>']);
    assert(r5@ == seq!['"']);
    assert(r6@ == seq!['\'']);
    let a = replace_all_exec(s, &e1, &r1);
    let b = replace_all_exec(&a, &e2, &r2);
    let c = replace_all_exec(&b, &e3, &r3);
    let d = replace_all_exec(&c, &e4, &r4);
    let e = replace_all_exec(&d, &e5, &r5);
    replace_all_exec(&e, &e6, &r6)
}

/// Stage 5a: every run of white space becomes one space.
pub(crate) fn collapse_ws_exec(t: &Vec<char>) -> (r: Vec<char>)
    ensures
        r@ == collapse_ws(t@, 0),
{
    let mut out: Vec<char> = Vec::new();
    let mut p: usize = 0;
    while p < t.len()
        invariant
            p <= t.len(),
            collapse_ws(t@, 0) == out@ + collapse_ws(t@, p as int),
        decreases t.len() - p,
    {
        if white_space(t[p]) {
            let e = white_end(t, p + 1);
            assert(white_run_end(t@, p as int) == white_run_end(t@, p + 1));
            out.push(' ');
            p = e;
        } else {
            out.push(t[p]);
            p = p + 1;
        }
    }
    out
}

/// Plain text of an HTML fragment (see the module documentation).
pub fn html_to_text(html: &str) -> (r: String)
    ensures
        r@ == html_text(html@),
{
    let t = chars_of(html);
    let a = strip_blocks_exec(&t);
    let b = space_block_tags_exec(&a);
    let c = remove_tags_exec(&b);
    let d = decode_entities_exec(&c);
    let e = collapse_ws_exec(&d);
    let f = trim_chars(&e);
    string_from_chars(f.as_slice())
}

} // verus!
