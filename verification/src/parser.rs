//! Verification-code extraction from SMS / notification / mail text.
//!
//! Two rules, tried in order:
//! 1. a keyword (验证码, 动态密码, 动态码, 校验码, 短信码, "verification code",
//!    "security code", "passcode", "code"; Latin letters case-insensitive)
//!    followed within at most 12 non-digit characters by a run of 4 to 8
//!    digits; a run longer than 8 whose ninth character is an ASCII digit is
//!    only the prefix of a long number and is skipped;
//! 2. otherwise the first stand-alone digit run of 4 to 6 bytes that is not an
//!    amount, a year or an account/phone number.
//!
//! Digits are Unicode decimal digits (general category Nd) throughout.

use vstd::prelude::*;

use crate::text::{
    white_end, white_run_end,
    chars_of, contains_in_range, contains_seq, subvec, utf8_len_capped, decimal_digit, is_ascii_digit, is_decimal_digit, string_from_chars, utf8_byte_len,
    utf8_len,
};

verus! {

/* ---------- specification ---------- */

/// `c` matches the pattern character `l`: exactly, or, when `l` is a lowercase
/// ASCII letter, under simple Unicode case folding (which adds KELVIN SIGN for
/// `k` and LATIN SMALL LETTER LONG S for `s`).
pub open spec fn char_matches(c: char, l: char) -> bool {
    let v = c as u32;
    let w = l as u32;
    if 0x61 <= w && w <= 0x7a {
        v == w || v + 32 == w || (w == 0x6b && v == 0x212a) || (w == 0x73 && v == 0x17f)
    } else {
        v == w
    }
}

/// The pattern `lit` occurs in `t` at position `p`.
pub open spec fn lit_at(t: Seq<char>, p: int, lit: Seq<char>) -> bool {
    &&& 0 <= p
    &&& p + lit.len() <= t.len()
    &&& forall|i: int| 0 <= i < lit.len() ==> #[trigger] char_matches(t[p + i], lit[i])
}

/// End of the run of decimal digits starting at `i`.
pub open spec fn digit_run_end(t: Seq<char>, i: int) -> int
    decreases t.len() - i,
{
    if 0 <= i < t.len() && is_decimal_digit(t[i]) {
        digit_run_end(t, i + 1)
    } else {
        i
    }
}

/// End of the run of non-digits starting at `i`.
pub open spec fn nondigit_run_end(t: Seq<char>, i: int) -> int
    decreases t.len() - i,
{
    if 0 <= i < t.len() && !is_decimal_digit(t[i]) {
        nondigit_run_end(t, i + 1)
    } else {
        i
    }
}

pub open spec fn kw_verification() -> Seq<char> {
    seq!['v', 'e', 'r', 'i', 'f', 'i', 'c', 'a', 't', 'i', 'o', 'n']
}

pub open spec fn kw_security() -> Seq<char> {
    seq!['s', 'e', 'c', 'u', 'r', 'i', 't', 'y']
}

pub open spec fn kw_passcode() -> Seq<char> {
    seq!['p', 'a', 's', 's', 'c', 'o', 'd', 'e']
}

pub open spec fn kw_code() -> Seq<char> {
    seq!['c', 'o', 'd', 'e']
}

/// End of the keyword that starts at `p`, if one does. At most one keyword
/// can start at a given position, so the order of the tests is immaterial.
pub open spec fn keyword_end(t: Seq<char>, p: int) -> Option<int> {
    if lit_at(t, p, seq!['验', '证', '码']) {
        Some(p + 3)
    } else if lit_at(t, p, seq!['动', '态', '密', '码']) {
        Some(p + 4)
    } else if lit_at(t, p, seq!['动', '态', '码']) {
        Some(p + 3)
    } else if lit_at(t, p, seq!['校', '验', '码']) {
        Some(p + 3)
    } else if lit_at(t, p, seq!['短', '信', '码']) {
        Some(p + 3)
    } else if lit_at(t, p, kw_verification()) && lit_at(t, white_run_end(t, p + 12), kw_code()) {
        Some(white_run_end(t, p + 12) + 4)
    } else if lit_at(t, p, kw_security()) && lit_at(t, white_run_end(t, p + 8), kw_code()) {
        Some(white_run_end(t, p + 8) + 4)
    } else if lit_at(t, p, kw_passcode()) {
        Some(p + 8)
    } else if lit_at(t, p, kw_code()) {
        Some(p + 4)
    } else {
        None
    }
}

/// The code captured by a keyword match starting at `p`: at most 12 non-digits
/// after the keyword, then at least 4 digits, of which at most 8 are taken.
pub open spec fn capture_at(t: Seq<char>, p: int) -> Option<(int, int)> {
    match keyword_end(t, p) {
        None => None,
        Some(e) => {
            let j = nondigit_run_end(t, e);
            let d = digit_run_end(t, j);
            if j - e <= 12 && d - j >= 4 {
                Some((j, if d - j > 8 { j + 8 } else { d }))
            } else {
                None
            }
        },
    }
}

/// Rule 1, scanning matches from position `p` on, leftmost first and without
/// overlap: the first capture not followed by an ASCII digit.
pub open spec fn keyword_rule(t: Seq<char>, p: int) -> Option<Seq<char>>
    decreases t.len() - p,
{
    if p < 0 || p >= t.len() {
        None
    } else {
        match capture_at(t, p) {
            Some((s, e)) => {
                if e < t.len() && is_ascii_digit(t[e]) {
                    if e > p {
                        keyword_rule(t, e)
                    } else {
                        None
                    }
                } else {
                    Some(t.subrange(s, e))
                }
            },
            None => keyword_rule(t, p + 1),
        }
    }
}

/// The currency signs that mark a following number as an amount.
pub open spec fn is_currency(c: char) -> bool {
    let v = c as u32;
    v == 0xa5 || v == 0xffe5 || v == 0x24 || v == 0x20ac
}

/// Words that mark a nearby number as an account, card or phone number.
pub open spec fn context_blacklist() -> Seq<Seq<char>> {
    seq![
        seq!['尾', '号'],
        seq!['卡', '号'],
        seq!['账', '号'],
        seq!['账', '户'],
        seq!['单', '号'],
        seq!['电', '话'],
        seq!['热', '线'],
        seq!['客', '服'],
    ]
}

/// The up to four characters just before position `s`.
pub open spec fn window_before(t: Seq<char>, s: int) -> Seq<char> {
    t.subrange(if s >= 4 { s - 4 } else { 0 }, s)
}

/// Rule 2's test of the digit run `t[s..e]`.
pub open spec fn run_accepted(t: Seq<char>, s: int, e: int) -> bool {
    let len = utf8_byte_len(t.subrange(s, e));
    &&& 4 <= len <= 6
    &&& !(s > 0 && is_currency(t[s - 1]))
    &&& !(e < t.len() && (t[e] == '.' || t[e] == ','))
    &&& !(len == 4 && e - s >= 2 && t[s] == '1' && t[s + 1] == '9')
    &&& !(len == 4 && e - s >= 2 && t[s] == '2' && t[s + 1] == '0')
    &&& forall|k: int|
        0 <= k < context_blacklist().len() ==> !contains_seq(
            window_before(t, s),
            #[trigger] context_blacklist()[k],
        )
}

/// Rule 2, scanning the maximal digit runs from position `p` on.
pub open spec fn fallback_rule(t: Seq<char>, p: int) -> Option<Seq<char>>
    decreases t.len() - p,
{
    if p < 0 || p >= t.len() {
        None
    } else if !is_decimal_digit(t[p]) {
        fallback_rule(t, p + 1)
    } else {
        let e = digit_run_end(t, p);
        if run_accepted(t, p, e) {
            Some(t.subrange(p, e))
        } else if p < e <= t.len() {
            fallback_rule(t, e)
        } else {
            None
        }
    }
}

/// The code that the two rules find in `t`, if any.
pub open spec fn extracted_code(t: Seq<char>) -> Option<Seq<char>> {
    match keyword_rule(t, 0) {
        Some(c) => Some(c),
        None => fallback_rule(t, 0),
    }
}

/* ---------- what a code is ---------- */

/// `c` is a code as the rules find it: one to eight decimal digits.
pub open spec fn is_code_shape(c: Seq<char>) -> bool {
    1 <= c.len() <= 8 && forall|i: int| 0 <= i < c.len() ==> is_decimal_digit(#[trigger] c[i])
}

proof fn lemma_digit_run(t: Seq<char>, i: int)
    ensures
        digit_run_end(t, i) >= i,
        digit_run_end(t, i) > i ==> 0 <= i && digit_run_end(t, i) <= t.len(),
        forall|k: int| i <= k < digit_run_end(t, i) ==> is_decimal_digit(#[trigger] t[k]),
    decreases t.len() - i,
{
    if 0 <= i < t.len() && is_decimal_digit(t[i]) {
        lemma_digit_run(t, i + 1);
    }
}

proof fn lemma_utf8_byte_len_at_least(s: Seq<char>)
    ensures
        utf8_byte_len(s) >= s.len(),
    decreases s.len(),
{
    if s.len() > 0 {
        lemma_utf8_byte_len_at_least(s.drop_last());
    }
}

proof fn lemma_keyword_rule_shape(t: Seq<char>, p: int)
    ensures
        keyword_rule(t, p) matches Some(c) ==> is_code_shape(c) && contains_seq(t, c),
    decreases t.len() - p,
{
    if 0 <= p < t.len() {
        match capture_at(t, p) {
            Some((s, e)) => {
                if e < t.len() && is_ascii_digit(t[e]) {
                    if e > p {
                        lemma_keyword_rule_shape(t, e);
                    }
                } else {
                    let ke = keyword_end(t, p)->0;
                    let j = nondigit_run_end(t, ke);
                    lemma_digit_run(t, j);
                    let c = t.subrange(s, e);
                    assert(s == j);
                    assert(c.len() == e - s);
                    assert(forall|i: int| 0 <= i < c.len() ==> #[trigger] c[i] == t[s + i]);
                    assert(t.subrange(s, s + c.len()) == c);
                }
            },
            None => {
                lemma_keyword_rule_shape(t, p + 1);
            },
        }
    }
}

proof fn lemma_fallback_rule_shape(t: Seq<char>, p: int)
    ensures
        fallback_rule(t, p) matches Some(c) ==> is_code_shape(c) && contains_seq(t, c),
    decreases t.len() - p,
{
    if 0 <= p < t.len() {
        if !is_decimal_digit(t[p]) {
            lemma_fallback_rule_shape(t, p + 1);
        } else {
            let e = digit_run_end(t, p);
            lemma_digit_run(t, p);
            lemma_digit_run(t, p + 1);
            if run_accepted(t, p, e) {
                let c = t.subrange(p, e);
                lemma_utf8_byte_len_at_least(c);
                assert(forall|i: int| 0 <= i < c.len() ==> #[trigger] c[i] == t[p + i]);
                assert(t.subrange(p, p + c.len()) == c);
            } else if p < e <= t.len() {
                lemma_fallback_rule_shape(t, e);
            }
        }
    }
}

/// Whatever code is found is one to eight decimal digits taken from the
/// text.
pub proof fn lemma_code_comes_from_text(t: Seq<char>)
    ensures
        extracted_code(t) matches Some(c) ==> is_code_shape(c) && contains_seq(t, c),
{
    lemma_keyword_rule_shape(t, 0);
    lemma_fallback_rule_shape(t, 0);
}

/* ---------- account and phone numbers ---------- */

/// `t` has no ASCII letter and no 码, so none of the keywords (验证码,
/// 动态密码, 动态码, 校验码, 短信码, and the English ones) occurs in it.
pub open spec fn keyword_free(t: Seq<char>) -> bool {
    forall|i: int|
        0 <= i < t.len() ==> !((0x41 <= (#[trigger] t[i] as u32) && (t[i] as u32) <= 0x5a) || (0x61
            <= (t[i] as u32) && (t[i] as u32) <= 0x7a) || (t[i] as u32) == ('码' as u32))
}

/// One of 尾号, 卡号, 账号, 账户, 单号, 电话, 热线 and 客服 occurs among the up
/// to four characters before position `s`.
pub open spec fn context_word_before(t: Seq<char>, s: int) -> bool {
    let w = t.subrange(if s >= 4 { s - 4 } else { 0 }, s);
    ||| contains_seq(w, seq!['尾', '号'])
    ||| contains_seq(w, seq!['卡', '号'])
    ||| contains_seq(w, seq!['账', '号'])
    ||| contains_seq(w, seq!['账', '户'])
    ||| contains_seq(w, seq!['单', '号'])
    ||| contains_seq(w, seq!['电', '话'])
    ||| contains_seq(w, seq!['热', '线'])
    ||| contains_seq(w, seq!['客', '服'])
}

/// `c` stands in `t` at `s` and no context word precedes it there.
pub open spec fn run_clear_at(t: Seq<char>, c: Seq<char>, s: int) -> bool {
    &&& 0 <= s
    &&& s + c.len() <= t.len()
    &&& t.subrange(s, s + c.len()) == c
    &&& !context_word_before(t, s)
}

/// In a keyword-free text no keyword starts anywhere.
proof fn lemma_no_keyword_at(t: Seq<char>, q: int)
    requires
        keyword_free(t),
    ensures
        keyword_end(t, q) is None,
{
    if lit_at(t, q, seq!['验', '证', '码']) {
        assert(char_matches(t[q + 2], seq!['验', '证', '码'][2]));
    }
    if lit_at(t, q, seq!['动', '态', '密', '码']) {
        assert(char_matches(t[q + 3], seq!['动', '态', '密', '码'][3]));
    }
    if lit_at(t, q, seq!['动', '态', '码']) {
        assert(char_matches(t[q + 2], seq!['动', '态', '码'][2]));
    }
    if lit_at(t, q, seq!['校', '验', '码']) {
        assert(char_matches(t[q + 2], seq!['校', '验', '码'][2]));
    }
    if lit_at(t, q, seq!['短', '信', '码']) {
        assert(char_matches(t[q + 2], seq!['短', '信', '码'][2]));
    }
    if lit_at(t, q, kw_verification()) {
        assert(char_matches(t[q + 0], kw_verification()[0]));
    }
    if lit_at(t, q, kw_passcode()) {
        assert(char_matches(t[q + 0], kw_passcode()[0]));
    }
    let w = white_run_end(t, q + 8);
    if lit_at(t, w, kw_code()) {
        assert(char_matches(t[w + 0], kw_code()[0]));
    }
    if lit_at(t, q, kw_code()) {
        assert(char_matches(t[q + 0], kw_code()[0]));
    }
}

proof fn lemma_no_keyword_rule(t: Seq<char>, p: int)
    requires
        keyword_free(t),
    ensures
        keyword_rule(t, p) is None,
    decreases t.len() - p,
{
    if 0 <= p < t.len() {
        lemma_no_keyword_at(t, p);
        lemma_no_keyword_rule(t, p + 1);
    }
}

/// The stand-alone rule only takes a digit run of `t` that no context word
/// precedes.
#[verifier::spinoff_prover]
proof fn lemma_fallback_skips_context_words(t: Seq<char>, p: int)
    ensures
        fallback_rule(t, p) matches Some(c) ==> exists|s: int| #[trigger] run_clear_at(t, c, s),
    decreases t.len() - p,
{
    if 0 <= p < t.len() {
        if !is_decimal_digit(t[p]) {
            lemma_fallback_skips_context_words(t, p + 1);
            assert(fallback_rule(t, p) == fallback_rule(t, p + 1));
        } else {
            let e = digit_run_end(t, p);
            lemma_digit_run(t, p);
            lemma_digit_run(t, p + 1);
            if run_accepted(t, p, e) {
                let c = t.subrange(p, e);
                let bl = context_blacklist();
                let w = window_before(t, p);
                assert(bl[0] =~= seq!['尾', '号']);
                assert(bl[1] =~= seq!['卡', '号']);
                assert(bl[2] =~= seq!['账', '号']);
                assert(bl[3] =~= seq!['账', '户']);
                assert(bl[4] =~= seq!['单', '号']);
                assert(bl[5] =~= seq!['电', '话']);
                assert(bl[6] =~= seq!['热', '线']);
                assert(bl[7] =~= seq!['客', '服']);
                assert(!contains_seq(w, bl[0]));
                assert(!contains_seq(w, bl[1]));
                assert(!contains_seq(w, bl[2]));
                assert(!contains_seq(w, bl[3]));
                assert(!contains_seq(w, bl[4]));
                assert(!contains_seq(w, bl[5]));
                assert(!contains_seq(w, bl[6]));
                assert(!contains_seq(w, bl[7]));
                assert(!context_word_before(t, p));
                assert(t.subrange(p, p + c.len()) == c);
                assert(fallback_rule(t, p) == Some(c));
                let c2 = fallback_rule(t, p)->Some_0;
                assert(c2 =~= c);
                assert(run_clear_at(t, c2, p));
            } else if p < e <= t.len() {
                lemma_fallback_skips_context_words(t, e);
                assert(fallback_rule(t, p) == fallback_rule(t, e));
            } else {
                assert(fallback_rule(t, p) is None);
            }
        }
    }
}

/// A number right after an account, card, order or phone word is no code:
/// in a keyword-free text, the code found, if any, is a digit run of the
/// text that none of 尾号, 卡号, 账号, 账户, 单号, 电话, 热线 and 客服 precedes
/// within four characters. So a keyword-free text whose only digit run
/// follows such a word has no code.
pub proof fn lemma_context_words_rule_out_numbers(t: Seq<char>)
    requires
        keyword_free(t),
    ensures
        extracted_code(t) matches Some(c) ==> exists|s: int| #[trigger] run_clear_at(t, c, s),
{
    lemma_no_keyword_rule(t, 0);
    lemma_fallback_skips_context_words(t, 0);
}

/// Every decimal digit in `t` is an ASCII digit.
pub open spec fn only_ascii_digits(t: Seq<char>) -> bool {
    forall|i: int| 0 <= i < t.len() && is_decimal_digit(#[trigger] t[i]) ==> is_ascii_digit(t[i])
}

/// `c` stands in `t` at `i` as a whole run of digits: no ASCII digit right
/// before it or right after it.
pub open spec fn whole_digit_run_at(t: Seq<char>, c: Seq<char>, i: int) -> bool {
    &&& 0 <= i
    &&& i + c.len() <= t.len()
    &&& t.subrange(i, i + c.len()) == c
    &&& (i == 0 || !is_ascii_digit(t[i - 1]))
    &&& (i + c.len() == t.len() || !is_ascii_digit(t[i + c.len()]))
}

proof fn lemma_ascii_digit_is_decimal(c: char)
    ensures
        is_ascii_digit(c) ==> is_decimal_digit(c),
{
}

proof fn lemma_digit_run_stops(t: Seq<char>, i: int)
    ensures
        !(0 <= digit_run_end(t, i) < t.len() && is_decimal_digit(t[digit_run_end(t, i)])),
    decreases t.len() - i,
{
    if 0 <= i < t.len() && is_decimal_digit(t[i]) {
        lemma_digit_run_stops(t, i + 1);
    }
}

proof fn lemma_nondigit_run(t: Seq<char>, i: int)
    ensures
        nondigit_run_end(t, i) >= i,
        0 <= i <= t.len() ==> nondigit_run_end(t, i) <= t.len(),
        forall|k: int| i <= k < nondigit_run_end(t, i) ==> 0 <= k < t.len() && !is_decimal_digit(#[trigger] t[k]),
    decreases t.len() - i,
{
    if 0 <= i < t.len() && !is_decimal_digit(t[i]) {
        lemma_nondigit_run(t, i + 1);
        assert forall|k: int| i <= k < nondigit_run_end(t, i) implies 0 <= k < t.len() && !is_decimal_digit(
            #[trigger] t[k],
        ) by {
            if k > i {
                assert(i + 1 <= k < nondigit_run_end(t, i + 1));
            }
        }
    }
}

proof fn lemma_ascii_utf8_len(s: Seq<char>)
    requires
        forall|i: int| 0 <= i < s.len() ==> is_ascii_digit(#[trigger] s[i]),
    ensures
        utf8_byte_len(s) == s.len(),
    decreases s.len(),
{
    if s.len() > 0 {
        assert(is_ascii_digit(s[s.len() - 1]));
        lemma_ascii_utf8_len(s.drop_last());
    }
}

/// The character that ends a literal match is no ASCII digit when the
/// pattern's last character is none.
proof fn lemma_lit_end(t: Seq<char>, q: int, lit: Seq<char>)
    requires
        lit_at(t, q, lit),
        lit.len() > 0,
        !is_ascii_digit(lit[lit.len() - 1]),
        (lit[lit.len() - 1] as u32) >= 0x41,
    ensures
        q + lit.len() >= 1,
        !is_ascii_digit(t[q + lit.len() - 1]),
{
    assert(char_matches(t[q + (lit.len() - 1)], lit[lit.len() - 1]));
}

proof fn lemma_keyword_end_not_digit(t: Seq<char>, p: int)
    ensures
        keyword_end(t, p) matches Some(e) ==> 1 <= e <= t.len() && !is_ascii_digit(t[e - 1]),
{
    let ma = seq!['验', '证', '码'];
    let mb = seq!['动', '态', '密', '码'];
    let mc = seq!['动', '态', '码'];
    let md = seq!['校', '验', '码'];
    let me = seq!['短', '信', '码'];
    if lit_at(t, p, ma) {
        lemma_lit_end(t, p, ma);
    } else if lit_at(t, p, mb) {
        lemma_lit_end(t, p, mb);
    } else if lit_at(t, p, mc) {
        lemma_lit_end(t, p, mc);
    } else if lit_at(t, p, md) {
        lemma_lit_end(t, p, md);
    } else if lit_at(t, p, me) {
        lemma_lit_end(t, p, me);
    } else if lit_at(t, p, kw_verification()) && lit_at(t, white_run_end(t, p + 12), kw_code()) {
        lemma_lit_end(t, white_run_end(t, p + 12), kw_code());
    } else if lit_at(t, p, kw_security()) && lit_at(t, white_run_end(t, p + 8), kw_code()) {
        lemma_lit_end(t, white_run_end(t, p + 8), kw_code());
    } else if lit_at(t, p, kw_passcode()) {
        lemma_lit_end(t, p, kw_passcode());
    } else if lit_at(t, p, kw_code()) {
        lemma_lit_end(t, p, kw_code());
    }
}

#[verifier::spinoff_prover]
proof fn lemma_keyword_rule_whole(t: Seq<char>, p: int)
    requires
        only_ascii_digits(t),
    ensures
        keyword_rule(t, p) matches Some(c) ==> 4 <= c.len() <= 8 && (forall|k: int|
            0 <= k < c.len() ==> is_ascii_digit(#[trigger] c[k])) && exists|i: int| whole_digit_run_at(t, c, i),
    decreases t.len() - p,
{
    if 0 <= p < t.len() {
        match capture_at(t, p) {
            Some((s, e)) => {
                if e < t.len() && is_ascii_digit(t[e]) {
                    if e > p {
                        lemma_keyword_rule_whole(t, e);
                    }
                } else {
                    let ke = keyword_end(t, p)->0;
                    let j = nondigit_run_end(t, ke);
                    lemma_keyword_end_not_digit(t, p);
                    lemma_nondigit_run(t, ke);
                    lemma_digit_run(t, j);
                    let c = t.subrange(s, e);
                    assert(s == j);
                    assert forall|k: int| 0 <= k < c.len() implies is_ascii_digit(#[trigger] c[k]) by {
                        assert(c[k] == t[s + k]);
                        assert(is_decimal_digit(t[s + k]));
                    }
                    if s > ke {
                        assert(!is_decimal_digit(t[s - 1]));
                        lemma_ascii_digit_is_decimal(t[s - 1]);
                    }
                    assert(t.subrange(s, s + c.len()) == c);
                    assert(whole_digit_run_at(t, c, s));
                }
            },
            None => {
                lemma_keyword_rule_whole(t, p + 1);
            },
        }
    }
}

proof fn lemma_fallback_rule_whole(t: Seq<char>, p: int)
    requires
        only_ascii_digits(t),
        p == 0 || !(0 <= p < t.len() && is_decimal_digit(t[p])) || !is_decimal_digit(t[p - 1]),
    ensures
        fallback_rule(t, p) matches Some(c) ==> 4 <= c.len() <= 6 && (forall|k: int|
            0 <= k < c.len() ==> is_ascii_digit(#[trigger] c[k])) && exists|i: int| whole_digit_run_at(t, c, i),
    decreases t.len() - p,
{
    if 0 <= p < t.len() {
        if !is_decimal_digit(t[p]) {
            lemma_fallback_rule_whole(t, p + 1);
        } else {
            let e = digit_run_end(t, p);
            lemma_digit_run(t, p);
            lemma_digit_run(t, p + 1);
            lemma_digit_run_stops(t, p);
            if run_accepted(t, p, e) {
                let c = t.subrange(p, e);
                assert forall|k: int| 0 <= k < c.len() implies is_ascii_digit(#[trigger] c[k]) by {
                    assert(c[k] == t[p + k]);
                    assert(is_decimal_digit(t[p + k]));
                }
                lemma_ascii_utf8_len(c);
                if p > 0 {
                    lemma_ascii_digit_is_decimal(t[p - 1]);
                }
                if e < t.len() {
                    lemma_ascii_digit_is_decimal(t[e]);
                }
                assert(t.subrange(p, p + c.len()) == c);
                assert(whole_digit_run_at(t, c, p));
            } else if p < e <= t.len() {
                lemma_fallback_rule_whole(t, e);
            }
        }
    }
}

/// When the only digits in the text are ASCII digits, a code found is four
/// to eight ASCII digits that stand in the text as a whole run: never a
/// slice of a longer number.
pub proof fn lemma_code_is_whole_digit_run(t: Seq<char>)
    requires
        only_ascii_digits(t),
    ensures
        extracted_code(t) matches Some(c) ==> 4 <= c.len() <= 8 && (forall|k: int|
            0 <= k < c.len() ==> is_ascii_digit(#[trigger] c[k])) && exists|i: int| whole_digit_run_at(t, c, i),
{
    lemma_keyword_rule_whole(t, 0);
    lemma_fallback_rule_whole(t, 0);
}

/* ---------- implementation ---------- */

fn lit_char_matches(c: char, l: char) -> (r: bool)
    ensures
        r == char_matches(c, l),
{
    let v = c as u32;
    let w = l as u32;
    if 0x61 <= w && w <= 0x7a {
        v == w || v + 32 == w || (w == 0x6b && v == 0x212a) || (w == 0x73 && v == 0x17f)
    } else {
        v == w
    }
}

pub(crate) fn match_lit(t: &Vec<char>, p: usize, lit: &[char]) -> (r: bool)
    ensures
        r == lit_at(t@, p as int, lit@),
{
    if lit.len() > t.len() || p > t.len() - lit.len() {
        return false;
    }
    let mut i: usize = 0;
    while i < lit.len()
        invariant
            i <= lit.len(),
            p + lit.len() <= t.len(),
            forall|k: int| 0 <= k < i ==> #[trigger] char_matches(t@[p + k], lit@[k]),
        decreases lit.len() - i,
    {
        if !lit_char_matches(t[p + i], lit[i]) {
            return false;
        }
        i = i + 1;
    }
    true
}

fn digit_end(t: &Vec<char>, i: usize) -> (r: usize)
    requires
        i <= t.len(),
    ensures
        r as int == digit_run_end(t@, i as int),
        i <= r <= t.len(),
    decreases t.len() - i,
{
    let mut j = i;
    while j < t.len() && decimal_digit(t[j])
        invariant
            i <= j <= t.len(),
            digit_run_end(t@, i as int) == digit_run_end(t@, j as int),
        decreases t.len() - j,
    {
        j = j + 1;
    }
    j
}

fn nondigit_end(t: &Vec<char>, i: usize) -> (r: usize)
    requires
        i <= t.len(),
    ensures
        r as int == nondigit_run_end(t@, i as int),
        i <= r <= t.len(),
{
    let mut j = i;
    while j < t.len() && !decimal_digit(t[j])
        invariant
            i <= j <= t.len(),
            nondigit_run_end(t@, i as int) == nondigit_run_end(t@, j as int),
        decreases t.len() - j,
    {
        j = j + 1;
    }
    j
}

fn keyword_end_exec(t: &Vec<char>, p: usize) -> (r: Option<usize>)
    requires
        p < t.len(),
    ensures
        match r {
            Some(e) => keyword_end(t@, p as int) == Some(e as int) && p < e <= t.len(),
            None => keyword_end(t@, p as int) is None,
        },
{
    let k1 = ['验', '证', '码'];
    let k2 = ['动', '态', '密', '码'];
    let k3 = ['动', '态', '码'];
    let k4 = ['校', '验', '码'];
    let k5 = ['短', '信', '码'];
    let kv = ['v', 'e', 'r', 'i', 'f', 'i', 'c', 'a', 't', 'i', 'o', 'n'];
    let ks = ['s', 'e', 'c', 'u', 'r', 'i', 't', 'y'];
    let kp = ['p', 'a', 's', 's', 'c', 'o', 'd', 'e'];
    let kc = ['c', 'o', 'd', 'e'];
    assert(k1@ == seq!['验', '证', '码']);
    assert(k2@ == seq!['动', '态', '密', '码']);
    assert(k3@ == seq!['动', '态', '码']);
    assert(k4@ == seq!['校', '验', '码']);
    assert(k5@ == seq!['短', '信', '码']);
    assert(kv@ == kw_verification());
    assert(ks@ == kw_security());
    assert(kp@ == kw_passcode());
    assert(kc@ == kw_code());
    if match_lit(t, p, &k1) {
        return Some(p + 3);
    }
    if match_lit(t, p, &k2) {
        return Some(p + 4);
    }
    if match_lit(t, p, &k3) {
        return Some(p + 3);
    }
    if match_lit(t, p, &k4) {
        return Some(p + 3);
    }
    if match_lit(t, p, &k5) {
        return Some(p + 3);
    }
    if match_lit(t, p, &kv) {
        let w = white_end(t, p + 12);
        if match_lit(t, w, &kc) {
            return Some(w + 4);
        }
    }
    if match_lit(t, p, &ks) {
        let w = white_end(t, p + 8);
        if match_lit(t, w, &kc) {
            return Some(w + 4);
        }
    }
    if match_lit(t, p, &kp) {
        return Some(p + 8);
    }
    if match_lit(t, p, &kc) {
        return Some(p + 4);
    }
    None
}

fn capture_at_exec(t: &Vec<char>, p: usize) -> (r: Option<(usize, usize)>)
    requires
        p < t.len(),
    ensures
        match r {
            Some((s, e)) => capture_at(t@, p as int) == Some((s as int, e as int)) && p < s < e
                <= t.len(),
            None => capture_at(t@, p as int) is None,
        },
{
    match keyword_end_exec(t, p) {
        None => None,
        Some(e) => {
            let j = nondigit_end(t, e);
            let d = digit_end(t, j);
            if j - e <= 12 && d - j >= 4 {
                Some((j, if d - j > 8 { j + 8 } else { d }))
            } else {
                None
            }
        },
    }
}

fn is_ascii_digit_exec(c: char) -> (r: bool)
    ensures
        r == is_ascii_digit(c),
{
    0x30 <= (c as u32) && (c as u32) <= 0x39
}

fn is_currency_exec(c: char) -> (r: bool)
    ensures
        r == is_currency(c),
{
    let v = c as u32;
    v == 0xa5 || v == 0xffe5 || v == 0x24 || v == 0x20ac
}

fn window_has_blacklisted(t: &Vec<char>, s: usize) -> (r: bool)
    requires
        s <= t.len(),
    ensures
        r == exists|k: int|
            0 <= k < context_blacklist().len() && contains_seq(
                window_before(t@, s as int),
                #[trigger] context_blacklist()[k],
            ),
{
    let w = if s >= 4 {
        s - 4
    } else {
        0
    };
    let words: [[char; 2]; 8] = [
        ['尾', '号'],
        ['卡', '号'],
        ['账', '号'],
        ['账', '户'],
        ['单', '号'],
        ['电', '话'],
        ['热', '线'],
        ['客', '服'],
    ];
    let ghost bl = context_blacklist();
    assert(words@.len() == bl.len());
    assert forall|k: int| 0 <= k < 8 implies #[trigger] words@[k]@ == bl[k] by {
        assert(words@[0]@ =~= bl[0]);
        assert(words@[1]@ =~= bl[1]);
        assert(words@[2]@ =~= bl[2]);
        assert(words@[3]@ =~= bl[3]);
        assert(words@[4]@ =~= bl[4]);
        assert(words@[5]@ =~= bl[5]);
        assert(words@[6]@ =~= bl[6]);
        assert(words@[7]@ =~= bl[7]);
    }
    let mut k: usize = 0;
    while k < 8
        invariant
            k <= 8,
            w <= s <= t.len(),
            w == (if s >= 4 { s - 4 } else { 0 }),
            bl == context_blacklist(),
            forall|m: int| 0 <= m < 8 ==> #[trigger] words@[m]@ == bl[m],
            forall|m: int| 0 <= m < k ==> !contains_seq(window_before(t@, s as int), #[trigger] bl[m]),
        decreases 8 - k,
    {
        if contains_in_range(t, w, s, &words[k]) {
            assert(contains_seq(window_before(t@, s as int), bl[k as int]));
            return true;
        }
        k = k + 1;
    }
    false
}

fn run_accepted_exec(t: &Vec<char>, s: usize, e: usize) -> (r: bool)
    requires
        s < e <= t.len(),
    ensures
        r == run_accepted(t@, s as int, e as int),
{
    let len = utf8_len_capped(t, s, e, 6);
    if len < 4 || len > 6 {
        return false;
    }
    if s > 0 && is_currency_exec(t[s - 1]) {
        return false;
    }
    if e < t.len() && (t[e] == '.' || t[e] == ',') {
        return false;
    }
    if len == 4 && e - s >= 2 && ((t[s] == '1' && t[s + 1] == '9') || (t[s] == '2' && t[s + 1]
        == '0')) {
        return false;
    }
    !window_has_blacklisted(t, s)
}

/// Extracts the verification code from `text`; `None` when neither rule finds one.
pub fn extract_code(text: &str) -> (r: Option<String>)
    ensures
        match r {
            Some(c) => extracted_code(text@) == Some(c@),
            None => extracted_code(text@) is None,
        },
{
    let t = chars_of(text);
    // rule 1: keyword matches, leftmost first
    let mut p: usize = 0;
    while p < t.len()
        invariant
            p <= t.len(),
            t@ == text@,
            keyword_rule(t@, 0) == keyword_rule(t@, p as int),
        decreases t.len() - p,
    {
        match capture_at_exec(&t, p) {
            Some((s, e)) => {
                if e < t.len() && is_ascii_digit_exec(t[e]) {
                    p = e;
                } else {
                    let v = subvec(&t, s, e);
                    return Some(string_from_chars(v.as_slice()));
                }
            },
            None => {
                p = p + 1;
            },
        }
    }
    // rule 2: stand-alone digit runs
    let mut p: usize = 0;
    while p < t.len()
        invariant
            p <= t.len(),
            t@ == text@,
            keyword_rule(t@, 0) is None,
            fallback_rule(t@, 0) == fallback_rule(t@, p as int),
        decreases t.len() - p,
    {
        if !decimal_digit(t[p]) {
            p = p + 1;
        } else {
            let e = digit_end(&t, p + 1);
            assert(digit_run_end(t@, p as int) == digit_run_end(t@, p + 1));
            if run_accepted_exec(&t, p, e) {
                let v = subvec(&t, p, e);
                return Some(string_from_chars(v.as_slice()));
            }
            p = e;
        }
    }
    None
}

} // verus!
