//! Character-level helpers shared by the parsers: Unicode character classes,
//! conversions between `str`/`String` and `Vec<char>`, and small sequence
//! utilities with their specifications.

use vstd::prelude::*;

verus! {

/// Whether `c` belongs to the Unicode general category Decimal_Number (Nd),
/// the class that `\d` denotes in Unicode-aware regular expressions.
pub open spec fn is_decimal_digit(c: char) -> bool {
    let v = c as u32;
    (0x30 <= v && v <= 0x39)
    || (0x660 <= v && v <= 0x669)
    || (0x6f0 <= v && v <= 0x6f9)
    || (0x7c0 <= v && v <= 0x7c9)
    || (0x966 <= v && v <= 0x96f)
    || (0x9e6 <= v && v <= 0x9ef)
    || (0xa66 <= v && v <= 0xa6f)
    || (0xae6 <= v && v <= 0xaef)
    || (0xb66 <= v && v <= 0xb6f)
    || (0xbe6 <= v && v <= 0xbef)
    || (0xc66 <= v && v <= 0xc6f)
    || (0xce6 <= v && v <= 0xcef)
    || (0xd66 <= v && v <= 0xd6f)
    || (0xde6 <= v && v <= 0xdef)
    || (0xe50 <= v && v <= 0xe59)
    || (0xed0 <= v && v <= 0xed9)
    || (0xf20 <= v && v <= 0xf29)
    || (0x1040 <= v && v <= 0x1049)
    || (0x1090 <= v && v <= 0x1099)
    || (0x17e0 <= v && v <= 0x17e9)
    || (0x1810 <= v && v <= 0x1819)
    || (0x1946 <= v && v <= 0x194f)
    || (0x19d0 <= v && v <= 0x19d9)
    || (0x1a80 <= v && v <= 0x1a89)
    || (0x1a90 <= v && v <= 0x1a99)
    || (0x1b50 <= v && v <= 0x1b59)
    || (0x1bb0 <= v && v <= 0x1bb9)
    || (0x1c40 <= v && v <= 0x1c49)
    || (0x1c50 <= v && v <= 0x1c59)
    || (0xa620 <= v && v <= 0xa629)
    || (0xa8d0 <= v && v <= 0xa8d9)
    || (0xa900 <= v && v <= 0xa909)
    || (0xa9d0 <= v && v <= 0xa9d9)
    || (0xa9f0 <= v && v <= 0xa9f9)
    || (0xaa50 <= v && v <= 0xaa59)
    || (0xabf0 <= v && v <= 0xabf9)
    || (0xff10 <= v && v <= 0xff19)
    || (0x104a0 <= v && v <= 0x104a9)
    || (0x10d30 <= v && v <= 0x10d39)
    || (0x10d40 <= v && v <= 0x10d49)
    || (0x11066 <= v && v <= 0x1106f)
    || (0x110f0 <= v && v <= 0x110f9)
    || (0x11136 <= v && v <= 0x1113f)
    || (0x111d0 <= v && v <= 0x111d9)
    || (0x112f0 <= v && v <= 0x112f9)
    || (0x11450 <= v && v <= 0x11459)
    || (0x114d0 <= v && v <= 0x114d9)
    || (0x11650 <= v && v <= 0x11659)
    || (0x116c0 <= v && v <= 0x116c9)
    || (0x116d0 <= v && v <= 0x116e3)
    || (0x11730 <= v && v <= 0x11739)
    || (0x118e0 <= v && v <= 0x118e9)
    || (0x11950 <= v && v <= 0x11959)
    || (0x11bf0 <= v && v <= 0x11bf9)
    || (0x11c50 <= v && v <= 0x11c59)
    || (0x11d50 <= v && v <= 0x11d59)
    || (0x11da0 <= v && v <= 0x11da9)
    || (0x11f50 <= v && v <= 0x11f59)
    || (0x16130 <= v && v <= 0x16139)
    || (0x16a60 <= v && v <= 0x16a69)
    || (0x16ac0 <= v && v <= 0x16ac9)
    || (0x16b50 <= v && v <= 0x16b59)
    || (0x16d70 <= v && v <= 0x16d79)
    || (0x1ccf0 <= v && v <= 0x1ccf9)
    || (0x1d7ce <= v && v <= 0x1d7ff)
    || (0x1e140 <= v && v <= 0x1e149)
    || (0x1e2f0 <= v && v <= 0x1e2f9)
    || (0x1e4f0 <= v && v <= 0x1e4f9)
    || (0x1e5f1 <= v && v <= 0x1e5fa)
    || (0x1e950 <= v && v <= 0x1e959)
    || (0x1fbf0 <= v && v <= 0x1fbf9)
}

/// Executable form of `is_decimal_digit`.
pub(crate) fn decimal_digit(c: char) -> (b: bool)
    ensures
        b == is_decimal_digit(c),
{
    let v = c as u32;
    if 0x30 <= v && v <= 0x39 {
        return true;
    }
    if 0x660 <= v && v <= 0x669 {
        return true;
    }
    if 0x6f0 <= v && v <= 0x6f9 {
        return true;
    }
    if 0x7c0 <= v && v <= 0x7c9 {
        return true;
    }
    if 0x966 <= v && v <= 0x96f {
        return true;
    }
    if 0x9e6 <= v && v <= 0x9ef {
        return true;
    }
    if 0xa66 <= v && v <= 0xa6f {
        return true;
    }
    if 0xae6 <= v && v <= 0xaef {
        return true;
    }
    if 0xb66 <= v && v <= 0xb6f {
        return true;
    }
    if 0xbe6 <= v && v <= 0xbef {
        return true;
    }
    if 0xc66 <= v && v <= 0xc6f {
        return true;
    }
    if 0xce6 <= v && v <= 0xcef {
        return true;
    }
    if 0xd66 <= v && v <= 0xd6f {
        return true;
    }
    if 0xde6 <= v && v <= 0xdef {
        return true;
    }
    if 0xe50 <= v && v <= 0xe59 {
        return true;
    }
    if 0xed0 <= v && v <= 0xed9 {
        return true;
    }
    if 0xf20 <= v && v <= 0xf29 {
        return true;
    }
    if 0x1040 <= v && v <= 0x1049 {
        return true;
    }
    if 0x1090 <= v && v <= 0x1099 {
        return true;
    }
    if 0x17e0 <= v && v <= 0x17e9 {
        return true;
    }
    if 0x1810 <= v && v <= 0x1819 {
        return true;
    }
    if 0x1946 <= v && v <= 0x194f {
        return true;
    }
    if 0x19d0 <= v && v <= 0x19d9 {
        return true;
    }
    if 0x1a80 <= v && v <= 0x1a89 {
        return true;
    }
    if 0x1a90 <= v && v <= 0x1a99 {
        return true;
    }
    if 0x1b50 <= v && v <= 0x1b59 {
        return true;
    }
    if 0x1bb0 <= v && v <= 0x1bb9 {
        return true;
    }
    if 0x1c40 <= v && v <= 0x1c49 {
        return true;
    }
    if 0x1c50 <= v && v <= 0x1c59 {
        return true;
    }
    if 0xa620 <= v && v <= 0xa629 {
        return true;
    }
    if 0xa8d0 <= v && v <= 0xa8d9 {
        return true;
    }
    if 0xa900 <= v && v <= 0xa909 {
        return true;
    }
    if 0xa9d0 <= v && v <= 0xa9d9 {
        return true;
    }
    if 0xa9f0 <= v && v <= 0xa9f9 {
        return true;
    }
    if 0xaa50 <= v && v <= 0xaa59 {
        return true;
    }
    if 0xabf0 <= v && v <= 0xabf9 {
        return true;
    }
    if 0xff10 <= v && v <= 0xff19 {
        return true;
    }
    if 0x104a0 <= v && v <= 0x104a9 {
        return true;
    }
    if 0x10d30 <= v && v <= 0x10d39 {
        return true;
    }
    if 0x10d40 <= v && v <= 0x10d49 {
        return true;
    }
    if 0x11066 <= v && v <= 0x1106f {
        return true;
    }
    if 0x110f0 <= v && v <= 0x110f9 {
        return true;
    }
    if 0x11136 <= v && v <= 0x1113f {
        return true;
    }
    if 0x111d0 <= v && v <= 0x111d9 {
        return true;
    }
    if 0x112f0 <= v && v <= 0x112f9 {
        return true;
    }
    if 0x11450 <= v && v <= 0x11459 {
        return true;
    }
    if 0x114d0 <= v && v <= 0x114d9 {
        return true;
    }
    if 0x11650 <= v && v <= 0x11659 {
        return true;
    }
    if 0x116c0 <= v && v <= 0x116c9 {
        return true;
    }
    if 0x116d0 <= v && v <= 0x116e3 {
        return true;
    }
    if 0x11730 <= v && v <= 0x11739 {
        return true;
    }
    if 0x118e0 <= v && v <= 0x118e9 {
        return true;
    }
    if 0x11950 <= v && v <= 0x11959 {
        return true;
    }
    if 0x11bf0 <= v && v <= 0x11bf9 {
        return true;
    }
    if 0x11c50 <= v && v <= 0x11c59 {
        return true;
    }
    if 0x11d50 <= v && v <= 0x11d59 {
        return true;
    }
    if 0x11da0 <= v && v <= 0x11da9 {
        return true;
    }
    if 0x11f50 <= v && v <= 0x11f59 {
        return true;
    }
    if 0x16130 <= v && v <= 0x16139 {
        return true;
    }
    if 0x16a60 <= v && v <= 0x16a69 {
        return true;
    }
    if 0x16ac0 <= v && v <= 0x16ac9 {
        return true;
    }
    if 0x16b50 <= v && v <= 0x16b59 {
        return true;
    }
    if 0x16d70 <= v && v <= 0x16d79 {
        return true;
    }
    if 0x1ccf0 <= v && v <= 0x1ccf9 {
        return true;
    }
    if 0x1d7ce <= v && v <= 0x1d7ff {
        return true;
    }
    if 0x1e140 <= v && v <= 0x1e149 {
        return true;
    }
    if 0x1e2f0 <= v && v <= 0x1e2f9 {
        return true;
    }
    if 0x1e4f0 <= v && v <= 0x1e4f9 {
        return true;
    }
    if 0x1e5f1 <= v && v <= 0x1e5fa {
        return true;
    }
    if 0x1e950 <= v && v <= 0x1e959 {
        return true;
    }
    if 0x1fbf0 <= v && v <= 0x1fbf9 {
        return true;
    }
    false
}

/// Whether `c` is one of the ASCII digits `0`..`9`.
pub open spec fn is_ascii_digit(c: char) -> bool {
    0x30 <= (c as u32) && (c as u32) <= 0x39
}

/// Whether `c` has the Unicode property White_Space (the class of `\s` in
/// Unicode-aware regular expressions, and what `char::is_whitespace` tests).
pub open spec fn is_white_space(c: char) -> bool {
    let v = c as u32;
    (0x9 <= v && v <= 0xd) || v == 0x20 || v == 0x85 || v == 0xa0 || v == 0x1680
        || (0x2000 <= v && v <= 0x200a) || v == 0x2028 || v == 0x2029 || v == 0x202f
        || v == 0x205f || v == 0x3000
}

/// Executable form of `is_white_space`.
pub(crate) fn white_space(c: char) -> (b: bool)
    ensures
        b == is_white_space(c),
{
    let v = c as u32;
    (0x9 <= v && v <= 0xd) || v == 0x20 || v == 0x85 || v == 0xa0 || v == 0x1680
        || (0x2000 <= v && v <= 0x200a) || v == 0x2028 || v == 0x2029 || v == 0x202f
        || v == 0x205f || v == 0x3000
}

/// End of the run of white space starting at `i`.
pub open spec fn white_run_end(t: Seq<char>, i: int) -> int
    decreases t.len() - i,
{
    if 0 <= i < t.len() && is_white_space(t[i]) {
        white_run_end(t, i + 1)
    } else {
        i
    }
}

/// End of the run of non-white-space characters starting at `i`.
pub open spec fn nonwhite_run_end(t: Seq<char>, i: int) -> int
    decreases t.len() - i,
{
    if 0 <= i < t.len() && !is_white_space(t[i]) {
        nonwhite_run_end(t, i + 1)
    } else {
        i
    }
}

/// Executable form of `white_run_end`.
pub(crate) fn white_end(t: &Vec<char>, i: usize) -> (r: usize)
    requires
        i <= t.len(),
    ensures
        r as int == white_run_end(t@, i as int),
        i <= r <= t.len(),
        r < t.len() ==> !is_white_space(t@[r as int]),
        forall|k: int| i <= k < r ==> is_white_space(#[trigger] t@[k]),
{
    let mut j = i;
    while j < t.len() && white_space(t[j])
        invariant
            i <= j <= t.len(),
            white_run_end(t@, i as int) == white_run_end(t@, j as int),
            forall|k: int| i <= k < j ==> is_white_space(#[trigger] t@[k]),
        decreases t.len() - j,
    {
        j = j + 1;
    }
    j
}

/// Executable form of `nonwhite_run_end`.
pub(crate) fn nonwhite_end(t: &Vec<char>, i: usize) -> (r: usize)
    requires
        i <= t.len(),
    ensures
        r as int == nonwhite_run_end(t@, i as int),
        i <= r <= t.len(),
        r < t.len() ==> is_white_space(t@[r as int]),
        i < t.len() && !is_white_space(t@[i as int]) ==> i < r,
        forall|k: int| i <= k < r ==> !is_white_space(#[trigger] t@[k]),
{
    let mut j = i;
    while j < t.len() && !white_space(t[j])
        invariant
            i <= j <= t.len(),
            nonwhite_run_end(t@, i as int) == nonwhite_run_end(t@, j as int),
            forall|k: int| i <= k < j ==> !is_white_space(#[trigger] t@[k]),
        decreases t.len() - j,
    {
        j = j + 1;
    }
    j
}

/// The white-space separated words of `s` from position `p` on (what
/// `str::split_whitespace` yields).
pub open spec fn words_from(s: Seq<char>, p: int) -> Seq<Seq<char>>
    decreases s.len() - p,
{
    let a = white_run_end(s, p);
    if p < 0 || a >= s.len() || a < p {
        Seq::empty()
    } else {
        let b = nonwhite_run_end(s, a);
        if a < b <= s.len() {
            seq![s.subrange(a, b)] + words_from(s, b)
        } else {
            Seq::empty()
        }
    }
}

/// The white-space separated words of `s`.
pub open spec fn words(s: Seq<char>) -> Seq<Seq<char>> {
    words_from(s, 0)
}

/// Number of bytes that `c` takes in UTF-8.
pub open spec fn utf8_len(c: char) -> nat {
    let v = c as u32;
    if v < 0x80 {
        1
    } else if v < 0x800 {
        2
    } else if v < 0x10000 {
        3
    } else {
        4
    }
}

/// Number of bytes that `s` takes in UTF-8.
pub open spec fn utf8_byte_len(s: Seq<char>) -> nat
    decreases s.len(),
{
    if s.len() == 0 {
        0
    } else {
        utf8_byte_len(s.drop_last()) + utf8_len(s.last())
    }
}

/// The characters of `s`, in order.
pub(crate) fn chars_of(s: &str) -> (r: Vec<char>)
    ensures
        r@ == s@,
{
    let mut r: Vec<char> = Vec::new();
    for c in it: s.chars()
        invariant
            r@ == it.seq().take(it.index() as int),
    {
        r.push(c);
    }
    r
}

/// Builds a `String` from characters (`String::from_iter` over the slice,
/// which yields exactly those characters in order).
#[verifier::external_body]
pub(crate) fn string_from_chars(v: &[char]) -> (r: String)
    ensures
        r@ == v@,
{
    String::from_iter(v)
}

/// Whether two strings hold the same characters.
pub(crate) fn str_eq(a: &str, b: &str) -> (r: bool)
    ensures
        r == (a@ == b@),
{
    let x = chars_of(a);
    let y = chars_of(b);
    chars_eq(&x, &y)
}

/// Whether two character vectors are equal.
pub(crate) fn chars_eq(x: &Vec<char>, y: &Vec<char>) -> (r: bool)
    ensures
        r == (x@ == y@),
{
    if x.len() != y.len() {
        return false;
    }
    let mut i: usize = 0;
    while i < x.len()
        invariant
            x.len() == y.len(),
            i <= x.len(),
            forall|k: int| 0 <= k < i ==> x@[k] == y@[k],
        decreases x.len() - i,
    {
        if x[i] != y[i] {
            return false;
        }
        i = i + 1;
    }
    assert(x@ =~= y@);
    true
}

/// Executable form of `utf8_len`.
pub(crate) fn utf8_len_of(c: char) -> (n: usize)
    ensures
        n == utf8_len(c),
{
    let v = c as u32;
    if v < 0x80 {
        1
    } else if v < 0x800 {
        2
    } else if v < 0x10000 {
        3
    } else {
        4
    }
}

/// Extending a string never shortens its UTF-8 encoding.
pub proof fn lemma_utf8_byte_len_monotone(t: Seq<char>, s: int, i: int, j: int)
    requires
        0 <= s <= i <= j <= t.len(),
    ensures
        utf8_byte_len(t.subrange(s, i)) <= utf8_byte_len(t.subrange(s, j)),
    decreases j - i,
{
    if i < j {
        lemma_utf8_byte_len_monotone(t, s, i, j - 1);
        assert(t.subrange(s, j).drop_last() =~= t.subrange(s, j - 1));
    }
}

/// The UTF-8 length of `t[s..e]` when it is at most `cap`, otherwise some
/// number above `cap`.
pub(crate) fn utf8_len_capped(t: &Vec<char>, s: usize, e: usize, cap: usize) -> (n: usize)
    requires
        s <= e <= t.len(),
        cap < usize::MAX - 4,
    ensures
        utf8_byte_len(t@.subrange(s as int, e as int)) <= cap ==> n == utf8_byte_len(
            t@.subrange(s as int, e as int),
        ),
        utf8_byte_len(t@.subrange(s as int, e as int)) > cap ==> n > cap,
{
    let mut n: usize = 0;
    let mut i = s;
    while i < e
        invariant
            s <= i <= e <= t.len(),
            cap < usize::MAX - 4,
            n == utf8_byte_len(t@.subrange(s as int, i as int)),
            n <= cap,
        decreases e - i,
    {
        assert(t@.subrange(s as int, i + 1).drop_last() =~= t@.subrange(s as int, i as int));
        n = n + utf8_len_of(t[i]);
        i = i + 1;
        if n > cap {
            proof {
                lemma_utf8_byte_len_monotone(t@, s as int, i as int, e as int);
            }
            return n;
        }
    }
    n
}

/// The characters `t[s..e]` as a new vector.
pub(crate) fn subvec(t: &Vec<char>, s: usize, e: usize) -> (r: Vec<char>)
    requires
        s <= e <= t.len(),
    ensures
        r@ == t@.subrange(s as int, e as int),
{
    let mut r: Vec<char> = Vec::new();
    let mut i = s;
    while i < e
        invariant
            s <= i <= e <= t.len(),
            r@ == t@.subrange(s as int, i as int),
        decreases e - i,
    {
        r.push(t[i]);
        i = i + 1;
    }
    r
}

/// `w` occurs in `s` as a contiguous subsequence.
pub open spec fn contains_seq(s: Seq<char>, w: Seq<char>) -> bool {
    exists|i: int| 0 <= i && i + w.len() <= s.len() && #[trigger] s.subrange(i, i + w.len()) == w
}

/// Whether `w` occurs in `t[lo..hi]`.
pub(crate) fn contains_in_range(t: &Vec<char>, lo: usize, hi: usize, w: &[char]) -> (r: bool)
    requires
        lo <= hi <= t.len(),
    ensures
        r == contains_seq(t@.subrange(lo as int, hi as int), w@),
{
    let ghost h = t@.subrange(lo as int, hi as int);
    if w.len() > hi - lo {
        assert(!contains_seq(h, w@));
        return false;
    }
    let mut i = lo;
    while i <= hi - w.len()
        invariant
            lo <= i <= hi - w.len() + 1,
            w.len() <= hi - lo,
            hi <= t.len(),
            h == t@.subrange(lo as int, hi as int),
            forall|k: int| 0 <= k < i - lo ==> #[trigger] h.subrange(k, k + w@.len()) != w@,
        decreases hi - i,
    {
        let mut j: usize = 0;
        let mut same = true;
        while j < w.len()
            invariant
                j <= w.len(),
                i + w.len() <= hi <= t.len(),
                same == (forall|m: int| 0 <= m < j ==> t@[i + m] == w@[m]),
            decreases w.len() - j,
        {
            if t[i + j] != w[j] {
                same = false;
            }
            j = j + 1;
        }
        assert(h.subrange(i - lo, i - lo + w@.len()) =~= t@.subrange(i as int, i + w@.len()));
        if same {
            assert(h.subrange(i - lo, i - lo + w@.len()) =~= w@);
            return true;
        } else {
            assert(h.subrange(i - lo, i - lo + w@.len()) != w@) by {
                let m = choose|m: int| 0 <= m < w.len() && t@[i + m] != w@[m];
                assert(h.subrange(i - lo, i - lo + w@.len())[m] == t@[i + m]);
            }
        }
        i = i + 1;
    }
    assert forall|k: int| 0 <= k && k + w@.len() <= h.len() implies #[trigger] h.subrange(
        k,
        k + w@.len(),
    ) != w@ by {
        assert(k < i - lo);
    }
    false
}

/// `s` without leading white space.
pub open spec fn trim_start(s: Seq<char>) -> Seq<char>
    decreases s.len(),
{
    if s.len() > 0 && is_white_space(s[0]) {
        trim_start(s.drop_first())
    } else {
        s
    }
}

/// `s` without trailing white space.
pub open spec fn trim_end(s: Seq<char>) -> Seq<char>
    decreases s.len(),
{
    if s.len() > 0 && is_white_space(s.last()) {
        trim_end(s.drop_last())
    } else {
        s
    }
}

/// `s` without leading and trailing white space (what `str::trim` returns).
pub open spec fn trim(s: Seq<char>) -> Seq<char> {
    trim_end(trim_start(s))
}

/// `trim_start(s)` is `s` from its first non-white-space character on.
proof fn lemma_trim_start_from(s: Seq<char>, i: int)
    requires
        0 <= i <= s.len(),
        forall|k: int| 0 <= k < i ==> is_white_space(#[trigger] s[k]),
    ensures
        trim_start(s) == trim_start(s.subrange(i, s.len() as int)),
    decreases i,
{
    if i > 0 {
        assert(s.drop_first().subrange(i - 1, s.drop_first().len() as int) =~= s.subrange(
            i,
            s.len() as int,
        ));
        assert forall|k: int| 0 <= k < i - 1 implies is_white_space(
            #[trigger] s.drop_first()[k],
        ) by {
            assert(s.drop_first()[k] == s[k + 1]);
        }
        lemma_trim_start_from(s.drop_first(), i - 1);
    } else {
        assert(s.subrange(0, s.len() as int) =~= s);
    }
}

/// `trim_end(s)` is `s` up to its last non-white-space character.
proof fn lemma_trim_end_to(s: Seq<char>, j: int)
    requires
        0 <= j <= s.len(),
        forall|k: int| j <= k < s.len() ==> is_white_space(#[trigger] s[k]),
    ensures
        trim_end(s) == trim_end(s.subrange(0, j)),
    decreases s.len() - j,
{
    if j < s.len() {
        assert(s.drop_last().subrange(0, j) =~= s.subrange(0, j));
        assert forall|k: int| j <= k < s.drop_last().len() implies is_white_space(
            #[trigger] s.drop_last()[k],
        ) by {
            assert(s.drop_last()[k] == s[k]);
        }
        lemma_trim_end_to(s.drop_last(), j);
    } else {
        assert(s.subrange(0, j) =~= s);
    }
}

/// `v` without leading and trailing white space.
pub(crate) fn trim_chars(v: &Vec<char>) -> (r: Vec<char>)
    ensures
        r@ == trim(v@),
{
    let mut lo: usize = 0;
    while lo < v.len() && white_space(v[lo])
        invariant
            lo <= v.len(),
            forall|k: int| 0 <= k < lo ==> is_white_space(#[trigger] v@[k]),
        decreases v.len() - lo,
    {
        lo = lo + 1;
    }
    let ghost rest = v@.subrange(lo as int, v@.len() as int);
    proof {
        lemma_trim_start_from(v@, lo as int);
    }
    let mut hi: usize = v.len();
    while hi > lo && white_space(v[hi - 1])
        invariant
            lo <= hi <= v.len(),
            forall|k: int| hi <= k < v.len() ==> is_white_space(#[trigger] v@[k]),
        decreases hi,
    {
        hi = hi - 1;
    }
    proof {
        assert(trim_start(rest) == rest);
        assert forall|k: int| hi - lo <= k < rest.len() implies is_white_space(#[trigger] rest[k]) by {
            assert(rest[k] == v@[k + lo]);
        }
        lemma_trim_end_to(rest, hi - lo);
        assert(rest.subrange(0, hi - lo) =~= v@.subrange(lo as int, hi as int));
        if hi > lo {
            assert(!is_white_space(v@.subrange(lo as int, hi as int).last()));
        }
    }
    subvec(v, lo, hi)
}

/* ---------- decimal numbers ---------- */

/// Value of an ASCII digit.
pub open spec fn digit_value(c: char) -> int {
    (c as u32) - 0x30
}

/// Value of a string of ASCII digits.
pub open spec fn decimal_value(d: Seq<char>) -> int
    decreases d.len(),
{
    if d.len() == 0 {
        0
    } else {
        decimal_value(d.drop_last()) * 10 + digit_value(d.last())
    }
}

/// Every character of `d` is an ASCII digit.
pub open spec fn all_ascii_digits(d: Seq<char>) -> bool {
    forall|i: int| 0 <= i < d.len() ==> is_ascii_digit(#[trigger] d[i])
}

/// What the standard library's decimal parsing of an unsigned integer type
/// with maximum `max` yields for `s`: an optional `+`, then at least one
/// ASCII digit, and a value that fits.
pub open spec fn parsed_unsigned(s: Seq<char>, max: int) -> Option<int> {
    let d = if s.len() > 0 && s[0] == '+' {
        s.drop_first()
    } else {
        s
    };
    if d.len() > 0 && all_ascii_digits(d) && decimal_value(d) <= max {
        Some(decimal_value(d))
    } else {
        None
    }
}

proof fn lemma_decimal_value_monotone(d: Seq<char>, i: int, j: int)
    requires
        0 <= i <= j <= d.len(),
        all_ascii_digits(d),
    ensures
        0 <= decimal_value(d.subrange(0, i)) <= decimal_value(d.subrange(0, j)),
    decreases j,
{
    if j > 0 {
        assert(d.subrange(0, j).drop_last() =~= d.subrange(0, j - 1));
        if i < j {
            lemma_decimal_value_monotone(d, i, j - 1);
        } else {
            lemma_decimal_value_monotone(d, i - 1, j - 1);
        }
    } else {
        assert(d.subrange(0, 0) =~= Seq::<char>::empty());
    }
}

/// Parses `s` as `u64::from_str` does.
pub(crate) fn parse_u64(s: &Vec<char>) -> (r: Option<u64>)
    ensures
        match r {
            Some(v) => parsed_unsigned(s@, u64::MAX as int) == Some(v as int),
            None => parsed_unsigned(s@, u64::MAX as int) is None,
        },
{
    let start: usize = if s.len() > 0 && s[0] == '+' {
        1
    } else {
        0
    };
    let ghost d = if s@.len() > 0 && s@[0] == '+' {
        s@.drop_first()
    } else {
        s@
    };
    assert(d =~= s@.subrange(start as int, s@.len() as int));
    if start >= s.len() {
        return None;
    }
    let mut v: u64 = 0;
    let mut i = start;
    while i < s.len()
        invariant
            start <= i <= s.len(),
            d =~= s@.subrange(start as int, s@.len() as int),
            d == (if s@.len() > 0 && s@[0] == '+' {
                s@.drop_first()
            } else {
                s@
            }),
            forall|k: int| start <= k < i ==> is_ascii_digit(#[trigger] s@[k]),
            v as int == decimal_value(d.subrange(0, i - start)),
        decreases s.len() - i,
    {
        let c = s[i];
        if !(0x30 <= (c as u32) && (c as u32) <= 0x39) {
            assert(d[i - start] == c);
            assert(!is_ascii_digit(c));
            assert(!all_ascii_digits(d));
            assert(parsed_unsigned(s@, u64::MAX as int) is None);
            return None;
        }
        assert(d.subrange(0, i + 1 - start).drop_last() =~= d.subrange(0, i - start));
        let dv = ((c as u32) - 0x30) as u64;
        if v > (u64::MAX - dv) / 10 {
            assert(v * 10 + dv > u64::MAX) by (nonlinear_arith)
                requires
                    v > (u64::MAX - dv) / 10,
                    dv <= 9,
            ;
            proof {
                assert(all_ascii_digits(d) ==> decimal_value(d) > u64::MAX) by {
                    if all_ascii_digits(d) {
                        lemma_decimal_value_monotone(d, i + 1 - start, d.len() as int);
                        assert(d.subrange(0, d.len() as int) =~= d);
                    }
                }
            }
            return None;
        }
        v = v * 10 + dv;
        i = i + 1;
    }
    assert(d.subrange(0, d.len() as int) =~= d);
    assert(all_ascii_digits(d)) by {
        assert forall|k: int| 0 <= k < d.len() implies is_ascii_digit(#[trigger] d[k]) by {
            assert(d[k] == s@[k + start]);
        }
    }
    Some(v)
}

/// Parses `s` as `u32::from_str` does.
pub(crate) fn parse_u32(s: &Vec<char>) -> (r: Option<u32>)
    ensures
        match r {
            Some(v) => parsed_unsigned(s@, u32::MAX as int) == Some(v as int),
            None => parsed_unsigned(s@, u32::MAX as int) is None,
        },
{
    match parse_u64(s) {
        Some(v) => if v <= u32::MAX as u64 {
            Some(v as u32)
        } else {
            None
        },
        None => {
            proof {
                let d = if s@.len() > 0 && s@[0] == '+' {
                    s@.drop_first()
                } else {
                    s@
                };
                assert(parsed_unsigned(s@, u32::MAX as int) is Some ==> decimal_value(d)
                    <= u64::MAX);
            }
            None
        },
    }
}

/// The ASCII digit for `d` in `0..10`.
pub open spec fn digit_char(d: int) -> char {
    if d == 0 {
        '0'
    } else if d == 1 {
        '1'
    } else if d == 2 {
        '2'
    } else if d == 3 {
        '3'
    } else if d == 4 {
        '4'
    } else if d == 5 {
        '5'
    } else if d == 6 {
        '6'
    } else if d == 7 {
        '7'
    } else if d == 8 {
        '8'
    } else {
        '9'
    }
}

/// Decimal notation of `n` without leading zeros (what `{}` prints).
pub open spec fn decimal_digits(n: nat) -> Seq<char>
    decreases n,
{
    if n < 10 {
        seq![digit_char(n as int)]
    } else {
        decimal_digits(n / 10) + seq![digit_char((n % 10) as int)]
    }
}

/// Decimal notation of a signed number (what `{}` prints).
pub open spec fn signed_decimal(n: int) -> Seq<char> {
    if n < 0 {
        seq!['-'] + decimal_digits((-n) as nat)
    } else {
        decimal_digits(n as nat)
    }
}

fn digit_char_exec(d: u64) -> (c: char)
    requires
        d < 10,
    ensures
        c == digit_char(d as int),
{
    if d == 0 {
        '0'
    } else if d == 1 {
        '1'
    } else if d == 2 {
        '2'
    } else if d == 3 {
        '3'
    } else if d == 4 {
        '4'
    } else if d == 5 {
        '5'
    } else if d == 6 {
        '6'
    } else if d == 7 {
        '7'
    } else if d == 8 {
        '8'
    } else {
        '9'
    }
}

/// Decimal notation of `n`.
pub(crate) fn u64_decimal(n: u64) -> (r: Vec<char>)
    ensures
        r@ == decimal_digits(n as nat),
    decreases n,
{
    if n < 10 {
        let mut v = Vec::new();
        v.push(digit_char_exec(n));
        v
    } else {
        let mut v = u64_decimal(n / 10);
        v.push(digit_char_exec(n % 10));
        v
    }
}

/// Decimal notation of a signed `n`.
pub(crate) fn i64_decimal(n: i64) -> (r: Vec<char>)
    ensures
        r@ == signed_decimal(n as int),
{
    if n < 0 {
        let m: u64 = if n == i64::MIN {
            9_223_372_036_854_775_808u64
        } else {
            (-n) as u64
        };
        let digits = u64_decimal(m);
        let mut v: Vec<char> = Vec::new();
        v.push('-');
        append_chars(&mut v, &digits);
        v
    } else {
        u64_decimal(n as u64)
    }
}

/// Appends the characters of `b` to `a`.
pub(crate) fn append_chars(a: &mut Vec<char>, b: &Vec<char>)
    ensures
        final(a)@ == old(a)@ + b@,
{
    let ghost start = a@;
    let mut i: usize = 0;
    while i < b.len()
        invariant
            i <= b.len(),
            a@ == start + b@.subrange(0, i as int),
        decreases b.len() - i,
    {
        a.push(b[i]);
        i = i + 1;
    }
    assert(b@.subrange(0, b@.len() as int) =~= b@);
}

/// Appends the characters of `s` to `a`.
pub(crate) fn append_str(a: &mut Vec<char>, s: &str)
    ensures
        final(a)@ == old(a)@ + s@,
{
    let b = chars_of(s);
    append_chars(a, &b);
}

/// A `String` holding the characters of `a` followed by those of `b`.
pub(crate) fn joined(a: &str, b: &str) -> (r: String)
    ensures
        r@ == a@ + b@,
{
    let mut v = chars_of(a);
    append_str(&mut v, b);
    string_from_chars(v.as_slice())
}

/// The first index at or after `i` where `c` occurs, or `t.len()`.
pub open spec fn find_char(t: Seq<char>, i: int, c: char) -> int
    decreases t.len() - i,
{
    if i < 0 || i >= t.len() {
        t.len() as int
    } else if t[i] == c {
        i
    } else {
        find_char(t, i + 1, c)
    }
}

/// Finds the first `c` at or after `i`.
pub(crate) fn find_char_from(t: &Vec<char>, i: usize, c: char) -> (r: usize)
    requires
        i <= t.len(),
    ensures
        r as int == find_char(t@, i as int, c),
        i <= r <= t.len(),
        r < t.len() ==> t@[r as int] == c,
{
    let mut j = i;
    while j < t.len() && t[j] != c
        invariant
            i <= j <= t.len(),
            find_char(t@, i as int, c) == find_char(t@, j as int, c),
        decreases t.len() - j,
    {
        j = j + 1;
    }
    j
}

/// The pieces of `s` from position `p` on, split at each `sep` (as
/// `str::split` gives them: an empty piece where two separators meet or the
/// string starts or ends with one).
pub open spec fn segments_from(s: Seq<char>, p: int, sep: char) -> Seq<Seq<char>>
    decreases s.len() + 1 - p,
{
    if p < 0 || p > s.len() {
        Seq::empty()
    } else {
        let e = find_char(s, p, sep);
        if e < s.len() && p <= e {
            seq![s.subrange(p, e)] + segments_from(s, e + 1, sep)
        } else {
            seq![s.subrange(p, s.len() as int)]
        }
    }
}

/* ---------- standard library string operations ---------- */

/// `s` with leading and trailing white space removed, as a slice of `s`
/// (`str::trim`, whose documented behaviour `trim` states).
#[verifier::external_body]
pub(crate) fn str_trim(s: &str) -> (r: &str)
    ensures
        r@ == trim(s@),
{
    s.trim()
}

/// What `str::to_lowercase` returns for `s` (Unicode lowercase mapping).
pub uninterp spec fn lowercase(s: Seq<char>) -> Seq<char>;

/// What `str::to_uppercase` returns for `s` (Unicode uppercase mapping).
pub uninterp spec fn uppercase(s: Seq<char>) -> Seq<char>;

/// Every character of `s` is ASCII.
pub open spec fn all_ascii(s: Seq<char>) -> bool {
    forall|i: int| 0 <= i < s.len() ==> (#[trigger] s[i] as u32) < 128
}

/// `c` with an ASCII capital letter replaced by its small letter.
pub open spec fn ascii_lower_char(c: char) -> char {
    if 65 <= (c as u32) <= 90 {
        ((c as u32) + 32) as char
    } else {
        c
    }
}

/// `c` with an ASCII small letter replaced by its capital letter.
pub open spec fn ascii_upper_char(c: char) -> char {
    if 97 <= (c as u32) <= 122 {
        ((c as u32) - 32) as char
    } else {
        c
    }
}

/// `s` with each ASCII capital letter replaced by its small letter.
pub open spec fn ascii_lowered(s: Seq<char>) -> Seq<char> {
    s.map_values(|c: char| ascii_lower_char(c))
}

/// `s` with each ASCII small letter replaced by its capital letter.
pub open spec fn ascii_uppered(s: Seq<char>) -> Seq<char> {
    s.map_values(|c: char| ascii_upper_char(c))
}

/// Trimming keeps text ASCII: it only removes characters from the ends.
pub proof fn lemma_trim_keeps_ascii(s: Seq<char>)
    requires
        all_ascii(s),
    ensures
        all_ascii(trim(s)),
{
    lemma_trim_start_keeps_ascii(s);
    lemma_trim_end_keeps_ascii(trim_start(s));
}

proof fn lemma_trim_start_keeps_ascii(s: Seq<char>)
    requires
        all_ascii(s),
    ensures
        all_ascii(trim_start(s)),
    decreases s.len(),
{
    if s.len() > 0 && is_white_space(s[0]) {
        assert(all_ascii(s.drop_first())) by {
            assert forall|i: int| 0 <= i < s.drop_first().len() implies (#[trigger] s.drop_first()[i] as u32)
                < 128 by {
                assert(s.drop_first()[i] == s[i + 1]);
            }
        }
        lemma_trim_start_keeps_ascii(s.drop_first());
    }
}

proof fn lemma_trim_end_keeps_ascii(s: Seq<char>)
    requires
        all_ascii(s),
    ensures
        all_ascii(trim_end(s)),
    decreases s.len(),
{
    if s.len() > 0 && is_white_space(s.last()) {
        assert(all_ascii(s.drop_last())) by {
            assert forall|i: int| 0 <= i < s.drop_last().len() implies (#[trigger] s.drop_last()[i] as u32)
                < 128 by {
                assert(s.drop_last()[i] == s[i]);
            }
        }
        lemma_trim_end_keeps_ascii(s.drop_last());
    }
}

/// `str::to_lowercase`; the contract names the result, and states two facts
/// that std's documentation gives: the result is empty exactly when `s` is
/// (each character maps to one or more characters), and on ASCII text it
/// agrees with `to_ascii_lowercase`, which maps `A`..`Z` to `a`..`z` and
/// leaves every other character alone (its documentation sends callers to
/// `to_lowercase` "to lowercase ASCII characters in addition to non-ASCII
/// characters"). Beyond ASCII the Unicode mapping is not written out.
#[verifier::external_body]
pub(crate) fn to_lowercase(s: &str) -> (r: String)
    ensures
        r@ == lowercase(s@),
        r@.len() == 0 <==> s@.len() == 0,
        all_ascii(s@) ==> r@ == ascii_lowered(s@),
{
    s.to_lowercase()
}

/// `str::to_uppercase`; the contract names the result, and states the same
/// two facts as for `to_lowercase`: the result is empty exactly when `s` is,
/// and on ASCII text it agrees with `to_ascii_uppercase` (`a`..`z` to
/// `A`..`Z`, every other character unchanged). Beyond ASCII the Unicode
/// mapping is not written out.
#[verifier::external_body]
pub(crate) fn to_uppercase(s: &str) -> (r: String)
    ensures
        r@ == uppercase(s@),
        r@.len() == 0 <==> s@.len() == 0,
        all_ascii(s@) ==> r@ == ascii_uppered(s@),
{
    s.to_uppercase()
}

/// A `String` holding the characters of `s`.
pub(crate) fn string_of(s: &str) -> (r: String)
    ensures
        r@ == s@,
{
    let v = chars_of(s);
    string_from_chars(v.as_slice())
}

/* ---------- ordering of strings ---------- */

/// `a` sorts before `b` by code points, as `String`'s `Ord` orders them (UTF-8
/// byte order and code point order agree).
pub open spec fn lex_lt(a: Seq<char>, b: Seq<char>) -> bool
    decreases a.len(),
{
    if a.len() == 0 {
        b.len() > 0
    } else if b.len() == 0 {
        false
    } else if a[0] != b[0] {
        (a[0] as int) < (b[0] as int)
    } else {
        lex_lt(a.drop_first(), b.drop_first())
    }
}

/// No string sorts before itself.
pub proof fn lemma_lex_lt_irreflexive(a: Seq<char>)
    ensures
        !lex_lt(a, a),
    decreases a.len(),
{
    if a.len() > 0 {
        lemma_lex_lt_irreflexive(a.drop_first());
    }
}

/// The order is transitive.
pub proof fn lemma_lex_lt_transitive(a: Seq<char>, b: Seq<char>, c: Seq<char>)
    requires
        lex_lt(a, b),
        lex_lt(b, c),
    ensures
        lex_lt(a, c),
    decreases a.len(),
{
    if a.len() > 0 && b.len() > 0 && c.len() > 0 {
        if a[0] == b[0] && b[0] == c[0] {
            lemma_lex_lt_transitive(a.drop_first(), b.drop_first(), c.drop_first());
        }
    }
}

proof fn lemma_lex_lt_total(a: Seq<char>, b: Seq<char>)
    requires
        a != b,
    ensures
        lex_lt(a, b) || lex_lt(b, a),
    decreases a.len(),
{
    if a.len() > 0 && b.len() > 0 && a[0] == b[0] {
        if a.drop_first() == b.drop_first() {
            assert(a =~= seq![a[0]] + a.drop_first());
            assert(b =~= seq![b[0]] + b.drop_first());
        }
        lemma_lex_lt_total(a.drop_first(), b.drop_first());
    } else if a.len() == 0 && b.len() == 0 {
        assert(a =~= b);
    } else if a.len() > 0 && b.len() > 0 {
        assert(a[0] != b[0]);
        assert((a[0] as int) != (b[0] as int));
    }
}

/// Whether `a` sorts before `b` (see `lex_lt`).
pub(crate) fn chars_lt(a: &Vec<char>, b: &Vec<char>) -> (r: bool)
    ensures
        r == lex_lt(a@, b@),
{
    let mut i: usize = 0;
    assert(a@.subrange(0, a@.len() as int) =~= a@);
    assert(b@.subrange(0, b@.len() as int) =~= b@);
    while i < a.len() && i < b.len() && a[i] == b[i]
        invariant
            i <= a.len(),
            i <= b.len(),
            lex_lt(a@, b@) == lex_lt(a@.subrange(i as int, a@.len() as int), b@.subrange(
                i as int,
                b@.len() as int,
            )),
        decreases a.len() - i,
    {
        assert(a@.subrange(i as int, a@.len() as int).drop_first() =~= a@.subrange(
            i + 1,
            a@.len() as int,
        ));
        assert(b@.subrange(i as int, b@.len() as int).drop_first() =~= b@.subrange(
            i + 1,
            b@.len() as int,
        ));
        i = i + 1;
    }
    if i == a.len() {
        i < b.len()
    } else if i == b.len() {
        false
    } else {
        a[i] < b[i]
    }
}

/// The indices of `keys` in ascending order of their keys, which are
/// pairwise distinct.
pub(crate) fn sorted_order(keys: &Vec<Vec<char>>) -> (r: Vec<usize>)
    requires
        forall|i: int, j: int| 0 <= i < j < keys@.len() ==> keys@[i]@ != keys@[j]@,
    ensures
        r@.len() == keys@.len(),
        forall|i: int| 0 <= i < r@.len() ==> #[trigger] r@[i] < keys@.len(),
        forall|i: int, j: int| 0 <= i < j < r@.len() ==> lex_lt(keys@[r@[i] as int]@, keys@[r@[j] as int]@),
        forall|k: usize| k < keys@.len() ==> #[trigger] r@.contains(k),
{
    let mut r: Vec<usize> = Vec::new();
    let mut n: usize = 0;
    while n < keys.len()
        invariant
            n <= keys@.len(),
            forall|i: int, j: int| 0 <= i < j < keys@.len() ==> keys@[i]@ != keys@[j]@,
            r@.len() == n,
            forall|i: int| 0 <= i < r@.len() ==> #[trigger] r@[i] < n,
            forall|i: int, j: int| 0 <= i < j < r@.len() ==> lex_lt(keys@[r@[i] as int]@, keys@[r@[j] as int]@),
            forall|k: usize| k < n ==> #[trigger] r@.contains(k),
        decreases keys.len() - n,
    {
        // position: the first entry whose key sorts after keys[n]
        let mut pos: usize = 0;
        while pos < r.len() && chars_lt(&keys[r[pos]], &keys[n])
            invariant
                pos <= r@.len(),
                r@.len() == n,
                n < keys@.len(),
                forall|i: int| 0 <= i < r@.len() ==> #[trigger] r@[i] < n,
                forall|i: int| 0 <= i < pos ==> lex_lt(keys@[r@[i] as int]@, keys@[n as int]@),
            decreases r.len() - pos,
        {
            pos = pos + 1;
        }
        let ghost old_r = r@;
        proof {
            // every entry from `pos` on sorts after keys[n]
            assert forall|i: int| pos <= i < old_r.len() implies lex_lt(
                keys@[n as int]@,
                keys@[#[trigger] old_r[i] as int]@,
            ) by {
                if i == pos {
                    assert(keys@[old_r[i] as int]@ != keys@[n as int]@);
                    lemma_lex_lt_total(keys@[old_r[i] as int]@, keys@[n as int]@);
                } else {
                    assert(keys@[old_r[pos as int] as int]@ != keys@[n as int]@);
                    lemma_lex_lt_total(keys@[old_r[pos as int] as int]@, keys@[n as int]@);
                    lemma_lex_lt_transitive(
                        keys@[n as int]@,
                        keys@[old_r[pos as int] as int]@,
                        keys@[old_r[i] as int]@,
                    );
                }
            }
        }
        r.insert(pos, n);
        proof {
            assert(r@ =~= old_r.subrange(0, pos as int) + seq![n] + old_r.subrange(pos as int, old_r.len() as int));
            assert forall|i: int, j: int| 0 <= i < j < r@.len() implies lex_lt(
                keys@[r@[i] as int]@,
                keys@[r@[j] as int]@,
            ) by {
                if j < pos {
                } else if j == pos {
                } else if i < pos {
                    lemma_lex_lt_transitive(keys@[r@[i] as int]@, keys@[n as int]@, keys@[r@[j] as int]@);
                } else if i == pos {
                } else {
                    assert(r@[i] == old_r[i - 1]);
                    assert(r@[j] == old_r[j - 1]);
                }
            }
            assert forall|k: usize| k < n + 1 implies #[trigger] r@.contains(k) by {
                if k == n {
                    assert(r@[pos as int] == k);
                } else {
                    assert(old_r.contains(k));
                    let i = choose|i: int| 0 <= i < old_r.len() && old_r[i] == k;
                    if i < pos {
                        assert(r@[i] == k);
                    } else {
                        assert(r@[i + 1] == k);
                    }
                }
            }
        }
        n = n + 1;
    }
    r
}

} // verus!
