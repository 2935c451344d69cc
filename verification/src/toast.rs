//! The application's own toasts (short notices such as the paste result):
//! the toast document they are shown from. Showing it goes through WinRT on
//! Windows, in the application; elsewhere there is nothing to show.

use vstd::prelude::*;

use crate::html::{replace_all, replace_from};
use crate::text::{append_chars, append_str, chars_of, string_from_chars};

verus! {

/// The application's user model id (AUMID), the identity its toasts carry.
pub const APP_AUMID: &'static str = "com.snapcode.app";

/// Prepares what toasts need to show under the application's own identity.
/// Only Windows needs a Start-menu shortcut for that, which the application
/// creates there; this build has nothing to prepare.
pub fn ensure_app_shortcut() -> (r: Result<(), String>)
    ensures
        r is Ok,
{
    Ok(())
}

/// Shows a toast with a title and a body. Toasts are shown by the
/// application on Windows; this build shows nothing.
pub fn show_toast(_title: &str, _body: &str) {
}

/// A character as it stands in XML text: `&`, `<` and `>` escaped.
pub open spec fn escaped_char(c: char) -> Seq<char> {
    if c == '&' {
        "&amp;"@
    } else if c == '<' {
        "&lt;"@
    } else if c == '>' {
        "&gt;"@
    } else {
        seq![c]
    }
}

/// `s` as XML text.
pub open spec fn xml_escaped(s: Seq<char>) -> Seq<char>
    decreases s.len(),
{
    if s.len() == 0 {
        Seq::empty()
    } else {
        xml_escaped(s.drop_last()) + escaped_char(s.last())
    }
}

/// The toast document for a title and a body (the ToastGeneric template,
/// one text element each).
pub open spec fn toast_document(title: Seq<char>, body: Seq<char>) -> Seq<char> {
    "<toast><visual><binding template=\"ToastGeneric\"><text>"@ + xml_escaped(title)
        + "</text><text>"@ + xml_escaped(body) + "</text></binding></visual></toast>"@
}

/// Escaped text holds no angle bracket, so a title or body cannot add markup
/// to the toast document.
pub proof fn lemma_escaped_has_no_markup(s: Seq<char>)
    ensures
        forall|i: int| 0 <= i < xml_escaped(s).len() ==> #[trigger] xml_escaped(s)[i] != '<' && xml_escaped(s)[i]
            != '>',
    decreases s.len(),
{
    reveal_strlit("&amp;");
    reveal_strlit("&lt;");
    reveal_strlit("&gt;");
    if s.len() > 0 {
        lemma_escaped_has_no_markup(s.drop_last());
        let a = xml_escaped(s.drop_last());
        let b = escaped_char(s.last());
        assert forall|i: int| 0 <= i < xml_escaped(s).len() implies #[trigger] xml_escaped(s)[i] != '<'
            && xml_escaped(s)[i] != '>' by {
            if i < a.len() {
                assert(xml_escaped(s)[i] == a[i]);
            } else {
                assert(xml_escaped(s)[i] == b[i - a.len()]);
            }
        }
    }
}

/// Every `c` in `s` replaced by `rep` (from the front).
pub open spec fn char_replaced(s: Seq<char>, c: char, rep: Seq<char>) -> Seq<char>
    decreases s.len(),
{
    if s.len() == 0 {
        Seq::empty()
    } else {
        (if s[0] == c {
            rep
        } else {
            seq![s[0]]
        }) + char_replaced(s.drop_first(), c, rep)
    }
}

/// The escaping written as three replacements in turn: `&`, then `<`, then
/// `>`.
pub open spec fn escaped_by_replacing(s: Seq<char>) -> Seq<char> {
    replace_all(
        replace_all(replace_all(s, seq!['&'], "&amp;"@), seq!['<'], "&lt;"@),
        seq!['>'],
        "&gt;"@,
    )
}

proof fn lemma_replace_one_char(s: Seq<char>, p: int, c: char, rep: Seq<char>)
    requires
        0 <= p <= s.len(),
    ensures
        replace_from(s, p, seq![c], rep) == char_replaced(s.subrange(p, s.len() as int), c, rep),
    decreases s.len() - p,
{
    let rest = s.subrange(p, s.len() as int);
    if p < s.len() {
        lemma_replace_one_char(s, p + 1, c, rep);
        assert(rest.drop_first() =~= s.subrange(p + 1, s.len() as int));
        assert(rest[0] == s[p]);
        if s[p] == c {
            assert(s.subrange(p, p + 1) =~= seq![c]);
        } else {
            assert(s.subrange(p, p + 1)[0] != seq![c][0]);
        }
    } else {
        assert(rest =~= Seq::<char>::empty());
    }
}

proof fn lemma_char_replaced_concat(a: Seq<char>, b: Seq<char>, c: char, rep: Seq<char>)
    ensures
        char_replaced(a + b, c, rep) == char_replaced(a, c, rep) + char_replaced(b, c, rep),
    decreases a.len(),
{
    if a.len() == 0 {
        assert(a + b =~= b);
    } else {
        assert((a + b).drop_first() =~= a.drop_first() + b);
        lemma_char_replaced_concat(a.drop_first(), b, c, rep);
        assert((a + b)[0] == a[0]);
    }
}

proof fn lemma_replace_all_one_char(s: Seq<char>, c: char, rep: Seq<char>)
    ensures
        replace_all(s, seq![c], rep) == char_replaced(s, c, rep),
{
    lemma_replace_one_char(s, 0, c, rep);
    assert(s.subrange(0, s.len() as int) =~= s);
}

proof fn lemma_char_replaced_single(x: char, c: char, rep: Seq<char>)
    ensures
        char_replaced(seq![x], c, rep) == (if x == c {
            rep
        } else {
            seq![x]
        }),
{
    assert(seq![x].drop_first() =~= Seq::<char>::empty());
    assert(char_replaced(Seq::<char>::empty(), c, rep) == Seq::<char>::empty());
    assert((if x == c { rep } else { seq![x] }) + Seq::<char>::empty() =~= (if x == c { rep } else { seq![x] }));
}

proof fn lemma_char_replaced_absent(s: Seq<char>, c: char, rep: Seq<char>)
    requires
        !s.contains(c),
    ensures
        char_replaced(s, c, rep) == s,
    decreases s.len(),
{
    if s.len() > 0 {
        assert(!s.drop_first().contains(c)) by {
            if s.drop_first().contains(c) {
                let i = choose|i: int| 0 <= i < s.drop_first().len() && s.drop_first()[i] == c;
                assert(s[i + 1] == c);
            }
        }
        lemma_char_replaced_absent(s.drop_first(), c, rep);
        assert(s[0] != c);
        assert(s =~= seq![s[0]] + s.drop_first());
    }
}

/// Escaping character by character is the same as the three replacements
/// `&` → `&amp;`, `<` → `&lt;`, `>` → `&gt;` made one after the other.
pub proof fn lemma_escape_is_sequential_replace(s: Seq<char>)
    ensures
        xml_escaped(s) == escaped_by_replacing(s),
    decreases s.len(),
{
    reveal_strlit("&amp;");
    reveal_strlit("&lt;");
    reveal_strlit("&gt;");
    let amp = "&amp;"@;
    let lt = "&lt;"@;
    let gt = "&gt;"@;
    lemma_replace_all_one_char(s, '&', amp);
    let a = char_replaced(s, '&', amp);
    lemma_replace_all_one_char(a, '<', lt);
    let b = char_replaced(a, '<', lt);
    lemma_replace_all_one_char(b, '>', gt);
    if s.len() == 0 {
        assert(a == Seq::<char>::empty());
        assert(b == Seq::<char>::empty());
        assert(char_replaced(b, '>', gt) == Seq::<char>::empty());
    } else {
        let s0 = s.drop_last();
        let x = s.last();
        lemma_escape_is_sequential_replace(s0);
        lemma_replace_all_one_char(s0, '&', amp);
        let a0 = char_replaced(s0, '&', amp);
        lemma_replace_all_one_char(a0, '<', lt);
        let b0 = char_replaced(a0, '<', lt);
        lemma_replace_all_one_char(b0, '>', gt);
        assert(s =~= s0 + seq![x]);
        lemma_char_replaced_concat(s0, seq![x], '&', amp);
        lemma_char_replaced_single(x, '&', amp);
        let ax = if x == '&' { amp } else { seq![x] };
        lemma_char_replaced_concat(a0, ax, '<', lt);
        let bx = char_replaced(ax, '<', lt);
        lemma_char_replaced_concat(b0, bx, '>', gt);
        let cx = char_replaced(bx, '>', gt);
        if x == '&' {
            assert(!amp.contains('<')) by {
                if amp.contains('<') {
                    let i = choose|i: int| 0 <= i < amp.len() && amp[i] == '<';
                }
            }
            lemma_char_replaced_absent(amp, '<', lt);
            assert(!amp.contains('>')) by {
                if amp.contains('>') {
                    let i = choose|i: int| 0 <= i < amp.len() && amp[i] == '>';
                }
            }
            lemma_char_replaced_absent(amp, '>', gt);
            assert(cx == escaped_char(x));
        } else if x == '<' {
            lemma_char_replaced_single(x, '<', lt);
            assert(!lt.contains('>')) by {
                if lt.contains('>') {
                    let i = choose|i: int| 0 <= i < lt.len() && lt[i] == '>';
                }
            }
            lemma_char_replaced_absent(lt, '>', gt);
            assert(cx == escaped_char(x));
        } else {
            lemma_char_replaced_single(x, '<', lt);
            lemma_char_replaced_single(x, '>', gt);
            assert(cx == escaped_char(x));
        }
        assert(xml_escaped(s) == xml_escaped(s0) + escaped_char(x));
    }
}

fn append_escaped(out: &mut Vec<char>, s: &str)
    ensures
        final(out)@ == old(out)@ + xml_escaped(s@),
{
    let v = chars_of(s);
    let ghost start = out@;
    let mut i: usize = 0;
    proof {
        reveal_strlit("&amp;");
        reveal_strlit("&lt;");
        reveal_strlit("&gt;");
    }
    while i < v.len()
        invariant
            i <= v@.len(),
            v@ == s@,
            out@ == start + xml_escaped(v@.subrange(0, i as int)),
        decreases v.len() - i,
    {
        let c = v[i];
        let ghost before = out@;
        if c == '&' {
            append_str(out, "&amp;");
        } else if c == '<' {
            append_str(out, "&lt;");
        } else if c == '>' {
            append_str(out, "&gt;");
        } else {
            out.push(c);
        }
        assert(out@ == before + escaped_char(c));
        assert(v@.subrange(0, i + 1).drop_last() =~= v@.subrange(0, i as int));
        assert(out@ =~= start + xml_escaped(v@.subrange(0, i + 1)));
        i = i + 1;
    }
    assert(v@.subrange(0, v@.len() as int) =~= v@);
}

/// Builds the toast document for a title and a body.
pub fn toast_xml(title: &str, body: &str) -> (r: String)
    ensures
        r@ == toast_document(title@, body@),
{
    let mut out = chars_of("<toast><visual><binding template=\"ToastGeneric\"><text>");
    append_escaped(&mut out, title);
    append_str(&mut out, "</text><text>");
    append_escaped(&mut out, body);
    append_str(&mut out, "</text></binding></visual></toast>");
    let r = string_from_chars(out.as_slice());
    assert(r@ =~= toast_document(title@, body@));
    r
}

} // verus!
