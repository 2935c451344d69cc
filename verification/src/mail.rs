//! Mail handling: turning a raw message into the text that the code parser
//! reads, and the line-level rules of the POP3 protocol (RFC 1939 subset).
//!
//! MIME decoding (transfer encodings, encoded words, multipart structure) is
//! done by the `mail-parser` crate; what this module decides is which part is
//! read, how the sender is named and how the text is assembled.

use vstd::prelude::*;

use crate::html::{html_text, html_to_text};
use crate::text::{chars_of, string_from_chars};

verus! {

/// A parsed mail, reduced to what code extraction and storage need.
#[derive(Clone, Debug)]
pub struct ParsedMail {
    /// Display name or address of the first `From` address.
    pub sender: Option<String>,
    /// Subject, a newline, then the body as plain text.
    pub text: String,
    /// The `Date` header as Unix milliseconds.
    pub received_at: Option<i64>,
}

/// One address of a `From` header.
pub struct MailAddress {
    pub name: Option<String>,
    pub address: Option<String>,
}

/// The fields of a message that mail handling reads, as `mail-parser`
/// reports them.
pub struct MailParts {
    /// The `Subject` header.
    pub subject: Option<String>,
    /// The `From` header when it is a plain address list (not a group).
    pub from: Option<Vec<MailAddress>>,
    /// Part ids that make up the text body.
    pub text_body: Vec<u32>,
    /// Part ids that make up the HTML body.
    pub html_body: Vec<u32>,
    /// The first text body part as plain text.
    pub first_text: Option<String>,
    /// The first HTML body part as HTML.
    pub first_html: Option<String>,
    /// The `Date` header as Unix seconds.
    pub timestamp: Option<i64>,
}

/// An address as plain values.
pub type AddressView = (Option<Seq<char>>, Option<Seq<char>>);

/// `MailParts` as plain values.
pub struct MailPartsView {
    pub subject: Option<Seq<char>>,
    pub from: Option<Seq<AddressView>>,
    pub text_body: Seq<u32>,
    pub html_body: Seq<u32>,
    pub first_text: Option<Seq<char>>,
    pub first_html: Option<Seq<char>>,
    pub timestamp: Option<i64>,
}

impl View for MailAddress {
    type V = AddressView;

    open spec fn view(&self) -> AddressView {
        (self.name.deep_view(), self.address.deep_view())
    }
}

impl View for MailParts {
    type V = MailPartsView;

    open spec fn view(&self) -> MailPartsView {
        MailPartsView {
            subject: self.subject.deep_view(),
            from: match self.from {
                Some(v) => Some(v@.map_values(|a: MailAddress| a@)),
                None => None,
            },
            text_body: self.text_body@,
            html_body: self.html_body@,
            first_text: self.first_text.deep_view(),
            first_html: self.first_html.deep_view(),
            timestamp: self.timestamp,
        }
    }
}

impl View for ParsedMail {
    type V = (Option<Seq<char>>, Seq<char>, Option<i64>);

    open spec fn view(&self) -> (Option<Seq<char>>, Seq<char>, Option<i64>) {
        (self.sender.deep_view(), self.text@, self.received_at)
    }
}

/// What `mail-parser` makes of the raw message `raw`.
pub uninterp spec fn mail_parts_of(raw: Seq<u8>) -> Option<MailPartsView>;

/// Parses `raw` with `mail_parser::MessageParser::parse` and reads the fields
/// that mail handling needs (`subject`, `from` as an address list, the text
/// and HTML body part lists, `body_text(0)`, `body_html(0)`, and the `Date`
/// header through `DateTime::to_timestamp`). The contract names the result
/// and adds one fact from the crate's source: `to_timestamp` combines a
/// 16-bit year with 8-bit fields, so its magnitude stays below 10^13 seconds.
#[verifier::external_body]
fn read_mail_parts(raw: &[u8]) -> (r: Option<MailParts>)
    ensures
        match r {
            Some(p) => mail_parts_of(raw@) == Some(p@) && (p.timestamp matches Some(ts) ==> (
            -10_000_000_000_000 <= ts <= 10_000_000_000_000)),
            None => mail_parts_of(raw@) is None,
        },
{
    let m = mail_parser::MessageParser::default().parse(raw)?;
    let from = m.from().and_then(|f| f.as_list()).map(|l| l.iter().map(|a| MailAddress {
        name: a.name.as_deref().map(String::from),
        address: a.address.as_deref().map(String::from),
    }).collect());
    Some(MailParts {
        subject: m.subject().map(String::from),
        from,
        text_body: m.text_body.clone(),
        html_body: m.html_body.clone(),
        first_text: m.body_text(0).map(String::from),
        first_html: m.body_html(0).map(String::from),
        timestamp: m.date().map(|d| d.to_timestamp()),
    })
}

/// The sender: the first address's display name, else its address, unless
/// that is empty.
pub open spec fn mail_sender(from: Option<Seq<AddressView>>) -> Option<Seq<char>> {
    match from {
        Some(list) => if list.len() > 0 {
            let s = match list[0].0 {
                Some(n) => n,
                None => match list[0].1 {
                    Some(a) => a,
                    None => Seq::empty(),
                },
            };
            if s.len() > 0 {
                Some(s)
            } else {
                None
            }
        } else {
            None
        },
        None => None,
    }
}

/// The body text: the first text part when it is a genuine text/plain part
/// (not also listed as HTML), otherwise the first HTML part converted to text.
pub open spec fn mail_body(p: MailPartsView) -> Seq<char> {
    if p.text_body.len() > 0 && !p.html_body.contains(p.text_body[0]) {
        match p.first_text {
            Some(t) => t,
            None => Seq::empty(),
        }
    } else {
        match p.first_html {
            Some(h) => html_text(h),
            None => Seq::empty(),
        }
    }
}

/// The mail that `parse_mail` builds from the parts.
pub open spec fn mail_of_parts(p: MailPartsView) -> (Option<Seq<char>>, Seq<char>, Option<i64>) {
    let subject = match p.subject {
        Some(s) => s,
        None => Seq::empty(),
    };
    (
        mail_sender(p.from),
        subject + seq!['\n'] + mail_body(p),
        match p.timestamp {
            Some(ts) => Some((ts * 1000) as i64),
            None => None,
        },
    )
}

fn contains_u32(v: &Vec<u32>, x: u32) -> (r: bool)
    ensures
        r == v@.contains(x),
{
    let mut i: usize = 0;
    while i < v.len()
        invariant
            i <= v.len(),
            forall|k: int| 0 <= k < i ==> v@[k] != x,
        decreases v.len() - i,
    {
        if v[i] == x {
            assert(v@[i as int] == x);
            return true;
        }
        i = i + 1;
    }
    false
}

fn sender_of(from: &Option<Vec<MailAddress>>) -> (r: Option<String>)
    ensures
        r.deep_view() == mail_sender(
            match from {
                Some(v) => Some(v@.map_values(|a: MailAddress| a@)),
                None => None,
            },
        ),
{
    match from {
        Some(list) => {
            if list.len() == 0 {
                return None;
            }
            let first = &list[0];
            let s: Vec<char> = match &first.name {
                Some(n) => chars_of(n.as_str()),
                None => match &first.address {
                    Some(a) => chars_of(a.as_str()),
                    None => Vec::new(),
                },
            };
            if s.len() > 0 {
                Some(string_from_chars(s.as_slice()))
            } else {
                None
            }
        },
        None => None,
    }
}

/// The mail that the fields read from a message make (see `mail_of_parts`):
/// the sender, the subject and body text, and the date in milliseconds.
pub fn mail_from_parts(parts: &MailParts) -> (r: ParsedMail)
    requires
        parts.timestamp matches Some(ts) ==> i64::MIN <= ts * 1000 <= i64::MAX,
    ensures
        r@ == mail_of_parts(parts@),
{
    let ghost pv = parts@;
    let sender = sender_of(&parts.from);
    let plain = parts.text_body.len() > 0 && !contains_u32(&parts.html_body, parts.text_body[0]);
    let body: Vec<char> = if plain {
        match &parts.first_text {
            Some(t) => chars_of(t.as_str()),
            None => Vec::new(),
        }
    } else {
        match &parts.first_html {
            Some(h) => chars_of(html_to_text(h.as_str()).as_str()),
            None => Vec::new(),
        }
    };
    let mut text: Vec<char> = match &parts.subject {
        Some(s) => chars_of(s.as_str()),
        None => Vec::new(),
    };
    text.push('\n');
    let ghost head = text@;
    let mut i: usize = 0;
    while i < body.len()
        invariant
            i <= body.len(),
            text@ == head + body@.subrange(0, i as int),
        decreases body.len() - i,
    {
        text.push(body[i]);
        i = i + 1;
    }
    assert(body@.subrange(0, body@.len() as int) =~= body@);
    let received_at = match parts.timestamp {
        Some(ts) => Some(ts * 1000),
        None => None,
    };
    let m = ParsedMail { sender, text: string_from_chars(text.as_slice()), received_at };
    assert(m@.1 =~= mail_of_parts(pv).1);
    m
}

/// Parses a raw message; `None` when `mail-parser` cannot make a message of it.
pub fn parse_mail(raw: &[u8]) -> (r: Option<ParsedMail>)
    ensures
        match mail_parts_of(raw@) {
            Some(p) => r matches Some(m) && m@ == mail_of_parts(p),
            None => r is None,
        },
{
    match read_mail_parts(raw) {
        Some(p) => Some(mail_from_parts(&p)),
        None => None,
    }
}

} // verus!
