//! The POP3 protocol (RFC 1939 subset): status lines, multi-line responses
//! with dot-stuffing, the STAT and UIDL replies, and a client that sends the
//! commands over any byte stream. A multi-line response is read line by line
//! (`Pop3Client::read_body_line`); the application repeats that step until
//! the terminating dot line, since how long a server keeps sending is up to
//! the server.

use vstd::prelude::*;
use vstd::utf8::{decode_utf8, encode_utf8, valid_utf8};

use crate::text::{
    append_chars, append_str, chars_of, decimal_digits, u64_decimal, find_char, find_char_from, i64_decimal, joined, nonwhite_end, nonwhite_run_end,
    parse_u32, parse_u64, parsed_unsigned, signed_decimal, string_from_chars, segments_from, string_of, subvec,
    trim, trim_chars,
    white_end, white_run_end, words, words_from,
};

verus! {

/// `s` begins with `p`.
pub open spec fn starts_with(s: Seq<char>, p: Seq<char>) -> bool {
    p.len() <= s.len() && s.subrange(0, p.len() as int) == p
}

/// The outcome of a status line: `+OK` gives the rest of the line, trimmed;
/// `-ERR` gives the server's reason; anything else is not a status line.
pub open spec fn status_of(line: Seq<char>) -> Result<Seq<char>, Seq<char>> {
    if starts_with(line, "+OK"@) {
        Ok(trim(line.subrange(3, line.len() as int)))
    } else if starts_with(line, "-ERR"@) {
        Err("服务器拒绝: "@ + trim(line.subrange(4, line.len() as int)))
    } else {
        Err("无法识别的响应: "@ + line)
    }
}

fn starts_with_exec(s: &Vec<char>, p: &Vec<char>) -> (r: bool)
    ensures
        r == starts_with(s@, p@),
{
    if p.len() > s.len() {
        return false;
    }
    let mut i: usize = 0;
    while i < p.len()
        invariant
            i <= p.len() <= s.len(),
            forall|k: int| 0 <= k < i ==> s@[k] == p@[k],
        decreases p.len() - i,
    {
        if s[i] != p[i] {
            assert(s@.subrange(0, p@.len() as int)[i as int] != p@[i as int]);
            return false;
        }
        i = i + 1;
    }
    assert(s@.subrange(0, p@.len() as int) =~= p@);
    true
}

/// Reads a status line: `Ok` with the text after `+OK`, or `Err` with the
/// reason.
pub fn parse_status_line(line: &str) -> (r: Result<String, String>)
    ensures
        match (r, status_of(line@)) {
            (Ok(a), Ok(b)) => a@ == b,
            (Err(a), Err(b)) => a@ == b,
            _ => false,
        },
{
    let l = chars_of(line);
    let ok = chars_of("+OK");
    let err = chars_of("-ERR");
    proof {
        reveal_strlit("+OK");
        reveal_strlit("-ERR");
    }
    if starts_with_exec(&l, &ok) {
        let rest = subvec(&l, 3, l.len());
        let t = trim_chars(&rest);
        Ok(string_from_chars(t.as_slice()))
    } else if starts_with_exec(&l, &err) {
        let rest = subvec(&l, 4, l.len());
        let t = trim_chars(&rest);
        let mut m = chars_of("服务器拒绝: ");
        append_chars(&mut m, &t);
        Err(string_from_chars(m.as_slice()))
    } else {
        let mut m = chars_of("无法识别的响应: ");
        append_chars(&mut m, &l);
        Err(string_from_chars(m.as_slice()))
    }
}

/* ---------- line endings and multi-line responses ---------- */

/// `b` without its trailing CR and LF bytes.
pub open spec fn strip_eol(b: Seq<u8>) -> Seq<u8>
    decreases b.len(),
{
    if b.len() > 0 && (b.last() == 10 || b.last() == 13) {
        strip_eol(b.drop_last())
    } else {
        b
    }
}

/// Removes the trailing CR and LF bytes of a line as read from the server.
pub fn strip_line_ending(buf: &[u8]) -> (r: Vec<u8>)
    ensures
        r@ == strip_eol(buf@),
{
    let mut n = buf.len();
    assert(buf@.subrange(0, buf@.len() as int) =~= buf@);
    while n > 0 && (buf[n - 1] == 10 || buf[n - 1] == 13)
        invariant
            n <= buf@.len(),
            strip_eol(buf@) == strip_eol(buf@.subrange(0, n as int)),
        decreases n,
    {
        assert(buf@.subrange(0, n as int).drop_last() =~= buf@.subrange(0, n - 1));
        n = n - 1;
    }
    let mut r: Vec<u8> = Vec::new();
    let mut i: usize = 0;
    while i < n
        invariant
            i <= n <= buf@.len(),
            r@ == buf@.subrange(0, i as int),
        decreases n - i,
    {
        r.push(buf[i]);
        i = i + 1;
    }
    r
}

/// A body line with its transparency dot removed (RFC 1939 byte-stuffing).
pub open spec fn unstuffed(l: Seq<u8>) -> Seq<u8> {
    if l.len() > 0 && l[0] == 46 {
        l.drop_first()
    } else {
        l
    }
}

/// The body after one more line: lines are joined by CRLF.
pub open spec fn append_body_line(body: Seq<u8>, l: Seq<u8>) -> Seq<u8> {
    (if body.len() > 0 {
        body + seq![13u8, 10u8]
    } else {
        body
    }) + unstuffed(l)
}

/// The message text "connection closed by the server".
pub open spec fn closed_message() -> Seq<char> {
    "连接被服务器关闭"@
}

/// Accumulates a multi-line response, line by line, until the line that holds
/// a single dot. Raw bytes are kept (a mail body need not be UTF-8).
pub struct MultilineBody {
    body: Vec<u8>,
}

impl View for MultilineBody {
    type V = Seq<u8>;

    closed spec fn view(&self) -> Seq<u8> {
        self.body@
    }
}

impl MultilineBody {
    /// An empty body.
    pub fn new() -> (r: Self)
        ensures
            r@ == Seq::<u8>::empty(),
    {
        MultilineBody { body: Vec::new() }
    }

    /// Takes the next raw line (as read up to and including its LF). An empty
    /// read means the server closed the connection. Returns `Ok(true)` on the
    /// terminating dot line, `Ok(false)` when the line was added to the body.
    pub fn feed(&mut self, raw: &[u8]) -> (r: Result<bool, String>)
        ensures
            raw@.len() == 0 ==> (r matches Err(e) && e@ == closed_message() && final(self)@ == old(
                self,
            )@),
            raw@.len() > 0 && strip_eol(raw@) == seq![46u8] ==> (r == Ok::<bool, String>(true)
                && final(self)@ == old(self)@),
            raw@.len() > 0 && strip_eol(raw@) != seq![46u8] ==> (r == Ok::<bool, String>(false)
                && final(self)@ == append_body_line(old(self)@, strip_eol(raw@))),
    {
        if raw.len() == 0 {
            return Err(string_from_chars(chars_of("连接被服务器关闭").as_slice()));
        }
        let line = strip_line_ending(raw);
        if line.len() == 1 && line[0] == 46 {
            assert(line@ =~= seq![46u8]);
            return Ok(true);
        }
        assert(line@ != seq![46u8]);
        if self.body.len() > 0 {
            self.body.push(13);
            self.body.push(10);
        }
        let start: usize = if line.len() > 0 && line[0] == 46 {
            1
        } else {
            0
        };
        let ghost before = self.body@;
        let mut i = start;
        while i < line.len()
            invariant
                start <= i <= line.len(),
                self.body@ == before + line@.subrange(start as int, i as int),
            decreases line.len() - i,
        {
            self.body.push(line[i]);
            i = i + 1;
        }
        assert(line@.subrange(start as int, line@.len() as int) =~= unstuffed(line@));
        Ok(false)
    }

    /// The body received so far.
    pub fn into_body(self) -> (r: Vec<u8>)
        ensures
            r@ == self@,
    {
        self.body
    }
}

/* ---------- STAT ---------- */

/// The STAT reply (the text after `+OK`): message count and total size.
pub open spec fn stat_of(line: Seq<char>) -> Result<(int, int), Seq<char>> {
    let w = words(line);
    if w.len() >= 1 && parsed_unsigned(w[0], u64::MAX as int) is Some && w.len() >= 2
        && parsed_unsigned(w[1], u64::MAX as int) is Some {
        Ok((parsed_unsigned(w[0], u64::MAX as int)->0, parsed_unsigned(w[1], u64::MAX as int)->0))
    } else {
        Err("STAT 响应无法解析: "@ + line)
    }
}

/// The first two words of `s`, each when present.
fn first_two_words(s: &Vec<char>) -> (r: (Option<Vec<char>>, Option<Vec<char>>))
    ensures
        match r.0 {
            Some(w) => words(s@).len() >= 1 && w@ == words(s@)[0],
            None => words(s@).len() == 0,
        },
        match r.1 {
            Some(w) => words(s@).len() >= 2 && w@ == words(s@)[1],
            None => words(s@).len() <= 1,
        },
{
    let a = white_end(s, 0);
    if a >= s.len() {
        return (None, None);
    }
    let b = nonwhite_end(s, a);
    let ghost rest = words_from(s@, b as int);
    assert(words(s@) == seq![s@.subrange(a as int, b as int)] + rest);
    let w0 = subvec(s, a, b);
    let c = white_end(s, b);
    if c >= s.len() {
        assert(rest =~= Seq::<Seq<char>>::empty());
        return (Some(w0), None);
    }
    let d = nonwhite_end(s, c);
    assert(rest == seq![s@.subrange(c as int, d as int)] + words_from(s@, d as int));
    let w1 = subvec(s, c, d);
    (Some(w0), Some(w1))
}

/// Reads the STAT reply (the text after `+OK`).
pub fn parse_stat_reply(line: &str) -> (r: Result<(u64, u64), String>)
    ensures
        match (r, stat_of(line@)) {
            (Ok((c, s)), Ok((c2, s2))) => c as int == c2 && s as int == s2,
            (Err(a), Err(b)) => a@ == b,
            _ => false,
        },
{
    let l = chars_of(line);
    let (w0, w1) = first_two_words(&l);
    let count = match &w0 {
        Some(w) => parse_u64(w),
        None => None,
    };
    let size = match &w1 {
        Some(w) => parse_u64(w),
        None => None,
    };
    match (count, size) {
        (Some(c), Some(s)) => Ok((c, s)),
        _ => {
            let mut m = chars_of("STAT 响应无法解析: ");
            append_chars(&mut m, &l);
            Err(string_from_chars(m.as_slice()))
        },
    }
}

/* ---------- UIDL ---------- */

/// What `String::from_utf8_lossy` makes of `bytes`.
pub uninterp spec fn utf8_lossy(bytes: Seq<u8>) -> Seq<char>;

/// Decodes `bytes` as UTF-8 with `String::from_utf8_lossy`, invalid
/// sequences becoming U+FFFD. The contract names the result and states what
/// std documents of valid input: it is decoded unchanged, so in particular
/// each ASCII byte becomes the character with the same code.
#[verifier::external_body]
pub(crate) fn lossy_utf8(bytes: &[u8]) -> (r: String)
    ensures
        r@ == utf8_lossy(bytes@),
        valid_utf8(bytes@) ==> r@ == decode_utf8(bytes@),
        (forall|i: int| 0 <= i < bytes@.len() ==> #[trigger] bytes@[i] < 128) ==> r@ == bytes@.map_values(
            |b: u8| b as char,
        ),
{
    String::from_utf8_lossy(bytes).into_owned()
}

/// One UIDL listing line: message number and unique id, when the line has
/// two words and the first is a number.
pub open spec fn uidl_entry(line: Seq<char>) -> Option<(u32, Seq<char>)> {
    let w = words(line);
    if w.len() >= 2 && parsed_unsigned(w[0], u32::MAX as int) is Some {
        Some((parsed_unsigned(w[0], u32::MAX as int)->0 as u32, w[1]))
    } else {
        None
    }
}

/// The entries of a list of lines, malformed lines skipped.
pub open spec fn uidl_entries(lines: Seq<Seq<char>>) -> Seq<(u32, Seq<char>)>
    decreases lines.len(),
{
    if lines.len() == 0 {
        Seq::empty()
    } else {
        match uidl_entry(lines[0]) {
            Some(e) => seq![e] + uidl_entries(lines.drop_first()),
            None => uidl_entries(lines.drop_first()),
        }
    }
}

/// The UIDL listing of a multi-line body. Lines are split at LF; a CR before
/// the LF, and the empty piece after a final LF, carry no words and so change
/// nothing.
pub open spec fn uidl_listing(body: Seq<u8>) -> Seq<(u32, Seq<char>)> {
    uidl_entries(segments_from(utf8_lossy(body), 0, '\n'))
}

proof fn lemma_uidl_entries_append(a: Seq<Seq<char>>, b: Seq<Seq<char>>)
    ensures
        uidl_entries(a + b) == uidl_entries(a) + uidl_entries(b),
    decreases a.len(),
{
    if a.len() == 0 {
        assert(a + b =~= b);
    } else {
        assert((a + b).drop_first() =~= a.drop_first() + b);
        lemma_uidl_entries_append(a.drop_first(), b);
    }
}

/// Reads a UIDL listing body into (message number, unique id) pairs.
pub fn parse_uidl_listing(body: &[u8]) -> (r: Vec<(u32, String)>)
    ensures
        r@.map_values(|e: (u32, String)| (e.0, e.1@)) == uidl_listing(body@),
{
    let text = lossy_utf8(body);
    let t = chars_of(text.as_str());
    let mut out: Vec<(u32, String)> = Vec::new();
    let mut p: usize = 0;
    let ghost all = segments_from(t@, 0, '\n');
    loop
        invariant
            p <= t.len(),
            t@ == utf8_lossy(body@),
            uidl_entries(all) == out@.map_values(|e: (u32, String)| (e.0, e.1@)) + uidl_entries(
                segments_from(t@, p as int, '\n'),
            ),
            all == segments_from(t@, 0, '\n'),
        decreases t.len() - p,
    {
        let e = find_char_from(&t, p, '\n');
        let line = subvec(&t, p, e);
        let (w0, w1) = first_two_words(&line);
        let ghost before = out@.map_values(|e: (u32, String)| (e.0, e.1@));
        let entry: Option<(u32, String)> = match (&w0, &w1) {
            (Some(a), Some(b)) => match parse_u32(a) {
                Some(n) => Some((n, string_from_chars(b.as_slice()))),
                None => None,
            },
            _ => None,
        };
        assert(entry matches Some(en) ==> uidl_entry(line@) == Some((en.0, en.1@)));
        assert(entry is None ==> uidl_entry(line@) is None);
        let ghost head: Seq<(u32, Seq<char>)> = match uidl_entry(line@) {
            Some(x) => seq![x],
            None => Seq::empty(),
        };
        proof {
            assert(seq![line@].drop_first() =~= Seq::<Seq<char>>::empty());
            assert(uidl_entries(Seq::<Seq<char>>::empty()) =~= Seq::<(u32, Seq<char>)>::empty());
            assert(uidl_entries(seq![line@]) =~= head);
        }
        match entry {
            Some(en) => {
                out.push(en);
            },
            None => {},
        }
        assert(out@.map_values(|e: (u32, String)| (e.0, e.1@)) =~= before + head);
        if e < t.len() {
            assert(segments_from(t@, p as int, '\n') == seq![line@] + segments_from(t@, e + 1, '\n'));
            proof {
                lemma_uidl_entries_append(seq![line@], segments_from(t@, e + 1, '\n'));
            }
            assert(uidl_entries(all) == out@.map_values(|e: (u32, String)| (e.0, e.1@))
                + uidl_entries(segments_from(t@, e + 1, '\n')));
            p = e + 1;
        } else {
            assert(segments_from(t@, p as int, '\n') == seq![line@]);
            assert(uidl_entries(all) =~= out@.map_values(|e: (u32, String)| (e.0, e.1@)));
            return out;
        }
    }
}

/* ---------- the session ---------- */

/// The byte stream a POP3 session runs over: TLS or plain TCP in the
/// application, a scripted exchange in tests. What a read gives depends on
/// the peer, so nothing is promised of it.
pub trait ReadWrite {
    /// Reads up to and including the next LF byte, or to the end of the
    /// stream; an empty result means the peer closed the connection. `Err`
    /// holds the stream's own error message.
    fn read_until_lf(&mut self) -> Result<Vec<u8>, String>;

    /// Writes all of `bytes`; `Err` holds the stream's error message.
    fn write_all_bytes(&mut self, bytes: &[u8]) -> Result<(), String>;

    /// Flushes what was written; `Err` holds the stream's error message.
    fn flush_writes(&mut self) -> Result<(), String>;
}

/// What a raw read gave, as plain values.
pub type ReadView = Result<Seq<u8>, Seq<char>>;

/// One step of sending a command, as plain values: a write of these bytes
/// or a flush, with the stream's error message when it failed.
pub enum SendView {
    Write(Seq<u8>, Option<Seq<char>>),
    Flush(Option<Seq<char>>),
}

/// A command, the steps of sending it, and the outcome of its status line
/// (or of the failed send).
pub type ExchangeView = (Seq<char>, Seq<SendView>, Result<Seq<char>, Seq<char>>);

/// The line ending after a command.
pub open spec fn crlf() -> Seq<u8> {
    seq![13u8, 10u8]
}

/// `events` is how sending the command whose bytes are `bytes` went: the
/// bytes are written, then CRLF, then the stream is flushed, stopping at the
/// first step that fails.
pub open spec fn sent_line(bytes: Seq<u8>, events: Seq<SendView>) -> bool {
    ||| events.len() == 1 && (events[0] matches SendView::Write(b, Some(_)) && b == bytes)
    ||| events.len() == 2 && events[0] == SendView::Write(bytes, None) && (events[1] matches SendView::Write(
        b,
        Some(_),
    ) && b == crlf())
    ||| events.len() == 3 && events[0] == SendView::Write(bytes, None) && events[1] == SendView::Write(
        crlf(),
        None,
    ) && events[2] is Flush
}

/// The error of the step that failed, if one did (the last step is the one
/// that failed, when any did).
pub open spec fn send_error(events: Seq<SendView>) -> Option<Seq<char>> {
    match events.last() {
        SendView::Write(_, e) => e,
        SendView::Flush(e) => e,
    }
}

/// The error message of a stream operation, if it failed.
pub open spec fn step_error(r: Result<(), String>) -> Option<Seq<char>> {
    match r {
        Ok(()) => None,
        Err(e) => Some(e@),
    }
}

pub open spec fn read_view(r: Result<Vec<u8>, String>) -> ReadView {
    match r {
        Ok(b) => Ok(b@),
        Err(e) => Err(e@),
    }
}

pub open spec fn text_result(r: Result<String, String>) -> Result<Seq<char>, Seq<char>> {
    match r {
        Ok(a) => Ok(a@),
        Err(e) => Err(e@),
    }
}

/// The message for a failed read.
pub open spec fn read_failed(e: Seq<char>) -> Seq<char> {
    "读取响应失败: "@ + e
}

/// The message for a failed write.
pub open spec fn send_failed(e: Seq<char>) -> Seq<char> {
    "发送命令失败: "@ + e
}

/// A response line from a raw read: the line without its CR/LF, decoded
/// lossily; an empty read means the server closed the connection.
pub open spec fn line_outcome(ev: ReadView) -> Result<Seq<char>, Seq<char>> {
    match ev {
        Err(e) => Err(read_failed(e)),
        Ok(b) => if b.len() == 0 {
            Err(closed_message())
        } else {
            Ok(utf8_lossy(strip_eol(b)))
        },
    }
}

/// The status a raw read gives.
pub open spec fn status_outcome(ev: ReadView) -> Result<Seq<char>, Seq<char>> {
    match line_outcome(ev) {
        Ok(l) => status_of(l),
        Err(e) => Err(e),
    }
}

/// Every byte of `b` is ASCII.
pub open spec fn ascii_bytes(b: Seq<u8>) -> bool {
    forall|i: int| 0 <= i < b.len() ==> #[trigger] b[i] < 128
}

/// ASCII bytes as the characters with the same codes.
pub open spec fn ascii_text(b: Seq<u8>) -> Seq<char> {
    b.map_values(|x: u8| x as char)
}

/// Removing the line ending keeps a line ASCII.
proof fn lemma_strip_eol_ascii(b: Seq<u8>)
    requires
        ascii_bytes(b),
    ensures
        ascii_bytes(strip_eol(b)),
    decreases b.len(),
{
    if b.len() > 0 && (b.last() == 10 || b.last() == 13) {
        assert(ascii_bytes(b.drop_last())) by {
            assert forall|i: int| 0 <= i < b.drop_last().len() implies #[trigger] b.drop_last()[i] < 128 by {
                assert(b.drop_last()[i] == b[i]);
            }
        }
        lemma_strip_eol_ascii(b.drop_last());
    }
}

/// Reads one response line from a raw read (see `line_outcome`). A line of
/// ASCII bytes becomes the characters with the same codes.
pub fn line_of_read(raw: Result<Vec<u8>, String>) -> (r: Result<String, String>)
    ensures
        text_result(r) == line_outcome(read_view(raw)),
        (raw matches Ok(b) && b@.len() > 0 && ascii_bytes(b@)) ==> (r matches Ok(l) && l@ == ascii_text(
            strip_eol(read_view(raw)->Ok_0),
        )),
{
    match raw {
        Err(e) => {
            proof {
                reveal_strlit("读取响应失败: ");
            }
            Err(joined("读取响应失败: ", e.as_str()))
        },
        Ok(buf) => {
            if buf.len() == 0 {
                proof {
                    reveal_strlit("连接被服务器关闭");
                }
                Err(string_of("连接被服务器关闭"))
            } else {
                let line = strip_line_ending(buf.as_slice());
                proof {
                    if ascii_bytes(buf@) {
                        lemma_strip_eol_ascii(buf@);
                    }
                }
                Ok(lossy_utf8(line.as_slice()))
            }
        },
    }
}

/// Reads a status line from a raw read (see `status_outcome`).
pub fn status_of_read(raw: Result<Vec<u8>, String>) -> (r: Result<String, String>)
    ensures
        text_result(r) == status_outcome(read_view(raw)),
        (raw matches Ok(b) && b@.len() > 0 && ascii_bytes(b@)) ==> text_result(r) == status_of(
            ascii_text(strip_eol(read_view(raw)->Ok_0)),
        ),
{
    match line_of_read(raw) {
        Ok(line) => parse_status_line(line.as_str()),
        Err(e) => Err(e),
    }
}

/// The text of the RETR command for message `msg`.
pub fn retr_command(msg: u32) -> (r: String)
    ensures
        r@ == "RETR "@ + decimal_digits(msg as nat),
{
    let mut v = chars_of("RETR ");
    let d = u64_decimal(msg as u64);
    append_chars(&mut v, &d);
    string_from_chars(v.as_slice())
}

/// A POP3 client (RFC 1939 subset) over a byte stream. Besides the stream it
/// keeps, as ghost state, every raw read and every command with the steps of
/// sending it and the outcome of its status line, so that the contracts can
/// say what was written and how each reply was read.
pub struct Pop3Client<S: ReadWrite> {
    stream: S,
    reads: Ghost<Seq<ReadView>>,
    steps: Ghost<Seq<SendView>>,
    exchanges: Ghost<Seq<ExchangeView>>,
}

impl<S: ReadWrite> Pop3Client<S> {
    /// Every raw read so far, in order.
    pub closed spec fn reads(&self) -> Seq<ReadView> {
        self.reads@
    }

    /// Every command so far, with the steps of sending it and the outcome.
    pub closed spec fn exchanges(&self) -> Seq<ExchangeView> {
        self.exchanges@
    }

    /// Wraps an established connection and reads the server greeting, which
    /// must be a `+OK` status line. On failure the connection is dropped; the
    /// error is what `status_of_read` makes of the greeting read.
    pub fn from_stream(stream: S) -> (r: Result<Self, String>)
        ensures
            match r {
                Ok(c) => c.exchanges() == Seq::<ExchangeView>::empty() && c.reads().len() == 1
                    && status_outcome(c.reads()[0]) is Ok,
                Err(e) => exists|ev: ReadView| #[trigger] status_outcome(ev) == Err::<Seq<char>, Seq<char>>(e@),
            },
    {
        let mut client = Pop3Client {
            stream,
            reads: Ghost(Seq::empty()),
            steps: Ghost(Seq::empty()),
            exchanges: Ghost(Seq::empty()),
        };
        match client.read_status() {
            Ok(_) => Ok(client),
            Err(e) => Err(e),
        }
    }

    /// USER then PASS. PASS is sent only when USER was accepted; the result
    /// is the first refusal, if any.
    pub fn login(&mut self, user: &str, pass: &str) -> (r: Result<(), String>)
        ensures
            ({
                let n = old(self).exchanges().len() as int;
                let x = final(self).exchanges();
                &&& x.len() >= n + 1
                &&& x.subrange(0, n) == old(self).exchanges()
                &&& x[n].0 == "USER "@ + user@
                &&& sent_line(encode_utf8("USER "@ + user@), x[n].1)
                &&& match x[n].2 {
                    Err(e) => x.len() == n + 1 && (r matches Err(m) && m@ == e),
                    Ok(_) => x.len() == n + 2 && x[n + 1].0 == "PASS "@ + pass@ && sent_line(
                        encode_utf8("PASS "@ + pass@),
                        x[n + 1].1,
                    ) && (match x[n + 1].2 {
                        Err(e) => r matches Err(m) && m@ == e,
                        Ok(_) => r is Ok,
                    }),
                }
            }),
    {
        let user_cmd = joined("USER ", user);
        match self.command(user_cmd.as_str()) {
            Err(e) => return Err(e),
            Ok(_) => {},
        }
        let pass_cmd = joined("PASS ", pass);
        match self.command(pass_cmd.as_str()) {
            Err(e) => Err(e),
            Ok(_) => Ok(()),
        }
    }

    /// STAT: the message count and total size.
    pub fn stat(&mut self) -> (r: Result<(u64, u64), String>)
        ensures
            final(self).exchanges().len() == old(self).exchanges().len() + 1,
            final(self).exchanges().drop_last() == old(self).exchanges(),
            final(self).exchanges().last().0 == "STAT"@,
            sent_line(encode_utf8("STAT"@), final(self).exchanges().last().1),
            match (final(self).exchanges().last().2, r) {
                (Err(e), Err(m)) => m@ == e,
                (Ok(t), Ok((c, s))) => stat_of(t) == Ok::<(int, int), Seq<char>>((c as int, s as int)),
                (Ok(t), Err(m)) => stat_of(t) == Err::<(int, int), Seq<char>>(m@),
                _ => false,
            },
    {
        proof {
            reveal_strlit("STAT");
        }
        let line = match self.command("STAT") {
            Err(e) => return Err(e),
            Ok(l) => l,
        };
        parse_stat_reply(line.as_str())
    }

    /// QUIT: a polite goodbye; its outcome is of no interest, the connection
    /// is closing anyway.
    pub fn quit(&mut self)
        ensures
            final(self).exchanges().len() == old(self).exchanges().len() + 1,
            final(self).exchanges().drop_last() == old(self).exchanges(),
            final(self).exchanges().last().0 == "QUIT"@,
            sent_line(encode_utf8("QUIT"@), final(self).exchanges().last().1),
    {
        let _ = self.command("QUIT");
    }

    /// Sends a command line: the command's bytes, CRLF, then a flush,
    /// stopping at the first failure, which gives the send error; after a
    /// successful send, reads the status line.
    pub fn command(&mut self, cmd: &str) -> (r: Result<String, String>)
        ensures
            final(self).exchanges().len() == old(self).exchanges().len() + 1,
            final(self).exchanges().drop_last() == old(self).exchanges(),
            final(self).exchanges().last().0 == cmd@,
            sent_line(encode_utf8(cmd@), final(self).exchanges().last().1),
            final(self).exchanges().last().2 == text_result(r),
            match send_error(final(self).exchanges().last().1) {
                Some(e) => (r matches Err(m) && m@ == send_failed(e)) && final(self).reads() == old(self).reads(),
                None => final(self).reads().len() == old(self).reads().len() + 1
                    && final(self).reads().drop_last() == old(self).reads()
                    && text_result(r) == status_outcome(final(self).reads().last()),
            },
    {
        let ghost n0 = self.steps@.len();
        let crlf_bytes: Vec<u8> = vec![13u8, 10u8];
        assert(crlf_bytes@ == crlf());
        let sent: Result<(), String> = match self.write_step(cmd.as_bytes()) {
            Err(e) => Err(e),
            Ok(()) => match self.write_step(crlf_bytes.as_slice()) {
                Err(e) => Err(e),
                Ok(()) => self.flush_step(),
            },
        };
        let ghost events = self.steps@.subrange(n0 as int, self.steps@.len() as int);
        assert(send_error(events) == step_error(sent));
        let r = match sent {
            Err(e) => {
                proof {
                    reveal_strlit("发送命令失败: ");
                }
                Err(joined("发送命令失败: ", e.as_str()))
            },
            Ok(()) => self.read_status(),
        };
        proof {
            self.exchanges@ = self.exchanges@.push((cmd@, events, text_result(r)));
        }
        r
    }

    /// Writes `bytes` to the stream, recording the step.
    fn write_step(&mut self, bytes: &[u8]) -> (r: Result<(), String>)
        ensures
            final(self).steps@ == old(self).steps@.push(SendView::Write(bytes@, step_error(r))),
            final(self).reads() == old(self).reads(),
            final(self).exchanges() == old(self).exchanges(),
    {
        let r = self.stream.write_all_bytes(bytes);
        proof {
            self.steps@ = self.steps@.push(SendView::Write(bytes@, step_error(r)));
        }
        r
    }

    /// Flushes the stream, recording the step.
    fn flush_step(&mut self) -> (r: Result<(), String>)
        ensures
            final(self).steps@ == old(self).steps@.push(SendView::Flush(step_error(r))),
            final(self).reads() == old(self).reads(),
            final(self).exchanges() == old(self).exchanges(),
    {
        let r = self.stream.flush_writes();
        proof {
            self.steps@ = self.steps@.push(SendView::Flush(step_error(r)));
        }
        r
    }

    /// Reads a status line: `Ok` with the text after `+OK`, `Err` with the
    /// server's reason or the read failure.
    pub fn read_status(&mut self) -> (r: Result<String, String>)
        ensures
            final(self).exchanges() == old(self).exchanges(),
            final(self).reads().len() == old(self).reads().len() + 1,
            final(self).reads().drop_last() == old(self).reads(),
            text_result(r) == status_outcome(final(self).reads().last()),
    {
        let got = self.stream.read_until_lf();
        proof {
            self.reads@ = self.reads@.push(read_view(got));
        }
        status_of_read(got)
    }

    /// Reads one response line: the bytes up to LF without the line ending,
    /// decoded lossily (status lines are ASCII).
    pub fn read_line(&mut self) -> (r: Result<String, String>)
        ensures
            final(self).exchanges() == old(self).exchanges(),
            final(self).reads() == old(self).reads().push(final(self).reads().last()),
            text_result(r) == line_outcome(final(self).reads().last()),
    {
        let got = self.stream.read_until_lf();
        proof {
            self.reads@ = self.reads@.push(read_view(got));
        }
        line_of_read(got)
    }

    /// Reads the next line of a multi-line response into `body`: `Ok(true)`
    /// once the terminating dot line arrives, `Ok(false)` when the line was
    /// added. The application repeats this until the response is complete.
    pub fn read_body_line(&mut self, body: &mut MultilineBody) -> (r: Result<bool, String>)
        ensures
            final(self).exchanges() == old(self).exchanges(),
            final(self).reads().len() == old(self).reads().len() + 1,
            final(self).reads().drop_last() == old(self).reads(),
            match final(self).reads().last() {
                Err(e) => (r matches Err(m) && m@ == read_failed(e)) && final(body)@ == old(body)@,
                Ok(raw) => {
                    &&& raw.len() == 0 ==> ((r matches Err(m) && m@ == closed_message())
                        && final(body)@ == old(body)@)
                    &&& raw.len() > 0 && strip_eol(raw) == seq![46u8] ==> (r == Ok::<bool, String>(true)
                        && final(body)@ == old(body)@)
                    &&& raw.len() > 0 && strip_eol(raw) != seq![46u8] ==> (r == Ok::<bool, String>(false)
                        && final(body)@ == append_body_line(old(body)@, strip_eol(raw)))
                },
            },
    {
        let got = self.stream.read_until_lf();
        let ghost ev = read_view(got);
        proof {
            self.reads@ = self.reads@.push(ev);
        }
        match got {
            Err(e) => {
                proof {
                    reveal_strlit("读取响应失败: ");
                }
                Err(joined("读取响应失败: ", e.as_str()))
            },
            Ok(buf) => body.feed(buf.as_slice()),
        }
    }
}

/* ---------- connecting ---------- */

/// Where to connect: the host without surrounding white space, and the port
/// when it is a valid TCP port number.
pub open spec fn connection_target_of(host: Seq<char>, port: int) -> Result<(Seq<char>, int), Seq<char>> {
    if 0 <= port <= 65535 {
        Ok((trim(host), port))
    } else {
        Err("端口无效: "@ + signed_decimal(port))
    }
}

/// Validates the configured host and port before a connection is attempted.
pub fn connection_target(host: &str, port: i64) -> (r: Result<(String, u16), String>)
    ensures
        match (r, connection_target_of(host@, port as int)) {
            (Ok((h, p)), Ok((h2, p2))) => h@ == h2 && p as int == p2,
            (Err(a), Err(b)) => a@ == b,
            _ => false,
        },
{
    if 0 <= port && port <= 65535 {
        let h = chars_of(host);
        let t = trim_chars(&h);
        Ok((string_from_chars(t.as_slice()), port as u16))
    } else {
        let mut m = chars_of("端口无效: ");
        let d = i64_decimal(port);
        append_chars(&mut m, &d);
        Err(string_from_chars(m.as_slice()))
    }
}

} // verus!
