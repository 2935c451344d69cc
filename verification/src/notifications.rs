//! System toast notifications: how the listener starts and what each step
//! of its loop does, which toasts are new, which sources are listened to,
//! how a toast's text elements become a sender and a body, and what a toast
//! that carries a code is stored as. Talking to the system (WinRT on
//! Windows) is the application's part; elsewhere listing toasts is not
//! supported.

use std::collections::HashSet;

use vstd::prelude::*;

use crate::i18n::{
    access_denied_hint, access_request_failed, is_en_lang, listener_init_failed, unsupported_build,
};
use crate::parser::{extract_code, extracted_code, is_code_shape, lemma_code_comes_from_text};
use crate::state::ListenerState;
use crate::storage::PendingRecord;
use crate::text::{
    all_ascii, append_chars, append_str, ascii_lowered, chars_of, contains_in_range, contains_seq,
    is_decimal_digit,
    lemma_trim_keeps_ascii, lowercase, str_trim,
    string_from_chars, string_of, to_lowercase, trim, trim_chars,
};

verus! {

/// One system toast, for diagnosing the source filter: its source (AUMID)
/// and its text.
#[derive(Clone, Debug)]
pub struct ToastInfo {
    pub aumid: String,
    pub title: String,
    pub body: String,
}

/// Lists the toasts currently shown by the system. Reading toasts is only
/// supported on Windows, where the application does it; this build reports
/// that it is not supported.
pub fn dump_current_toasts() -> (r: Result<Vec<ToastInfo>, String>)
    ensures
        r matches Err(e) && e@ == "当前平台不支持通知读取"@,
{
    Err(string_of("当前平台不支持通知读取"))
}

/// The first Windows build with the notification listener API (Windows 10
/// 1809).
pub const FIRST_LISTENER_BUILD: u32 = 17763;

/// Whether the system can run the notification listener: its build is at
/// least 1809's, or, when the version could not be read, it is tried anyway.
pub fn build_supported(version_read: bool, build_number: u32) -> (r: bool)
    ensures
        r == (!version_read || build_number >= FIRST_LISTENER_BUILD),
{
    !version_read || build_number >= FIRST_LISTENER_BUILD
}

/* ---------- the listener loop ---------- */

/// How the request for notification access ended.
#[derive(Clone, Debug, PartialEq, Eq)]
pub enum AccessOutcome {
    Allowed,
    Denied,
    /// The request itself failed, with the system's message.
    Failed(String),
}

/// How the listener starts: the status to report, whether it goes on to
/// listen, and whether it first reads every toast already shown (so that
/// a code that arrived before start-up is not missed).
#[derive(Clone, Debug)]
pub struct ListenerStart {
    pub status: ListenerState,
    pub listening: bool,
    pub poll_first: bool,
}

/// The start-up decision as plain values: the state name, its message,
/// whether listening goes on, and whether everything is read once first.
/// The stages are the build check, creating the listener, and the access
/// request; the first one that fails decides, and the later outcomes are
/// not looked at.
pub open spec fn listener_start_of(
    lang: Seq<char>,
    build_ok: bool,
    listener: Result<(), Seq<char>>,
    access: AccessOutcome,
    paused: bool,
) -> (Seq<char>, Option<Seq<char>>, bool, bool) {
    let en = is_en_lang(lang);
    if !build_ok {
        (
            "unsupported"@,
            Some(
                if en {
                    "Requires Windows 10 1809 or later"@
                } else {
                    "需要 Windows 10 1809 或更高版本"@
                },
            ),
            false,
            false,
        )
    } else {
        match listener {
            Err(e) => (
                "error"@,
                Some(
                    if en {
                        "Failed to initialize the notification listener: "@ + e
                    } else {
                        "无法初始化通知监听器: "@ + e
                    },
                ),
                false,
                false,
            ),
            Ok(()) => match access {
                AccessOutcome::Denied => (
                    "access_denied"@,
                    Some(
                        if en {
                            "Notification access not granted. Enable it in system settings."@
                        } else {
                            "未授予通知访问权限，请在系统设置中开启"@
                        },
                    ),
                    false,
                    false,
                ),
                AccessOutcome::Failed(e) => (
                    "error"@,
                    Some(
                        if en {
                            "Failed to request notification access: "@ + e@
                        } else {
                            "请求通知访问权限失败: "@ + e@
                        },
                    ),
                    false,
                    false,
                ),
                AccessOutcome::Allowed => if paused {
                    ("paused"@, None, true, false)
                } else {
                    ("running"@, None, true, true)
                },
            },
        }
    }
}

/// Decides how the listener starts (see `listener_start_of`). The
/// application reports `starting` once the build check has passed, then
/// creates the listener and requests access only when the stage before
/// succeeded; an outcome it did not obtain is passed as a success, which
/// the decision never reads.
pub fn listener_start(
    lang: &str,
    build_ok: bool,
    listener: Result<(), String>,
    access: AccessOutcome,
    paused: bool,
) -> (r: ListenerStart)
    ensures
        ({
            let d = listener_start_of(
                lang@,
                build_ok,
                match listener {
                    Ok(()) => Ok(()),
                    Err(e) => Err(e@),
                },
                access,
                paused,
            );
            &&& r.status.state@ == d.0
            &&& r.status.message.deep_view() == d.1
            &&& r.listening == d.2
            &&& r.poll_first == d.3
        }),
{
    if !build_ok {
        return ListenerStart {
            status: ListenerState::new("unsupported", Some(string_of(unsupported_build(lang)))),
            listening: false,
            poll_first: false,
        };
    }
    match listener {
        Err(e) => ListenerStart {
            status: ListenerState::new("error", Some(listener_init_failed(lang, e.as_str()))),
            listening: false,
            poll_first: false,
        },
        Ok(()) => match access {
            AccessOutcome::Denied => ListenerStart {
                status: ListenerState::new("access_denied", Some(string_of(access_denied_hint(lang)))),
                listening: false,
                poll_first: false,
            },
            AccessOutcome::Failed(e) => ListenerStart {
                status: ListenerState::new("error", Some(access_request_failed(lang, e.as_str()))),
                listening: false,
                poll_first: false,
            },
            AccessOutcome::Allowed => if paused {
                ListenerStart { status: ListenerState::new("paused", None), listening: true, poll_first: false }
            } else {
                ListenerStart { status: ListenerState::new("running", None), listening: true, poll_first: true }
            },
        },
    }
}

/// How often everything is read anyway, in seconds: a low-frequency safety
/// net when change events arrive, every second when the event subscription
/// failed (the fallback that must behave like the event feed).
pub fn listener_poll_secs(subscribed: bool) -> (r: u64)
    ensures
        r == (if subscribed { 60u64 } else { 1u64 }),
{
    if subscribed {
        60
    } else {
        1
    }
}

/// What woke the listener loop.
#[derive(Clone, Copy, Debug, PartialEq, Eq, Structural)]
pub enum ListenerWake {
    /// A toast with this id was added.
    Added(u32),
    /// The poll interval passed without an event.
    Timeout,
    /// The event source is gone.
    Disconnected,
}

/// What the listener loop does next.
#[derive(Clone, Copy, Debug, PartialEq, Eq, Structural)]
pub enum ListenerAction {
    /// Nothing (monitoring is paused): wait again.
    Skip,
    /// Read and handle the toast with this id.
    Fetch(u32),
    /// Read and handle every toast shown.
    PollAll,
    /// Leave the loop.
    Stop,
}

/// The loop's decision on waking: while paused, events and timeouts are
/// dropped; an added toast is read, a timeout reads everything, and a
/// closed event source ends the loop.
pub fn listener_step(paused: bool, wake: ListenerWake) -> (r: ListenerAction)
    ensures
        r == (match wake {
            ListenerWake::Added(id) => if paused {
                ListenerAction::Skip
            } else {
                ListenerAction::Fetch(id)
            },
            ListenerWake::Timeout => if paused {
                ListenerAction::Skip
            } else {
                ListenerAction::PollAll
            },
            ListenerWake::Disconnected => ListenerAction::Stop,
        }),
{
    match wake {
        ListenerWake::Added(id) => if paused {
            ListenerAction::Skip
        } else {
            ListenerAction::Fetch(id)
        },
        ListenerWake::Timeout => if paused {
            ListenerAction::Skip
        } else {
            ListenerAction::PollAll
        },
        ListenerWake::Disconnected => ListenerAction::Stop,
    }
}

/// Records that the toast `id` was seen; `true` only the first time, so a
/// toast read both from an event and from a poll is handled once.
pub fn first_sighting(seen: &mut HashSet<u32>, id: u32) -> (r: bool)
    ensures
        r == !old(seen)@.contains(id),
        final(seen)@ == old(seen)@.insert(id),
{
    proof {
        broadcast use vstd::std_specs::hash::group_hash_axioms;
    }
    seen.insert(id)
}

/// The results of calling `first_sighting` on each id of `ids` in turn,
/// starting from the set `seen` (each call adds its id, as its contract
/// says).
pub open spec fn sightings(seen: Set<u32>, ids: Seq<u32>) -> Seq<bool>
    decreases ids.len(),
{
    if ids.len() == 0 {
        Seq::empty()
    } else {
        seq![!seen.contains(ids[0])] + sightings(seen.insert(ids[0]), ids.drop_first())
    }
}

/// Each toast is handled once, however often it is read (from an event and
/// from a poll, or by successive polls): among successive sightings, only
/// the first sighting of an id that was not already seen reports it as new.
pub proof fn lemma_each_toast_handled_once(seen: Set<u32>, ids: Seq<u32>)
    ensures
        sightings(seen, ids).len() == ids.len(),
        forall|i: int|
            0 <= i < ids.len() ==> (#[trigger] sightings(seen, ids)[i] <==> (!seen.contains(ids[i])
                && forall|j: int| 0 <= j < i ==> ids[j] != ids[i])),
    decreases ids.len(),
{
    if ids.len() > 0 {
        let rest = ids.drop_first();
        let s2 = seen.insert(ids[0]);
        lemma_each_toast_handled_once(s2, rest);
        assert forall|i: int|
            0 <= i < ids.len() implies (#[trigger] sightings(seen, ids)[i] <==> (!seen.contains(ids[i])
                && forall|j: int| 0 <= j < i ==> ids[j] != ids[i])) by {
            if i > 0 {
                assert(sightings(seen, ids)[i] == sightings(s2, rest)[i - 1]);
                assert(rest[i - 1] == ids[i]);
                if sightings(seen, ids)[i] {
                    assert forall|j: int| 0 <= j < i implies ids[j] != ids[i] by {
                        if j > 0 {
                            assert(rest[j - 1] == ids[j]);
                        }
                    }
                } else if !seen.contains(ids[i]) {
                    if ids[0] != ids[i] {
                        let k = choose|k: int| 0 <= k < i - 1 && #[trigger] rest[k] == rest[i - 1];
                        assert(ids[k + 1] == ids[i]);
                    }
                }
            }
        }
    }
}

/* ---------- source filter ---------- */

/// A configured source, lowercased, matches a lowercased toast source: it is
/// not empty and occurs in it (so "PFN" matches "PFN!App").
pub open spec fn aumid_match(source_lc: Seq<char>, configured_lc: Seq<char>) -> bool {
    configured_lc.len() > 0 && contains_seq(source_lc, configured_lc)
}

/// A toast from `source` is listened to: one of the configured sources,
/// trimmed and compared in lowercase, matches it.
pub open spec fn source_allowed_by(source: Seq<char>, aumids: Seq<Seq<char>>) -> bool {
    exists|i: int| 0 <= i < aumids.len() && aumid_match(lowercase(source), lowercase(trim(#[trigger] aumids[i])))
}

/// A toast from `source` is listened to in the terms of the settings: some
/// configured source that is not blank, trimmed and lowercased, occurs in the
/// lowercased source.
pub open spec fn source_configured(source: Seq<char>, aumids: Seq<Seq<char>>) -> bool {
    exists|i: int|
        0 <= i < aumids.len() && trim(#[trigger] aumids[i]).len() > 0 && contains_seq(
            lowercase(source),
            lowercase(trim(aumids[i])),
        )
}

/// `source_configured` for ASCII text, where lowercasing is ASCII
/// lowercasing.
pub open spec fn ascii_source_configured(source: Seq<char>, aumids: Seq<Seq<char>>) -> bool {
    exists|i: int|
        0 <= i < aumids.len() && trim(#[trigger] aumids[i]).len() > 0 && contains_seq(
            ascii_lowered(source),
            ascii_lowered(trim(aumids[i])),
        )
}

/// Whether the lowercased configured source matches the lowercased toast
/// source.
pub fn aumid_matches(source_lc: &str, configured_lc: &str) -> (r: bool)
    ensures
        r == aumid_match(source_lc@, configured_lc@),
{
    let s = chars_of(source_lc);
    let c = chars_of(configured_lc);
    if c.len() == 0 {
        return false;
    }
    assert(s@.subrange(0, s@.len() as int) =~= s@);
    contains_in_range(&s, 0, s.len(), c.as_slice())
}

/// Whether toasts from `source` are listened to.
pub fn source_allowed(source: &str, aumids: &[String]) -> (r: bool)
    ensures
        r == source_allowed_by(source@, aumids@.map_values(|a: String| a@)),
        r == source_configured(source@, aumids@.map_values(|a: String| a@)),
        all_ascii(source@) && (forall|k: int| 0 <= k < aumids@.len() ==> all_ascii(#[trigger] aumids@[k]@))
            ==> r == ascii_source_configured(source@, aumids@.map_values(|a: String| a@)),
{
    let ghost av = aumids@.map_values(|a: String| a@);
    let source_lc = to_lowercase(source);
    let mut i: usize = 0;
    while i < aumids.len()
        invariant
            i <= aumids@.len(),
            av == aumids@.map_values(|a: String| a@),
            source_lc@ == lowercase(source@),
            all_ascii(source@) ==> source_lc@ == ascii_lowered(source@),
            forall|k: int| 0 <= k < i ==> !aumid_match(lowercase(source@), lowercase(trim(#[trigger] av[k]))),
            forall|k: int|
                0 <= k < i ==> !(trim(#[trigger] av[k]).len() > 0 && contains_seq(
                    lowercase(source@),
                    lowercase(trim(av[k])),
                )),
            all_ascii(source@) && (forall|k: int| 0 <= k < aumids@.len() ==> all_ascii(#[trigger] aumids@[k]@))
                ==> forall|k: int|
                0 <= k < i ==> !(trim(#[trigger] av[k]).len() > 0 && contains_seq(
                    ascii_lowered(source@),
                    ascii_lowered(trim(av[k])),
                )),
        decreases aumids.len() - i,
    {
        let trimmed = str_trim(aumids[i].as_str());
        let configured = to_lowercase(trimmed);
        assert(av[i as int] == aumids@[i as int]@);
        proof {
            if all_ascii(source@) && (forall|k: int| 0 <= k < aumids@.len() ==> all_ascii(#[trigger] aumids@[k]@)) {
                assert(all_ascii(aumids@[i as int]@));
                lemma_trim_keeps_ascii(av[i as int]);
                assert(configured@ == ascii_lowered(trim(av[i as int])));
            }
        }
        if aumid_matches(source_lc.as_str(), configured.as_str()) {
            assert(trim(av[i as int]).len() > 0);
            return true;
        }
        i = i + 1;
    }
    false
}

/* ---------- toast text ---------- */

/// The text elements that are not blank, in order.
pub open spec fn nonblank(texts: Seq<Seq<char>>) -> Seq<Seq<char>>
    decreases texts.len(),
{
    if texts.len() == 0 {
        Seq::empty()
    } else if trim(texts.last()).len() > 0 {
        nonblank(texts.drop_last()).push(texts.last())
    } else {
        nonblank(texts.drop_last())
    }
}

/// `parts` joined by newlines.
pub open spec fn joined_lines(parts: Seq<Seq<char>>) -> Seq<char>
    decreases parts.len(),
{
    if parts.len() == 0 {
        Seq::empty()
    } else if parts.len() == 1 {
        parts[0]
    } else {
        joined_lines(parts.drop_last()) + seq!['\n'] + parts.last()
    }
}

/// A toast's sender and body: the first text element that is not blank is
/// the sender, the others, joined by newlines, the body; `None` when every
/// element is blank.
pub open spec fn toast_texts_of(texts: Seq<Seq<char>>) -> Option<(Seq<char>, Seq<char>)> {
    let p = nonblank(texts);
    if p.len() == 0 {
        None
    } else {
        Some((p[0], joined_lines(p.drop_first())))
    }
}

/// Splits a toast's text elements into sender and body.
pub fn toast_texts(texts: &[String]) -> (r: Option<(String, String)>)
    ensures
        match toast_texts_of(texts@.map_values(|t: String| t@)) {
            None => r is None,
            Some((s, b)) => r matches Some(x) && x.0@ == s && x.1@ == b,
        },
{
    let ghost tv = texts@.map_values(|t: String| t@);
    let mut parts: Vec<Vec<char>> = Vec::new();
    let mut i: usize = 0;
    while i < texts.len()
        invariant
            i <= texts@.len(),
            tv == texts@.map_values(|t: String| t@),
            parts@.map_values(|p: Vec<char>| p@) == nonblank(tv.subrange(0, i as int)),
        decreases texts.len() - i,
    {
        let t = chars_of(texts[i].as_str());
        let tt = trim_chars(&t);
        assert(tv.subrange(0, i + 1).drop_last() =~= tv.subrange(0, i as int));
        assert(tv.subrange(0, i + 1).last() == t@);
        if tt.len() > 0 {
            parts.push(t);
        }
        assert(parts@.map_values(|p: Vec<char>| p@) =~= nonblank(tv.subrange(0, i + 1)));
        i = i + 1;
    }
    assert(tv.subrange(0, texts@.len() as int) =~= tv);
    let ghost pv = parts@.map_values(|p: Vec<char>| p@);
    if parts.len() == 0 {
        return None;
    }
    let sender = string_from_chars(parts[0].as_slice());
    let mut body: Vec<char> = Vec::new();
    let mut j: usize = 1;
    while j < parts.len()
        invariant
            1 <= j <= parts@.len(),
            pv == parts@.map_values(|p: Vec<char>| p@),
            body@ == joined_lines(pv.subrange(1, j as int)),
        decreases parts.len() - j,
    {
        let ghost before = pv.subrange(1, j as int);
        let ghost after = pv.subrange(1, j + 1);
        assert(after.drop_last() =~= before);
        assert(after.last() == parts@[j as int]@);
        if j > 1 {
            body.push('\n');
        } else {
            assert(before.len() == 0);
            assert(body@ == Seq::<char>::empty());
        }
        append_chars(&mut body, &parts[j]);
        assert(body@ =~= joined_lines(after));
        j = j + 1;
    }
    assert(pv.subrange(1, pv.len() as int) =~= pv.drop_first());
    Some((sender, string_from_chars(body.as_slice())))
}

/* ---------- time ---------- */

/// Ticks of 100 ns between 1601-01-01 (the Windows epoch) and 1970-01-01.
pub const WINDOWS_EPOCH_OFFSET: i64 = 116_444_736_000_000_000;

/// A Windows timestamp (100 ns ticks since 1601) as Unix milliseconds: the
/// offset is subtracted, saturating at the smallest `i64`, and the result is
/// divided by 10 000, rounding toward zero.
pub open spec fn unix_millis_of(ticks: i64) -> int {
    let d = if ticks - WINDOWS_EPOCH_OFFSET < i64::MIN {
        i64::MIN as int
    } else {
        ticks - WINDOWS_EPOCH_OFFSET
    };
    if d >= 0 {
        d / 10_000
    } else {
        -((-d) / 10_000)
    }
}

/// Converts a toast's creation time to Unix milliseconds.
pub fn filetime_to_unix_millis(ticks: i64) -> (r: i64)
    ensures
        r as int == unix_millis_of(ticks),
{
    let d: i128 = if (ticks as i128) - (WINDOWS_EPOCH_OFFSET as i128) < (i64::MIN as i128) {
        i64::MIN as i128
    } else {
        (ticks as i128) - (WINDOWS_EPOCH_OFFSET as i128)
    };
    let q: i128 = if d >= 0 {
        d / 10_000
    } else {
        -((-d) / 10_000)
    };
    q as i64
}

/* ---------- a toast with a code ---------- */

/// What a toast is stored as: nothing unless its source is listened to, it
/// has text and the text "sender, newline, body" holds a code; the record
/// keeps the source, the sender, the body and the creation time (`now` when
/// the time could not be read).
pub open spec fn toast_record_of(
    source: Seq<char>,
    aumids: Seq<Seq<char>>,
    texts: Seq<Seq<char>>,
    created: Option<i64>,
    now: i64,
) -> Option<(Seq<char>, Seq<char>, Seq<char>, Seq<char>, int)> {
    if !source_allowed_by(source, aumids) {
        None
    } else {
        match toast_texts_of(texts) {
            None => None,
            Some((sender, body)) => match extracted_code(sender + seq!['\n'] + body) {
                None => None,
                Some(code) => Some(
                    (
                        source,
                        sender,
                        body,
                        code,
                        match created {
                            Some(t) => unix_millis_of(t),
                            None => now as int,
                        },
                    ),
                ),
            },
        }
    }
}

/// A code taken from the sender, a newline and the body lies wholly in the
/// sender or wholly in the body: a code is digits only, so it never spans the
/// newline.
proof fn lemma_code_within_a_line(sender: Seq<char>, body: Seq<char>, c: Seq<char>)
    requires
        is_code_shape(c),
        contains_seq(sender + seq!['\n'] + body, c),
    ensures
        contains_seq(sender, c) || contains_seq(body, c),
{
    let t = sender + seq!['\n'] + body;
    let i = choose|i: int| 0 <= i && i + c.len() <= t.len() && #[trigger] t.subrange(i, i + c.len()) == c;
    let n = sender.len() as int;
    if i <= n && n < i + c.len() {
        assert(c[n - i] == t[n]);
        assert(!is_decimal_digit('\n'));
        assert(false);
    } else if i + c.len() <= n {
        assert(sender.subrange(i, i + c.len()) =~= c);
    } else {
        assert(body.subrange(i - n - 1, i - n - 1 + c.len()) =~= c);
    }
}

/// What a toast that passes the source filter is stored as: it is stored
/// exactly when the text "sender, newline, body" holds a code, with that
/// code, the sender and the body; and the code stands wholly in the sender
/// or wholly in the body, never joining a number that ends the sender to one
/// that starts the body.
pub proof fn lemma_toast_code_reads_sender_then_body(
    source: Seq<char>,
    aumids: Seq<Seq<char>>,
    texts: Seq<Seq<char>>,
    created: Option<i64>,
    now: i64,
)
    requires
        source_allowed_by(source, aumids),
        toast_texts_of(texts) is Some,
    ensures
        ({
            let (sender, body) = toast_texts_of(texts)->0;
            match toast_record_of(source, aumids, texts, created, now) {
                None => extracted_code(sender + seq!['\n'] + body) is None,
                Some((so, se, b, c, _)) => {
                    &&& so == source
                    &&& se == sender
                    &&& b == body
                    &&& extracted_code(sender + seq!['\n'] + body) == Some(c)
                    &&& contains_seq(sender, c) || contains_seq(body, c)
                },
            }
        }),
{
    let (sender, body) = toast_texts_of(texts)->0;
    let t = sender + seq!['\n'] + body;
    lemma_code_comes_from_text(t);
    if let Some(c) = extracted_code(t) {
        lemma_code_within_a_line(sender, body, c);
    }
}

/// Decides what a received toast is stored as (see `toast_record_of`).
pub fn toast_record(
    source: &str,
    aumids: &[String],
    texts: &[String],
    created: Option<i64>,
    now: i64,
) -> (r: Option<PendingRecord>)
    ensures
        match toast_record_of(
            source@,
            aumids@.map_values(|a: String| a@),
            texts@.map_values(|t: String| t@),
            created,
            now,
        ) {
            None => r is None,
            Some((so, se, b, c, t)) => r matches Some(p) && p.source@ == so && p.sender.deep_view()
                == Some(se) && p.body@ == b && p.code@ == c && p.received_at as int == t,
        },
        r is Some ==> source_configured(source@, aumids@.map_values(|a: String| a@)),
{
    if !source_allowed(source, aumids) {
        return None;
    }
    let (sender, body) = match toast_texts(texts) {
        Some(t) => t,
        None => return None,
    };
    let mut full = chars_of(sender.as_str());
    full.push('\n');
    append_str(&mut full, body.as_str());
    let full_text = string_from_chars(full.as_slice());
    assert(full_text@ =~= sender@ + seq!['\n'] + body@);
    let code = match extract_code(full_text.as_str()) {
        Some(c) => c,
        None => return None,
    };
    let received_at = match created {
        Some(t) => filetime_to_unix_millis(t),
        None => now,
    };
    Some(PendingRecord { source: string_of(source), sender: Some(sender), body, code, received_at })
}

} // verus!
