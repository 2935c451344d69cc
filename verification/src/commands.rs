//! The computations behind the front end's commands: what an available
//! update is reported as, what pausing or resuming the listener does, and
//! what a simulated notification is stored as. The commands themselves
//! (clipboard, database, events, the updater) run in the application.

use vstd::prelude::*;

use crate::i18n::{is_en_lang, simulated_sender};
use crate::parser::{extract_code, extracted_code};
use crate::storage::PendingRecord;
use crate::text::{
    append_chars, chars_of, decimal_digits, string_from_chars, string_of, u64_decimal,
};

verus! {

/// An available update, as the front end receives it.
#[derive(Clone, Debug)]
pub struct UpdateInfo {
    pub version: String,
    pub current_version: String,
    pub body: Option<String>,
    /// The release date as `YYYY-MM-DD`.
    pub date: Option<String>,
}

/// `n` in decimal, zero-padded after the sign to at least `width`
/// characters (what `{:0width$}` prints).
pub open spec fn zero_padded(n: int, width: nat) -> Seq<char> {
    let digits = decimal_digits((if n < 0 { -n } else { n }) as nat);
    let sign: Seq<char> = if n < 0 { seq!['-'] } else { Seq::empty() };
    let len = sign.len() + digits.len();
    sign + Seq::new((if len < width { width - len } else { 0 }) as nat, |i: int| '0') + digits
}

/// A date as `YYYY-MM-DD`.
pub open spec fn date_text(year: i32, month: u8, day: u8) -> Seq<char> {
    zero_padded(year as int, 4) + seq!['-'] + zero_padded(month as int, 2) + seq!['-']
        + zero_padded(day as int, 2)
}

fn append_zero_padded(out: &mut Vec<char>, n: i64, width: usize)
    requires
        n > i64::MIN,
        width <= 8,
    ensures
        final(out)@ == old(out)@ + zero_padded(n as int, width as nat),
{
    let magnitude: u64 = if n < 0 {
        (-n) as u64
    } else {
        n as u64
    };
    let digits = u64_decimal(magnitude);
    let ghost start = out@;
    let sign_len: usize = if n < 0 {
        out.push('-');
        1
    } else {
        0
    };
    let pad: usize = if digits.len() < width && sign_len < width - digits.len() {
        width - digits.len() - sign_len
    } else {
        0
    };
    let ghost signed = out@;
    let mut k: usize = 0;
    while k < pad
        invariant
            k <= pad,
            out@ == signed + Seq::new(k as nat, |i: int| '0'),
        decreases pad - k,
    {
        out.push('0');
        assert(out@ =~= signed + Seq::new((k + 1) as nat, |i: int| '0'));
        k = k + 1;
    }
    append_chars(out, &digits);
    let ghost sign: Seq<char> = if n < 0 {
        seq!['-']
    } else {
        Seq::empty()
    };
    assert(signed =~= start + sign);
    assert(out@ =~= start + zero_padded(n as int, width as nat));
}

/// Formats a release date as `YYYY-MM-DD`.
pub fn format_date(year: i32, month: u8, day: u8) -> (r: String)
    ensures
        r@ == date_text(year, month, day),
{
    let mut out: Vec<char> = Vec::new();
    append_zero_padded(&mut out, year as i64, 4);
    out.push('-');
    append_zero_padded(&mut out, month as i64, 2);
    out.push('-');
    append_zero_padded(&mut out, day as i64, 2);
    let r = string_from_chars(out.as_slice());
    assert(r@ =~= date_text(year, month, day));
    r
}

/// What an available update is reported as; the date, when the release has
/// one, is given as year, month and day.
pub fn update_info(
    version: String,
    current_version: String,
    body: Option<String>,
    date: Option<(i32, u8, u8)>,
) -> (r: UpdateInfo)
    ensures
        r.version == version,
        r.current_version == current_version,
        r.body == body,
        match date {
            None => r.date is None,
            Some((y, m, d)) => r.date matches Some(t) && t@ == date_text(y, m, d),
        },
{
    let date_string = match date {
        Some((y, m, d)) => Some(format_date(y, m, d)),
        None => None,
    };
    UpdateInfo { version, current_version, body, date: date_string }
}

/* ---------- updating the settings ---------- */

/// The steps of applying new settings, in the order they are taken: the
/// global shortcut is registered, autostart is set, the settings are put in
/// place and saved. The clean-ups after a successful save (seen-mail
/// records, tray texts, retention) cannot make the update fail.
#[derive(Clone, Copy, Debug, PartialEq, Eq, Structural)]
pub enum SettingsStep {
    Shortcut,
    Autostart,
    Save,
}

/// What to put back when a step fails, so that a failed update is refused
/// as a whole: every step up to and including the failed one may have
/// taken effect, and each of them is undone with the old settings.
#[derive(Clone, Copy, Debug, PartialEq, Eq, Structural)]
pub struct SettingsRollback {
    /// Register the old shortcut again.
    pub shortcut: bool,
    /// Set autostart as the old settings have it.
    pub autostart: bool,
    /// Put the old settings back in place.
    pub settings: bool,
}

/// The rollback after `failed` failed (see `SettingsRollback`).
pub fn settings_rollback(failed: SettingsStep) -> (r: SettingsRollback)
    ensures
        r.shortcut,
        r.autostart == (failed != SettingsStep::Shortcut),
        r.settings == (failed == SettingsStep::Save),
{
    match failed {
        SettingsStep::Shortcut => SettingsRollback { shortcut: true, autostart: false, settings: false },
        SettingsStep::Autostart => SettingsRollback { shortcut: true, autostart: true, settings: false },
        SettingsStep::Save => SettingsRollback { shortcut: true, autostart: true, settings: true },
    }
}

/* ---------- pausing ---------- */

/// What pausing or resuming the listener does.
#[derive(Clone, Copy, Debug, PartialEq, Eq, Structural)]
pub enum PauseEffect {
    /// Report the listener as paused.
    ReportPaused,
    /// Report the running listener as running again.
    ReportRunning,
    /// The listener had stopped (for instance after access was refused):
    /// start it again.
    Restart,
}

/// Pausing reports "paused"; resuming reports "running" while the listener
/// is alive and restarts it otherwise.
pub fn pause_effect(paused: bool, monitor_alive: bool) -> (r: PauseEffect)
    ensures
        r == (if paused {
            PauseEffect::ReportPaused
        } else if monitor_alive {
            PauseEffect::ReportRunning
        } else {
            PauseEffect::Restart
        }),
{
    if paused {
        PauseEffect::ReportPaused
    } else if monitor_alive {
        PauseEffect::ReportRunning
    } else {
        PauseEffect::Restart
    }
}

/* ---------- simulated notification ---------- */

/// A simulated notification goes the whole way of a real one: when its text
/// holds a code it is stored from source "debug" with the localized
/// simulated sender, the text as body and `now` as time.
pub fn simulated_record(lang: &str, text: &str, now: i64) -> (r: Option<PendingRecord>)
    ensures
        match extracted_code(text@) {
            None => r is None,
            Some(c) => r matches Some(p) && p.source@ == "debug"@ && p.sender.deep_view() == Some(
                if is_en_lang(lang@) {
                    "Simulated"@
                } else {
                    "模拟通知"@
                },
            ) && p.body@ == text@ && p.code@ == c && p.received_at == now,
        },
{
    let code = match extract_code(text) {
        Some(c) => c,
        None => return None,
    };
    Some(
        PendingRecord {
            source: string_of("debug"),
            sender: Some(string_of(simulated_sender(lang))),
            body: string_of(text),
            code,
            received_at: now,
        },
    )
}

} // verus!
