//! History records and the small computations around the SQLite store
//! (cut-off times, search patterns). The database itself is opened and
//! queried by the application.

use vstd::prelude::*;

use crate::text::{append_chars, chars_of, str_eq, string_from_chars, trim, trim_chars};

verus! {

/// One stored verification code.
#[derive(Clone, Debug)]
pub struct CodeRecord {
    pub id: i64,
    pub source: String,
    pub sender: Option<String>,
    pub body: String,
    pub code: String,
    /// Unix milliseconds.
    pub received_at: i64,
    pub used: bool,
}

/// A code about to be stored (a `CodeRecord` without id and used flag).
#[derive(Clone, Debug)]
pub struct PendingRecord {
    pub source: String,
    pub sender: Option<String>,
    pub body: String,
    pub code: String,
    /// Unix milliseconds.
    pub received_at: i64,
}

/// The seen-mail marker that records that an account's baseline exists:
/// mail present at the first poll is marked seen, later mail is imported.
pub const EMAIL_BASELINE_UIDL: &'static str = "__baseline__";

/// The baseline marker as characters.
pub open spec fn baseline_uidl() -> Seq<char> {
    "__baseline__"@
}

/// The `EMAIL_BASELINE_UIDL` marker as a `String`.
pub fn baseline_uidl_string() -> (r: String)
    ensures
        r@ == baseline_uidl(),
{
    string_from_chars(chars_of(EMAIL_BASELINE_UIDL).as_slice())
}

/// A reading of the system clock.
#[verifier::external_type_specification]
#[verifier::external_body]
pub struct ExSystemTime(std::time::SystemTime);

/// `SystemTime::now`: the system clock's current reading, of which nothing
/// is promised.
#[verifier::external_body]
fn clock_now() -> std::time::SystemTime {
    std::time::SystemTime::now()
}

/// `SystemTime::duration_since(UNIX_EPOCH)`: the time since 1970-01-01, `None`
/// when the reading is earlier; the duration is opaque here.
#[verifier::external_body]
fn since_unix_epoch(t: std::time::SystemTime) -> Option<std::time::Duration> {
    t.duration_since(std::time::UNIX_EPOCH).ok()
}

/// `Duration::as_millis`: the whole milliseconds of an opaque duration.
#[verifier::external_body]
fn whole_millis(d: std::time::Duration) -> u128 {
    d.as_millis()
}

/// Converts a clock reading in milliseconds to the stored timestamp: the
/// low 64 bits as a signed number, or 0 when the clock is before the epoch.
pub fn millis_to_timestamp(ms: Option<u128>) -> (r: i64)
    ensures
        r == match ms {
            Some(m) => m as i64,
            None => 0i64,
        },
{
    match ms {
        Some(m) => m as i64,
        None => 0,
    }
}

/// The current time in Unix milliseconds (0 when the clock is before 1970).
pub fn now_millis() -> (r: i64) {
    let ms = match since_unix_epoch(clock_now()) {
        Some(d) => Some(whole_millis(d)),
        None => None,
    };
    millis_to_timestamp(ms)
}

/// The history cut-off for a retention period: `None` keeps everything
/// (`retention_days <= 0`), otherwise records older than `now` minus the
/// period are dropped.
pub open spec fn retention_cutoff_of(now: i64, retention_days: i64) -> Option<int> {
    if retention_days <= 0 {
        None
    } else {
        Some(now - retention_days * 86_400_000)
    }
}

/// See `retention_cutoff_of`.
pub fn retention_cutoff(now: i64, retention_days: i64) -> (r: Option<i64>)
    requires
        retention_days <= 0 || (retention_days * 86_400_000 <= i64::MAX && i64::MIN <= now
            - retention_days * 86_400_000),
    ensures
        match retention_cutoff_of(now, retention_days) {
            Some(c) => r == Some(c as i64),
            None => r is None,
        },
        retention_days > 0 ==> (r matches Some(c) && c as int == now as int - retention_days as int * 86_400_000),
        retention_days <= 0 ==> r is None,
{
    if retention_days <= 0 {
        None
    } else {
        Some(now - retention_days * 86_400_000)
    }
}

/// The cut-off for seen-mail records kept `keep_days` days (at least one).
pub open spec fn seen_cutoff_of(now: i64, keep_days: i64) -> int {
    now - (if keep_days < 1 { 1 } else { keep_days }) * 86_400_000
}

/// See `seen_cutoff_of`.
pub fn seen_cutoff(now: i64, keep_days: i64) -> (r: i64)
    requires
        keep_days * 86_400_000 <= i64::MAX,
        i64::MIN <= seen_cutoff_of(now, keep_days),
    ensures
        r as int == seen_cutoff_of(now, keep_days),
        keep_days >= 1 ==> r as int == now as int - keep_days as int * 86_400_000,
        keep_days < 1 ==> r as int == now as int - 86_400_000,
{
    let days = if keep_days < 1 {
        1
    } else {
        keep_days
    };
    now - days * 86_400_000
}

/// History is kept for whole days: a positive retention period cuts off
/// exactly that many days of 86 400 000 ms before `now`, a longer period
/// cuts off earlier by the difference in days, and no period prunes nothing.
pub proof fn lemma_retention_is_whole_days(now: i64, days: i64, longer: i64)
    ensures
        days > 0 ==> retention_cutoff_of(now, days) == Some(now - days * 86_400_000),
        days <= 0 ==> retention_cutoff_of(now, days) is None,
        0 < days < longer ==> (retention_cutoff_of(now, days) matches Some(a) && retention_cutoff_of(
            now,
            longer,
        ) matches Some(b) && b < a && a - b == (longer - days) * 86_400_000),
{
}

/// The search keyword of a history query: the trimmed query, when not blank.
pub open spec fn search_keyword_of(query: Option<Seq<char>>) -> Option<Seq<char>> {
    match query {
        Some(q) => if trim(q).len() > 0 {
            Some(trim(q))
        } else {
            None
        },
        None => None,
    }
}

/// The SQL `LIKE` pattern of a history query (`%keyword%`), when the query is
/// not blank.
pub fn search_pattern(query: Option<&str>) -> (r: Option<String>)
    ensures
        match search_keyword_of(
            match query {
                Some(q) => Some(q@),
                None => None,
            },
        ) {
            Some(k) => r matches Some(p) && p@ == seq!['%'] + k + seq!['%'],
            None => r is None,
        },
{
    match query {
        Some(q) => {
            let t = trim_chars(&chars_of(q));
            if t.len() == 0 {
                None
            } else {
                let mut v: Vec<char> = Vec::new();
                v.push('%');
                append_chars(&mut v, &t);
                v.push('%');
                Some(string_from_chars(v.as_slice()))
            }
        },
        None => None,
    }
}

/// The seen-mail table has the old layout (no account column), which is
/// dropped and rebuilt: it exists (has columns) and none is `account_id`.
pub open spec fn legacy_seen_table(columns: Seq<Seq<char>>) -> bool {
    columns.len() > 0 && !columns.contains("account_id"@)
}

/// Whether the seen-mail table with these column names has the old layout.
pub fn is_legacy_seen_table(columns: &[String]) -> (r: bool)
    ensures
        r == legacy_seen_table(columns@.map_values(|c: String| c@)),
{
    let ghost cv = columns@.map_values(|c: String| c@);
    if columns.len() == 0 {
        return false;
    }
    let mut i: usize = 0;
    while i < columns.len()
        invariant
            i <= columns@.len(),
            cv == columns@.map_values(|c: String| c@),
            forall|k: int| 0 <= k < i ==> cv[k] != "account_id"@,
        decreases columns.len() - i,
    {
        if str_eq(columns[i].as_str(), "account_id") {
            assert(cv[i as int] == "account_id"@);
            return false;
        }
        i = i + 1;
    }
    true
}

impl CodeRecord {
    /// The record that storing `p` under `id` produces (not yet used).
    pub fn stored(id: i64, p: PendingRecord) -> (r: CodeRecord)
        ensures
            r.id == id,
            r.source == p.source,
            r.sender == p.sender,
            r.body == p.body,
            r.code == p.code,
            r.received_at == p.received_at,
            !r.used,
    {
        CodeRecord {
            id,
            source: p.source,
            sender: p.sender,
            body: p.body,
            code: p.code,
            received_at: p.received_at,
            used: false,
        }
    }
}

} // verus!
