//! The remote usage report: what the usage endpoint says about the plan, the
//! 5-hour and weekly windows, code review and credits.
use vstd::prelude::*;
use crate::local_usage::CodexLocalUsageSummary;
use crate::text::{
    ascii_lowercase, ascii_lowercase_chars, chars_eq, chars_of, opt_chars, string_from_chars,
    trim_chars, trimmed,
};

verus! {

/// What `char::to_uppercase` yields for `c`, collected.
pub uninterp spec fn uppercase_of(c: char) -> Seq<char>;

/// `c.to_uppercase()`, collected into characters.
#[verifier::external_body]
fn char_uppercase(c: char) -> (r: Vec<char>)
    ensures
        r@ == uppercase_of(c),
{
    c.to_uppercase().collect()
}

/// The Unix time of 0000-01-01T00:00:00Z, the first that RFC 3339 can write.
pub const FIRST_RFC3339_SECOND: i64 = -62_167_219_200;

/// The Unix time of 9999-12-31T23:59:59Z, the last that RFC 3339 can write.
pub const LAST_RFC3339_SECOND: i64 = 253_402_300_799;

/// The text that `OffsetDateTime::from_unix_timestamp(seconds)` formatted with
/// `well_known::Rfc3339` gives; `None` where either step fails.
pub uninterp spec fn rfc3339_utc_of(seconds: int) -> Option<Seq<char>>;

/// Formats a Unix time in seconds as RFC 3339 in UTC, with the `time` crate.
/// Its result is named, not stated; what is stated is when there is one:
/// `from_unix_timestamp` accepts the times from -9999-01-01 to 9999-12-31
/// (the crate's `Date::MIN` and `Date::MAX` without `large-dates`), and the
/// RFC 3339 format refuses the years before 0.
#[verifier::external_body]
fn rfc3339_utc(seconds: i64) -> (r: Option<String>)
    ensures
        opt_chars(r) == rfc3339_utc_of(seconds as int),
        r is Some <==> FIRST_RFC3339_SECOND <= seconds <= LAST_RFC3339_SECOND,
{
    match time::OffsetDateTime::from_unix_timestamp(seconds) {
        Ok(moment) => moment.format(&time::format_description::well_known::Rfc3339).ok(),
        Err(_) => None,
    }
}

/// The current Unix time in seconds (`OffsetDateTime::now_utc().unix_timestamp()`);
/// what it is depends on the clock.
#[verifier::external_body]
pub(crate) fn now_unix_seconds() -> (r: i64) {
    time::OffsetDateTime::now_utc().unix_timestamp()
}

/// What the panel shows as the plan: none for a blank plan type; `Pro 5x`
/// for `prolite` and `Pro 20x` for `pro` in any ASCII case; otherwise the
/// trimmed plan type with its first character in upper case.
pub open spec fn plan_label(plan_type: Seq<char>) -> Option<Seq<char>> {
    let t = trimmed(plan_type);
    if t.len() == 0 {
        None
    } else if ascii_lowercase(t) == "prolite"@ {
        Some("Pro 5x"@)
    } else if ascii_lowercase(t) == "pro"@ {
        Some("Pro 20x"@)
    } else {
        Some(uppercase_of(t[0]) + t.drop_first())
    }
}

/// The plan's name as the panel shows it (see `plan_label`).
pub fn format_codex_plan(plan_type: &str) -> (r: Option<String>)
    ensures
        opt_chars(r) == plan_label(plan_type@),
{
    let all = chars_of(plan_type);
    let t = trim_chars(&all);
    if t.len() == 0 {
        return None;
    }
    let lower = ascii_lowercase_chars(&t);
    if chars_eq(&lower, &chars_of("prolite")) {
        return Some(String::from_str("Pro 5x"));
    }
    if chars_eq(&lower, &chars_of("pro")) {
        return Some(String::from_str("Pro 20x"));
    }
    let mut out = char_uppercase(t[0]);
    let ghost head = out@;
    let mut i: usize = 1;
    while i < t.len()
        invariant
            1 <= i <= t@.len(),
            out@ == head + t@.subrange(1, i as int),
        decreases t@.len() - i,
    {
        out.push(t[i]);
        i = i + 1;
    }
    assert(t@.subrange(1, t@.len() as int) =~= t@.drop_first());
    Some(string_from_chars(&out))
}

/// The RFC 3339 text of a Unix time, or of the Unix epoch where the time is
/// out of the `time` crate's range.
pub open spec fn iso_of(seconds: int) -> Seq<char> {
    match rfc3339_utc_of(seconds) {
        Some(t) => t,
        None => "1970-01-01T00:00:00Z"@,
    }
}

/// A Unix time in seconds as RFC 3339 text in UTC; the epoch's text where
/// the time cannot be formatted.
pub fn unix_seconds_to_iso(seconds: i64) -> (r: String)
    ensures
        r@ == iso_of(seconds as int),
        !(FIRST_RFC3339_SECOND <= seconds <= LAST_RFC3339_SECOND) ==> r@ == "1970-01-01T00:00:00Z"@,
{
    match rfc3339_utc(seconds) {
        Some(t) => t,
        None => String::from_str("1970-01-01T00:00:00Z"),
    }
}

/// The current time as RFC 3339 text in UTC; which time depends on the clock.
pub fn now_iso_string() -> (r: String)
    ensures
        exists|s: i64| r@ == iso_of(s as int),
{
    unix_seconds_to_iso(now_unix_seconds())
}

/// One limit window of the report, as far as the summary reads it.
#[derive(Clone, Debug)]
pub struct UsageWindow {
    /// Whether `used_percent` holds a finite number.
    pub used_percent_known: bool,
    /// `reset_at`, where it holds a number (read as an `i64`).
    pub reset_at: Option<i64>,
    /// `reset_after_seconds`, where it holds a number (read as an `i64`).
    pub reset_after_seconds: Option<i64>,
    /// `limit_window_seconds`, where it holds a non-negative number (read as a
    /// `u64`, rounded down).
    pub limit_window_seconds: Option<u64>,
}

/// The parts of the usage report that the summary reads, numbers already
/// read as integers.
#[derive(Clone, Debug)]
pub struct UsageReport {
    /// `plan_type`, where it is a string.
    pub plan_type: Option<String>,
    /// Whether the header `x-codex-primary-used-percent` reads as a number.
    pub header_primary_percent: bool,
    /// Whether the header `x-codex-secondary-used-percent` reads as a number.
    pub header_secondary_percent: bool,
    /// `rate_limit.primary_window` (the 5-hour window).
    pub primary_window: UsageWindow,
    /// `rate_limit.secondary_window` (the weekly window).
    pub secondary_window: UsageWindow,
    /// `code_review_rate_limit.primary_window`.
    pub review_window: UsageWindow,
    /// `credits.balance`, where it holds a non-negative number (rounded down).
    pub credits_balance: Option<u64>,
    /// `credits.has_credits`, where it is a boolean.
    pub has_credits: Option<bool>,
    /// The header `x-codex-credits-balance`, where it reads as a finite
    /// non-negative number (rounded down).
    pub header_credits_balance: Option<u64>,
    /// `rate_limit_reset_credits.available_count`, where it holds a
    /// non-negative number (rounded down).
    pub reset_credits_available: Option<u64>,
}

/// What the summary says of one window.
#[derive(Clone, Debug)]
pub struct CodexMetric {
    pub label: String,
    /// Whether the used percentage is the one in the header (else the one in
    /// the window).
    pub percent_from_header: bool,
    /// When the window resets, RFC 3339.
    pub resets_at: Option<String>,
    /// The window's length in milliseconds.
    pub period_duration_ms: u64,
}

/// The summary of a usage report.
#[derive(Clone, Debug)]
pub struct CodexUsageSnapshot {
    pub plan: Option<String>,
    /// The 5-hour window, where its used percentage is known.
    pub session: Option<CodexMetric>,
    /// The weekly window, where its used percentage is known.
    pub weekly: Option<CodexMetric>,
    /// The code review window, where its used percentage is known.
    pub reviews: Option<CodexMetric>,
    pub credits_remaining: Option<u64>,
    pub reset_credits_available: Option<u64>,
    /// The local token summary, where it was read.
    pub local_usage: Option<CodexLocalUsageSummary>,
    /// `not_checked` before the local usage is read, `ok` where it was
    /// read, else why it could not be.
    pub local_usage_status: String,
    pub fetched_at: String,
}

/// The length of the 5-hour window in milliseconds.
pub const PERIOD_SESSION_MS: u64 = 18_000_000;

/// The length of a week in milliseconds.
pub const PERIOD_WEEKLY_MS: u64 = 604_800_000;

/// Where `reset_at_iso` adds a delay to the current time, the sum is an `i64`.
pub open spec fn reset_time_fits(w: UsageWindow, now_sec: i64) -> bool {
    w.reset_at is None ==> (w.reset_after_seconds matches Some(s) ==> i64::MIN <= now_sec + s
        <= i64::MAX)
}

/// When a window resets: at `reset_at`, else `reset_after_seconds` after
/// `now_sec`, else unknown.
pub open spec fn reset_text(w: UsageWindow, now_sec: int) -> Option<Seq<char>> {
    match w.reset_at {
        Some(t) => Some(iso_of(t as int)),
        None => match w.reset_after_seconds {
            Some(s) => Some(iso_of(now_sec + s)),
            None => None,
        },
    }
}

pub fn reset_at_iso(w: &UsageWindow, now_sec: i64) -> (r: Option<String>)
    requires
        reset_time_fits(*w, now_sec),
    ensures
        opt_chars(r) == reset_text(*w, now_sec as int),
{
    match w.reset_at {
        Some(t) => Some(unix_seconds_to_iso(t)),
        None => match w.reset_after_seconds {
            Some(s) => Some(unix_seconds_to_iso(now_sec + s)),
            None => None,
        },
    }
}

/// A window's length: `limit_window_seconds` in milliseconds where that fits
/// in a `u64`, else `fallback`.
pub open spec fn period_ms(w: UsageWindow, fallback: u64) -> u64 {
    match w.limit_window_seconds {
        Some(s) => if s * 1000 <= u64::MAX {
            (s * 1000) as u64
        } else {
            fallback
        },
        None => fallback,
    }
}

pub fn period_duration_ms(w: &UsageWindow, fallback: u64) -> (r: u64)
    ensures
        r == period_ms(*w, fallback),
{
    match w.limit_window_seconds {
        Some(s) => match s.checked_mul(1000) {
            Some(ms) => ms,
            None => fallback,
        },
        None => fallback,
    }
}

/// The credits left: the balance in the body; none left where the body says
/// there are no credits; else the balance in the header.
pub open spec fn credits_left(u: UsageReport) -> Option<u64> {
    match u.credits_balance {
        Some(b) => Some(b),
        None => if u.has_credits == Some(false) {
            Some(0)
        } else {
            u.header_credits_balance
        },
    }
}

/// Where the credits come from: the body's balance wins; without one, a
/// body that says there are no credits means none are left, whatever the
/// header says and whether it is there; only otherwise is the header's
/// balance used.
pub proof fn lemma_credits_sources(u: UsageReport)
    ensures
        u.credits_balance matches Some(b) ==> credits_left(u) == Some(b),
        u.credits_balance is None && u.has_credits == Some(false) ==> credits_left(u) == Some(0u64),
        u.credits_balance is None && u.has_credits != Some(false) ==> credits_left(u)
            == u.header_credits_balance,
        credits_left(u) is None ==> u.credits_balance is None && u.has_credits != Some(false)
            && u.header_credits_balance is None,
{
}

pub fn read_credits_remaining(u: &UsageReport) -> (r: Option<u64>)
    ensures
        r == credits_left(*u),
        u.credits_balance matches Some(b) ==> r == Some(b),
        u.credits_balance is None && u.has_credits == Some(false) ==> r == Some(0u64),
        u.credits_balance is None && u.has_credits != Some(false) ==> r == u.header_credits_balance,
{
    match u.credits_balance {
        Some(b) => Some(b),
        None => if u.has_credits == Some(false) {
            Some(0)
        } else {
            u.header_credits_balance
        },
    }
}

/// What the summary says of a window: none where its used percentage is
/// known neither from the header nor from the window; else its label, where
/// the percentage comes from (the header first), reset time and length.
pub open spec fn window_ok(
    s: Option<CodexMetric>,
    label: Seq<char>,
    header_known: bool,
    w: UsageWindow,
    now_sec: int,
    fallback: u64,
) -> bool {
    if header_known || w.used_percent_known {
        s matches Some(s) && window_fields_ok(s, label, header_known, w, now_sec, fallback)
    } else {
        s is None
    }
}

pub open spec fn window_fields_ok(
    s: CodexMetric,
    label: Seq<char>,
    header_known: bool,
    w: UsageWindow,
    now_sec: int,
    fallback: u64,
) -> bool {
    &&& s.label@ == label
    &&& s.percent_from_header == header_known
    &&& opt_chars(s.resets_at) == reset_text(w, now_sec)
    &&& s.period_duration_ms == period_ms(w, fallback)
}

/// The summary of a usage report fetched at `fetched_at`, `now_sec` being
/// the current Unix time.
pub open spec fn snapshot_ok(s: CodexUsageSnapshot, u: UsageReport, now_sec: int, fetched_at: Seq<char>) -> bool {
    &&& opt_chars(s.plan) == match u.plan_type {
        Some(p) => plan_label(p@),
        None => None,
    }
    &&& window_ok(
        s.session,
        "5 小时限额"@,
        u.header_primary_percent,
        u.primary_window,
        now_sec,
        PERIOD_SESSION_MS,
    )
    &&& window_ok(
        s.weekly,
        "周限额"@,
        u.header_secondary_percent,
        u.secondary_window,
        now_sec,
        PERIOD_WEEKLY_MS,
    )
    &&& window_ok(s.reviews, "代码评审"@, false, u.review_window, now_sec, PERIOD_WEEKLY_MS)
    &&& s.credits_remaining == credits_left(u)
    &&& s.reset_credits_available == u.reset_credits_available
    &&& s.local_usage is None
    &&& s.local_usage_status@ == "not_checked"@
    &&& s.fetched_at@ == fetched_at
}

fn metric_of(label: &str, header_known: bool, w: &UsageWindow, now_sec: i64, fallback: u64) -> (r:
    Option<CodexMetric>)
    requires
        header_known || w.used_percent_known ==> reset_time_fits(*w, now_sec),
    ensures
        window_ok(r, label@, header_known, *w, now_sec as int, fallback),
{
    if !header_known && !w.used_percent_known {
        return None;
    }
    Some(
        CodexMetric {
            label: String::from_str(label),
            percent_from_header: header_known,
            resets_at: reset_at_iso(w, now_sec),
            period_duration_ms: period_duration_ms(w, fallback),
        },
    )
}

/// Whether the delays of the windows that the summary shows can be added to
/// `now_sec` within an `i64`.
pub open spec fn usage_times_fit(u: UsageReport, now_sec: i64) -> bool {
    &&& u.header_primary_percent || u.primary_window.used_percent_known ==> reset_time_fits(
        u.primary_window,
        now_sec,
    )
    &&& u.header_secondary_percent || u.secondary_window.used_percent_known ==> reset_time_fits(
        u.secondary_window,
        now_sec,
    )
    &&& u.review_window.used_percent_known ==> reset_time_fits(u.review_window, now_sec)
}

fn reset_time_fits_exec(w: &UsageWindow, now_sec: i64) -> (r: bool)
    ensures
        r == reset_time_fits(*w, now_sec),
{
    if w.reset_at.is_some() {
        return true;
    }
    match w.reset_after_seconds {
        Some(s) => now_sec.checked_add(s).is_some(),
        None => true,
    }
}

/// Whether the report can be summarized at `now_sec` (see
/// `usage_times_fit`): the delays of the windows shown can be added to it.
pub fn can_summarize_usage(u: &UsageReport, now_sec: i64) -> (r: bool)
    ensures
        r == usage_times_fit(*u, now_sec),
{
    let primary = !(u.header_primary_percent || u.primary_window.used_percent_known)
        || reset_time_fits_exec(&u.primary_window, now_sec);
    let secondary = !(u.header_secondary_percent || u.secondary_window.used_percent_known)
        || reset_time_fits_exec(&u.secondary_window, now_sec);
    let review = !u.review_window.used_percent_known || reset_time_fits_exec(
        &u.review_window,
        now_sec,
    );
    primary && secondary && review
}

/// The summary of a usage report: plan, the three windows, credits left and
/// reset credits; the local usage is not checked yet.
pub fn parse_usage_response(u: &UsageReport, now_sec: i64, fetched_at: &str) -> (r: Result<
    CodexUsageSnapshot,
    String,
>)
    requires
        usage_times_fit(*u, now_sec),
    ensures
        r matches Ok(s) && snapshot_ok(s, *u, now_sec as int, fetched_at@),
{
    let plan = match &u.plan_type {
        Some(p) => format_codex_plan(p.as_str()),
        None => None,
    };
    Ok(CodexUsageSnapshot {
        plan,
        session: metric_of(
            "5 小时限额",
            u.header_primary_percent,
            &u.primary_window,
            now_sec,
            PERIOD_SESSION_MS,
        ),
        weekly: metric_of(
            "周限额",
            u.header_secondary_percent,
            &u.secondary_window,
            now_sec,
            PERIOD_WEEKLY_MS,
        ),
        reviews: metric_of("代码评审", false, &u.review_window, now_sec, PERIOD_WEEKLY_MS),
        credits_remaining: read_credits_remaining(u),
        reset_credits_available: u.reset_credits_available,
        local_usage: None,
        local_usage_status: String::from_str("not_checked"),
        fetched_at: String::from_str(fetched_at),
    })
}

/// Adds the outcome of reading the local usage to a summary: the totals and
/// the status `ok`, or no totals and the error as the status. The rest of
/// the summary stays as it is.
pub fn attach_local_usage(summary: &mut CodexUsageSnapshot, local: Result<CodexLocalUsageSummary, String>)
    ensures
        match local {
            Ok(t) => final(summary).local_usage == Some(t) && final(summary).local_usage_status@
                == "ok"@,
            Err(e) => final(summary).local_usage is None && final(summary).local_usage_status == e,
        },
        final(summary).plan == old(summary).plan,
        final(summary).session == old(summary).session,
        final(summary).weekly == old(summary).weekly,
        final(summary).reviews == old(summary).reviews,
        final(summary).credits_remaining == old(summary).credits_remaining,
        final(summary).reset_credits_available == old(summary).reset_credits_available,
        final(summary).fetched_at == old(summary).fetched_at,
{
    match local {
        Ok(t) => {
            summary.local_usage = Some(t);
            summary.local_usage_status = String::from_str("ok");
        },
        Err(e) => {
            summary.local_usage = None;
            summary.local_usage_status = e;
        },
    }
}

} // verus!
