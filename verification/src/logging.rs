//! Access log records and the two line formats they are written in.

use vstd::prelude::*;
use crate::config::LogFormat;
use crate::web::lua::utils::spec_days_to_ymd;
use crate::text::{string_from_chars, u64_to_decimal, decimal, append_str};

verus! {

broadcast use vstd::string::group_string_axioms;

/// A point in time in UTC: seconds since the Unix epoch and nanoseconds
/// into the second.
#[derive(Debug, Clone, Copy)]
pub struct Timestamp {
    pub secs: i64,
    pub nanos: u32,
}

/// How chrono writes the time `secs`, `nanos` with the pattern
/// `%d/%b/%Y:%H:%M:%S %z` (e.g. `10/Oct/2000:13:55:36 +0000`).
pub uninterp spec fn clf_time(secs: i64, nanos: u32) -> Seq<char>;

/// How chrono's `to_rfc3339` writes the time `secs`, `nanos` in UTC (e.g.
/// `2000-10-10T13:55:36.500+00:00`).
pub uninterp spec fn rfc3339_time(secs: i64, nanos: u32) -> Seq<char>;

/// The decimal digit `d` (below ten) as a character.
pub open spec fn digit_char(d: nat) -> char {
    ((d + 48) as u32) as char
}

/// `v` in `w` decimal digits, with leading zeros.
pub open spec fn padded(v: nat, w: nat) -> Seq<char>
    decreases w,
{
    if w == 0 {
        Seq::empty()
    } else {
        padded(v / 10, (w - 1) as nat).push(digit_char(v % 10))
    }
}

/// The English abbreviation of month `m` (1 to 12).
pub open spec fn month_abbrev(m: int) -> Seq<char> {
    if m == 1 {
        seq!['J', 'a', 'n']
    } else if m == 2 {
        seq!['F', 'e', 'b']
    } else if m == 3 {
        seq!['M', 'a', 'r']
    } else if m == 4 {
        seq!['A', 'p', 'r']
    } else if m == 5 {
        seq!['M', 'a', 'y']
    } else if m == 6 {
        seq!['J', 'u', 'n']
    } else if m == 7 {
        seq!['J', 'u', 'l']
    } else if m == 8 {
        seq!['A', 'u', 'g']
    } else if m == 9 {
        seq!['S', 'e', 'p']
    } else if m == 10 {
        seq!['O', 'c', 't']
    } else if m == 11 {
        seq!['N', 'o', 'v']
    } else {
        seq!['D', 'e', 'c']
    }
}

/// Seconds since the epoch within the years 1970 to 9999, the times the
/// formats below are stated for.
pub open spec fn four_digit_year_time(secs: i64, nanos: u32) -> bool {
    0 <= secs < 253402300800 && nanos < 1_000_000_000
}

/// Hours, minutes and seconds into the day of `secs`, as `HH:MM:SS`.
pub open spec fn clock_text(secs: int) -> Seq<char> {
    let r = secs % 86400;
    padded((r / 3600) as nat, 2) + seq![':'] + padded((r % 3600 / 60) as nat, 2) + seq![':'] + padded(
        (r % 60) as nat,
        2,
    )
}

/// `%d/%b/%Y:%H:%M:%S %z` for the time `secs` in UTC: the calendar date of
/// the day `secs / 86400` after 1970-01-01.
pub open spec fn spec_clf_text(secs: int) -> Seq<char> {
    let (y, m, d) = spec_days_to_ymd(secs / 86400);
    padded(d as nat, 2) + seq!['/'] + month_abbrev(m) + seq!['/'] + padded(y as nat, 4) + seq![':']
        + clock_text(secs) + seq![' ', '+', '0', '0', '0', '0']
}

/// The fraction chrono's `to_rfc3339` writes: none for whole seconds, else
/// milli-, micro- or nanoseconds, the shortest that is exact.
pub open spec fn rfc3339_fraction(nanos: nat) -> Seq<char> {
    if nanos == 0 {
        Seq::empty()
    } else if nanos % 1_000_000 == 0 {
        seq!['.'] + padded(nanos / 1_000_000, 3)
    } else if nanos % 1000 == 0 {
        seq!['.'] + padded(nanos / 1000, 6)
    } else {
        seq!['.'] + padded(nanos, 9)
    }
}

/// `YYYY-MM-DDTHH:MM:SS[.fraction]+00:00` for the time `secs`, `nanos`.
pub open spec fn spec_rfc3339_text(secs: int, nanos: nat) -> Seq<char> {
    let (y, m, d) = spec_days_to_ymd(secs / 86400);
    padded(y as nat, 4) + seq!['-'] + padded(m as nat, 2) + seq!['-'] + padded(d as nat, 2) + seq!['T']
        + clock_text(secs) + rfc3339_fraction(nanos) + seq!['+', '0', '0', ':', '0', '0']
}

/// Reads the system clock with `SystemTime::now` and `duration_since` the
/// Unix epoch: whole seconds and the nanoseconds into the second, or none
/// for a clock set before the epoch. Trusted only for the nanoseconds being
/// below one second; the time is the machine's.
#[verifier::external_body]
pub(crate) fn system_clock() -> (r: Option<(u64, u32)>)
    ensures
        r matches Some((s, n)) ==> n < 1_000_000_000,
{
    match std::time::SystemTime::now().duration_since(std::time::UNIX_EPOCH) {
        Ok(d) => Some((d.as_secs(), d.subsec_nanos())),
        Err(_) => None,
    }
}

/// The current time in UTC. A clock set before the epoch reads as the
/// epoch (where `chrono::Utc::now` would panic); seconds beyond what an
/// `i64` holds read as its largest value.
fn utc_now() -> (r: Timestamp)
    ensures
        r.secs >= 0,
        r.nanos < 1_000_000_000,
{
    match system_clock() {
        Some((s, n)) => {
            let secs: i64 = if s > i64::MAX as u64 {
                i64::MAX
            } else {
                s as i64
            };
            Timestamp { secs, nanos: n }
        },
        None => Timestamp { secs: 0, nanos: 0 },
    }
}

/// Formats a time with chrono's `format("%d/%b/%Y:%H:%M:%S %z")`. Trusted:
/// the result is that text; a time chrono cannot represent formats as
/// nothing. For years 1970 to 9999 the text is `spec_clf_text`: day, month
/// and four-digit year of the proleptic Gregorian calendar, the time of
/// day, and `+0000` for UTC.
#[verifier::external_body]
fn format_clf_time(secs: i64, nanos: u32) -> (r: String)
    ensures
        r@ == clf_time(secs, nanos),
        four_digit_year_time(secs, nanos) ==> r@ == spec_clf_text(secs as int),
{
    match chrono::DateTime::from_timestamp(secs, nanos) {
        Some(t) => t.format("%d/%b/%Y:%H:%M:%S %z").to_string(),
        None => String::new(),
    }
}

/// Formats a time with chrono's `to_rfc3339`. Trusted: the result is that
/// text; a time chrono cannot represent formats as nothing. For years 1970
/// to 9999 the text is `spec_rfc3339_text` (chrono's `write_rfc3339` with
/// `SecondsFormat::AutoSi` and the offset `+00:00`).
#[verifier::external_body]
fn format_rfc3339_time(secs: i64, nanos: u32) -> (r: String)
    ensures
        r@ == rfc3339_time(secs, nanos),
        four_digit_year_time(secs, nanos) ==> r@ == spec_rfc3339_text(secs as int, nanos as nat),
{
    match chrono::DateTime::from_timestamp(secs, nanos) {
        Some(t) => t.to_rfc3339(),
        None => String::new(),
    }
}

/// One served request.
#[derive(Debug, Clone)]
pub struct AccessLog {
    /// When it was served.
    pub timestamp: Timestamp,
    /// The client's address.
    pub client_addr: String,
    /// The request method.
    pub method: String,
    /// The request path.
    pub path: String,
    /// The HTTP version.
    pub version: String,
    /// The response status.
    pub status: u16,
    /// The response size in bytes.
    pub response_size: usize,
    /// How long the response took, in milliseconds.
    pub response_time_ms: u64,
    /// The `Referer` header.
    pub referer: Option<String>,
    /// The `User-Agent` header.
    pub user_agent: Option<String>,
}

/// A header's text, or `-` when it is absent.
pub open spec fn or_dash(s: Option<String>) -> Seq<char> {
    match s {
        Some(v) => v@,
        None => seq!['-'],
    }
}

/// The combined log format:
/// `addr - - [time] "method path version" status size "referer" "agent" ms`.
pub open spec fn spec_combined(log: AccessLog, time: Seq<char>) -> Seq<char> {
    log.client_addr@ + " - - ["@ + time + "] \""@ + log.method@ + " "@ + log.path@ + " "@ + log.version@
        + "\" "@ + decimal(log.status as nat) + " "@ + decimal(log.response_size as nat) + " \""@
        + or_dash(log.referer) + "\" \""@ + or_dash(log.user_agent) + "\" "@ + decimal(
        log.response_time_ms as nat,
    )
}

/// The JSON format: one object with the fields in a fixed order, the
/// texts quoted as they are.
pub open spec fn spec_json(log: AccessLog, time: Seq<char>) -> Seq<char> {
    "{\"timestamp\":\""@ + time + "\",\"client_addr\":\""@ + log.client_addr@ + "\",\"method\":\""@
        + log.method@ + "\",\"path\":\""@ + log.path@ + "\",\"version\":\""@ + log.version@
        + "\",\"status\":"@ + decimal(log.status as nat) + ",\"response_size\":"@ + decimal(
        log.response_size as nat,
    ) + ",\"response_time_ms\":"@ + decimal(log.response_time_ms as nat) + ",\"referer\":\""@
        + or_dash(log.referer) + "\",\"user_agent\":\""@ + or_dash(log.user_agent) + "\"}"@
}

fn append_or_dash(out: &mut Vec<char>, s: &Option<String>)
    ensures
        final(out)@ == old(out)@ + or_dash(*s),
{
    match s {
        Some(v) => append_str(out, v.as_str()),
        None => {
            out.push('-');
        },
    }
}

fn append_decimal(out: &mut Vec<char>, n: u64)
    ensures
        final(out)@ == old(out)@ + decimal(n as nat),
{
    let d = u64_to_decimal(n);
    append_str(out, d.as_str());
}

impl AccessLog {
    /// A record of a request served now, without `Referer` or `User-Agent`.
    pub fn new(
        client_addr: String,
        method: String,
        path: String,
        version: String,
        status: u16,
        response_size: usize,
        response_time_ms: u64,
    ) -> (r: Self)
        ensures
            r.client_addr@ == client_addr@,
            r.method@ == method@,
            r.path@ == path@,
            r.version@ == version@,
            r.status == status,
            r.response_size == response_size,
            r.response_time_ms == response_time_ms,
            r.referer is None,
            r.user_agent is None,
            r.timestamp.secs >= 0,
            r.timestamp.nanos < 1_000_000_000,
    {
        AccessLog {
            timestamp: utc_now(),
            client_addr,
            method,
            path,
            version,
            status,
            response_size,
            response_time_ms,
            referer: None,
            user_agent: None,
        }
    }

    /// The record with the given `Referer`.
    pub fn with_referer(self, referer: Option<String>) -> (r: Self)
        ensures
            r == (AccessLog { referer, ..self }),
    {
        AccessLog { referer, ..self }
    }

    /// The record with the given `User-Agent`.
    pub fn with_user_agent(self, user_agent: Option<String>) -> (r: Self)
        ensures
            r == (AccessLog { user_agent, ..self }),
    {
        AccessLog { user_agent, ..self }
    }

    /// The combined-format line, with `time` as its time.
    pub fn combined_with_time(&self, time: &str) -> (r: String)
        ensures
            r@ == spec_combined(*self, time@),
    {
        let mut out: Vec<char> = Vec::new();
        append_str(&mut out, self.client_addr.as_str());
        append_str(&mut out, " - - [");
        append_str(&mut out, time);
        append_str(&mut out, "] \"");
        append_str(&mut out, self.method.as_str());
        append_str(&mut out, " ");
        append_str(&mut out, self.path.as_str());
        append_str(&mut out, " ");
        append_str(&mut out, self.version.as_str());
        append_str(&mut out, "\" ");
        append_decimal(&mut out, self.status as u64);
        append_str(&mut out, " ");
        append_decimal(&mut out, self.response_size as u64);
        append_str(&mut out, " \"");
        append_or_dash(&mut out, &self.referer);
        append_str(&mut out, "\" \"");
        append_or_dash(&mut out, &self.user_agent);
        append_str(&mut out, "\" ");
        append_decimal(&mut out, self.response_time_ms);
        string_from_chars(&out)
    }

    /// The combined-format line, its time written by chrono.
    pub fn to_combined(&self) -> (r: String)
        ensures
            r@ == spec_combined(*self, clf_time(self.timestamp.secs, self.timestamp.nanos)),
            four_digit_year_time(self.timestamp.secs, self.timestamp.nanos) ==> r@ == spec_combined(
                *self,
                spec_clf_text(self.timestamp.secs as int),
            ),
    {
        let time = format_clf_time(self.timestamp.secs, self.timestamp.nanos);
        self.combined_with_time(time.as_str())
    }

    /// The JSON line, with `time` as its time.
    pub fn json_with_time(&self, time: &str) -> (r: String)
        ensures
            r@ == spec_json(*self, time@),
    {
        let mut out: Vec<char> = Vec::new();
        append_str(&mut out, "{\"timestamp\":\"");
        append_str(&mut out, time);
        append_str(&mut out, "\",\"client_addr\":\"");
        append_str(&mut out, self.client_addr.as_str());
        append_str(&mut out, "\",\"method\":\"");
        append_str(&mut out, self.method.as_str());
        append_str(&mut out, "\",\"path\":\"");
        append_str(&mut out, self.path.as_str());
        append_str(&mut out, "\",\"version\":\"");
        append_str(&mut out, self.version.as_str());
        append_str(&mut out, "\",\"status\":");
        append_decimal(&mut out, self.status as u64);
        append_str(&mut out, ",\"response_size\":");
        append_decimal(&mut out, self.response_size as u64);
        append_str(&mut out, ",\"response_time_ms\":");
        append_decimal(&mut out, self.response_time_ms);
        append_str(&mut out, ",\"referer\":\"");
        append_or_dash(&mut out, &self.referer);
        append_str(&mut out, "\",\"user_agent\":\"");
        append_or_dash(&mut out, &self.user_agent);
        append_str(&mut out, "\"}");
        string_from_chars(&out)
    }

    /// The JSON line, its time written by chrono in RFC 3339.
    pub fn to_json(&self) -> (r: String)
        ensures
            r@ == spec_json(*self, rfc3339_time(self.timestamp.secs, self.timestamp.nanos)),
            four_digit_year_time(self.timestamp.secs, self.timestamp.nanos) ==> r@ == spec_json(
                *self,
                spec_rfc3339_text(self.timestamp.secs as int, self.timestamp.nanos as nat),
            ),
    {
        let time = format_rfc3339_time(self.timestamp.secs, self.timestamp.nanos);
        self.json_with_time(time.as_str())
    }

    /// The line in the given format.
    pub fn format(&self, format: LogFormat) -> (r: String)
        ensures
            r@ == match format {
                LogFormat::Combined => spec_combined(
                    *self,
                    clf_time(self.timestamp.secs, self.timestamp.nanos),
                ),
                LogFormat::Json => spec_json(*self, rfc3339_time(self.timestamp.secs, self.timestamp.nanos)),
            },
    {
        match format {
            LogFormat::Combined => self.to_combined(),
            LogFormat::Json => self.to_json(),
        }
    }
}

} // verus!
