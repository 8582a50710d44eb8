//! Masked command log records and their UTC timestamps.
use vstd::prelude::*;

use std::time::{Duration, SystemTime, UNIX_EPOCH};

use crate::at::mask::{mask_sensitive_chars, masked_text};
use crate::at::response::AtStatus;
use crate::at::risk::RiskLevel;
use crate::text::{chars_of, decimal_padded, push_decimal_padded, push_str, string_of};

verus! {

broadcast use vstd::string::group_string_axioms;

/// The device options a log record remembers.
#[derive(Debug, Clone, PartialEq, Eq)]
pub struct LogDeviceSelection {
    pub requested_vendor_id: Option<String>,
    pub requested_product_id: Option<String>,
    pub requested_bus: Option<u8>,
    pub requested_address: Option<u8>,
    pub interface: Option<u8>,
    pub bulk_in: Option<String>,
    pub bulk_out: Option<String>,
}

/// One command or sequence run, as the logs record it.
#[derive(Debug, Clone)]
pub struct CommandLogRecord {
    pub timestamp: LogTimestamp,
    pub source: String,
    pub command: String,
    pub risk: RiskLevel,
    pub status: AtStatus,
    pub duration_ms: u64,
    pub response: String,
    pub device: LogDeviceSelection,
}

impl CommandLogRecord {
    /// The command as the logs write it: masked.
    pub fn masked_command(&self) -> (r: String)
        ensures
            r@ == masked_text(self.command@),
    {
        string_of(&mask_sensitive_chars(&chars_of(self.command.as_str())))
    }

    /// The response as the session log writes it: masked.
    pub fn masked_response(&self) -> (r: String)
        ensures
            r@ == masked_text(self.response@),
    {
        string_of(&mask_sensitive_chars(&chars_of(self.response.as_str())))
    }
}

/// A UTC time, as shown in logs and as used in log file names.
#[derive(Debug, Clone, PartialEq, Eq)]
pub struct LogTimestamp {
    display: String,
    file_stem: String,
}

impl LogTimestamp {
    pub closed spec fn display_spec(&self) -> Seq<char> {
        self.display@
    }

    pub closed spec fn file_stem_spec(&self) -> Seq<char> {
        self.file_stem@
    }

    /// `YYYY-MM-DDTHH:MM:SSZ`.
    pub fn display(&self) -> (r: &str)
        ensures
            r@ == self.display_spec(),
    {
        self.display.as_str()
    }

    /// `YYYY-MM-DDTHH-MM-SS-NNNNNNNNNZ`, usable in file names.
    pub fn file_stem(&self) -> (r: &str)
        ensures
            r@ == self.file_stem_spec(),
    {
        self.file_stem.as_str()
    }
}

// ---------------------------------------------------------------------
// Calendar
// ---------------------------------------------------------------------
/// The proleptic Gregorian date (year, month, day) of a day counted from
/// 1970-01-01, by the era decomposition: 400-year eras of 146097 days,
/// years starting on 1 March.
pub open spec fn civil_from_days(days: int) -> (int, int, int) {
    let z = days + 719468;
    let era = z / 146097;
    let doe = z - era * 146097;
    let yoe = (doe - doe / 1460 + doe / 36524 - doe / 146096) / 365;
    let y = yoe + era * 400;
    let doy = doe - (365 * yoe + yoe / 4 - yoe / 100);
    let mp = (5 * doy + 2) / 153;
    let d = doy - (153 * mp + 2) / 5 + 1;
    let m = if mp < 10 {
        mp + 3
    } else {
        mp - 9
    };
    (
        if m <= 2 {
            y + 1
        } else {
            y
        },
        m,
        d,
    )
}

/// A year as `{:04}` writes it: at least four characters, a minus sign
/// counting as one.
pub open spec fn year_text(y: int) -> Seq<char> {
    if y < 0 {
        seq!['-'] + decimal_padded((-y) as nat, 3)
    } else {
        decimal_padded(y as nat, 4)
    }
}

/// The parts of a time given in seconds from the Unix epoch.
pub open spec fn time_parts(seconds: int) -> (int, int, int, int, int, int) {
    let days = seconds / 86400;
    let sod = seconds % 86400;
    let c = civil_from_days(days);
    (c.0, c.1, c.2, sod / 3600, (sod % 3600) / 60, sod % 60)
}

pub open spec fn two(n: int) -> Seq<char> {
    decimal_padded(n as nat, 2)
}

pub open spec fn display_text(seconds: int) -> Seq<char> {
    let p = time_parts(seconds);
    year_text(p.0) + "-"@ + two(p.1) + "-"@ + two(p.2) + "T"@ + two(p.3) + ":"@ + two(p.4) + ":"@
        + two(p.5) + "Z"@
}

pub open spec fn file_stem_text(seconds: int, nanos: nat) -> Seq<char> {
    let p = time_parts(seconds);
    year_text(p.0) + "-"@ + two(p.1) + "-"@ + two(p.2) + "T"@ + two(p.3) + "-"@ + two(p.4) + "-"@
        + two(p.5) + "-"@ + decimal_padded(nanos, 9) + "Z"@
}

/// Floor division of a wide integer by a positive divisor.
fn floor_div(a: i128, b: i128) -> (q: i128)
    requires
        0 < b < 0x1_0000_0000,
        -0x1_0000_0000_0000_0000_0000 < a < 0x1_0000_0000_0000_0000_0000,
    ensures
        q == a / b,
{
    if a >= 0 {
        let ua = a as u128;
        let ub = b as u128;
        (ua / ub) as i128
    } else {
        let ua = (-a) as u128;
        let ub = b as u128;
        let t = (ua + ub - 1) / ub;
        proof {
            let tt = t as int;
            let ai = a as int;
            let bi = b as int;
            assert(tt * bi <= -ai + bi - 1 < tt * bi + bi) by (nonlinear_arith)
                requires
                    tt == (-ai + bi - 1) / bi,
                    bi > 0,
                    -ai + bi - 1 >= 0,
            ;
            let rr = ai - (-tt) * bi;
            assert(0 <= rr < bi && ai == (-tt) * bi + rr) by (nonlinear_arith)
                requires
                    tt * bi <= -ai + bi - 1 < tt * bi + bi,
                    rr == ai - (-tt) * bi,
                    bi > 0,
            ;
            vstd::arithmetic::div_mod::lemma_fundamental_div_mod_converse(ai, bi, -tt, rr);
        }
        -(t as i128)
    }
}

/// The date of a day counted from 1970-01-01.
pub fn civil_date(days: i128) -> (r: (i128, i128, i128))
    requires
        -0x1_0000_0000_0000_0000 < days < 0x1_0000_0000_0000_0000,
    ensures
        r.0 == civil_from_days(days as int).0,
        r.1 == civil_from_days(days as int).1,
        r.2 == civil_from_days(days as int).2,
        1 <= r.1 <= 12,
        1 <= r.2 <= 31,
{
    let z = days + 719468;
    let era = floor_div(z, 146097);
    let doe = z - era * 146097;
    assert(0 <= doe < 146097) by (nonlinear_arith)
        requires
            era == z / 146097,
            doe == z - era * 146097,
    {
        vstd::arithmetic::div_mod::lemma_fundamental_div_mod(z as int, 146097);
    }
    let yoe = (doe - doe / 1460 + doe / 36524 - doe / 146096) / 365;
    assert(0 <= yoe <= 399) by (nonlinear_arith)
        requires
            0 <= doe < 146097,
            yoe == (doe - doe / 1460 + doe / 36524 - doe / 146096) / 365,
    ;
    let y = yoe + era * 400;
    let doy = doe - (365 * yoe + yoe / 4 - yoe / 100);
    assert(0 <= doy <= 365) by (nonlinear_arith)
        requires
            0 <= doe < 146097,
            yoe == (doe - doe / 1460 + doe / 36524 - doe / 146096) / 365,
            doy == doe - (365 * yoe + yoe / 4 - yoe / 100),
    ;
    let mp = (5 * doy + 2) / 153;
    let d = doy - (153 * mp + 2) / 5 + 1;
    assert(0 <= mp <= 11 && 1 <= d <= 31) by (nonlinear_arith)
        requires
            0 <= doy <= 365,
            mp == (5 * doy + 2) / 153,
            d == doy - (153 * mp + 2) / 5 + 1,
    ;
    let m = if mp < 10 {
        mp + 3
    } else {
        mp - 9
    };
    let year = if m <= 2 {
        y + 1
    } else {
        y
    };
    (year, m, d)
}

fn push_year(v: &mut Vec<char>, y: i128)
    requires
        -0x1_0000_0000_0000_0000_0000 < y < 0x1_0000_0000_0000_0000_0000,
    ensures
        final(v)@ == old(v)@ + year_text(y as int),
{
    if y < 0 {
        v.push('-');
        let ghost mid = v@;
        push_decimal_padded(v, (-y) as u128, 3);
        assert(v@ =~= old(v)@ + year_text(y as int));
    } else {
        push_decimal_padded(v, y as u128, 4);
    }
}

fn push_two(v: &mut Vec<char>, n: i128)
    requires
        0 <= n < 100,
    ensures
        final(v)@ == old(v)@ + two(n as int),
{
    push_decimal_padded(v, n as u128, 2);
}

/// The timestamp of a time given in seconds and nanoseconds from the Unix
/// epoch.
pub fn timestamp_from_unix(seconds: i64, nanos: u32) -> (r: LogTimestamp)
    ensures
        r.display_spec() == display_text(seconds as int),
        r.file_stem_spec() == file_stem_text(seconds as int, nanos as nat),
{
    let s = seconds as i128;
    let days = floor_div(s, 86400);
    let sod = s - days * 86400;
    assert(0 <= sod < 86400 && sod == (s as int) % 86400) by (nonlinear_arith)
        requires
            days == (s as int) / 86400,
            sod == s - days * 86400,
    {
        vstd::arithmetic::div_mod::lemma_fundamental_div_mod(s as int, 86400);
    }
    assert(-0x1_0000_0000_0000_0000 < days < 0x1_0000_0000_0000_0000) by (nonlinear_arith)
        requires
            days == (s as int) / 86400,
            -0x8000_0000_0000_0000 <= s < 0x8000_0000_0000_0000,
    ;
    let hour = sod / 3600;
    let minute = (sod % 3600) / 60;
    let second = sod % 60;
    let (year, month, day) = civil_date(days);
    assert(-0x1_0000_0000_0000_0000_0000 < year < 0x1_0000_0000_0000_0000_0000) by (nonlinear_arith)
        requires
            -0x1_0000_0000_0000_0000 < days < 0x1_0000_0000_0000_0000,
            year == civil_from_days(days as int).0,
    {
        let z = days + 719468;
        let era = z / 146097;
        vstd::arithmetic::div_mod::lemma_fundamental_div_mod(z as int, 146097);
    }
    let mut display: Vec<char> = Vec::new();
    push_year(&mut display, year);
    push_str(&mut display, "-");
    push_two(&mut display, month);
    push_str(&mut display, "-");
    push_two(&mut display, day);
    push_str(&mut display, "T");
    push_two(&mut display, hour);
    push_str(&mut display, ":");
    push_two(&mut display, minute);
    push_str(&mut display, ":");
    push_two(&mut display, second);
    push_str(&mut display, "Z");
    let mut stem: Vec<char> = Vec::new();
    push_year(&mut stem, year);
    push_str(&mut stem, "-");
    push_two(&mut stem, month);
    push_str(&mut stem, "-");
    push_two(&mut stem, day);
    push_str(&mut stem, "T");
    push_two(&mut stem, hour);
    push_str(&mut stem, "-");
    push_two(&mut stem, minute);
    push_str(&mut stem, "-");
    push_two(&mut stem, second);
    push_str(&mut stem, "-");
    push_decimal_padded(&mut stem, nanos as u128, 9);
    push_str(&mut stem, "Z");
    LogTimestamp { display: string_of(&display), file_stem: string_of(&stem) }
}

#[verifier::external_type_specification]
#[verifier::external_body]
pub struct ExSystemTime(SystemTime);

/// `SystemTime::now`: the current wall-clock time; nothing is said of its
/// value.
#[verifier::external_body]
fn system_now() -> SystemTime {
    SystemTime::now()
}

/// `SystemTime::duration_since(UNIX_EPOCH)`: the time since the Unix epoch,
/// or nothing for a clock set before it; nothing is said of the value.
#[verifier::external_body]
fn since_unix_epoch(t: &SystemTime) -> Option<Duration> {
    match t.duration_since(UNIX_EPOCH) {
        Ok(d) => Some(d),
        Err(_) => None,
    }
}

/// `Duration::as_secs`: the whole seconds of a duration; nothing is said
/// of the value.
#[verifier::external_body]
fn whole_secs(d: &Duration) -> u64 {
    d.as_secs()
}

/// `Duration::subsec_nanos`: the nanoseconds past the whole seconds, which
/// the documentation bounds below one second.
#[verifier::external_body]
fn nanos_past_secs(d: &Duration) -> (r: u32)
    ensures
        r < 1_000_000_000,
{
    d.subsec_nanos()
}

/// The current time from the Unix epoch: whole seconds and the nanoseconds
/// past them; a clock set before the epoch reads as zero.
fn unix_time_now() -> (r: (u64, u32))
    ensures
        r.1 < 1_000_000_000,
{
    let now = system_now();
    match since_unix_epoch(&now) {
        Some(d) => (whole_secs(&d), nanos_past_secs(&d)),
        None => (0, 0),
    }
}

/// The timestamp of the current time.
pub fn now_timestamp() -> (r: LogTimestamp)
    ensures
        exists|s: i64, n: u32|
            n < 1_000_000_000 && r.display_spec() == display_text(s as int) && r.file_stem_spec()
                == file_stem_text(s as int, n as nat),
{
    let (secs, nanos) = unix_time_now();
    timestamp_from_unix(secs as i64, nanos)
}

} // verus!
