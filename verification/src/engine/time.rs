//! Calendar dates: `YYYY-MM-DD` dates as UTC epoch milliseconds.
use chrono::{Datelike, TimeZone};
use vstd::prelude::*;

verus! {

/// What `NaiveDate::parse_from_str(s, "%Y-%m-%d")` gives for `s`: the year,
/// month and day of the date, or the text of the parse error.
pub uninterp spec fn spec_parse_ymd(s: Seq<char>) -> Result<(i32, u32, u32), Seq<char>>;

/// `chrono::NaiveDate::parse_from_str(s, "%Y-%m-%d")`, with the date taken
/// apart by its `year`, `month` and `day` getters and an error turned into its
/// message. The contract claims that the result is the named outcome for `s`,
/// and that a parsed date lies in the year range of `NaiveDate`
/// (-262143..=262142) with a month in 1..=12 and a day in 1..=31.
#[verifier::external_body]
pub(crate) fn parse_ymd(s: &str) -> (r: Result<(i32, u32, u32), String>)
    ensures
        match r {
            Ok(d) => spec_parse_ymd(s@) == Ok::<(i32, u32, u32), Seq<char>>(d),
            Err(m) => spec_parse_ymd(s@) == Err::<(i32, u32, u32), Seq<char>>(m@),
        },
        r matches Ok(d) ==> -262143 <= d.0 <= 262142 && 1 <= d.1 <= 12 && 1 <= d.2 <= 31,
{
    match chrono::NaiveDate::parse_from_str(s, "%Y-%m-%d") {
        Ok(d) => Ok((d.year(), d.month(), d.day())),
        Err(e) => Err(e.to_string()),
    }
}

/// Days from 1970-01-01 to the given date of the proleptic Gregorian calendar.
pub open spec fn days_from_civil(y: int, m: int, d: int) -> int {
    let yy = if m <= 2 {
        y - 1
    } else {
        y
    };
    let era = yy / 400;
    let yoe = yy - era * 400;
    let mp = if m > 2 {
        m - 3
    } else {
        m + 9
    };
    let doy = (153 * mp + 2) / 5 + d - 1;
    let doe = yoe * 365 + yoe / 4 - yoe / 100 + doy;
    era * 146097 + doe - 719468
}

/// UTC epoch milliseconds of midnight at the start of the given date.
pub open spec fn midnight_millis(y: int, m: int, d: int) -> int {
    days_from_civil(y, m, d) * 86_400_000
}

/// UTC epoch milliseconds of midnight at the start of the given date.
pub fn date_to_millis(y: i32, m: u32, d: u32) -> (ms: i64)
    requires
        -262143 <= y <= 262142,
        1 <= m <= 12,
        1 <= d <= 31,
    ensures
        ms == midnight_millis(y as int, m as int, d as int),
        -13_000_000_000_000_000 <= ms <= 13_000_000_000_000_000,
{
    let yy: i64 = if m <= 2 {
        y as i64 - 1
    } else {
        y as i64
    };
    let shifted: i64 = yy + 400_000;
    let era_s: i64 = shifted / 400;
    let yoe: i64 = shifted - era_s * 400;
    let ghost era = (yy as int) / 400;
    proof {
        vstd::arithmetic::div_mod::lemma_fundamental_div_mod(yy as int, 400);
        vstd::arithmetic::div_mod::lemma_fundamental_div_mod(shifted as int, 400);
        vstd::arithmetic::div_mod::lemma_mod_bound(yy as int, 400);
        vstd::arithmetic::div_mod::lemma_mod_bound(shifted as int, 400);
        let r1 = (yy as int) % 400;
        let r2 = (shifted as int) % 400;
        let q2 = (shifted as int) / 400;
        assert(era_s == q2);
        assert(400 * (q2 - era - 1000) == r1 - r2);
        assert(q2 - era - 1000 == 0) by (nonlinear_arith)
            requires
                400 * (q2 - era - 1000) == r1 - r2,
                0 <= r1 < 400,
                0 <= r2 < 400,
        ;
    }
    let mp: i64 = if m > 2 {
        m as i64 - 3
    } else {
        m as i64 + 9
    };
    let doy: i64 = (153 * mp + 2) / 5 + d as i64 - 1;
    let doe: i64 = yoe * 365 + yoe / 4 - yoe / 100 + doy;
    let days: i64 = (era_s - 1000) * 146097 + doe - 719468;
    assert(-1000 <= era < 1000) by (nonlinear_arith)
        requires
            era == yy / 400,
            -262144 <= yy <= 262142,
    ;
    days * 86_400_000
}

/// The epoch milliseconds that chrono can turn into a UTC date and time: from
/// the first millisecond of -262143-01-01 to the last of 262142-12-31 (the
/// range of `NaiveDate`).
pub open spec fn in_chrono_range(ms: i64) -> bool {
    midnight_millis(-262143, 1, 1) <= ms < midnight_millis(262143, 1, 1)
}

/// Whether chrono can turn `ms` into a UTC date and time.
pub fn timestamp_in_range(ms: i64) -> (r: bool)
    ensures
        r == in_chrono_range(ms),
{
    assert(midnight_millis(-262143, 1, 1) == -8_334_601_228_800_000);
    assert(midnight_millis(262143, 1, 1) == 8_210_266_876_800_000);
    -8_334_601_228_800_000 <= ms && ms < 8_210_266_876_800_000
}

/// What chrono writes for the UTC time `ms` (epoch milliseconds) in the
/// format `%Y-%m-%d %H:%M:%S UTC`.
pub uninterp spec fn spec_utc_seconds(ms: i64) -> Seq<char>;

/// `chrono::Utc.timestamp_millis_opt(ms)`, unwrapped, formatted with
/// `%Y-%m-%d %H:%M:%S UTC`. The call gives a date exactly for the
/// milliseconds of `NaiveDate`'s range, which the `requires` asks for; the
/// contract claims that the text is the named one for `ms`.
#[verifier::external_body]
pub(crate) fn utc_seconds_text(ms: i64) -> (s: String)
    requires
        in_chrono_range(ms),
    ensures
        s@ == spec_utc_seconds(ms),
{
    chrono::Utc.timestamp_millis_opt(ms).unwrap().format("%Y-%m-%d %H:%M:%S UTC").to_string()
}

/// What chrono writes for the UTC time `ms` (epoch milliseconds) in the
/// format `%Y-%m-%d %H:%M`.
pub uninterp spec fn spec_utc_minutes(ms: i64) -> Seq<char>;

/// `chrono::Utc.timestamp_millis_opt(ms)`, unwrapped, formatted with
/// `%Y-%m-%d %H:%M`. The call gives a date exactly for the milliseconds of
/// `NaiveDate`'s range, which the `requires` asks for; the contract claims
/// that the text is the named one for `ms`.
#[verifier::external_body]
pub(crate) fn utc_minutes_text(ms: i64) -> (s: String)
    requires
        in_chrono_range(ms),
    ensures
        s@ == spec_utc_minutes(ms),
{
    chrono::Utc.timestamp_millis_opt(ms).unwrap().format("%Y-%m-%d %H:%M").to_string()
}

} // verus!
