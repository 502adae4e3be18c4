//! Instants written as calendar text, through chrono.
use vstd::prelude::*;
use crate::num::dec;

verus! {

/// The date, as (year, month, day) of the proleptic Gregorian calendar, that lies `z` days
/// after 1970-01-01 (before it where `z` is negative). Days are counted in eras of 400 years
/// (146097 days) from 0000-03-01, each year of an era from March on, so that the leap day
/// falls at the end of the year.
pub open spec fn civil_from_days(z: int) -> (int, int, int) {
    let z0 = z + 719468;
    let era = z0 / 146097;
    let doe = z0 % 146097;
    let yoe = (doe - doe / 1460 + doe / 36524 - doe / 146096) / 365;
    let doy = doe - (365 * yoe + yoe / 4 - yoe / 100);
    let mp = (5 * doy + 2) / 153;
    let d = doy - (153 * mp + 2) / 5 + 1;
    let m = if mp < 10 {
        mp + 3
    } else {
        mp - 9
    };
    let y = yoe + era * 400 + if m <= 2 {
        1int
    } else {
        0int
    };
    (y, m, d)
}

/// The year of the UTC instant `secs` seconds after the Unix epoch.
pub open spec fn year_of(secs: int) -> int {
    civil_from_days(secs / 86400).0
}

/// chrono represents the dates of the years -262143 to 262142.
pub open spec fn in_chrono_range(secs: int) -> bool {
    -262143 <= year_of(secs) <= 262142
}

/// `n`, below 100, in two digits.
pub open spec fn pad2(n: nat) -> Seq<char> {
    if n < 10 {
        seq!['0'] + dec(n)
    } else {
        dec(n)
    }
}

/// `n` in at least four digits, zeros in front.
pub open spec fn pad4(n: nat) -> Seq<char> {
    if n < 10 {
        "000"@ + dec(n)
    } else if n < 100 {
        "00"@ + dec(n)
    } else if n < 1000 {
        "0"@ + dec(n)
    } else {
        dec(n)
    }
}

/// A year as `%Y` writes it: four digits from 0 to 9999, else a sign and at least four digits.
pub open spec fn year_text(y: int) -> Seq<char> {
    if 0 <= y <= 9999 {
        pad4(y as nat)
    } else if y > 9999 {
        seq!['+'] + pad4(y as nat)
    } else {
        seq!['-'] + pad4((-y) as nat)
    }
}

/// What the conversion `%f` writes of the UTC instant `secs`, for `f` one of `Y m d H M S`.
pub open spec fn field_text(secs: int, f: char) -> Seq<char> {
    let date = civil_from_days(secs / 86400);
    let sod = secs % 86400;
    if f == 'Y' {
        year_text(date.0)
    } else if f == 'm' {
        pad2(date.1 as nat)
    } else if f == 'd' {
        pad2(date.2 as nat)
    } else if f == 'H' {
        pad2((sod / 3600) as nat)
    } else if f == 'M' {
        pad2((sod % 3600 / 60) as nat)
    } else {
        pad2((sod % 60) as nat)
    }
}

/// The UTC instant `secs` written with `pattern`: each `%` and the letter after it replaced by
/// that field, every other character as it stands.
pub open spec fn utc_text(secs: int, pattern: Seq<char>) -> Seq<char>
    decreases pattern.len(),
{
    if pattern.len() == 0 {
        pattern
    } else if pattern[0] == '%' && pattern.len() >= 2 {
        field_text(secs, pattern[1]) + utc_text(secs, pattern.skip(2))
    } else {
        seq![pattern[0]] + utc_text(secs, pattern.drop_first())
    }
}

/// A pattern in which every `%` is followed by one of `Y m d H M S`.
pub open spec fn plain_pattern(p: Seq<char>) -> bool {
    forall|i: int|
        0 <= i < p.len() && #[trigger] p[i] == '%' ==> i + 1 < p.len() && (p[i + 1] == 'Y' || p[i + 1] == 'm'
            || p[i + 1] == 'd' || p[i + 1] == 'H' || p[i + 1] == 'M' || p[i + 1] == 'S')
}

/// chrono's `DateTime::<Utc>::from_timestamp(secs, 0)`, then `format(pattern)` written to a
/// `String`. Claimed: the result is `None` exactly when the instant's year lies outside
/// chrono's range, which is where `from_timestamp` gives no instant; otherwise it is the
/// pattern with each `%Y %m %d %H %M %S` replaced by the instant's year, month, day, hour,
/// minute and second in the proleptic Gregorian calendar, zero-padded as `utc_text` says. The
/// pattern is limited to those conversions and literal text, for which formatting cannot fail.
#[verifier::external_body]
pub(crate) fn format_utc(secs: i64, pattern: &str) -> (res: Option<String>)
    requires
        plain_pattern(pattern@),
    ensures
        match res {
            Some(s) => in_chrono_range(secs as int) && s@ == utc_text(secs as int, pattern@),
            None => !in_chrono_range(secs as int),
        },
{
    match chrono::DateTime::from_timestamp(secs, 0) {
        Some(t) => Some(t.format(pattern).to_string()),
        None => None,
    }
}

/// The pattern of instants in reports: `%Y-%m-%d %H:%M:%S UTC`.
pub fn report_pattern() -> (res: &'static str)
    ensures
        res@ == "%Y-%m-%d %H:%M:%S UTC"@,
        plain_pattern(res@),
{
    let p = "%Y-%m-%d %H:%M:%S UTC";
    proof {
        reveal_strlit("%Y-%m-%d %H:%M:%S UTC");
    }
    p
}

/// The pattern of instants in file names: `%Y-%m-%d_%H-%M-%S`.
pub fn file_pattern() -> (res: &'static str)
    ensures
        res@ == "%Y-%m-%d_%H-%M-%S"@,
        plain_pattern(res@),
{
    let p = "%Y-%m-%d_%H-%M-%S";
    proof {
        reveal_strlit("%Y-%m-%d_%H-%M-%S");
    }
    p
}

/// The text of an instant in `pattern`, or nothing where chrono cannot represent it.
pub open spec fn time_text_or_empty(secs: int, pattern: Seq<char>) -> Seq<char> {
    if in_chrono_range(secs) {
        utc_text(secs, pattern)
    } else {
        Seq::empty()
    }
}

/// The instant `secs` written with `pattern`, or an empty text where chrono cannot represent it.
pub fn time_text(secs: i64, pattern: &str) -> (res: String)
    requires
        plain_pattern(pattern@),
    ensures
        res@ == time_text_or_empty(secs as int, pattern@),
{
    match format_utc(secs, pattern) {
        Some(s) => s,
        None => String::new(),
    }
}

} // verus!
