//! Small shared helpers: the clock, and UTC timestamps for backup names.

use std::time::{SystemTime, UNIX_EPOCH};

use vstd::prelude::*;

use crate::auth::{hex, push_hex, sha256, sha256_digest};
use crate::text::push_char;

verus! {

/// `SystemTime::now().duration_since(UNIX_EPOCH)` in whole milliseconds, or
/// `None` when the clock reads before the epoch. Depends on the clock; nothing
/// is claimed of the value.
#[verifier::external_body]
fn clock_millis() -> (r: Option<u128>) {
    SystemTime::now().duration_since(UNIX_EPOCH).ok().map(|d| d.as_millis())
}

/// The millisecond timestamp reported for a clock reading: its low 64 bits
/// as a signed value (`as i64`), or 0 when the clock predates the epoch.
pub fn millis_from_clock(reading: Option<u128>) -> (r: i64)
    ensures
        match reading {
            Some(ms) => r == ms as i64,
            None => r == 0,
        },
{
    match reading {
        Some(ms) => ms as i64,
        None => 0,
    }
}

/// Current Unix time in milliseconds. Saturates to 0 if the clock predates
/// the epoch.
pub fn now_millis() -> (r: i64) {
    millis_from_clock(clock_millis())
}

/// The civil `(year, month, day)` for a count of days since 1970-01-01
/// (proleptic Gregorian calendar, Howard Hinnant's algorithm).
pub open spec fn civil(days: int) -> (int, int, int) {
    let z = days + 719_468;
    let era = z / 146_097;
    let doe = z - era * 146_097;
    let yoe = (doe - doe / 1460 + doe / 36_524 - doe / 146_096) / 365;
    let y = yoe + era * 400;
    let doy = doe - (365 * yoe + yoe / 4 - yoe / 100);
    let mp = (5 * doy + 2) / 153;
    let d = doy - (153 * mp + 2) / 5 + 1;
    let m = if mp < 10 { mp + 3 } else { mp - 9 };
    (y + if m <= 2 { 1int } else { 0int }, m, d)
}

/// The day counts reachable from an `i64` millisecond timestamp.
pub open spec fn days_in_range(days: i64) -> bool {
    -110_000_000_000 <= days <= 110_000_000_000
}

/// Convert days since the Unix epoch to a civil `(year, month, day)` (UTC).
fn civil_from_days(days: i64) -> (r: (i64, u32, u32))
    requires days_in_range(days),
    ensures
        (r.0 as int, r.1 as int, r.2 as int) == civil(days as int),
        1 <= r.1 <= 12,
        1 <= r.2 <= 31,
{
    let z: i64 = days + 719_468;
    let era: i64 = if z >= 0 { z / 146_097 } else { -((-z + 146_096) / 146_097) };
    assert(era == z as int / 146_097) by (nonlinear_arith)
        requires
            z < 0 ==> era == -((-z + 146_096) / 146_097),
            z >= 0 ==> era == z / 146_097,
    {
    };
    let doe: i64 = z - era * 146_097;
    assert(0 <= doe <= 146_096) by (nonlinear_arith)
        requires doe == z - era * 146_097, era == z as int / 146_097;
    let yoe: i64 = (doe - doe / 1460 + doe / 36_524 - doe / 146_096) / 365;
    assert(0 <= yoe <= 399) by (nonlinear_arith)
        requires 0 <= doe <= 146_096, yoe == (doe - doe / 1460 + doe / 36_524 - doe / 146_096) / 365;
    let y: i64 = yoe + era * 400;
    let doy: i64 = doe - (365 * yoe + yoe / 4 - yoe / 100);
    assert(0 <= doy <= 365) by (nonlinear_arith)
        requires
            0 <= doe <= 146_096,
            yoe == (doe - doe / 1460 + doe / 36_524 - doe / 146_096) / 365,
            doy == doe - (365 * yoe + yoe / 4 - yoe / 100);
    let mp: i64 = (5 * doy + 2) / 153;
    let d: i64 = doy - (153 * mp + 2) / 5 + 1;
    assert(0 <= mp <= 11 && 1 <= d <= 31) by (nonlinear_arith)
        requires 0 <= doy <= 365, mp == (5 * doy + 2) / 153, d == doy - (153 * mp + 2) / 5 + 1;
    let m: i64 = if mp < 10 { mp + 3 } else { mp - 9 };
    let year: i64 = y + if m <= 2 { 1 } else { 0 };
    (year, m as u32, d as u32)
}

/// The decimal digits of `n`, most significant first.
pub open spec fn dec_digits(n: nat) -> Seq<char>
    decreases n,
{
    if n < 10 {
        seq![((n + 48) as u8) as char]
    } else {
        dec_digits(n / 10).push((((n % 10) + 48) as u8) as char)
    }
}

/// `n` zero characters.
pub open spec fn zeros(n: int) -> Seq<char> {
    Seq::new(if n > 0 { n as nat } else { 0 }, |i: int| '0')
}

/// `format!("{n:0w$}")`: the sign (if negative), then zeros padding the whole
/// to at least `w` characters, then the digits of `|n|`.
pub open spec fn pad_dec(n: int, w: int) -> Seq<char> {
    if n >= 0 {
        zeros(w - dec_digits(n as nat).len()) + dec_digits(n as nat)
    } else {
        seq!['-'] + zeros(w - 1 - dec_digits((-n) as nat).len()) + dec_digits((-n) as nat)
    }
}

/// Append the decimal digits of `n`.
pub fn push_digits(s: &mut String, n: u64)
    ensures final(s)@ == old(s)@ + dec_digits(n as nat),
    decreases n,
{
    if n >= 10 {
        push_digits(s, n / 10);
    }
    let d: u8 = (n % 10) as u8;
    push_char(s, (d + 48) as char);
    proof {
        if n < 10 {
            assert(old(s)@ + dec_digits(n as nat) =~= old(s)@.push(((n + 48) as u8) as char));
        } else {
            assert(old(s)@ + dec_digits(n as nat)
                =~= (old(s)@ + dec_digits((n / 10) as nat)).push((((n % 10) + 48) as u8) as char));
        }
    }
}

fn digit_count(n: u64) -> (r: u64)
    ensures r == dec_digits(n as nat).len(), 1 <= r <= n + 1,
    decreases n,
{
    if n < 10 {
        1
    } else {
        digit_count(n / 10) + 1
    }
}

/// Append `n` zero-padded to width `w` (`format!("{n:0w$}")`).
pub fn push_padded(s: &mut String, n: i64, w: usize)
    requires n > i64::MIN, w <= 32,
    ensures final(s)@ == old(s)@ + pad_dec(n as int, w as int),
{
    let mag: u64 = if n >= 0 { n as u64 } else { (-n) as u64 };
    let nd = digit_count(mag);
    let ghost before = s@;
    let w64 = w as u64;
    let pad64: u64 = if n >= 0 {
        if w64 > nd { w64 - nd } else { 0 }
    } else {
        push_char(s, '-');
        if w64 > nd && w64 - nd > 1 { w64 - nd - 1 } else { 0 }
    };
    let pad: usize = pad64 as usize;
    let ghost mid = s@;
    let mut k: usize = 0;
    while k < pad
        invariant
            k <= pad,
            s@ == mid + zeros(k as int),
        decreases pad - k,
    {
        push_char(s, '0');
        k = k + 1;
        assert(s@ =~= mid + zeros(k as int));
    }
    push_digits(s, mag);
    proof {
        if n >= 0 {
            assert(zeros(pad as int) =~= zeros(w - dec_digits(n as nat).len()));
            assert(s@ =~= before + pad_dec(n as int, w as int));
        } else {
            assert(zeros(pad as int) =~= zeros(w - 1 - dec_digits((-n) as nat).len()));
            assert(s@ =~= before + pad_dec(n as int, w as int));
        }
    }
}

/// The `YYYY-MM-DD_HH-MM-SS` stamp of a Unix millisecond timestamp (UTC).
pub open spec fn utc_stamp(ms: int) -> Seq<char> {
    let secs = ms / 1000;
    let day = secs / 86_400;
    let tod = secs % 86_400;
    let (y, mo, d) = civil(day);
    pad_dec(y, 4) + seq!['-'] + pad_dec(mo, 2) + seq!['-'] + pad_dec(d, 2) + seq!['_']
        + pad_dec(tod / 3600, 2) + seq!['-'] + pad_dec((tod % 3600) / 60, 2) + seq!['-']
        + pad_dec(tod % 60, 2)
}

/// Only whole seconds decide the stamp: dropping the milliseconds within the
/// second (counted down, towards the earlier second) leaves it unchanged.
pub proof fn lemma_stamp_whole_seconds(ms: int)
    ensures utc_stamp(ms) == utc_stamp(ms - ms % 1000),
{
    assert((ms - ms % 1000) / 1000 == ms / 1000) by (nonlinear_arith);
}

/// Format Unix milliseconds as a filename-safe UTC stamp `YYYY-MM-DD_HH-MM-SS`.
/// Used to name backups. Pure date math.
pub fn format_utc(ms: i64) -> (r: String)
    ensures r@ == utc_stamp(ms as int),
{
    let secs: i64 = if ms >= 0 { ms / 1000 } else { -((-(ms + 1)) / 1000) - 1 };
    assert(secs == ms as int / 1000) by (nonlinear_arith)
        requires
            ms >= 0 ==> secs == ms / 1000,
            ms < 0 ==> secs == -((-(ms + 1)) / 1000) - 1;
    let day: i64 = if secs >= 0 { secs / 86_400 } else { -((-(secs + 1)) / 86_400) - 1 };
    assert(day == secs as int / 86_400) by (nonlinear_arith)
        requires
            secs >= 0 ==> day == secs / 86_400,
            secs < 0 ==> day == -((-(secs + 1)) / 86_400) - 1;
    let tod: i64 = secs - day * 86_400;
    assert(tod == secs as int % 86_400 && 0 <= tod < 86_400) by (nonlinear_arith)
        requires day == secs as int / 86_400, tod == secs - day * 86_400;
    assert(days_in_range(day)) by (nonlinear_arith)
        requires day == secs as int / 86_400, secs == ms as int / 1000, i64::MIN <= ms <= i64::MAX;
    let (y, mo, d) = civil_from_days(day);
    let mut s = String::new();
    push_padded(&mut s, y, 4);
    push_char(&mut s, '-');
    push_padded(&mut s, mo as i64, 2);
    push_char(&mut s, '-');
    push_padded(&mut s, d as i64, 2);
    push_char(&mut s, '_');
    push_padded(&mut s, tod / 3600, 2);
    push_char(&mut s, '-');
    push_padded(&mut s, (tod % 3600) / 60, 2);
    push_char(&mut s, '-');
    push_padded(&mut s, tod % 60, 2);
    s
}

/// Lowercase hex SHA-256 of `bytes`: the content hash used for deduplication.
pub fn sha256_hex(bytes: &[u8]) -> (r: String)
    ensures r@ == hex(sha256(bytes@)),
{
    let d = sha256_digest(bytes);
    let mut s = String::new();
    push_hex(&mut s, &d);
    assert(Seq::<char>::empty() + hex(d@) =~= hex(d@));
    s
}

} // verus!
verus! {

/// Whether `y` is a leap year of the Gregorian calendar.
pub open spec fn is_leap(y: int) -> bool {
    y % 4 == 0 && (y % 100 != 0 || y % 400 == 0)
}

/// The length of month `m` (1..=12) of year `y`.
pub open spec fn month_len(y: int, m: int) -> int {
    if m == 2 {
        if is_leap(y) { 29 } else { 28 }
    } else if m == 4 || m == 6 || m == 9 || m == 11 {
        30
    } else {
        31
    }
}

/// The days of year `y` before the first of month `m` (1..=12).
pub open spec fn days_before_month(y: int, m: int) -> int {
    let common: int = if m == 1 { 0 } else if m == 2 { 31 } else if m == 3 { 59 } else if m == 4 { 90 }
        else if m == 5 { 120 } else if m == 6 { 151 } else if m == 7 { 181 } else if m == 8 { 212 }
        else if m == 9 { 243 } else if m == 10 { 273 } else if m == 11 { 304 } else { 334 };
    common + if m > 2 && is_leap(y) { 1int } else { 0int }
}

/// The leap years from 1970 up to (not including) `y`; below 1970, minus the
/// leap years from `y` up to 1970.
pub open spec fn leaps_since_epoch(y: int) -> int {
    (y - 1) / 4 - (y - 1) / 100 + (y - 1) / 400 - 477
}

/// The days from 1970-01-01 to the first of January of year `y`.
pub open spec fn days_before_year(y: int) -> int {
    365 * (y - 1970) + leaps_since_epoch(y)
}

/// The number of days from 1970-01-01 to the date `y`-`m`-`d`.
pub open spec fn days_from_civil(y: int, m: int, d: int) -> int {
    days_before_year(y) + days_before_month(y, m) + d - 1
}

/// The leap-year count grows by one exactly across a leap year, and is 0 at
/// 1970: each year adds 365 days, and a leap year one more.
pub proof fn lemma_leap_count_step(y: int)
    ensures
        leaps_since_epoch(y + 1) - leaps_since_epoch(y) == if is_leap(y) { 1int } else { 0int },
        days_before_year(y + 1) - days_before_year(y) == 365 + if is_leap(y) { 1int } else { 0int },
        days_before_year(1970) == 0,
{
    assert(y / 4 - (y - 1) / 4 == if y % 4 == 0 { 1int } else { 0int }) by (nonlinear_arith);
    assert(y / 100 - (y - 1) / 100 == if y % 100 == 0 { 1int } else { 0int }) by (nonlinear_arith);
    assert(y / 400 - (y - 1) / 400 == if y % 400 == 0 { 1int } else { 0int }) by (nonlinear_arith);
    assert(y % 400 == 0 ==> y % 100 == 0 && y % 4 == 0) by (nonlinear_arith);
    assert(y % 100 == 0 ==> y % 4 == 0) by (nonlinear_arith);
}

/// Days from the start of a 400-year era (a March 1st) to March 1st of its
/// year `k`.
pub open spec fn era_days(k: int) -> int {
    365 * k + k / 4 - k / 100 + k / 400
}

/// Day `j` of the era's March-based year `k` (within its length) is placed in
/// year `k` by the year-of-era formula.
proof fn lemma_year_of_era(k: int, j: int)
    requires
        0 <= k <= 399,
        0 <= j < 365 + if is_leap(k + 1) { 1int } else { 0int },
    ensures
        ({
            let doe = era_days(k) + j;
            (doe - doe / 1460 + doe / 36_524 - doe / 146_096) / 365 == k
        }),
{
    let doe = era_days(k) + j;
    let q = k / 4;
    let r = k % 4;
    let c = q / 25;
    let rc = q % 25;
    assert(k / 100 == c && k / 400 == 0) by (nonlinear_arith)
        requires 0 <= k <= 399, q == k / 4, c == q / 25;
    assert(is_leap(k + 1) == (r == 3 && (rc != 24 || q == 99))) by (nonlinear_arith)
        requires 0 <= k <= 399, q == k / 4, r == k % 4, rc == q % 25;
    let a = doe / 1460;
    let b = doe / 36_524;
    let e = doe / 146_096;
    let g = doe - a + b - e;
    assert(365 * k <= g <= 365 * k + 364) by (nonlinear_arith)
        requires
            0 <= k <= 399, 0 <= q, 0 <= r < 4, k == 4 * q + r, 0 <= rc < 25, q == 25 * c + rc,
            doe == 365 * k + q - c + j,
            0 <= j, j < 365 + if r == 3 && (rc != 24 || q == 99) { 1int } else { 0int },
            a == doe / 1460, b == doe / 36_524, e == doe / 146_096,
            g == doe - a + b - e;
    assert(g / 365 == k) by (nonlinear_arith)
        requires 365 * k <= g <= 365 * k + 364;
}


/// Consecutive March 1sts of an era are a year apart: 365 days, 366 when the
/// February that ends the year is a leap one.
proof fn lemma_era_year_len(k: int)
    requires 0 <= k <= 399,
    ensures era_days(k + 1) - era_days(k) == 365 + if is_leap(k + 1) { 1int } else { 0int },
{
    lemma_leap_count_step(k + 1);
    assert((k + 1) / 4 - k / 4 == if (k + 1) % 4 == 0 { 1int } else { 0int }) by (nonlinear_arith);
    assert((k + 1) / 100 - k / 100 == if (k + 1) % 100 == 0 { 1int } else { 0int }) by (nonlinear_arith);
    assert((k + 1) / 400 - k / 400 == if (k + 1) % 400 == 0 { 1int } else { 0int }) by (nonlinear_arith);
    assert((k + 1) % 400 == 0 ==> (k + 1) % 100 == 0 && (k + 1) % 4 == 0) by (nonlinear_arith);
    assert((k + 1) % 100 == 0 ==> (k + 1) % 4 == 0) by (nonlinear_arith);
}

/// Every day of an era falls in one of its 400 March-based years.
proof fn lemma_era_year_exists(doe: int, k: int)
    requires
        0 <= k <= 399,
        era_days(k) <= doe < 146_097,
    ensures
        exists|y: int| k <= y <= 399 && #[trigger] era_days(y) <= doe < era_days(y + 1),
    decreases 399 - k,
{
    lemma_era_year_len(k);
    if doe < era_days(k + 1) {
        assert(k <= k <= 399 && era_days(k) <= doe < era_days(k + 1));
    } else {
        assert(era_days(400) == 146_097);
        assert(k < 399);
        lemma_era_year_exists(doe, k + 1);
    }
}

/// Day `j` (0-based) of a March-based year lands in the month and day that
/// `civil` computes: the months from March have the fixed lengths 31, 30, 31,
/// 30, 31, 31, 30, 31, 30, 31, 31, and February takes what is left.
proof fn lemma_march_month(j: int, leap_feb: bool)
    requires 0 <= j < 365 + if leap_feb { 1int } else { 0int },
    ensures
        ({
            let mp = (5 * j + 2) / 153;
            let d = j - (153 * mp + 2) / 5 + 1;
            let m = if mp < 10 { mp + 3 } else { mp - 9 };
            &&& 0 <= mp <= 11
            &&& 1 <= d
            &&& mp < 10 ==> (153 * mp + 2) / 5 + 59 == days_before_month(1, m) && d <= month_len(1, m)
            &&& mp == 10 ==> (153 * mp + 2) / 5 == 306 + days_before_month(1, m) && d <= 31
            &&& mp == 11 ==> (153 * mp + 2) / 5 == 306 + days_before_month(1, m) && d <= if leap_feb { 29int } else { 28int }
        }),
{
    let mp = (5 * j + 2) / 153;
    assert(0 <= mp <= 11) by (nonlinear_arith)
        requires 0 <= j <= 365, mp == (5 * j + 2) / 153;
    assert(153 * mp <= 5 * j + 2 < 153 * mp + 153) by (nonlinear_arith)
        requires mp == (5 * j + 2) / 153, 0 <= j;
    assert(!is_leap(1));
}

/// `civil` is the proleptic Gregorian calendar: the date it gives for a count
/// of days since 1970-01-01 is a real date (month 1..=12, day within that
/// month's length), and counting the days from 1970-01-01 to it gives the
/// count back.
pub proof fn lemma_civil_is_gregorian(days: int)
    ensures
        ({
            let (y, m, d) = civil(days);
            &&& 1 <= m <= 12
            &&& 1 <= d <= month_len(y, m)
            &&& days_from_civil(y, m, d) == days
        }),
{
    let z = days + 719_468;
    let era = z / 146_097;
    let doe = z - era * 146_097;
    assert(0 <= doe < 146_097) by (nonlinear_arith)
        requires era == z / 146_097, doe == z - era * 146_097;
    lemma_era_year_exists(doe, 0);
    let k = choose|y: int| 0 <= y <= 399 && #[trigger] era_days(y) <= doe < era_days(y + 1);
    lemma_era_year_len(k);
    let j = doe - era_days(k);
    lemma_year_of_era(k, j);
    let yoe = (doe - doe / 1460 + doe / 36_524 - doe / 146_096) / 365;
    assert(yoe == k);
    assert(k / 400 == 0);
    let doy = doe - (365 * yoe + yoe / 4 - yoe / 100);
    assert(doy == j);
    let big_y = yoe + era * 400;
    assert(is_leap(big_y + 1) == is_leap(k + 1)) by (nonlinear_arith)
        requires big_y == k + era * 400;
    lemma_march_month(j, is_leap(k + 1));
    // March 1st of year `big_y`, counted from the epoch.
    lemma_leap_count_step(big_y);
    assert(days_before_year(big_y) + 59 + (if is_leap(big_y) { 1int } else { 0int })
        == era * 146_097 + era_days(k) - 719_468) by (nonlinear_arith)
        requires
            big_y == k + era * 400,
            0 <= k <= 399,
            leaps_since_epoch(big_y + 1) - leaps_since_epoch(big_y) == if is_leap(big_y) { 1int } else { 0int },
    {
        assert((k + era * 400) / 4 == k / 4 + era * 100) by (nonlinear_arith);
        assert((k + era * 400) / 100 == k / 100 + era * 4) by (nonlinear_arith);
        assert((k + era * 400) / 400 == k / 400 + era) by (nonlinear_arith);
    }
    let mp = (5 * doy + 2) / 153;
    let m = if mp < 10 { mp + 3 } else { mp - 9 };
    if mp < 10 {
        assert(days_before_month(big_y, m) == days_before_month(1, m) + if is_leap(big_y) { 1int } else { 0int });
        assert(month_len(big_y, m) == month_len(1, m));
    } else {
        lemma_leap_count_step(big_y);
        assert(days_before_month(big_y + 1, m) == days_before_month(1, m));
    }
}

/// A real date lies in its year: its day count is at least that of January
/// 1st and below that of the next January 1st.
proof fn lemma_date_in_year(y: int, m: int, d: int)
    requires 1 <= m <= 12, 1 <= d <= month_len(y, m),
    ensures days_before_year(y) <= days_from_civil(y, m, d) < days_before_year(y + 1),
{
    lemma_leap_count_step(y);
}

/// Later years start later.
proof fn lemma_year_start_monotone(a: int, b: int)
    requires a <= b,
    ensures days_before_year(a) <= days_before_year(b),
    decreases b - a,
{
    if a < b {
        lemma_year_start_monotone(a, b - 1);
        lemma_leap_count_step(b - 1);
    }
}

/// Two real dates with the same day count are the same date.
proof fn lemma_date_unique(y: int, m: int, d: int, y2: int, m2: int, d2: int)
    requires
        1 <= m <= 12, 1 <= d <= month_len(y, m),
        1 <= m2 <= 12, 1 <= d2 <= month_len(y2, m2),
        days_from_civil(y, m, d) == days_from_civil(y2, m2, d2),
    ensures y == y2 && m == m2 && d == d2,
{
    lemma_date_in_year(y, m, d);
    lemma_date_in_year(y2, m2, d2);
    if y < y2 {
        lemma_year_start_monotone(y + 1, y2);
    } else if y2 < y {
        lemma_year_start_monotone(y2 + 1, y);
    }
    assert(y == y2);
    assert(m < m2 ==> days_before_month(y, m) + month_len(y, m) <= days_before_month(y, m2));
    assert(m2 < m ==> days_before_month(y, m2) + month_len(y, m2) <= days_before_month(y, m));
}

/// Every real date and time of day is stamped as itself: each millisecond of
/// the second `h`:`mi`:`s` of `y`-`m`-`d` (proleptic Gregorian calendar, UTC)
/// gives the stamp `YYYY-MM-DD_hh-mm-ss` of those numbers.
pub proof fn lemma_stamp_of_date(y: int, m: int, d: int, h: int, mi: int, s: int, frac: int)
    requires
        1 <= m <= 12, 1 <= d <= month_len(y, m),
        0 <= h < 24, 0 <= mi < 60, 0 <= s < 60, 0 <= frac < 1000,
    ensures
        utc_stamp(((days_from_civil(y, m, d) * 86_400 + h * 3600 + mi * 60 + s) * 1000 + frac))
            == pad_dec(y, 4) + seq!['-'] + pad_dec(m, 2) + seq!['-'] + pad_dec(d, 2) + seq!['_']
                + pad_dec(h, 2) + seq!['-'] + pad_dec(mi, 2) + seq!['-'] + pad_dec(s, 2),
{
    let day = days_from_civil(y, m, d);
    let tod = h * 3600 + mi * 60 + s;
    let ms = (day * 86_400 + tod) * 1000 + frac;
    assert(ms / 1000 == day * 86_400 + tod) by (nonlinear_arith)
        requires ms == (day * 86_400 + tod) * 1000 + frac, 0 <= frac < 1000;
    assert(0 <= tod < 86_400);
    assert((day * 86_400 + tod) / 86_400 == day && (day * 86_400 + tod) % 86_400 == tod) by (nonlinear_arith)
        requires 0 <= tod < 86_400;
    assert(tod / 3600 == h && (tod % 3600) / 60 == mi && tod % 60 == s) by (nonlinear_arith)
        requires tod == h * 3600 + mi * 60 + s, 0 <= h < 24, 0 <= mi < 60, 0 <= s < 60;
    lemma_civil_is_gregorian(day);
    let (y2, m2, d2) = civil(day);
    lemma_date_unique(y, m, d, y2, m2, d2);
}
}
