//! Human-readable UTC timestamps (`YYYY-MM-DD HH:MM:SS`) for the last time a
//! sync target was synced.
use vstd::prelude::*;
use crate::text::{decimal, digit_char, padded_decimal, push_char, push_padded};
use std::time::{Duration, SystemTime};

verus! {

#[verifier::external_type_specification]
#[verifier::external_body]
pub struct ExSystemTime(SystemTime);

/// Reads the system clock (std's `SystemTime::now`); nothing is known of the value.
#[verifier::external_body]
fn system_now() -> (t: SystemTime) {
    SystemTime::now()
}

/// The time elapsed from the Unix epoch to `t` (std's `SystemTime::duration_since`),
/// or `None` when `t` lies before the epoch. Nothing more is stated of the value.
#[verifier::external_body]
fn since_unix_epoch(t: &SystemTime) -> (d: Option<Duration>) {
    t.duration_since(std::time::UNIX_EPOCH).ok()
}

/// The whole seconds of a duration (std's `Duration::as_secs`); a duration is
/// opaque here, so nothing is stated of the value.
#[verifier::external_body]
fn whole_seconds(d: &Duration) -> (secs: u64) {
    d.as_secs()
}

/// Gregorian leap years.
pub open spec fn is_leap_year(y: int) -> bool {
    (y % 4 == 0 && y % 100 != 0) || y % 400 == 0
}

pub open spec fn year_length(y: int) -> int {
    if is_leap_year(y) { 366 } else { 365 }
}

/// Length of the month with zero-based index `idx` (January is 0).
pub open spec fn month_length(leap: bool, idx: int) -> int {
    if idx == 1 {
        if leap { 29 } else { 28 }
    } else if idx == 3 || idx == 5 || idx == 8 || idx == 10 {
        30
    } else {
        31
    }
}

/// Starting at day `z` (zero-based) of year `y`, the year that day falls in and
/// the day's index within it; a negative day stays in year `y`.
pub open spec fn year_and_day(z: int, y: int) -> (int, int)
    decreases z,
{
    if z < year_length(y) {
        (y, z)
    } else {
        year_and_day(z - year_length(y), y + 1)
    }
}

/// Starting at month `idx`, the zero-based month that day `z` falls in and the
/// day's index within that month.
pub open spec fn month_and_day(z: int, leap: bool, idx: int) -> (int, int)
    decreases 12 - idx,
{
    if idx >= 12 || z < month_length(leap, idx) {
        (idx, z)
    } else {
        month_and_day(z - month_length(leap, idx), leap, idx + 1)
    }
}

/// Whole days since the epoch, where the seconds count is read as a signed
/// 64-bit number and the division truncates toward zero.
pub open spec fn day_count(secs: u64) -> int {
    if secs < 0x8000_0000_0000_0000 {
        secs as int / 86400
    } else {
        -((0x1_0000_0000_0000_0000 - secs) / 86400)
    }
}

/// The text `YYYY-MM-DD HH:MM:SS` for `secs` seconds after the Unix epoch (UTC).
pub open spec fn timestamp_text(secs: u64) -> Seq<char> {
    let (y, day_of_year) = year_and_day(day_count(secs), 1970);
    let (month_idx, day_of_month) = month_and_day(day_of_year, is_leap_year(y), 0);
    let rem = secs as int % 86400;
    padded_decimal(y, 4) + seq!['-'] + padded_decimal(month_idx + 1, 2) + seq!['-']
        + padded_decimal(day_of_month + 1, 2) + seq![' '] + padded_decimal(rem / 3600, 2)
        + seq![':'] + padded_decimal((rem % 3600) / 60, 2) + seq![':']
        + padded_decimal(rem % 60, 2)
}

fn is_leap(y: i64) -> (b: bool)
    requires
        y >= 0,
    ensures
        b == is_leap_year(y as int),
{
    (y % 4 == 0 && y % 100 != 0) || y % 400 == 0
}

fn year_days(y: i64) -> (d: i64)
    requires
        y >= 0,
    ensures
        d == year_length(y as int),
{
    if is_leap(y) { 366 } else { 365 }
}

fn month_days(leap: bool, idx: i64) -> (d: i64)
    ensures
        d == month_length(leap, idx as int),
{
    if idx == 1 {
        if leap { 29 } else { 28 }
    } else if idx == 3 || idx == 5 || idx == 8 || idx == 10 {
        30
    } else {
        31
    }
}

/// Renders `secs` seconds after the Unix epoch as `YYYY-MM-DD HH:MM:SS` (UTC).
pub fn format_timestamp(secs: u64) -> (res: String)
    ensures
        res@ == timestamp_text(secs),
{
    let days: i64 = if secs <= 0x7fff_ffff_ffff_ffff {
        (secs / 86400) as i64
    } else {
        let magnitude: u64 = (0xffff_ffff_ffff_ffffu64 - secs) + 1;
        -((magnitude / 86400) as i64)
    };
    assert(days == day_count(secs));
    let mut z: i64 = days;
    let mut y: i64 = 1970;
    while z >= year_days(y)
        invariant
            z <= days,
            days <= 0x8000_0000_0000_0000int / 86400,
            (y - 1970) * 365 <= days - z,
            y >= 1970,
            year_and_day(days as int, 1970) == year_and_day(z as int, y as int),
        decreases z,
    {
        z = z - year_days(y);
        y = y + 1;
    }
    assert(year_and_day(z as int, y as int) == (y as int, z as int));
    let ghost day_of_year = z as int;
    let leap = is_leap(y);
    let mut idx: i64 = 0;
    while idx < 12 && z >= month_days(leap, idx)
        invariant
            0 <= idx <= 12,
            z <= days,
            year_and_day(days as int, 1970) == (y as int, day_of_year),
            month_and_day(day_of_year, leap, 0) == month_and_day(z as int, leap, idx as int),
            leap == is_leap_year(y as int),
        decreases 12 - idx,
    {
        z = z - month_days(leap, idx);
        idx = idx + 1;
    }
    let rem: u64 = secs % 86400;
    let mut s = String::new();
    push_padded(&mut s, y, 4);
    push_char(&mut s, '-');
    push_padded(&mut s, idx + 1, 2);
    push_char(&mut s, '-');
    push_padded(&mut s, z + 1, 2);
    push_char(&mut s, ' ');
    push_padded(&mut s, (rem / 3600) as i64, 2);
    push_char(&mut s, ':');
    push_padded(&mut s, ((rem % 3600) / 60) as i64, 2);
    push_char(&mut s, ':');
    push_padded(&mut s, (rem % 60) as i64, 2);
    assert(s@ =~= timestamp_text(secs));
    s
}

/// The current UTC time as `YYYY-MM-DD HH:MM:SS`, or `None` when the system
/// clock reads a time before the Unix epoch.
pub fn current_timestamp() -> (res: Option<String>)
    ensures
        res matches Some(t) ==> exists|secs: u64| t@ == timestamp_text(secs),
{
    let now = system_now();
    match since_unix_epoch(&now) {
        Some(d) => {
            let secs = whole_seconds(&d);
            let t = format_timestamp(secs);
            Some(t)
        },
        None => None,
    }
}


/// Days from the start of month `idx` to the end of the year.
pub open spec fn days_from_month(leap: bool, idx: int) -> int
    decreases 12 - idx,
{
    if idx >= 12 {
        0
    } else {
        month_length(leap, idx) + days_from_month(leap, idx + 1)
    }
}

proof fn lemma_year_walk(z: int, y: int)
    requires
        z >= 0,
    ensures
        0 <= year_and_day(z, y).1 < year_length(year_and_day(z, y).0),
        year_and_day(z, y).0 >= y,
    decreases z,
{
    if z >= year_length(y) {
        lemma_year_walk(z - year_length(y), y + 1);
    }
}

proof fn lemma_month_walk(z: int, leap: bool, idx: int)
    requires
        0 <= idx <= 12,
        0 <= z < days_from_month(leap, idx),
    ensures
        idx <= month_and_day(z, leap, idx).0 < 12,
        0 <= month_and_day(z, leap, idx).1 < month_length(leap, month_and_day(z, leap, idx).0),
    decreases 12 - idx,
{
    if idx < 12 && z >= month_length(leap, idx) {
        lemma_month_walk(z - month_length(leap, idx), leap, idx + 1);
    }
}

proof fn lemma_year_is_its_months(leap: bool)
    ensures
        days_from_month(leap, 0) == if leap { 366int } else { 365int },
{
    reveal_with_fuel(days_from_month, 13);
}

/// Every time from the epoch up to the end of the signed 64-bit range names a
/// real calendar moment: a year from 1970 on, a month from 1 to 12, a day
/// within that month, and hours, minutes and seconds within their ranges.
pub proof fn law_timestamp_fields(secs: u64)
    requires
        secs < 0x8000_0000_0000_0000,
    ensures
        ({
            let (y, doy) = year_and_day(day_count(secs), 1970);
            let (m, d) = month_and_day(doy, is_leap_year(y), 0);
            &&& y >= 1970
            &&& 0 <= m < 12
            &&& 0 <= d < month_length(is_leap_year(y), m)
            &&& 0 <= (secs as int % 86400) / 3600 < 24
            &&& 0 <= ((secs as int % 86400) % 3600) / 60 < 60
            &&& 0 <= (secs as int % 86400) % 60 < 60
        }),
{
    let z = day_count(secs);
    lemma_year_walk(z, 1970);
    let (y, doy) = year_and_day(z, 1970);
    lemma_year_is_its_months(is_leap_year(y));
    lemma_month_walk(doy, is_leap_year(y), 0);
}


/// Days in the `n` years starting with year `y`.
pub open spec fn days_in_years(y: int, n: nat) -> int
    decreases n,
{
    if n == 0 {
        0
    } else {
        year_length(y) + days_in_years(y + 1, (n - 1) as nat)
    }
}

proof fn lemma_year_bound(z: int, y: int, n: nat)
    requires
        0 <= z < days_in_years(y, n),
    ensures
        year_and_day(z, y).0 < y + n,
    decreases n,
{
    if z >= year_length(y) {
        lemma_year_bound(z - year_length(y), y + 1, (n - 1) as nat);
    }
}

proof fn lemma_additive(y: int, a: nat, b: nat)
    ensures
        days_in_years(y, a + b) == days_in_years(y, a) + days_in_years(y + a, b),
    decreases a,
{
    if a > 0 {
        lemma_additive(y + 1, (a - 1) as nat, b);
        assert((a + b - 1) as nat == ((a - 1) as nat + b) as nat);
    }
}

proof fn lemma_period(y: int, n: nat)
    ensures
        days_in_years(y + 400, n) == days_in_years(y, n),
    decreases n,
{
    assert(is_leap_year(y + 400) == is_leap_year(y)) by {
        vstd::arithmetic::div_mod::lemma_mod_multiples_vanish(100, y, 4);
        vstd::arithmetic::div_mod::lemma_mod_multiples_vanish(4, y, 100);
        vstd::arithmetic::div_mod::lemma_mod_multiples_vanish(1, y, 400);
        assert(4 * 100 + y == y + 400);
        assert(100 * 4 + y == y + 400);
        assert(400 * 1 + y == y + 400);
    }
    if n > 0 {
        lemma_period(y + 1, (n - 1) as nat);
    }
}

proof fn lemma_period_from_2000(j: nat, n: nat)
    ensures
        days_in_years(2000 + 400 * j as int, n) == days_in_years(2000, n),
    decreases j,
{
    if j > 0 {
        lemma_period_from_2000((j - 1) as nat, n);
        lemma_period(2000 + 400 * (j - 1) as int, n);
    }
}

proof fn lemma_one_cycle()
    ensures
        days_in_years(2000, 400) == 146097,
{
    reveal_with_fuel(days_in_years, 21);
    assert(days_in_years(2000, 20) == 7305);
    assert(days_in_years(2020, 20) == 7305);
    assert(days_in_years(2040, 20) == 7305);
    assert(days_in_years(2060, 20) == 7305);
    assert(days_in_years(2080, 20) == 7305);
    assert(days_in_years(2100, 20) == 7304);
    assert(days_in_years(2120, 20) == 7305);
    assert(days_in_years(2140, 20) == 7305);
    assert(days_in_years(2160, 20) == 7305);
    assert(days_in_years(2180, 20) == 7305);
    assert(days_in_years(2200, 20) == 7304);
    assert(days_in_years(2220, 20) == 7305);
    assert(days_in_years(2240, 20) == 7305);
    assert(days_in_years(2260, 20) == 7305);
    assert(days_in_years(2280, 20) == 7305);
    assert(days_in_years(2300, 20) == 7304);
    assert(days_in_years(2320, 20) == 7305);
    assert(days_in_years(2340, 20) == 7305);
    assert(days_in_years(2360, 20) == 7305);
    assert(days_in_years(2380, 20) == 7305);
    lemma_additive(2000, 20, 20);
    lemma_additive(2000, 40, 20);
    lemma_additive(2000, 60, 20);
    lemma_additive(2000, 80, 20);
    lemma_additive(2000, 100, 20);
    lemma_additive(2000, 120, 20);
    lemma_additive(2000, 140, 20);
    lemma_additive(2000, 160, 20);
    lemma_additive(2000, 180, 20);
    lemma_additive(2000, 200, 20);
    lemma_additive(2000, 220, 20);
    lemma_additive(2000, 240, 20);
    lemma_additive(2000, 260, 20);
    lemma_additive(2000, 280, 20);
    lemma_additive(2000, 300, 20);
    lemma_additive(2000, 320, 20);
    lemma_additive(2000, 340, 20);
    lemma_additive(2000, 360, 20);
    lemma_additive(2000, 380, 20);
}

proof fn lemma_cycles(j: nat)
    ensures
        days_in_years(2000, 400 * j) == 146097 * j,
    decreases j,
{
    if j > 0 {
        lemma_cycles((j - 1) as nat);
        lemma_additive(2000, 400 * (j - 1) as nat, 400);
        lemma_period_from_2000((j - 1) as nat, 400);
        lemma_one_cycle();
        assert(400 * j == 400 * (j - 1) + 400);
    }
}

proof fn lemma_days_to_year_10000()
    ensures
        days_in_years(1970, 8030) == 2932897,
{
    reveal_with_fuel(days_in_years, 31);
    assert(days_in_years(1970, 30) == 10957);
    lemma_additive(1970, 30, 8000);
    lemma_cycles(20);
}

proof fn lemma_decimal_width(n: nat)
    ensures
        n < 10 ==> decimal(n).len() == 1,
        10 <= n < 100 ==> decimal(n).len() == 2,
        100 <= n < 1000 ==> decimal(n).len() == 3,
        1000 <= n < 10000 ==> decimal(n).len() == 4,
    decreases n,
{
    if n >= 10 {
        lemma_decimal_width(n / 10);
    }
}

proof fn lemma_two_digits(v: int)
    requires
        0 <= v < 100,
    ensures
        padded_decimal(v, 2).len() == 2,
{
    lemma_decimal_width(v as nat);
}

/// Every time before the year 10000 renders as exactly 19 characters, with
/// its year as four digits between 1970 and 9999.
pub proof fn law_timestamp_layout(secs: u64)
    requires
        secs < 253402300800,
    ensures
        timestamp_text(secs).len() == 19,
        ({
            let (y, _) = year_and_day(day_count(secs), 1970);
            &&& 1970 <= y < 10000
            &&& timestamp_text(secs).subrange(0, 4) == decimal(y as nat)
        }),
{
    let z = day_count(secs);
    assert(z == secs as int / 86400);
    assert(z < 2932897);
    lemma_days_to_year_10000();
    lemma_year_bound(z, 1970, 8030);
    law_timestamp_fields(secs);
    let (y, doy) = year_and_day(z, 1970);
    let (m, d) = month_and_day(doy, is_leap_year(y), 0);
    let rem = secs as int % 86400;
    lemma_decimal_width(y as nat);
    assert(padded_decimal(y, 4) == decimal(y as nat));
    lemma_two_digits(m + 1);
    assert(d < 31) by {
        assert(month_length(is_leap_year(y), m) <= 31);
    }
    lemma_two_digits(d + 1);
    lemma_two_digits(rem / 3600);
    lemma_two_digits((rem % 3600) / 60);
    lemma_two_digits(rem % 60);
    let t = timestamp_text(secs);
    assert(t.subrange(0, 4) =~= decimal(y as nat));
}


// ---- timestamps sort as the times they name ----

/// `a` comes strictly before `b` in dictionary order of characters; texts of
/// equal length are compared.
pub open spec fn text_before(a: Seq<char>, b: Seq<char>) -> bool {
    &&& a.len() == b.len()
    &&& exists|i: int|
        0 <= i < a.len() && a.take(i) == b.take(i) && (a[i] as u32) < (b[i] as u32)
}

proof fn lemma_before_concat(a1: Seq<char>, a2: Seq<char>, b1: Seq<char>, b2: Seq<char>)
    requires
        a1.len() == b1.len(),
        a2.len() == b2.len(),
        text_before(a1, b1) || (a1 == b1 && text_before(a2, b2)),
    ensures
        text_before(a1 + a2, b1 + b2),
{
    let a = a1 + a2;
    let b = b1 + b2;
    if text_before(a1, b1) {
        let i = choose|i: int| 0 <= i < a1.len() && a1.take(i) == b1.take(i) && (a1[i] as u32) < (b1[i] as u32);
        assert(a.take(i) =~= a1.take(i));
        assert(b.take(i) =~= b1.take(i));
        assert(a[i] == a1[i] && b[i] == b1[i]);
    } else {
        let i = choose|i: int| 0 <= i < a2.len() && a2.take(i) == b2.take(i) && (a2[i] as u32) < (b2[i] as u32);
        let k = a1.len() + i;
        assert(a.take(k) =~= a1 + a2.take(i));
        assert(b.take(k) =~= b1 + b2.take(i));
        assert(a[k] == a2[i] && b[k] == b2[i]);
    }
}

proof fn lemma_digit_order(u: nat, v: nat)
    requires
        u < v < 10,
    ensures
        (digit_char(u) as u32) < (digit_char(v) as u32),
{
}

proof fn lemma_pad_split(n: nat, w: nat)
    requires
        w >= 2,
        n < 10000,
        w == 2 ==> n < 100,
    ensures
        padded_decimal(n as int, w) == padded_decimal((n / 10) as int, (w - 1) as nat).push(digit_char(n % 10)),
{
    lemma_decimal_width(n);
    lemma_decimal_width(n / 10);
    if n < 10 {
        assert(decimal(n) == seq![digit_char(n)]);
        assert(decimal(0) == seq![digit_char(0)]);
        assert(padded_decimal(n as int, w) =~= padded_decimal(0, (w - 1) as nat).push(digit_char(n % 10)));
    } else {
        assert(decimal(n) == decimal(n / 10).push(digit_char(n % 10)));
        assert(padded_decimal(n as int, w) =~= padded_decimal((n / 10) as int, (w - 1) as nat).push(
            digit_char(n % 10),
        ));
    }
}

/// Zero-padded numbers of one width sort as the numbers do.
proof fn lemma_pad_order(u: nat, v: nat, w: nat)
    requires
        1 <= w <= 4,
        u < v,
        w == 1 ==> v < 10,
        w == 2 ==> v < 100,
        w == 3 ==> v < 1000,
        w == 4 ==> v < 10000,
    ensures
        text_before(padded_decimal(u as int, w), padded_decimal(v as int, w)),
    decreases w,
{
    lemma_decimal_width(u);
    lemma_decimal_width(v);
    if w == 1 {
        let a = padded_decimal(u as int, w);
        let b = padded_decimal(v as int, w);
        assert(a == seq![digit_char(u)]);
        assert(b == seq![digit_char(v)]);
        lemma_digit_order(u, v);
        assert(a.take(0) =~= b.take(0));
    } else {
        lemma_pad_split(u, w);
        lemma_pad_split(v, w);
        let pu = padded_decimal((u / 10) as int, (w - 1) as nat);
        let pv = padded_decimal((v / 10) as int, (w - 1) as nat);
        lemma_pad_len(u / 10, (w - 1) as nat);
        lemma_pad_len(v / 10, (w - 1) as nat);
        if u / 10 < v / 10 {
            lemma_pad_order(u / 10, v / 10, (w - 1) as nat);
        } else {
            assert(u / 10 == v / 10);
            lemma_digit_order(u % 10, v % 10);
            let a = seq![digit_char(u % 10)];
            let b = seq![digit_char(v % 10)];
            assert(a.take(0) =~= b.take(0));
            assert(text_before(a, b));
        }
        lemma_before_concat(pu, seq![digit_char(u % 10)], pv, seq![digit_char(v % 10)]);
        assert(pu.push(digit_char(u % 10)) =~= pu + seq![digit_char(u % 10)]);
        assert(pv.push(digit_char(v % 10)) =~= pv + seq![digit_char(v % 10)]);
    }
}

proof fn lemma_pad_len(n: nat, w: nat)
    requires
        1 <= w <= 4,
        w == 1 ==> n < 10,
        w == 2 ==> n < 100,
        w == 3 ==> n < 1000,
        w == 4 ==> n < 10000,
    ensures
        padded_decimal(n as int, w).len() == w,
{
    lemma_decimal_width(n);
}


proof fn lemma_year_start(z: int, y: int)
    ensures
        year_and_day(z, y).0 >= y,
    decreases z,
{
    if z >= year_length(y) {
        lemma_year_start(z - year_length(y), y + 1);
    }
}

proof fn lemma_year_order(z1: int, z2: int, y: int)
    requires
        0 <= z1 < z2,
    ensures
        year_and_day(z1, y).0 < year_and_day(z2, y).0 || (year_and_day(z1, y).0 == year_and_day(z2, y).0
            && year_and_day(z1, y).1 < year_and_day(z2, y).1),
    decreases z1,
{
    if z1 >= year_length(y) {
        lemma_year_order(z1 - year_length(y), z2 - year_length(y), y + 1);
    } else if z2 >= year_length(y) {
        lemma_year_start(z2 - year_length(y), y + 1);
    }
}

proof fn lemma_month_start(z: int, leap: bool, idx: int)
    ensures
        month_and_day(z, leap, idx).0 >= idx,
    decreases 12 - idx,
{
    if idx < 12 && z >= month_length(leap, idx) {
        lemma_month_start(z - month_length(leap, idx), leap, idx + 1);
    }
}

proof fn lemma_month_order(z1: int, z2: int, leap: bool, idx: int)
    requires
        0 <= z1 < z2,
    ensures
        month_and_day(z1, leap, idx).0 < month_and_day(z2, leap, idx).0 || (month_and_day(z1, leap, idx).0
            == month_and_day(z2, leap, idx).0 && month_and_day(z1, leap, idx).1 < month_and_day(
            z2,
            leap,
            idx,
        ).1),
    decreases 12 - idx,
{
    if idx < 12 && z1 >= month_length(leap, idx) {
        lemma_month_order(z1 - month_length(leap, idx), z2 - month_length(leap, idx), leap, idx + 1);
    } else if idx < 12 && z2 >= month_length(leap, idx) {
        lemma_month_start(z2 - month_length(leap, idx), leap, idx + 1);
    }
}

/// Three fields joined by fixed separators sort as the fields do, in order.
proof fn lemma_fields_before(
    a1: Seq<char>,
    a2: Seq<char>,
    a3: Seq<char>,
    b1: Seq<char>,
    b2: Seq<char>,
    b3: Seq<char>,
    c: Seq<char>,
    d: Seq<char>,
)
    requires
        a1.len() == b1.len(),
        a2.len() == b2.len(),
        a3.len() == b3.len(),
        text_before(a1, b1) || (a1 == b1 && text_before(a2, b2)) || (a1 == b1 && a2 == b2
            && text_before(a3, b3)),
    ensures
        text_before(a1 + c + a2 + d + a3, b1 + c + b2 + d + b3),
{
    if text_before(a1, b1) {
        lemma_before_concat(a1, c, b1, c);
        lemma_before_concat(a1 + c, a2, b1 + c, b2);
        lemma_before_concat(a1 + c + a2, d, b1 + c + b2, d);
        lemma_before_concat(a1 + c + a2 + d, a3, b1 + c + b2 + d, b3);
    } else if a1 == b1 && text_before(a2, b2) {
        lemma_before_concat(a1 + c, a2, b1 + c, b2);
        lemma_before_concat(a1 + c + a2, d, b1 + c + b2, d);
        lemma_before_concat(a1 + c + a2 + d, a3, b1 + c + b2 + d, b3);
    } else {
        lemma_before_concat(a1 + c + a2 + d, a3, b1 + c + b2 + d, b3);
    }
}

/// Numbers that the padded fields compare as.
proof fn lemma_field_before(u: int, v: int, w: nat)
    requires
        0 <= u,
        u <= v,
        w == 2 ==> v < 100,
        w == 4 ==> v < 10000,
        w == 2 || w == 4,
    ensures
        padded_decimal(u, w).len() == w,
        padded_decimal(v, w).len() == w,
        u < v ==> text_before(padded_decimal(u, w), padded_decimal(v, w)),
{
    lemma_pad_len(u as nat, w);
    lemma_pad_len(v as nat, w);
    if u < v {
        lemma_pad_order(u as nat, v as nat, w);
    }
}

proof fn lemma_clock_order(r1: int, r2: int)
    requires
        0 <= r1 < r2 < 86400,
    ensures
        r1 / 3600 < r2 / 3600 || (r1 / 3600 == r2 / 3600 && ((r1 % 3600) / 60 < (r2 % 3600) / 60 || ((r1
            % 3600) / 60 == (r2 % 3600) / 60 && r1 % 60 < r2 % 60))),
        r2 / 3600 < 24,
{
}

/// The date part of a timestamp, `YYYY-MM-DD`.
pub open spec fn date_text(secs: u64) -> Seq<char> {
    let (y, doy) = year_and_day(day_count(secs), 1970);
    let (m, d) = month_and_day(doy, is_leap_year(y), 0);
    padded_decimal(y, 4) + seq!['-'] + padded_decimal(m + 1, 2) + seq!['-'] + padded_decimal(d + 1, 2)
}

/// The time-of-day part of a timestamp, `HH:MM:SS`.
pub open spec fn clock_text(secs: u64) -> Seq<char> {
    let r = secs as int % 86400;
    padded_decimal(r / 3600, 2) + seq![':'] + padded_decimal((r % 3600) / 60, 2) + seq![':']
        + padded_decimal(r % 60, 2)
}

proof fn lemma_text_parts(secs: u64)
    requires
        secs < 253402300800,
    ensures
        timestamp_text(secs) == date_text(secs) + seq![' '] + clock_text(secs),
        date_text(secs).len() == 10,
        clock_text(secs).len() == 8,
{
    law_timestamp_layout(secs);
    law_timestamp_fields(secs);
    let (y, doy) = year_and_day(day_count(secs), 1970);
    let (m, d) = month_and_day(doy, is_leap_year(y), 0);
    let r = secs as int % 86400;
    assert(d < 31) by {
        assert(month_length(is_leap_year(y), m) <= 31);
    }
    lemma_field_before(y, y, 4);
    lemma_field_before(m + 1, m + 1, 2);
    lemma_field_before(d + 1, d + 1, 2);
    lemma_field_before(r / 3600, r / 3600, 2);
    lemma_field_before((r % 3600) / 60, (r % 3600) / 60, 2);
    lemma_field_before(r % 60, r % 60, 2);
    assert(timestamp_text(secs) =~= date_text(secs) + seq![' '] + clock_text(secs));
}

proof fn lemma_clock_before(s1: u64, s2: u64)
    requires
        s1 < s2 < 253402300800,
        s1 as int / 86400 == s2 as int / 86400,
    ensures
        date_text(s1) == date_text(s2),
        text_before(clock_text(s1), clock_text(s2)),
{
    assert(day_count(s1) == day_count(s2));
    let r1 = s1 as int % 86400;
    let r2 = s2 as int % 86400;
    assert(r1 < r2);
    lemma_clock_order(r1, r2);
    let h1 = r1 / 3600;
    let h2 = r2 / 3600;
    let i1 = (r1 % 3600) / 60;
    let i2 = (r2 % 3600) / 60;
    let c1 = r1 % 60;
    let c2 = r2 % 60;
    lemma_field_before(h1, h1, 2);
    lemma_field_before(h2, h2, 2);
    lemma_field_before(i1, i1, 2);
    lemma_field_before(i2, i2, 2);
    lemma_field_before(c1, c1, 2);
    lemma_field_before(c2, c2, 2);
    if h1 < h2 {
        lemma_field_before(h1, h2, 2);
    } else if i1 < i2 {
        lemma_field_before(i1, i2, 2);
    } else {
        lemma_field_before(c1, c2, 2);
    }
    lemma_fields_before(
        padded_decimal(h1, 2),
        padded_decimal(i1, 2),
        padded_decimal(c1, 2),
        padded_decimal(h2, 2),
        padded_decimal(i2, 2),
        padded_decimal(c2, 2),
        seq![':'],
        seq![':'],
    );
}

proof fn lemma_date_before(s1: u64, s2: u64)
    requires
        s1 < s2 < 253402300800,
        s1 as int / 86400 < s2 as int / 86400,
    ensures
        text_before(date_text(s1), date_text(s2)),
{
    law_timestamp_layout(s1);
    law_timestamp_layout(s2);
    law_timestamp_fields(s1);
    law_timestamp_fields(s2);
    let z1 = day_count(s1);
    let z2 = day_count(s2);
    let (y1, doy1) = year_and_day(z1, 1970);
    let (y2, doy2) = year_and_day(z2, 1970);
    let (m1, d1) = month_and_day(doy1, is_leap_year(y1), 0);
    let (m2, d2) = month_and_day(doy2, is_leap_year(y2), 0);
    assert(d1 < 31 && d2 < 31) by {
        assert(month_length(is_leap_year(y1), m1) <= 31);
        assert(month_length(is_leap_year(y2), m2) <= 31);
    }
    lemma_field_before(m1 + 1, m1 + 1, 2);
    lemma_field_before(m2 + 1, m2 + 1, 2);
    lemma_field_before(d1 + 1, d1 + 1, 2);
    lemma_field_before(d2 + 1, d2 + 1, 2);
    lemma_field_before(y1, y1, 4);
    lemma_field_before(y2, y2, 4);
    lemma_year_order(z1, z2, 1970);
    if y1 < y2 {
        lemma_field_before(y1, y2, 4);
    } else {
        lemma_month_order(doy1, doy2, is_leap_year(y1), 0);
        if m1 < m2 {
            lemma_field_before(m1 + 1, m2 + 1, 2);
        } else {
            lemma_field_before(d1 + 1, d2 + 1, 2);
        }
    }
    lemma_fields_before(
        padded_decimal(y1, 4),
        padded_decimal(m1 + 1, 2),
        padded_decimal(d1 + 1, 2),
        padded_decimal(y2, 4),
        padded_decimal(m2 + 1, 2),
        padded_decimal(d2 + 1, 2),
        seq!['-'],
        seq!['-'],
    );
}

/// Timestamps sort as the times they name: a later time before the year 10000
/// renders to a text that comes later in dictionary order, so two times give
/// the same text only when they are the same.
pub proof fn law_timestamps_sort(s1: u64, s2: u64)
    requires
        s1 < s2 < 253402300800,
    ensures
        text_before(timestamp_text(s1), timestamp_text(s2)),
        timestamp_text(s1) != timestamp_text(s2),
{
    lemma_text_parts(s1);
    lemma_text_parts(s2);
    let a1 = date_text(s1) + seq![' '];
    let a2 = date_text(s2) + seq![' '];
    if s1 as int / 86400 == s2 as int / 86400 {
        lemma_clock_before(s1, s2);
    } else {
        lemma_date_before(s1, s2);
        lemma_before_concat(date_text(s1), seq![' '], date_text(s2), seq![' ']);
    }
    lemma_before_concat(a1, clock_text(s1), a2, clock_text(s2));
    let t1 = timestamp_text(s1);
    let t2 = timestamp_text(s2);
    let i = choose|i: int| 0 <= i < t1.len() && t1.take(i) == t2.take(i) && (t1[i] as u32) < (t2[i] as u32);
    assert(t1[i] != t2[i]);
}

} // verus!
