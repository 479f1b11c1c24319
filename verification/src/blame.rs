//! `--blame` divergence attribution.
//!
//! The library parses `git blame --porcelain` output and converts author
//! timestamps to `YYYY-MM-DD`; running `git` is the engine's business (see
//! [`BlameEngine`]). All failures map to "no attribution".

use vstd::prelude::*;
use crate::domain::{Attribution, Divergence};
use crate::text::{
    ascii_digit, ascii_hexdigit, chars_of, has_prefix, is_ascii_digit, is_ascii_hexdigit, lines_of,
    push_char, push_zero_padded, slice_chars, split_lines, split_words, starts_with, string_of, views,
    words_of, zero_padded,
};

verus! {

/// Indirection so the library does not run git itself.
pub trait BlameEngine {
    fn blame(&self, root: &str, file: &str, line: u32) -> Option<Attribution>;
}

/// `a` equals `b` in every field but the attribution.

pub open spec fn same_but_attribution(a: Divergence, b: Divergence) -> bool {
    &&& a.rule == b.rule
    &&& a.severity == b.severity
    &&& a.location == b.location
    &&& a.stated == b.stated
    &&& a.reality == b.reality
    &&& a.risk == b.risk
}

/// The engine may answer `attribution` when asked to blame line `line` of
/// `file` under `root`.
pub open spec fn blamed_by<E: BlameEngine + ?Sized>(engine: &E, root: &str, file: Seq<char>, line: u32, attribution: Option<Attribution>) -> bool {
    exists|f: &str| f@ == file && #[trigger] call_ensures(E::blame, (engine, root, f, line), attribution)
}

/// Enrich each divergence with blame attribution, if the engine can resolve
/// one. Divergences for which blame fails keep `attribution: None`.
pub fn apply<E: BlameEngine + ?Sized>(divs: Vec<Divergence>, root: &str, engine: &E) -> (out: Vec<Divergence>)
    ensures
        out.len() == divs.len(),
        forall|i: int| 0 <= i < divs.len() ==> same_but_attribution(#[trigger] out[i], divs[i]),
        forall|i: int|
            0 <= i < divs.len() ==> blamed_by(engine, root, divs[i].location.file@, divs[i].location.line, #[trigger] out[i].attribution),
{
    let mut out: Vec<Divergence> = Vec::new();
    for i in 0..divs.len()
        invariant
            out.len() == i,
            forall|k: int| 0 <= k < i ==> same_but_attribution(#[trigger] out[k], divs[k]),
            forall|k: int|
                0 <= k < i ==> blamed_by(engine, root, divs[k].location.file@, divs[k].location.line, #[trigger] out[k].attribution),
    {
        let mut d = divs[i].duplicate();
        let file = d.location.file.as_str();
        let a = engine.blame(root, file, d.location.line);
        assert(blamed_by(engine, root, divs[i as int].location.file@, divs[i as int].location.line, a));
        d.attribution = a;
        out.push(d);
    }
    out
}

// ---------------------------------------------------------------------------
// Integer parsing (the behaviour of `str::parse::<i64>`)
// ---------------------------------------------------------------------------

pub open spec fn digit_value(c: char) -> int {
    (c as int) - ('0' as int)
}

/// The value of a string of decimal digits.
pub open spec fn digits_value(ds: Seq<char>) -> int
    decreases ds.len(),
{
    if ds.len() == 0 {
        0
    } else {
        10 * digits_value(ds.drop_last()) + digit_value(ds.last())
    }
}

pub open spec fn all_digits(ds: Seq<char>) -> bool {
    forall|i: int| 0 <= i < ds.len() ==> ascii_digit(#[trigger] ds[i])
}

/// `i64::from_str`: an optional `+` or `-`, then at least one ASCII digit,
/// and a value in the range of `i64`.
pub open spec fn parse_i64_spec(s: Seq<char>) -> Option<i64> {
    let neg = s.len() > 0 && s[0] == '-';
    let signed = s.len() > 0 && (s[0] == '-' || s[0] == '+');
    let body = if signed { s.drop_first() } else { s };
    if body.len() == 0 || !all_digits(body) {
        None
    } else {
        let v = if neg { -digits_value(body) } else { digits_value(body) };
        if i64::MIN <= v <= i64::MAX {
            Some(v as i64)
        } else {
            None
        }
    }
}

proof fn lemma_digits_value_grows(ds: Seq<char>, k: int)
    requires
        all_digits(ds),
        0 <= k <= ds.len(),
    ensures
        digits_value(ds.take(k)) <= digits_value(ds),
        0 <= digits_value(ds),
    decreases ds.len(),
{
    if ds.len() > 0 {
        assert(all_digits(ds.drop_last()));
        if k == ds.len() {
            assert(ds.take(k) == ds);
            lemma_digits_value_grows(ds.drop_last(), 0);
        } else {
            assert(ds.drop_last().take(k) == ds.take(k));
            lemma_digits_value_grows(ds.drop_last(), k);
        }
    } else {
        assert(ds.take(k) == ds);
    }
}

/// Parses a decimal `i64` as `str::parse::<i64>` does.
pub fn parse_i64(s: &[char]) -> (r: Option<i64>)
    ensures
        r == parse_i64_spec(s@),
{
    let neg = s.len() > 0 && s[0] == '-';
    let signed = s.len() > 0 && (s[0] == '-' || s[0] == '+');
    let start: usize = if signed { 1 } else { 0 };
    let ghost body = if signed { s@.drop_first() } else { s@ };
    if start >= s.len() {
        return None;
    }
    let bound: i128 = 9223372036854775808;
    let mut acc: i128 = 0;
    let mut i = start;
    while i < s.len()
        invariant
            start <= i <= s.len(),
            bound == 9223372036854775808,
            signed == (s@.len() > 0 && (s@[0] == '-' || s@[0] == '+')),
            neg == (s@.len() > 0 && s@[0] == '-'),
            start == (if signed { 1usize } else { 0usize }),
            body == (if signed { s@.drop_first() } else { s@ }),
            body == s@.skip(start as int),
            0 <= acc <= bound,
            acc == digits_value(body.take(i - start)),
            all_digits(body.take(i - start)),
        decreases s.len() - i,
    {
        let c = s[i];
        if !is_ascii_digit(c) {
            proof {
                assert(body[i - start] == c);
                assert(!ascii_digit(body[i - start]));
            }
            return None;
        }
        let d: u32 = (c as u32) - ('0' as u32);
        assert(d <= 9);
        assert(d as int == digit_value(c));
        proof {
            assert(body.take(i - start + 1).drop_last() == body.take(i - start));
            assert(body.take(i - start + 1).last() == c);
        }
        acc = acc * 10 + (d as i128);
        if acc > bound {
            proof {
                assert(all_digits(body.take(i - start + 1)));
                if all_digits(body) {
                    lemma_digits_value_grows(body, i - start + 1);
                }
            }
            return None;
        }
        i += 1;
    }
    proof {
        assert(body.take(i - start) == body);
    }
    if neg {
        Some((0 - acc) as i64)
    } else if acc > 9223372036854775807 {
        None
    } else {
        Some(acc as i64)
    }
}

// ---------------------------------------------------------------------------
// Dates
// ---------------------------------------------------------------------------

/// Howard Hinnant's `civil_from_days`: the proleptic Gregorian
/// (year, month, day) of the day `days` after 1970-01-01.
pub open spec fn civil_of(days: int) -> (int, int, int) {
    let z = days + 719468;
    let era = z / 146097;
    let doe = z - era * 146097;
    let yoe = (doe - doe / 1460 + doe / 36524 - doe / 146096) / 365;
    let y = yoe + era * 400;
    let doy = doe - (365 * yoe + yoe / 4 - yoe / 100);
    let mp = (5 * doy + 2) / 153;
    let d = doy - (153 * mp + 2) / 5 + 1;
    let m = if mp < 10 { mp + 3 } else { mp - 9 };
    (if m <= 2 { y + 1 } else { y }, m, d)
}

/// The year (of an era of 400 March-based years) that day `doe` of the era
/// falls in, by Hinnant's formula.
pub open spec fn year_of_era(doe: int) -> int {
    (doe - doe / 1460 + doe / 36524 - doe / 146096) / 365
}

/// The first day of March-based year `yoe` of an era.
pub open spec fn era_year_start(yoe: int) -> int {
    365 * yoe + yoe / 4 - yoe / 100
}

#[verifier::spinoff_prover]
proof fn lemma_year_of_era(doe: int)
    requires
        0 <= doe < 146097,
    ensures
        0 <= year_of_era(doe) <= 399,
        era_year_start(year_of_era(doe)) <= doe,
        doe < if year_of_era(doe) == 399 { 146097 } else { era_year_start(year_of_era(doe) + 1) },
{
}

/// Leap years of the proleptic Gregorian calendar.
pub open spec fn is_leap_year(y: int) -> bool {
    (y % 4 == 0 && y % 100 != 0) || y % 400 == 0
}

/// The number of days of month `m` (1-based) of year `y`.
pub open spec fn month_length(y: int, m: int) -> int {
    if m == 2 {
        if is_leap_year(y) { 29 } else { 28 }
    } else if m == 4 || m == 6 || m == 9 || m == 11 {
        30
    } else {
        31
    }
}

/// The days of year `y` before the first of month `m`.
pub open spec fn days_before_month(y: int, m: int) -> int
    decreases m,
{
    if m <= 1 {
        0
    } else {
        days_before_month(y, m - 1) + month_length(y, m - 1)
    }
}

/// The leap years from year 1 through year `n` (counted negatively below 1),
/// so that consecutive values differ exactly by the leap years.
pub open spec fn leap_years_through(n: int) -> int {
    n / 4 - n / 100 + n / 400
}

/// The days from 1970-01-01 to the first of January of year `y`.
pub open spec fn days_before_year(y: int) -> int {
    365 * (y - 1970) + leap_years_through(y - 1) - leap_years_through(1969)
}

/// The days from 1970-01-01 to the date `y`-`m`-`d`.
pub open spec fn days_from_civil(y: int, m: int, d: int) -> int {
    days_before_year(y) + days_before_month(y, m) + d - 1
}

/// A year has 365 days, 366 when it is a leap year.
#[verifier::spinoff_prover]
pub proof fn lemma_year_length(y: int)
    ensures
        days_before_year(y + 1) == days_before_year(y) + if is_leap_year(y) { 366int } else { 365int },
{
    lemma_floor_step(y, 4);
    lemma_floor_step(y, 100);
    lemma_floor_step(y, 400);
}

/// `y / d` goes up by one exactly at the multiples of `d`.
proof fn lemma_floor_step(y: int, d: int)
    requires
        d > 0,
    ensures
        y / d - (y - 1) / d == if y % d == 0 { 1int } else { 0int },
{
    let q = y / d;
    let r = y % d;
    vstd::arithmetic::div_mod::lemma_fundamental_div_mod(y, d);
    if r > 0 {
        assert(y - 1 == q * d + (r - 1)) by (nonlinear_arith)
            requires
                y == d * q + r,
        ;
        vstd::arithmetic::div_mod::lemma_fundamental_div_mod_converse(y - 1, d, q, r - 1);
    } else {
        assert(y - 1 == (q - 1) * d + (d - 1)) by (nonlinear_arith)
            requires
                y == d * q + r,
                r == 0,
        ;
        vstd::arithmetic::div_mod::lemma_fundamental_div_mod_converse(y - 1, d, q - 1, d - 1);
    }
}

/// The first day of March-based month `mp` (0 = March) within its year.
pub open spec fn march_month_start(mp: int) -> int {
    (153 * mp + 2) / 5
}

#[verifier::spinoff_prover]
proof fn lemma_month_of_day(doy: int)
    requires
        0 <= doy <= 365,
    ensures
        0 <= (5 * doy + 2) / 153 <= 11,
        march_month_start((5 * doy + 2) / 153) <= doy,
        (5 * doy + 2) / 153 < 11 ==> doy < march_month_start((5 * doy + 2) / 153 + 1),
{
}

/// Days from the first of March of March-based year `y` to the month `mp`
/// (0 = March), in calendar terms.
#[verifier::spinoff_prover]
proof fn lemma_march_months(y: int, mp: int)
    requires
        0 <= mp <= 11,
    ensures
        mp < 10 ==> days_before_month(y, mp + 3) == 59 + (if is_leap_year(y) { 1int } else { 0int }) + march_month_start(mp),
        mp >= 10 ==> days_before_month(y + 1, mp - 9) == march_month_start(mp) - 306,
        mp < 11 ==> month_length(if mp < 10 { y } else { y + 1 }, if mp < 10 { mp + 3 } else { mp - 9 })
            == march_month_start(mp + 1) - march_month_start(mp),
{
    reveal_with_fuel(days_before_month, 13);
}

proof fn lemma_div_add_multiple(n: int, k: int, d: int)
    requires
        d > 0,
    ensures
        (n + k * d) / d == n / d + k,
        (n + k * d) % d == n % d,
{
    let q = n / d;
    let r = n % d;
    vstd::arithmetic::div_mod::lemma_fundamental_div_mod(n, d);
    assert(n + k * d == (q + k) * d + r) by (nonlinear_arith)
        requires
            n == d * q + r,
    ;
    vstd::arithmetic::div_mod::lemma_fundamental_div_mod_converse(n + k * d, d, q + k, r);
}

/// Shifting a year by whole eras of 400 years keeps its leap-ness and adds
/// 97 leap years per era.
proof fn lemma_era_shift(era: int, n: int)
    ensures
        leap_years_through(400 * era + n) == 97 * era + leap_years_through(n),
        is_leap_year(400 * era + n) == is_leap_year(n),
{
    lemma_div_add_multiple(n, 100 * era, 4);
    lemma_div_add_multiple(n, 4 * era, 100);
    lemma_div_add_multiple(n, era, 400);
    assert(400 * era + n == n + (100 * era) * 4);
    assert(400 * era + n == n + (4 * era) * 100);
    assert(400 * era + n == n + era * 400);
}

/// The first of March of year `400 * era + yoe` is day `era_year_start(yoe)`
/// of era `era`, whose day 0 is `146097 * era - 719468` days after 1970-01-01.
#[verifier::spinoff_prover]
proof fn lemma_march_first(era: int, yoe: int)
    requires
        0 <= yoe < 400,
    ensures
        days_before_year(400 * era + yoe) + 59 + (if is_leap_year(400 * era + yoe) { 1int } else { 0int })
            == 146097 * era + era_year_start(yoe) - 719468,
        days_before_year(400 * era + yoe + 1) == days_before_year(400 * era + yoe) + 365 + (if is_leap_year(400 * era + yoe) { 1int } else { 0int }),
        (if yoe < 399 { era_year_start(yoe + 1) } else { 146097 }) - era_year_start(yoe)
            == 365 + if is_leap_year(400 * era + yoe + 1) { 1int } else { 0int },
{
    lemma_year_length(400 * era + yoe);
    lemma_era_shift(era, yoe - 1);
    lemma_era_shift(era, yoe);
    lemma_era_shift(era, yoe + 1);
    assert(400 * era + yoe - 1 == 400 * era + (yoe - 1));
    assert(400 * era + yoe + 1 == 400 * era + (yoe + 1));
    assert(leap_years_through(yoe - 1) + (if is_leap_year(yoe) { 1int } else { 0int }) == yoe / 4 - yoe / 100);
    assert((if yoe < 399 { era_year_start(yoe + 1) } else { 146097 }) - era_year_start(yoe)
        == 365 + if is_leap_year(yoe + 1) { 1int } else { 0int });
}

/// Every day count names a valid proleptic Gregorian date, and that date is
/// exactly that many days after 1970-01-01: `civil_of` is the calendar.
#[verifier::spinoff_prover]
pub proof fn lemma_civil_of_is_the_calendar(days: int)
    ensures
        ({
            let (y, m, d) = civil_of(days);
            &&& 1 <= m <= 12
            &&& 1 <= d <= month_length(y, m)
            &&& days_from_civil(y, m, d) == days
        }),
{
    let z = days + 719468;
    let era = z / 146097;
    let doe = z - era * 146097;
    let yoe = year_of_era(doe);
    let doy = doe - era_year_start(yoe);
    let mp = (5 * doy + 2) / 153;
    lemma_year_of_era(doe);
    lemma_march_first(era, yoe);
    assert(0 <= doy <= 365);
    lemma_month_of_day(doy);
    lemma_march_months(400 * era + yoe, mp);
    assert(civil_of(days).1 == if mp < 10 { mp + 3 } else { mp - 9 });
}

/// `v` formatted as `{:0width$}`: a `-` sign for negative values, counted in
/// the width, and zeros between the sign and the digits.
pub open spec fn signed_padded(v: int, width: nat) -> Seq<char> {
    if v < 0 {
        seq!['-'] + zero_padded((-v) as nat, if width >= 1 { (width - 1) as nat } else { 0 })
    } else {
        zero_padded(v as nat, width)
    }
}

/// The `YYYY-MM-DD` (UTC) form of a unix timestamp.
pub open spec fn date_of_timestamp(ts: int) -> Seq<char> {
    let c = civil_of(ts / 86400);
    signed_padded(c.0, 4) + seq!['-'] + signed_padded(c.1, 2) + seq!['-'] + signed_padded(c.2, 2)
}

/// `x / d` for a positive divisor, computed through a non-negative dividend.
proof fn lemma_shifted_div(x: int, d: int, k: int)
    requires
        d > 0,
        k >= 0,
        x + k * d >= 0,
    ensures
        (x + k * d) / d - k == x / d,
        (x + k * d) % d == x % d,
{
    let q = (x + k * d) / d;
    let r = (x + k * d) % d;
    vstd::arithmetic::div_mod::lemma_fundamental_div_mod(x + k * d, d);
    assert(x == (q - k) * d + r) by (nonlinear_arith)
        requires
            x + k * d == d * q + r,
    ;
    vstd::arithmetic::div_mod::lemma_fundamental_div_mod_converse(x, d, q - k, r);
}

fn push_signed_padded(s: &mut String, v: i64, width: usize)
    requires
        v > i64::MIN,
        width >= 1,
    ensures
        final(s)@ == old(s)@ + signed_padded(v as int, width as nat),
{
    if v < 0 {
        let ghost start = s@;
        push_char(s, '-');
        let mag: u64 = (0 - v) as u64;
        push_zero_padded(s, mag, width - 1);
        assert(s@ =~= start + signed_padded(v as int, width as nat));
    } else {
        push_zero_padded(s, v as u64, width);
    }
}

/// The (year-of-era, month, day, shifts-year) part of `civil_of` for a day of
/// the era.
fn civil_from_doe(doe: i64) -> (r: (i64, i64, i64))
    requires
        0 <= doe < 146097,
    ensures
        ({
            let yoe = (doe - doe / 1460 + doe / 36524 - doe / 146096) / 365;
            let doy = doe - (365 * yoe + yoe / 4 - yoe / 100);
            let mp = (5 * doy + 2) / 153;
            let d = doy - (153 * mp + 2) / 5 + 1;
            let m = if mp < 10 { mp + 3 } else { mp - 9 };
            r.0 as int == yoe && r.1 as int == m && r.2 as int == d
        }),
        0 <= r.0 <= 401,
        -100000 <= r.1 <= 100000,
        -100000 <= r.2 <= 100000,
{
    let yoe: i64 = (doe - doe / 1460 + doe / 36524 - doe / 146096) / 365;
    assert(0 <= yoe <= 401);
    let doy: i64 = doe - (365 * yoe + yoe / 4 - yoe / 100);
    assert(-200000 <= doy <= 200000);
    let mp: i64 = (5 * doy + 2) / 153;
    let d: i64 = doy - (153 * mp + 2) / 5 + 1;
    let m: i64 = if mp < 10 { mp + 3 } else { mp - 9 };
    (yoe, m, d)
}

#[verifier::rlimit(40)]
fn civil_from_days(days: i64) -> (r: (i64, i64, i64))
    requires
        -200000000000000 <= days <= 200000000000000,
    ensures
        (r.0 as int, r.1 as int, r.2 as int) == civil_of(days as int),
        r.0 > i64::MIN,
        r.1 > i64::MIN,
        r.2 > i64::MIN,
{
    let z: i64 = days + 719468;
    let k: i64 = 10000000000;
    let shifted: i64 = z + k * 146097;
    proof {
        lemma_shifted_div(z as int, 146097, k as int);
        vstd::arithmetic::div_mod::lemma_fundamental_div_mod(z as int, 146097);
    }
    let era: i64 = shifted / 146097 - k;
    let doe: i64 = shifted % 146097;
    assert(era as int == (z as int) / 146097);
    assert(doe as int == (z as int) - (era as int) * 146097);
    assert(-2000000000 <= era <= 2000000000);
    let (yoe, m, d) = civil_from_doe(doe);
    let y: i64 = yoe + era * 400;
    let y2: i64 = if m <= 2 { y + 1 } else { y };
    (y2, m, d)
}

/// Convert a unix timestamp to `YYYY-MM-DD` in UTC.
pub fn format_unix_date(ts: i64) -> (s: String)
    ensures
        s@ == date_of_timestamp(ts as int),
{
    let k: i128 = 200000000000000;
    let shifted: i128 = (ts as i128) + k * 86400;
    proof {
        lemma_shifted_div(ts as int, 86400, k as int);
    }
    let days: i64 = (shifted / 86400 - k) as i64;
    let (y, m, d) = civil_from_days(days);
    let mut s = String::new();
    push_signed_padded(&mut s, y, 4);
    push_char(&mut s, '-');
    push_signed_padded(&mut s, m, 2);
    push_char(&mut s, '-');
    push_signed_padded(&mut s, d, 2);
    s
}

// ---------------------------------------------------------------------------
// `git blame --porcelain`
// ---------------------------------------------------------------------------

/// The lines of `ls` before the first one that starts with a tab.
pub open spec fn until_tab(ls: Seq<Seq<char>>) -> Seq<Seq<char>>
    decreases ls.len(),
{
    if ls.len() == 0 {
        Seq::empty()
    } else if ls[0].len() > 0 && ls[0][0] == '\t' {
        Seq::empty()
    } else {
        seq![ls[0]] + until_tab(ls.drop_first())
    }
}

/// The rest of the last line of `ls` that starts with `p`.
pub open spec fn last_field(ls: Seq<Seq<char>>, p: Seq<char>) -> Option<Seq<char>>
    decreases ls.len(),
{
    if ls.len() == 0 {
        None
    } else if has_prefix(ls.last(), p) {
        Some(ls.last().skip(p.len() as int))
    } else {
        last_field(ls.drop_last(), p)
    }
}

pub open spec fn is_commit_sha(sha: Seq<char>) -> bool {
    sha.len() >= 7 && forall|i: int| 0 <= i < sha.len() ==> ascii_hexdigit(#[trigger] sha[i])
}

/// What one porcelain block attributes: commit (7 characters), author,
/// author date as `YYYY-MM-DD`, and summary. `None` when the header does not
/// start with a hex SHA of at least 7 digits, or when the author, a parsable
/// author time, or the summary is missing before the first content line.
pub open spec fn porcelain_attribution(raw: Seq<char>) -> Option<(Seq<char>, Seq<char>, Seq<char>, Seq<char>)> {
    let ls = lines_of(raw);
    if ls.len() == 0 {
        None
    } else {
        let ws = words_of(ls[0]);
        if ws.len() == 0 || !is_commit_sha(ws[0]) {
            None
        } else {
            let body = until_tab(ls.drop_first());
            match (
                last_field(body, "author "@),
                last_field(body, "author-time "@),
                last_field(body, "summary "@),
            ) {
                (Some(author), Some(t), Some(summary)) => match parse_i64_spec(t) {
                    Some(ts) => Some((ws[0].take(7), author, date_of_timestamp(ts as int), summary)),
                    None => None,
                },
                _ => None,
            }
        }
    }
}

proof fn lemma_until_tab(ls: Seq<Seq<char>>, k: int)
    requires
        0 <= k <= ls.len(),
        forall|j: int| 0 <= j < k ==> !(ls[j].len() > 0 && ls[j][0] == '\t'),
        k == ls.len() || (ls[k].len() > 0 && ls[k][0] == '\t'),
    ensures
        until_tab(ls) == ls.take(k),
    decreases ls.len(),
{
    if ls.len() > 0 && k > 0 {
        assert forall|j: int| 0 <= j < k - 1 implies !(ls.drop_first()[j].len() > 0 && ls.drop_first()[j][0] == '\t') by {
            assert(ls.drop_first()[j] == ls[j + 1]);
        }
        lemma_until_tab(ls.drop_first(), k - 1);
        assert(ls.take(k) == seq![ls[0]] + ls.drop_first().take(k - 1));
    } else if k == 0 {
        assert(ls.take(0) == Seq::<Seq<char>>::empty());
    }
}

proof fn lemma_last_field_step(ls: Seq<Seq<char>>, k: int, p: Seq<char>)
    requires
        0 <= k < ls.len(),
    ensures
        last_field(ls.take(k + 1), p) == if has_prefix(ls[k], p) {
            Some(ls[k].skip(p.len() as int))
        } else {
            last_field(ls.take(k), p)
        },
{
    assert(ls.take(k + 1).last() == ls[k]);
    assert(ls.take(k + 1).drop_last() == ls.take(k));
}

fn all_hex(v: &[char]) -> (b: bool)
    ensures
        b == forall|i: int| 0 <= i < v@.len() ==> ascii_hexdigit(#[trigger] v@[i]),
{
    for i in 0..v.len()
        invariant
            forall|k: int| 0 <= k < i ==> ascii_hexdigit(#[trigger] v@[k]),
    {
        if !is_ascii_hexdigit(v[i]) {
            return false;
        }
    }
    true
}

/// The rest of `line` after `p`, when `line` starts with `p`.
fn field_after(line: &[char], p: &[char]) -> (r: Option<Vec<char>>)
    ensures
        r matches Some(v) ==> has_prefix(line@, p@) && v@ == line@.skip(p@.len() as int),
        r is None ==> !has_prefix(line@, p@),
{
    if starts_with(line, p) {
        Some(slice_chars(line, p.len(), line.len()))
    } else {
        None
    }
}

/// Parse one line's worth of `git blame --porcelain` output into an
/// [`Attribution`]. Returns `None` if any required field is missing.
pub fn parse_porcelain(raw: &str) -> (r: Option<Attribution>)
    ensures
        r is Some <==> porcelain_attribution(raw@) is Some,
        r matches Some(a) ==> porcelain_attribution(raw@) == Some((a.commit@, a.author@, a.date@, a.summary@)),
{
    let text = chars_of(raw);
    let lines = split_lines(&text);
    let ghost ls = views(lines@);
    if lines.len() == 0 {
        return None;
    }
    let words = split_words(&lines[0]);
    proof {
        assert(ls[0] == lines[0]@);
    }
    if words.len() == 0 {
        return None;
    }
    let sha = &words[0];
    assert(sha@ == words_of(ls[0])[0]);
    if sha.len() < 7 {
        return None;
    }
    if !all_hex(sha) {
        return None;
    }
    let author_p = chars_of("author ");
    let time_p = chars_of("author-time ");
    let summary_p = chars_of("summary ");
    let mut author: Option<Vec<char>> = None;
    let mut time: Option<Vec<char>> = None;
    let mut summary: Option<Vec<char>> = None;
    let ghost rest = ls.drop_first();
    let mut k: usize = 1;
    while k < lines.len()
        invariant
            1 <= k <= lines.len(),
            ls == views(lines@),
            rest == ls.drop_first(),
            author_p@ == "author "@,
            time_p@ == "author-time "@,
            summary_p@ == "summary "@,
            forall|j: int| 0 <= j < k - 1 ==> !(rest[j].len() > 0 && rest[j][0] == '\t'),
            match author { Some(v) => last_field(rest.take(k - 1), author_p@) == Some(v@), None => last_field(rest.take(k - 1), author_p@) is None },
            match time { Some(v) => last_field(rest.take(k - 1), time_p@) == Some(v@), None => last_field(rest.take(k - 1), time_p@) is None },
            match summary { Some(v) => last_field(rest.take(k - 1), summary_p@) == Some(v@), None => last_field(rest.take(k - 1), summary_p@) is None },
        ensures
            1 <= k <= lines.len(),
            k == lines.len() || (rest[k - 1].len() > 0 && rest[k - 1][0] == '\t'),
        decreases lines.len() - k,
    {
        let line = &lines[k];
        assert(line@ == rest[k - 1]);
        if line.len() > 0 && line[0] == '\t' {
            break;
        }
        proof {
            lemma_last_field_step(rest, k - 1, author_p@);
            lemma_last_field_step(rest, k - 1, time_p@);
            lemma_last_field_step(rest, k - 1, summary_p@);
        }
        match field_after(line, &author_p) {
            Some(v) => { author = Some(v); },
            None => {},
        }
        match field_after(line, &time_p) {
            Some(v) => { time = Some(v); },
            None => {},
        }
        match field_after(line, &summary_p) {
            Some(v) => { summary = Some(v); },
            None => {},
        }
        k += 1;
    }
    proof {
        lemma_until_tab(rest, k - 1);
    }
    let author = match author {
        Some(v) => v,
        None => { return None; },
    };
    let time = match time {
        Some(v) => v,
        None => { return None; },
    };
    let summary = match summary {
        Some(v) => v,
        None => { return None; },
    };
    let ts = match parse_i64(&time) {
        Some(t) => t,
        None => { return None; },
    };
    let commit = slice_chars(sha, 0, 7);
    assert(commit@ == sha@.take(7));
    Some(Attribution {
        commit: string_of(&commit),
        author: string_of(&author),
        date: format_unix_date(ts),
        summary: string_of(&summary),
    })
}

} // verus!
