//! Calendar arithmetic: leap years, days since the Unix epoch, the ISO 8601
//! dates that the index stores, and the "recently active" test.

use vstd::prelude::*;
use crate::text::{
    parse_u64_bytes, parse_u64_spec, push_padded, split, split_from, split_bytes, zero_pad,
    decimal,
};
use vstd::utf8::{encode_utf8, is_char_boundary};
use vstd::string::StringSliceAdditionalSpecFns;

verus! {

/// Gregorian leap years.
pub open spec fn leap(y: int) -> bool {
    (y % 4 == 0 && y % 100 != 0) || y % 400 == 0
}

/// Days in year `y`.
pub open spec fn year_len(y: int) -> nat {
    if leap(y) {
        366
    } else {
        365
    }
}

/// Days from 1970-01-01 to the first day of year `y` (0 for years before).
pub open spec fn days_before_year(y: int) -> nat
    decreases y - 1970,
{
    if y <= 1970 {
        0
    } else {
        days_before_year(y - 1) + year_len(y - 1)
    }
}

/// Days in month `m` (1-based) of year `y`.
pub open spec fn month_len(y: int, m: int) -> nat {
    if m == 2 {
        if leap(y) {
            29
        } else {
            28
        }
    } else if m == 4 || m == 6 || m == 9 || m == 11 {
        30
    } else {
        31
    }
}

/// Days from the first of January of `y` to the first day of month `m`.
pub open spec fn days_before_month(y: int, m: int) -> nat
    decreases m,
{
    if m <= 1 {
        0
    } else {
        days_before_month(y, m - 1) + month_len(y, m - 1)
    }
}

/// Days from 1970-01-01 to `y-m-d`.
pub open spec fn date_days(y: int, m: int, d: int) -> int {
    days_before_year(y) + days_before_month(y, m) + d - 1
}

/// Whether a month and a day are in the accepted ranges (any month may have
/// a day 31).
pub open spec fn plausible_date(m: int, d: int) -> bool {
    1 <= m <= 12 && 1 <= d <= 31
}

/// Whether `year` is a leap year.
pub fn is_leap_year(year: u64) -> (r: bool)
    ensures
        r == leap(year as int),
{
    (year % 4 == 0 && year % 100 != 0) || year % 400 == 0
}

proof fn lemma_days_before_year_mono(a: int, b: int)
    requires
        a <= b,
    ensures
        days_before_year(a) <= days_before_year(b),
    decreases b - a,
{
    if a < b {
        lemma_days_before_year_mono(a, b - 1);
    }
}

proof fn lemma_days_before_year_bound(y: int)
    requires
        y >= 1970,
    ensures
        days_before_year(y) <= 366 * (y - 1970),
    decreases y - 1970,
{
    if y > 1970 {
        lemma_days_before_year_bound(y - 1);
    }
}

proof fn lemma_days_before_month_bound(y: int, m: int)
    requires
        1 <= m <= 13,
    ensures
        days_before_month(y, m) <= 31 * (m - 1),
    decreases m,
{
    if m > 1 {
        lemma_days_before_month_bound(y, m - 1);
    }
}

/// Days from 1970-01-01 to `year-month-day`; `None` when the month is not in
/// 1..=12 or the day not in 1..=31.
pub fn days_since_epoch(year: u64, month: u64, day: u64) -> (r: Option<u64>)
    requires
        plausible_date(month as int, day as int) ==> date_days(year as int, month as int, day as int)
            <= u64::MAX,
    ensures
        plausible_date(month as int, day as int) ==> r == Some(
            date_days(year as int, month as int, day as int) as u64,
        ),
        !plausible_date(month as int, day as int) ==> r is None,
{
    if month == 0 || month > 12 || day == 0 || day > 31 {
        return None;
    }
    let ghost total = date_days(year as int, month as int, day as int);
    let mut days: u64 = 0;
    let mut y: u64 = 1970;
    while y < year
        invariant
            1970 <= y,
            y <= year || year < 1970,
            year < 1970 ==> y == 1970,
            days == days_before_year(y as int),
            total == date_days(year as int, month as int, day as int),
            total <= u64::MAX,
            1 <= month <= 12,
            1 <= day <= 31,
        decreases year - y,
    {
        proof {
            lemma_days_before_year_mono(y + 1, year as int);
        }
        days += if is_leap_year(y) {
            366
        } else {
            365
        };
        y += 1;
    }
    assert(days == days_before_year(year as int)) by {
        if year < 1970 {
            assert(y == 1970);
        }
    }
    let month_days: [u64; 13] = [0, 31, 28, 31, 30, 31, 30, 31, 31, 30, 31, 30, 31];
    let mut m: u64 = 1;
    while m < month
        invariant
            1 <= m <= month <= 12,
            1 <= day <= 31,
            days == days_before_year(year as int) + days_before_month(year as int, m as int),
            total == date_days(year as int, month as int, day as int),
            total <= u64::MAX,
            month_days@ == seq![0u64, 31, 28, 31, 30, 31, 30, 31, 31, 30, 31, 30, 31],
        decreases month - m,
    {
        proof {
            lemma_days_before_month_mono(year as int, m + 1, month as int);
        }
        days += month_days[m as usize];
        if m == 2 && is_leap_year(year) {
            days += 1;
        }
        m += 1;
    }
    days += day - 1;
    Some(days)
}

proof fn lemma_days_before_month_mono(y: int, a: int, b: int)
    requires
        a <= b,
    ensures
        days_before_month(y, a) <= days_before_month(y, b),
    decreases b - a,
{
    if a < b {
        lemma_days_before_month_mono(y, a, b - 1);
    }
}

/// The date part of a timestamp: its first ten bytes, or all of it.
pub open spec fn date_part(b: Seq<u8>) -> Seq<u8> {
    if b.len() >= 10 {
        b.take(10)
    } else {
        b
    }
}

/// Seconds since the epoch of the day named by a `YYYY-MM-DD...` timestamp
/// (its bytes `b`), or `None` when it does not name one.
pub open spec fn iso_date_secs(b: Seq<u8>) -> Option<u64> {
    let parts = split(date_part(b), 45u8);
    if parts.len() != 3 {
        None
    } else {
        match (parse_u64_spec(parts[0]), parse_u64_spec(parts[1]), parse_u64_spec(parts[2])) {
            (Some(y), Some(m), Some(d)) => if plausible_date(m as int, d as int) {
                Some((date_days(y as int, m as int, d as int) * 86400) as u64)
            } else {
                None
            },
            _ => None,
        }
    }
}

/// Whether slicing the first ten bytes of `b` off is well defined: the date
/// is read from the first ten bytes, and a cut inside a character would
/// panic.
pub open spec fn date_cut_ok(b: Seq<u8>) -> bool {
    b.len() < 10 || is_char_boundary(b, 10)
}

/// Whether the date parser may cut `s` after its tenth byte.
pub fn date_cut_allowed(s: &str) -> (r: bool)
    ensures
        r == date_cut_ok(s.spec_bytes()),
{
    let b = s.as_bytes();
    b.len() < 10 || s.is_char_boundary(10)
}

proof fn lemma_split_piece_len(s: Seq<u8>, sep: u8, cur: Seq<u8>)
    ensures
        1 <= split_from(s, sep, cur).len() <= s.len() + 1,
        forall|k: int|
            0 <= k < split_from(s, sep, cur).len() ==> #[trigger] split_from(s, sep, cur)[k].len()
                + split_from(s, sep, cur).len() - 1 <= s.len() + cur.len(),
    decreases s.len(),
{
    if s.len() > 0 {
        if s[0] == sep {
            lemma_split_piece_len(s.drop_first(), sep, seq![]);
            let rest = split_from(s.drop_first(), sep, seq![]);
            assert(split_from(s, sep, cur) == seq![cur] + rest);
            assert forall|k: int| 0 <= k < split_from(s, sep, cur).len() implies #[trigger] split_from(
                s,
                sep,
                cur,
            )[k].len() + split_from(s, sep, cur).len() - 1 <= s.len() + cur.len() by {
                if k > 0 {
                    assert(split_from(s, sep, cur)[k] == rest[k - 1]);
                }
            }
        } else {
            lemma_split_piece_len(s.drop_first(), sep, cur.push(s[0]));
        }
    }
}

/// Ten to the power `n`.
pub open spec fn ten_pow(n: nat) -> nat
    decreases n,
{
    if n == 0 {
        1
    } else {
        10 * ten_pow((n - 1) as nat)
    }
}

proof fn lemma_ten_pow_mono(a: nat, b: nat)
    requires
        a <= b,
    ensures
        ten_pow(a) <= ten_pow(b),
    decreases b - a,
{
    if a < b {
        lemma_ten_pow_mono(a, (b - 1) as nat);
    }
}

proof fn lemma_digits_value_bound(s: Seq<u8>)
    requires
        crate::text::all_digits(s),
    ensures
        crate::text::digits_value(s) < ten_pow(s.len()),
    decreases s.len(),
{
    if s.len() > 0 {
        let t = s.drop_last();
        assert(crate::text::all_digits(t)) by {
            assert forall|i: int| 0 <= i < t.len() implies crate::text::is_digit_byte(
                #[trigger] t[i],
            ) by {
                assert(t[i] == s[i]);
            }
        }
        lemma_digits_value_bound(t);
        assert(crate::text::is_digit_byte(s[s.len() - 1]));
    }
}

proof fn lemma_digits_small(s: Seq<u8>)
    requires
        s.len() <= 8,
        parse_u64_spec(s) is Some,
    ensures
        parse_u64_spec(s)->0 < 100_000_000,
{
    let d = if s.len() > 0 && s[0] == 43 {
        s.drop_first()
    } else {
        s
    };
    lemma_digits_value_bound(d);
    lemma_ten_pow_mono(d.len(), 8);
    assert(ten_pow(8) == 100_000_000) by {
        reveal_with_fuel(ten_pow, 9);
    }
}

/// Seconds since the epoch of the day a `YYYY-MM-DD` or
/// `YYYY-MM-DDTHH:MM:SS` timestamp names (the time of day is not read).
pub fn parse_iso8601_to_secs(s: &str) -> (r: Option<u64>)
    requires
        date_cut_ok(s.spec_bytes()),
    ensures
        r == iso_date_secs(s.spec_bytes()),
{
    let b = s.as_bytes();
    let n = if b.len() >= 10 {
        10
    } else {
        b.len()
    };
    assert(b@.subrange(0, n as int) =~= date_part(b@));
    let parts = split_bytes(b, 0, n, 45u8);
    let ghost pv = parts@.map_values(|x: Vec<u8>| x@);
    if parts.len() != 3 {
        return None;
    }
    proof {
        lemma_split_piece_len(date_part(b@), 45u8, seq![]);
        assert(pv[0] == parts@[0]@);
        assert(pv[1] == parts@[1]@);
        assert(pv[2] == parts@[2]@);
        assert(parts@[0]@.subrange(0, parts@[0]@.len() as int) =~= parts@[0]@);
        assert(parts@[1]@.subrange(0, parts@[1]@.len() as int) =~= parts@[1]@);
        assert(parts@[2]@.subrange(0, parts@[2]@.len() as int) =~= parts@[2]@);
    }
    let year = match parse_u64_bytes(parts[0].as_slice(), 0, parts[0].len()) {
        Some(v) => v,
        None => return None,
    };
    let month = match parse_u64_bytes(parts[1].as_slice(), 0, parts[1].len()) {
        Some(v) => v,
        None => return None,
    };
    let day = match parse_u64_bytes(parts[2].as_slice(), 0, parts[2].len()) {
        Some(v) => v,
        None => return None,
    };
    proof {
        lemma_digits_small(pv[0]);
        if plausible_date(month as int, day as int) {
            if year >= 1970 {
                lemma_days_before_year_bound(year as int);
            }
            lemma_days_before_month_bound(year as int, month as int);
            assert(date_days(year as int, month as int, day as int) * 86400 <= 4_000_000_000_000_000)
                by (nonlinear_arith)
                requires
                    date_days(year as int, month as int, day as int) <= 366 * 100_000_000 + 31 * 12
                        + 31,
            ;
        }
    }
    match days_since_epoch(year, month, day) {
        Some(d) => Some(d * 86400),
        None => None,
    }
}

/// Whether the timestamp `t` lies at most `threshold` seconds before `now`.
pub open spec fn within(t: u64, now: u64, threshold: int) -> bool {
    (if now >= t {
        now - t
    } else {
        0
    }) <= threshold
}

/// Whether a stored timestamp (its bytes `tb`) is at most `days` days older
/// than `now` (bytes `nb`, Unix seconds). The timestamp may be Unix seconds
/// or an ISO 8601 date; anything else is not recent.
pub open spec fn recent(tb: Seq<u8>, nb: Seq<u8>, days: int) -> bool {
    let threshold = days * 86400;
    match (parse_u64_spec(tb), parse_u64_spec(nb)) {
        (Some(t), Some(n)) => within(t, n, threshold),
        _ => match (iso_date_secs(tb), parse_u64_spec(nb)) {
            (Some(t), Some(n)) => within(t, n, threshold),
            _ => false,
        },
    }
}

/// Whether `ts` is within the last `days` days before `now`.
pub fn is_recent(ts: &str, now: &str, days: u64) -> (r: bool)
    requires
        days * 86400 <= u64::MAX,
        date_cut_ok(ts.spec_bytes()),
    ensures
        r == recent(ts.spec_bytes(), now.spec_bytes(), days as int),
{
    let seconds_in_day: u64 = 86400;
    let threshold = days * seconds_in_day;
    let tb = ts.as_bytes();
    let nb = now.as_bytes();
    assert(tb@.subrange(0, tb@.len() as int) =~= tb@);
    assert(nb@.subrange(0, nb@.len() as int) =~= nb@);
    let t_unix = parse_u64_bytes(tb, 0, tb.len());
    let n_unix = parse_u64_bytes(nb, 0, nb.len());
    if let (Some(t), Some(n)) = (t_unix, n_unix) {
        return n.saturating_sub(t) <= threshold;
    }
    let t_iso = parse_iso8601_to_secs(ts);
    if let (Some(t), Some(n)) = (t_iso, n_unix) {
        return n.saturating_sub(t) <= threshold;
    }
    false
}

/// The year that day number `days` (counted from the start of year `y`)
/// falls in, and the day's number within that year.
pub open spec fn civil_year(days: nat, y: int) -> (int, nat)
    decreases days,
{
    if days < year_len(y) {
        (y, days)
    } else {
        civil_year((days - year_len(y)) as nat, y + 1)
    }
}

/// The month that day `rem` of year `y` (counted from the start of month `m`)
/// falls in, and the day's number within that month.
pub open spec fn civil_month(rem: nat, y: int, m: int) -> (int, nat)
    decreases 13 - m,
{
    if m > 12 || rem < month_len(y, m) {
        (m, rem)
    } else {
        civil_month((rem - month_len(y, m)) as nat, y, m + 1)
    }
}

/// Characters of a decimal number zero-padded to `w` digits.
pub open spec fn pad(n: nat, w: nat) -> Seq<char> {
    zero_pad(decimal(n), w)
}

/// `YYYY-MM-DDTHH:MM:SSZ` for the UTC time `secs` seconds after the epoch.
pub open spec fn iso8601_text(secs: nat) -> Seq<char> {
    let days = secs / 86400;
    let tod = secs % 86400;
    let (y, r) = civil_year(days, 1970);
    let (mo, r2) = civil_month(r, y, 1);
    pad(y as nat, 4) + seq!['-'] + pad(mo as nat, 2) + seq!['-'] + pad(r2 + 1, 2) + seq!['T']
        + pad(tod / 3600, 2) + seq![':'] + pad((tod % 3600) / 60, 2) + seq![':'] + pad(tod % 60, 2)
        + seq!['Z']
}

/// Formats a Unix time as an ISO 8601 UTC timestamp, with leap years and the
/// lengths of months taken into account.
pub fn epoch_secs_to_iso8601(secs: u64) -> (r: String)
    ensures
        r@ == iso8601_text(secs as nat),
{
    let days = secs / 86400;
    let tod = secs % 86400;
    let h = tod / 3600;
    let m = (tod % 3600) / 60;
    let s = tod % 60;

    let mut y: u64 = 1970;
    let mut remaining = days;
    loop
        invariant
            1970 <= y,
            365 * (y - 1970) + remaining <= days,
            civil_year(days as nat, 1970) == civil_year(remaining as nat, y as int),
            days == secs / 86400,
        ensures
            1970 <= y,
            365 * (y - 1970) + remaining <= days,
            civil_year(days as nat, 1970) == civil_year(remaining as nat, y as int),
            remaining < year_len(y as int),
        decreases remaining,
    {
        let days_in_year: u64 = if is_leap_year(y) {
            366
        } else {
            365
        };
        if remaining < days_in_year {
            break;
        }
        remaining -= days_in_year;
        y += 1;
    }
    let ghost yr = civil_year(days as nat, 1970);
    assert(yr == (y as int, remaining as nat));
    let feb: u64 = if is_leap_year(y) {
        29
    } else {
        28
    };
    let month_days: [u64; 12] = [31, feb, 31, 30, 31, 30, 31, 31, 30, 31, 30, 31];
    let mut mo: u64 = 1;
    let mut idx: usize = 0;
    while idx < 12
        invariant
            idx <= 12,
            mo == idx + 1,
            remaining <= days,
            civil_month(yr.1, y as int, 1) == civil_month(remaining as nat, y as int, mo as int),
            forall|k: int| 0 <= k < 12 ==> month_days@[k] == month_len(y as int, k + 1),
        ensures
            remaining <= days,
            1 <= mo <= 13,
            civil_month(yr.1, y as int, 1) == civil_month(remaining as nat, y as int, mo as int),
            mo > 12 || remaining < month_len(y as int, mo as int),
        decreases 12 - idx,
    {
        let md = month_days[idx];
        if remaining < md {
            break;
        }
        remaining -= md;
        mo += 1;
        idx += 1;
    }
    let d = remaining + 1;
    let ghost mr = civil_month(yr.1, y as int, 1);
    assert(mr == (mo as int, remaining as nat));
    let mut out: Vec<char> = Vec::new();
    push_padded(&mut out, y, 4);
    out.push('-');
    push_padded(&mut out, mo, 2);
    out.push('-');
    push_padded(&mut out, d, 2);
    out.push('T');
    push_padded(&mut out, h, 2);
    out.push(':');
    push_padded(&mut out, m, 2);
    out.push(':');
    push_padded(&mut out, s, 2);
    out.push('Z');
    assert(out@ =~= iso8601_text(secs as nat));
    crate::text::string_of(out.as_slice())
}

/// The bytes of a character sequence taken one per character (its UTF-8
/// encoding when every character is ASCII).
pub open spec fn ascii_bytes(s: Seq<char>) -> Seq<u8> {
    Seq::new(s.len(), |i: int| s[i] as u8)
}

/// Whether every character of `s` is an ASCII digit.
pub open spec fn digit_chars(s: Seq<char>) -> bool {
    forall|i: int| 0 <= i < s.len() ==> '0' <= #[trigger] s[i] <= '9'
}

proof fn lemma_decimal_shape(n: nat, k: nat)
    requires
        k >= 1,
        n < ten_pow(k),
    ensures
        1 <= decimal(n).len() <= k,
        digit_chars(decimal(n)),
        crate::text::digits_value(ascii_bytes(decimal(n))) == n,
        crate::text::all_digits(ascii_bytes(decimal(n))),
    decreases n,
{
    if n < 10 {
        let b = ascii_bytes(decimal(n));
        assert(b =~= seq![(n + 48) as u8]);
        assert(b.drop_last() =~= Seq::<u8>::empty());
        assert(crate::text::digits_value(b) == crate::text::digits_value(b.drop_last()) * 10 + (
        b.last() - 48) as nat);
    } else {
        if k == 1 {
            assert(ten_pow(1) == 10 * ten_pow(0));
        }
        assert(k >= 2);
        assert(ten_pow(k) == 10 * ten_pow((k - 1) as nat));
        lemma_decimal_shape(n / 10, (k - 1) as nat);
        let t = decimal(n / 10);
        assert(decimal(n) == t.push(crate::text::digit_char(n % 10)));
        let b = ascii_bytes(decimal(n));
        assert(b.drop_last() =~= ascii_bytes(t));
        assert(b.last() == (n % 10 + 48) as u8);
        assert(crate::text::digits_value(b) == crate::text::digits_value(b.drop_last()) * 10 + (
        b.last() - 48) as nat);
        assert(crate::text::digits_value(b) == (n / 10) * 10 + n % 10);
    }
}

proof fn lemma_zeros_value(z: Seq<u8>, s: Seq<u8>)
    requires
        forall|i: int| 0 <= i < z.len() ==> #[trigger] z[i] == 48,
    ensures
        crate::text::digits_value(z + s) == crate::text::digits_value(s),
    decreases z.len() + s.len(),
{
    if s.len() > 0 {
        assert((z + s).drop_last() =~= z + s.drop_last());
        lemma_zeros_value(z, s.drop_last());
    } else if z.len() > 0 {
        assert((z + s).drop_last() =~= z.drop_last() + s);
        lemma_zeros_value(z.drop_last(), s);
        assert(z.drop_last() + s =~= z.drop_last());
        assert(z + s =~= z);
    } else {
        assert(z + s =~= s);
    }
}

proof fn lemma_pad_shape(n: nat, w: nat)
    requires
        w >= 1,
        n < ten_pow(w),
        n <= u64::MAX,
    ensures
        pad(n, w).len() == w,
        digit_chars(pad(n, w)),
        crate::text::all_digits(ascii_bytes(pad(n, w))),
        parse_u64_spec(ascii_bytes(pad(n, w))) == Some(n as u64),
{
    lemma_decimal_shape(n, w);
    let d = decimal(n);
    if d.len() < w {
        let zeros = Seq::new((w - d.len()) as nat, |i: int| '0');
        assert(pad(n, w) == zeros + d);
        assert(ascii_bytes(pad(n, w)) =~= ascii_bytes(zeros) + ascii_bytes(d));
        lemma_zeros_value(ascii_bytes(zeros), ascii_bytes(d));
    } else {
        assert(pad(n, w) == d);
    }
}

proof fn lemma_civil_year(days: nat, y0: int)
    requires
        y0 >= 1970,
    ensures
        civil_year(days, y0).0 >= y0,
        civil_year(days, y0).1 < year_len(civil_year(days, y0).0),
        days_before_year(y0) + days == days_before_year(civil_year(days, y0).0) + civil_year(
            days,
            y0,
        ).1,
    decreases days,
{
    if days >= year_len(y0) {
        lemma_civil_year((days - year_len(y0)) as nat, y0 + 1);
    }
}

proof fn lemma_year_len_months(y: int)
    ensures
        days_before_month(y, 13) == year_len(y),
{
    reveal_with_fuel(days_before_month, 13);
}

proof fn lemma_civil_month(rem: nat, y: int, m0: int)
    requires
        1 <= m0 <= 13,
        days_before_month(y, m0) + rem < year_len(y),
    ensures
        m0 <= civil_month(rem, y, m0).0 <= 12,
        civil_month(rem, y, m0).1 < month_len(y, civil_month(rem, y, m0).0),
        days_before_month(y, m0) + rem == days_before_month(y, civil_month(rem, y, m0).0)
            + civil_month(rem, y, m0).1,
    decreases 13 - m0,
{
    lemma_year_len_months(y);
    if m0 > 12 {
    } else if rem >= month_len(y, m0) {
        lemma_civil_month((rem - month_len(y, m0)) as nat, y, m0 + 1);
    }
}

proof fn lemma_split_at_sep(a: Seq<u8>, b: Seq<u8>, sep: u8, cur: Seq<u8>)
    requires
        forall|i: int| 0 <= i < a.len() ==> #[trigger] a[i] != sep,
    ensures
        split_from(a + seq![sep] + b, sep, cur) == seq![cur + a] + split_from(b, sep, seq![]),
    decreases a.len(),
{
    let s = a + seq![sep] + b;
    if a.len() == 0 {
        assert(s.drop_first() =~= b);
        assert(cur + a =~= cur);
    } else {
        assert(s.drop_first() =~= a.drop_first() + seq![sep] + b);
        lemma_split_at_sep(a.drop_first(), b, sep, cur.push(a[0]));
        assert(cur.push(a[0]) + a.drop_first() =~= cur + a);
    }
}

proof fn lemma_split_none(c: Seq<u8>, sep: u8, cur: Seq<u8>)
    requires
        forall|i: int| 0 <= i < c.len() ==> #[trigger] c[i] != sep,
    ensures
        split_from(c, sep, cur) == seq![cur + c],
    decreases c.len(),
{
    if c.len() == 0 {
        assert(cur + c =~= cur);
    } else {
        lemma_split_none(c.drop_first(), sep, cur.push(c[0]));
        assert(cur.push(c[0]) + c.drop_first() =~= cur + c);
    }
}

proof fn lemma_digit_piece(n: nat, w: nat)
    requires
        w >= 1,
        n < ten_pow(w),
        n <= u64::MAX,
    ensures
        pad(n, w).len() == w,
        digit_chars(pad(n, w)),
        forall|i: int| 0 <= i < w ==> #[trigger] ascii_bytes(pad(n, w))[i] != 45u8,
        parse_u64_spec(ascii_bytes(pad(n, w))) == Some(n as u64),
{
    lemma_pad_shape(n, w);
    assert forall|i: int| 0 <= i < w implies #[trigger] ascii_bytes(pad(n, w))[i] != 45u8 by {
        assert('0' <= pad(n, w)[i] <= '9');
    }
}

/// Formatting a time with `epoch_secs_to_iso8601` and reading it back with
/// `parse_iso8601_to_secs` gives the start (midnight UTC) of the same day, for
/// every time up to the end of year 9999.
pub proof fn lemma_iso8601_round_trip(secs: nat)
    requires
        secs <= u64::MAX,
        civil_year(secs / 86400, 1970).0 <= 9999,
    ensures
        date_cut_ok(encode_utf8(iso8601_text(secs))),
        iso_date_secs(encode_utf8(iso8601_text(secs))) == Some(((secs / 86400) * 86400) as u64),
{
    let days = secs / 86400;
    let tod = secs % 86400;
    let (y, r) = civil_year(days, 1970);
    lemma_civil_year(days, 1970);
    lemma_civil_month(r, y, 1);
    let (mo, r2) = civil_month(r, y, 1);
    assert(ten_pow(2) == 100) by {
        reveal_with_fuel(ten_pow, 3);
    }
    assert(ten_pow(4) == 10000) by {
        reveal_with_fuel(ten_pow, 5);
    }
    lemma_digit_piece(y as nat, 4);
    lemma_digit_piece(mo as nat, 2);
    lemma_digit_piece(r2 + 1, 2);
    lemma_digit_piece(tod / 3600, 2);
    lemma_digit_piece((tod % 3600) / 60, 2);
    lemma_digit_piece(tod % 60, 2);
    let p1 = pad(y as nat, 4);
    let p2 = pad(mo as nat, 2);
    let p3 = pad(r2 + 1, 2);
    let date = p1 + seq!['-'] + p2 + seq!['-'] + p3;
    let time = seq!['T'] + pad(tod / 3600, 2) + seq![':'] + pad((tod % 3600) / 60, 2) + seq![':']
        + pad(tod % 60, 2) + seq!['Z'];
    let text = iso8601_text(secs);
    assert(text =~= date + time);
    assert(vstd::utf8::is_ascii_chars(text)) by {
        assert forall|i: int| 0 <= i < text.len() implies '\0' <= #[trigger] text[i] <= '\u{7f}' by {
            if i < 4 {
                assert(text[i] == p1[i]);
            } else if i == 4 || i == 7 {
            } else if i < 7 {
                assert(text[i] == p2[i - 5]);
            } else if i < 10 {
                assert(text[i] == p3[i - 8]);
            } else if i == 10 || i == 13 || i == 16 || i == 19 {
            } else if i < 13 {
                assert(text[i] == pad(tod / 3600, 2)[i - 11]);
            } else if i < 16 {
                assert(text[i] == pad((tod % 3600) / 60, 2)[i - 14]);
            } else {
                assert(text[i] == pad(tod % 60, 2)[i - 17]);
            }
        }
    }
    vstd::utf8::is_ascii_chars_encode_utf8(text);
    vstd::utf8::encode_utf8_valid_utf8(text);
    let bytes = encode_utf8(text);
    assert(bytes.len() == 20);
    assert(bytes[10] == 84u8);
    vstd::utf8::is_char_boundary_iff_not_is_continuation_byte(bytes, 10);
    let b1 = ascii_bytes(p1);
    let b2 = ascii_bytes(p2);
    let b3 = ascii_bytes(p3);
    assert(date_part(bytes) =~= b1 + seq![45u8] + (b2 + seq![45u8] + b3));
    lemma_split_at_sep(b1, b2 + seq![45u8] + b3, 45u8, seq![]);
    lemma_split_at_sep(b2, b3, 45u8, seq![]);
    lemma_split_none(b3, 45u8, seq![]);
    let parts = split(date_part(bytes), 45u8);
    assert(Seq::<u8>::empty() + b1 =~= b1);
    assert(Seq::<u8>::empty() + b2 =~= b2);
    assert(Seq::<u8>::empty() + b3 =~= b3);
    assert(parts =~= seq![b1, b2, b3]);
    assert(days_before_year(1970) == 0);
    assert(days_before_month(y, 1) == 0);
    assert(date_days(y, mo, (r2 + 1) as int) == days);
    assert(month_len(y, mo) <= 31);
}

proof fn lemma_dbm_mono(y: int, a: int, b: int)
    requires
        1 <= a <= b <= 13,
    ensures
        days_before_month(y, a) <= days_before_month(y, b),
    decreases b - a,
{
    if a < b {
        lemma_dbm_mono(y, a, b - 1);
    }
}

proof fn lemma_month_unique(y: int, m: int, x: int, mm: int, xx: int)
    requires
        1 <= m <= 12,
        1 <= mm <= 12,
        0 <= x < month_len(y, m),
        0 <= xx < month_len(y, mm),
        days_before_month(y, m) + x == days_before_month(y, mm) + xx,
    ensures
        m == mm,
        x == xx,
{
    if m < mm {
        lemma_dbm_mono(y, m + 1, mm);
    } else if mm < m {
        lemma_dbm_mono(y, mm + 1, m);
    }
}

proof fn lemma_year_unique(y: int, k: int, yy: int, kk: int)
    requires
        1970 <= y,
        1970 <= yy,
        0 <= k < year_len(y),
        0 <= kk < year_len(yy),
        days_before_year(y) + k == days_before_year(yy) + kk,
    ensures
        y == yy,
        k == kk,
{
    if y < yy {
        lemma_days_before_year_mono(y + 1, yy);
    } else if yy < y {
        lemma_days_before_year_mono(yy + 1, y);
    }
}

/// The ISO 8601 text of a time names its date and its time of day: for a
/// day `y-m-d` from 1970 on and a time of day `tod`, the text is
/// `YYYY-MM-DDTHH:MM:SSZ` with exactly those numbers.
pub proof fn law_iso8601_of_date(y: int, m: int, d: int, tod: nat)
    requires
        1970 <= y,
        1 <= m <= 12,
        1 <= d <= month_len(y, m),
        tod < 86400,
    ensures
        iso8601_text((date_days(y, m, d) * 86400 + tod) as nat) == pad(y as nat, 4) + seq!['-'] + pad(
            m as nat,
            2,
        ) + seq!['-'] + pad(d as nat, 2) + seq!['T'] + pad(tod / 3600, 2) + seq![':'] + pad(
            (tod % 3600) / 60,
            2,
        ) + seq![':'] + pad(tod % 60, 2) + seq!['Z'],
{
    let days = date_days(y, m, d);
    lemma_dbm_mono(y, m + 1, 13);
    lemma_year_len_months(y);
    assert(days_before_month(y, m + 1) == days_before_month(y, m) + month_len(y, m));
    assert(days >= 0);
    let secs = days * 86400 + tod;
    vstd::arithmetic::div_mod::lemma_fundamental_div_mod_converse(secs, 86400, days, tod as int);
    let dn = days as nat;
    lemma_civil_year(dn, 1970);
    let (yy, r) = civil_year(dn, 1970);
    assert(days_before_year(1970) == 0);
    lemma_year_unique(y, days_before_month(y, m) + d - 1, yy, r as int);
    lemma_civil_month(r, y, 1);
    let (mm, r2) = civil_month(r, y, 1);
    assert(days_before_month(y, 1) == 0);
    lemma_month_unique(y, m, d - 1, mm, r2 as int);
}

} // verus!
