//! Calendar arithmetic and timestamp parsing for market data: days since the
//! Unix epoch in the proleptic Gregorian calendar, RFC 3339 timestamps with a
//! `Z` or `±hh:mm` offset, and the fixed formats of the official market calendar.
//! Parsing works on the UTF-8 bytes of the text.
use vstd::prelude::*;
use crate::text::{chars_of, decimal, decimal_string, string_from_chars};

verus! {

pub open spec fn is_digit_byte(c: u8) -> bool {
    48 <= c <= 57
}

pub open spec fn all_digit_bytes(b: Seq<u8>) -> bool {
    forall|i: int| 0 <= i < b.len() ==> is_digit_byte(#[trigger] b[i])
}

/// The number written by a run of decimal digits.
pub open spec fn digits_value(b: Seq<u8>) -> int
    decreases b.len(),
{
    if b.len() == 0 {
        0
    } else {
        digits_value(b.drop_last()) * 10 + (b.last() - 48)
    }
}

pub open spec fn pow10(n: nat) -> int
    decreases n,
{
    if n == 0 {
        1
    } else {
        10 * pow10((n - 1) as nat)
    }
}

/// `str::parse` of an unsigned integer field: an optional `+`, then one or more
/// digits.
pub open spec fn parse_unsigned_field(b: Seq<u8>) -> Option<int> {
    let rest = if b.len() > 0 && b[0] == 43u8 {
        b.drop_first()
    } else {
        b
    };
    if rest.len() > 0 && all_digit_bytes(rest) {
        Some(digits_value(rest))
    } else {
        None
    }
}

/// `str::parse` of a signed integer field: an optional `+` or `-`, then one or
/// more digits.
pub open spec fn parse_signed_field(b: Seq<u8>) -> Option<int> {
    if b.len() > 0 && b[0] == 45u8 {
        let rest = b.drop_first();
        if rest.len() > 0 && all_digit_bytes(rest) {
            Some(-digits_value(rest))
        } else {
            None
        }
    } else {
        parse_unsigned_field(b)
    }
}

/// The digits of `b[lo..hi]` (at most four of them) as a number.
fn digits_exec(b: &[u8], lo: usize, hi: usize) -> (r: i64)
    requires
        lo <= hi <= b@.len(),
        hi - lo <= 4,
        all_digit_bytes(b@.subrange(lo as int, hi as int)),
    ensures
        r == digits_value(b@.subrange(lo as int, hi as int)),
        0 <= r < 10_000,
{
    let mut value: i64 = 0;
    let mut k = lo;
    while k < hi
        invariant
            lo <= k <= hi <= b@.len(),
            hi - lo <= 4,
            all_digit_bytes(b@.subrange(lo as int, hi as int)),
            value == digits_value(b@.subrange(lo as int, k as int)),
            0 <= value < pow10((k - lo) as nat),
        decreases hi - k,
    {
        let ghost next = b@.subrange(lo as int, k as int + 1);
        assert(next.drop_last() =~= b@.subrange(lo as int, k as int));
        assert(next.last() == b@[k as int]);
        assert(b@.subrange(lo as int, hi as int)[k - lo] == b@[k as int]);
        assert(pow10((k - lo) as nat) <= 1000) by {
            reveal_with_fuel(pow10, 4);
        }
        value = value * 10 + (b[k] - 48) as i64;
        k = k + 1;
    }
    assert(pow10((hi - lo) as nat) <= 10_000) by {
        reveal_with_fuel(pow10, 5);
    }
    value
}

/// Whether `b[lo..hi]` is all decimal digits.
fn digits_in(b: &[u8], lo: usize, hi: usize) -> (r: bool)
    requires
        lo <= hi <= b@.len(),
    ensures
        r == all_digit_bytes(b@.subrange(lo as int, hi as int)),
{
    let mut k = lo;
    while k < hi
        invariant
            lo <= k <= hi <= b@.len(),
            forall|m: int| lo <= m < k ==> is_digit_byte(#[trigger] b@[m]),
        decreases hi - k,
    {
        if b[k] < 48 || b[k] > 57 {
            assert(!is_digit_byte(b@.subrange(lo as int, hi as int)[k - lo]));
            return false;
        }
        k = k + 1;
    }
    assert forall|m: int| 0 <= m < hi - lo implies is_digit_byte(
        #[trigger] b@.subrange(lo as int, hi as int)[m],
    ) by {
        assert(b@.subrange(lo as int, hi as int)[m] == b@[lo + m]);
    }
    true
}

/// `str::parse` of the field `b[lo..hi]` (at most four bytes after a sign).
pub fn parse_field(b: &[u8], lo: usize, hi: usize, signed: bool) -> (r: Option<i64>)
    requires
        lo <= hi <= b@.len(),
        hi - lo <= 4,
    ensures
        signed ==> match parse_signed_field(b@.subrange(lo as int, hi as int)) {
            Some(v) => r == Some(v as i64) && -10_000 < v < 10_000,
            None => r is None,
        },
        !signed ==> match parse_unsigned_field(b@.subrange(lo as int, hi as int)) {
            Some(v) => r == Some(v as i64) && 0 <= v < 10_000,
            None => r is None,
        },
{
    let ghost f = b@.subrange(lo as int, hi as int);
    if lo == hi {
        return None;
    }
    let negative = signed && b[lo] == 45;
    let start = if negative || b[lo] == 43 {
        lo + 1
    } else {
        lo
    };
    assert(b@.subrange(start as int, hi as int) =~= if start == lo {
        f
    } else {
        f.drop_first()
    });
    if start == hi {
        return None;
    }
    if !digits_in(b, start, hi) {
        return None;
    }
    let v = digits_exec(b, start, hi);
    if negative {
        Some(-v)
    } else {
        Some(v)
    }
}

// ---------------------------------------------------------------- civil calendar

pub open spec fn is_leap_year(y: int) -> bool {
    y % 4 == 0 && (y % 100 != 0 || y % 400 == 0)
}

pub open spec fn days_in_month(y: int, m: int) -> int {
    if m == 2 {
        if is_leap_year(y) {
            29
        } else {
            28
        }
    } else if m == 4 || m == 6 || m == 9 || m == 11 {
        30
    } else {
        31
    }
}

pub open spec fn valid_civil_date(y: int, m: int, d: int) -> bool {
    1 <= m <= 12 && 1 <= d <= days_in_month(y, m)
}

/// Days from 1970-01-01 to the given date, counted in 400-year eras of 146_097
/// days from 0000-03-01 (so that the leap day ends the counting year).
pub open spec fn civil_days(y: int, m: int, d: int) -> int {
    let ya = if m <= 2 {
        y - 1
    } else {
        y
    };
    let era = ya / 400;
    let yoe = ya % 400;
    let mp = if m > 2 {
        m - 3
    } else {
        m + 9
    };
    let doy = (153 * mp + 2) / 5 + d - 1;
    let doe = yoe * 365 + yoe / 4 - yoe / 100 + doy;
    era * 146_097 + doe - 719_468
}

pub const YEAR_LIMIT: i64 = 1_000_000_000_000;

/// Days since the epoch of a valid Gregorian date; `None` for an impossible one.
pub fn days_from_civil(year: i64, month: u32, day: u32) -> (r: Option<i64>)
    requires
        -YEAR_LIMIT <= year <= YEAR_LIMIT,
    ensures
        match r {
            Some(v) => valid_civil_date(year as int, month as int, day as int) && v == civil_days(
                year as int,
                month as int,
                day as int,
            ),
            None => !valid_civil_date(year as int, month as int, day as int),
        },
{
    if month < 1 || month > 12 || day == 0 {
        return None;
    }
    let shifted: u64 = (year + 4 * YEAR_LIMIT) as u64;
    let leap = shifted % 4 == 0 && (shifted % 100 != 0 || shifted % 400 == 0);
    assert(leap == is_leap_year(year as int)) by {
        lemma_mod_shift(year as int, 4, YEAR_LIMIT as int);
        lemma_mod_shift(year as int, 100, 40_000_000_000);
        lemma_mod_shift(year as int, 400, 10_000_000_000);
    }
    let limit: u32 = if month == 2 {
        if leap {
            29
        } else {
            28
        }
    } else if month == 4 || month == 6 || month == 9 || month == 11 {
        30
    } else {
        31
    };
    if day > limit {
        return None;
    }
    let adjusted: u64 = if month <= 2 {
        shifted - 1
    } else {
        shifted
    };
    let era_shifted: u64 = adjusted / 400;
    let yoe: u64 = adjusted % 400;
    let mp: u64 = if month > 2 {
        month as u64 - 3
    } else {
        month as u64 + 9
    };
    let doy: u64 = (153 * mp + 2) / 5 + day as u64 - 1;
    let doe: u64 = yoe * 365 + yoe / 4 - yoe / 100 + doy;
    let era: i64 = era_shifted as i64 - YEAR_LIMIT / 100;
    proof {
        let ya = if month <= 2 {
            year - 1
        } else {
            year as int
        };
        assert(adjusted == ya + 400 * (YEAR_LIMIT / 100));
        lemma_div_mod_shift(ya, 400, YEAR_LIMIT / 100);
    }
    Some(era * 146_097 + doe as i64 - 719_468)
}

/// Shifting by a multiple of the divisor keeps the remainder.
proof fn lemma_mod_shift(x: int, d: int, k: int)
    requires
        d > 0,
        k >= 0,
    ensures
        (x + d * k) % d == x % d,
{
    vstd::arithmetic::div_mod::lemma_mod_multiples_vanish(k, x, d);
    assert(d * k + x == x + d * k);
}

/// Shifting by a multiple of the divisor shifts the quotient and keeps the
/// remainder.
proof fn lemma_div_mod_shift(x: int, d: int, k: int)
    requires
        d > 0,
    ensures
        (x + d * k) / d == x / d + k,
        (x + d * k) % d == x % d,
{
    vstd::arithmetic::div_mod::lemma_fundamental_div_mod(x, d);
    let q = x / d;
    let r = x % d;
    assert(x + d * k == (q + k) * d + r) by (nonlinear_arith)
        requires
            x == d * q + r,
    ;
    vstd::arithmetic::div_mod::lemma_fundamental_div_mod_converse(x + d * k, d, q + k, r);
}

// ---------------------------------------------------------------- RFC 3339 timestamps

pub open spec fn is_offset_sign(c: u8) -> bool {
    c == 90u8 || c == 43u8 || c == 45u8
}

/// The first position at or after `k` holding `Z`, `+` or `-`, or `-1`.
pub open spec fn suffix_start(b: Seq<u8>, k: int) -> int
    decreases b.len() - k,
{
    if k < 0 || k >= b.len() {
        -1
    } else if is_offset_sign(b[k]) {
        k
    } else {
        suffix_start(b, k + 1)
    }
}

/// Milliseconds from an optional fraction `.ddd…`: its first three digits, padded
/// with zeros.
pub open spec fn fraction_millis(f: Seq<u8>) -> Option<int> {
    if f.len() == 0 {
        Some(0)
    } else if f[0] != 46u8 || f.len() == 1 || !all_digit_bytes(f.drop_first()) {
        None
    } else {
        let digits = f.drop_first();
        if digits.len() >= 3 {
            Some(digits_value(digits.subrange(0, 3)))
        } else {
            Some(digits_value(digits) * pow10((3 - digits.len()) as nat))
        }
    }
}

/// The offset east of UTC, in seconds, of a `Z` or `±hh:mm` suffix.
pub open spec fn offset_seconds(s: Seq<u8>) -> Option<int> {
    if s.len() == 1 && s[0] == 90u8 {
        Some(0)
    } else if s.len() == 6 && s[3] == 58u8 && (s[0] == 43u8 || s[0] == 45u8) {
        match (parse_signed_field(s.subrange(1, 3)), parse_signed_field(s.subrange(4, 6))) {
            (Some(h), Some(mi)) => if h > 23 || mi > 59 {
                None
            } else if s[0] == 43u8 {
                Some(h * 3_600 + mi * 60)
            } else {
                Some(-(h * 3_600 + mi * 60))
            },
            _ => None,
        }
    } else {
        None
    }
}

/// The instant an RFC 3339 timestamp names, in milliseconds since the epoch:
/// `YYYY-MM-DDThh:mm:ss`, an optional fraction and a `Z` or `±hh:mm` offset;
/// `None` for malformed text, impossible dates and instants before the epoch.
pub open spec fn rfc3339_ms(b: Seq<u8>) -> Option<int> {
    if b.len() < 20 || b[4] != 45u8 || b[10] != 84u8 || b[13] != 58u8 || b[16] != 58u8 {
        None
    } else {
        match (
            parse_signed_field(b.subrange(0, 4)),
            parse_unsigned_field(b.subrange(5, 7)),
            parse_unsigned_field(b.subrange(8, 10)),
            parse_unsigned_field(b.subrange(11, 13)),
            parse_unsigned_field(b.subrange(14, 16)),
            parse_unsigned_field(b.subrange(17, 19)),
        ) {
            (Some(y), Some(mo), Some(d), Some(h), Some(mi), Some(s)) => {
                let k = suffix_start(b, 19);
                if h > 23 || mi > 59 || s > 59 || !valid_civil_date(y, mo, d) || k < 0 {
                    None
                } else {
                    match (fraction_millis(b.subrange(19, k)), offset_seconds(b.subrange(k, b.len() as int))) {
                        (Some(ms), Some(off)) => {
                            let seconds = civil_days(y, mo, d) * 86_400 + h * 3_600 + mi * 60 + s - off;
                            if seconds < 0 {
                                None
                            } else {
                                Some(seconds * 1_000 + ms)
                            }
                        },
                        _ => None,
                    }
                }
            },
            _ => None,
        }
    }
}

fn find_suffix(b: &[u8]) -> (r: Option<usize>)
    requires
        b@.len() >= 19,
    ensures
        match r {
            Some(k) => k == suffix_start(b@, 19) && 19 <= k < b@.len(),
            None => suffix_start(b@, 19) == -1,
        },
{
    let mut k: usize = 19;
    while k < b.len()
        invariant
            19 <= k <= b@.len(),
            suffix_start(b@, 19) == suffix_start(b@, k as int),
        decreases b.len() - k,
    {
        if b[k] == 90 || b[k] == 43 || b[k] == 45 {
            return Some(k);
        }
        k = k + 1;
    }
    None
}

fn fraction_exec(b: &[u8], lo: usize, hi: usize) -> (r: Option<u64>)
    requires
        lo <= hi <= b@.len(),
    ensures
        match fraction_millis(b@.subrange(lo as int, hi as int)) {
            Some(v) => r == Some(v as u64) && 0 <= v < 1_000,
            None => r is None,
        },
{
    let ghost f = b@.subrange(lo as int, hi as int);
    if lo == hi {
        return Some(0);
    }
    if b[lo] != 46 || hi - lo == 1 {
        return None;
    }
    let ghost digits = f.drop_first();
    assert(digits =~= b@.subrange(lo as int + 1, hi as int));
    if !digits_in(b, lo + 1, hi) {
        return None;
    }
    let n = hi - lo - 1;
    if n >= 3 {
        assert(digits.subrange(0, 3) =~= b@.subrange(lo as int + 1, lo as int + 4));
        assert(all_digit_bytes(b@.subrange(lo as int + 1, lo as int + 4))) by {
            assert forall|m: int| 0 <= m < 3 implies is_digit_byte(
                #[trigger] b@.subrange(lo as int + 1, lo as int + 4)[m],
            ) by {
                assert(b@.subrange(lo as int + 1, lo as int + 4)[m] == digits[m]);
            }
        }
        let v = digits_exec(b, lo + 1, lo + 4);
        assert(v < 1_000) by {
            lemma_digits_bound(b@.subrange(lo as int + 1, lo as int + 4));
            reveal_with_fuel(pow10, 4);
        }
        Some(v as u64)
    } else {
        let v = digits_exec(b, lo + 1, hi);
        proof {
            lemma_digits_bound(digits);
            reveal_with_fuel(pow10, 4);
        }
        let scaled: i64 = if n == 1 {
            v * 100
        } else {
            v * 10
        };
        Some(scaled as u64)
    }
}

proof fn lemma_digits_bound(b: Seq<u8>)
    requires
        all_digit_bytes(b),
    ensures
        0 <= digits_value(b) < pow10(b.len()),
    decreases b.len(),
{
    if b.len() > 0 {
        let p = b.drop_last();
        assert(all_digit_bytes(p)) by {
            assert forall|i: int| 0 <= i < p.len() implies is_digit_byte(#[trigger] p[i]) by {
                assert(p[i] == b[i]);
            }
        }
        lemma_digits_bound(p);
        assert(is_digit_byte(b[b.len() - 1]));
    }
}

fn offset_exec(b: &[u8], k: usize) -> (r: Option<i64>)
    requires
        k <= b@.len(),
    ensures
        match offset_seconds(b@.subrange(k as int, b@.len() as int)) {
            Some(v) => r == Some(v as i64) && -86_400 < v < 86_400,
            None => r is None,
        },
{
    let ghost s = b@.subrange(k as int, b@.len() as int);
    let n = b.len() - k;
    if n == 1 && b[k] == 90 {
        return Some(0);
    }
    if n == 6 && b[k + 3] == 58 && (b[k] == 43 || b[k] == 45) {
        assert(s.subrange(1, 3) =~= b@.subrange(k + 1, k + 3));
        assert(s.subrange(4, 6) =~= b@.subrange(k + 4, k + 6));
        let hours = parse_field(b, k + 1, k + 3, true);
        let minutes = parse_field(b, k + 4, k + 6, true);
        match (hours, minutes) {
            (Some(h), Some(mi)) => {
                if h > 23 || mi > 59 {
                    return None;
                }
                assert(-10 < h && -10 < mi) by {
                    lemma_two_byte_field(b@.subrange(k + 1, k + 3));
                    lemma_two_byte_field(b@.subrange(k + 4, k + 6));
                }
                let total = h * 3_600 + mi * 60;
                if b[k] == 43 {
                    Some(total)
                } else {
                    Some(-total)
                }
            },
            _ => None,
        }
    } else {
        None
    }
}

/// A two-byte signed field is a one- or two-digit number.
proof fn lemma_two_byte_field(f: Seq<u8>)
    requires
        f.len() == 2,
    ensures
        parse_signed_field(f) matches Some(v) ==> -10 < v < 100,
{
    if f[0] == 45u8 {
        let rest = f.drop_first();
        if rest.len() > 0 && all_digit_bytes(rest) {
            lemma_digits_bound(rest);
            reveal_with_fuel(pow10, 2);
        }
    } else {
        let rest = if f[0] == 43u8 {
            f.drop_first()
        } else {
            f
        };
        if rest.len() > 0 && all_digit_bytes(rest) {
            lemma_digits_bound(rest);
            reveal_with_fuel(pow10, 3);
        }
    }
}

/// Parses an RFC 3339 timestamp to milliseconds since the epoch.
pub fn parse_rfc3339_ms(value: &str) -> (r: Option<u64>)
    ensures
        match rfc3339_ms(vstd::utf8::encode_utf8(value@)) {
            Some(v) => r matches Some(x) && x == v,
            None => r is None,
        },
{
    let b = value.as_bytes();
    if b.len() < 20 || b[4] != 45 || b[10] != 84 || b[13] != 58 || b[16] != 58 {
        return None;
    }
    let year = match parse_field(b, 0, 4, true) {
        Some(v) => v,
        None => {
            return None;
        },
    };
    let month = match parse_field(b, 5, 7, false) {
        Some(v) => v,
        None => {
            return None;
        },
    };
    let day = match parse_field(b, 8, 10, false) {
        Some(v) => v,
        None => {
            return None;
        },
    };
    let hour = match parse_field(b, 11, 13, false) {
        Some(v) => v,
        None => {
            return None;
        },
    };
    let minute = match parse_field(b, 14, 16, false) {
        Some(v) => v,
        None => {
            return None;
        },
    };
    let second = match parse_field(b, 17, 19, false) {
        Some(v) => v,
        None => {
            return None;
        },
    };
    if hour > 23 || minute > 59 || second > 59 {
        return None;
    }
    let k = match find_suffix(b) {
        Some(k) => k,
        None => {
            return None;
        },
    };
    let days = match days_from_civil(year, month as u32, day as u32) {
        Some(d) => d,
        None => {
            return None;
        },
    };
    let millis = match fraction_exec(b, 19, k) {
        Some(v) => v,
        None => {
            return None;
        },
    };
    let offset = match offset_exec(b, k) {
        Some(v) => v,
        None => {
            return None;
        },
    };
    assert(-10_000 < year < 10_000);
    proof {
        lemma_civil_days_bounds(year as int, month as int, day as int);
    }
    let seconds: i64 = days * 86_400 + hour * 3_600 + minute * 60 + second - offset;
    if seconds < 0 {
        return None;
    }
    Some(seconds as u64 * 1_000 + millis)
}

/// The day count of a year within four digits stays within a few million days.
proof fn lemma_civil_days_bounds(y: int, m: int, d: int)
    requires
        -10_000 < y < 10_000,
        valid_civil_date(y, m, d),
    ensures
        -5_000_000 < civil_days(y, m, d) < 5_000_000,
{
    let ya = if m <= 2 {
        y - 1
    } else {
        y
    };
    vstd::arithmetic::div_mod::lemma_fundamental_div_mod(ya, 400);
    let era = ya / 400;
    let yoe = ya % 400;
    assert(-26 <= era <= 25) by (nonlinear_arith)
        requires
            ya == 400 * era + yoe,
            0 <= yoe < 400,
            -10_002 < ya < 10_000,
    ;
}

/// A calendar date of the official calendar: `YYYY-MM-DD`, ten bytes with dashes
/// at positions 4 and 7 and digits elsewhere.
pub open spec fn calendar_date_ok(b: Seq<u8>) -> bool {
    &&& b.len() == 10
    &&& b[4] == 45u8
    &&& b[7] == 45u8
    &&& forall|i: int| 0 <= i < 10 && i != 4 && i != 7 ==> is_digit_byte(#[trigger] b[i])
}

pub fn calendar_date_shape(value: &str) -> (r: bool)
    ensures
        r == calendar_date_ok(vstd::utf8::encode_utf8(value@)),
{
    let b = value.as_bytes();
    if b.len() != 10 || b[4] != 45 || b[7] != 45 {
        return false;
    }
    let mut i: usize = 0;
    while i < 10
        invariant
            b@ == vstd::utf8::encode_utf8(value@),
            b@.len() == 10,
            i <= 10,
            forall|k: int| 0 <= k < i && k != 4 && k != 7 ==> is_digit_byte(#[trigger] b@[k]),
        decreases 10 - i,
    {
        if i != 4 && i != 7 && (b[i] < 48 || b[i] > 57) {
            assert(!is_digit_byte(b@[i as int]));
            return false;
        }
        i = i + 1;
    }
    true
}

/// A session time of the official calendar: in KST (`+09:00`) or UTC (`Z`).
pub open spec fn official_zone(b: Seq<u8>) -> bool {
    (b.len() >= 6 && b.subrange(b.len() - 6, b.len() as int) == seq![43u8, 48u8, 57u8, 58u8, 48u8, 48u8])
        || (b.len() >= 1 && b.last() == 90u8)
}

pub fn official_zone_exec(value: &str) -> (r: bool)
    ensures
        r == official_zone(vstd::utf8::encode_utf8(value@)),
{
    let b = value.as_bytes();
    let n = b.len();
    let kst = n >= 6 && b[n - 6] == 43 && b[n - 5] == 48 && b[n - 4] == 57 && b[n - 3] == 58 && b[n - 2]
        == 48 && b[n - 1] == 48;
    proof {
        if n >= 6 {
            let tail = b@.subrange(n - 6, n as int);
            if kst {
                assert(tail =~= seq![43u8, 48u8, 57u8, 58u8, 48u8, 48u8]);
            } else if tail == seq![43u8, 48u8, 57u8, 58u8, 48u8, 48u8] {
                assert(tail[0] == 43u8);
                assert(b@[n - 6] == tail[0]);
                assert(b@[n - 5] == tail[1]);
                assert(b@[n - 4] == tail[2]);
                assert(b@[n - 3] == tail[3]);
                assert(b@[n - 2] == tail[4]);
                assert(b@[n - 1] == tail[5]);
            }
        }
    }
    kst || (n >= 1 && b[n - 1] == 90)
}



/// The civil date of a day count since 1970-01-01, counted as [`civil_days`]
/// counts: 400-year eras from 0000-03-01, then the year, month and day in it.
pub open spec fn civil_of_days(days: int) -> (int, int, int) {
    let adjusted = days + 719_468;
    let era = adjusted / 146_097;
    let doe = adjusted % 146_097;
    let yoe = (doe - doe / 1_460 + doe / 36_524 - doe / 146_096) / 365;
    let doy = doe - (365 * yoe + yoe / 4 - yoe / 100);
    let mp = (5 * doy + 2) / 153;
    let d = doy - (153 * mp + 2) / 5 + 1;
    let m = if mp < 10 {
        mp + 3
    } else {
        mp - 9
    };
    let y = yoe + era * 400 + if m <= 2 {
        1int
    } else {
        0int
    };
    (y, m, d)
}

/// Inside an era: the year of the era, and the day of that year (March-based).
proof fn lemma_year_of_era(doe: int)
    requires
        0 <= doe <= 146_096,
    ensures
        ({
            let yoe = (doe - doe / 1_460 + doe / 36_524 - doe / 146_096) / 365;
            &&& 0 <= yoe <= 399
            &&& 365 * yoe + yoe / 4 - yoe / 100 <= doe
            &&& doe < 365 * (yoe + 1) + (yoe + 1) / 4 - (yoe + 1) / 100 + (yoe + 1) / 400
        }),
{
}

/// The month of a March-based day of year, and the day in it.
proof fn lemma_month_of_year(doy: int)
    requires
        0 <= doy <= 365,
    ensures
        ({
            let mp = (5 * doy + 2) / 153;
            let d = doy - (153 * mp + 2) / 5 + 1;
            &&& 0 <= mp <= 11
            &&& 1 <= d
            &&& mp == 11 ==> d == doy - 336
            &&& mp < 11 ==> d <= if mp == 0 || mp == 2 || mp == 4 || mp == 5 || mp == 7 || mp == 9 || mp == 10 {
                31int
            } else {
                30int
            }
            &&& (153 * mp + 2) / 5 + d - 1 == doy
        }),
{
}

/// The civil date of a day count is a valid date that counts back to it.
pub proof fn lemma_civil_of_days(days: int)
    ensures
        valid_civil_date(civil_of_days(days).0, civil_of_days(days).1, civil_of_days(days).2),
        civil_days(civil_of_days(days).0, civil_of_days(days).1, civil_of_days(days).2) == days,
{
    let adjusted = days + 719_468;
    let era = adjusted / 146_097;
    let doe = adjusted % 146_097;
    lemma_year_of_era(doe);
    let yoe = (doe - doe / 1_460 + doe / 36_524 - doe / 146_096) / 365;
    let doy = doe - (365 * yoe + yoe / 4 - yoe / 100);
    lemma_month_of_year(doy);
    let (y, m, d) = civil_of_days(days);
    let mp = (5 * doy + 2) / 153;
    let ya = if m <= 2 {
        y - 1
    } else {
        y
    };
    assert(ya == yoe + 400 * era);
    lemma_div_mod_shift(yoe, 400, era);
    assert(ya / 400 == era && ya % 400 == yoe);
    lemma_div_mod_shift(adjusted % 146_097, 146_097, adjusted / 146_097);
    vstd::arithmetic::div_mod::lemma_fundamental_div_mod(adjusted, 146_097);
    if mp == 11 {
        // February: a 29th only in a leap year, where the March-based year is long.
        assert(y == yoe + 1 + 400 * era);
        lemma_div_mod_shift(yoe + 1, 4, 100 * era);
        lemma_div_mod_shift(yoe + 1, 100, 4 * era);
        lemma_div_mod_shift(yoe + 1, 400, era);
        assert(y % 4 == (yoe + 1) % 4);
        assert(y % 100 == (yoe + 1) % 100);
        assert(y % 400 == (yoe + 1) % 400);
    }
}


/// Days before year `n` of an era (March-based).
pub open spec fn era_days(n: int) -> int {
    365 * n + n / 4 - n / 100 + n / 400
}

/// The year of an era is the one whose span holds the day.
proof fn lemma_year_of_era_unique(doe: int, yoe: int)
    requires
        0 <= yoe <= 399,
        era_days(yoe) <= doe < era_days(yoe + 1),
    ensures
        (doe - doe / 1_460 + doe / 36_524 - doe / 146_096) / 365 == yoe,
{
    lemma_year_of_era(doe);
    let f = (doe - doe / 1_460 + doe / 36_524 - doe / 146_096) / 365;
    assert(era_days(f) <= doe < era_days(f + 1));
    if f < yoe {
        assert(era_days(f + 1) <= era_days(yoe));
    } else if f > yoe {
        assert(era_days(yoe + 1) <= era_days(f));
    }
}

/// The month and day are found again from the day of year they make.
proof fn lemma_month_of_year_unique(mp: int, d: int)
    requires
        0 <= mp <= 11,
        1 <= d,
        mp < 11 ==> d <= if mp == 0 || mp == 2 || mp == 4 || mp == 5 || mp == 7 || mp == 9 || mp == 10 {
            31int
        } else {
            30int
        },
        mp == 11 ==> d <= 29,
    ensures
        ({
            let doy = (153 * mp + 2) / 5 + d - 1;
            &&& (5 * doy + 2) / 153 == mp
            &&& doy - (153 * mp + 2) / 5 + 1 == d
            &&& 0 <= doy <= 365
        }),
{
}

/// A valid date's day of its March-based year lies inside that year.
proof fn lemma_day_in_year(y: int, m: int, d: int)
    requires
        valid_civil_date(y, m, d),
    ensures
        ({
            let ya = if m <= 2 {
                y - 1
            } else {
                y
            };
            let yoe = ya % 400;
            let mp = if m > 2 {
                m - 3
            } else {
                m + 9
            };
            let doy = (153 * mp + 2) / 5 + d - 1;
            &&& 0 <= yoe <= 399
            &&& 0 <= doy
            &&& era_days(yoe) + doy < era_days(yoe + 1)
        }),
{
    let ya = if m <= 2 {
        y - 1
    } else {
        y
    };
    let era = ya / 400;
    let yoe = ya % 400;
    vstd::arithmetic::div_mod::lemma_fundamental_div_mod(ya, 400);
    if m == 2 {
        lemma_div_mod_shift(yoe + 1, 4, 100 * era);
        lemma_div_mod_shift(yoe + 1, 100, 4 * era);
        lemma_div_mod_shift(yoe + 1, 400, era);
        assert(y == yoe + 1 + 400 * era);
        assert(is_leap_year(y) == is_leap_year(yoe + 1));
    }
}

/// The day of era that a year of era and a day of that year make lies within
/// the era, and the era's day count reads back both.
proof fn lemma_era_day_reads_back(yoe: int, doy: int)
    requires
        0 <= yoe <= 399,
        0 <= doy,
        era_days(yoe) + doy < era_days(yoe + 1),
    ensures
        ({
            let doe = yoe * 365 + yoe / 4 - yoe / 100 + doy;
            &&& 0 <= doe <= 146_096
            &&& (doe - doe / 1_460 + doe / 36_524 - doe / 146_096) / 365 == yoe
            &&& doe - (365 * yoe + yoe / 4 - yoe / 100) == doy
        }),
{
    let doe = yoe * 365 + yoe / 4 - yoe / 100 + doy;
    assert(yoe / 400 == 0);
    assert(era_days(yoe) + doy == doe);
    assert(era_days(yoe + 1) <= 146_097);
    lemma_year_of_era_unique(doe, yoe);
}

/// The civil date of the day that an era, a year of era and a March-based day
/// of year make.
#[verifier::spinoff_prover]
proof fn lemma_civil_of_era_parts(era: int, yoe: int, mp: int, d: int, doy: int)
    requires
        0 <= yoe <= 399,
        0 <= doy,
        era_days(yoe) + doy < era_days(yoe + 1),
        0 <= mp <= 11,
        (5 * doy + 2) / 153 == mp,
        doy - (153 * mp + 2) / 5 + 1 == d,
    ensures
        civil_of_days(era * 146_097 + (yoe * 365 + yoe / 4 - yoe / 100 + doy) - 719_468) == (
            yoe + era * 400 + if mp >= 10 {
                1int
            } else {
                0int
            },
            if mp < 10 {
                mp + 3
            } else {
                mp - 9
            },
            d,
        ),
{
    let doe = yoe * 365 + yoe / 4 - yoe / 100 + doy;
    lemma_era_day_reads_back(yoe, doy);
    lemma_div_mod_shift(doe, 146_097, era);
    assert(doe + 146_097 * era == era * 146_097 + doe - 719_468 + 719_468);
    assert(doe % 146_097 == doe && doe / 146_097 == 0) by {
        vstd::arithmetic::div_mod::lemma_small_mod(doe as nat, 146_097);
        vstd::arithmetic::div_mod::lemma_basic_div(doe, 146_097);
    }
}

/// A valid date counts to a day whose civil date is that date again.
pub proof fn lemma_days_of_civil(y: int, m: int, d: int)
    requires
        valid_civil_date(y, m, d),
    ensures
        civil_of_days(civil_days(y, m, d)) == (y, m, d),
{
    let ya = if m <= 2 {
        y - 1
    } else {
        y
    };
    let era = ya / 400;
    let yoe = ya % 400;
    let mp = if m > 2 {
        m - 3
    } else {
        m + 9
    };
    let doy = (153 * mp + 2) / 5 + d - 1;
    lemma_day_in_year(y, m, d);
    lemma_month_of_year_unique(mp, d);
    lemma_civil_of_era_parts(era, yoe, mp, d, doy);
    vstd::arithmetic::div_mod::lemma_fundamental_div_mod(ya, 400);
    assert(civil_days(y, m, d) == era * 146_097 + (yoe * 365 + yoe / 4 - yoe / 100 + doy) - 719_468);
}

/// The civil date (year, month, day) of a day count since 1970-01-01.
pub fn civil_from_days(days: i64) -> (r: (i32, u32, u32))
    requires
        -100_000_000_000 <= days <= 100_000_000_000,
    ensures
        (r.0 as int, r.1 as int, r.2 as int) == civil_of_days(days as int),
        valid_civil_date(r.0 as int, r.1 as int, r.2 as int),
        civil_days(r.0 as int, r.1 as int, r.2 as int) == days,
{
    let shifted: u64 = (days + 719_468 + 146_097_000_000) as u64;
    let era_shifted: u64 = shifted / 146_097;
    let doe: u64 = shifted % 146_097;
    proof {
        lemma_div_mod_shift(days + 719_468, 146_097, 1_000_000);
        lemma_year_of_era(doe as int);
        lemma_civil_of_days(days as int);
    }
    let yoe: u64 = (doe - doe / 1_460 + doe / 36_524 - doe / 146_096) / 365;
    let doy: u64 = doe - (365 * yoe + yoe / 4 - yoe / 100);
    proof {
        lemma_month_of_year(doy as int);
    }
    let mp: u64 = (5 * doy + 2) / 153;
    let day: u64 = doy - (153 * mp + 2) / 5 + 1;
    let month: u64 = if mp < 10 {
        mp + 3
    } else {
        mp - 9
    };
    let era: i64 = era_shifted as i64 - 1_000_000;
    let year: i64 = yoe as i64 + era * 400 + if month <= 2 {
        1
    } else {
        0
    };
    (year as i32, month as u32, day as u32)
}

/// `s` left-padded with `0` to `w` characters.
pub open spec fn zero_pad(s: Seq<char>, w: nat) -> Seq<char> {
    if s.len() >= w {
        s
    } else {
        Seq::new((w - s.len()) as nat, |i: int| '0') + s
    }
}

/// `format!("{n:0w$}")`: the sign, then the digits, zero-padded to `w`
/// characters in all.
pub open spec fn padded_int(n: int, w: nat) -> Seq<char> {
    if n >= 0 {
        zero_pad(decimal(n as nat), w)
    } else {
        seq!['-'] + zero_pad(decimal((-n) as nat), if w >= 1 { (w - 1) as nat } else { 0 })
    }
}

/// The `YYYYMMDD` text of a day count.
pub open spec fn yyyymmdd(days: int) -> Seq<char> {
    let (y, m, d) = civil_of_days(days);
    padded_int(y, 4) + padded_int(m, 2) + padded_int(d, 2)
}

fn zero_pad_exec(digits: Vec<char>, w: usize) -> (r: Vec<char>)
    ensures
        r@ == zero_pad(digits@, w as nat),
{
    if digits.len() >= w {
        return digits;
    }
    let mut out: Vec<char> = Vec::new();
    let fill = w - digits.len();
    let mut k: usize = 0;
    while k < fill
        invariant
            k <= fill,
            out@ == Seq::new(k as nat, |i: int| '0'),
        decreases fill - k,
    {
        out.push('0');
        assert(out@ =~= Seq::new((k + 1) as nat, |i: int| '0'));
        k = k + 1;
    }
    let mut j: usize = 0;
    let ghost base = out@;
    while j < digits.len()
        invariant
            j <= digits.len(),
            out@ == base + digits@.subrange(0, j as int),
        decreases digits.len() - j,
    {
        out.push(digits[j]);
        assert(base + digits@.subrange(0, j as int + 1) =~= (base + digits@.subrange(0, j as int)).push(digits@[j as int]));
        j = j + 1;
    }
    assert(digits@.subrange(0, digits.len() as int) =~= digits@);
    out
}

fn padded_int_exec(n: i64, w: usize) -> (r: Vec<char>)
    requires
        n > i64::MIN,
        w >= 1,
    ensures
        r@ == padded_int(n as int, w as nat),
{
    if n >= 0 {
        zero_pad_exec(chars_of(decimal_string(n as u64).as_str()), w)
    } else {
        let digits = zero_pad_exec(chars_of(decimal_string((-n) as u64).as_str()), w - 1);
        let mut out: Vec<char> = Vec::new();
        out.push('-');
        let mut j: usize = 0;
        while j < digits.len()
            invariant
                j <= digits.len(),
                out@ == seq!['-'] + digits@.subrange(0, j as int),
            decreases digits.len() - j,
        {
            out.push(digits[j]);
            assert(seq!['-'] + digits@.subrange(0, j as int + 1) =~= (seq!['-'] + digits@.subrange(0, j as int)).push(
                digits@[j as int],
            ));
            j = j + 1;
        }
        assert(digits@.subrange(0, digits.len() as int) =~= digits@);
        out
    }
}

/// The `YYYYMMDD` text of a day count (as `format!("{year:04}{month:02}{day:02}")`).
pub fn format_yyyymmdd(days: i64) -> (r: String)
    requires
        -100_000_000_000 <= days <= 100_000_000_000,
    ensures
        r@ == yyyymmdd(days as int),
{
    let (year, month, day) = civil_from_days(days);
    let mut out = padded_int_exec(year as i64, 4);
    let mut m = padded_int_exec(month as i64, 2);
    let mut d = padded_int_exec(day as i64, 2);
    let ghost first = out@;
    let ghost mv = m@;
    let ghost dv = d@;
    out.append(&mut m);
    out.append(&mut d);
    assert(out@ =~= first + mv + dv);
    string_from_chars(&out)
}

} // verus!
