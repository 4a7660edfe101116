//! Wall-clock timestamps: conversion between epoch milliseconds and RFC 3339
//! text, both directions verified against the same civil calendar.

use vstd::prelude::*;
use crate::text::{
    char_of_digit, dec_chars, digit_val, digits_prefix_len, is_digit_char, val_of_digits,
    lemma_dec_chars_are_digits, lemma_val_of_dec_chars, lemma_digits_prefix_len_exact, u64_to_dec,
    push_all,
};

verus! {

/// Leap year rule of the Gregorian calendar.
pub open spec fn is_leap(y: int) -> bool {
    y % 4 == 0 && (y % 100 != 0 || y % 400 == 0)
}

/// Days in a year.
pub open spec fn days_in_year(y: int) -> int {
    if is_leap(y) {
        366
    } else {
        365
    }
}

/// Days in a month.
pub open spec fn days_in_month(y: int, m: int) -> int {
    if m == 1 {
        31
    } else if m == 2 {
        if is_leap(y) {
            29
        } else {
            28
        }
    } else if m == 3 {
        31
    } else if m == 4 {
        30
    } else if m == 5 {
        31
    } else if m == 6 {
        30
    } else if m == 7 {
        31
    } else if m == 8 {
        31
    } else if m == 9 {
        30
    } else if m == 10 {
        31
    } else if m == 11 {
        30
    } else {
        31
    }
}

/// Days of the year before month `m`.
pub open spec fn days_before_month(y: int, m: int) -> int
    decreases m,
{
    if m <= 1 {
        0
    } else {
        days_before_month(y, m - 1) + days_in_month(y, m - 1)
    }
}

/// Days between the epoch and the start of year `y`.
pub open spec fn days_before_year(y: int) -> int
    decreases y,
{
    if y <= 1970 {
        0
    } else {
        days_before_year(y - 1) + days_in_year(y - 1)
    }
}

/// Days between the epoch and a civil date.
pub open spec fn civil_to_days(y: int, m: int, d: int) -> int {
    days_before_year(y) + days_before_month(y, m) + (d - 1)
}

/// A valid civil date at or after the epoch.
pub open spec fn valid_civil(y: int, m: int, d: int) -> bool {
    y >= 1970 && 1 <= m <= 12 && 1 <= d <= days_in_month(y, m)
}

/// A year has as many days as its twelve months.
pub proof fn lemma_year_months(y: int)
    ensures
        days_before_month(y, 13) == days_in_year(y),
{
    assert(days_before_month(y, 1) == 0);
    assert(days_before_month(y, 2) == 31);
    assert(days_before_month(y, 3) == days_before_month(y, 2) + days_in_month(y, 2));
    assert(days_before_month(y, 4) == days_before_month(y, 3) + 31);
    assert(days_before_month(y, 5) == days_before_month(y, 4) + 30);
    assert(days_before_month(y, 6) == days_before_month(y, 5) + 31);
    assert(days_before_month(y, 7) == days_before_month(y, 6) + 30);
    assert(days_before_month(y, 8) == days_before_month(y, 7) + 31);
    assert(days_before_month(y, 9) == days_before_month(y, 8) + 31);
    assert(days_before_month(y, 10) == days_before_month(y, 9) + 30);
    assert(days_before_month(y, 11) == days_before_month(y, 10) + 31);
    assert(days_before_month(y, 12) == days_before_month(y, 11) + 30);
    assert(days_before_month(y, 13) == days_before_month(y, 12) + 31);
}

/// `days_before_year` grows strictly with the year.
pub proof fn lemma_before_year_monotone(y1: int, y2: int)
    requires
        1970 <= y1 < y2,
    ensures
        days_before_year(y1) < days_before_year(y2),
        days_before_year(y1) + 365 <= days_before_year(y2),
    decreases y2 - y1,
{
    if y1 + 1 < y2 {
        lemma_before_year_monotone(y1 + 1, y2);
    }
}

/// Days in a year, executable form.
pub fn days_in_year_exec(y: u64) -> (r: u64)
    ensures
        r == days_in_year(y as int),
{
    if y % 4 == 0 && (y % 100 != 0 || y % 400 == 0) {
        366
    } else {
        365
    }
}

/// Days in a month, executable form.
pub fn days_in_month_exec(y: u64, m: u64) -> (r: u64)
    ensures
        r == days_in_month(y as int, m as int),
{
    if m == 1 {
        31
    } else if m == 2 {
        if y % 4 == 0 && (y % 100 != 0 || y % 400 == 0) {
            29
        } else {
            28
        }
    } else if m == 3 {
        31
    } else if m == 4 {
        30
    } else if m == 5 {
        31
    } else if m == 6 {
        30
    } else if m == 7 {
        31
    } else if m == 8 {
        31
    } else if m == 9 {
        30
    } else if m == 10 {
        31
    } else if m == 11 {
        30
    } else {
        31
    }
}

/// The civil date `days` days after the epoch: the unique valid date whose
/// day number is `days`.
pub fn days_to_civil(days: u64) -> (r: (u64, u64, u64))
    requires
        days <= 400_000_000_000,
    ensures
        valid_civil(r.0 as int, r.1 as int, r.2 as int),
        civil_to_days(r.0 as int, r.1 as int, r.2 as int) == days,
{
    let mut y: u64 = 1970;
    let mut rem: u64 = days;
    while rem >= days_in_year_exec(y)
        invariant
            1970 <= y,
            y <= 1970 + days,
            rem <= days <= 400_000_000_000,
            days_before_year(y as int) + rem == days,
        decreases rem,
    {
        let diy = days_in_year_exec(y);
        rem = rem - diy;
        proof {
            lemma_before_year_lower(y as int + 1);
        }
        y = y + 1;
    }
    let mut m: u64 = 1;
    while rem >= days_in_month_exec(y, m)
        invariant
            1 <= m <= 12,
            1970 <= y <= 1970 + days,
            days_before_year(y as int) + days_before_month(y as int, m as int) + rem == days,
            days_before_month(y as int, m as int) + rem < days_in_year(y as int),
        decreases 12 - m,
    {
        let dim = days_in_month_exec(y, m);
        proof {
            if m == 12 {
                lemma_year_months(y as int);
                assert(false);
            }
        }
        rem = rem - dim;
        m = m + 1;
    }
    proof {
        assert(rem < days_in_month(y as int, m as int));
    }
    (y, m, rem + 1)
}

/// The two zero-padded decimal digits of a value below 100.
pub open spec fn two_digit_chars(n: int) -> Seq<char> {
    seq![char_of_digit(n / 10), char_of_digit(n % 10)]
}

/// The three zero-padded decimal digits of a value below 1000.
pub open spec fn three_digit_chars(n: int) -> Seq<char> {
    seq![char_of_digit(n / 100), char_of_digit(n / 10 % 10), char_of_digit(n % 10)]
}

/// Two zero-padded digits.
pub fn two_digits(n: u64) -> (r: Vec<char>)
    requires
        n < 100,
    ensures
        r@ == two_digit_chars(n as int),
{
    let mut v: Vec<char> = Vec::new();
    v.push((48 + (n / 10) as u8) as char);
    v.push((48 + (n % 10) as u8) as char);
    proof {
        assert(v@ =~= two_digit_chars(n as int));
    }
    v
}

/// Three zero-padded digits.
pub fn three_digits(n: u64) -> (r: Vec<char>)
    requires
        n < 1000,
    ensures
        r@ == three_digit_chars(n as int),
{
    let mut v: Vec<char> = Vec::new();
    v.push((48 + (n / 100) as u8) as char);
    v.push((48 + (n / 10 % 10) as u8) as char);
    v.push((48 + (n % 10) as u8) as char);
    proof {
        assert(v@ =~= three_digit_chars(n as int));
    }
    v
}

/// Value of a fixed group of digit characters.
pub open spec fn group_val(s: Seq<char>, from: int, len: int) -> int {
    val_of_digits(s.subrange(from, from + len)) as int
}

/// Every character of the group is a digit.
pub open spec fn group_digits(s: Seq<char>, from: int, len: int) -> bool {
    forall|i: int| from <= i < from + len ==> is_digit_char(#[trigger] s[i])
}

/// What an RFC 3339 timestamp text denotes, in epoch milliseconds: the year
/// digits, then `-MM-DDTHH:MM:SS.mmmZ` at fixed offsets.
pub open spec fn spec_parse_timestamp(s: Seq<char>) -> Option<u64> {
    let k = digits_prefix_len(s);
    if k >= 1 && s.len() == k + 20 && s[k] == '-' && s[k + 3] == '-' && s[k + 6] == 'T' && s[k + 9]
        == ':' && s[k + 12] == ':' && s[k + 15] == '.' && s[k + 19] == 'Z' && group_digits(
        s,
        k + 1,
        2,
    ) && group_digits(s, k + 4, 2) && group_digits(s, k + 7, 2) && group_digits(s, k + 10, 2)
        && group_digits(s, k + 13, 2) && group_digits(s, k + 16, 3) {
        let y = val_of_digits(s.take(k)) as int;
        let m = group_val(s, k + 1, 2);
        let d = group_val(s, k + 4, 2);
        let hh = group_val(s, k + 7, 2);
        let mi = group_val(s, k + 10, 2);
        let ss = group_val(s, k + 13, 2);
        let mmm = group_val(s, k + 16, 3);
        if valid_civil(y, m, d) && hh < 24 && mi < 60 && ss < 60 {
            let total = civil_to_days(y, m, d) * 86_400_000 + hh * 3_600_000 + mi * 60_000 + ss
                * 1000 + mmm;
            if total <= u64::MAX {
                Some(total as u64)
            } else {
                None
            }
        } else {
            None
        }
    } else {
        None
    }
}

/// A character the timestamp text may hold.
pub open spec fn is_timestamp_char(c: char) -> bool {
    is_digit_char(c) || c == '-' || c == ':' || c == '.' || c == 'T' || c == 'Z'
}

/// Formats epoch milliseconds as RFC 3339 text, `YYYY-MM-DDTHH:MM:SS.mmmZ`
/// (with more year digits past the year 9999). Parsing the text yields the
/// input back.
pub fn format_timestamp(ms: u64) -> (r: Vec<char>)
    ensures
        spec_parse_timestamp(r@) == Some(ms),
        forall|i: int| 0 <= i < r@.len() ==> is_timestamp_char(#[trigger] r@[i]),
        r@.len() >= 21,
{
    let days: u64 = ms / 86_400_000;
    let msod: u64 = ms % 86_400_000;
    proof {
        vstd::arithmetic::div_mod::lemma_fundamental_div_mod(ms as int, 86_400_000);
        assert(days <= 400_000_000_000) by (nonlinear_arith)
            requires
                days == ms as int / 86_400_000,
                ms <= u64::MAX,
        ;
    }
    let (y, m, d) = days_to_civil(days);
    let hh: u64 = msod / 3_600_000;
    let mi: u64 = (msod % 3_600_000) / 60_000;
    let ss: u64 = (msod % 60_000) / 1000;
    let mmm: u64 = msod % 1000;
    proof {
        lemma_time_of_day(msod);
    }
    let mut v = u64_to_dec(y);
    let ghost ylen = v@.len() as int;
    v.push('-');
    let g1 = two_digits(m);
    push_all(&mut v, &g1);
    v.push('-');
    let g2 = two_digits(d);
    push_all(&mut v, &g2);
    v.push('T');
    let g3 = two_digits(hh);
    push_all(&mut v, &g3);
    v.push(':');
    let g4 = two_digits(mi);
    push_all(&mut v, &g4);
    v.push(':');
    let g5 = two_digits(ss);
    push_all(&mut v, &g5);
    v.push('.');
    let g6 = three_digits(mmm);
    push_all(&mut v, &g6);
    v.push('Z');
    proof {
        assert(v@ =~= dec_chars(y as nat) + seq!['-'] + two_digit_chars(m as int) + seq!['-']
            + two_digit_chars(d as int) + seq!['T'] + two_digit_chars(hh as int) + seq![':']
            + two_digit_chars(mi as int) + seq![':'] + two_digit_chars(ss as int) + seq!['.']
            + three_digit_chars(mmm as int) + seq!['Z']);
        lemma_format_parses(v@, y, m, d, hh, mi, ss, mmm, ms);
    }
    v
}

/// Decomposing milliseconds of one day into hours, minutes, seconds and
/// milliseconds.
proof fn lemma_time_of_day(msod: u64)
    requires
        msod < 86_400_000,
    ensures
        msod / 3_600_000 < 24,
        (msod % 3_600_000) / 60_000 < 60,
        (msod % 60_000) / 1000 < 60,
        msod % 1000 < 1000,
        (msod / 3_600_000) * 3_600_000 + ((msod % 3_600_000) / 60_000) * 60_000 + ((msod % 60_000)
            / 1000) * 1000 + msod % 1000 == msod,
{
    let h = msod as int / 3_600_000;
    let rh = msod as int % 3_600_000;
    let mi = rh / 60_000;
    let rm2 = msod as int % 60_000;
    let ss = rm2 / 1000;
    let mmm = msod as int % 1000;
    vstd::arithmetic::div_mod::lemma_fundamental_div_mod(msod as int, 3_600_000);
    vstd::arithmetic::div_mod::lemma_fundamental_div_mod(rh, 60_000);
    vstd::arithmetic::div_mod::lemma_fundamental_div_mod(rm2, 1000);
    assert(rh % 60_000 == msod as int % 60_000) by (nonlinear_arith)
        requires
            rh == msod as int % 3_600_000,
    ;
    assert(rm2 % 1000 == msod as int % 1000) by (nonlinear_arith)
        requires
            rm2 == msod as int % 60_000,
    ;
    assert(h < 24 && mi < 60 && ss < 60) by (nonlinear_arith)
        requires
            msod < 86_400_000,
            h == msod as int / 3_600_000,
            mi == rh / 60_000,
            ss == rm2 / 1000,
            0 <= rh < 3_600_000,
            0 <= rm2 < 60_000,
    ;
    assert(h * 3_600_000 + mi * 60_000 + ss * 1000 + mmm == msod) by (nonlinear_arith)
        requires
            msod == 3_600_000 * h + rh,
            rh == 60_000 * mi + (msod as int % 60_000),
            rm2 == msod as int % 60_000,
            rm2 == 1000 * ss + (msod as int % 1000),
            mmm == msod as int % 1000,
    ;
}

/// The formatted pieces parse back to the original instant.
#[verifier::rlimit(60)]
#[verifier::spinoff_prover]
proof fn lemma_format_parses(
    s: Seq<char>,
    y: u64,
    m: u64,
    d: u64,
    hh: u64,
    mi: u64,
    ss: u64,
    mmm: u64,
    ms: u64,
)
    requires
        valid_civil(y as int, m as int, d as int),
        hh < 24,
        mi < 60,
        ss < 60,
        mmm < 1000,
        civil_to_days(y as int, m as int, d as int) * 86_400_000 + hh * 3_600_000 + mi * 60_000
            + ss * 1000 + mmm == ms,
        s == dec_chars(y as nat) + seq!['-'] + two_digit_chars(m as int) + seq!['-']
            + two_digit_chars(d as int) + seq!['T'] + two_digit_chars(hh as int) + seq![':']
            + two_digit_chars(mi as int) + seq![':'] + two_digit_chars(ss as int) + seq!['.']
            + three_digit_chars(mmm as int) + seq!['Z'],
    ensures
        spec_parse_timestamp(s) == Some(ms),
        forall|i: int| 0 <= i < s.len() ==> is_timestamp_char(#[trigger] s[i]),
        s.len() >= 21,
{
    let yc = dec_chars(y as nat);
    let k = yc.len() as int;
    lemma_dec_chars_are_digits(y as nat);
    lemma_val_of_dec_chars(y as nat);
    assert(s.len() == k + 20);
    assert(forall|i: int| 0 <= i < k ==> is_digit_char(#[trigger] s[i])) by {
        assert(forall|i: int| 0 <= i < k ==> s[i] == yc[i]);
    }
    assert(s[k] == '-');
    lemma_digits_prefix_len_exact(s, k);
    assert(s.take(k) =~= yc);
    // the fixed groups
    assert(s[k + 1] == char_of_digit(m as int / 10) && s[k + 2] == char_of_digit(m as int % 10));
    assert(s.subrange(k + 1, k + 3) =~= two_digit_chars(m as int));
    assert(s[k + 3] == '-');
    assert(s.subrange(k + 4, k + 6) =~= two_digit_chars(d as int));
    assert(s[k + 6] == 'T');
    assert(s.subrange(k + 7, k + 9) =~= two_digit_chars(hh as int));
    assert(s[k + 9] == ':');
    assert(s.subrange(k + 10, k + 12) =~= two_digit_chars(mi as int));
    assert(s[k + 12] == ':');
    assert(s.subrange(k + 13, k + 15) =~= two_digit_chars(ss as int));
    assert(s[k + 15] == '.');
    assert(s.subrange(k + 16, k + 19) =~= three_digit_chars(mmm as int));
    assert(s[k + 19] == 'Z');
    lemma_two_digit_val(m as int);
    lemma_two_digit_val(d as int);
    lemma_two_digit_val(hh as int);
    lemma_two_digit_val(mi as int);
    lemma_two_digit_val(ss as int);
    lemma_three_digit_val(mmm as int);
    assert(group_digits(s, k + 1, 2) && group_val(s, k + 1, 2) == m) by {
        assert(s.subrange(k + 1, k + 3) == two_digit_chars(m as int));
    }
    assert(group_digits(s, k + 4, 2) && group_val(s, k + 4, 2) == d);
    assert(group_digits(s, k + 7, 2) && group_val(s, k + 7, 2) == hh);
    assert(group_digits(s, k + 10, 2) && group_val(s, k + 10, 2) == mi);
    assert(group_digits(s, k + 13, 2) && group_val(s, k + 13, 2) == ss);
    assert(group_digits(s, k + 16, 3) && group_val(s, k + 16, 3) == mmm);
    assert(val_of_digits(s.take(k)) == y);
    assert(forall|i: int| 0 <= i < s.len() ==> is_timestamp_char(#[trigger] s[i])) by {
        assert(forall|i: int| 0 <= i < k ==> is_digit_char(#[trigger] s[i]));
        assert(is_digit_char(char_of_digit(m as int / 10)));
    }
}

/// A two-digit group reads back its value; its characters are digits.
proof fn lemma_two_digit_val(n: int)
    requires
        0 <= n < 100,
    ensures
        val_of_digits(two_digit_chars(n)) == n,
        forall|i: int| 0 <= i < 2 ==> is_digit_char(#[trigger] two_digit_chars(n)[i]),
{
    let s = two_digit_chars(n);
    let s1 = seq![char_of_digit(n / 10)];
    assert(s.drop_last() =~= s1);
    assert(s1.drop_last() =~= Seq::<char>::empty());
    assert(val_of_digits(s1.drop_last()) == 0);
    assert(val_of_digits(s1) == val_of_digits(s1.drop_last()) * 10 + (digit_val(s1.last()) as nat));
    assert(digit_val(char_of_digit(n / 10)) == n / 10);
    assert(val_of_digits(s) == val_of_digits(s.drop_last()) * 10 + (digit_val(s.last()) as nat));
    assert(digit_val(char_of_digit(n % 10)) == n % 10);
}

/// A three-digit group reads back its value; its characters are digits.
proof fn lemma_three_digit_val(n: int)
    requires
        0 <= n < 1000,
    ensures
        val_of_digits(three_digit_chars(n)) == n,
        forall|i: int| 0 <= i < 3 ==> is_digit_char(#[trigger] three_digit_chars(n)[i]),
{
    let s = three_digit_chars(n);
    assert(s.drop_last() =~= seq![char_of_digit(n / 100), char_of_digit(n / 10 % 10)]);
    lemma_two_digit_val(n / 10);
    assert(two_digit_chars(n / 10) =~= s.drop_last()) by {
        assert(n / 10 / 10 == n / 100) by (nonlinear_arith);
    }
    assert(digit_val(char_of_digit(n % 10)) == n % 10);
    assert(val_of_digits(s) == val_of_digits(s.drop_last()) * 10 + n % 10);
    assert((n / 10) * 10 + n % 10 == n) by (nonlinear_arith);
}


/// Digit groups shift between a subrange and the underlying sequence.
proof fn lemma_group_digits_shift(v: Seq<char>, from: int, to: int, off: int, len: int)
    requires
        0 <= from <= to <= v.len(),
        0 <= off,
        0 <= len,
        off + len <= to - from,
    ensures
        group_digits(v.subrange(from, to), off, len) == group_digits(v, from + off, len),
{
    let s = v.subrange(from, to);
    if group_digits(s, off, len) {
        assert forall|i: int| from + off <= i < from + off + len implies is_digit_char(
            #[trigger] v[i],
        ) by {
            assert(s[i - from] == v[i]);
            assert(is_digit_char(s[i - from]));
        }
    }
    if group_digits(v, from + off, len) {
        assert forall|i: int| off <= i < off + len implies is_digit_char(#[trigger] s[i]) by {
            assert(s[i] == v[from + i]);
            assert(is_digit_char(v[from + i]));
        }
    }
}

/// Parses RFC 3339 text back to epoch milliseconds.
pub fn parse_timestamp(v: &Vec<char>, from: usize, to: usize) -> (r: Option<u64>)
    requires
        from <= to <= v@.len(),
    ensures
        r == spec_parse_timestamp(v@.subrange(from as int, to as int)),
{
    let ghost s = v@.subrange(from as int, to as int);
    let k = crate::text::scan_digits_range(v, from, to);
    proof {
        assert(digits_prefix_len(s) == k - from);
    }
    if k == from || to - k != 20 {
        return None;
    }
    if !(v[k] == '-' && v[k + 3] == '-' && v[k + 6] == 'T' && v[k + 9] == ':' && v[k + 12] == ':'
        && v[k + 15] == '.' && v[k + 19] == 'Z') {
        return None;
    }
    let m = match fixed_group(v, k + 1, 2) {
        Some(x) => x,
        None => {
            proof {
                lemma_group_digits_shift(v@, from as int, to as int, (k - from) as int + 1, 2);
            }
            return None;
        },
    };
    proof {
        lemma_group_digits_shift(v@, from as int, to as int, (k - from) as int + 1, 2);
        assert(group_val(s, (k - from) as int + 1, 2) == m) by {
            assert(s.subrange((k - from) as int + 1, (k - from) as int + 3) =~= v@.subrange(
                k as int + 1,
                k as int + 3,
            ));
        }
    }
    let d = match fixed_group(v, k + 4, 2) {
        Some(x) => x,
        None => {
            proof {
                lemma_group_digits_shift(v@, from as int, to as int, (k - from) as int + 4, 2);
            }
            return None;
        },
    };
    proof {
        lemma_group_digits_shift(v@, from as int, to as int, (k - from) as int + 4, 2);
        assert(group_val(s, (k - from) as int + 4, 2) == d) by {
            assert(s.subrange((k - from) as int + 4, (k - from) as int + 6) =~= v@.subrange(
                k as int + 4,
                k as int + 6,
            ));
        }
    }
    let hh = match fixed_group(v, k + 7, 2) {
        Some(x) => x,
        None => {
            proof {
                lemma_group_digits_shift(v@, from as int, to as int, (k - from) as int + 7, 2);
            }
            return None;
        },
    };
    proof {
        lemma_group_digits_shift(v@, from as int, to as int, (k - from) as int + 7, 2);
        assert(group_val(s, (k - from) as int + 7, 2) == hh) by {
            assert(s.subrange((k - from) as int + 7, (k - from) as int + 9) =~= v@.subrange(
                k as int + 7,
                k as int + 9,
            ));
        }
    }
    let mi = match fixed_group(v, k + 10, 2) {
        Some(x) => x,
        None => {
            proof {
                lemma_group_digits_shift(v@, from as int, to as int, (k - from) as int + 10, 2);
            }
            return None;
        },
    };
    proof {
        lemma_group_digits_shift(v@, from as int, to as int, (k - from) as int + 10, 2);
        assert(group_val(s, (k - from) as int + 10, 2) == mi) by {
            assert(s.subrange((k - from) as int + 10, (k - from) as int + 12) =~= v@.subrange(
                k as int + 10,
                k as int + 12,
            ));
        }
    }
    let ss = match fixed_group(v, k + 13, 2) {
        Some(x) => x,
        None => {
            proof {
                lemma_group_digits_shift(v@, from as int, to as int, (k - from) as int + 13, 2);
            }
            return None;
        },
    };
    proof {
        lemma_group_digits_shift(v@, from as int, to as int, (k - from) as int + 13, 2);
        assert(group_val(s, (k - from) as int + 13, 2) == ss) by {
            assert(s.subrange((k - from) as int + 13, (k - from) as int + 15) =~= v@.subrange(
                k as int + 13,
                k as int + 15,
            ));
        }
    }
    let mmm = match fixed_group(v, k + 16, 3) {
        Some(x) => x,
        None => {
            proof {
                lemma_group_digits_shift(v@, from as int, to as int, (k - from) as int + 16, 3);
            }
            return None;
        },
    };
    proof {
        lemma_group_digits_shift(v@, from as int, to as int, (k - from) as int + 16, 3);
        assert(group_val(s, (k - from) as int + 16, 3) == mmm) by {
            assert(s.subrange((k - from) as int + 16, (k - from) as int + 19) =~= v@.subrange(
                k as int + 16,
                k as int + 19,
            ));
        }
    }
    // the year digits
    let ydigits = crate::ip::sub_chars(v, from, k);
    proof {
        assert(s.take((k - from) as int) =~= v@.subrange(from as int, k as int));
        assert(forall|i: int| 0 <= i < ydigits@.len() ==> is_digit_char(#[trigger] ydigits@[i]))
            by {
            assert(forall|i: int| 0 <= i < ydigits@.len() ==> ydigits@[i] == v@[from + i]);
        }
    }
    let yval = match digits_to_u64(&ydigits) {
        Some(x) => x,
        None => {
            proof {
                lemma_parse_needs_small_year(s, (k - from) as int);
            }
            return None;
        },
    };
    if yval < 1970 || yval > 1_500_000_000 {
        proof {
            if yval > 1_500_000_000 {
                lemma_big_year_overflows(s, (k - from) as int, yval);
            }
        }
        return None;
    }
    let dim = days_in_month_exec(yval, m);
    if !(1 <= m && m <= 12 && 1 <= d && d <= dim && hh < 24 && mi < 60 && ss < 60) {
        return None;
    }
    let days = civil_days_exec(yval, m, d);
    let total_ms: u128 = (days as u128) * 86_400_000 + (hh as u128) * 3_600_000 + (mi as u128)
        * 60_000 + (ss as u128) * 1000 + (mmm as u128);
    if total_ms > 0xffff_ffff_ffff_ffff {
        return None;
    }
    Some(total_ms as u64)
}

/// Value of the fixed digit group `v[from..from+len]`, when all digits.
fn fixed_group(v: &Vec<char>, from: usize, len: usize) -> (r: Option<u64>)
    requires
        from + len <= v@.len(),
        len <= 3,
    ensures
        match r {
            Some(x) => group_digits(v@, from as int, len as int) && x == val_of_digits(
                v@.subrange(from as int, from as int + len as int),
            ) && x < 1000,
            None => !group_digits(v@, from as int, len as int),
        },
{
    let n = v.len();
    let mut val: u64 = 0;
    let mut i: usize = 0;
    proof {
        assert(v@.subrange(from as int, from as int) =~= Seq::<char>::empty());
    }
    while i < len
        invariant
            i <= len <= 3,
            from + len <= n,
            n == v@.len(),
            forall|t: int| from <= t < from + i ==> is_digit_char(#[trigger] v@[t]),
            val == val_of_digits(v@.subrange(from as int, from as int + i as int)),
            val < if i == 0 {
                1int
            } else if i == 1 {
                10int
            } else if i == 2 {
                100int
            } else {
                1000int
            },
        decreases len - i,
    {
        let c = v[from + i];
        if !crate::text::is_digit(c) {
            return None;
        }
        proof {
            assert(v@.subrange(from as int, from as int + i as int + 1).drop_last() =~= v@.subrange(
                from as int,
                from as int + i as int,
            ));
            assert(v@.subrange(from as int, from as int + i as int + 1).last() == v@[from + i]);
        }
        val = val * 10 + ((c as u32 - 48) as u64);
        i = i + 1;
    }
    Some(val)
}

/// Digit characters to a value, when it fits.
fn digits_to_u64(g: &Vec<char>) -> (r: Option<u64>)
    requires
        forall|i: int| 0 <= i < g@.len() ==> is_digit_char(#[trigger] g@[i]),
    ensures
        match r {
            Some(x) => x == val_of_digits(g@),
            None => val_of_digits(g@) > u64::MAX,
        },
{
    let mut val: u64 = 0;
    let mut i: usize = 0;
    proof {
        assert(g@.take(0) =~= Seq::<char>::empty());
    }
    while i < g.len()
        invariant
            i <= g@.len(),
            forall|t: int| 0 <= t < g@.len() ==> is_digit_char(#[trigger] g@[t]),
            val == val_of_digits(g@.take(i as int)),
        decreases g@.len() - i,
    {
        let c = g[i];
        proof {
            assert(g@.take(i as int + 1).drop_last() =~= g@.take(i as int));
            assert(g@.take(i as int + 1).last() == g@[i as int]);
        }
        let digit = (c as u32 - 48) as u64;
        if val > (0xffff_ffff_ffff_ffff - digit) / 10 {
            proof {
                assert(val_of_digits(g@.take(i as int + 1)) > u64::MAX) by (nonlinear_arith)
                    requires
                        val_of_digits(g@.take(i as int + 1)) == val * 10 + digit,
                        val > (0xffff_ffff_ffff_ffffu64 - digit) / 10,
                        digit <= 9,
                ;
                lemma_val_take_monotone(g@, i as int + 1);
            }
            return None;
        }
        proof {
            assert(val * 10 + digit <= u64::MAX) by (nonlinear_arith)
                requires
                    val <= (0xffff_ffff_ffff_ffffu64 - digit) / 10,
                    digit <= 9,
            ;
        }
        val = val * 10 + digit;
        i = i + 1;
    }
    proof {
        assert(g@.take(g@.len() as int) =~= g@);
    }
    Some(val)
}

/// Digit prefixes never exceed the whole value.
proof fn lemma_val_take_monotone(s: Seq<char>, t: int)
    requires
        0 <= t <= s.len(),
        forall|i: int| 0 <= i < s.len() ==> is_digit_char(#[trigger] s[i]),
    ensures
        val_of_digits(s.take(t)) <= val_of_digits(s),
    decreases s.len() - t,
{
    if t < s.len() {
        lemma_val_take_monotone(s, t + 1);
        let a = s.take(t);
        let b = s.take(t + 1);
        assert(b.drop_last() =~= a);
        assert(val_of_digits(b) == val_of_digits(a) * 10 + (digit_val(b.last()) as nat));
    } else {
        assert(s.take(t) =~= s);
    }
}

/// A year text whose value does not fit 64 bits denotes no timestamp.
proof fn lemma_parse_needs_small_year(s: Seq<char>, k: int)
    requires
        digits_prefix_len(s) == k,
        0 <= k <= s.len(),
        val_of_digits(s.take(k)) > u64::MAX,
    ensures
        (spec_parse_timestamp(s) matches None),
{
    if spec_parse_timestamp(s) is Some {
        assert(valid_civil(val_of_digits(s.take(k)) as int, group_val(s, k + 1, 2), group_val(
            s,
            k + 4,
            2,
        )));
        let y = val_of_digits(s.take(k)) as int;
        lemma_civil_days_lower(y);
        assert(civil_to_days(y, group_val(s, k + 1, 2), group_val(s, k + 4, 2)) * 86_400_000
            > u64::MAX) by (nonlinear_arith)
            requires
                civil_to_days(y, group_val(s, k + 1, 2), group_val(s, k + 4, 2)) >= 365 * (y - 1970),
                y > u64::MAX,
        ;
        assert(false);
    }
}

/// A huge year's instant exceeds 64 bits of milliseconds.
proof fn lemma_big_year_overflows(s: Seq<char>, k: int, y: u64)
    requires
        digits_prefix_len(s) == k,
        0 <= k <= s.len(),
        val_of_digits(s.take(k)) == y,
        y > 1_500_000_000,
    ensures
        (spec_parse_timestamp(s) matches None),
{
    if spec_parse_timestamp(s) is Some {
        lemma_civil_days_lower(y as int);
        assert(civil_to_days(y as int, group_val(s, k + 1, 2), group_val(s, k + 4, 2)) * 86_400_000
            > u64::MAX) by (nonlinear_arith)
            requires
                civil_to_days(y as int, group_val(s, k + 1, 2), group_val(s, k + 4, 2)) >= 365 * (
                y - 1970),
                y > 1_500_000_000,
        ;
        assert(false);
    }
}

/// Valid dates in year `y` lie at least `365 * (y - 1970)` days after the
/// epoch.
proof fn lemma_civil_days_lower(y: int)
    requires
        y >= 1970,
    ensures
        forall|m: int, d: int|
            valid_civil(y, m, d) ==> #[trigger] civil_to_days(y, m, d) >= 365 * (y - 1970),
{
    lemma_before_year_lower(y);
    assert forall|m: int, d: int| valid_civil(y, m, d) implies #[trigger] civil_to_days(y, m, d)
        >= 365 * (y - 1970) by {
        lemma_before_month_nonneg(y, m);
    }
}

proof fn lemma_before_year_lower(y: int)
    requires
        y >= 1970,
    ensures
        days_before_year(y) >= 365 * (y - 1970),
    decreases y,
{
    if y > 1970 {
        lemma_before_year_lower(y - 1);
    }
}

proof fn lemma_before_month_nonneg(y: int, m: int)
    requires
        m >= 1,
    ensures
        days_before_month(y, m) >= 0,
    decreases m,
{
    if m > 1 {
        lemma_before_month_nonneg(y, m - 1);
    }
}

/// Days after the epoch of a valid civil date, executable form.
pub fn civil_days_exec(y: u64, m: u64, d: u64) -> (r: u64)
    requires
        valid_civil(y as int, m as int, d as int),
        y <= 1_500_000_000,
    ensures
        r == civil_to_days(y as int, m as int, d as int),
{
    let mut acc: u64 = 0;
    let mut yy: u64 = 1970;
    while yy < y
        invariant
            1970 <= yy <= y <= 1_500_000_000,
            acc == days_before_year(yy as int),
            acc <= 366 * (yy - 1970),
        decreases y - yy,
    {
        proof {
            assert(acc + 366 <= 366 * (yy + 1 - 1970)) by (nonlinear_arith)
                requires
                    acc <= 366 * (yy - 1970),
                    yy >= 1970,
            ;
        }
        acc = acc + days_in_year_exec(yy);
        yy = yy + 1;
    }
    let mut mm: u64 = 1;
    let mut macc: u64 = 0;
    while mm < m
        invariant
            1 <= mm <= m <= 12,
            macc == days_before_month(y as int, mm as int),
            macc <= 31 * (mm - 1),
        decreases m - mm,
    {
        macc = macc + days_in_month_exec(y, mm);
        mm = mm + 1;
    }
    proof {
        assert(acc <= 366 * (1_500_000_000u64 - 1970)) by (nonlinear_arith)
            requires
                acc <= 366 * (y - 1970),
                y <= 1_500_000_000u64,
        ;
    }
    acc + macc + (d - 1)
}

/// Formats epoch milliseconds as an RFC 3339 string.
pub fn rfc3339_string(ms: u64) -> (r: String)
    ensures
        spec_parse_timestamp(r@) == Some(ms),
{
    let v = format_timestamp(ms);
    crate::text::string_from_chars(&v)
}

} // verus!
