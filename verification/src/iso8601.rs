//! The ISO-8601 interchange grammar: a strict and a lenient parser, and the
//! matching formatter.
//!
//! Strict form: `YYYY-MM-DDTHH:MM:SS[.fraction]Z`, with a mandatory `Z`
//! suffix and an optional fraction of one to nine digits. The lenient form
//! additionally allows a single space in place of `T`, a missing `:SS`
//! (read as zero seconds), and a missing trailing `Z`.
use vstd::prelude::*;
use vstd::arithmetic::div_mod::lemma_fundamental_div_mod;
use vstd::arithmetic::div_mod::lemma_div_is_ordered;
use vstd::arithmetic::div_mod::lemma_div_pos_is_pos;
use vstd::arithmetic::div_mod::lemma_mod_bound;
use vstd::arithmetic::div_mod::lemma_breakdown;
use vstd::arithmetic::div_mod::lemma_div_denominator;
use vstd::arithmetic::div_mod::lemma_mod_mod;
use crate::Timestamp;
use crate::error::Error;
use crate::error::ErrorKind;
use crate::gregorian::NANOS_PER_DAY;
use crate::gregorian::civil_of_day;
use crate::gregorian::civil_from_days;
use crate::gregorian::day_number;
use crate::gregorian::days_in_month_of;
use crate::gregorian::days_in_month;
use crate::gregorian::days_from_civil;
use crate::gregorian::lemma_timestamp_day_in_range;
use crate::gregorian::split_days;
use vstd::string::StrSliceExecFns;
use vstd::string::StringExecFns;

verus! {

/// Whether a character is an ASCII decimal digit.
pub open spec fn is_digit(c: char) -> bool {
    48 <= c as u32 <= 57
}

/// The numeric value of an ASCII digit character.
pub open spec fn dg(c: char) -> int {
    c as u32 - 48
}

/// The ASCII character for a single decimal digit.
pub open spec fn digit_char(d: int) -> char {
    if d == 0 {
        '0'
    } else if d == 1 {
        '1'
    } else if d == 2 {
        '2'
    } else if d == 3 {
        '3'
    } else if d == 4 {
        '4'
    } else if d == 5 {
        '5'
    } else if d == 6 {
        '6'
    } else if d == 7 {
        '7'
    } else if d == 8 {
        '8'
    } else {
        '9'
    }
}

/// The value of the digit run `s[a..b]` read as a decimal number.
pub open spec fn digits_value(s: Seq<char>, a: int, b: int) -> int
    decreases b - a,
{
    if b <= a {
        0
    } else {
        digits_value(s, a, b - 1) * 10 + dg(s[b - 1])
    }
}

/// Ten to the power `k` (1 for nonpositive `k`).
pub open spec fn pow10(k: int) -> int
    decreases k,
{
    if k <= 0 {
        1
    } else {
        10 * pow10(k - 1)
    }
}

/// Where the fractional digit run ends: before a trailing `Z`, otherwise at
/// the end of the string.
pub open spec fn frac_end(s: Seq<char>) -> int {
    if s[s.len() - 1] == 'Z' {
        s.len() - 1
    } else {
        s.len() as int
    }
}

/// The grammar after the seconds field: nothing (lenient), a `Z`, or a
/// fraction of one to nine digits optionally followed by `Z` (the missing
/// `Z` again lenient only).
pub open spec fn sec_tail_shape(s: Seq<char>, lenient: bool) -> bool {
    if s.len() == 19 {
        lenient
    } else if s[19] == 'Z' {
        s.len() == 20
    } else if s[19] == '.' {
        let e = frac_end(s);
        &&& (e == s.len() ==> lenient)
        &&& 21 <= e <= 29
        &&& forall|i: int| 20 <= i < e ==> is_digit(#[trigger] s[i])
    } else {
        false
    }
}

/// The grammar after the minutes field: seconds with their tail, or (lenient
/// only) nothing or a bare `Z`.
pub open spec fn tail_shape(s: Seq<char>, lenient: bool) -> bool {
    if s.len() == 16 {
        lenient
    } else if s[16] == 'Z' {
        lenient && s.len() == 17
    } else if s[16] == ':' {
        &&& s.len() >= 19
        &&& is_digit(s[17]) && is_digit(s[18])
        &&& sec_tail_shape(s, lenient)
    } else {
        false
    }
}

/// The accepted shape of an ISO-8601 string, strict or lenient.
pub open spec fn shape(s: Seq<char>, lenient: bool) -> bool {
    &&& s.len() >= 16
    &&& is_digit(s[0]) && is_digit(s[1]) && is_digit(s[2]) && is_digit(s[3])
    &&& s[4] == '-'
    &&& is_digit(s[5]) && is_digit(s[6])
    &&& s[7] == '-'
    &&& is_digit(s[8]) && is_digit(s[9])
    &&& (s[10] == 'T' || (lenient && s[10] == ' '))
    &&& is_digit(s[11]) && is_digit(s[12])
    &&& s[13] == ':'
    &&& is_digit(s[14]) && is_digit(s[15])
    &&& tail_shape(s, lenient)
}

/// The two-digit number at positions `i`, `i + 1`.
pub open spec fn num2(s: Seq<char>, i: int) -> int {
    dg(s[i]) * 10 + dg(s[i + 1])
}

/// The year field of a well-shaped string.
pub open spec fn year_of_str(s: Seq<char>) -> int {
    dg(s[0]) * 1000 + dg(s[1]) * 100 + dg(s[2]) * 10 + dg(s[3])
}

/// Whether the optional seconds field is present.
pub open spec fn has_seconds(s: Seq<char>) -> bool {
    s.len() >= 17 && s[16] == ':'
}

/// The seconds field, zero when absent.
pub open spec fn second_of_str(s: Seq<char>) -> int {
    if has_seconds(s) {
        num2(s, 17)
    } else {
        0
    }
}

/// Whether a fractional-second field is present.
pub open spec fn has_frac(s: Seq<char>) -> bool {
    has_seconds(s) && s.len() >= 21 && s[19] == '.'
}

/// The fraction in nanoseconds: the digit run scaled up to nine digits.
pub open spec fn frac_of_str(s: Seq<char>) -> int {
    if has_frac(s) {
        digits_value(s, 20, frac_end(s)) * pow10(9 - (frac_end(s) - 20))
    } else {
        0
    }
}

/// Whether every numeric field lies within its calendar bound.
pub open spec fn fields_ok(s: Seq<char>) -> bool {
    &&& 1 <= num2(s, 5) <= 12
    &&& 1 <= num2(s, 8) <= days_in_month_of(year_of_str(s), num2(s, 5))
    &&& num2(s, 11) <= 23
    &&& num2(s, 14) <= 59
    &&& second_of_str(s) <= 59
}

/// The nanosecond count of a decomposed civil date and time of day.
pub open spec fn instant_of(y: int, m: int, d: int, h: int, mi: int, sec: int, f: int) -> int {
    (day_number(y, m, d) * 86400 + h * 3600 + mi * 60 + sec) * 1_000_000_000 + f
}

/// The instant denoted by a well-shaped string.
pub open spec fn instant_of_str(s: Seq<char>) -> int {
    instant_of(
        year_of_str(s),
        num2(s, 5),
        num2(s, 8),
        num2(s, 11),
        num2(s, 14),
        second_of_str(s),
        frac_of_str(s),
    )
}

/// What parsing a string yields: the instant, or the error kind. Empty
/// input is a null-input error; a string out of grammar is an invalid
/// format; a field outside its calendar bound, or an instant that does not
/// fit 64-bit nanoseconds, is out of range.
pub open spec fn parse_outcome(s: Seq<char>, lenient: bool) -> Result<int, ErrorKind> {
    if s.len() == 0 {
        Err(ErrorKind::NullInput)
    } else if !shape(s, lenient) {
        Err(ErrorKind::InvalidFormat)
    } else if !fields_ok(s) {
        Err(ErrorKind::OutOfRange)
    } else if !(i64::MIN <= instant_of_str(s) <= i64::MAX) {
        Err(ErrorKind::OutOfRange)
    } else {
        Ok(instant_of_str(s))
    }
}

/// The canonical rendering of a nanosecond count:
/// `YYYY-MM-DDTHH:MM:SSZ`, with `.nnnnnnnnn` before the `Z` when nanosecond
/// inclusion is requested.
pub open spec fn format_chars(n: int, include_nanos: bool) -> Seq<char> {
    let z = n / (NANOS_PER_DAY as int);
    let rem = n % (NANOS_PER_DAY as int);
    let y = civil_of_day(z).0;
    let m = civil_of_day(z).1;
    let d = civil_of_day(z).2;
    let sod = rem / 1_000_000_000;
    let f = rem % 1_000_000_000;
    let h = sod / 3600;
    let r1 = sod % 3600;
    let mi = r1 / 60;
    let sec = r1 % 60;
    if include_nanos {
        seq![
            digit_char(y / 1000),
            digit_char(y / 100 % 10),
            digit_char(y / 10 % 10),
            digit_char(y % 10),
            '-',
            digit_char(m / 10),
            digit_char(m % 10),
            '-',
            digit_char(d / 10),
            digit_char(d % 10),
            'T',
            digit_char(h / 10),
            digit_char(h % 10),
            ':',
            digit_char(mi / 10),
            digit_char(mi % 10),
            ':',
            digit_char(sec / 10),
            digit_char(sec % 10),
            '.',
            digit_char(f / 100000000),
            digit_char(f / 10000000 % 10),
            digit_char(f / 1000000 % 10),
            digit_char(f / 100000 % 10),
            digit_char(f / 10000 % 10),
            digit_char(f / 1000 % 10),
            digit_char(f / 100 % 10),
            digit_char(f / 10 % 10),
            digit_char(f % 10),
            'Z',
        ]
    } else {
        seq![
            digit_char(y / 1000),
            digit_char(y / 100 % 10),
            digit_char(y / 10 % 10),
            digit_char(y % 10),
            '-',
            digit_char(m / 10),
            digit_char(m % 10),
            '-',
            digit_char(d / 10),
            digit_char(d % 10),
            'T',
            digit_char(h / 10),
            digit_char(h % 10),
            ':',
            digit_char(mi / 10),
            digit_char(mi % 10),
            ':',
            digit_char(sec / 10),
            digit_char(sec % 10),
            'Z',
        ]
    }
}

/// The digit characters carry exactly the values they stand for.
proof fn lemma_digit_char(k: int)
    requires
        0 <= k <= 9,
    ensures
        is_digit(digit_char(k)),
        dg(digit_char(k)) == k,
{
}

/// Recomposing a two-digit rendering yields the rendered value.
proof fn lemma_two_digit_value(v: int)
    requires
        0 <= v <= 99,
    ensures
        is_digit(digit_char(v / 10)),
        is_digit(digit_char(v % 10)),
        dg(digit_char(v / 10)) * 10 + dg(digit_char(v % 10)) == v,
{
    lemma_fundamental_div_mod(v, 10);
    lemma_mod_bound(v, 10);
    lemma_div_is_ordered(v, 99, 10);
    lemma_div_pos_is_pos(v, 10);
    lemma_digit_char(v / 10);
    lemma_digit_char(v % 10);
}

/// Recomposing a four-digit rendering yields the rendered value.
proof fn lemma_four_digit_value(y: int)
    requires
        0 <= y <= 9999,
    ensures
        is_digit(digit_char(y / 1000)),
        is_digit(digit_char(y / 100 % 10)),
        is_digit(digit_char(y / 10 % 10)),
        is_digit(digit_char(y % 10)),
        dg(digit_char(y / 1000)) * 1000 + dg(digit_char(y / 100 % 10)) * 100 + dg(
            digit_char(y / 10 % 10),
        ) * 10 + dg(digit_char(y % 10)) == y,
{
    lemma_breakdown(y, 100, 10);
    lemma_breakdown(y, 10, 10);
    lemma_fundamental_div_mod(y, 1000);
    lemma_mod_bound(y, 10);
    lemma_mod_bound(y / 100, 10);
    lemma_mod_bound(y / 10, 10);
    lemma_div_is_ordered(y, 9999, 1000);
    lemma_div_pos_is_pos(y, 1000);
    lemma_div_pos_is_pos(y, 100);
    lemma_div_pos_is_pos(y, 10);
    lemma_digit_char(y / 1000);
    lemma_digit_char(y / 100 % 10);
    lemma_digit_char(y / 10 % 10);
    lemma_digit_char(y % 10);
}

/// Reading back the nine-digit rendering of a sub-second nanosecond count
/// yields that count.
proof fn lemma_nine_digit_value(s: Seq<char>, f: int)
    requires
        0 <= f < 1_000_000_000,
        s.len() >= 29,
        s[20] == digit_char(f / 100000000),
        s[21] == digit_char(f / 10000000 % 10),
        s[22] == digit_char(f / 1000000 % 10),
        s[23] == digit_char(f / 100000 % 10),
        s[24] == digit_char(f / 10000 % 10),
        s[25] == digit_char(f / 1000 % 10),
        s[26] == digit_char(f / 100 % 10),
        s[27] == digit_char(f / 10 % 10),
        s[28] == digit_char(f % 10),
    ensures
        digits_value(s, 20, 29) == f,
        forall|i: int| 20 <= i < 29 ==> is_digit(#[trigger] s[i]),
{
    lemma_div_pos_is_pos(f, 100000000);
    lemma_div_is_ordered(f, 999999999, 100000000);
    lemma_digit_char(f / 100000000);
    lemma_mod_bound(f / 10000000, 10);
    lemma_mod_bound(f / 1000000, 10);
    lemma_mod_bound(f / 100000, 10);
    lemma_mod_bound(f / 10000, 10);
    lemma_mod_bound(f / 1000, 10);
    lemma_mod_bound(f / 100, 10);
    lemma_mod_bound(f / 10, 10);
    lemma_digit_char(f / 10000000 % 10);
    lemma_digit_char(f / 1000000 % 10);
    lemma_digit_char(f / 100000 % 10);
    lemma_digit_char(f / 10000 % 10);
    lemma_digit_char(f / 1000 % 10);
    lemma_digit_char(f / 100 % 10);
    lemma_digit_char(f / 10 % 10);
    lemma_digit_char(f % 10);
    lemma_mod_bound(f, 10);
    assert(digits_value(s, 20, 20) == 0);
    assert(digits_value(s, 20, 21) == f / 100000000);
    lemma_div_denominator(f, 10000000, 10);
    lemma_fundamental_div_mod(f / 10000000, 10);
    assert(digits_value(s, 20, 22) == f / 10000000);
    lemma_div_denominator(f, 1000000, 10);
    lemma_fundamental_div_mod(f / 1000000, 10);
    assert(digits_value(s, 20, 23) == f / 1000000);
    lemma_div_denominator(f, 100000, 10);
    lemma_fundamental_div_mod(f / 100000, 10);
    assert(digits_value(s, 20, 24) == f / 100000);
    lemma_div_denominator(f, 10000, 10);
    lemma_fundamental_div_mod(f / 10000, 10);
    assert(digits_value(s, 20, 25) == f / 10000);
    lemma_div_denominator(f, 1000, 10);
    lemma_fundamental_div_mod(f / 1000, 10);
    assert(digits_value(s, 20, 26) == f / 1000);
    lemma_div_denominator(f, 100, 10);
    lemma_fundamental_div_mod(f / 100, 10);
    assert(digits_value(s, 20, 27) == f / 100);
    lemma_div_denominator(f, 10, 10);
    lemma_fundamental_div_mod(f / 10, 10);
    assert(digits_value(s, 20, 28) == f / 10);
    lemma_fundamental_div_mod(f, 10);
    assert(digits_value(s, 20, 29) == f);
}

/// The canonical rendering with nanoseconds parses back, under the strict
/// grammar, to exactly the instant it was rendered from: the strict
/// round-trip law.
pub proof fn lemma_format_parse_round_trip(n: int)
    requires
        i64::MIN <= n <= i64::MAX,
    ensures
        parse_outcome(format_chars(n, true), false) == Ok::<int, ErrorKind>(n),
{
    let nd = NANOS_PER_DAY as int;
    let z = n / nd;
    let rem = n % nd;
    lemma_fundamental_div_mod(n, nd);
    lemma_mod_bound(n, nd);
    assert(-106752 <= z <= 106751);
    lemma_timestamp_day_in_range(z);
    crate::gregorian::lemma_civil_of_day(z);
    crate::gregorian::lemma_civil_year_range(z);
    let y = civil_of_day(z).0;
    let m = civil_of_day(z).1;
    let d = civil_of_day(z).2;
    let sod = rem / 1_000_000_000;
    let f = rem % 1_000_000_000;
    lemma_fundamental_div_mod(rem, 1_000_000_000);
    lemma_mod_bound(rem, 1_000_000_000);
    lemma_div_pos_is_pos(rem, 1_000_000_000);
    lemma_div_is_ordered(rem, nd - 1, 1_000_000_000);
    let h = sod / 3600;
    let r1 = sod % 3600;
    let mi = r1 / 60;
    let sec = r1 % 60;
    lemma_fundamental_div_mod(sod, 3600);
    lemma_mod_bound(sod, 3600);
    lemma_div_pos_is_pos(sod, 3600);
    lemma_div_is_ordered(sod, 86399, 3600);
    lemma_fundamental_div_mod(r1, 60);
    lemma_mod_bound(r1, 60);
    lemma_div_pos_is_pos(r1, 60);
    lemma_div_is_ordered(r1, 3599, 60);
    let s = format_chars(n, true);
    lemma_four_digit_value(y);
    lemma_two_digit_value(m);
    lemma_two_digit_value(d);
    lemma_two_digit_value(h);
    lemma_two_digit_value(mi);
    lemma_two_digit_value(sec);
    lemma_nine_digit_value(s, f);
    assert(s.len() == 30);
    assert(shape(s, false));
    assert(year_of_str(s) == y);
    assert(num2(s, 5) == m);
    assert(num2(s, 8) == d);
    assert(num2(s, 11) == h);
    assert(num2(s, 14) == mi);
    assert(second_of_str(s) == sec);
    assert(frac_end(s) == 29);
    assert(has_frac(s));
    assert(frac_of_str(s) == f);
    assert(fields_ok(s));
    assert(instant_of_str(s) == (day_number(y as int, m as int, d as int) * 86400 + h * 3600 + mi
        * 60 + sec) * 1_000_000_000 + f);
    assert(instant_of_str(s) == n);
}

/// The canonical rendering of a whole-second instant without the fraction
/// parses back, under the strict grammar, to exactly that instant.
pub proof fn lemma_format_seconds_round_trip(n: int)
    requires
        i64::MIN <= n <= i64::MAX,
        n % 1_000_000_000 == 0,
    ensures
        parse_outcome(format_chars(n, false), false) == Ok::<int, ErrorKind>(n),
{
    let nd = NANOS_PER_DAY as int;
    let z = n / nd;
    let rem = n % nd;
    lemma_fundamental_div_mod(n, nd);
    lemma_mod_bound(n, nd);
    assert(-106752 <= z <= 106751);
    lemma_timestamp_day_in_range(z);
    crate::gregorian::lemma_civil_of_day(z);
    crate::gregorian::lemma_civil_year_range(z);
    let y = civil_of_day(z).0;
    let m = civil_of_day(z).1;
    let d = civil_of_day(z).2;
    let sod = rem / 1_000_000_000;
    let f = rem % 1_000_000_000;
    lemma_fundamental_div_mod(rem, 1_000_000_000);
    lemma_mod_bound(rem, 1_000_000_000);
    lemma_div_pos_is_pos(rem, 1_000_000_000);
    lemma_div_is_ordered(rem, nd - 1, 1_000_000_000);
    lemma_mod_mod(n, 1_000_000_000, 86400);
    assert(f == 0);
    let h = sod / 3600;
    let r1 = sod % 3600;
    let mi = r1 / 60;
    let sec = r1 % 60;
    lemma_fundamental_div_mod(sod, 3600);
    lemma_mod_bound(sod, 3600);
    lemma_div_pos_is_pos(sod, 3600);
    lemma_div_is_ordered(sod, 86399, 3600);
    lemma_fundamental_div_mod(r1, 60);
    lemma_mod_bound(r1, 60);
    lemma_div_pos_is_pos(r1, 60);
    lemma_div_is_ordered(r1, 3599, 60);
    let s = format_chars(n, false);
    lemma_four_digit_value(y);
    lemma_two_digit_value(m);
    lemma_two_digit_value(d);
    lemma_two_digit_value(h);
    lemma_two_digit_value(mi);
    lemma_two_digit_value(sec);
    assert(s.len() == 20);
    assert(shape(s, false));
    assert(year_of_str(s) == y);
    assert(!has_frac(s));
    assert(fields_ok(s));
    assert(instant_of_str(s) == n);
}

/// The lenient grammar extends the strict one: wherever strict parsing does
/// not reject the shape, lenient parsing yields the very same outcome.
pub proof fn lemma_lenient_extends_strict(s: Seq<char>)
    ensures
        shape(s, false) ==> shape(s, true),
        parse_outcome(s, false) != Err::<int, ErrorKind>(ErrorKind::InvalidFormat)
            ==> parse_outcome(s, true) == parse_outcome(s, false),
{
}

fn digit_str(d: u64) -> (r: &'static str)
    requires
        d <= 9,
    ensures
        r@ =~= seq![digit_char(d as int)],
{
    proof {
        reveal_strlit("0");
        reveal_strlit("1");
        reveal_strlit("2");
        reveal_strlit("3");
        reveal_strlit("4");
        reveal_strlit("5");
        reveal_strlit("6");
        reveal_strlit("7");
        reveal_strlit("8");
        reveal_strlit("9");
    }
    if d == 0 {
        "0"
    } else if d == 1 {
        "1"
    } else if d == 2 {
        "2"
    } else if d == 3 {
        "3"
    } else if d == 4 {
        "4"
    } else if d == 5 {
        "5"
    } else if d == 6 {
        "6"
    } else if d == 7 {
        "7"
    } else if d == 8 {
        "8"
    } else {
        "9"
    }
}

fn push_two_digits(out: &mut String, v: u64)
    requires
        v <= 99,
    ensures
        final(out)@ == old(out)@ + seq![digit_char(v as int / 10), digit_char(v as int % 10)],
{
    out.append(digit_str(v / 10));
    out.append(digit_str(v % 10));
    assert(out@ =~= old(out)@ + seq![digit_char(v as int / 10), digit_char(v as int % 10)]);
}

fn get_digit(s: &str, i: usize) -> (r: Option<u64>)
    requires
        i < s@.len(),
    ensures
        match r {
            Some(d) => is_digit(s@[i as int]) && d == dg(s@[i as int]) && d <= 9,
            None => !is_digit(s@[i as int]),
        },
{
    let c = s.get_char(i);
    let u = c as u32;
    if 48 <= u && u <= 57 {
        Some((u - 48) as u64)
    } else {
        None
    }
}

fn get_num2(s: &str, i: usize) -> (r: Option<u64>)
    requires
        i + 1 < s@.len(),
        i <= 40,
    ensures
        match r {
            Some(v) => is_digit(s@[i as int]) && is_digit(s@[i as int + 1]) && v == num2(
                s@,
                i as int,
            ) && v <= 99,
            None => !(is_digit(s@[i as int]) && is_digit(s@[i as int + 1])),
        },
{
    match (get_digit(s, i), get_digit(s, i + 1)) {
        (Some(a), Some(b)) => Some(a * 10 + b),
        _ => None,
    }
}

fn pow10_exec(k: u64) -> (r: u64)
    requires
        k <= 9,
    ensures
        r == pow10(k as int),
{
    proof {
        reveal_with_fuel(pow10, 10);
    }
    if k == 0 {
        1
    } else if k == 1 {
        10
    } else if k == 2 {
        100
    } else if k == 3 {
        1_000
    } else if k == 4 {
        10_000
    } else if k == 5 {
        100_000
    } else if k == 6 {
        1_000_000
    } else if k == 7 {
        10_000_000
    } else if k == 8 {
        100_000_000
    } else {
        1_000_000_000
    }
}

/// Ten to any power is positive.
proof fn lemma_pow10_pos(k: int)
    ensures
        pow10(k) >= 1,
    decreases (if k > 0 { k } else { 0 }),
{
    if k > 0 {
        lemma_pow10_pos(k - 1);
    }
}

/// Ten to a sum of powers is the product of the two powers.
proof fn lemma_pow10_add(a: int, b: int)
    requires
        0 <= a,
        0 <= b,
    ensures
        pow10(a + b) == pow10(a) * pow10(b),
    decreases a,
{
    if a > 0 {
        lemma_pow10_add(a - 1, b);
        assert(pow10(a + b) == 10 * pow10(a - 1 + b));
        assert(10 * (pow10(a - 1) * pow10(b)) == (10 * pow10(a - 1)) * pow10(b))
            by (nonlinear_arith);
    }
}

fn parse_impl(s: &str, lenient: bool) -> (r: Result<i64, ErrorKind>)
    ensures
        match r {
            Ok(n) => parse_outcome(s@, lenient) == Ok::<int, ErrorKind>(n as int),
            Err(k) => parse_outcome(s@, lenient) == Err::<int, ErrorKind>(k),
        },
{
    let len = s.unicode_len();
    if len == 0 {
        return Err(ErrorKind::NullInput);
    }
    if len < 16 || len > 30 {
        assert(!shape(s@, lenient));
        return Err(ErrorKind::InvalidFormat);
    }
    if s.get_char(4) != '-' || s.get_char(7) != '-' || s.get_char(13) != ':' {
        return Err(ErrorKind::InvalidFormat);
    }
    let sep = s.get_char(10);
    if !(sep == 'T' || (lenient && sep == ' ')) {
        return Err(ErrorKind::InvalidFormat);
    }
    let (y, month, day, hour, minute) = match (
        get_num2(s, 0),
        get_num2(s, 2),
        get_num2(s, 5),
        get_num2(s, 8),
        get_num2(s, 11),
        get_num2(s, 14),
    ) {
        (Some(yh), Some(yl), Some(mo), Some(dy), Some(hr), Some(mi)) => (
            yh * 100 + yl,
            mo,
            dy,
            hr,
            mi,
        ),
        _ => {
            return Err(ErrorKind::InvalidFormat);
        },
    };
    let mut second: u64 = 0;
    let mut frac: u64 = 0;
    if len == 16 {
        if !lenient {
            return Err(ErrorKind::InvalidFormat);
        }
    } else {
        let c16 = s.get_char(16);
        if c16 == 'Z' {
            if !(lenient && len == 17) {
                return Err(ErrorKind::InvalidFormat);
            }
        } else if c16 == ':' {
            if len < 19 {
                return Err(ErrorKind::InvalidFormat);
            }
            second = match get_num2(s, 17) {
                Some(v) => v,
                None => {
                    return Err(ErrorKind::InvalidFormat);
                },
            };
            if len == 19 {
                if !lenient {
                    return Err(ErrorKind::InvalidFormat);
                }
            } else {
                let c19 = s.get_char(19);
                if c19 == 'Z' {
                    if len != 20 {
                        return Err(ErrorKind::InvalidFormat);
                    }
                } else if c19 == '.' {
                    let last = s.get_char(len - 1);
                    let e: usize = if last == 'Z' {
                        len - 1
                    } else {
                        if !lenient {
                            return Err(ErrorKind::InvalidFormat);
                        }
                        len
                    };
                    assert(e == frac_end(s@));
                    if e < 21 || e > 29 {
                        return Err(ErrorKind::InvalidFormat);
                    }
                    let mut acc: u64 = 0;
                    let mut i: usize = 20;
                    while i < e
                        invariant
                            20 <= i <= e,
                            21 <= e <= 29,
                            e == frac_end(s@),
                            s@.len() == e || s@.len() == e + 1,
                            acc == digits_value(s@, 20, i as int),
                            acc < pow10(i - 20),
                            forall|j: int| 20 <= j < i ==> is_digit(#[trigger] s@[j]),
                        decreases e - i,
                    {
                        proof {
                            reveal_with_fuel(pow10, 10);
                        }
                        let d = match get_digit(s, i) {
                            Some(d) => d,
                            None => {
                                return Err(ErrorKind::InvalidFormat);
                            },
                        };
                        acc = acc * 10 + d;
                        i = i + 1;
                    }
                    let scale = pow10_exec(9 - (e as u64 - 20));
                    proof {
                        reveal_with_fuel(pow10, 10);
                        lemma_pow10_add(e - 20, 9 - (e - 20));
                        lemma_pow10_pos(9 - (e - 20));
                        assert(acc as int * (scale as int) < 1_000_000_000) by (nonlinear_arith)
                            requires
                                acc as int >= 0,
                                (acc as int) < pow10(e as int - 20),
                                scale as int == pow10(9 - (e as int - 20)),
                                pow10(e as int - 20) * pow10(9 - (e as int - 20))
                                    == 1_000_000_000,
                                scale as int >= 1,
                        ;
                    }
                    frac = acc * scale;
                    assert(frac == frac_of_str(s@));
                } else {
                    return Err(ErrorKind::InvalidFormat);
                }
            }
        } else {
            return Err(ErrorKind::InvalidFormat);
        }
    }
    assert(shape(s@, lenient));
    assert(second == second_of_str(s@));
    assert(frac == frac_of_str(s@));
    if month < 1 || month > 12 {
        return Err(ErrorKind::OutOfRange);
    }
    if day < 1 || day > days_in_month(y as i64, month as i64) as u64 {
        return Err(ErrorKind::OutOfRange);
    }
    if hour > 23 || minute > 59 || second > 59 {
        return Err(ErrorKind::OutOfRange);
    }
    assert(fields_ok(s@));
    let z = days_from_civil(y as i64, month as i64, day as i64);
    let sod: i64 = (hour * 3600 + minute * 60 + second) as i64;
    let total: i128 = (z as i128) * (NANOS_PER_DAY as i128) + (sod as i128) * 1_000_000_000
        + (frac as i128);
    assert(total == instant_of_str(s@));
    if total < i64::MIN as i128 || total > i64::MAX as i128 {
        return Err(ErrorKind::OutOfRange);
    }
    Ok(total as i64)
}

impl Timestamp {
    /// Parse the strict ISO-8601 form `YYYY-MM-DDTHH:MM:SS[.fraction]Z`:
    /// the `Z` suffix is mandatory, the fraction takes one to nine digits,
    /// and every field must be a real calendar value.
    pub fn parse(s: &str) -> (r: Result<Timestamp, Error>)
        ensures
            match r {
                Ok(t) => parse_outcome(s@, false) == Ok::<int, ErrorKind>(t@),
                Err(e) => parse_outcome(s@, false) == Err::<int, ErrorKind>(e.kind_spec())
                    && e.wf(),
            },
    {
        match parse_impl(s, false) {
            Ok(n) => Ok(Timestamp::from_nanos(n)),
            Err(k) => Err(Error::new(k)),
        }
    }

    /// Parse the lenient ISO-8601 form: the strict grammar, or a space in
    /// place of `T`, missing seconds (read as zero), or a missing `Z`.
    pub fn parse_lenient(s: &str) -> (r: Result<Timestamp, Error>)
        ensures
            match r {
                Ok(t) => parse_outcome(s@, true) == Ok::<int, ErrorKind>(t@),
                Err(e) => parse_outcome(s@, true) == Err::<int, ErrorKind>(e.kind_spec())
                    && e.wf(),
            },
    {
        match parse_impl(s, true) {
            Ok(n) => Ok(Timestamp::from_nanos(n)),
            Err(k) => Err(Error::new(k)),
        }
    }
}

impl Timestamp {
    /// Render this timestamp as `YYYY-MM-DDTHH:MM:SSZ`; with `include_nanos`
    /// a nine-digit nanosecond fraction (no trailing-zero trimming) is
    /// placed before the `Z`.
    #[verifier::rlimit(100)]
    pub fn format(&self, include_nanos: bool) -> (out: String)
        ensures
            out@ == format_chars(self@, include_nanos),
            out@.len() == (if include_nanos {
                30int
            } else {
                20int
            }),
    {
        let n = self.as_nanos();
        let (z, rem) = split_days(n);
        proof {
            lemma_timestamp_day_in_range(z as int);
        }
        let (y, m, d) = civil_from_days(z);
        let remu = rem as u64;
        let f = remu % 1_000_000_000;
        let sod = remu / 1_000_000_000;
        proof {
            lemma_div_is_ordered(sod as int, 86399, 3600);
            assert(sod < 86400) by {
                lemma_div_is_ordered(remu as int, 86_399_999_999_999, 1_000_000_000);
            }
        }
        let h = sod / 3600;
        let r1 = sod % 3600;
        let mi = r1 / 60;
        let sec = r1 % 60;
        let mut out = String::new();
        let yu = y as u64;
        out.append(digit_str(yu / 1000));
        out.append(digit_str(yu / 100 % 10));
        out.append(digit_str(yu / 10 % 10));
        out.append(digit_str(yu % 10));
        out.append("-");
        push_two_digits(&mut out, m as u64);
        out.append("-");
        push_two_digits(&mut out, d as u64);
        out.append("T");
        push_two_digits(&mut out, h);
        out.append(":");
        push_two_digits(&mut out, mi);
        out.append(":");
        push_two_digits(&mut out, sec);
        if include_nanos {
            out.append(".");
            out.append(digit_str(f / 100000000));
            out.append(digit_str(f / 10000000 % 10));
            out.append(digit_str(f / 1000000 % 10));
            out.append(digit_str(f / 100000 % 10));
            out.append(digit_str(f / 10000 % 10));
            out.append(digit_str(f / 1000 % 10));
            out.append(digit_str(f / 100 % 10));
            out.append(digit_str(f / 10 % 10));
            out.append(digit_str(f % 10));
        }
        out.append("Z");
        proof {
            reveal_strlit("-");
            reveal_strlit("T");
            reveal_strlit(":");
            reveal_strlit(".");
            reveal_strlit("Z");
            assert(out@ =~= format_chars(self@, include_nanos));
        }
        out
    }
}

} // verus!
