//! Calendar dates and their fixed `YYYY-MM-DD` text form.

use vstd::prelude::*;
use crate::text::{chars_of, string_from_chars};

verus! {

/// Smallest year that a date may carry.
pub const MIN_YEAR: i32 = -9999;

/// Largest year that a date may carry.
pub const MAX_YEAR: i32 = 9999;

/// Leap years of the proleptic Gregorian calendar.
pub open spec fn is_leap_year(year: int) -> bool {
    year % 4 == 0 && (year % 100 != 0 || year % 400 == 0)
}

/// Number of days of `month` (1 to 12) in `year`.
pub open spec fn days_in_month(year: int, month: int) -> int {
    if month == 2 {
        if is_leap_year(year) {
            29
        } else {
            28
        }
    } else if month == 4 || month == 6 || month == 9 || month == 11 {
        30
    } else {
        31
    }
}

/// Whether year, month and day name a day of the calendar that a date can hold.
pub open spec fn valid_calendar_date(year: int, month: int, day: int) -> bool {
    &&& MIN_YEAR <= year <= MAX_YEAR
    &&& 1 <= month <= 12
    &&& 1 <= day <= days_in_month(year, month)
}

/// A calendar date, without time of day or zone.
#[derive(Clone, Copy, Debug, PartialEq, Eq, Structural)]
pub struct Date {
    pub year: i32,
    pub month: u8,
    pub day: u8,
}

impl Date {
    /// The date names an existing day of the calendar.
    pub open spec fn wf(&self) -> bool {
        valid_calendar_date(self.year as int, self.month as int, self.day as int)
    }

    /// The date with these fields, if it exists.
    pub fn new(year: i32, month: u8, day: u8) -> (r: Option<Date>)
        ensures
            r is Some <==> valid_calendar_date(year as int, month as int, day as int),
            r matches Some(d) ==> d.year == year && d.month == month && d.day == day,
    {
        if calendar_date_exists(year, month, day) {
            Some(Date { year, month, day })
        } else {
            None
        }
    }
}

/// Relies on `time::Month::try_from(u8)` and `time::Date::from_calendar_date`:
/// the first accepts the months 1 to 12, the second accepts a year within
/// -9999..=9999 and a day from 1 to the length of that month, leap years
/// being those of the Gregorian calendar.
#[verifier::external_body]
fn calendar_date_exists(year: i32, month: u8, day: u8) -> (r: bool)
    ensures
        r == valid_calendar_date(year as int, month as int, day as int),
{
    match time::Month::try_from(month) {
        Ok(m) => time::Date::from_calendar_date(year, m, day).is_ok(),
        Err(_) => false,
    }
}

/// Whether `c` is one of the ASCII digits.
pub open spec fn is_digit(c: char) -> bool {
    '0' <= c && c <= '9'
}

/// The value of the digit `c`.
pub open spec fn digit_value(c: char) -> int {
    c as int - '0' as int
}

/// The digit that stands for `d` (0 to 9).
pub open spec fn digit_char(d: int) -> char {
    if d == 0 { '0' } else if d == 1 { '1' } else if d == 2 { '2' } else if d == 3 { '3' }
    else if d == 4 { '4' } else if d == 5 { '5' } else if d == 6 { '6' } else if d == 7 { '7' }
    else if d == 8 { '8' } else { '9' }
}

/// The number that a run of decimal digits writes.
pub open spec fn number_of(s: Seq<char>) -> int
    decreases s.len(),
{
    if s.len() == 0 {
        0
    } else {
        number_of(s.drop_last()) * 10 + digit_value(s.last())
    }
}

/// Every character of `s[from..to]` is a digit.
pub open spec fn digits_at(s: Seq<char>, from: int, to: int) -> bool {
    forall|i: int| from <= i < to ==> is_digit(#[trigger] s[i])
}

/// `s` has the shape `YYYY-MM-DD`, each letter standing for a digit.
pub open spec fn iso_shape(s: Seq<char>) -> bool {
    &&& s.len() == 10
    &&& digits_at(s, 0, 4)
    &&& s[4] == '-'
    &&& digits_at(s, 5, 7)
    &&& s[7] == '-'
    &&& digits_at(s, 8, 10)
}

/// The date that the text `s` denotes, if it has the shape `YYYY-MM-DD`
/// and names an existing day.
pub open spec fn date_of_text(s: Seq<char>) -> Option<Date> {
    if iso_shape(s) {
        let y = number_of(s.subrange(0, 4));
        let m = number_of(s.subrange(5, 7));
        let d = number_of(s.subrange(8, 10));
        if valid_calendar_date(y, m, d) {
            Some(Date { year: y as i32, month: m as u8, day: d as u8 })
        } else {
            None
        }
    } else {
        None
    }
}

/// Two digits for `n` (0 to 99).
pub open spec fn two_digits(n: int) -> Seq<char> {
    seq![digit_char(n / 10), digit_char(n % 10)]
}

/// Four digits for `n` (0 to 9999).
pub open spec fn four_digits(n: int) -> Seq<char> {
    seq![digit_char(n / 1000), digit_char((n / 100) % 10), digit_char((n / 10) % 10), digit_char(n % 10)]
}

/// The text form of a date: `YYYY-MM-DD`, with a leading `-` before years
/// below zero.
pub open spec fn iso_text(d: Date) -> Seq<char> {
    let sign: Seq<char> = if d.year < 0 { seq!['-'] } else { Seq::empty() };
    let y: int = if d.year < 0 { -(d.year as int) } else { d.year as int };
    sign + four_digits(y) + seq!['-'] + two_digits(d.month as int) + seq!['-'] + two_digits(d.day as int)
}

fn digit_to_char(d: u32) -> (c: char)
    requires
        d < 10,
    ensures
        c == digit_char(d as int),
{
    match d {
        0 => '0',
        1 => '1',
        2 => '2',
        3 => '3',
        4 => '4',
        5 => '5',
        6 => '6',
        7 => '7',
        8 => '8',
        _ => '9',
    }
}

/// The value of the digits `chars[from..to]`, or `None` if one of them is not a digit.
fn read_number(chars: &Vec<char>, from: usize, to: usize) -> (r: Option<u32>)
    requires
        from <= to <= chars.len(),
        to - from <= 4,
    ensures
        r is Some <==> digits_at(chars@, from as int, to as int),
        r matches Some(v) ==> v as int == number_of(chars@.subrange(from as int, to as int)),
        r matches Some(v) ==> v < pow10((to - from) as nat),
{
    let mut acc: u32 = 0;
    let mut i: usize = from;
    while i < to
        invariant
            from <= i <= to <= chars.len(),
            to - from <= 4,
            digits_at(chars@, from as int, i as int),
            acc as int == number_of(chars@.subrange(from as int, i as int)),
            0 <= acc < pow10((i - from) as nat),
        decreases to - i,
    {
        let c = chars[i];
        if c < '0' || c > '9' {
            return None;
        }
        assert(chars@.subrange(from as int, i + 1).drop_last() == chars@.subrange(from as int, i as int));
        proof {
            lemma_pow10_small((i - from) as nat);
        }
        let v: u32 = (c as u32) - ('0' as u32);
        acc = acc * 10 + v;
        i = i + 1;
    }
    Some(acc)
}

/// Ten to the power `n`.
pub open spec fn pow10(n: nat) -> int
    decreases n,
{
    if n == 0 { 1 } else { 10 * pow10((n - 1) as nat) }
}

proof fn lemma_pow10_small(n: nat)
    requires
        n <= 4,
    ensures
        pow10(n) <= 10000,
        pow10(n + 1) == 10 * pow10(n),
{
    reveal_with_fuel(pow10, 5);
}

/// Reads a date written `YYYY-MM-DD`.
pub fn parse_date(s: &str) -> (r: Option<Date>)
    ensures
        r == date_of_text(s@),
        r matches Some(d) ==> d.wf(),
{
    let chars = chars_of(s);
    if chars.len() != 10 || chars[4] != '-' || chars[7] != '-' {
        return None;
    }
    let y = read_number(&chars, 0, 4);
    let m = read_number(&chars, 5, 7);
    let d = read_number(&chars, 8, 10);
    match (y, m, d) {
        (Some(y), Some(m), Some(d)) => {
            proof {
                reveal_with_fuel(pow10, 5);
                assert(pow10(4) == 10000 && pow10(2) == 100);
            }
            Date::new(y as i32, m as u8, d as u8)
        },
        _ => None,
    }
}

impl Date {
    /// The date written as `YYYY-MM-DD` (with a leading `-` before years below zero).
    pub fn to_iso_string(&self) -> (r: String)
        requires
            self.wf(),
        ensures
            r@ == iso_text(*self),
    {
        let mut out: Vec<char> = Vec::new();
        let y: u32 = if self.year < 0 {
            out.push('-');
            (-(self.year as i64)) as u32
        } else {
            self.year as u32
        };
        out.push(digit_to_char(y / 1000));
        out.push(digit_to_char((y / 100) % 10));
        out.push(digit_to_char((y / 10) % 10));
        out.push(digit_to_char(y % 10));
        out.push('-');
        let m = self.month as u32;
        out.push(digit_to_char(m / 10));
        out.push(digit_to_char(m % 10));
        out.push('-');
        let d = self.day as u32;
        out.push(digit_to_char(d / 10));
        out.push(digit_to_char(d % 10));
        assert(out@ == iso_text(*self));
        string_from_chars(&out)
    }
}

proof fn lemma_digit_round_trip(k: int)
    requires
        0 <= k < 10,
    ensures
        is_digit(digit_char(k)),
        digit_value(digit_char(k)) == k,
{
}

proof fn lemma_four_digits(n: int)
    requires
        0 <= n <= 9999,
    ensures
        digits_at(four_digits(n), 0, 4),
        number_of(four_digits(n)) == n,
{
    let s = four_digits(n);
    let (a, b, c, d) = (n / 1000, (n / 100) % 10, (n / 10) % 10, n % 10);
    lemma_digit_round_trip(a);
    lemma_digit_round_trip(b);
    lemma_digit_round_trip(c);
    lemma_digit_round_trip(d);
    assert(s.drop_last().drop_last().drop_last().drop_last() =~= Seq::<char>::empty());
    assert(s.drop_last().drop_last().drop_last() =~= seq![digit_char(a)]);
    assert(s.drop_last().drop_last() =~= seq![digit_char(a), digit_char(b)]);
    assert(s.drop_last() =~= seq![digit_char(a), digit_char(b), digit_char(c)]);
    reveal_with_fuel(number_of, 5);
    assert(number_of(s) == ((a * 10 + b) * 10 + c) * 10 + d);
    assert(((a * 10 + b) * 10 + c) * 10 + d == n) by (nonlinear_arith)
        requires
            0 <= n <= 9999,
            a == n / 1000,
            b == (n / 100) % 10,
            c == (n / 10) % 10,
            d == n % 10,
    ;
}

proof fn lemma_two_digits(n: int)
    requires
        0 <= n <= 99,
    ensures
        digits_at(two_digits(n), 0, 2),
        number_of(two_digits(n)) == n,
{
    let s = two_digits(n);
    lemma_digit_round_trip(n / 10);
    lemma_digit_round_trip(n % 10);
    assert(s.drop_last().drop_last() =~= Seq::<char>::empty());
    assert(s.drop_last() =~= seq![digit_char(n / 10)]);
    reveal_with_fuel(number_of, 3);
    assert(number_of(s) == (n / 10) * 10 + n % 10);
    assert((n / 10) * 10 + n % 10 == n) by (nonlinear_arith)
        requires
            0 <= n <= 99,
    ;
}

/// Reading back the text form of a date of year zero or later gives the same
/// date.
pub proof fn lemma_iso_round_trip(d: Date)
    requires
        d.wf(),
        d.year >= 0,
    ensures
        date_of_text(iso_text(d)) == Some(d),
{
    let s = iso_text(d);
    let y = d.year as int;
    lemma_four_digits(y);
    lemma_two_digits(d.month as int);
    lemma_two_digits(d.day as int);
    assert(s.subrange(0, 4) =~= four_digits(y));
    assert(s.subrange(5, 7) =~= two_digits(d.month as int));
    assert(s.subrange(8, 10) =~= two_digits(d.day as int));
    assert(digits_at(s, 0, 4)) by {
        assert forall|i: int| 0 <= i < 4 implies is_digit(#[trigger] s[i]) by {
            assert(s[i] == four_digits(y)[i]);
        }
    }
    assert(digits_at(s, 5, 7)) by {
        assert forall|i: int| 5 <= i < 7 implies is_digit(#[trigger] s[i]) by {
            assert(s[i] == two_digits(d.month as int)[i - 5]);
        }
    }
    assert(digits_at(s, 8, 10)) by {
        assert forall|i: int| 8 <= i < 10 implies is_digit(#[trigger] s[i]) by {
            assert(s[i] == two_digits(d.day as int)[i - 8]);
        }
    }
}

proof fn lemma_char_round_trip(c: char)
    requires
        is_digit(c),
    ensures
        0 <= digit_value(c) < 10,
        digit_char(digit_value(c)) == c,
{
}

proof fn lemma_read_four(s: Seq<char>)
    requires
        s.len() == 4,
        digits_at(s, 0, 4),
    ensures
        0 <= number_of(s) <= 9999,
        four_digits(number_of(s)) == s,
{
    let (a, b, c, d) = (digit_value(s[0]), digit_value(s[1]), digit_value(s[2]), digit_value(s[3]));
    lemma_char_round_trip(s[0]);
    lemma_char_round_trip(s[1]);
    lemma_char_round_trip(s[2]);
    lemma_char_round_trip(s[3]);
    reveal_with_fuel(number_of, 5);
    assert(s.drop_last().drop_last().drop_last().drop_last() =~= Seq::<char>::empty());
    assert(s.drop_last().drop_last().drop_last() =~= seq![s[0]]);
    assert(s.drop_last().drop_last() =~= seq![s[0], s[1]]);
    assert(s.drop_last() =~= seq![s[0], s[1], s[2]]);
    let n = ((a * 10 + b) * 10 + c) * 10 + d;
    assert(number_of(s) == n);
    assert(0 <= n <= 9999 && n / 1000 == a && (n / 100) % 10 == b && (n / 10) % 10 == c && n % 10 == d)
        by (nonlinear_arith)
        requires
            0 <= a < 10,
            0 <= b < 10,
            0 <= c < 10,
            0 <= d < 10,
            n == ((a * 10 + b) * 10 + c) * 10 + d,
    ;
    assert(four_digits(n) =~= s);
}

proof fn lemma_read_two(s: Seq<char>)
    requires
        s.len() == 2,
        digits_at(s, 0, 2),
    ensures
        0 <= number_of(s) <= 99,
        two_digits(number_of(s)) == s,
{
    let (a, b) = (digit_value(s[0]), digit_value(s[1]));
    lemma_char_round_trip(s[0]);
    lemma_char_round_trip(s[1]);
    reveal_with_fuel(number_of, 3);
    assert(s.drop_last().drop_last() =~= Seq::<char>::empty());
    assert(s.drop_last() =~= seq![s[0]]);
    let n = a * 10 + b;
    assert(number_of(s) == n);
    assert(0 <= n <= 99 && n / 10 == a && n % 10 == b) by (nonlinear_arith)
        requires
            0 <= a < 10,
            0 <= b < 10,
            n == a * 10 + b,
    ;
    assert(two_digits(n) =~= s);
}

/// A text that reads as a date is exactly the text form of that date: the
/// form `YYYY-MM-DD` has one spelling per date.
pub proof fn lemma_text_is_canonical(s: Seq<char>)
    requires
        date_of_text(s) is Some,
    ensures
        iso_text(date_of_text(s)->Some_0) == s,
        (date_of_text(s)->Some_0).year >= 0,
{
    let d = date_of_text(s)->Some_0;
    let ys = s.subrange(0, 4);
    let ms = s.subrange(5, 7);
    let ds = s.subrange(8, 10);
    assert(digits_at(ys, 0, 4)) by {
        assert forall|i: int| 0 <= i < 4 implies is_digit(#[trigger] ys[i]) by {
            assert(ys[i] == s[i]);
        }
    }
    assert(digits_at(ms, 0, 2)) by {
        assert forall|i: int| 0 <= i < 2 implies is_digit(#[trigger] ms[i]) by {
            assert(ms[i] == s[i + 5]);
        }
    }
    assert(digits_at(ds, 0, 2)) by {
        assert forall|i: int| 0 <= i < 2 implies is_digit(#[trigger] ds[i]) by {
            assert(ds[i] == s[i + 8]);
        }
    }
    lemma_read_four(ys);
    lemma_read_two(ms);
    lemma_read_two(ds);
    assert(iso_text(d) =~= s);
}

} // verus!
