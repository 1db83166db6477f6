//! Calendar dates in `YYYY-MM-DD` form: validity, ordering key,
//! day-of-week derivation, and parsing/formatting of the text form.

use vstd::prelude::*;

verus! {

/// A calendar date in the proleptic Gregorian calendar, held as plain
/// year / month / day numbers. A post's index and its in-universe
/// publication date are both such dates, written `YYYY-MM-DD`.
#[derive(Clone, Copy, PartialEq, Eq, Structural, Debug)]
pub struct Date {
    pub year: u16,
    pub month: u8,
    pub day: u8,
}

pub open spec fn is_leap_year(y: int) -> bool {
    (y % 4 == 0 && y % 100 != 0) || y % 400 == 0
}

pub open spec fn days_in_month(y: int, m: int) -> int {
    if m == 2 {
        if is_leap_year(y) {
            29
        } else {
            28
        }
    } else if m == 4 || m == 6 || m == 9 || m == 11 {
        30
    } else {
        31
    }
}

pub open spec fn valid_date(y: int, m: int, d: int) -> bool {
    &&& 1 <= y <= 9999
    &&& 1 <= m <= 12
    &&& 1 <= d <= days_in_month(y, m)
}

/// Day of the week of a date, `0` standing for Sunday and `6` for
/// Saturday, by Gauss's formula for the proleptic Gregorian calendar.
pub open spec fn day_of_week(y: int, m: int, d: int) -> int {
    let a = (14 - m) / 12;
    let yy = y - a;
    let mm = m + 12 * a - 2;
    (d + yy + yy / 4 - yy / 100 + yy / 400 + (31 * mm) / 12) % 7
}

/// The `day_of_week` value that stands for Sunday.
pub const SUNDAY: u8 = 0;

impl Date {
    pub open spec fn valid(self) -> bool {
        valid_date(self.year as int, self.month as int, self.day as int)
    }

    /// Numeric form of the date: orders exactly as the calendar does,
    /// and as the `YYYY-MM-DD` text form does lexicographically.
    pub open spec fn key(self) -> int {
        self.year as int * 10000 + self.month as int * 100 + self.day as int
    }

    pub fn key_value(&self) -> (r: u32)
        ensures
            r as int == self.key(),
    {
        self.year as u32 * 10000 + self.month as u32 * 100 + self.day as u32
    }

    /// Number of days in this date's month.
    pub fn month_length(&self) -> (r: u8)
        ensures
            r as int == days_in_month(self.year as int, self.month as int),
    {
        if self.month == 2 {
            if (self.year % 4 == 0 && self.year % 100 != 0) || self.year % 400 == 0 {
                29
            } else {
                28
            }
        } else if self.month == 4 || self.month == 6 || self.month == 9 || self.month == 11 {
            30
        } else {
            31
        }
    }

    /// Day of the week, `0` for Sunday through `6` for Saturday.
    pub fn weekday(&self) -> (r: u8)
        requires
            self.valid(),
        ensures
            r as int == day_of_week(self.year as int, self.month as int, self.day as int),
            r < 7,
    {
        let y: u32 = self.year as u32;
        let m: u32 = self.month as u32;
        let d: u32 = self.day as u32;
        let a: u32 = (14 - m) / 12;
        let yy: u32 = y - a;
        let mm: u32 = m + 12 * a - 2;
        let w: u32 = (d + yy + yy / 4 - yy / 100 + yy / 400 + (31 * mm) / 12) % 7;
        w as u8
    }

    /// Whether this date falls on a Sunday.
    pub fn is_sunday(&self) -> (r: bool)
        requires
            self.valid(),
        ensures
            r == (day_of_week(self.year as int, self.month as int, self.day as int)
                == SUNDAY as int),
    {
        self.weekday() == SUNDAY
    }
}

/// Valid dates with the same ordering key are the same date.
pub proof fn lemma_key_injective(d1: Date, d2: Date)
    requires
        d1.valid(),
        d2.valid(),
        d1.key() == d2.key(),
    ensures
        d1 == d2,
{
}

pub open spec fn is_digit(c: char) -> bool {
    48 <= c as u32 <= 57
}

pub open spec fn digit_val(c: char) -> int {
    c as u32 - 48
}

pub open spec fn digit_char(d: int) -> char {
    if d == 0 {
        '0'
    } else if d == 1 {
        '1'
    } else if d == 2 {
        '2'
    } else if d == 3 {
        '3'
    } else if d == 4 {
        '4'
    } else if d == 5 {
        '5'
    } else if d == 6 {
        '6'
    } else if d == 7 {
        '7'
    } else if d == 8 {
        '8'
    } else {
        '9'
    }
}

/// Ten characters shaped `YYYY-MM-DD`: digits and the two hyphens in
/// their fixed places.
pub open spec fn well_formed_date_text(s: Seq<char>) -> bool {
    &&& s.len() == 10
    &&& is_digit(s[0])
    &&& is_digit(s[1])
    &&& is_digit(s[2])
    &&& is_digit(s[3])
    &&& s[4] == '-'
    &&& is_digit(s[5])
    &&& is_digit(s[6])
    &&& s[7] == '-'
    &&& is_digit(s[8])
    &&& is_digit(s[9])
}

pub open spec fn text_year(s: Seq<char>) -> int {
    1000 * digit_val(s[0]) + 100 * digit_val(s[1]) + 10 * digit_val(s[2]) + digit_val(s[3])
}

pub open spec fn text_month(s: Seq<char>) -> int {
    10 * digit_val(s[5]) + digit_val(s[6])
}

pub open spec fn text_day(s: Seq<char>) -> int {
    10 * digit_val(s[8]) + digit_val(s[9])
}

/// Well-shaped text that also names a real calendar date.
pub open spec fn valid_date_text(s: Seq<char>) -> bool {
    &&& well_formed_date_text(s)
    &&& valid_date(text_year(s), text_month(s), text_day(s))
}

pub open spec fn date_of_text(s: Seq<char>) -> Date {
    Date { year: text_year(s) as u16, month: text_month(s) as u8, day: text_day(s) as u8 }
}

/// The canonical `YYYY-MM-DD` spelling of a date.
pub open spec fn date_text(dt: Date) -> Seq<char> {
    seq![
        digit_char(dt.year as int / 1000),
        digit_char((dt.year as int / 100) % 10),
        digit_char((dt.year as int / 10) % 10),
        digit_char(dt.year as int % 10),
        '-',
        digit_char(dt.month as int / 10),
        digit_char(dt.month as int % 10),
        '-',
        digit_char(dt.day as int / 10),
        digit_char(dt.day as int % 10),
    ]
}

pub proof fn lemma_digit_char_of_val(c: char)
    requires
        is_digit(c),
    ensures
        digit_char(digit_val(c)) == c,
{
}

/// Valid date text spells its own parse back: the text form is canonical.
pub proof fn lemma_text_round_trip(s: Seq<char>)
    requires
        valid_date_text(s),
    ensures
        date_of_text(s).valid(),
        date_text(date_of_text(s)) =~= s,
{
    let y = text_year(s);
    let m = text_month(s);
    let d = text_day(s);
    assert(y / 1000 == digit_val(s[0]) && (y / 100) % 10 == digit_val(s[1]) && (y / 10) % 10
        == digit_val(s[2]) && y % 10 == digit_val(s[3])) by (nonlinear_arith)
        requires
            y == 1000 * digit_val(s[0]) + 100 * digit_val(s[1]) + 10 * digit_val(s[2]) + digit_val(
                s[3],
            ),
            0 <= digit_val(s[0]) <= 9,
            0 <= digit_val(s[1]) <= 9,
            0 <= digit_val(s[2]) <= 9,
            0 <= digit_val(s[3]) <= 9,
    ;
    assert(m / 10 == digit_val(s[5]) && m % 10 == digit_val(s[6])) by (nonlinear_arith)
        requires
            m == 10 * digit_val(s[5]) + digit_val(s[6]),
            0 <= digit_val(s[5]) <= 9,
            0 <= digit_val(s[6]) <= 9,
    ;
    assert(d / 10 == digit_val(s[8]) && d % 10 == digit_val(s[9])) by (nonlinear_arith)
        requires
            d == 10 * digit_val(s[8]) + digit_val(s[9]),
            0 <= digit_val(s[8]) <= 9,
            0 <= digit_val(s[9]) <= 9,
    ;
    lemma_digit_char_of_val(s[0]);
    lemma_digit_char_of_val(s[1]);
    lemma_digit_char_of_val(s[2]);
    lemma_digit_char_of_val(s[3]);
    lemma_digit_char_of_val(s[5]);
    lemma_digit_char_of_val(s[6]);
    lemma_digit_char_of_val(s[8]);
    lemma_digit_char_of_val(s[9]);
}

/// Valid dates with the same text form are the same date, so distinct
/// valid dates have distinct `YYYY-MM-DD` spellings.
pub proof fn lemma_date_text_injective(d1: Date, d2: Date)
    requires
        d1.valid(),
        d2.valid(),
        date_text(d1) == date_text(d2),
    ensures
        d1 == d2,
{
    lemma_date_text_parses(d1);
    lemma_date_text_parses(d2);
}

/// The text form of a valid date is valid date text and parses back to it.
pub proof fn lemma_date_text_parses(dt: Date)
    requires
        dt.valid(),
    ensures
        valid_date_text(date_text(dt)),
        date_of_text(date_text(dt)) == dt,
{
    let s = date_text(dt);
    let y = dt.year as int;
    let m = dt.month as int;
    let d = dt.day as int;
    assert(digit_val(digit_char(y / 1000)) == y / 1000 && digit_val(digit_char((y / 100) % 10)) == (
    y / 100) % 10 && digit_val(digit_char((y / 10) % 10)) == (y / 10) % 10 && digit_val(
        digit_char(y % 10),
    ) == y % 10);
    assert(y == 1000 * (y / 1000) + 100 * ((y / 100) % 10) + 10 * ((y / 10) % 10) + y % 10)
        by (nonlinear_arith)
        requires
            0 <= y <= 9999,
    ;
    assert(m == 10 * (m / 10) + m % 10) by (nonlinear_arith)
        requires
            0 <= m <= 12,
    ;
    assert(d == 10 * (d / 10) + d % 10) by (nonlinear_arith)
        requires
            0 <= d <= 31,
    ;
    assert(text_year(s) == y);
    assert(text_month(s) == m);
    assert(text_day(s) == d);
}

pub(crate) fn digit_of(c: char) -> (r: Option<u8>)
    ensures
        r is Some <==> is_digit(c),
        r matches Some(v) ==> v as int == digit_val(c) && v < 10,
{
    let u: u32 = c as u32;
    if 48 <= u && u <= 57 {
        Some((u - 48) as u8)
    } else {
        None
    }
}

/// Parses `YYYY-MM-DD` text into a date. Returns the date exactly when
/// the text is well shaped and names a real calendar date; returns
/// nothing otherwise.
pub fn parse_date(s: &str) -> (r: Option<Date>)
    ensures
        r is Some <==> valid_date_text(s@),
        r matches Some(dt) ==> dt == date_of_text(s@) && dt.valid() && s@ == date_text(dt),
{
    if s.unicode_len() != 10 {
        return None;
    }
    if s.get_char(4) != '-' || s.get_char(7) != '-' {
        return None;
    }
    let d0 = match digit_of(s.get_char(0)) {
        Some(v) => v,
        None => { return None; },
    };
    let d1 = match digit_of(s.get_char(1)) {
        Some(v) => v,
        None => { return None; },
    };
    let d2 = match digit_of(s.get_char(2)) {
        Some(v) => v,
        None => { return None; },
    };
    let d3 = match digit_of(s.get_char(3)) {
        Some(v) => v,
        None => { return None; },
    };
    let d5 = match digit_of(s.get_char(5)) {
        Some(v) => v,
        None => { return None; },
    };
    let d6 = match digit_of(s.get_char(6)) {
        Some(v) => v,
        None => { return None; },
    };
    let d8 = match digit_of(s.get_char(8)) {
        Some(v) => v,
        None => { return None; },
    };
    let d9 = match digit_of(s.get_char(9)) {
        Some(v) => v,
        None => { return None; },
    };
    let year: u16 = 1000 * (d0 as u16) + 100 * (d1 as u16) + 10 * (d2 as u16) + (d3 as u16);
    let month: u8 = 10 * d5 + d6;
    let day: u8 = 10 * d8 + d9;
    let dt = Date { year, month, day };
    if year < 1 || month < 1 || month > 12 || day < 1 || day > dt.month_length() {
        return None;
    }
    proof {
        lemma_text_round_trip(s@);
    }
    Some(dt)
}

/// Writes a valid date in its canonical `YYYY-MM-DD` text form.
pub fn format_date(dt: &Date) -> (r: String)
    requires
        dt.valid(),
    ensures
        r@ == date_text(*dt),
{
    let mut out = String::new();
    out.append(digit_str((dt.year / 1000) as u8));
    out.append(digit_str(((dt.year / 100) % 10) as u8));
    out.append(digit_str(((dt.year / 10) % 10) as u8));
    out.append(digit_str((dt.year % 10) as u8));
    out.append(hyphen_str());
    out.append(digit_str(dt.month / 10));
    out.append(digit_str(dt.month % 10));
    out.append(hyphen_str());
    out.append(digit_str(dt.day / 10));
    out.append(digit_str(dt.day % 10));
    proof {
        assert(out@ =~= date_text(*dt));
    }
    out
}

fn hyphen_str() -> (r: &'static str)
    ensures
        r@ =~= seq!['-'],
{
    proof {
        reveal_strlit("-");
    }
    "-"
}

pub(crate) fn digit_str(d: u8) -> (r: &'static str)
    requires
        d < 10,
    ensures
        r@ =~= seq![digit_char(d as int)],
{
    proof {
        reveal_strlit("0");
        reveal_strlit("1");
        reveal_strlit("2");
        reveal_strlit("3");
        reveal_strlit("4");
        reveal_strlit("5");
        reveal_strlit("6");
        reveal_strlit("7");
        reveal_strlit("8");
        reveal_strlit("9");
    }
    if d == 0 {
        "0"
    } else if d == 1 {
        "1"
    } else if d == 2 {
        "2"
    } else if d == 3 {
        "3"
    } else if d == 4 {
        "4"
    } else if d == 5 {
        "5"
    } else if d == 6 {
        "6"
    } else if d == 7 {
        "7"
    } else if d == 8 {
        "8"
    } else {
        "9"
    }
}

} // verus!
