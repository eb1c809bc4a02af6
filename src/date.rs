use vstd::prelude::*;
use vstd::string::*;

verus! {

/// A calendar date of the proleptic Gregorian calendar, in the year range
/// that the `time` crate covers.
#[derive(Debug, Clone, Copy, PartialEq, Eq, Structural)]
pub struct Date {
    pub year: i32,
    pub month: u8,
    pub day: u8,
}

pub open spec fn is_leap_year(y: int) -> bool {
    (y % 4 == 0 && y % 100 != 0) || y % 400 == 0
}

pub open spec fn days_in_month(y: int, m: int) -> int {
    if m == 2 {
        if is_leap_year(y) {
            29
        } else {
            28
        }
    } else if m == 4 || m == 6 || m == 9 || m == 11 {
        30
    } else {
        31
    }
}

/// Whether year, month and day name a date that this type can hold.
pub open spec fn is_calendar_date(y: int, m: int, d: int) -> bool {
    &&& -9999 <= y <= 9999
    &&& 1 <= m <= 12
    &&& 1 <= d <= days_in_month(y, m)
}

/// The number of days from 1970-01-01 to the given date.
pub open spec fn day_number(y: int, m: int, d: int) -> int {
    let y1 = if m <= 2 {
        y - 1
    } else {
        y
    };
    let era = y1 / 400;
    let yoe = y1 - era * 400;
    let mp = if m > 2 {
        m - 3
    } else {
        m + 9
    };
    let doy = (153 * mp + 2) / 5 + d - 1;
    let doe = yoe * 365 + yoe / 4 - yoe / 100 + doy;
    era * 146097 + doe - 719468
}

/// The ISO weekday (Monday 1 to Sunday 7) of a day number; 1970-01-01 was a
/// Thursday.
pub open spec fn weekday_of_number(n: int) -> int {
    (n + 3) % 7 + 1
}

/// The characters of the decimal digits.
pub open spec fn digit_char(v: int) -> char {
    seq!['0', '1', '2', '3', '4', '5', '6', '7', '8', '9'][v]
}

/// The last `width` decimal digits of `v`, with leading zeros.
pub open spec fn padded(v: nat, width: nat) -> Seq<char>
    decreases width,
{
    if width == 0 {
        Seq::empty()
    } else {
        padded(v / 10, (width - 1) as nat).push(digit_char((v % 10) as int))
    }
}

/// A date written as `YYYY-MM-DD`, with a leading `-` before a negative year.
pub open spec fn date_text(y: int, m: int, d: int) -> Seq<char> {
    let sign = if y < 0 {
        seq!['-']
    } else {
        Seq::empty()
    };
    let ay = if y < 0 {
        -y
    } else {
        y
    };
    sign + padded(ay as nat, 4) + seq!['-'] + padded(m as nat, 2) + seq!['-'] + padded(d as nat, 2)
}

pub open spec fn is_digit(c: char) -> bool {
    '0' <= c <= '9'
}

/// The number that the digits `from..to` of `t` spell.
pub open spec fn digits_value(t: Seq<char>, from: int, to: int) -> int
    decreases to - from,
{
    if to <= from {
        0
    } else {
        digits_value(t, from, to - 1) * 10 + (t[to - 1] as int - '0' as int)
    }
}

/// Whether the characters `from..to` of `t` are all digits.
pub open spec fn all_digits(t: Seq<char>, from: int, to: int) -> bool {
    forall|i: int| from <= i < to ==> is_digit(#[trigger] t[i])
}

/// The date that a text in the `[year]-[month]-[day]` format gives, as
/// year, month and day: an optional `+` or `-`, four digits, `-`, two
/// digits, `-`, two digits and nothing more, where year, month and day make
/// a valid date.
pub open spec fn calendar_date_of_text(t: Seq<char>) -> Option<(int, int, int)> {
    let signed = t.len() > 0 && (t[0] == '-' || t[0] == '+');
    let off: int = if signed {
        1
    } else {
        0
    };
    if t.len() == off + 10 && all_digits(t, off, off + 4) && t[off + 4] == '-' && all_digits(
        t,
        off + 5,
        off + 7,
    ) && t[off + 7] == '-' && all_digits(t, off + 8, off + 10) {
        let magnitude = digits_value(t, off, off + 4);
        let y = if signed && t[0] == '-' {
            -magnitude
        } else {
            magnitude
        };
        let m = digits_value(t, off + 5, off + 7);
        let d = digits_value(t, off + 8, off + 10);
        if is_calendar_date(y, m, d) {
            Some((y, m, d))
        } else {
            None
        }
    } else {
        None
    }
}

/// Relies on time::format_description::parse and time::Date::parse with
/// the `[year]-[month]-[day]` description; without the `large-dates`
/// feature its year is an optional sign and four digits: the date it reads
/// is the one the text spells.
#[verifier::external_body]
fn parse_with_time(text: &str) -> (r: Option<Date>)
    ensures
        match r {
            Some(d) => d.wf() && calendar_date_of_text(text@) == Some(
                (d.year as int, d.month as int, d.day as int),
            ),
            None => calendar_date_of_text(text@) is None,
        },
{
    let format = time::format_description::parse("[year]-[month]-[day]").ok()?;
    let date = time::Date::parse(text, &format).ok()?;
    Some(Date { year: date.year(), month: date.month() as u8, day: date.day() })
}

/// Relies on time::Date::weekday and Weekday::number_from_monday: the ISO
/// weekday of a valid date.
#[verifier::external_body]
fn weekday_with_time(date: &Date) -> (r: u8)
    requires
        date.wf(),
    ensures
        r as int == weekday_of_number(date.day_number()),
{
    let month = time::Month::try_from(date.month).unwrap();
    time::Date::from_calendar_date(date.year, month, date.day).unwrap().weekday().number_from_monday()
}

fn push_digit(out: &mut String, v: u32)
    requires
        v < 10,
    ensures
        final(out)@ == old(out)@.push(digit_char(v as int)),
{
    let digits = "0123456789";
    proof {
        reveal_strlit("0123456789");
    }
    let v = v as usize;
    out.append(digits.substring_char(v, v + 1));
    assert(final(out)@ =~= old(out)@.push(digit_char(v as int)));
}

proof fn lemma_padded4(v: nat)
    requires
        v < 10000,
    ensures
        padded(v, 4) == seq![
            digit_char((v / 1000) as int),
            digit_char((v / 100 % 10) as int),
            digit_char((v / 10 % 10) as int),
            digit_char((v % 10) as int),
        ],
{
    reveal_with_fuel(padded, 5);
    assert(v / 10 / 10 == v / 100);
    assert(v / 100 / 10 == v / 1000);
    assert(v / 1000 / 10 == 0);
    assert(v / 1000 % 10 == v / 1000);
    assert(padded(v, 4) =~= seq![
        digit_char((v / 1000) as int),
        digit_char((v / 100 % 10) as int),
        digit_char((v / 10 % 10) as int),
        digit_char((v % 10) as int),
    ]);
}

proof fn lemma_padded2(v: nat)
    requires
        v < 100,
    ensures
        padded(v, 2) == seq![digit_char((v / 10) as int), digit_char((v % 10) as int)],
{
    reveal_with_fuel(padded, 3);
    assert(v / 10 / 10 == 0);
    assert(v / 10 % 10 == v / 10);
    assert(padded(v, 2) =~= seq![digit_char((v / 10) as int), digit_char((v % 10) as int)]);
}

fn push_padded2(out: &mut String, v: u32)
    requires
        v < 100,
    ensures
        final(out)@ == old(out)@ + padded(v as nat, 2),
{
    push_digit(out, v / 10);
    push_digit(out, v % 10);
    proof {
        lemma_padded2(v as nat);
    }
    assert(final(out)@ =~= old(out)@ + padded(v as nat, 2));
}

fn push_padded4(out: &mut String, v: u32)
    requires
        v < 10000,
    ensures
        final(out)@ == old(out)@ + padded(v as nat, 4),
{
    push_digit(out, v / 1000);
    push_digit(out, v / 100 % 10);
    push_digit(out, v / 10 % 10);
    push_digit(out, v % 10);
    proof {
        lemma_padded4(v as nat);
    }
    assert(final(out)@ =~= old(out)@ + padded(v as nat, 4));
}

impl Date {
    /// Year, month and day make a valid date.
    pub open spec fn wf(&self) -> bool {
        is_calendar_date(self.year as int, self.month as int, self.day as int)
    }

    pub open spec fn day_number(&self) -> int {
        day_number(self.year as int, self.month as int, self.day as int)
    }

    pub open spec fn weekday_spec(&self) -> int {
        weekday_of_number(self.day_number())
    }

    /// The date of the given year, month (1 to 12) and day, if there is one.
    pub fn from_calendar_date(year: i32, month: u8, day: u8) -> (r: Option<Date>)
        ensures
            r is Some <==> is_calendar_date(year as int, month as int, day as int),
            r matches Some(d) ==> d.year == year && d.month == month && d.day == day,
    {
        if year < -9999 || year > 9999 || month < 1 || month > 12 || day < 1 {
            return None;
        }
        let leap = (year % 4 == 0 && year % 100 != 0) || year % 400 == 0;
        let days: u8 = if month == 2 {
            if leap {
                29
            } else {
                28
            }
        } else if month == 4 || month == 6 || month == 9 || month == 11 {
            30
        } else {
            31
        };
        if day > days {
            None
        } else {
            Some(Date { year, month, day })
        }
    }

    /// Reads a date in `YYYY-MM-DD` form, as the `time` crate reads it.
    pub fn parse(text: &str) -> (r: Option<Date>)
        ensures
            match r {
                Some(d) => d.wf() && calendar_date_of_text(text@) == Some(
                    (d.year as int, d.month as int, d.day as int),
                ),
                None => calendar_date_of_text(text@) is None,
            },
    {
        parse_with_time(text)
    }

    /// The ISO weekday: 1 for Monday through 7 for Sunday.
    pub fn weekday(&self) -> (r: u8)
        requires
            self.wf(),
        ensures
            r as int == self.weekday_spec(),
            1 <= r <= 7,
    {
        weekday_with_time(self)
    }

    /// The date as `YYYY-MM-DD`.
    pub fn to_text(&self) -> (r: String)
        requires
            self.wf(),
        ensures
            r@ == date_text(self.year as int, self.month as int, self.day as int),
    {
        let mut out = String::new();
        let ay: u32 = if self.year < 0 {
            proof {
                reveal_strlit("-");
            }
            out.append("-");
            (-self.year) as u32
        } else {
            self.year as u32
        };
        push_padded4(&mut out, ay);
        proof {
            reveal_strlit("-");
        }
        out.append("-");
        push_padded2(&mut out, self.month as u32);
        out.append("-");
        push_padded2(&mut out, self.day as u32);
        assert(out@ =~= date_text(self.year as int, self.month as int, self.day as int));
        out
    }
}

} // verus!
