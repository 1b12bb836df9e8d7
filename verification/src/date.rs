//! Calendar dates as plain year/month/day values.
//!
//! A `Date` is valid when the year lies in 1..=9999 and the day exists in
//! the (proleptic Gregorian) month. Dates are placed on a single timeline
//! by `day_number`, the count of days since March 1 of year 0; date
//! comparisons, day differences and weekday computations all go through
//! that number.

use vstd::prelude::*;

verus! {

/// One calendar date, held as plain integers.
#[derive(Clone, Copy, Debug, PartialEq, Eq, Structural, Hash)]
pub struct Date {
    pub year: u16,
    pub month: u8,
    pub day: u8,
}

pub open spec fn spec_is_leap_year(y: int) -> bool {
    (y % 4 == 0 && y % 100 != 0) || y % 400 == 0
}

pub open spec fn spec_days_in_month(y: int, m: int) -> int {
    if m == 2 {
        if spec_is_leap_year(y) {
            29
        } else {
            28
        }
    } else if m == 4 || m == 6 || m == 9 || m == 11 {
        30
    } else {
        31
    }
}

pub open spec fn spec_valid_date(y: int, m: int, d: int) -> bool {
    &&& 1 <= y <= 9999
    &&& 1 <= m <= 12
    &&& 1 <= d <= spec_days_in_month(y, m)
}

/// Days since March 1 of year 0, for a valid date.
pub open spec fn spec_day_number(y: int, m: int, d: int) -> int
    recommends
        spec_valid_date(y, m, d),
{
    let yy = if m <= 2 {
        y - 1
    } else {
        y
    };
    let era = yy / 400;
    let yoe = yy - era * 400;
    let mp = if m > 2 {
        m - 3
    } else {
        m + 9
    };
    let doy = (153 * mp + 2) / 5 + d - 1;
    let doe = yoe * 365 + yoe / 4 - yoe / 100 + doy;
    era * 146097 + doe
}

/// ISO weekday of a day number: 1 is Monday, 7 is Sunday.
pub open spec fn spec_iso_weekday_of(dn: int) -> int {
    (dn + 2) % 7 + 1
}

pub open spec fn spec_date_from_ymd(y: u32, m: u32, d: u32) -> Option<Date> {
    if spec_valid_date(y as int, m as int, d as int) {
        Some(Date { year: y as u16, month: m as u8, day: d as u8 })
    } else {
        None
    }
}

pub open spec fn spec_digit_char(n: int) -> char
    recommends
        0 <= n <= 9,
{
    ((48 + n) as u8) as char
}

/// The ten characters of a date in `YYYY-MM-DD` form.
pub open spec fn spec_iso_chars(date: Date) -> Seq<char> {
    let y = date.year as int;
    let m = date.month as int;
    let d = date.day as int;
    seq![
        spec_digit_char(y / 1000),
        spec_digit_char(y / 100 % 10),
        spec_digit_char(y / 10 % 10),
        spec_digit_char(y % 10),
        '-',
        spec_digit_char(m / 10),
        spec_digit_char(m % 10),
        '-',
        spec_digit_char(d / 10),
        spec_digit_char(d % 10),
    ]
}

pub fn is_leap_year(y: u16) -> (r: bool)
    ensures
        r == spec_is_leap_year(y as int),
{
    (y % 4 == 0 && y % 100 != 0) || y % 400 == 0
}

pub fn days_in_month(y: u16, m: u8) -> (r: u8)
    ensures
        r == spec_days_in_month(y as int, m as int),
{
    if m == 2 {
        if is_leap_year(y) {
            29
        } else {
            28
        }
    } else if m == 4 || m == 6 || m == 9 || m == 11 {
        30
    } else {
        31
    }
}

impl Date {
    /// A date is well formed when it names a real calendar day.
    pub open spec fn wf(self) -> bool {
        spec_valid_date(self.year as int, self.month as int, self.day as int)
    }

    /// Position of this date on the timeline: days since March 1, year 0.
    pub open spec fn spec_day_number(self) -> int {
        spec_day_number(self.year as int, self.month as int, self.day as int)
    }

    /// Builds the date for a year, month and day, or `None` when no such
    /// calendar day exists.
    pub fn from_ymd(y: u32, m: u32, d: u32) -> (r: Option<Date>)
        ensures
            r == spec_date_from_ymd(y, m, d),
            r is Some ==> r->Some_0.wf(),
    {
        if 1 <= y && y <= 9999 && 1 <= m && m <= 12 && 1 <= d && d <= days_in_month(
            y as u16,
            m as u8,
        ) as u32 {
            Some(Date { year: y as u16, month: m as u8, day: d as u8 })
        } else {
            None
        }
    }

    /// Days since March 1, year 0.
    pub fn day_number(&self) -> (r: u32)
        requires
            self.wf(),
        ensures
            r == self.spec_day_number(),
            306 <= r <= 3652364,
    {
        let y = self.year as u32;
        let m = self.month as u32;
        let d = self.day as u32;
        let yy: u32 = if m <= 2 {
            y - 1
        } else {
            y
        };
        let era: u32 = yy / 400;
        let yoe: u32 = yy - era * 400;
        let mp: u32 = if m > 2 {
            m - 3
        } else {
            m + 9
        };
        let doy: u32 = (153 * mp + 2) / 5 + d - 1;
        let doe: u32 = yoe * 365 + yoe / 4 - yoe / 100 + doy;
        era * 146097 + doe
    }

    /// ISO weekday: 1 is Monday, 7 is Sunday.
    pub fn iso_weekday(&self) -> (r: u8)
        requires
            self.wf(),
        ensures
            r == spec_iso_weekday_of(self.spec_day_number()),
            1 <= r <= 7,
    {
        let dn = self.day_number();
        (((dn + 2) % 7) + 1) as u8
    }

    /// The date written as `YYYY-MM-DD`.
    pub fn iso_string(&self) -> (r: String)
        requires
            self.wf(),
        ensures
            r@ == spec_iso_chars(*self),
    {
        let y = self.year;
        let m = self.month;
        let d = self.day;
        let mut s = String::new();
        s.append(digit_str((y / 1000) as u8));
        s.append(digit_str((y / 100 % 10) as u8));
        s.append(digit_str((y / 10 % 10) as u8));
        s.append(digit_str((y % 10) as u8));
        s.append(dash_str());
        s.append(digit_str(m / 10));
        s.append(digit_str(m % 10));
        s.append(dash_str());
        s.append(digit_str(d / 10));
        s.append(digit_str(d % 10));
        proof {
            assert(s@ =~= spec_iso_chars(*self));
        }
        s
    }
}

/// One decimal digit as a string slice.
fn digit_str(n: u8) -> (r: &'static str)
    requires
        n <= 9,
    ensures
        r@ =~= seq![spec_digit_char(n as int)],
{
    proof {
        reveal_strlit("0");
        reveal_strlit("1");
        reveal_strlit("2");
        reveal_strlit("3");
        reveal_strlit("4");
        reveal_strlit("5");
        reveal_strlit("6");
        reveal_strlit("7");
        reveal_strlit("8");
        reveal_strlit("9");
    }
    match n {
        0 => "0",
        1 => "1",
        2 => "2",
        3 => "3",
        4 => "4",
        5 => "5",
        6 => "6",
        7 => "7",
        8 => "8",
        _ => "9",
    }
}

fn dash_str() -> (r: &'static str)
    ensures
        r@ =~= seq!['-'],
{
    proof {
        reveal_strlit("-");
    }
    "-"
}

} // verus!
