//! Calendar dates and months. Every question this crate answers is scoped to
//! one month, a `Period`.
use vstd::prelude::*;

use crate::error::Error;
use crate::text::{
    chars_of, dec, find_char, index_of, is_digit, lemma_index_of, lemma_zero_pad_value,
    parse_int_range, push_char, push_padded, push_str, std_parse_int, string_of, zero_pad,
};

verus! {

// ---- the Gregorian calendar ------------------------------------------------

/// The proleptic Gregorian leap rule: every fourth year, except centuries,
/// except every fourth century.
pub open spec fn is_leap_year(y: int) -> bool {
    (y % 4 == 0 && y % 100 != 0) || y % 400 == 0
}

/// How many days month `m` of year `y` has.
pub open spec fn month_length(y: int, m: int) -> int {
    if m == 2 {
        if is_leap_year(y) {
            29
        } else {
            28
        }
    } else if m == 4 || m == 6 || m == 9 || m == 11 {
        30
    } else {
        31
    }
}

/// The first and last year chrono's `NaiveDate` can hold.
pub open spec fn first_calendar_year() -> int {
    -262143
}

pub open spec fn last_calendar_year() -> int {
    262142
}

/// Month `m` of year `y` and the month after it both lie within the years
/// chrono's `NaiveDate` can hold.
pub open spec fn in_calendar(y: int, m: int) -> bool {
    &&& 1 <= m <= 12
    &&& first_calendar_year() <= y
    &&& (if m == 12 {
        y + 1
    } else {
        y
    }) <= last_calendar_year()
}

/// chrono: the number of days from the first of month `month` of `year` to
/// the first of the month after it (`next_year`, `next_month`), that is, the
/// month's length in chrono's proleptic Gregorian calendar.
#[verifier::external_body]
fn chrono_month_length(year: i32, month: u32, next_year: i32, next_month: u32) -> (n: i64)
    requires
        in_calendar(year as int, month as int),
        month == 12 ==> next_year == year + 1 && next_month == 1,
        month < 12 ==> next_year == year && next_month == month + 1,
    ensures
        n == month_length(year as int, month as int),
{
    let first = chrono::NaiveDate::from_ymd_opt(year, month, 1).unwrap();
    let first_next = chrono::NaiveDate::from_ymd_opt(next_year, next_month, 1).unwrap();
    (first_next - first).num_days()
}

// ---- dates -----------------------------------------------------------------

/// A calendar date, as plain numbers.
#[derive(Debug, Clone, Copy, PartialEq, Eq, Structural, Hash)]
pub struct Date {
    pub year: i32,
    pub month: u32,
    pub day: u32,
}

/// `{:0w}`-style rendering of a non-negative number: at least `w` digits.
pub open spec fn padded(n: int, w: nat) -> Seq<char> {
    zero_pad(dec(n as nat), w)
}

/// A year as ISO 8601 writes it: four digits within 0..=9999, otherwise an
/// explicit sign and at least four digits.
pub open spec fn iso_year(y: int) -> Seq<char> {
    if 0 <= y <= 9999 {
        padded(y, 4)
    } else if y < 0 {
        seq!['-'] + padded(-y, 4)
    } else {
        seq!['+'] + padded(y, 4)
    }
}

/// `YYYY-MM-DD`, as chrono's `NaiveDate` renders itself.
pub open spec fn date_text(d: Date) -> Seq<char> {
    iso_year(d.year as int) + seq!['-'] + padded(d.month as int, 2) + seq!['-'] + padded(
        d.day as int,
        2,
    )
}

impl Date {
    /// A real day of the calendar chrono can hold.
    pub open spec fn valid(self) -> bool {
        &&& 1 <= self.month <= 12
        &&& first_calendar_year() <= self.year <= last_calendar_year()
        &&& 1 <= self.day <= month_length(self.year as int, self.month as int)
    }

    /// Strictly earlier in the calendar.
    pub open spec fn precedes(self, other: Date) -> bool {
        ||| self.year < other.year
        ||| self.year == other.year && self.month < other.month
        ||| self.year == other.year && self.month == other.month && self.day < other.day
    }

    /// Whether `self` falls strictly before `other`.
    pub fn is_before(&self, other: &Date) -> (b: bool)
        ensures
            b == self.precedes(*other),
    {
        self.year < other.year || (self.year == other.year && self.month < other.month) || (
        self.year == other.year && self.month == other.month && self.day < other.day)
    }

    /// `YYYY-MM-DD`.
    pub fn to_string(&self) -> (s: String)
        ensures
            s@ == date_text(*self),
    {
        let mut s = String::new();
        let y = self.year as i64;
        if 0 <= y && y <= 9999 {
            push_padded(&mut s, y as u64, 4);
        } else if y < 0 {
            push_char(&mut s, '-');
            push_padded(&mut s, (-y) as u64, 4);
        } else {
            push_char(&mut s, '+');
            push_padded(&mut s, y as u64, 4);
        }
        push_char(&mut s, '-');
        push_padded(&mut s, self.month as u64, 2);
        push_char(&mut s, '-');
        push_padded(&mut s, self.day as u64, 2);
        proof {
            assert(s@ =~= date_text(*self));
        }
        s
    }
}

// ---- periods ---------------------------------------------------------------

/// One calendar month. Every question this crate answers is scoped to one.
#[derive(Debug, Clone, Copy, PartialEq, Eq, Structural, PartialOrd, Ord, Hash)]
pub struct Period {
    pub year: i32,
    pub month: u32,
}

/// Chronological order of months.
pub open spec fn period_lt(a: Period, b: Period) -> bool {
    a.year < b.year || (a.year == b.year && a.month < b.month)
}

/// A signed year as `{:04}` writes it: the sign counts toward the width.
pub open spec fn year_text(y: int) -> Seq<char> {
    if y < 0 {
        seq!['-'] + padded(-y, 3)
    } else {
        padded(y, 4)
    }
}

/// `YYYY-MM`.
pub open spec fn period_text(p: Period) -> Seq<char> {
    year_text(p.year as int) + seq!['-'] + padded(p.month as int, 2)
}

/// A signed number as `{}` writes it.
pub open spec fn signed_text(n: int) -> Seq<char> {
    if n < 0 {
        seq!['-'] + dec((-n) as nat)
    } else {
        dec(n as nat)
    }
}

/// The English name of month `m`.
pub open spec fn month_name(m: int) -> Seq<char> {
    if m == 1 {
        "January"@
    } else if m == 2 {
        "February"@
    } else if m == 3 {
        "March"@
    } else if m == 4 {
        "April"@
    } else if m == 5 {
        "May"@
    } else if m == 6 {
        "June"@
    } else if m == 7 {
        "July"@
    } else if m == 8 {
        "August"@
    } else if m == 9 {
        "September"@
    } else if m == 10 {
        "October"@
    } else if m == 11 {
        "November"@
    } else {
        "December"@
    }
}

/// The year and month `YYYY-MM` text spells, when both are numbers: the
/// text before the first `-` read as an `i32`, the text after it as a `u32`.
pub open spec fn period_fields(s: Seq<char>) -> Option<(int, int)> {
    let i = index_of(s, '-');
    if i >= s.len() {
        None
    } else {
        let y = std_parse_int(s.subrange(0, i), true, i32::MIN as int, i32::MAX as int);
        let m = std_parse_int(s.subrange(i + 1, s.len() as int), false, 0, u32::MAX as int);
        if y is Some && m is Some {
            Some((y->0, m->0))
        } else {
            None
        }
    }
}

fn month_name_str(m: u32) -> (s: &'static str)
    requires
        1 <= m <= 12,
    ensures
        s@ == month_name(m as int),
{
    if m == 1 {
        "January"
    } else if m == 2 {
        "February"
    } else if m == 3 {
        "March"
    } else if m == 4 {
        "April"
    } else if m == 5 {
        "May"
    } else if m == 6 {
        "June"
    } else if m == 7 {
        "July"
    } else if m == 8 {
        "August"
    } else if m == 9 {
        "September"
    } else if m == 10 {
        "October"
    } else if m == 11 {
        "November"
    } else {
        "December"
    }
}

/// `r` is what reading `s` as `YYYY-MM` gives: the period its two fields
/// name when the month is 1..=12; the month refused when it is not; the
/// text refused when it has no such fields.
pub open spec fn period_read(s: Seq<char>, r: Result<Period, Error>) -> bool {
    match r {
        Ok(p) => period_fields(s) == Some((p.year as int, p.month as int)) && 1 <= p.month <= 12,
        Err(e) => match period_fields(s) {
            None => e matches Error::NotAPeriod(t) && t@ == s,
            Some((y, m)) => !(1 <= m <= 12) && e == Error::MonthOutOfRange(m as u32),
        },
    }
}

impl Period {
    pub fn new(year: i32, month: u32) -> (r: Result<Period, Error>)
        ensures
            1 <= month <= 12 ==> r == Ok::<Period, Error>(Period { year, month }),
            !(1 <= month <= 12) ==> r == Err::<Period, Error>(Error::MonthOutOfRange(month)),
    {
        if month < 1 || month > 12 {
            return Err(Error::MonthOutOfRange(month));
        }
        Ok(Period { year, month })
    }

    /// The month a date falls in.
    pub fn of(date: Date) -> (p: Period)
        ensures
            p == (Period { year: date.year, month: date.month }),
    {
        Period { year: date.year, month: date.month }
    }

    /// `YYYY-MM`: the year before the first `-`, the month after it, both
    /// read as integers; the month must then be 1..=12.
    pub fn parse(s: &str) -> (r: Result<Period, Error>)
        ensures
            period_read(s@, r),
    {
        let cs = chars_of(s);
        let n = cs.len();
        let i = find_char(&cs, '-');
        proof {
            lemma_index_of(cs@, '-');
        }
        if i >= n {
            return Err(Error::NotAPeriod(string_of(&cs)));
        }
        let y = parse_int_range(&cs, 0, i, true, -0x8000_0000, 0x7fff_ffff);
        let m = parse_int_range(&cs, i + 1, n, false, 0, 0xffff_ffff);
        match (y, m) {
            (Some(y), Some(m)) => Period::new(y as i32, m as u32),
            _ => Err(Error::NotAPeriod(string_of(&cs))),
        }
    }

    /// Whether this month, and the one after it, lie within the years the
    /// calendar can hold, so that its due dates can be resolved.
    pub fn resolvable(&self) -> (b: bool)
        ensures
            b == in_calendar(self.year as int, self.month as int),
    {
        1 <= self.month && self.month <= 12 && self.year >= -262143 && (if self.month == 12 {
            self.year < 262142
        } else {
            self.year <= 262142
        })
    }

    /// How many days this month has.
    pub fn days(&self) -> (n: u32)
        requires
            in_calendar(self.year as int, self.month as int),
        ensures
            n == month_length(self.year as int, self.month as int),
            28 <= n <= 31,
    {
        let (ny, nm) = if self.month == 12 {
            (self.year + 1, 1)
        } else {
            (self.year, self.month + 1)
        };
        chrono_month_length(self.year, self.month, ny, nm) as u32
    }

    /// Resolve a day-of-month against this period. A due day past the end of
    /// the month is CLAMPED, never rolled into the next one: day 31 in
    /// February is the 28th (or 29th), so the expense still falls due in the
    /// month it belongs to instead of quietly skipping it.
    pub fn day(&self, due_day: u32) -> (d: Date)
        requires
            in_calendar(self.year as int, self.month as int),
        ensures
            d == self.due_date(due_day),
            d.valid(),
    {
        let last = self.days();
        let day = if due_day < 1 {
            1
        } else if due_day > last {
            last
        } else {
            due_day
        };
        Date { year: self.year, month: self.month, day }
    }

    /// The month before this one.
    pub open spec fn preceding(self) -> Period {
        if self.month == 1 {
            Period { year: (self.year - 1) as i32, month: 12 }
        } else {
            Period { year: self.year, month: (self.month - 1) as u32 }
        }
    }

    /// The month after this one.
    pub open spec fn following(self) -> Period {
        if self.month == 12 {
            Period { year: (self.year + 1) as i32, month: 1 }
        } else {
            Period { year: self.year, month: (self.month + 1) as u32 }
        }
    }

    /// `due_day` clamped into this month: below 1 is the 1st, past the end
    /// is the last day, never a day of the next month.
    pub open spec fn due_date(self, due_day: u32) -> Date {
        let last = month_length(self.year as int, self.month as int);
        Date {
            year: self.year,
            month: self.month,
            day: (if due_day < 1 {
                1
            } else if due_day > last {
                last
            } else {
                due_day as int
            }) as u32,
        }
    }

    pub fn prev(&self) -> (p: Period)
        requires
            self.month != 0,
            self.month == 1 ==> self.year > i32::MIN,
        ensures
            p == self.preceding(),
    {
        if self.month == 1 {
            Period { year: self.year - 1, month: 12 }
        } else {
            Period { year: self.year, month: self.month - 1 }
        }
    }

    pub fn next(&self) -> (p: Period)
        requires
            self.month != u32::MAX,
            self.month == 12 ==> self.year < i32::MAX,
        ensures
            p == self.following(),
    {
        if self.month == 12 {
            Period { year: self.year + 1, month: 1 }
        } else {
            Period { year: self.year, month: self.month + 1 }
        }
    }

    /// "August 2026".
    pub fn label(&self) -> (s: String)
        requires
            1 <= self.month <= 12,
        ensures
            s@ == month_name(self.month as int) + seq![' '] + signed_text(self.year as int),
    {
        let mut s = String::new();
        push_str(&mut s, month_name_str(self.month));
        push_char(&mut s, ' ');
        let y = self.year as i64;
        if y < 0 {
            push_char(&mut s, '-');
            push_padded(&mut s, (-y) as u64, 0);
        } else {
            push_padded(&mut s, y as u64, 0);
        }
        proof {
            assert(zero_pad(dec((-(self.year as int)) as nat), 0) == dec((-(self.year as int)) as nat));
            assert(zero_pad(dec(self.year as nat), 0) == dec(self.year as nat));
            assert(s@ =~= month_name(self.month as int) + seq![' '] + signed_text(self.year as int));
        }
        s
    }

    /// `YYYY-MM`, the form `parse` reads.
    pub fn to_string(&self) -> (s: String)
        ensures
            s@ == period_text(*self),
    {
        let mut s = String::new();
        let y = self.year as i64;
        if y < 0 {
            push_char(&mut s, '-');
            push_padded(&mut s, (-y) as u64, 3);
        } else {
            push_padded(&mut s, y as u64, 4);
        }
        push_char(&mut s, '-');
        push_padded(&mut s, self.month as u64, 2);
        proof {
            assert(s@ =~= period_text(*self));
        }
        s
    }
}

// ---- laws ------------------------------------------------------------------

/// Stepping forward then back (or back then forward) returns to the same
/// month, and the steps move strictly forward and back in time, across the
/// year boundary too.
pub proof fn stepping_is_inverse_and_chronological(p: Period)
    requires
        1 <= p.month <= 12,
        i32::MIN < p.year < i32::MAX,
    ensures
        p.following().preceding() == p,
        p.preceding().following() == p,
        period_lt(p.preceding(), p),
        period_lt(p, p.following()),
        1 <= p.following().month <= 12,
        1 <= p.preceding().month <= 12,
{
}

/// Parsing what `to_string` writes gives the same month back, for every
/// month of a year from 0 on. (A negative year is written with a leading
/// `-`, which the reader takes as the year/month separator.)
pub proof fn period_text_parses_back(p: Period)
    requires
        1 <= p.month <= 12,
        p.year >= 0,
    ensures
        period_fields(period_text(p)) == Some((p.year as int, p.month as int)),
{
    let y = year_text(p.year as int);
    let m = padded(p.month as int, 2);
    let s = period_text(p);
    lemma_zero_pad_value(p.year as nat, 4);
    lemma_zero_pad_value(p.month as nat, 2);
    assert(s == y + seq!['-'] + m);
    lemma_index_of(s, '-');
    let i = index_of(s, '-');
    assert(i == y.len()) by {
        if i < y.len() {
            assert(s[i] == y[i]);
            assert(is_digit(y[i]));
        }
        assert(s[y.len() as int] == '-');
    }
    assert(s.subrange(0, i) =~= y);
    assert(s.subrange(i + 1, s.len() as int) =~= m);
    assert(y[0] != '+' && y[0] != '-') by {
        assert(is_digit(y[0]));
    }
    assert(m[0] != '+' && m[0] != '-') by {
        assert(is_digit(m[0]));
    }
}


/// A due day is clamped into its month, never rolled into the next: the
/// date it resolves to lies in the same month, on the day itself when the
/// month has it and on the month's last day when it does not.
pub proof fn due_dates_stay_in_their_month(p: Period, due_day: u32)
    requires
        1 <= p.month <= 12,
        1 <= due_day,
    ensures
        p.due_date(due_day).year == p.year,
        p.due_date(due_day).month == p.month,
        due_day <= month_length(p.year as int, p.month as int) ==> p.due_date(due_day).day == due_day,
        due_day > month_length(p.year as int, p.month as int) ==> p.due_date(due_day).day == month_length(
            p.year as int,
            p.month as int,
        ),
        1 <= p.due_date(due_day).day <= month_length(p.year as int, p.month as int),
{
}

} // verus!
