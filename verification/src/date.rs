//! Calendar dates and date ranges.
//!
//! Dates are plain `(year, month, day)` triples in the proleptic Gregorian
//! calendar, restricted to the years 1 through 9999 so that every date has a
//! fixed-width four-digit year in its textual form. All calendar arithmetic
//! (validity, successor, range enumeration) is defined and verified here.

use vstd::prelude::*;

verus! {

/// A calendar date. `valid()` is the intended invariant; functions that
/// construct dates return valid ones, and functions that consume dates
/// require validity where they rely on it.
#[derive(Clone, Copy, PartialEq, Eq, Structural, Debug)]
pub struct Date {
    pub year: i32,
    pub month: u32,
    pub day: u32,
}

/// Gregorian leap-year rule.
pub open spec fn spec_is_leap_year(year: i32) -> bool {
    (year % 4 == 0 && year % 100 != 0) || year % 400 == 0
}

/// Number of days in a month of a given year.
pub open spec fn spec_days_in_month(year: i32, month: u32) -> u32 {
    if month == 2 {
        if spec_is_leap_year(year) {
            29
        } else {
            28
        }
    } else if month == 4 || month == 6 || month == 9 || month == 11 {
        30
    } else {
        31
    }
}

/// Whether `(year, month, day)` names a real calendar day in the supported
/// year span.
pub open spec fn spec_valid_ymd(year: i32, month: u32, day: u32) -> bool {
    &&& 1 <= year <= 9999
    &&& 1 <= month <= 12
    &&& 1 <= day <= spec_days_in_month(year, month)
}

pub fn is_leap_year(year: i32) -> (r: bool)
    ensures
        r == spec_is_leap_year(year),
{
    (year % 4 == 0 && year % 100 != 0) || year % 400 == 0
}

pub fn days_in_month(year: i32, month: u32) -> (r: u32)
    ensures
        r == spec_days_in_month(year, month),
{
    if month == 2 {
        if is_leap_year(year) {
            29
        } else {
            28
        }
    } else if month == 4 || month == 6 || month == 9 || month == 11 {
        30
    } else {
        31
    }
}

impl Date {
    pub open spec fn valid(self) -> bool {
        spec_valid_ymd(self.year, self.month, self.day)
    }

    /// Injective numbering of dates that orders them exactly as the calendar
    /// does: later dates get strictly larger numbers. Months are padded to 31
    /// slots and years to 372, which leaves gaps but preserves order.
    pub open spec fn ord(self) -> int {
        (self.year as int) * 372 + ((self.month as int) - 1) * 31 + ((self.day as int) - 1)
    }

    /// The calendar day after this one.
    pub open spec fn spec_next(self) -> Date {
        if self.day < spec_days_in_month(self.year, self.month) {
            Date { year: self.year, month: self.month, day: (self.day + 1) as u32 }
        } else if self.month < 12 {
            Date { year: self.year, month: (self.month + 1) as u32, day: 1 }
        } else {
            Date { year: (self.year + 1) as i32, month: 1, day: 1 }
        }
    }

    /// The date `date` is valid exactly when `from_ymd` accepts it.
    pub fn from_ymd(year: i32, month: u32, day: u32) -> (r: Option<Date>)
        ensures
            r is Some <==> spec_valid_ymd(year, month, day),
            r matches Some(d) ==> d == (Date { year, month, day }) && d.valid(),
    {
        if 1 <= year && year <= 9999 && 1 <= month && month <= 12 && 1 <= day && day
            <= days_in_month(year, month) {
            Some(Date { year, month, day })
        } else {
            None
        }
    }

    /// The date's order key as a machine integer.
    pub fn ord_key(&self) -> (r: i64)
        requires
            self.valid(),
        ensures
            r as int == self.ord(),
    {
        (self.year as i64) * 372 + ((self.month as i64) - 1) * 31 + ((self.day as i64) - 1)
    }

    pub fn le(&self, other: &Date) -> (r: bool)
        requires
            self.valid(),
            other.valid(),
        ensures
            r == (self.ord() <= other.ord()),
    {
        self.ord_key() <= other.ord_key()
    }

    pub fn lt(&self, other: &Date) -> (r: bool)
        requires
            self.valid(),
            other.valid(),
        ensures
            r == (self.ord() < other.ord()),
    {
        self.ord_key() < other.ord_key()
    }

    /// The next calendar day.
    pub fn next_day(&self) -> (r: Date)
        requires
            self.valid(),
            self.ord() < max_date().ord(),
        ensures
            r == self.spec_next(),
            r.valid(),
            self.ord() < r.ord(),
    {
        proof {
            lemma_next_day(*self);
        }
        if self.day < days_in_month(self.year, self.month) {
            Date { year: self.year, month: self.month, day: self.day + 1 }
        } else if self.month < 12 {
            Date { year: self.year, month: self.month + 1, day: 1 }
        } else {
            Date { year: self.year + 1, month: 1, day: 1 }
        }
    }
}

/// The decimal digit character for a value below ten.
pub open spec fn digit_char(d: int) -> char {
    if d == 0 {
        '0'
    } else if d == 1 {
        '1'
    } else if d == 2 {
        '2'
    } else if d == 3 {
        '3'
    } else if d == 4 {
        '4'
    } else if d == 5 {
        '5'
    } else if d == 6 {
        '6'
    } else if d == 7 {
        '7'
    } else if d == 8 {
        '8'
    } else {
        '9'
    }
}

/// A number written with exactly two decimal digits.
pub open spec fn dec2(n: int) -> Seq<char> {
    seq![digit_char(n / 10 % 10), digit_char(n % 10)]
}

/// A number written with exactly four decimal digits.
pub open spec fn dec4(n: int) -> Seq<char> {
    seq![digit_char(n / 1000 % 10), digit_char(n / 100 % 10), digit_char(n / 10 % 10), digit_char(
        n % 10,
    )]
}

/// Appends one decimal digit character.
fn push_digit(s: &mut String, d: u32)
    requires
        d < 10,
    ensures
        final(s)@ == old(s)@ + seq![digit_char(d as int)],
{
    proof {
        reveal_strlit("0");
        reveal_strlit("1");
        reveal_strlit("2");
        reveal_strlit("3");
        reveal_strlit("4");
        reveal_strlit("5");
        reveal_strlit("6");
        reveal_strlit("7");
        reveal_strlit("8");
        reveal_strlit("9");
    }
    match d {
        0 => s.append("0"),
        1 => s.append("1"),
        2 => s.append("2"),
        3 => s.append("3"),
        4 => s.append("4"),
        5 => s.append("5"),
        6 => s.append("6"),
        7 => s.append("7"),
        8 => s.append("8"),
        _ => s.append("9"),
    }
    proof {
        assert(final(s)@ =~= old(s)@ + seq![digit_char(d as int)]);
    }
}

/// Appends a number as exactly two decimal digits.
pub fn append_dec2(s: &mut String, n: u32)
    requires
        n < 100,
    ensures
        final(s)@ == old(s)@ + dec2(n as int),
{
    push_digit(s, n / 10 % 10);
    push_digit(s, n % 10);
    proof {
        assert(final(s)@ =~= old(s)@ + dec2(n as int));
    }
}

/// Appends a number as exactly four decimal digits.
pub fn append_dec4(s: &mut String, n: u32)
    requires
        n < 10000,
    ensures
        final(s)@ == old(s)@ + dec4(n as int),
{
    push_digit(s, n / 1000 % 10);
    push_digit(s, n / 100 % 10);
    push_digit(s, n / 10 % 10);
    push_digit(s, n % 10);
    proof {
        assert(final(s)@ =~= old(s)@ + dec4(n as int));
    }
}

impl Date {
    /// The date in `YYYY-MM-DD` form.
    pub open spec fn spec_iso(self) -> Seq<char> {
        dec4(self.year as int) + seq!['-'] + dec2(self.month as int) + seq!['-'] + dec2(
            self.day as int,
        )
    }

    /// Writes the date as `YYYY-MM-DD`.
    pub fn to_iso_string(&self) -> (r: String)
        requires
            self.valid(),
        ensures
            r@ == self.spec_iso(),
    {
        proof {
            reveal_strlit("-");
        }
        let mut s = String::new();
        append_dec4(&mut s, self.year as u32);
        s.append("-");
        append_dec2(&mut s, self.month);
        s.append("-");
        append_dec2(&mut s, self.day);
        proof {
            assert("-"@ =~= seq!['-']);
            assert(s@ =~= self.spec_iso());
        }
        s
    }
}

/// The last supported date.
pub open spec fn max_date() -> Date {
    Date { year: 9999, month: 12, day: 31 }
}

/// Every valid date sits at or below `max_date` in the ordering.
pub proof fn lemma_ord_bounded(d: Date)
    requires
        d.valid(),
    ensures
        d.ord() <= max_date().ord(),
{
}

/// The numbering `ord` is injective on valid dates.
pub proof fn lemma_ord_injective(a: Date, b: Date)
    requires
        a.valid(),
        b.valid(),
        a.ord() == b.ord(),
    ensures
        a == b,
{
    assert(a.year == b.year) by {
        assert(((a.month as int) - 1) * 31 + ((a.day as int) - 1) <= 371);
        assert(((b.month as int) - 1) * 31 + ((b.day as int) - 1) <= 371);
    }
    assert(a.month == b.month) by {
        assert((a.day as int) - 1 <= 30);
        assert((b.day as int) - 1 <= 30);
    }
}

/// `spec_next` yields the immediate successor: a valid, strictly later date
/// with no valid date strictly between.
pub proof fn lemma_next_day(d: Date)
    requires
        d.valid(),
        d.ord() < max_date().ord(),
    ensures
        d.spec_next().valid(),
        d.ord() < d.spec_next().ord(),
        forall|e: Date| e.valid() && e.ord() > d.ord() ==> e.ord() >= d.spec_next().ord(),
{
    let n = d.spec_next();
    assert(n.valid());
    assert forall|e: Date| e.valid() && e.ord() > d.ord() implies e.ord() >= n.ord() by {
        assert(((e.month as int) - 1) * 31 + ((e.day as int) - 1) <= 371);
        assert(((d.month as int) - 1) * 31 + ((d.day as int) - 1) <= 371);
        if e.year == d.year {
            if e.month == d.month {
                assert(e.ord() >= n.ord());
            } else if e.month > d.month {
                assert(((e.month as int) - 1) * 31 >= (d.month as int) * 31);
            } else {
                assert(((e.month as int) - 1) * 31 + ((e.day as int) - 1) < ((d.month as int) - 1)
                    * 31);
            }
        } else if e.year > d.year {
            assert(e.ord() >= ((d.year as int) + 1) * 372);
        } else {
            assert(e.ord() < (d.year as int) * 372);
        }
    }
}

/// How a range was chosen, for display purposes: a single day, the week
/// starting at a date, or the month starting at a date.
#[derive(Clone, Copy, PartialEq, Eq, Structural, Debug)]
pub enum ViewScope {
    Day(Date),
    Week(Date),
    Month(Date),
}

/// An inclusive span of calendar dates.
#[derive(Clone, Copy, PartialEq, Eq, Structural, Debug)]
pub struct DateRange {
    pub start: Date,
    pub end: Date,
    pub scope: ViewScope,
}

impl DateRange {
    pub open spec fn valid(self) -> bool {
        self.start.valid() && self.end.valid()
    }

    pub fn start(&self) -> (r: Date)
        ensures
            r == self.start,
    {
        self.start
    }

    pub fn end(&self) -> (r: Date)
        ensures
            r == self.end,
    {
        self.end
    }

    /// The one-day range containing exactly `date`.
    pub fn day(date: Date) -> (r: DateRange)
        requires
            date.valid(),
        ensures
            r.start == date,
            r.end == date,
            r.scope == ViewScope::Day(date),
            r.valid(),
    {
        DateRange { start: date, end: date, scope: ViewScope::Day(date) }
    }

    /// The seven-day range beginning at `start_of_week`.
    pub fn week(start_of_week: Date) -> (r: DateRange)
        requires
            start_of_week.valid(),
            start_of_week.year < 9999,
        ensures
            r.start == start_of_week,
            r.end.valid(),
            r.end.ord() > r.start.ord(),
            r.scope == ViewScope::Week(start_of_week),
            r.valid(),
    {
        let mut end = start_of_week;
        let mut i: u32 = 0;
        while i < 6
            invariant
                start_of_week.valid(),
                end.valid(),
                start_of_week.year < 9999,
                i <= 6,
                end.ord() >= start_of_week.ord() + i,
                end.ord() <= start_of_week.ord() + 32 * i,
                i > 0 ==> end.ord() > start_of_week.ord(),
            decreases 6 - i,
        {
            proof {
                lemma_year_cap(start_of_week, end, 32 * (i as int));
            }
            end = end.next_day();
            i = i + 1;
        }
        DateRange { start: start_of_week, end, scope: ViewScope::Week(start_of_week) }
    }

    /// The range spanning a whole month. `year` and `month` must name a real
    /// month of the supported span.
    pub fn month(year: i32, month: u32) -> (r: DateRange)
        requires
            1 <= year <= 9999,
            1 <= month <= 12,
        ensures
            r.start == (Date { year, month, day: 1 }),
            r.end == (Date { year, month, day: spec_days_in_month(year, month) }),
            r.scope == ViewScope::Month(r.start),
            r.valid(),
    {
        let start = Date { year, month, day: 1 };
        let end = Date { year, month, day: days_in_month(year, month) };
        DateRange { start, end, scope: ViewScope::Month(start) }
    }

    /// Whether `date` lies inside the range (inclusive on both ends).
    pub fn contains(&self, date: Date) -> (r: bool)
        requires
            self.valid(),
            date.valid(),
        ensures
            r == (self.start.ord() <= date.ord() && date.ord() <= self.end.ord()),
    {
        self.start.le(&date) && date.le(&self.end)
    }

    /// Every date of the range, in ascending calendar order: exactly the
    /// valid dates `d` with `start <= d <= end`.
    pub fn days(&self) -> (r: Vec<Date>)
        requires
            self.valid(),
        ensures
            forall|i: int|
                0 <= i < r@.len() ==> (#[trigger] r@[i]).valid() && self.start.ord() <= r@[i].ord()
                    <= self.end.ord(),
            forall|i: int, j: int| 0 <= i < j < r@.len() ==> r@[i].ord() < r@[j].ord(),
            forall|e: Date|
                e.valid() && self.start.ord() <= e.ord() <= self.end.ord() ==> r@.contains(e),
    {
        let mut r: Vec<Date> = Vec::new();
        if !self.start.le(&self.end) {
            return r;
        }
        let mut cur = self.start;
        loop
            invariant
                self.valid(),
                cur.valid(),
                self.start.ord() <= cur.ord() <= self.end.ord(),
                forall|i: int|
                    0 <= i < r@.len() ==> (#[trigger] r@[i]).valid() && self.start.ord()
                        <= r@[i].ord() < cur.ord(),
                forall|i: int, j: int| 0 <= i < j < r@.len() ==> r@[i].ord() < r@[j].ord(),
                forall|e: Date|
                    e.valid() && self.start.ord() <= e.ord() < cur.ord() ==> r@.contains(e),
            decreases self.end.ord() - cur.ord() + 1,
        {
            let ghost r0 = r@;
            r.push(cur);
            proof {
                assert(r@[r@.len() - 1] == cur);
                assert forall|e: Date|
                    e.valid() && self.start.ord() <= e.ord() <= cur.ord() implies r@.contains(
                    e,
                ) by {
                    if e.ord() < cur.ord() {
                        let i = choose|i: int| 0 <= i < r0.len() && r0[i] == e;
                        assert(r@[i] == e);
                    } else {
                        lemma_ord_injective(e, cur);
                        assert(r@[r@.len() - 1] == e);
                    }
                }
            }
            if cur.ord_key() == self.end.ord_key() {
                return r;
            }
            proof {
                lemma_ord_bounded(self.end);
                lemma_next_day(cur);
            }
            let next = cur.next_day();
            proof {
                // No valid date lies strictly between cur and next, so the
                // completeness invariant carries over to the new bound.
                assert(forall|e: Date|
                    e.valid() && e.ord() > cur.ord() ==> e.ord() >= next.ord());
            }
            cur = next;
        }
    }
}

/// A date whose year is below the cap cannot reach `max_date` within a small
/// number of steps: its order key stays strictly below the maximum.
proof fn lemma_year_cap(start: Date, end: Date, slack: int)
    requires
        start.valid(),
        end.valid(),
        start.year < 9999,
        end.ord() <= start.ord() + slack,
        slack <= 371,
    ensures
        end.ord() < max_date().ord(),
{
    assert(start.ord() <= (start.year as int) * 372 + 371);
}

} // verus!
