//! Calendar dates.

use crate::num;
use crate::text;
use vstd::prelude::*;

verus! {

/// A date of the Gregorian calendar.
#[derive(Clone, Copy, Debug, PartialEq, Eq, Structural)]
pub struct Date {
    pub year: u64,
    pub month: u8,
    pub day: u8,
}

/// Does the year have a 29th of February?
pub open spec fn leap(year: int) -> bool {
    year % 4 == 0 && (year % 100 != 0 || year % 400 == 0)
}

/// Days from the first of March to the first day of a month, in months after
/// March.
pub open spec fn days_since_march(months: int) -> int {
    if months == 0 {
        0
    } else if months == 1 {
        31
    } else if months == 2 {
        61
    } else if months == 3 {
        92
    } else if months == 4 {
        122
    } else if months == 5 {
        153
    } else if months == 6 {
        184
    } else if months == 7 {
        214
    } else if months == 8 {
        245
    } else if months == 9 {
        275
    } else if months == 10 {
        306
    } else {
        337
    }
}

/// Length of a month.
pub open spec fn month_days(year: int, month: int) -> int {
    if month == 2 {
        if leap(year) {
            29
        } else {
            28
        }
    } else if month == 4 || month == 6 || month == 9 || month == 11 {
        30
    } else {
        31
    }
}

/// A day that the calendar has.
pub open spec fn valid(d: Date) -> bool {
    1 <= d.month <= 12 && 1 <= d.day <= month_days(d.year as int, d.month as int)
}

/// The year that begins with the March before the date.
pub open spec fn march_year(d: Date) -> int {
    if d.month <= 2 {
        d.year - 1
    } else {
        d.year as int
    }
}

/// Months between that March and the date.
pub open spec fn march_month(d: Date) -> int {
    if d.month <= 2 {
        d.month + 9
    } else {
        d.month - 3
    }
}

/// Days from the first of March of year zero to the first of March of a year.
pub open spec fn days_to_year(year: int) -> int {
    365 * year + year / 4 - year / 100 + year / 400
}

/// Days from the first of January 1970 to the date.
pub open spec fn day_number(d: Date) -> int {
    days_to_year(march_year(d)) + days_since_march(march_month(d)) + d.day - 1 - 719_468
}

proof fn lemma_in_cycle(cycle: int, century: int, four: int, one: int, in_year: int)
    requires
        0 <= cycle,
        0 <= century <= 3,
        0 <= four <= 24,
        0 <= one <= 3,
        0 <= in_year <= 365,
        in_year == 365 ==> one == 3 && (four == 24 ==> century == 3),
    ensures
        ({
            let y = cycle * 400 + century * 100 + four * 4 + one;
            &&& days_to_year(y) == cycle * 146_097 + century * 36_524 + four * 1461 + one * 365
            &&& in_year == 365 ==> leap(y + 1)
        }),
{
    let y = cycle * 400 + century * 100 + four * 4 + one;
    assert(y / 400 == cycle);
    assert(y / 100 == cycle * 4 + century);
    assert(y / 4 == cycle * 100 + century * 25 + four);
    if in_year == 365 {
        assert((y + 1) % 4 == 0);
        if four == 24 {
            assert((y + 1) % 400 == 0);
        } else {
            assert((y + 1) % 100 != 0);
        }
    }
}

/// The date of a day, counted from the first of January 1970.
pub open spec fn date_on(days: int) -> Date {
    choose|d: Date| valid(d) && #[trigger] day_number(d) == days
}

proof fn lemma_year_steps(a: int, b: int)
    requires
        a < b,
    ensures
        days_to_year(a) + 365 <= days_to_year(b),
        leap(a + 1) ==> days_to_year(a) + 366 <= days_to_year(b),
    decreases b - a,
{
    if a + 1 < b {
        lemma_year_steps(a, b - 1);
        lemma_year_steps(b - 1, b);
    }
}

/// The calendar has one date for a day: no two valid dates have one number.
pub proof fn lemma_one_date_a_day(a: Date, b: Date)
    requires
        valid(a),
        valid(b),
        day_number(a) == day_number(b),
    ensures
        a == b,
{
    let ya = march_year(a);
    let yb = march_year(b);
    let da = days_since_march(march_month(a)) + a.day - 1;
    let db = days_since_march(march_month(b)) + b.day - 1;
    assert(0 <= da <= 365 && (da == 365 ==> leap(ya + 1)));
    assert(0 <= db <= 365 && (db == 365 ==> leap(yb + 1)));
    if ya < yb {
        lemma_year_steps(ya, yb);
    }
    if yb < ya {
        lemma_year_steps(yb, ya);
    }
    assert(march_month(a) == march_month(b));
}

/// The date of a day, counted from the first of January 1970.
pub fn date(days: u64) -> (r: Date)
    requires
        days <= u64::MAX - 719_468,
    ensures
        valid(r),
        day_number(r) == days,
        r == date_on(days as int),
{
    // Years that begin in March end with the leap day; a cycle of the calendar
    // has 400 of them, in centuries and groups of four.
    let z: u64 = days + 719_468;
    let cycle: u64 = z / 146_097;
    let in_cycle: u64 = z % 146_097;
    let mut century: u64 = in_cycle / 36_524;
    if century == 4 {
        century = 3;
    }
    let in_century: u64 = in_cycle - century * 36_524;
    let four: u64 = in_century / 1461;
    let in_four: u64 = in_century - four * 1461;
    let mut one: u64 = in_four / 365;
    if one == 4 {
        one = 3;
    }
    let in_year: u64 = in_four - one * 365;
    assert(cycle <= 0x8000_0000_0000);
    let y: u64 = cycle * 400 + century * 100 + four * 4 + one;
    proof {
        assert(century <= 3 && four <= 24 && one <= 3);
        assert(in_year <= 365);
        assert(in_year == 365 ==> one == 3 && (four == 24 ==> century == 3));
        lemma_in_cycle(cycle as int, century as int, four as int, one as int, in_year as int);
    }
    let months: u64 = (5 * in_year + 2) / 153;
    let before: u64 = (153 * months + 2) / 5;
    assert(months <= 11);
    assert(before == days_since_march(months as int)) by {
        assert(months == 0 || months == 1 || months == 2 || months == 3 || months == 4 || months
            == 5 || months == 6 || months == 7 || months == 8 || months == 9 || months == 10
            || months == 11);
    }
    assert(before <= in_year);
    assert(in_year - before < 31);
    let day: u64 = in_year - before + 1;
    let month: u64 = if months < 10 {
        months + 3
    } else {
        months - 9
    };
    let year: u64 = if month <= 2 {
        y + 1
    } else {
        y
    };
    let r = Date { year, month: month as u8, day: day as u8 };
    proof {
        assert(march_year(r) == y);
        assert(march_month(r) == months);
        assert(valid(r));
        assert(day_number(r) == days);
        lemma_one_date_a_day(r, date_on(days as int));
    }
    r
}

/// A number with zeros in front up to a width.
pub open spec fn zero_padded(n: nat, w: nat) -> Seq<char> {
    let s = num::decimal(n);
    if s.len() < w {
        text::repeat('0', (w - s.len()) as nat) + s
    } else {
        s
    }
}

fn zeros(n: u64, w: usize) -> (r: String)
    ensures
        r@ == zero_padded(n as nat, w as nat),
{
    let s: String = num::decimal_text(n);
    let cs: Vec<char> = text::to_chars(s.as_str());
    if cs.len() < w {
        let mut out: String = String::new();
        text::put_repeat(&mut out, '0', w - cs.len());
        assert(out@ =~= text::repeat('0', (w - cs@.len()) as nat));
        text::put(&mut out, s.as_str());
        out
    } else {
        s
    }
}

/// A date as text: year, month and day.
pub open spec fn date_text(d: Date) -> Seq<char> {
    zero_padded(d.year as nat, 4) + "-"@ + zero_padded(d.month as nat, 2) + "-"@ + zero_padded(
        d.day as nat,
        2,
    )
}

/// The date of a moment, given in seconds since the first of January 1970.
pub fn today_string(seconds: u64) -> (r: String)
    ensures
        r@ == date_text(date_on(seconds as int / 86_400)),
{
    let d: Date = date(seconds / 86_400);
    let mut s: String = zeros(d.year, 4);
    text::put(&mut s, "-");
    text::put(&mut s, zeros(d.month as u64, 2).as_str());
    text::put(&mut s, "-");
    text::put(&mut s, zeros(d.day as u64, 2).as_str());
    s
}

} // verus!
