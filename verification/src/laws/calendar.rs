//! Dates and how they are written.

use crate::app::date;
use crate::app::date::Date;
use crate::num;
use vstd::prelude::*;

verus! {

/// Days of a month: thirty days hath September.
pub open spec fn length(year: int, month: int) -> int {
    if month == 9 || month == 4 || month == 6 || month == 11 {
        30
    } else if month != 2 {
        31
    } else if year % 400 == 0 || (year % 4 == 0 && year % 100 != 0) {
        29
    } else {
        28
    }
}

/// The day after a date.
pub open spec fn tomorrow(d: Date) -> Date {
    if d.day < length(d.year as int, d.month as int) {
        Date { day: (d.day + 1) as u8, ..d }
    } else if d.month < 12 {
        Date { month: (d.month + 1) as u8, day: 1, ..d }
    } else {
        Date { year: (d.year + 1) as u64, month: 1, day: 1 }
    }
}

/// The first of January 1970 is day zero.
pub proof fn lemma_first_day()
    ensures
        date::valid(Date { year: 1970, month: 1, day: 1 }),
        date::day_number(Date { year: 1970, month: 1, day: 1 }) == 0,
{
}

/// The days are counted one by one: the day after a date has the next number.
pub proof fn lemma_next_day(d: Date)
    requires
        date::valid(d),
        d.year < u64::MAX,
    ensures
        date::valid(tomorrow(d)),
        date::day_number(tomorrow(d)) == date::day_number(d) + 1,
{
    let y = d.year as int;
    assert(d.month == 2 ==> date::days_to_year(y) == date::days_to_year(y - 1) + (if length(y, 2)
        == 29 {
        366int
    } else {
        365
    })) by {
        lemma_year(y);
    }
}

proof fn lemma_year(y: int)
    ensures
        date::days_to_year(y) - date::days_to_year(y - 1) == (if length(y, 2) == 29 {
            366int
        } else {
            365
        }),
{
    assert(y / 4 - (y - 1) / 4 == (if y % 4 == 0 {
        1int
    } else {
        0
    }));
    assert(y / 100 - (y - 1) / 100 == (if y % 100 == 0 {
        1int
    } else {
        0
    }));
    assert(y / 400 - (y - 1) / 400 == (if y % 400 == 0 {
        1int
    } else {
        0
    }));
}

/// The date of a day is the one that has its number.
pub proof fn lemma_date_of_a_day(d: Date)
    requires
        date::valid(d),
    ensures
        date::date_on(date::day_number(d)) == d,
{
    let e = date::date_on(date::day_number(d));
    assert(date::valid(e) && date::day_number(e) == date::day_number(d));
    date::lemma_one_date_a_day(e, d);
}

/// A date is written with four digits for the year, two for the month and two
/// for the day.
pub proof fn lemma_date_text(d: Date)
    requires
        date::valid(d),
        1000 <= d.year <= 9999,
    ensures
        ({
            let t = date::date_text(d);
            &&& t.len() == 10
            &&& t[4] == '-' && t[7] == '-'
            &&& num::digits_value(t.subrange(0, 4)) == d.year
            &&& num::digits_value(t.subrange(5, 7)) == d.month
            &&& num::digits_value(t.subrange(8, 10)) == d.day
        }),
{
    reveal_strlit("-");
    let y = date::zero_padded(d.year as nat, 4);
    let m = date::zero_padded(d.month as nat, 2);
    let n = date::zero_padded(d.day as nat, 2);
    lemma_four(d.year as nat);
    lemma_two(d.month as nat);
    lemma_two(d.day as nat);
    let t = date::date_text(d);
    assert(t.subrange(0, 4) =~= y);
    assert(t.subrange(5, 7) =~= m);
    assert(t.subrange(8, 10) =~= n);
}

proof fn lemma_two(n: nat)
    requires
        n < 100,
    ensures
        date::zero_padded(n, 2).len() == 2,
        num::digits_value(date::zero_padded(n, 2)) == n,
{
    reveal_with_fuel(num::decimal, 3);
    reveal_with_fuel(num::digits_value, 4);
    crate::laws::lines::lemma_decimal(n);
    let s = date::zero_padded(n, 2);
    if n < 10 {
        assert(s =~= seq!['0'] + num::decimal(n));
        assert(s.drop_last() =~= seq!['0']);
        assert(seq!['0'].drop_last() =~= Seq::<char>::empty());
    }
}

proof fn lemma_four(n: nat)
    requires
        1000 <= n <= 9999,
    ensures
        date::zero_padded(n, 4).len() == 4,
        num::digits_value(date::zero_padded(n, 4)) == n,
{
    reveal_with_fuel(num::decimal, 5);
    crate::laws::lines::lemma_decimal(n);
}

} // verus!
