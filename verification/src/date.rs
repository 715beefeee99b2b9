//! A plain calendar date, with the day arithmetic and the formatting that
//! the engine configuration needs: the comment cutoff is the day before the
//! meeting, and the comment template shows the date as "DD Month YYYY".
use vstd::prelude::*;

use crate::text;

verus! {

use vstd::string::StringSliceAdditionalSpecFns;

/// A calendar date in the proleptic Gregorian calendar.
#[derive(Clone, Copy, Debug, PartialEq, Eq, Structural)]
pub struct Date {
    pub year: u32,
    pub month: u32,
    pub day: u32,
}

/// Gregorian leap-year rule.
pub open spec fn is_leap(y: int) -> bool {
    y % 4 == 0 && (y % 100 != 0 || y % 400 == 0)
}

/// Number of days in the given month.
pub open spec fn days_in_month(y: int, m: int) -> int {
    if m == 2 {
        if is_leap(y) {
            29
        } else {
            28
        }
    } else if m == 4 || m == 6 || m == 9 || m == 11 {
        30
    } else {
        31
    }
}

/// A well-formed date with a four-digit year, as minutes URLs carry.
pub open spec fn valid_date(d: Date) -> bool {
    &&& 1 <= d.year <= 9999
    &&& 1 <= d.month <= 12
    &&& 1 <= d.day <= days_in_month(d.year as int, d.month as int)
}

/// The day after `d`.
pub open spec fn succ_date(d: Date) -> Date {
    if d.day < days_in_month(d.year as int, d.month as int) {
        Date { year: d.year, month: d.month, day: (d.day + 1) as u32 }
    } else if d.month < 12 {
        Date { year: d.year, month: (d.month + 1) as u32, day: 1 }
    } else {
        Date { year: (d.year + 1) as u32, month: 1, day: 1 }
    }
}

/// Number of days in the given month, computed.
pub fn days_in_month_exec(y: u32, m: u32) -> (r: u32)
    requires
        1 <= m <= 12,
    ensures
        r == days_in_month(y as int, m as int),
{
    if m == 2 {
        if y % 4 == 0 && (y % 100 != 0 || y % 400 == 0) {
            29
        } else {
            28
        }
    } else if m == 4 || m == 6 || m == 9 || m == 11 {
        30
    } else {
        31
    }
}

/// The day before `d`: the inverse of `succ_date` on valid dates.
pub fn pred_date(d: &Date) -> (r: Date)
    requires
        valid_date(*d),
        !(d.year == 1 && d.month == 1 && d.day == 1),
    ensures
        valid_date(r),
        succ_date(r) == *d,
{
    if d.day > 1 {
        Date { year: d.year, month: d.month, day: d.day - 1 }
    } else if d.month > 1 {
        let m = d.month - 1;
        Date { year: d.year, month: m, day: days_in_month_exec(d.year, m) }
    } else {
        Date { year: d.year - 1, month: 12, day: 31 }
    }
}

/// English month name, capitalized.
pub open spec fn month_name(m: int) -> Seq<u8> {
    if m == 1 {
        "January".spec_bytes()
    } else if m == 2 {
        "February".spec_bytes()
    } else if m == 3 {
        "March".spec_bytes()
    } else if m == 4 {
        "April".spec_bytes()
    } else if m == 5 {
        "May".spec_bytes()
    } else if m == 6 {
        "June".spec_bytes()
    } else if m == 7 {
        "July".spec_bytes()
    } else if m == 8 {
        "August".spec_bytes()
    } else if m == 9 {
        "September".spec_bytes()
    } else if m == 10 {
        "October".spec_bytes()
    } else if m == 11 {
        "November".spec_bytes()
    } else {
        "December".spec_bytes()
    }
}

fn month_name_bytes(m: u32) -> (r: Vec<u8>)
    requires
        1 <= m <= 12,
    ensures
        r@ == month_name(m as int),
{
    if m == 1 {
        text::lit("January")
    } else if m == 2 {
        text::lit("February")
    } else if m == 3 {
        text::lit("March")
    } else if m == 4 {
        text::lit("April")
    } else if m == 5 {
        text::lit("May")
    } else if m == 6 {
        text::lit("June")
    } else if m == 7 {
        text::lit("July")
    } else if m == 8 {
        text::lit("August")
    } else if m == 9 {
        text::lit("September")
    } else if m == 10 {
        text::lit("October")
    } else {
        if m == 11 {
            text::lit("November")
        } else {
            text::lit("December")
        }
    }
}

/// The date rendered as "DD Month YYYY", with a two-digit day.
pub open spec fn long_date(d: Date) -> Seq<u8> {
    text::dec_pad2(d.day as nat) + " ".spec_bytes() + month_name(d.month as int)
        + " ".spec_bytes() + text::dec(d.year as nat)
}

/// Append the "DD Month YYYY" rendering of `d` to `v`.
pub fn push_long_date(v: &mut Vec<u8>, d: &Date)
    requires
        valid_date(*d),
    ensures
        final(v)@ == old(v)@ + long_date(*d),
{
    text::push_dec_pad2(v, d.day);
    let space = text::lit(" ");
    text::push_all(v, &space);
    let name = month_name_bytes(d.month);
    text::push_all(v, &name);
    text::push_all(v, &space);
    text::push_dec(v, d.year);
    assert(v@ =~= old(v)@ + long_date(*d));
}

} // verus!
