use crate::numfmt::dec_digits;
use vstd::prelude::*;
use vstd::string::*;

verus! {

/// A modification instant, broken into the local-time fields that the
/// detail listing displays.
#[derive(Clone, Copy, Debug, PartialEq, Eq, Structural)]
pub struct TimeFields {
    pub month: u8,
    pub day: u8,
    pub hour: u8,
    pub minute: u8,
}

pub open spec fn valid_time(t: TimeFields) -> bool {
    &&& 1 <= t.month <= 12
    &&& 1 <= t.day <= 31
    &&& t.hour <= 23
    &&& t.minute <= 59
}

/// The conventional three-letter month abbreviation.
pub open spec fn month_abbrev_spec(m: u8) -> Seq<char> {
    if m == 1 {
        "Jan"@
    } else if m == 2 {
        "Feb"@
    } else if m == 3 {
        "Mar"@
    } else if m == 4 {
        "Apr"@
    } else if m == 5 {
        "May"@
    } else if m == 6 {
        "Jun"@
    } else if m == 7 {
        "Jul"@
    } else if m == 8 {
        "Aug"@
    } else if m == 9 {
        "Sep"@
    } else if m == 10 {
        "Oct"@
    } else if m == 11 {
        "Nov"@
    } else if m == 12 {
        "Dec"@
    } else {
        "???"@
    }
}

/// The day of the month, space-padded to two characters.
pub open spec fn day_padded_spec(d: u8) -> Seq<char> {
    if d < 10 {
        seq![' '] + dec_digits(d as int)
    } else {
        dec_digits(d as int)
    }
}

/// An hour or minute, zero-padded to two characters.
pub open spec fn zero_padded_spec(v: u8) -> Seq<char> {
    if v < 10 {
        seq!['0'] + dec_digits(v as int)
    } else {
        dec_digits(v as int)
    }
}

/// The `Mon _d HH:MM` display of a modification instant.
pub open spec fn time_spec(t: TimeFields) -> Seq<char> {
    month_abbrev_spec(t.month) + " "@ + day_padded_spec(t.day) + " "@ + zero_padded_spec(t.hour)
        + ":"@ + zero_padded_spec(t.minute)
}

pub fn month_abbrev(m: u8) -> (r: &'static str)
    ensures
        r@ == month_abbrev_spec(m),
{
    if m == 1 {
        "Jan"
    } else if m == 2 {
        "Feb"
    } else if m == 3 {
        "Mar"
    } else if m == 4 {
        "Apr"
    } else if m == 5 {
        "May"
    } else if m == 6 {
        "Jun"
    } else if m == 7 {
        "Jul"
    } else if m == 8 {
        "Aug"
    } else if m == 9 {
        "Sep"
    } else if m == 10 {
        "Oct"
    } else if m == 11 {
        "Nov"
    } else if m == 12 {
        "Dec"
    } else {
        "???"
    }
}

fn day_padded(d: u8) -> (r: String)
    ensures
        r@ == day_padded_spec(d),
{
    let digits = crate::numfmt::u64_to_string(d as u64);
    if d < 10 {
        let mut r = String::from_str(" ");
        r.append(digits.as_str());
        proof {
            reveal_strlit(" ");
            assert(r@ =~= seq![' '] + dec_digits(d as int));
        }
        r
    } else {
        digits
    }
}

fn zero_padded(v: u8) -> (r: String)
    ensures
        r@ == zero_padded_spec(v),
{
    let digits = crate::numfmt::u64_to_string(v as u64);
    if v < 10 {
        let mut r = String::from_str("0");
        r.append(digits.as_str());
        proof {
            reveal_strlit("0");
            assert(r@ =~= seq!['0'] + dec_digits(v as int));
        }
        r
    } else {
        digits
    }
}

/// Renders a modification instant as `Mon _d HH:MM`.
pub fn format_time(t: &TimeFields) -> (r: String)
    ensures
        r@ == time_spec(*t),
{
    let mut r = String::from_str(month_abbrev(t.month));
    r.append(" ");
    let day = day_padded(t.day);
    r.append(day.as_str());
    r.append(" ");
    let hour = zero_padded(t.hour);
    r.append(hour.as_str());
    r.append(":");
    let minute = zero_padded(t.minute);
    r.append(minute.as_str());
    r
}

} // verus!
