//! Human-readable rendering of a record gap.
//!
//! A gap in seconds is bucketed into its coarsest applicable unit pair:
//! days and hours when it spans at least a day, else hours and minutes,
//! else minutes and seconds, else bare seconds.  This is a presentation
//! rule for announcements; the wording is fixed and reproduced exactly.

use vstd::prelude::*;

verus! {

/// The decimal digit character for `d` (meaningful for `0 <= d < 10`).
pub open spec fn digit_char(d: int) -> char {
    if d == 0 {
        '0'
    } else if d == 1 {
        '1'
    } else if d == 2 {
        '2'
    } else if d == 3 {
        '3'
    } else if d == 4 {
        '4'
    } else if d == 5 {
        '5'
    } else if d == 6 {
        '6'
    } else if d == 7 {
        '7'
    } else if d == 8 {
        '8'
    } else {
        '9'
    }
}

/// The decimal rendering of `n`, without leading zeroes (`0` renders as
/// `"0"`).  Meaningful for `n >= 0`.
pub open spec fn dec_str(n: int) -> Seq<char>
    decreases n,
{
    if n < 10 {
        seq![digit_char(n)]
    } else {
        dec_str(n / 10).push(digit_char(n % 10))
    }
}

/// The announcement wording for a gap of `secs` seconds.
pub open spec fn spec_format_gap(secs: u64) -> Seq<char> {
    let s = secs as int;
    let m = s / 60;
    let h = m / 60;
    let d = h / 24;
    if d > 0 {
        dec_str(d) + " day(s) and "@ + dec_str(h % 24) + " hour(s)"@
    } else if h > 0 {
        dec_str(h) + " hour(s) and "@ + dec_str(m % 60) + " minute(s)"@
    } else if m > 0 {
        dec_str(m) + " minute(s) and "@ + dec_str(s % 60) + " second(s)"@
    } else {
        dec_str(s) + " seconds"@
    }
}

/// The one-character string for a single decimal digit.
fn digit_to_str(d: u64) -> (r: &'static str)
    requires
        d < 10,
    ensures
        r@ == seq![digit_char(d as int)],
{
    let r: &'static str = if d == 0 {
        "0"
    } else if d == 1 {
        "1"
    } else if d == 2 {
        "2"
    } else if d == 3 {
        "3"
    } else if d == 4 {
        "4"
    } else if d == 5 {
        "5"
    } else if d == 6 {
        "6"
    } else if d == 7 {
        "7"
    } else if d == 8 {
        "8"
    } else {
        "9"
    };
    proof {
        reveal_strlit("0");
        reveal_strlit("1");
        reveal_strlit("2");
        reveal_strlit("3");
        reveal_strlit("4");
        reveal_strlit("5");
        reveal_strlit("6");
        reveal_strlit("7");
        reveal_strlit("8");
        reveal_strlit("9");
        assert(r@ =~= seq![digit_char(d as int)]);
    }
    r
}

/// Append the decimal rendering of `n` to `out`.
fn push_decimal(out: &mut String, n: u64)
    ensures
        final(out)@ == old(out)@ + dec_str(n as int),
    decreases n,
{
    if n < 10 {
        out.append(digit_to_str(n));
    } else {
        push_decimal(out, n / 10);
        out.append(digit_to_str(n % 10));
        proof {
            assert((old(out)@ + dec_str(n as int / 10)) + seq![digit_char(n as int % 10)]
                =~= old(out)@ + dec_str(n as int));
        }
    }
}

/// Render a gap of `secs` seconds as announcement text, bucketed into its
/// coarsest applicable unit pair: days+hours if at least a day, else
/// hours+minutes if at least an hour, else minutes+seconds if at least a
/// minute, else seconds alone.
pub fn format_gap(secs: u64) -> (r: String)
    ensures
        r@ == spec_format_gap(secs),
{
    let minutes = secs / 60;
    let hours = minutes / 60;
    let days = hours / 24;
    let mut out = String::new();
    if days > 0 {
        push_decimal(&mut out, days);
        out.append(" day(s) and ");
        push_decimal(&mut out, hours % 24);
        out.append(" hour(s)");
    } else if hours > 0 {
        push_decimal(&mut out, hours);
        out.append(" hour(s) and ");
        push_decimal(&mut out, minutes % 60);
        out.append(" minute(s)");
    } else if minutes > 0 {
        push_decimal(&mut out, minutes);
        out.append(" minute(s) and ");
        push_decimal(&mut out, secs % 60);
        out.append(" second(s)");
    } else {
        push_decimal(&mut out, secs);
        out.append(" seconds");
    }
    proof {
        assert(out@ =~= spec_format_gap(secs));
    }
    out
}

} // verus!
