//! Rendering of UNIX-epoch milliseconds as civil date and time text, in the
//! proleptic Gregorian calendar (UTC). The conversion from day numbers to
//! year, month and day follows the standard era decomposition: 400-year eras
//! of 146097 days, with March-based month numbering folded back at the end.

use vstd::prelude::*;
use crate::text::digit_char;
use crate::text::digit_of;
use crate::text::push_char;

verus! {

/// The largest renderable millisecond value: the last moment of year 9999.
pub const MAX_RENDER_MS: i64 = 253402300799999;

/// Whether the value lies in the renderable window (epoch to year 9999).
pub open spec fn renderable(ts: int) -> bool {
    0 <= ts <= MAX_RENDER_MS
}

/// The civil (year, month, day) of a day number counted from the epoch.
pub open spec fn ymd_of(days: int) -> (int, int, int) {
    let z = days + 719468;
    let era = z / 146097;
    let doe = z % 146097;
    let yoe = (doe - doe / 1460 + doe / 36524 - doe / 146096) / 365;
    let y = yoe + era * 400;
    let before_year = 365 * yoe + yoe / 4 - yoe / 100;
    let doy = if before_year <= doe {
        doe - before_year
    } else {
        0
    };
    let mp = (5 * doy + 2) / 153;
    let before_month = (153 * mp + 2) / 5;
    let d = (if before_month <= doy {
        doy - before_month
    } else {
        0
    }) + 1;
    let m = if mp < 10 {
        mp + 3
    } else {
        mp - 9
    };
    ((if m <= 2 {
        y + 1
    } else {
        y
    }), m, d)
}

/// Two decimal digits, high digit first.
pub open spec fn two_digits(n: int) -> Seq<char> {
    seq![digit_char(n / 10 % 10), digit_char(n % 10)]
}

/// Four decimal digits, high digit first.
pub open spec fn four_digits(n: int) -> Seq<char> {
    two_digits(n / 100) + two_digits(n % 100)
}

/// The "%Y-%m-%d %H:%M" rendering of a renderable millisecond value.
pub open spec fn minute_text_of(ts: int) -> Seq<char> {
    let days = ts / 86400000;
    let secs = (ts / 1000) % 86400;
    let ymd = ymd_of(days);
    four_digits(ymd.0) + seq!['-'] + two_digits(ymd.1) + seq!['-'] + two_digits(ymd.2)
        + seq![' '] + two_digits(secs / 3600) + seq![':'] + two_digits(secs / 60 % 60)
}

/// The "%Y-%m-%d %H:%M:%S" rendering of a renderable millisecond value.
pub open spec fn second_text_of(ts: int) -> Seq<char> {
    minute_text_of(ts) + seq![':'] + two_digits(ts / 1000 % 60)
}

/// The timestamp text the kernel mirrors: the seconds-precision rendering,
/// or a placeholder outside the renderable window.
pub open spec fn clock_text_of(ts: int) -> Seq<char> {
    if renderable(ts) {
        second_text_of(ts)
    } else {
        "Unknown"@
    }
}

/// The day-number conversion agrees with the civil calendar at anchor
/// points: the epoch, the leap day of a 400-year-rule year, the day after
/// it, the first day after a skipped century leap day, and the last
/// renderable day.
pub proof fn lemma_ymd_of_anchor_days()
    ensures
        ymd_of(0) == (1970int, 1int, 1int),
        ymd_of(11016) == (2000int, 2int, 29int),
        ymd_of(11017) == (2000int, 3int, 1int),
        ymd_of(47541) == (2100int, 3int, 1int),
        ymd_of(2932896) == (9999int, 12int, 31int),
{
}

/// Appends two decimal digits of `n`.
fn push_two(s: &mut String, n: u64)
    ensures
        final(s)@ == old(s)@ + two_digits(n as int),
{
    let hi = digit_of(n / 10 % 10);
    let lo = digit_of(n % 10);
    push_char(s, hi);
    push_char(s, lo);
    proof {
        assert(final(s)@ =~= old(s)@ + two_digits(n as int));
    }
}

/// The civil (year, month, day) of a day number.
fn ymd(days: u64) -> (r: (u64, u64, u64))
    requires
        days <= 3652058,  // day number of 9999-12-31
    ensures
        r.0 as int == ymd_of(days as int).0,
        r.1 as int == ymd_of(days as int).1,
        r.2 as int == ymd_of(days as int).2,
{
    let z: u64 = days + 719468;
    let era: u64 = z / 146097;
    let doe: u64 = z % 146097;
    let a1: u64 = doe - doe / 1460;
    let a2: u64 = a1 + doe / 36524;
    let a3: u64 = a2 - doe / 146096;
    let yoe: u64 = a3 / 365;
    let y: u64 = yoe + era * 400;
    let before_year: u64 = 365 * yoe + yoe / 4 - yoe / 100;
    let doy: u64 = if before_year <= doe {
        doe - before_year
    } else {
        0
    };
    let mp: u64 = (5 * doy + 2) / 153;
    let before_month: u64 = (153 * mp + 2) / 5;
    let d: u64 = (if before_month <= doy {
        doy - before_month
    } else {
        0
    }) + 1;
    let m: u64 = if mp < 10 {
        mp + 3
    } else {
        mp - 9
    };
    let yy: u64 = if m <= 2 {
        y + 1
    } else {
        y
    };
    proof {
        assert(yy as int == ymd_of(days as int).0 && m as int == ymd_of(days as int).1
            && d as int == ymd_of(days as int).2);
    }
    (yy, m, d)
}

/// Renders a millisecond value at minute precision, when it is renderable.
pub fn format_minutes(ts: i64) -> (r: Option<String>)
    ensures
        (r matches Option::Some(s) ==> s@ == minute_text_of(ts as int)),
        r is None <==> !renderable(ts as int),
{
    if ts < 0 || ts > MAX_RENDER_MS {
        return Option::None;
    }
    let t = ts as u64;
    let days: u64 = t / 86400000;
    let secs: u64 = (t / 1000) % 86400;
    let (y, m, d) = ymd(days);
    let mut s = String::new();
    push_two(&mut s, y / 100);
    push_two(&mut s, y % 100);
    push_char(&mut s, '-');
    push_two(&mut s, m);
    push_char(&mut s, '-');
    push_two(&mut s, d);
    push_char(&mut s, ' ');
    push_two(&mut s, secs / 3600);
    push_char(&mut s, ':');
    push_two(&mut s, secs / 60 % 60);
    proof {
        assert(y / 100 % 10 == y / 100 / 10 % 10 * 10 + y / 100 % 10 - y / 100 / 10 % 10 * 10);
        assert(s@ =~= minute_text_of(ts as int));
    }
    Option::Some(s)
}

/// Renders a millisecond value at seconds precision, when it is renderable.
pub fn format_seconds(ts: i64) -> (r: Option<String>)
    ensures
        (r matches Option::Some(s) ==> s@ == second_text_of(ts as int)),
        r is None <==> !renderable(ts as int),
{
    match format_minutes(ts) {
        Option::None => Option::None,
        Option::Some(mut s) => {
            let t = ts as u64;
            push_char(&mut s, ':');
            push_two(&mut s, t / 1000 % 60);
            proof {
                assert(s@ =~= second_text_of(ts as int));
            }
            Option::Some(s)
        },
    }
}

/// The kernel's timestamp mirror text for a clock value.
pub fn clock_text(ts: i64) -> (r: String)
    ensures
        r@ == clock_text_of(ts as int),
{
    match format_seconds(ts) {
        Option::Some(s) => s,
        Option::None => "Unknown".to_owned(),
    }
}

} // verus!
