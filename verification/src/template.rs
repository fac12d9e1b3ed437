//! Human-readable date and age rendering for page templates.
//!
//! The calendar values arrive already shifted into the offset they are to
//! be shown in; elapsed time arrives as whole milliseconds.  Obtaining the
//! current instant and shifting offsets is the caller's business.

use vstd::prelude::*;

use crate::text::dec_digits;
use crate::text::dec_int;
use crate::text::i64_to_dec;
use crate::text::left_padded;
use crate::text::u64_to_dec_pad;

verus! {

broadcast use vstd::string::group_string_axioms;

/// A calendar date and time of day, in the offset it is shown in.
#[derive(Debug, Clone, Copy, PartialEq, Eq, Structural)]
pub struct CivilDateTime {
    pub year: i32,
    pub month: u8,
    pub day: u8,
    pub hour: u8,
    pub minute: u8,
}

impl CivilDateTime {
    /// The fields form a presentable date.
    pub open spec fn wf(self) -> bool {
        &&& 0 <= self.year <= 9999
        &&& 1 <= self.month <= 12
        &&& 1 <= self.day <= 31
        &&& self.hour < 24
        &&& self.minute < 60
    }
}

/// The three-letter month abbreviation (for `1 <= m <= 12`).
pub open spec fn month_abbrev(m: nat) -> Seq<char> {
    if m == 1 {
        "Jan"@
    } else if m == 2 {
        "Feb"@
    } else if m == 3 {
        "Mar"@
    } else if m == 4 {
        "Apr"@
    } else if m == 5 {
        "May"@
    } else if m == 6 {
        "Jun"@
    } else if m == 7 {
        "Jul"@
    } else if m == 8 {
        "Aug"@
    } else if m == 9 {
        "Sep"@
    } else if m == 10 {
        "Oct"@
    } else if m == 11 {
        "Nov"@
    } else {
        "Dec"@
    }
}

/// The three-letter abbreviation of month `month`.
pub fn short_month(month: u8) -> (r: &'static str)
    requires
        1 <= month <= 12,
    ensures
        r@ == month_abbrev(month as nat),
{
    match month {
        1 => "Jan",
        2 => "Feb",
        3 => "Mar",
        4 => "Apr",
        5 => "May",
        6 => "Jun",
        7 => "Jul",
        8 => "Aug",
        9 => "Sep",
        10 => "Oct",
        11 => "Nov",
        _ => "Dec",
    }
}

/// How verbosely a date is shown.
#[derive(Debug, Clone, Copy, PartialEq, Eq, Structural, Default)]
pub enum DateFmt {
    /// Month, day and time, with the year only when it is not the current one.
    #[default]
    Short,
    /// Month and day only, with the year only when it is not the current one.
    Shorter,
}

/// `n` in decimal, zero-padded to two digits.
pub open spec fn pad_dec2(n: nat) -> Seq<char> {
    left_padded(dec_digits(n), 2, '0')
}

/// `n` in decimal, zero-padded to four digits.
pub open spec fn pad_dec4(n: nat) -> Seq<char> {
    left_padded(dec_digits(n), 4, '0')
}

/// The text [`format_date`] renders.
pub open spec fn date_text(d: CivilDateTime, current_year: int, mode: DateFmt) -> Seq<char> {
    let base = month_abbrev(d.month as nat) + " "@ + pad_dec2(d.day as nat);
    let with_year = if d.year == current_year {
        base
    } else {
        base + " "@ + pad_dec4(d.year as nat)
    };
    match mode {
        DateFmt::Short => with_year + ", "@ + pad_dec2(d.hour as nat) + ":"@ + pad_dec2(
            d.minute as nat,
        ),
        DateFmt::Shorter => with_year,
    }
}

/// Render a date: month and zero-padded day, the year when it is not the
/// current one, and for [`DateFmt::Short`] the time of day.
pub fn format_date(date: &CivilDateTime, current_year: i32, mode: DateFmt) -> (r: String)
    requires
        date.wf(),
    ensures
        r@ == date_text(*date, current_year as int, mode),
{
    let mut out = short_month(date.month).to_owned();
    out.append(" ");
    let day = u64_to_dec_pad(date.day as u64, 2);
    out.append(day.as_str());
    if date.year != current_year {
        out.append(" ");
        let year = u64_to_dec_pad(date.year as u64, 4);
        out.append(year.as_str());
    }
    match mode {
        DateFmt::Short => {
            out.append(", ");
            let hour = u64_to_dec_pad(date.hour as u64, 2);
            out.append(hour.as_str());
            out.append(":");
            let minute = u64_to_dec_pad(date.minute as u64, 2);
            out.append(minute.as_str());
        },
        DateFmt::Shorter => {},
    }
    proof {
        assert(out@ =~= date_text(*date, current_year as int, mode));
    }
    out
}

/// How verbosely an age is shown.
#[derive(Debug, Clone, Copy, PartialEq, Eq, Structural, Default)]
pub enum DurationFmt {
    /// The largest unit only, tersely: `3w ago`.
    #[default]
    Shorter,
    /// The largest unit only, spelled out: `3 weeks ago`.
    Short,
    /// Days, hours and minutes together: `1 day 2 hours ago`.
    Long,
}

/// Quotient of `a` and `b` truncated towards zero, as machine division is.
pub open spec fn trunc_div(a: int, b: int) -> int
    recommends
        b > 0,
{
    if a >= 0 {
        a / b
    } else {
        -((-a) / b)
    }
}

/// Remainder of `a` and `b` with the sign of `a`, as machine remainder is.
pub open spec fn trunc_rem(a: int, b: int) -> int
    recommends
        b > 0,
{
    a - b * trunc_div(a, b)
}

/// The plural suffix for a count.
pub open spec fn plural_suffix(n: int) -> Seq<char> {
    if n != 1 {
        "s"@
    } else {
        ""@
    }
}

/// The plural suffix for a count.
pub fn plural(number: i64) -> (r: &'static str)
    ensures
        r@ == plural_suffix(number as int),
{
    if number != 1 {
        "s"
    } else {
        ""
    }
}

/// Milliseconds within the minute rounded to whole seconds, half away from
/// zero.
pub open spec fn rounded_seconds(msrem: int) -> int {
    if msrem >= 0 {
        (msrem + 500) / 1000
    } else {
        -((-msrem + 500) / 1000)
    }
}

/// Milliseconds within the minute as seconds with three decimals.
pub open spec fn seconds_with_millis(msrem: int) -> Seq<char> {
    let sign: Seq<char> = if msrem < 0 {
        "-"@
    } else {
        ""@
    };
    let magnitude = if msrem < 0 {
        -msrem
    } else {
        msrem
    };
    sign + dec_digits((magnitude / 1000) as nat) + "."@ + left_padded(
        dec_digits((magnitude % 1000) as nat),
        3,
        '0',
    )
}

/// The text [`format_age`] renders for an age of `ms` milliseconds.
pub open spec fn age_text(ms: int, d: CivilDateTime, current_year: int, fmt: DurationFmt) -> Seq<
    char,
> {
    let weeks = trunc_div(ms, 604800000);
    let days = trunc_div(ms, 86400000);
    let hours = trunc_rem(trunc_div(ms, 3600000), 24);
    let minutes = trunc_rem(trunc_div(ms, 60000), 60);
    let msrem = trunc_rem(ms, 60000);
    match fmt {
        DurationFmt::Shorter => {
            if days > 31 {
                date_text(d, current_year, DateFmt::Shorter)
            } else if weeks > 0 {
                dec_int(weeks) + "w ago"@
            } else if days > 0 {
                dec_int(days) + "d ago"@
            } else if hours > 0 {
                dec_int(hours) + "h ago"@
            } else if minutes > 0 {
                dec_int(minutes) + "m ago"@
            } else {
                dec_int(rounded_seconds(msrem)) + "s ago"@
            }
        },
        DurationFmt::Short => {
            if weeks > 0 {
                dec_int(weeks) + " week"@ + plural_suffix(weeks) + " ago"@
            } else if days > 0 {
                dec_int(days) + " day"@ + plural_suffix(days) + " ago"@
            } else if hours > 0 {
                dec_int(hours) + " hour"@ + plural_suffix(hours) + " ago"@
            } else if minutes > 0 {
                dec_int(minutes) + " min"@ + plural_suffix(minutes) + " ago"@
            } else {
                dec_int(rounded_seconds(msrem)) + " sec"@ + plural_suffix(rounded_seconds(msrem))
                    + " ago"@
            }
        },
        DurationFmt::Long => {
            let day_part: Seq<char> = if days > 0 {
                dec_int(days) + " day"@ + plural_suffix(days) + " "@
            } else {
                Seq::empty()
            };
            let hour_part: Seq<char> = if hours > 0 {
                dec_int(hours) + " hour"@ + plural_suffix(hours) + " "@
            } else {
                Seq::empty()
            };
            let minute_part: Seq<char> = if minutes > 0 {
                dec_int(minutes) + " minute"@ + plural_suffix(minutes) + " "@
            } else {
                Seq::empty()
            };
            let second_part: Seq<char> = if days <= 0 && hours <= 0 && (msrem > 0 || minutes
                <= 0) {
                seconds_with_millis(msrem) + " seconds "@
            } else {
                Seq::empty()
            };
            day_part + hour_part + minute_part + second_part + "ago"@
        },
    }
}

/// Render how long ago `date` was, given the elapsed time in milliseconds.
/// Ages over a month in [`DurationFmt::Shorter`] fall back to the date
/// itself.
pub fn format_age(elapsed_ms: i64, date: &CivilDateTime, current_year: i32, fmt: DurationFmt) -> (r:
    String)
    requires
        date.wf(),
        elapsed_ms > i64::MIN,
    ensures
        r@ == age_text(elapsed_ms as int, *date, current_year as int, fmt),
{
    let weeks: i64 = elapsed_ms / 604800000;
    let days: i64 = elapsed_ms / 86400000;
    let hours: i64 = (elapsed_ms / 3600000) % 24;
    let minutes: i64 = (elapsed_ms / 60000) % 60;
    let msrem: i64 = elapsed_ms % 60000;
    let mut out = String::new();
    match fmt {
        DurationFmt::Shorter => {
            if days > 31 {
                return format_date(date, current_year, DateFmt::Shorter);
            } else if weeks > 0 {
                out = i64_to_dec(weeks);
                out.append("w ago");
            } else if days > 0 {
                out = i64_to_dec(days);
                out.append("d ago");
            } else if hours > 0 {
                out = i64_to_dec(hours);
                out.append("h ago");
            } else if minutes > 0 {
                out = i64_to_dec(minutes);
                out.append("m ago");
            } else {
                let secs = round_seconds_exec(msrem);
                out = i64_to_dec(secs);
                out.append("s ago");
            }
        },
        DurationFmt::Short => {
            if weeks > 0 {
                out = i64_to_dec(weeks);
                out.append(" week");
                out.append(plural(weeks));
                out.append(" ago");
            } else if days > 0 {
                out = i64_to_dec(days);
                out.append(" day");
                out.append(plural(days));
                out.append(" ago");
            } else if hours > 0 {
                out = i64_to_dec(hours);
                out.append(" hour");
                out.append(plural(hours));
                out.append(" ago");
            } else if minutes > 0 {
                out = i64_to_dec(minutes);
                out.append(" min");
                out.append(plural(minutes));
                out.append(" ago");
            } else {
                let secs = round_seconds_exec(msrem);
                out = i64_to_dec(secs);
                out.append(" sec");
                out.append(plural(secs));
                out.append(" ago");
            }
        },
        DurationFmt::Long => {
            if days > 0 {
                let piece = i64_to_dec(days);
                out.append(piece.as_str());
                out.append(" day");
                out.append(plural(days));
                out.append(" ");
            }
            if hours > 0 {
                let piece = i64_to_dec(hours);
                out.append(piece.as_str());
                out.append(" hour");
                out.append(plural(hours));
                out.append(" ");
            }
            if minutes > 0 {
                let piece = i64_to_dec(minutes);
                out.append(piece.as_str());
                out.append(" minute");
                out.append(plural(minutes));
                out.append(" ");
            }
            if days <= 0 && hours <= 0 && (msrem > 0 || minutes <= 0) {
                append_seconds_with_millis(&mut out, msrem);
                out.append(" seconds ");
            }
            out.append("ago");
        },
    }
    proof {
        assert(out@ =~= age_text(elapsed_ms as int, *date, current_year as int, fmt));
    }
    out
}

/// Whole seconds for a millisecond remainder, rounded half away from zero.
fn round_seconds_exec(msrem: i64) -> (r: i64)
    requires
        -60000 < msrem < 60000,
    ensures
        r == rounded_seconds(msrem as int),
{
    if msrem >= 0 {
        (msrem + 500) / 1000
    } else {
        -((-msrem + 500) / 1000)
    }
}

/// Append a millisecond remainder as seconds with three decimals.
fn append_seconds_with_millis(out: &mut String, msrem: i64)
    requires
        -60000 < msrem < 60000,
    ensures
        final(out)@ == old(out)@ + seconds_with_millis(msrem as int),
{
    let magnitude: i64 = if msrem >= 0 {
        msrem
    } else {
        -msrem
    };
    if msrem < 0 {
        out.append("-");
    }
    let whole = crate::text::u64_to_dec((magnitude / 1000) as u64);
    out.append(whole.as_str());
    out.append(".");
    let millis = u64_to_dec_pad((magnitude % 1000) as u64, 3);
    out.append(millis.as_str());
    proof {
        reveal_strlit("");
        assert(out@ =~= old(out)@ + seconds_with_millis(msrem as int));
    }
}

} // verus!
