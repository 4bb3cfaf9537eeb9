//! Wording of the distance between a filter occurrence and the selected
//! source line: in human time when both lines carry a timestamp, in lines
//! otherwise.

use vstd::prelude::*;

use crate::lines::LogLines;
use crate::text::{decimal, push_decimal, push_str};

verus! {

/// `num / den` rounded to the nearest integer, ties to even.
pub open spec fn round_half_even(num: int, den: int) -> int {
    let q = num / den;
    let r = num % den;
    if 2 * r > den {
        q + 1
    } else if 2 * r < den {
        q
    } else if q % 2 == 0 {
        q
    } else {
        q + 1
    }
}

/// `2^(52 - e)` where `2^e <= ms / 1000 < 2^(e + 1)`: the scale at which the
/// double nearest to `ms / 1000` has an integer significand (for
/// `1000 <= ms < 64000`).
pub open spec fn significand_scale(ms: int) -> int {
    if ms < 2000 {
        4503599627370496
    } else if ms < 4000 {
        2251799813685248
    } else if ms < 8000 {
        1125899906842624
    } else if ms < 16000 {
        562949953421312
    } else if ms < 32000 {
        281474976710656
    } else {
        140737488355328
    }
}

/// The tenths of a second that formatting the double nearest to
/// `ms / 1000` with one decimal prints: the double is `m / scale` with
/// `m` the correctly rounded significand, and the printed digit rounds its
/// exact value, ties to even.
pub open spec fn printed_tenths(ms: int) -> int {
    let scale = significand_scale(ms);
    let m = round_half_even(ms * scale, 1000);
    round_half_even(m * 10, scale)
}

fn round_half_even_u128(num: u128, den: u128) -> (r: u128)
    requires
        den > 0,
        num / den < u128::MAX,
    ensures
        r as int == round_half_even(num as int, den as int),
{
    let q = num / den;
    let rem = num % den;
    if rem > den - rem {
        q + 1
    } else if rem < den - rem {
        q
    } else if q % 2 == 0 {
        q
    } else {
        q + 1
    }
}

fn seconds_tenths(ms: u64) -> (t: u64)
    requires
        1000 <= ms < 60000,
    ensures
        t as int == printed_tenths(ms as int),
{
    let scale: u128 = if ms < 2000 {
        4503599627370496
    } else if ms < 4000 {
        2251799813685248
    } else if ms < 8000 {
        1125899906842624
    } else if ms < 16000 {
        562949953421312
    } else if ms < 32000 {
        281474976710656
    } else {
        140737488355328
    };
    assert((ms as int) * (scale as int) <= 60000 * 4503599627370496) by (nonlinear_arith)
        requires
            ms < 60000,
            scale <= 4503599627370496,
    ;
    let num: u128 = (ms as u128) * scale;
    let m = round_half_even_u128(num, 1000);
    proof {
        let q = num as int / 1000;
        assert(q * 1000 <= num as int) by (nonlinear_arith)
            requires
                q == num as int / 1000,
                num >= 0,
        ;
        assert(m as int * 1000 <= (ms as int) * (scale as int) + 1000);
    }
    let t = round_half_even_u128(m * 10, scale);
    proof {
        let q2 = (m as int * 10) / scale as int;
        assert(q2 * (scale as int) <= m as int * 10) by (nonlinear_arith)
            requires
                q2 == (m as int * 10) / scale as int,
                scale > 0,
                m >= 0,
        ;
        assert(q2 < 600) by (nonlinear_arith)
            requires
                q2 * (scale as int) <= m as int * 10,
                m as int * 1000 <= (ms as int) * (scale as int) + 1000,
                ms < 60000,
                scale > 1000,
        ;
    }
    t as u64
}

/// A duration in milliseconds in human terms: whole hours and minutes from
/// an hour on, whole minutes and seconds from a minute on, seconds with
/// one decimal from a second on, milliseconds below; negative durations
/// count as zero.
pub open spec fn human_duration(ms: int) -> Seq<char> {
    let ms = if ms < 0 {
        0
    } else {
        ms
    };
    if ms >= 3600000 {
        let hours = ms / 3600000;
        let minutes = (ms % 3600000) / 60000;
        if minutes == 0 {
            decimal(hours as nat) + "h"@
        } else {
            decimal(hours as nat) + "h "@ + decimal(minutes as nat) + "m"@
        }
    } else if ms >= 60000 {
        let minutes = ms / 60000;
        let seconds = (ms % 60000) / 1000;
        if seconds == 0 {
            decimal(minutes as nat) + "m"@
        } else {
            decimal(minutes as nat) + "m "@ + decimal(seconds as nat) + "sec"@
        }
    } else if ms >= 1000 {
        let tenths = printed_tenths(ms);
        decimal((tenths / 10) as nat) + "."@ + decimal((tenths % 10) as nat) + "sec"@
    } else {
        decimal(ms as nat) + "ms"@
    }
}

/// Rounding to the nearest multiple misses by at most half the step.
proof fn lemma_round_half_even_close(num: int, den: int)
    requires
        den > 0,
    ensures
        -den <= 2 * (num - den * round_half_even(num, den)) <= den,
{
    let q = num / den;
    let r = num % den;
    assert(num == den * q + r && 0 <= r < den) by (nonlinear_arith)
        requires
            den > 0,
            q == num / den,
            r == num % den,
    ;
    if 2 * r > den {
        assert(num - den * (q + 1) == r - den) by (nonlinear_arith)
            requires
                num == den * q + r,
        ;
    } else if 2 * r < den {
    } else if q % 2 == 0 {
    } else {
        assert(num - den * (q + 1) == r - den) by (nonlinear_arith)
            requires
                num == den * q + r,
        ;
    }
}

/// Law: between a second and a minute, the tenths of a second told are
/// the elapsed time to the nearest tenth: `t` tenths with
/// `100·t - 50 <= ms <= 100·t + 50`.
pub proof fn law_tenths_are_the_nearest_tenth(ms: int)
    requires
        1000 <= ms < 60000,
    ensures
        ({
            let t = printed_tenths(ms);
            &&& 100 * t - 50 <= ms <= 100 * t + 50
            &&& human_duration(ms) == decimal((t / 10) as nat) + "."@ + decimal((t % 10) as nat) + "sec"@
        }),
{
    let scale = significand_scale(ms);
    let m = round_half_even(ms * scale, 1000);
    let t = round_half_even(m * 10, scale);
    assert(scale >= 140737488355328);
    lemma_round_half_even_close(ms * scale, 1000);
    lemma_round_half_even_close(m * 10, scale);
    assert(100 * t - 50 <= ms <= 100 * t + 50) by (nonlinear_arith)
        requires
            scale >= 140737488355328,
            -1000 <= 2 * (ms * scale - 1000 * m) <= 1000,
            -scale <= 2 * (m * 10 - scale * t) <= scale,
    {
        assert(2 * scale * (100 * t - ms) == 200 * (scale * t - 10 * m) + 2 * (1000 * m - ms * scale));
        assert(-101 * scale <= 2 * scale * (100 * t - ms) <= 101 * scale);
    }
}

/// Law: under a second a duration is told in whole milliseconds, and a
/// negative duration is told as no time at all.
pub proof fn law_short_durations_in_milliseconds(ms: int)
    requires
        ms < 1000,
    ensures
        human_duration(ms) == decimal(if ms < 0 { 0nat } else { ms as nat }) + "ms"@,
{
}

/// Law: from an hour on, a duration is told in whole hours and minutes
/// that never state more time than elapsed and miss less than a minute:
/// `h` hours and `m` minutes with `m < 60` and
/// `h·3600000 + m·60000 <= ms < h·3600000 + (m + 1)·60000`; the minutes are
/// left out when there are none.
pub proof fn law_hours_and_minutes_never_overstate(ms: int)
    requires
        ms >= 3600000,
    ensures
        exists|h: nat, m: nat|
            #![trigger decimal(h), decimal(m)]
            m < 60 && h * 3600000 + m * 60000 <= ms < h * 3600000 + (m + 1) * 60000 && human_duration(ms) == if m == 0 {
                decimal(h) + "h"@
            } else {
                decimal(h) + "h "@ + decimal(m) + "m"@
            },
{
    let h = (ms / 3600000) as nat;
    let m = ((ms % 3600000) / 60000) as nat;
    assert(m < 60 && h * 3600000 + m * 60000 <= ms < h * 3600000 + (m + 1) * 60000) by (nonlinear_arith)
        requires
            ms >= 3600000,
            h == ms / 3600000,
            m == (ms % 3600000) / 60000,
    ;
    assert(decimal(h) == decimal(h) && decimal(m) == decimal(m));
}

/// Law: from a minute to an hour, a duration is told in whole minutes and
/// seconds that never state more time than elapsed and miss less than a
/// second: `m` minutes and `s` seconds with `m < 60`, `s < 60` and
/// `m·60000 + s·1000 <= ms < m·60000 + (s + 1)·1000`; the seconds are left
/// out when there are none.
pub proof fn law_minutes_and_seconds_never_overstate(ms: int)
    requires
        60000 <= ms < 3600000,
    ensures
        exists|m: nat, s: nat|
            #![trigger decimal(m), decimal(s)]
            m < 60 && s < 60 && m * 60000 + s * 1000 <= ms < m * 60000 + (s + 1) * 1000 && human_duration(ms) == if s == 0 {
                decimal(m) + "m"@
            } else {
                decimal(m) + "m "@ + decimal(s) + "sec"@
            },
{
    let m = (ms / 60000) as nat;
    let s = ((ms % 60000) / 1000) as nat;
    assert(m < 60 && s < 60 && m * 60000 + s * 1000 <= ms < m * 60000 + (s + 1) * 1000) by (nonlinear_arith)
        requires
            60000 <= ms < 3600000,
            m == ms / 60000,
            s == (ms % 60000) / 1000,
    ;
    assert(decimal(m) == decimal(m) && decimal(s) == decimal(s));
}

/// Formats a duration in human terms (see `human_duration`).
pub fn format_human_duration_ms(ms: i64) -> (text: String)
    ensures
        text@ == human_duration(ms as int),
{
    let ms: u64 = if ms < 0 {
        0
    } else {
        ms as u64
    };
    let mut out = String::new();
    if ms >= 3600000 {
        let hours = ms / 3600000;
        let minutes = (ms % 3600000) / 60000;
        push_decimal(&mut out, hours);
        if minutes == 0 {
            push_str(&mut out, "h");
        } else {
            push_str(&mut out, "h ");
            push_decimal(&mut out, minutes);
            push_str(&mut out, "m");
        }
    } else if ms >= 60000 {
        let minutes = ms / 60000;
        let seconds = (ms % 60000) / 1000;
        push_decimal(&mut out, minutes);
        if seconds == 0 {
            push_str(&mut out, "m");
        } else {
            push_str(&mut out, "m ");
            push_decimal(&mut out, seconds);
            push_str(&mut out, "sec");
        }
    } else if ms >= 1000 {
        let tenths = seconds_tenths(ms);
        push_decimal(&mut out, tenths / 10);
        push_str(&mut out, ".");
        push_decimal(&mut out, tenths % 10);
        push_str(&mut out, "sec");
    } else {
        push_decimal(&mut out, ms);
        push_str(&mut out, "ms");
    }
    out
}

/// How far an occurrence lies from the selected source line: by the time
/// between their timestamps when both have one, by the line distance
/// otherwise.
pub open spec fn relative_occurrence(
    source_time: Option<i64>,
    occurrence_time: Option<i64>,
    selected_line: usize,
    line: usize,
) -> Seq<char> {
    match (occurrence_time, source_time) {
        (Some(time), Some(source)) => {
            let delta = time - source;
            if delta < 0 {
                human_duration(if delta == i64::MIN {
                    i64::MAX as int
                } else {
                    -delta
                }) + " ago"@
            } else if delta > 0 {
                "after "@ + human_duration(delta)
            } else {
                "at the same time"@
            }
        },
        _ => if line < selected_line {
            decimal((selected_line - line) as nat) + " lines ago"@
        } else if line > selected_line {
            "after "@ + decimal((line - selected_line) as nat) + " lines"@
        } else {
            "selected source line"@
        },
    }
}

/// Words how far an occurrence lies from the selected source line (see
/// `relative_occurrence`).
pub fn relative_occurrence_text(
    source_time: Option<i64>,
    occurrence_time: Option<i64>,
    selected_line: usize,
    line: usize,
) -> (text: String)
    requires
        occurrence_time matches Some(time) && source_time matches Some(source) ==> i64::MIN <= time
            - source <= i64::MAX,
    ensures
        text@ == relative_occurrence(source_time, occurrence_time, selected_line, line),
{
    match (occurrence_time, source_time) {
        (Some(time), Some(source)) => {
            let delta = time - source;
            if delta < 0 {
                let magnitude = if delta == i64::MIN {
                    i64::MAX
                } else {
                    -delta
                };
                let mut out = format_human_duration_ms(magnitude);
                push_str(&mut out, " ago");
                return out;
            }
            if delta > 0 {
                let mut out = String::new();
                push_str(&mut out, "after ");
                let duration = format_human_duration_ms(delta);
                push_str(&mut out, duration.as_str());
                return out;
            }
            return "at the same time".to_owned();
        },
        _ => {},
    }
    if line < selected_line {
        let mut out = String::new();
        push_decimal(&mut out, (selected_line - line) as u64);
        push_str(&mut out, " lines ago");
        out
    } else if line > selected_line {
        let mut out = String::new();
        push_str(&mut out, "after ");
        push_decimal(&mut out, (line - selected_line) as u64);
        push_str(&mut out, " lines");
        out
    } else {
        "selected source line".to_owned()
    }
}

/// The tooltip of an occurrence row, from the times of the two lines.
pub fn occurrence_time_tooltip(doc: &LogLines, selected_line: usize, line: usize) -> (text: String)
    requires
        selected_line < doc.times@.len(),
        line < doc.times@.len(),
        doc.times@[line as int] matches Some(time) && doc.times@[selected_line as int] matches Some(source)
            ==> i64::MIN <= time - source <= i64::MAX,
    ensures
        text@ == relative_occurrence(doc.times@[selected_line as int], doc.times@[line as int], selected_line, line),
{
    let source_time = doc.times[selected_line];
    let occurrence_time = doc.times[line];
    relative_occurrence_text(source_time, occurrence_time, selected_line, line)
}

} // verus!
