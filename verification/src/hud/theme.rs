//! How good a value is, and how it is written.

use vstd::prelude::*;
use crate::hud::stats::LiveStats;
use crate::text;
use crate::text::{format_digits, string_of};

verus! {

/// The class of a value, which decides its colour.
#[derive(Debug, Clone, Copy, PartialEq, Eq, Structural)]
pub enum Level {
    /// There is no value.
    Muted,
    /// A value that is neither good nor bad.
    Plain,
    Good,
    Warn,
    Bad,
}

/// A frame rate, as frames in a time: good from 120 frames a second on,
/// acceptable from 60 on.
pub open spec fn fps_level_of(frames: int, window_ns: int) -> Level {
    if frames == 0 {
        Level::Muted
    } else if frames * 1_000_000_000 >= 120 * window_ns {
        Level::Good
    } else if frames * 1_000_000_000 >= 60 * window_ns {
        Level::Warn
    } else {
        Level::Bad
    }
}

pub fn fps_level(frames: u64, window_ns: u64) -> (r: Level)
    ensures
        r == fps_level_of(frames as int, window_ns as int),
{
    if frames == 0 {
        return Level::Muted;
    }
    let scaled: u128 = frames as u128 * 1_000_000_000;
    if scaled >= 120 * window_ns as u128 {
        Level::Good
    } else if scaled >= 60 * window_ns as u128 {
        Level::Warn
    } else {
        Level::Bad
    }
}

/// A latency in microseconds: good below a frame at 60 Hz, acceptable below
/// two. 0 stands for no sample.
pub open spec fn latency_level_of(us: u64) -> Level {
    if us == 0 {
        Level::Muted
    } else if us < 16_000 {
        Level::Good
    } else if us < 33_000 {
        Level::Warn
    } else {
        Level::Bad
    }
}

pub fn latency_level(us: u64) -> (r: Level)
    ensures
        r == latency_level_of(us),
{
    if us == 0 {
        Level::Muted
    } else if us < 16_000 {
        Level::Good
    } else if us < 33_000 {
        Level::Warn
    } else {
        Level::Bad
    }
}

/// How a latency is written.
#[derive(Debug)]
pub enum UsLabel {
    /// As a text of its own.
    Text(String),
    /// In milliseconds, with two decimals.
    Millis(u64),
}

/// The text of a latency below a millisecond.
pub open spec fn short_label(us: u64) -> Seq<char> {
    if us == 0 {
        seq!['\u{2014}']
    } else {
        text::digits_of(us as nat, 10) + seq![' ', '\u{00B5}', 's']
    }
}

/// A dash for no sample, microseconds below a millisecond, and milliseconds
/// from there on.
pub fn us_label(us: u64) -> (r: UsLabel)
    ensures
        is_label(r, us),
{
    if us == 0 {
        let mut out: Vec<char> = Vec::new();
        out.push('\u{2014}');
        proof {
            assert(out@ =~= short_label(us));
        }
        UsLabel::Text(string_of(out.as_slice()))
    } else if us >= 1_000 {
        UsLabel::Millis(us)
    } else {
        let mut out: Vec<char> = format_digits(us, 10);
        let ghost digits = out@;
        out.push(' ');
        out.push('\u{00B5}');
        out.push('s');
        proof {
            assert(out@ =~= digits + seq![' ', '\u{00B5}', 's']);
        }
        UsLabel::Text(string_of(out.as_slice()))
    }
}

/// What a tile of the top strip shows.
#[derive(Debug)]
pub enum TileValue {
    /// A rate of frames in a time.
    Rate { frames: u64, window_ns: u64 },
    Latency(UsLabel),
    Count(u64),
}

/// A tile of the top strip.
#[derive(Debug)]
pub struct Tile {
    pub label: &'static str,
    pub value: TileValue,
    pub level: Level,
}

pub open spec fn is_latency_tile(t: Tile, label: &'static str, us: u64) -> bool {
    &&& t.label == label
    &&& t.level == latency_level_of(us)
    &&& t.value matches TileValue::Latency(l) && is_label(l, us)
}

/// Whether a label is that of a latency.
pub open spec fn is_label(l: UsLabel, us: u64) -> bool {
    if us >= 1_000 {
        l == UsLabel::Millis(us)
    } else {
        l matches UsLabel::Text(s) && s@ == short_label(us)
    }
}

fn latency_tile(label: &'static str, us: u64) -> (r: Tile)
    ensures
        is_latency_tile(r, label, us),
{
    Tile { label, value: TileValue::Latency(us_label(us)), level: latency_level(us) }
}

/// The tiles of the top strip, from the left: the rate, the latencies, how
/// many of these there were, and how many frames were dropped in the plotted
/// time.
pub fn top_strip(live: &LiveStats, window_ns: u64, drops: u64) -> (r: Vec<Tile>)
    ensures
        r@.len() == 6,
        r@[0].label == "fps",
        r@[0].value == (TileValue::Rate { frames: live.frames as u64, window_ns }),
        r@[0].level == fps_level_of(live.frames as int, window_ns as int),
        is_latency_tile(r@[1], "p50", live.p50_us),
        is_latency_tile(r@[2], "p99", live.p99_us),
        is_latency_tile(r@[3], "max", live.max_us),
        r@[4].label == "samples",
        r@[4].value == TileValue::Count(live.samples as u64),
        r@[4].level == (if live.samples == 0 {
            Level::Muted
        } else {
            Level::Plain
        }),
        r@[5].label == "drops/60s",
        r@[5].value == TileValue::Count(drops),
        r@[5].level == (if drops == 0 {
            Level::Good
        } else {
            Level::Warn
        }),
{
    let mut out: Vec<Tile> = Vec::new();
    let frames: u64 = live.frames as u64;
    out.push(
        Tile {
            label: "fps",
            value: TileValue::Rate { frames, window_ns },
            level: fps_level(frames, window_ns),
        },
    );
    out.push(latency_tile("p50", live.p50_us));
    out.push(latency_tile("p99", live.p99_us));
    out.push(latency_tile("max", live.max_us));
    out.push(
        Tile {
            label: "samples",
            value: TileValue::Count(live.samples as u64),
            level: if live.samples == 0 {
                Level::Muted
            } else {
                Level::Plain
            },
        },
    );
    out.push(
        Tile {
            label: "drops/60s",
            value: TileValue::Count(drops),
            level: if drops == 0 {
                Level::Good
            } else {
                Level::Warn
            },
        },
    );
    out
}

/// A frame rate is good from 120 frames a second on and acceptable from 60 on.
/// More frames in the same time are never worse.
pub proof fn law_fps_levels(frames: u64, window_ns: u64, r: Level, more: u64, of_more: Level)
    requires
        call_ensures(fps_level, (frames, window_ns), r),
        frames <= more,
        call_ensures(fps_level, (more, window_ns), of_more),
    ensures
        r is Muted <==> frames == 0,
        frames > 0 && window_ns == 1_000_000_000 ==> {
            &&& r is Good <==> frames >= 120
            &&& r is Warn <==> 60 <= frames < 120
            &&& r is Bad <==> frames < 60
        },
        frames > 0 && frames * 1_000_000_000 >= window_ns * 120 ==> r is Good,
        frames > 0 && frames * 1_000_000_000 < window_ns * 60 ==> r is Bad,
        r is Good ==> of_more is Good,
        r is Warn ==> of_more is Good || of_more is Warn,
{
}

/// A latency is good below 16 milliseconds, acceptable below 33, and bad from
/// there on; 0 is none.
pub proof fn law_latency_levels(us: u64, r: Level)
    requires
        call_ensures(latency_level, (us,), r),
    ensures
        r is Muted <==> us == 0,
        r is Good <==> 0 < us < 16_000,
        r is Warn <==> 16_000 <= us < 33_000,
        r is Bad <==> us >= 33_000,
{
}

/// A latency is written in milliseconds from one millisecond on. Below it is
/// written as its number of microseconds with the unit, and as a dash where
/// there is none.
pub proof fn law_latency_is_written(us: u64, r: UsLabel)
    requires
        call_ensures(us_label, (us,), r),
    ensures
        us >= 1_000 <==> r is Millis,
        r matches UsLabel::Millis(n) ==> n == us,
        r matches UsLabel::Text(s) ==> {
            &&& us == 0 ==> s@.len() == 1 && s@[0] == '\u{2014}'
            &&& us > 0 ==> s@.len() > 3 && text::digits_value(s@.take(s@.len() - 3), 10) == Some(
                us as nat,
            ) && s@[s@.len() - 3] == ' ' && s@[s@.len() - 2] == '\u{00B5}' && s@.last() == 's'
        },
{
    if us < 1_000 && us > 0 {
        let d = text::digits_of(us as nat, 10);
        text::lemma_number_round_trip(us as nat, 10, u64::MAX as nat);
        let s = short_label(us);
        assert(s.take(s.len() - 3) =~= d);
        assert(text::is_digit_char(d[0]));
    }
}

/// The strip shows the aggregates it is given, each under its own label: the
/// rate, the three latencies, the samples and the drops. No sample is muted,
/// and a drop is a warning.
pub proof fn law_strip_shows_the_aggregates(
    live: &LiveStats,
    window_ns: u64,
    drops: u64,
    r: Vec<Tile>,
    p50: Level,
    p99: Level,
    max: Level,
    fps: Level,
)
    requires
        call_ensures(top_strip, (live, window_ns, drops), r),
        call_ensures(latency_level, (live.p50_us,), p50),
        call_ensures(latency_level, (live.p99_us,), p99),
        call_ensures(latency_level, (live.max_us,), max),
        call_ensures(fps_level, (live.frames as u64, window_ns), fps),
    ensures
        r@.len() == 6,
        r@[0].label@ == "fps"@ && r@[1].label@ == "p50"@ && r@[2].label@ == "p99"@,
        r@[3].label@ == "max"@ && r@[4].label@ == "samples"@ && r@[5].label@ == "drops/60s"@,
        r@[0].level == fps && r@[1].level == p50 && r@[2].level == p99 && r@[3].level == max,
        r@[0].value matches TileValue::Rate { frames, window_ns: w } && frames == live.frames && w
            == window_ns,
        r@[1].value matches TileValue::Latency(l) && (live.p50_us >= 1_000 ==> l == UsLabel::Millis(
            live.p50_us,
        )),
        r@[2].value matches TileValue::Latency(l) && (live.p99_us >= 1_000 ==> l == UsLabel::Millis(
            live.p99_us,
        )),
        r@[3].value matches TileValue::Latency(l) && (live.max_us >= 1_000 ==> l == UsLabel::Millis(
            live.max_us,
        )),
        r@[4].value matches TileValue::Count(n) && n == live.samples,
        r@[5].value matches TileValue::Count(n) && n == drops,
        r@[4].level is Muted <==> live.samples == 0,
        r@[5].level is Warn <==> drops > 0,
        r@[5].level is Good <==> drops == 0,
{
}

} // verus!
