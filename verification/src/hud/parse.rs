//! Reader of one telemetry line.
//!
//! The layer writes one line per present:
//!
//! ```text
//! {"ts":<u64>,"frame":<u64>,"queue":"0x<hex>","pid":<u64>,"latency_us":<u64>}
//! ```

use vstd::prelude::*;
use vstd::slice::slice_subrange;
use vstd::utf8;
use crate::hud::state::Record;
use crate::text;
use crate::text::{chars_of, find_char, parse_number, spells, trim, CharClass};

verus! {

/// Longest line that is read, in bytes.
pub const MAX_LINE_BYTES: usize = 1024;

/// A decimal field: white space around it is ignored.
pub open spec fn u64_value(s: Seq<char>) -> Option<nat> {
    text::number_value(text::trimmed(s), 10, u64::MAX as nat)
}

/// The queue field: hexadecimal behind `0x` or `0X`, decimal otherwise, with
/// or without quotes.
pub open spec fn queue_value(s: Seq<char>) -> Option<nat> {
    let t = text::unquoted(text::trimmed(s));
    if t.len() >= 2 && t[0] == '0' && (t[1] == 'x' || t[1] == 'X') {
        text::number_value(t.skip(2), 16, u64::MAX as nat)
    } else {
        text::number_value(t, 10, u64::MAX as nat)
    }
}

/// `rec` with the field `key` set from `val`: `None` where the value of a
/// known field does not read. Unknown fields change nothing.
pub open spec fn with_field(rec: Record, key: Seq<char>, val: Seq<char>) -> Option<Record> {
    if key == "ts"@ {
        match u64_value(val) {
            Some(v) => Some(Record { ts_ns: v as u64, ..rec }),
            None => None,
        }
    } else if key == "frame"@ {
        match u64_value(val) {
            Some(v) => Some(Record { frame: v as u64, ..rec }),
            None => None,
        }
    } else if key == "queue"@ {
        match queue_value(val) {
            Some(v) => Some(Record { queue: v as u64, ..rec }),
            None => None,
        }
    } else if key == "pid"@ {
        match u64_value(val) {
            Some(v) => Some(Record { pid: v as u64, ..rec }),
            None => None,
        }
    } else if key == "latency_us"@ {
        match u64_value(val) {
            Some(v) => Some(Record { latency_us: v as u64, ..rec }),
            None => None,
        }
    } else {
        Some(rec)
    }
}

/// One `"key" : value` part: `None` where it holds no colon.
pub open spec fn with_part(rec: Record, part: Seq<char>) -> Option<Record> {
    let i = text::index_of(part, ':') as int;
    if i >= part.len() {
        None
    } else {
        with_field(
            rec,
            text::unquoted(text::trimmed(part.take(i))),
            text::trimmed(part.skip(i + 1)),
        )
    }
}

/// The comma-separated parts, from left to right: a later one overrides an
/// earlier one of the same key.
pub open spec fn with_parts(rec: Record, s: Seq<char>) -> Option<Record>
    decreases s.len(),
{
    let i = text::index_of(s, ',') as int;
    if i >= s.len() {
        with_part(rec, s)
    } else {
        match with_part(rec, s.take(i)) {
            Some(next) => with_parts(next, s.skip(i + 1)),
            None => None,
        }
    }
}

/// The record that a line holds, if it is one: at most `MAX_LINE_BYTES` bytes
/// of UTF-8, braces around parts that all read.
pub open spec fn line_value(s: Seq<char>) -> Option<Record> {
    let t = text::trimmed(s);
    if utf8::encode_utf8(s).len() > MAX_LINE_BYTES {
        None
    } else if t.len() >= 2 && t[0] == '{' && t.last() == '}' {
        with_parts(Record::zero(), t.subrange(1, t.len() - 1))
    } else {
        None
    }
}

/// Reads one telemetry line.
pub fn parse_line(line: &str) -> (r: Option<Record>)
    ensures
        r == line_value(line@),
{
    if line.as_bytes().len() > MAX_LINE_BYTES {
        return None;
    }
    let chars = chars_of(line);
    let t = trim(chars.as_slice(), CharClass::Space);
    if t.len() < 2 || t[0] != '{' || t[t.len() - 1] != '}' {
        return None;
    }
    let mut rest: &[char] = slice_subrange(t, 1, t.len() - 1);
    let mut rec: Record = Record::default();
    loop
        invariant
            with_parts(Record::zero(), t@.subrange(1, t@.len() - 1)) == with_parts(rec, rest@),
            t@ == text::trimmed(line@),
            t@.len() >= 2,
            t@[0] == '{',
            t@.last() == '}',
            utf8::encode_utf8(line@).len() <= MAX_LINE_BYTES,
        decreases rest.len(),
    {
        let i = find_char(rest, ',');
        let part = slice_subrange(rest, 0, i);
        proof {
            assert(part@ == rest@.take(i as int));
            if i == rest@.len() {
                assert(part@ == rest@);
            }
        }
        match parse_part(rec, part) {
            Some(next) => {
                rec = next;
            },
            None => {
                return None;
            },
        }
        if i >= rest.len() {
            return Some(rec);
        }
        let ghost before = rest@;
        rest = slice_subrange(rest, i + 1, rest.len());
        proof {
            assert(rest@ == before.skip(i + 1));
        }
    }
}

fn parse_part(rec: Record, part: &[char]) -> (r: Option<Record>)
    ensures
        r == with_part(rec, part@),
{
    let i = find_char(part, ':');
    if i >= part.len() {
        return None;
    }
    let k = slice_subrange(part, 0, i);
    let v = slice_subrange(part, i + 1, part.len());
    proof {
        assert(k@ == part@.take(i as int));
        assert(v@ == part@.skip(i + 1));
    }
    let key = trim(trim(k, CharClass::Space), CharClass::One('"'));
    let val = trim(v, CharClass::Space);
    let mut out: Record = rec;
    if spells(key, "ts") {
        out.ts_ns = match parse_u64_chars(val) {
            Some(n) => n,
            None => {
                return None;
            },
        };
    } else if spells(key, "frame") {
        out.frame = match parse_u64_chars(val) {
            Some(n) => n,
            None => {
                return None;
            },
        };
    } else if spells(key, "queue") {
        out.queue = match parse_queue_chars(val) {
            Some(n) => n,
            None => {
                return None;
            },
        };
    } else if spells(key, "pid") {
        out.pid = match parse_u64_chars(val) {
            Some(n) => n,
            None => {
                return None;
            },
        };
    } else if spells(key, "latency_us") {
        out.latency_us = match parse_u64_chars(val) {
            Some(n) => n,
            None => {
                return None;
            },
        };
    }
    Some(out)
}

fn parse_u64_chars(s: &[char]) -> (r: Option<u64>)
    ensures
        (match r {
            Some(v) => u64_value(s@) == Some(v as nat),
            None => u64_value(s@) is None,
        }),
{
    parse_number(trim(s, CharClass::Space), 10, u64::MAX)
}

fn parse_queue_chars(s: &[char]) -> (r: Option<u64>)
    ensures
        (match r {
            Some(v) => queue_value(s@) == Some(v as nat),
            None => queue_value(s@) is None,
        }),
{
    let t = trim(trim(s, CharClass::Space), CharClass::One('"'));
    if t.len() >= 2 && t[0] == '0' && (t[1] == 'x' || t[1] == 'X') {
        let hex = slice_subrange(t, 2, t.len());
        proof {
            assert(hex@ == t@.skip(2));
        }
        parse_number(hex, 16, u64::MAX)
    } else {
        parse_number(t, 10, u64::MAX)
    }
}

/// Reads a decimal number with white space around it.
pub fn parse_u64(s: &str) -> (r: Option<u64>)
    ensures
        (match r {
            Some(v) => u64_value(s@) == Some(v as nat),
            None => u64_value(s@) is None,
        }),
{
    let chars = chars_of(s);
    parse_u64_chars(chars.as_slice())
}

/// Reads the value of the queue field.
pub fn parse_queue(s: &str) -> (r: Option<u64>)
    ensures
        (match r {
            Some(v) => queue_value(s@) == Some(v as nat),
            None => queue_value(s@) is None,
        }),
{
    let chars = chars_of(s);
    parse_queue_chars(chars.as_slice())
}

/// A line of more than 1024 bytes is not read, and neither is one without
/// braces around it.
pub proof fn law_other_lines_are_not_read(line: &str, r: Option<Record>)
    requires
        call_ensures(parse_line, (line,), r),
    ensures
        utf8::encode_utf8(line@).len() > 1024 ==> r is None,
        text::trimmed(line@).len() < 2 ==> r is None,
        text::trimmed(line@).len() > 0 && text::trimmed(line@)[0] != '{' ==> r is None,
        text::trimmed(line@).len() > 0 && text::trimmed(line@).last() != '}' ==> r is None,
{
}

/// A field sets the number of its own name and no other; a name that is not
/// known sets nothing; and a known one whose value does not read spoils the
/// line.
pub proof fn law_field_sets_its_own_number(rec: Record, key: Seq<char>, val: Seq<char>)
    ensures
        ({
            let r = with_field(rec, key, val);
            let known = key == "ts"@ || key == "frame"@ || key == "pid"@ || key == "latency_us"@;
            &&& known ==> (r is Some <==> u64_value(val) is Some)
            &&& key == "queue"@ ==> (r is Some <==> queue_value(val) is Some)
            &&& !known && key != "queue"@ ==> r == Some(rec)
            &&& r matches Some(x) ==> {
                &&& x.ts_ns == (if key == "ts"@ {
                    u64_value(val)->0 as u64
                } else {
                    rec.ts_ns
                })
                &&& x.frame == (if key == "frame"@ {
                    u64_value(val)->0 as u64
                } else {
                    rec.frame
                })
                &&& x.queue == (if key == "queue"@ {
                    queue_value(val)->0 as u64
                } else {
                    rec.queue
                })
                &&& x.pid == (if key == "pid"@ {
                    u64_value(val)->0 as u64
                } else {
                    rec.pid
                })
                &&& x.latency_us == (if key == "latency_us"@ {
                    u64_value(val)->0 as u64
                } else {
                    rec.latency_us
                })
            }
        }),
{
    reveal_strlit("ts");
    reveal_strlit("frame");
    reveal_strlit("queue");
    reveal_strlit("pid");
    reveal_strlit("latency_us");
    assert("ts"@.len() == 2);
    assert("frame"@.len() == 5);
    assert("queue"@.len() == 5);
    assert("pid"@.len() == 3);
    assert("latency_us"@.len() == 10);
    assert("frame"@[0] == 'f');
    assert("queue"@[0] == 'q');
}

/// A written number is read as itself, and a queue as well behind `0x` in
/// hexadecimal digits, or in decimal ones.
pub proof fn law_written_numbers_are_read(
    n: u64,
    decimal: &str,
    hex: &str,
    r: Option<u64>,
    q: Option<u64>,
    h: Option<u64>,
)
    requires
        decimal@ == text::digits_of(n as nat, 10),
        hex@ == seq!['0', 'x'] + text::digits_of(n as nat, 16),
        call_ensures(parse_u64, (decimal,), r),
        call_ensures(parse_queue, (decimal,), q),
        call_ensures(parse_queue, (hex,), h),
    ensures
        r == Some(n),
        q == Some(n),
        h == Some(n),
{
    let d = decimal@;
    let x = text::digits_of(n as nat, 16);
    text::lemma_number_round_trip(n as nat, 10, u64::MAX as nat);
    text::lemma_number_round_trip(n as nat, 16, u64::MAX as nat);
    assert(text::is_digit_char(d[0]));
    assert(text::is_digit_char(d[d.len() - 1]));
    assert(text::is_digit_char(x[x.len() - 1]));
    text::lemma_trim_keeps(d, CharClass::Space);
    text::lemma_trim_keeps(d, CharClass::One('"'));
    assert(hex@.last() == x.last());
    text::lemma_trim_keeps(hex@, CharClass::Space);
    text::lemma_trim_keeps(hex@, CharClass::One('"'));
    assert(hex@.skip(2) =~= x);
    if d.len() >= 2 {
        assert(text::is_digit_char(d[1]));
    }
}

} // verus!
