//! The line that the layer streams for each present, and the proof that the
//! display reads it back.
//!
//! ```text
//! {"ts":<u64>,"frame":<u64>,"queue":"0x<hex>","pid":<u64>,"latency_us":<u64>}
//! ```

use vstd::arithmetic::power2;
use vstd::prelude::*;
use vstd::utf8;
use crate::hud::parse;
use crate::hud::state::Record;
use crate::telemetry::FrameRecord;
use crate::text;
use crate::text::{chars_of, format_digits, string_of, CharClass};

verus! {

/// One `"key":value` part of a line.
pub open spec fn part_of(key: Seq<char>, val: Seq<char>) -> Seq<char> {
    seq!['"'] + key + seq!['"', ':'] + val
}

/// The queue identifier as a quoted hexadecimal number.
pub open spec fn queue_text(queue_id: u64) -> Seq<char> {
    seq!['"', '0', 'x'] + text::digits_of(queue_id as nat, 16) + seq!['"']
}

/// The line that is streamed for one present.
pub open spec fn line_of(rec: FrameRecord) -> Seq<char> {
    seq!['{'] + part_of("ts"@, text::digits_of(rec.host_ns as nat, 10)) + seq![',']
        + part_of("frame"@, text::digits_of(rec.frame_index as nat, 10)) + seq![',']
        + part_of("queue"@, queue_text(rec.queue_id)) + seq![',']
        + part_of("pid"@, text::digits_of(rec.present_id as nat, 10)) + seq![',']
        + part_of("latency_us"@, text::digits_of(rec.latency_us as nat, 10)) + seq!['}', '\n']
}

fn push_all(out: &mut Vec<char>, s: &[char])
    ensures
        final(out)@ == old(out)@ + s@,
{
    let ghost before = out@;
    let mut i: usize = 0;
    proof {
        assert(before + s@.take(0) =~= before);
    }
    while i < s.len()
        invariant
            i <= s.len(),
            out@ == before + s@.take(i as int),
        decreases s.len() - i,
    {
        out.push(s[i]);
        proof {
            assert(before + s@.take(i + 1) =~= (before + s@.take(i as int)).push(s@[i as int]));
        }
        i += 1;
    }
    proof {
        assert(s@.take(s@.len() as int) == s@);
    }
}

fn push_part(out: &mut Vec<char>, key: &str, val: &[char])
    ensures
        final(out)@ == old(out)@ + part_of(key@, val@),
{
    let ghost before = out@;
    let key_chars = chars_of(key);
    out.push('"');
    push_all(out, key_chars.as_slice());
    out.push('"');
    out.push(':');
    push_all(out, val);
    proof {
        assert(out@ =~= before + part_of(key@, val@));
    }
}

/// Writes the line for one present.
pub fn format_line(rec: &FrameRecord) -> (r: String)
    ensures
        r@ == line_of(*rec),
{
    let mut queue: Vec<char> = Vec::new();
    queue.push('"');
    queue.push('0');
    queue.push('x');
    push_all(&mut queue, format_digits(rec.queue_id, 16).as_slice());
    queue.push('"');
    proof {
        assert(queue@ =~= queue_text(rec.queue_id));
    }
    let mut out: Vec<char> = Vec::new();
    out.push('{');
    proof {
        assert(out@ =~= seq!['{']);
    }
    push_part(&mut out, "ts", format_digits(rec.host_ns, 10).as_slice());
    push_comma(&mut out);
    push_part(&mut out, "frame", format_digits(rec.frame_index, 10).as_slice());
    push_comma(&mut out);
    push_part(&mut out, "queue", queue.as_slice());
    push_comma(&mut out);
    push_part(&mut out, "pid", format_digits(rec.present_id, 10).as_slice());
    push_comma(&mut out);
    push_part(&mut out, "latency_us", format_digits(rec.latency_us, 10).as_slice());
    let ghost before = out@;
    out.push('}');
    out.push('\n');
    proof {
        assert(out@ =~= before + seq!['}', '\n']);
    }
    string_of(out.as_slice())
}

fn push_comma(out: &mut Vec<char>)
    ensures
        final(out)@ == old(out)@ + seq![','],
{
    let ghost before = out@;
    out.push(',');
    proof {
        assert(out@ =~= before + seq![',']);
    }
}

/// A part without a comma, followed by others, is read first.
proof fn lemma_next_part(rec: Record, part: Seq<char>, rest: Seq<char>)
    requires
        !part.contains(','),
    ensures
        parse::with_parts(rec, part + seq![','] + rest) == (match parse::with_part(rec, part) {
            Some(next) => parse::with_parts(next, rest),
            None => None,
        }),
{
    let s = part + seq![','] + rest;
    let n = part.len() as int;
    assert forall|j: int| 0 <= j < n implies s[j] != ',' by {
        assert(s[j] == part[j]);
        assert(part.contains(part[j]));
    }
    assert(s[n] == ',');
    text::lemma_index_of_is(s, ',', n);
    assert(s.take(n) =~= part);
    assert(s.skip(n + 1) =~= rest);
}

/// A part without a comma is read alone where it is the last.
proof fn lemma_last_part(rec: Record, part: Seq<char>)
    requires
        !part.contains(','),
    ensures
        parse::with_parts(rec, part) == parse::with_part(rec, part),
{
    let n = part.len() as int;
    assert forall|j: int| 0 <= j < n implies part[j] != ',' by {
        assert(part.contains(part[j]));
    }
    text::lemma_index_of_is(part, ',', n);
}

/// A quoted key, a colon and a value without white space at its ends.
proof fn lemma_part(rec: Record, key: Seq<char>, val: Seq<char>)
    requires
        is_key(key),
        val.len() > 0,
        !text::is_space(val[0]),
        !text::is_space(val.last()),
        !val.contains(','),
    ensures
        parse::with_part(rec, part_of(key, val)) == parse::with_field(rec, key, val),
        !part_of(key, val).contains(','),
{
    let part = part_of(key, val);
    let n = key.len() + 2;
    let quoted = seq!['"'] + key + seq!['"'];
    assert forall|j: int| 0 <= j < n implies part[j] != ':' && part[j] != ',' by {
        if 0 < j < n - 1 {
            assert(part[j] == key[j - 1]);
        }
    }
    assert(part[n as int] == ':');
    text::lemma_index_of_is(part, ':', n as int);
    assert(part.take(n as int) =~= quoted);
    assert(part.skip(n as int + 1) =~= val);
    text::lemma_trim_keeps(quoted, CharClass::Space);
    assert(is_key_char(key[0]));
    assert(is_key_char(key.last()));
    text::lemma_trim_pair(key, CharClass::One('"'), '"', '"');
    text::lemma_trim_keeps(val, CharClass::Space);
    assert forall|j: int| 0 <= j < part.len() implies part[j] != ',' by {
        if j > n {
            assert(part[j] == val[j - n - 1]);
            assert(val.contains(val[j - n - 1]));
        }
    }
}

spec fn is_key_char(c: char) -> bool {
    ('a' <= c && c <= 'z') || c == '_'
}

/// A short word of lower-case letters and underscores.
spec fn is_key(s: Seq<char>) -> bool {
    &&& 0 < s.len() <= 10
    &&& forall|i: int| 0 <= i < s.len() ==> is_key_char(#[trigger] s[i])
}

/// A written number is a value that reads back.
proof fn lemma_decimal(n: u64)
    ensures
        parse::u64_value(text::digits_of(n as nat, 10)) == Some(n as nat),
        text::digits_of(n as nat, 10).len() > 0,
        text::digits_of(n as nat, 10).len() <= 64,
        !text::is_space(text::digits_of(n as nat, 10)[0]),
        !text::is_space(text::digits_of(n as nat, 10).last()),
        !text::digits_of(n as nat, 10).contains(','),
        utf8::is_ascii_chars(text::digits_of(n as nat, 10)),
{
    let d = text::digits_of(n as nat, 10);
    text::lemma_number_round_trip(n as nat, 10, u64::MAX as nat);
    power2::lemma2_to64();
    text::lemma_digits_len(n as nat, 10, 64);
    assert(text::is_digit_char(d[0]));
    assert(text::is_digit_char(d[d.len() - 1]));
    text::lemma_trim_keeps(d, CharClass::Space);
}

/// The queue identifier reads back too.
proof fn lemma_queue(n: u64)
    ensures
        ({
            let v = queue_text(n);
            &&& parse::queue_value(v) == Some(n as nat)
            &&& !v.contains(',')
            &&& text::digits_of(n as nat, 16).len() <= 64
            &&& utf8::is_ascii_chars(text::digits_of(n as nat, 16))
        }),
{
    let d = text::digits_of(n as nat, 16);
    let t = seq!['0', 'x'] + d;
    let v = seq!['"', '0', 'x'] + d + seq!['"'];
    text::lemma_number_round_trip(n as nat, 16, u64::MAX as nat);
    power2::lemma2_to64();
    text::lemma_digits_len(n as nat, 16, 64);
    assert(text::is_digit_char(d[d.len() - 1]));
    text::lemma_trim_keeps(v, CharClass::Space);
    assert(v =~= seq!['"'] + t + seq!['"']);
    assert(t.last() == d.last());
    text::lemma_trim_pair(t, CharClass::One('"'), '"', '"');
    assert(t.skip(2) =~= d);
    assert forall|j: int| 0 <= j < v.len() implies v[j] != ',' by {
        if 3 <= j < v.len() - 1 {
            assert(v[j] == d[j - 3]);
            assert(text::is_digit_char(d[j - 3]));
        }
    }
}

/// The key of a field, by the field's number.
pub open spec fn key_of(field: int) -> Seq<char> {
    if field == 0 {
        "ts"@
    } else if field == 1 {
        "frame"@
    } else if field == 2 {
        "queue"@
    } else if field == 3 {
        "pid"@
    } else {
        "latency_us"@
    }
}

/// The value of a field of a present, as it is written.
pub open spec fn value_of(rec: FrameRecord, field: int) -> Seq<char> {
    if field == 0 {
        text::digits_of(rec.host_ns as nat, 10)
    } else if field == 1 {
        text::digits_of(rec.frame_index as nat, 10)
    } else if field == 2 {
        queue_text(rec.queue_id)
    } else if field == 3 {
        text::digits_of(rec.present_id as nat, 10)
    } else {
        text::digits_of(rec.latency_us as nat, 10)
    }
}

/// The fields of a present in some order, with commas between them.
pub open spec fn parts_in(rec: FrameRecord, order: Seq<int>) -> Seq<char>
    decreases order.len(),
{
    let first = part_of(key_of(order[0]), value_of(rec, order[0]));
    if order.len() <= 1 {
        first
    } else {
        first + seq![','] + parts_in(rec, order.drop_first())
    }
}

/// The line of a present with its fields in some order and some ending.
pub open spec fn line_in(rec: FrameRecord, order: Seq<int>, ending: Seq<char>) -> Seq<char> {
    seq!['{'] + parts_in(rec, order) + seq!['}'] + ending
}

/// Whether an order has each of the five fields once.
pub open spec fn is_order(order: Seq<int>) -> bool {
    &&& order.len() == 5
    &&& forall|i: int| 0 <= i < 5 ==> 0 <= #[trigger] order[i] < 5
    &&& forall|field: int| 0 <= field < 5 ==> #[trigger] order.contains(field)
}

/// The ways in which a line can end.
pub open spec fn is_ending(s: Seq<char>) -> bool {
    s == Seq::<char>::empty() || s == seq!['\n'] || s == seq!['\r', '\n']
}

proof fn lemma_regroup(head: Seq<char>, part: Seq<char>, rest: Seq<char>)
    ensures
        head + part + seq![','] + rest == head + (part + seq![','] + rest),
{
    assert(head + part + seq![','] + rest =~= head + (part + seq![','] + rest));
}

/// The line that is streamed has the fields in the order of their numbers,
/// and ends with a line feed.
proof fn lemma_line_shape(rec: FrameRecord)
    ensures
        line_of(rec) == line_in(rec, seq![0, 1, 2, 3, 4], seq!['\n']),
{
    let p1 = part_of(key_of(0), value_of(rec, 0));
    let p2 = part_of(key_of(1), value_of(rec, 1));
    let p3 = part_of(key_of(2), value_of(rec, 2));
    let p4 = part_of(key_of(3), value_of(rec, 3));
    let p5 = part_of(key_of(4), value_of(rec, 4));
    let o1: Seq<int> = seq![0, 1, 2, 3, 4];
    let o2: Seq<int> = seq![1, 2, 3, 4];
    let o3: Seq<int> = seq![2, 3, 4];
    let o4: Seq<int> = seq![3, 4];
    let o5: Seq<int> = seq![4];
    assert(o1.drop_first() =~= o2);
    assert(o2.drop_first() =~= o3);
    assert(o3.drop_first() =~= o4);
    assert(o4.drop_first() =~= o5);
    assert(parts_in(rec, o5) == p5);
    assert(parts_in(rec, o4) == p4 + seq![','] + parts_in(rec, o5));
    assert(parts_in(rec, o3) == p3 + seq![','] + parts_in(rec, o4));
    assert(parts_in(rec, o2) == p2 + seq![','] + parts_in(rec, o3));
    assert(parts_in(rec, o1) == p1 + seq![','] + parts_in(rec, o2));
    let h1 = seq!['{'];
    let h2 = h1 + p1 + seq![','];
    let h3 = h2 + p2 + seq![','];
    let h4 = h3 + p3 + seq![','];
    lemma_regroup(h4, p4, p5);
    lemma_regroup(h3, p3, parts_in(rec, o4));
    lemma_regroup(h2, p2, parts_in(rec, o3));
    lemma_regroup(h1, p1, parts_in(rec, o2));
    let body = seq!['{'] + parts_in(rec, o1);
    assert(line_of(rec) == body + seq!['}', '\n']);
    assert(body + seq!['}', '\n'] =~= body + seq!['}'] + seq!['\n']);
}

/// The keys are distinct words.
proof fn lemma_keys()
    ensures
        "frame"@ != "ts"@,
        "queue"@ != "ts"@,
        "queue"@ != "frame"@,
        "pid"@ != "ts"@,
        "pid"@ != "frame"@,
        "pid"@ != "queue"@,
        "latency_us"@ != "ts"@,
        "latency_us"@ != "frame"@,
        "latency_us"@ != "queue"@,
        "latency_us"@ != "pid"@,
        is_key("ts"@),
        is_key("frame"@),
        is_key("queue"@),
        is_key("pid"@),
        is_key("latency_us"@),
{
    reveal_strlit("ts");
    reveal_strlit("frame");
    reveal_strlit("queue");
    reveal_strlit("pid");
    reveal_strlit("latency_us");
    assert("ts"@.len() == 2);
    assert("frame"@.len() == 5);
    assert("queue"@.len() == 5);
    assert("pid"@.len() == 3);
    assert("latency_us"@.len() == 10);
    assert("frame"@[0] != "queue"@[0]);
}

/// A record with one field taken from a present.
spec fn with_one(z: Record, rec: FrameRecord, field: int) -> Record {
    if field == 0 {
        Record { ts_ns: rec.host_ns, ..z }
    } else if field == 1 {
        Record { frame: rec.frame_index, ..z }
    } else if field == 2 {
        Record { queue: rec.queue_id, ..z }
    } else if field == 3 {
        Record { pid: rec.present_id, ..z }
    } else {
        Record { latency_us: rec.latency_us, ..z }
    }
}

/// A record with some fields taken from a present.
spec fn with_all(z: Record, rec: FrameRecord, order: Seq<int>) -> Record
    decreases order.len(),
{
    if order.len() == 0 {
        z
    } else {
        with_all(with_one(z, rec, order[0]), rec, order.drop_first())
    }
}

/// The part of one field reads back, holds no comma and is short.
proof fn lemma_field(z: Record, rec: FrameRecord, field: int)
    requires
        0 <= field < 5,
    ensures
        ({
            let part = part_of(key_of(field), value_of(rec, field));
            &&& parse::with_part(z, part) == Some(with_one(z, rec, field))
            &&& !part.contains(',')
            &&& utf8::is_ascii_chars(part)
            &&& part.len() <= 100
        }),
{
    let hex = text::digits_of(rec.queue_id as nat, 16);
    lemma_keys();
    lemma_decimal(rec.host_ns);
    lemma_decimal(rec.frame_index);
    lemma_queue(rec.queue_id);
    lemma_decimal(rec.present_id);
    lemma_decimal(rec.latency_us);
    lemma_ascii_join(seq!['"', '0', 'x'], hex);
    lemma_ascii_join(seq!['"', '0', 'x'] + hex, seq!['"']);
    lemma_part(z, key_of(field), value_of(rec, field));
    lemma_part_ascii(key_of(field), value_of(rec, field));
}

/// The parts read back one by one, whatever their order, and are short.
proof fn lemma_parts_read(z: Record, rec: FrameRecord, order: Seq<int>)
    requires
        order.len() > 0,
        forall|i: int| 0 <= i < order.len() ==> 0 <= #[trigger] order[i] < 5,
    ensures
        parse::with_parts(z, parts_in(rec, order)) == Some(with_all(z, rec, order)),
        utf8::is_ascii_chars(parts_in(rec, order)),
        parts_in(rec, order).len() <= 101 * order.len(),
    decreases order.len(),
{
    let part = part_of(key_of(order[0]), value_of(rec, order[0]));
    let rest = order.drop_first();
    let next = with_one(z, rec, order[0]);
    lemma_field(z, rec, order[0]);
    if order.len() == 1 {
        lemma_last_part(z, part);
        assert(with_all(next, rec, rest) == next);
    } else {
        assert forall|i: int| 0 <= i < rest.len() implies 0 <= #[trigger] rest[i] < 5 by {
            assert(rest[i] == order[i + 1]);
        }
        lemma_parts_read(next, rec, rest);
        lemma_next_part(z, part, parts_in(rec, rest));
        lemma_ascii_join(part, seq![',']);
        lemma_ascii_join(part + seq![','], parts_in(rec, rest));
    }
}

/// Every field that is in the order comes from the present.
proof fn lemma_with_all(z: Record, rec: FrameRecord, order: Seq<int>)
    requires
        forall|i: int| 0 <= i < order.len() ==> 0 <= #[trigger] order[i] < 5,
    ensures
        ({
            let r = with_all(z, rec, order);
            &&& r.ts_ns == (if order.contains(0) { rec.host_ns } else { z.ts_ns })
            &&& r.frame == (if order.contains(1) { rec.frame_index } else { z.frame })
            &&& r.queue == (if order.contains(2) { rec.queue_id } else { z.queue })
            &&& r.pid == (if order.contains(3) { rec.present_id } else { z.pid })
            &&& r.latency_us == (if order.contains(4) { rec.latency_us } else { z.latency_us })
        }),
    decreases order.len(),
{
    if order.len() > 0 {
        let rest = order.drop_first();
        assert forall|i: int| 0 <= i < rest.len() implies 0 <= #[trigger] rest[i] < 5 by {
            assert(rest[i] == order[i + 1]);
        }
        lemma_with_all(with_one(z, rec, order[0]), rec, rest);
        assert forall|field: int| #[trigger] order.contains(field) == (order[0] == field
            || rest.contains(field)) by {
            if rest.contains(field) {
                let i = choose|i: int| 0 <= i < rest.len() && rest[i] == field;
                assert(order[i + 1] == field);
            }
            if order.contains(field) {
                let i = choose|i: int| 0 <= i < order.len() && order[i] == field;
                if i > 0 {
                    assert(rest[i - 1] == field);
                }
            }
            assert(order[0] == order[0]);
        }
        assert(order.contains(0) == (order[0] == 0 || rest.contains(0)));
        assert(order.contains(1) == (order[0] == 1 || rest.contains(1)));
        assert(order.contains(2) == (order[0] == 2 || rest.contains(2)));
        assert(order.contains(3) == (order[0] == 3 || rest.contains(3)));
        assert(order.contains(4) == (order[0] == 4 || rest.contains(4)));
    }
}

proof fn lemma_ascii_join(a: Seq<char>, b: Seq<char>)
    requires
        utf8::is_ascii_chars(a),
        utf8::is_ascii_chars(b),
    ensures
        utf8::is_ascii_chars(a + b),
{
    assert forall|i: int| 0 <= i < (a + b).len() implies '\0' <= #[trigger] (a + b)[i]
        <= '\u{7f}' by {
        if i < a.len() {
            assert((a + b)[i] == a[i]);
        } else {
            assert((a + b)[i] == b[i - a.len()]);
        }
    }
}

proof fn lemma_part_ascii(key: Seq<char>, val: Seq<char>)
    requires
        is_key(key),
        utf8::is_ascii_chars(val),
    ensures
        utf8::is_ascii_chars(part_of(key, val)),
        part_of(key, val).len() == key.len() + val.len() + 3,
{
    assert forall|i: int| 0 <= i < key.len() implies '\0' <= #[trigger] key[i] <= '\u{7f}' by {
        assert(is_key_char(key[i]));
    }
    lemma_ascii_join(seq!['"'], key);
    lemma_ascii_join(seq!['"'] + key, seq!['"', ':']);
    lemma_ascii_join(seq!['"'] + key + seq!['"', ':'], val);
}

/// The record that the display holds for a present of the layer.
pub open spec fn read_back(rec: FrameRecord) -> Record {
    Record {
        ts_ns: rec.host_ns,
        frame: rec.frame_index,
        queue: rec.queue_id,
        pid: rec.present_id,
        latency_us: rec.latency_us,
    }
}

/// A line with the fields of a present reads back in whatever order they
/// come, and with or without a line feed, or a carriage return and a line
/// feed, at its end.
pub proof fn law_field_order_is_free(rec: FrameRecord, order: Seq<int>, ending: Seq<char>)
    requires
        is_order(order),
        is_ending(ending),
    ensures
        parse::line_value(line_in(rec, order, ending)) == Some(read_back(rec)),
{
    let z = Record::zero();
    let parts = parts_in(rec, order);
    let body = seq!['{'] + parts + seq!['}'];
    let line = line_in(rec, order, ending);
    lemma_parts_read(z, rec, order);
    lemma_with_all(z, rec, order);
    assert(order.contains(0) && order.contains(1) && order.contains(2) && order.contains(3)
        && order.contains(4));
    lemma_ascii_join(seq!['{'], parts);
    lemma_ascii_join(seq!['{'] + parts, seq!['}']);
    lemma_ascii_join(body, ending);
    assert(ending.len() <= 2);
    utf8::is_ascii_chars_encode_utf8(line);
    text::lemma_trim_ending(body, CharClass::Space, ending);
    assert(body.subrange(1, body.len() - 1) =~= parts);
}

/// What the layer streams, the display reads back: the line of a present
/// holds exactly the numbers of its record.
pub proof fn law_line_round_trip(rec: FrameRecord)
    ensures
        parse::line_value(line_of(rec)) == Some(read_back(rec)),
{
    let order: Seq<int> = seq![0, 1, 2, 3, 4];
    lemma_line_shape(rec);
    assert(order[0] == 0 && order[1] == 1 && order[2] == 2 && order[3] == 3 && order[4] == 4);
    assert forall|field: int| 0 <= field < 5 implies #[trigger] order.contains(field) by {
        assert(order[field] == field);
    }
    law_field_order_is_free(rec, order, seq!['\n']);
}

/// The line that the layer writes for a present is one that the display reads,
/// and it reads the same numbers: the time, the frame, the queue, the present
/// and the latency.
pub proof fn law_written_line_is_read(rec: &FrameRecord, line: String, s: &str, r: Option<Record>)
    requires
        call_ensures(format_line, (rec,), line),
        s@ == line@,
        call_ensures(parse::parse_line, (s,), r),
    ensures
        r matches Some(x) && x.ts_ns == rec.host_ns && x.frame == rec.frame_index && x.queue
            == rec.queue_id && x.pid == rec.present_id && x.latency_us == rec.latency_us,
        line@.last() == '\n',
        line@[0] == '{',
{
    law_line_round_trip(*rec);
}

} // verus!
