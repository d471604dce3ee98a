use vkpace::hud::parse::{parse_line, parse_queue, parse_u64};
use vkpace::telemetry::FrameRecord;
use vkpace::wire::format_line;

#[test]
fn round_trip_layer_format() {
    let line = r#"{"ts":1234567890,"frame":7,"queue":"0xdeadbeef","pid":42,"latency_us":1500}"#;
    let r = parse_line(line).expect("must parse");
    assert_eq!(r.ts_ns, 1_234_567_890);
    assert_eq!(r.frame, 7);
    assert_eq!(r.queue, 0xdead_beef);
    assert_eq!(r.pid, 42);
    assert_eq!(r.latency_us, 1500);
}

#[test]
fn trailing_newline_accepted() {
    let line = "{\"ts\":1,\"frame\":2,\"queue\":\"0x0\",\"pid\":3,\"latency_us\":4}\n";
    assert!(parse_line(line).is_some());
}

#[test]
fn missing_field_defaults_zero() {
    let line = r#"{"ts":1,"frame":2,"queue":"0x0","pid":3}"#;
    let r = parse_line(line).unwrap();
    assert_eq!(r.latency_us, 0);
}

#[test]
fn unknown_field_ignored() {
    let line = r#"{"ts":1,"frame":2,"queue":"0x0","pid":3,"latency_us":4,"future":99}"#;
    assert!(parse_line(line).is_some());
}

#[test]
fn garbage_hex_rejects() {
    let line = r#"{"ts":1,"frame":2,"queue":"0xZZ","pid":3,"latency_us":4}"#;
    assert!(parse_line(line).is_none());
}

#[test]
fn oversized_line_rejected() {
    let pad = "x".repeat(2000);
    let line =
        format!(r#"{{"ts":1,"frame":2,"queue":"0x0","pid":3,"latency_us":4,"x":"{pad}"}}"#);
    assert!(parse_line(&line).is_none());
}

#[test]
fn missing_braces_rejected() {
    assert!(parse_line(r#""ts":1,"frame":2"#).is_none());
}

#[test]
fn empty_object_rejected() {
    assert!(parse_line("{}").is_none());
}

#[test]
fn key_reorder_accepted() {
    let line = r#"{"pid":3,"queue":"0xff","latency_us":4,"frame":2,"ts":1}"#;
    let r = parse_line(line).unwrap();
    assert_eq!(r.ts_ns, 1);
    assert_eq!(r.queue, 0xff);
}

#[test]
fn whitespace_tolerated() {
    let line = r#"{ "ts" : 1 , "frame" : 2 , "queue" : "0x0" , "pid" : 3 , "latency_us" : 4 }"#;
    assert!(parse_line(line).is_some());
}

#[test]
fn line_of_exactly_the_limit_is_read() {
    let head = r#"{"ts":1,"x":""#;
    let tail = r#""}"#;
    let pad = "y".repeat(1024 - head.len() - tail.len());
    let line = format!("{head}{pad}{tail}");
    assert_eq!(line.len(), 1024);
    assert_eq!(parse_line(&line).unwrap().ts_ns, 1);
    assert!(parse_line(&format!("{line} ")).is_none());
}

#[test]
fn queue_reads_in_three_forms() {
    assert_eq!(parse_queue("\"0xFf\""), Some(255));
    assert_eq!(parse_queue(" 0Xff "), Some(255));
    assert_eq!(parse_queue("255"), Some(255));
    assert_eq!(parse_queue("0x"), None);
    assert_eq!(parse_queue("0x10000000000000000"), None);
}

#[test]
fn decimal_fields_have_64_bits() {
    assert_eq!(parse_u64(" 18446744073709551615 "), Some(u64::MAX));
    assert_eq!(parse_u64("18446744073709551616"), None);
    assert_eq!(parse_u64("+7"), Some(7));
    assert_eq!(parse_u64("-7"), None);
    assert_eq!(parse_u64(""), None);
}

#[test]
fn written_line_has_the_documented_form() {
    let rec = FrameRecord {
        host_ns: 1_234_567_890,
        frame_index: 7,
        queue_id: 0xdead_beef,
        present_id: 42,
        latency_us: 1500,
    };
    assert_eq!(
        format_line(&rec),
        "{\"ts\":1234567890,\"frame\":7,\"queue\":\"0xdeadbeef\",\"pid\":42,\"latency_us\":1500}\n"
    );
}

#[test]
fn written_lines_read_back() {
    for rec in [
        FrameRecord {
            host_ns: 0,
            frame_index: 0,
            queue_id: 0,
            present_id: 0,
            latency_us: 0,
        },
        FrameRecord {
            host_ns: u64::MAX,
            frame_index: u64::MAX,
            queue_id: u64::MAX,
            present_id: u64::MAX,
            latency_us: u64::MAX,
        },
    ] {
        let r = parse_line(&format_line(&rec)).unwrap();
        assert_eq!(r.ts_ns, rec.host_ns);
        assert_eq!(r.frame, rec.frame_index);
        assert_eq!(r.queue, rec.queue_id);
        assert_eq!(r.pid, rec.present_id);
        assert_eq!(r.latency_us, rec.latency_us);
    }
}

#[test]
fn fields_read_in_any_order_and_with_any_ending() {
    let parts = [
        "\"ts\":11",
        "\"frame\":22",
        "\"queue\":\"0x33\"",
        "\"pid\":44",
        "\"latency_us\":55",
    ];
    for order in [[0, 1, 2, 3, 4], [4, 3, 2, 1, 0], [2, 0, 4, 1, 3]] {
        for ending in ["", "\n", "\r\n"] {
            let fields: Vec<&str> = order.iter().map(|i| parts[*i]).collect();
            let line = format!("{{{}}}{ending}", fields.join(","));
            let r = parse_line(&line).unwrap();
            assert_eq!((r.ts_ns, r.frame, r.queue), (11, 22, 0x33));
            assert_eq!((r.pid, r.latency_us), (44, 55));
        }
    }
}
