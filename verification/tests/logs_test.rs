use super_core::logs::{
    console_prefix, line_text, needs_rotation, render_record, rotation_plan, superd_line,
    tail_window, timestamp_now, custom_log_file, FramedLine, LineFramer, LogDriver, LogSource,
    LogTimestamp,
};

fn lines(v: &[FramedLine]) -> Vec<(Vec<u8>, bool)> {
    v.iter().map(|l| (l.bytes.clone(), l.truncated)).collect()
}

#[test]
fn source_names() {
    assert_eq!(LogSource::Stdout.extension(), "out");
    assert_eq!(LogSource::Stderr.extension(), "err");
    assert_eq!(LogSource::Stdout.as_str(), "stdout");
    assert_eq!(LogSource::Stderr.as_str(), "stderr");
}

#[test]
fn framer_splits_and_strips_cr() {
    let mut f = LineFramer::new(16);
    let out = f.feed(b"a\r\nbc\nd");
    assert_eq!(lines(&out), vec![(b"a".to_vec(), false), (b"bc".to_vec(), false)]);
    let out = f.feed(b"e\n");
    assert_eq!(lines(&out), vec![(b"de".to_vec(), false)]);
    assert!(f.finish().is_none());
}

#[test]
fn framer_cuts_long_lines() {
    let mut f = LineFramer::new(3);
    let out = f.feed(b"abcdefg\n");
    assert_eq!(
        lines(&out),
        vec![(b"abcd".to_vec(), true), (b"efg".to_vec(), false)]
    );
    let out = f.feed(b"xyz");
    assert!(out.is_empty());
    let last = f.finish().unwrap();
    assert_eq!(last.bytes, b"xyz".to_vec());
    assert!(!last.truncated);
}

#[test]
fn framing_does_not_depend_on_chunking() {
    let data = b"first line\r\nsecond very long line\n\nthird\rx\npartial";
    let mut whole = LineFramer::new(8);
    let mut a = lines(&whole.feed(data));
    let mut pieces = LineFramer::new(8);
    let mut b = Vec::new();
    for chunk in data.chunks(3) {
        b.extend(lines(&pieces.feed(chunk)));
    }
    a.extend(whole.finish().map(|l| (l.bytes, l.truncated)));
    b.extend(pieces.finish().map(|l| (l.bytes, l.truncated)));
    assert_eq!(a, b);
}

#[test]
fn line_text_marks_truncation() {
    let l = FramedLine { bytes: b"abc".to_vec(), truncated: true };
    assert_eq!(line_text(&l), "abc...[TRUNCATED]");
    let l = FramedLine { bytes: vec![0x66, 0xff, 0x6f], truncated: false };
    assert_eq!(line_text(&l), "f\u{fffd}o");
}

#[test]
fn records_and_prefixes() {
    let p = console_prefix("web", LogSource::Stderr);
    assert_eq!(p, "[web:stderr] ");
    assert_eq!(render_record(LogDriver::Stdout, None, &p, "hi"), "[web:stderr] hi\n");
    assert_eq!(
        render_record(LogDriver::Stdout, Some("2024-01-01 00:00:00"), &p, "hi"),
        "[2024-01-01 00:00:00] [web:stderr] hi\n"
    );
    assert_eq!(render_record(LogDriver::File, Some("t"), &p, "hi"), "[t] hi\n");
    assert_eq!(render_record(LogDriver::File, None, &p, "hi"), "hi\n");
    assert_eq!(superd_line(None, "boom"), "[superd] boom");
    assert_eq!(superd_line(Some("t"), "boom"), "[t] [superd] boom");
}

#[test]
fn rotation_renames_oldest_first() {
    let plan = rotation_plan("app.out", 3);
    let got: Vec<(String, String)> = plan;
    assert_eq!(
        got,
        vec![
            ("app.out.2".to_string(), "app.out.3".to_string()),
            ("app.out.1".to_string(), "app.out.2".to_string()),
            ("app.out".to_string(), "app.out.1".to_string()),
        ]
    );
    assert!(rotation_plan("x", 0).is_empty());
}

#[test]
fn rotation_threshold_and_tail() {
    assert!(!needs_rotation(90, 10, 100));
    assert!(needs_rotation(91, 10, 100));
    assert!(needs_rotation(u64::MAX, u64::MAX, u64::MAX));
    assert_eq!(tail_window(0, 10), None);
    assert_eq!(tail_window(5, 10), Some((0, 10)));
    assert_eq!(tail_window(100, 10), Some((90, 10)));
}

#[test]
fn timestamps_and_custom_paths() {
    assert!(timestamp_now(LogTimestamp::Off).is_none());
    assert_eq!(timestamp_now(LogTimestamp::Utc).unwrap().len(), 20);
    assert_eq!(timestamp_now(LogTimestamp::Local).unwrap().len(), 19);
    assert_eq!(custom_log_file(LogSource::Stdout, Some("a.log"), Some("b.log")), Some("a.log"));
    assert_eq!(custom_log_file(LogSource::Stderr, Some("a.log"), Some("  ")), None);
    assert_eq!(custom_log_file(LogSource::Stderr, None, None), None);
}
