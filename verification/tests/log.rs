use iran_route::log::{
    chrono_timestamp, log_line, needs_rotation, recent_lines, rotated_log, show_recent_logs,
};
use iran_route::utf8::split_lines;

#[test]
fn log_is_cut_above_its_largest_size() {
    assert!(!needs_rotation(65536));
    assert!(needs_rotation(65537));
    let buf: Vec<u8> = (0..70000u32).map(|i| (i % 251) as u8).collect();
    let kept = rotated_log(70000, &buf).unwrap();
    assert_eq!(kept.len(), 32768);
    assert_eq!(kept, buf[70000 - 32768..].to_vec());
    assert!(rotated_log(65536, &buf).is_none());
    assert!(rotated_log(70000, &buf[..32768]).is_none());
    assert_eq!(rotated_log(70000, &buf[..32769]).unwrap(), buf[1..32769].to_vec());
}

#[test]
fn lines_carry_the_time() {
    let ts = chrono_timestamp(2026, 1, 9, 7, 5, 59);
    assert_eq!(ts, "2026-01-09 07:05:59");
    assert_eq!(log_line(&ts, "hello"), "[2026-01-09 07:05:59] hello\n");
    assert_eq!(chrono_timestamp(30827, 12, 31, 23, 59, 59), "30827-12-31 23:59:59");
}

#[test]
fn the_last_lines_are_shown() {
    let mut content = String::new();
    for i in 0..30 {
        content.push_str(&format!("line {}\r\n", i));
    }
    let shown = show_recent_logs(content.as_bytes());
    assert_eq!(shown.len(), 25);
    assert_eq!(shown[0], "  line 5");
    assert_eq!(shown[24], "  line 29");
    assert_eq!(show_recent_logs(b"a\nb"), vec!["  a", "  b"]);
    assert!(show_recent_logs(b"").is_empty());
}

#[test]
fn a_cut_log_keeps_its_end() {
    let full = vec![b'x'; 65537];
    let mut log = rotated_log(65537, &full).unwrap();
    let line = log_line("2026-01-09 07:05:59", "m");
    log.extend_from_slice(line.as_bytes());
    assert_eq!(log.len(), 32768 + 24);
    assert!(log.ends_with(b"] m\n"));
}

#[test]
fn a_log_cut_inside_a_character_is_still_shown() {
    let mut log = String::new();
    while log.len() <= 65536 {
        log.push_str(&log_line("2026-01-09 07:05:59", "\u{648}\u{627}\u{6cc}\u{200c}\u{641}"));
    }
    let mut bytes = log.into_bytes();
    let mut cut = false;
    for _ in 0..64 {
        let kept = rotated_log(bytes.len() as u64, &bytes).unwrap();
        if String::from_utf8(kept.clone()).is_err() {
            cut = true;
            let mut after = kept;
            after.extend_from_slice(log_line("2026-01-09 07:06:00", "newest é").as_bytes());
            let shown = show_recent_logs(&after);
            assert_eq!(shown.len(), 25);
            assert_eq!(shown[24], "  [2026-01-09 07:06:00] newest é");
        }
        bytes.insert(bytes.len() - 1, b'x');
    }
    assert!(cut);
}

#[test]
fn a_damaged_line_leaves_the_others() {
    let shown = show_recent_logs(b"\xa9 start\r\nbad \xff line\n\n[t] good \xc3\xa9\n");
    assert_eq!(
        shown,
        vec!["  \u{fffd} start", "  bad \u{fffd} line", "  ", "  [t] good é"]
    );
}

#[test]
fn bytes_are_split_as_text_is() {
    for s in ["", "\n", "a", "a\n", "a\r\nb", "a\rb\n", "a\r", "\r\n\r\n", "é\nü\r\n", "ی\r"] {
        let want: Vec<Vec<u8>> = s.lines().map(|l| l.as_bytes().to_vec()).collect();
        assert_eq!(split_lines(s.as_bytes()), want);
    }
}

#[test]
fn the_last_of_the_lines_are_set_in() {
    let ls: Vec<String> = (0..26).map(|i| format!("{}", i)).collect();
    let shown = recent_lines(&ls);
    assert_eq!((shown.len(), shown[0].as_str(), shown[24].as_str()), (25, "  1", "  25"));
}

#[test]
fn times_are_ordered_as_their_texts() {
    let times = [
        (999, 12, 31, 23, 59, 59),
        (2025, 12, 31, 23, 59, 59),
        (2026, 1, 9, 7, 5, 59),
        (2026, 1, 10, 0, 0, 0),
        (2026, 2, 1, 0, 0, 9),
        (2026, 2, 1, 0, 0, 10),
        (9999, 1, 1, 0, 0, 0),
    ];
    for a in times {
        for b in times {
            let x = chrono_timestamp(a.0, a.1, a.2, a.3, a.4, a.5);
            let y = chrono_timestamp(b.0, b.1, b.2, b.3, b.4, b.5);
            assert_eq!((x.len(), x < y, x == y), (19, a < b, a == b));
        }
    }
}
