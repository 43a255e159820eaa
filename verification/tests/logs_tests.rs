use rusty_stern::color::{Hsl, Hue, Lightness, Saturation};
use rusty_stern::logs::{parse_previous_log_lines, parse_rfc3339, sort_log_lines, LogEntry};
use rusty_stern::registry::Pod;

fn pod(name: &str, namespace: &str) -> Pod {
    Pod {
        name: String::from(name),
        namespace: String::from(namespace),
        color: Hsl {
            h: Hue { value: 120 },
            s: Saturation { value: 100 },
            l: Lightness { value: 50 },
        },
    }
}

fn entry(secs: i64, nanos: u32, line: &str) -> LogEntry {
    LogEntry { secs, nanos, line: String::from(line), pod: pod("a", "ns") }
}

#[test]
fn rfc3339_parses_to_the_expected_instant() {
    let (secs, nanos) = parse_rfc3339("2021-01-01T00:00:00Z").unwrap();
    assert_eq!(secs, 1609459200);
    assert_eq!(nanos, 0);
    let (secs, nanos) = parse_rfc3339("2021-01-01T00:00:01.500000000+00:00").unwrap();
    assert_eq!(secs, 1609459201);
    assert_eq!(nanos, 500000000);
    assert!(parse_rfc3339("not a date").is_err());
    assert!(parse_rfc3339("2021-13-01T00:00:00Z").is_err());
}

#[test]
fn previous_lines_strip_the_timestamp_token() {
    let p = pod("api", "default");
    let raw = "2021-01-01T00:00:01Z world\n2021-01-01T00:00:00Z hello\n";
    let entries = parse_previous_log_lines(&p, raw, false).unwrap();
    assert_eq!(entries.len(), 2);
    assert_eq!(entries[0].line, "world");
    assert_eq!(entries[0].secs, 1609459201);
    assert_eq!(entries[1].line, "hello");
    assert_eq!(entries[1].secs, 1609459200);
    assert_eq!(entries[0].pod.name, "api");
    assert_eq!(entries[0].pod.namespace, "default");
}

#[test]
fn previous_lines_keep_the_timestamp_when_asked() {
    let p = pod("api", "default");
    let raw = "2021-01-01T00:00:00Z hello";
    let entries = parse_previous_log_lines(&p, raw, true).unwrap();
    assert_eq!(entries.len(), 1);
    assert_eq!(entries[0].line, "2021-01-01T00:00:00Z hello");
}

#[test]
fn previous_lines_skip_empty_lines() {
    let p = pod("api", "default");
    let raw = "\n2021-01-01T00:00:00Z hello\n\n";
    let entries = parse_previous_log_lines(&p, raw, false).unwrap();
    assert_eq!(entries.len(), 1);
}

#[test]
fn previous_lines_reject_a_bad_timestamp() {
    let p = pod("api", "default");
    let raw = "2021-01-01T00:00:00Z ok\ngarbage line\n";
    assert!(parse_previous_log_lines(&p, raw, false).is_err());
}

#[test]
fn sort_orders_chronologically_across_pods() {
    let mut lines = vec![
        entry(20, 0, "third"),
        entry(10, 5, "second"),
        entry(10, 1, "first"),
        entry(30, 0, "fourth"),
    ];
    sort_log_lines(&mut lines);
    let order: Vec<&str> = lines.iter().map(|e| e.line.as_str()).collect();
    assert_eq!(order, vec!["first", "second", "third", "fourth"]);
}

#[test]
fn sort_keeps_every_entry() {
    let mut lines = vec![entry(2, 0, "b"), entry(1, 0, "a"), entry(2, 0, "b2")];
    sort_log_lines(&mut lines);
    assert_eq!(lines.len(), 3);
    assert_eq!(lines[0].line, "a");
}
