use clipstash::ClipboardHistory;
use clipstash::ClipboardMonitor;
use clipstash::ClipboardReading;
use clipstash::MonitorAction;
use clipstash::display_text;
use clipstash::trim_text;

fn offer(m: &mut ClipboardMonitor, h: &mut ClipboardHistory, text: &str) -> MonitorAction {
    m.observe(&ClipboardReading::Text(text.to_string()), h)
}

#[test]
fn distinct_readings_are_all_kept() {
    let mut h = ClipboardHistory::empty();
    let mut m = ClipboardMonitor::new(&h);
    assert!(offer(&mut m, &mut h, "alpha") == MonitorAction::Appended);
    assert!(offer(&mut m, &mut h, "beta") == MonitorAction::Appended);
    assert!(offer(&mut m, &mut h, "gamma") == MonitorAction::Appended);
    assert_eq!(h.get_items(), vec!["alpha", "beta", "gamma"]);
}

#[test]
fn immediate_repeat_is_dropped_but_not_globally() {
    let mut h = ClipboardHistory::empty();
    let mut m = ClipboardMonitor::new(&h);
    assert!(offer(&mut m, &mut h, "alpha") == MonitorAction::Appended);
    assert!(offer(&mut m, &mut h, "alpha") == MonitorAction::Idle);
    assert_eq!(h.len(), 1);
    assert!(offer(&mut m, &mut h, "beta") == MonitorAction::Appended);
    assert!(offer(&mut m, &mut h, "alpha") == MonitorAction::Appended);
    assert_eq!(h.get_items(), vec!["alpha", "beta", "alpha"]);
}

#[test]
fn readings_are_trimmed_before_anything_else() {
    let mut h = ClipboardHistory::empty();
    let mut m = ClipboardMonitor::new(&h);
    assert!(offer(&mut m, &mut h, "  hello  ") == MonitorAction::Appended);
    assert_eq!(h.get_items(), vec!["hello"]);
    assert!(offer(&mut m, &mut h, "hello\n") == MonitorAction::Idle);
    assert_eq!(h.len(), 1);
}

#[test]
fn blank_readings_are_dropped() {
    let mut h = ClipboardHistory::empty();
    let mut m = ClipboardMonitor::new(&h);
    assert!(offer(&mut m, &mut h, "") == MonitorAction::Idle);
    assert!(offer(&mut m, &mut h, "   \t\n  ") == MonitorAction::Idle);
    assert_eq!(h.len(), 0);
}

#[test]
fn failed_read_asks_for_backoff() {
    let mut h = ClipboardHistory::empty();
    let mut m = ClipboardMonitor::new(&h);
    let a = m.observe(&ClipboardReading::Unavailable, &mut h);
    assert!(a == MonitorAction::Retry);
    assert_eq!(h.len(), 0);
}

#[test]
fn monitor_starts_from_last_persisted_entry() {
    let mut h = ClipboardHistory::from_items(vec!["old".to_string(), "latest".to_string()]);
    let mut m = ClipboardMonitor::new(&h);
    assert!(offer(&mut m, &mut h, "latest") == MonitorAction::Idle);
    assert_eq!(h.len(), 2);
    assert!(offer(&mut m, &mut h, "old") == MonitorAction::Appended);
    assert_eq!(h.len(), 3);
}

#[test]
fn trim_removes_unicode_whitespace() {
    assert_eq!(trim_text("  plain  "), "plain");
    assert_eq!(trim_text("\t\r\nmixed\u{0B}\u{0C}"), "mixed");
    assert_eq!(trim_text("\u{3000}wide\u{00A0}"), "wide");
    assert_eq!(trim_text(""), "");
    assert_eq!(trim_text(" \u{2028}\u{205F} "), "");
    assert_eq!(trim_text("inner  space"), "inner  space");
}

#[test]
fn display_text_shortens_only_long_entries_when_enabled() {
    let long: String = "x".repeat(150);
    let shortened = display_text(&long, true);
    assert_eq!(shortened.chars().count(), 103);
    assert!(shortened.starts_with(&"x".repeat(100)));
    assert!(shortened.ends_with("..."));
    assert_eq!(display_text(&long, false), long);
    let short = "short entry";
    assert_eq!(display_text(short, true), short);
    assert_eq!(display_text(short, false), short);
}
