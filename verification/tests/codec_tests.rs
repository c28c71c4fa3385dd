use clipstash::ClipboardHistory;
use clipstash::parse_config;
use clipstash::parse_history;

#[test]
fn empty_history_document() {
    let h = ClipboardHistory::empty();
    assert_eq!(h.to_document(), "{\"list_items\":[]}");
}

#[test]
fn two_entry_document() {
    let h = ClipboardHistory::from_items(vec!["hello".to_string(), "world".to_string()]);
    assert_eq!(h.to_document(), "{\"list_items\":[\"hello\",\"world\"]}");
}

#[test]
fn quotes_and_backslashes_are_escaped() {
    let h = ClipboardHistory::from_items(vec!["a\"b\\c".to_string()]);
    assert_eq!(h.to_document(), "{\"list_items\":[\"a\\\"b\\\\c\"]}");
}

#[test]
fn common_control_characters_use_short_escapes() {
    let h = ClipboardHistory::from_items(vec!["a\nb\rc\td".to_string()]);
    assert_eq!(h.to_document(), "{\"list_items\":[\"a\\nb\\rc\\td\"]}");
}

#[test]
fn rare_control_characters_use_unicode_escapes() {
    let h = ClipboardHistory::from_items(vec!["\u{01}\u{1f}".to_string()]);
    assert_eq!(h.to_document(), "{\"list_items\":[\"\\u0001\\u001f\"]}");
}

#[test]
fn round_trip_plain_entries() {
    let items = vec!["one".to_string(), "two".to_string(), "three".to_string()];
    let h = ClipboardHistory::from_items(items.clone());
    let parsed = parse_history(&h.to_document()).expect("document must parse");
    assert_eq!(parsed, items);
}

#[test]
fn round_trip_tricky_entries() {
    let items = vec![
        "".to_string(),
        "line1\nline2".to_string(),
        "quote \" backslash \\".to_string(),
        "h\u{e9}llo \u{2603} \u{1f600}".to_string(),
        "\u{07}".to_string(),
    ];
    let h = ClipboardHistory::from_items(items.clone());
    let parsed = parse_history(&h.to_document()).expect("document must parse");
    assert_eq!(parsed, items);
}

#[test]
fn round_trip_empty_history() {
    let h = ClipboardHistory::empty();
    let parsed = parse_history(&h.to_document()).expect("document must parse");
    assert!(parsed.is_empty());
}

#[test]
fn parse_accepts_unicode_escape() {
    let parsed = parse_history("{\"list_items\":[\"\\u0007\"]}").expect("document must parse");
    assert_eq!(parsed, vec!["\u{07}".to_string()]);
}

#[test]
fn parse_rejects_malformed_documents() {
    assert!(parse_history("").is_none());
    assert!(parse_history("{}").is_none());
    assert!(parse_history("{\"list_items\":").is_none());
    assert!(parse_history("{\"list_items\":[").is_none());
    assert!(parse_history("{\"list_items\":[\"a\"").is_none());
    assert!(parse_history("{\"list_items\":[\"a\"]}x").is_none());
    assert!(parse_history("{\"list_items\":[\"a\" \"b\"]}").is_none());
    assert!(parse_history("{\"other\":[]}").is_none());
    assert!(parse_history("not json at all").is_none());
}

#[test]
fn parse_rejects_bad_escapes() {
    assert!(parse_history("{\"list_items\":[\"\\x\"]}").is_none());
    assert!(parse_history("{\"list_items\":[\"\\u00g1\"]}").is_none());
    assert!(parse_history("{\"list_items\":[\"\\u00\"]}").is_none());
}

#[test]
fn config_documents_are_exact() {
    let mut c = clipstash::Config::enabled_defaults();
    assert_eq!(c.to_document(), "{\"trim_clips\":true,\"save_history\":true}");
    c.set_save_history(false);
    assert_eq!(c.to_document(), "{\"trim_clips\":true,\"save_history\":false}");
    c.set_trim_clips(false);
    assert_eq!(c.to_document(), "{\"trim_clips\":false,\"save_history\":false}");
    c.set_save_history(true);
    assert_eq!(c.to_document(), "{\"trim_clips\":false,\"save_history\":true}");
}

#[test]
fn config_parses_its_own_documents() {
    assert_eq!(
        parse_config("{\"trim_clips\":true,\"save_history\":true}"),
        Some((true, true))
    );
    assert_eq!(
        parse_config("{\"trim_clips\":false,\"save_history\":true}"),
        Some((false, true))
    );
    assert_eq!(parse_config(""), None);
    assert_eq!(parse_config("{\"trim_clips\":true}"), None);
    assert_eq!(parse_config("{\"trim_clips\":maybe,\"save_history\":true}"), None);
}
