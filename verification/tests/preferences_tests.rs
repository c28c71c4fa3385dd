use clipstash::Config;
use clipstash::LoadOutcome;
use clipstash::parse_config;

#[test]
fn missing_file_gives_enabled_defaults() {
    let c = Config::from_load(LoadOutcome::Missing);
    assert!(c.get_trim_clips());
    assert!(c.get_save_history());
}

#[test]
fn invalid_json_gives_enabled_defaults() {
    let c = Config::from_load(LoadOutcome::Found("{oops".to_string()));
    assert!(c.get_trim_clips());
    assert!(c.get_save_history());
}

#[test]
fn unreadable_file_gives_disabled_defaults() {
    let c = Config::from_load(LoadOutcome::Failed);
    assert!(!c.get_trim_clips());
    assert!(!c.get_save_history());
}

#[test]
fn valid_document_restores_both_flags() {
    let c = Config::from_load(LoadOutcome::Found(
        "{\"trim_clips\":true,\"save_history\":false}".to_string(),
    ));
    assert!(c.get_trim_clips());
    assert!(!c.get_save_history());
}

#[test]
fn setters_change_one_flag_at_a_time() {
    let mut c = Config::enabled_defaults();
    c.set_trim_clips(false);
    assert!(!c.get_trim_clips());
    assert!(c.get_save_history());
    c.set_save_history(false);
    assert!(!c.get_trim_clips());
    assert!(!c.get_save_history());
}

#[test]
fn written_preferences_load_back_unchanged() {
    let mut c = Config::enabled_defaults();
    c.set_save_history(false);
    let doc = c.to_document();
    assert_eq!(parse_config(&doc), Some((true, false)));
    let reloaded = Config::from_load(LoadOutcome::Found(doc));
    assert!(reloaded.get_trim_clips());
    assert!(!reloaded.get_save_history());
}
