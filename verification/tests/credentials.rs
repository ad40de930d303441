use twitch_logger::env::EnvStorage;
use twitch_logger::env::UserToken;
use twitch_logger::error::Error;

fn token() -> UserToken {
    UserToken {
        access_token: String::from("acc\"ess\\tok"),
        refresh_token: String::from("refresh-me"),
        created_at: 1700000000,
        expires_at: 1700014400,
    }
}

#[test]
fn load_on_empty_backing_reports_missing_access_token() {
    let store = EnvStorage::new(None);
    let r = store.load_token("");
    assert!(matches!(r, Err(Error::MissingEnv(k)) if k == "ACCESS_TOKEN"));
}

#[test]
fn load_on_fresh_file_with_prefix_reports_missing_prefixed_key() {
    let store = EnvStorage::new(Some(String::from("TW")));
    let r = store.load_token("");
    assert!(matches!(r, Err(Error::MissingEnv(k)) if k == "TW_ACCESS_TOKEN"));
}

#[test]
fn save_then_load_round_trips() {
    let store = EnvStorage::new(Some(String::from("TW")));
    let old_content = "OTHER=\"keep me\"\nTW_ACCESS_TOKEN=\"stale\"";
    let t = token();
    let new_content = store.update_token(old_content, &t);
    let back = store.load_token(new_content.as_str()).expect("the saved record must load");
    assert_eq!(back.access_token, t.access_token);
    assert_eq!(back.refresh_token, t.refresh_token);
    assert_eq!(back.created_at, t.created_at);
    assert_eq!(back.expires_at, t.expires_at);
    // the unrelated line survives the rewrite
    let other = store_none_get(&new_content);
    assert_eq!(other, "keep me");
}

fn store_none_get(content: &str) -> String {
    let plain = EnvStorage::new(None);
    plain.get_env(content, "OTHER").expect("the unrelated key must still be there")
}

#[test]
fn crash_before_replacement_leaves_the_old_record() {
    // a save writes the new content to a fresh location first; a crash
    // there leaves the original untouched, so load sees the old record
    let store = EnvStorage::new(None);
    let old_t = token();
    let old_content = store.update_token("", &old_t);
    // the crash: the replacement never happened, the old content stands
    let back = store.load_token(old_content.as_str()).expect("the old record is whole");
    assert_eq!(back.access_token, old_t.access_token);
    assert_eq!(back.refresh_token, old_t.refresh_token);
}

#[test]
fn missing_timestamps_default_to_zero() {
    let store = EnvStorage::new(None);
    let content = "ACCESS_TOKEN=\"a\"\nREFRESH_TOKEN=\"r\"";
    let t = store.load_token(content).expect("both required fields are present");
    assert_eq!(t.created_at, 0);
    assert_eq!(t.expires_at, 0);
}

#[test]
fn unreadable_timestamp_defaults_to_zero() {
    let store = EnvStorage::new(None);
    let content = "ACCESS_TOKEN=\"a\"\nREFRESH_TOKEN=\"r\"\nTOKEN_CREATED_AT=\"soon\"";
    let t = store.load_token(content).expect("the required fields are present");
    assert_eq!(t.created_at, 0);
}

#[test]
fn malformed_required_field_is_an_error() {
    let store = EnvStorage::new(None);
    // no closing quote
    let content = "ACCESS_TOKEN=\"a";
    let r = store.load_token(content);
    assert!(matches!(r, Err(Error::FailedToParse { key, .. }) if key == "ACCESS_TOKEN"));
}

#[test]
fn escape_escapes_quotes_and_backslashes() {
    assert_eq!(EnvStorage::escape("a\"b\\c"), "a\\\"b\\\\c");
    assert_eq!(EnvStorage::escape("plain"), "plain");
}

#[test]
fn formatted_line_shape() {
    let store = EnvStorage::new(None);
    assert_eq!(store.get_formatted_line("KEY", "va\"lue"), "KEY=\"va\\\"lue\"");
}

#[test]
fn format_key_uppercases_and_prefixes() {
    let store = EnvStorage::new(Some(String::from("TW")));
    assert_eq!(store.format_key("access_token"), "TW_ACCESS_TOKEN");
    let plain = EnvStorage::new(None);
    assert_eq!(plain.format_key("access_token"), "ACCESS_TOKEN");
}

#[test]
fn set_env_replaces_or_appends() {
    let store = EnvStorage::new(None);
    let c1 = store.set_env("", "key", "one");
    assert_eq!(c1, "KEY=\"one\"");
    let c2 = store.set_env(c1.as_str(), "key", "two");
    assert_eq!(c2, "KEY=\"two\"");
    let c3 = store.set_env(c2.as_str(), "other", "x");
    assert_eq!(c3, "KEY=\"two\"\nOTHER=\"x\"");
    assert_eq!(store.get_env(c3.as_str(), "key").unwrap(), "two");
    assert_eq!(store.get_env(c3.as_str(), "other").unwrap(), "x");
}

#[test]
fn get_env_reports_missing_and_malformed() {
    let store = EnvStorage::new(None);
    let r = store.get_env("A=\"1\"", "b");
    assert!(matches!(r, Err(Error::MissingEnv(k)) if k == "B"));
    let r2 = store.get_env("B=17", "b");
    assert!(matches!(r2, Err(Error::FailedToParse { key, .. }) if key == "B"));
}

#[test]
fn get_env_opt_is_quiet_about_missing_keys() {
    let store = EnvStorage::new(None);
    assert!(matches!(store.get_env_opt("", "user"), Ok(None)));
    assert!(matches!(store.get_env_opt("USER=\"u\"", "user"), Ok(Some(v)) if v == "u"));
}

#[test]
fn get_env_u64_reads_numbers_exactly() {
    let store = EnvStorage::new(None);
    assert_eq!(store.get_env_u64("N=\"18446744073709551615\"", "n").unwrap(), u64::MAX);
    let over = store.get_env_u64("N=\"18446744073709551616\"", "n");
    assert!(matches!(over, Err(Error::FailedToParse { .. })));
    let junk = store.get_env_u64("N=\"12x\"", "n");
    assert!(matches!(junk, Err(Error::FailedToParse { .. })));
}
