use yanklog_core::config::truncate_preview;
use yanklog_core::{Config, ThemePreference};

#[test]
fn truncate_removes_newlines() {
    let config = Config::default();
    let result = config.truncate_for_preview("line1\nline2\rline3");
    assert!(!result.contains('\n'));
    assert!(!result.contains('\r'));
}

#[test]
fn privacy_filters_secret_like_values() {
    let config = Config::default();
    assert!(config.should_ignore_clipboard("token=abc123"));
    assert!(config.should_ignore_clipboard("A8fj29DKLm!!s0pq"));
    assert!(!config.should_ignore_clipboard("a normal clipboard sentence"));
}

#[test]
fn ignored_patterns_round_trip() {
    let mut config = Config::default();
    config.set_ignored_patterns_text("bank, private\nscratch");
    assert_eq!(
        config.privacy.ignored_patterns,
        vec!["bank", "private", "scratch"]
    );
    assert!(config.should_ignore_clipboard("open private notes"));
}

#[test]
fn defaults() {
    let config = Config::default();
    assert_eq!(config.max_history_size, 1000);
    assert_eq!(config.poll_interval_ms, 500);
    assert_eq!(config.max_preview_length, 300);
    assert_eq!(config.window_width, 500);
    assert_eq!(config.window_height, 600);
    assert!(!config.launch_at_startup);
    assert_eq!(config.keybindings.quick_pick, "Ctrl+Shift+V");
    assert_eq!(config.keybindings.quick_pick_items, 10);
    assert_eq!(f64::from_bits(config.keybindings.quick_pick_opacity_bits), 0.95);
    assert_eq!(config.retention.max_age_days, 0);
    assert!(config.privacy.ignore_secret_like);
    assert!(!config.privacy.ignore_one_time_codes);
    assert_eq!(config.privacy.min_text_length, 1);
    assert_eq!(config.privacy.max_text_length, 0);
    assert!(config.privacy.ignored_patterns.is_empty());
    assert_eq!(config.theme, ThemePreference::System);
}

#[test]
fn preview_truncation_exact() {
    assert_eq!(truncate_preview("a\nb\r\nc", 10), "a b c");
    assert_eq!(truncate_preview("abcdef", 3), "abc...");
    assert_eq!(truncate_preview("abc", 3), "abc");
    assert_eq!(truncate_preview("ééééé", 2), "éé...");
    let mut config = Config::default();
    config.max_preview_length = 4;
    assert_eq!(config.truncate_for_preview("one\ntwo"), "one ...");
}

#[test]
fn patterns_text_joins_and_reads_back() {
    let mut config = Config::default();
    config.set_ignored_patterns_text(" a ,, b\n\n c d ,");
    assert_eq!(config.privacy.ignored_patterns, vec!["a", "b", "c d"]);
    let text = config.ignored_patterns_text();
    assert_eq!(text, "a, b, c d");
    let before = config.privacy.ignored_patterns.clone();
    config.set_ignored_patterns_text(&text);
    assert_eq!(config.privacy.ignored_patterns, before);
    config.set_ignored_patterns_text("   ");
    assert!(config.privacy.ignored_patterns.is_empty());
    assert_eq!(config.ignored_patterns_text(), "");
}

#[test]
fn blank_and_length_limits() {
    let mut config = Config::default();
    assert!(config.should_ignore_clipboard(""));
    assert!(config.should_ignore_clipboard(" \n\t "));
    config.privacy.ignore_secret_like = false;
    config.privacy.min_text_length = 3;
    assert!(config.should_ignore_clipboard(" ab "));
    assert!(!config.should_ignore_clipboard(" abc "));
    config.privacy.max_text_length = 4;
    assert!(config.should_ignore_clipboard("abcde"));
    assert!(!config.should_ignore_clipboard("abcd"));
    config.privacy.min_text_length = 0;
    config.privacy.max_text_length = 0;
    assert!(!config.should_ignore_clipboard("x"));
}

#[test]
fn patterns_ignore_case_and_blank_patterns() {
    let mut config = Config::default();
    config.privacy.ignored_patterns = vec!["  ".to_string(), "BaNk".to_string()];
    assert!(config.should_ignore_clipboard("My bank login"));
    assert!(!config.should_ignore_clipboard("nothing here"));
}

#[test]
fn one_time_codes() {
    let mut config = Config::default();
    config.privacy.ignore_secret_like = false;
    assert!(!config.should_ignore_clipboard("123 456"));
    config.privacy.ignore_one_time_codes = true;
    assert!(config.should_ignore_clipboard("123 456"));
    assert!(config.should_ignore_clipboard("1234 5678"));
    assert!(!config.should_ignore_clipboard("12345"));
    assert!(!config.should_ignore_clipboard("1234567"));
    assert!(!config.should_ignore_clipboard("12a456"));
}

#[test]
fn secret_like_values() {
    let config = Config::default();
    assert!(config.should_ignore_clipboard("Authorization: Bearer abc"));
    assert!(config.should_ignore_clipboard("PASSWORD=hunter2"));
    assert!(config.should_ignore_clipboard("my private_key file"));
    // long mixed words
    assert!(!config.should_ignore_clipboard("abcdefgh12345678"));
    assert!(!config.should_ignore_clipboard("abcdefghijklmnop"));
    assert!(!config.should_ignore_clipboard("Abcdefgh1234567"));
    assert!(config.should_ignore_clipboard("Abcdefgh12345678"));
    assert!(config.should_ignore_clipboard("abcdefgh-12345678!"));
    assert!(!config.should_ignore_clipboard("abcdefgh-1234567_"));
    assert!(!config.should_ignore_clipboard("Abcdefgh 12345678"));
    assert!(!config.should_ignore_clipboard("a\nB\n1\n!\nxxxxxxxxxxxx"));
}

#[test]
fn theme_names() {
    assert_eq!(ThemePreference::System.as_str(), "system");
    assert_eq!(ThemePreference::Light.as_str(), "light");
    assert_eq!(ThemePreference::Dark.as_str(), "dark");
    assert_eq!(ThemePreference::from(" LIGHT "), ThemePreference::Light);
    assert_eq!(ThemePreference::from("Dark"), ThemePreference::Dark);
    assert_eq!(ThemePreference::from("sepia"), ThemePreference::System);
    for theme in [ThemePreference::System, ThemePreference::Light, ThemePreference::Dark] {
        assert_eq!(ThemePreference::from(theme.as_str()), theme);
    }
    assert_eq!(ThemePreference::default(), ThemePreference::System);
}
