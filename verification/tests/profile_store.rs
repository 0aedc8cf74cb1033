use yanklog_core::clipboard::ClipboardMonitor;
use yanklog_core::database::{encryption_key_from_bytes, generate_encryption_key, is_valid_encryption_key};
use yanklog_core::profile::{join_path, Platform, Profile};
use yanklog_core::store::{ClipboardEntryRecord, ConfigRecord};
use yanklog_core::timestamp::{calendar_date_text, describe_elapsed, elapsed_between, relative_time_text};
use yanklog_core::{format_timestamp, profile_from_parts, ClipboardEntry, Config, ThemePreference, YanklogError};

#[test]
fn profile_names() {
    let linux = Profile::new(Platform::Linux, false);
    let linux_dev = Profile::new(Platform::Linux, true);
    let mac = Profile::new(Platform::MacOS, false);
    let mac_dev = Profile::new(Platform::MacOS, true);
    assert_eq!(linux.platform_name(), "linux");
    assert_eq!(mac.platform_name(), "macos");
    assert_eq!(linux.display_name(), "yanklog");
    assert_eq!(linux_dev.display_name(), "yanklog dev");
    assert_eq!(linux.app_dir_name(), "yanklog");
    assert_eq!(linux_dev.app_dir_name(), "yanklog-dev");
    assert_eq!(mac.app_dir_name(), "YankLog");
    assert_eq!(mac_dev.app_dir_name(), "YankLog Dev");
    assert_eq!(linux.lock_file_name(), "yanklog.lock");
    assert_eq!(mac_dev.lock_file_name(), "yanklog-dev.lock");
}

#[test]
fn profile_paths() {
    let linux = Profile::new(Platform::Linux, false);
    assert_eq!(
        linux.config_path_in(Some("/home/u/.config".to_string())),
        "/home/u/.config/yanklog/config.toml"
    );
    assert_eq!(linux.config_path_in(None), "./yanklog/config.toml");
    let mac_dev = Profile::new(Platform::MacOS, true);
    assert_eq!(
        mac_dev.data_dir_in(Some("/data/".to_string())),
        "/data/YankLog Dev"
    );
    assert_eq!(linux.data_dir_in(Some(String::new())), "yanklog");
    assert!(linux.config_path().ends_with("yanklog/config.toml"));
    assert!(linux.data_dir().ends_with("yanklog"));
}

#[test]
fn platforms_from_names() {
    assert_eq!(profile_from_parts("linux", true).ok(), Some(Profile::new(Platform::Linux, true)));
    assert_eq!(profile_from_parts("macos", false).ok(), Some(Profile::new(Platform::MacOS, false)));
    match profile_from_parts("windows", false) {
        Err(YanklogError::Message { message }) => {
            assert_eq!(message, "Unsupported platform: windows")
        }
        Ok(_) => panic!("windows is not supported"),
    }
    for p in [Profile::new(Platform::Linux, false), Profile::new(Platform::MacOS, true)] {
        assert_eq!(profile_from_parts(p.platform_name(), p.dev).ok(), Some(p));
    }
}

#[test]
fn clipboard_monitor_reports_new_text_once() {
    let mut monitor = ClipboardMonitor::new(500);
    assert_eq!(monitor.last_content(), "");
    assert_eq!(monitor.observe_clipboard_text(Some("a".to_string())), Some("a".to_string()));
    assert_eq!(monitor.observe_clipboard_text(Some("a".to_string())), None);
    assert_eq!(monitor.observe_clipboard_text(Some(String::new())), None);
    assert_eq!(monitor.observe_clipboard_text(None), None);
    assert_eq!(monitor.last_content(), "a");
    monitor.update_last_content("copied");
    assert_eq!(monitor.observe_clipboard_text(Some("copied".to_string())), None);
    assert_eq!(monitor.observe_clipboard_text(Some("b".to_string())), Some("b".to_string()));
    assert_eq!(monitor.last_content(), "b");
}

#[test]
fn encryption_keys() {
    let key = generate_encryption_key().unwrap();
    assert_eq!(key.len(), 64);
    assert!(is_valid_encryption_key(&key));
    assert!(key.chars().all(|c| c.is_ascii_hexdigit() && !c.is_ascii_uppercase()));
    assert_ne!(generate_encryption_key().unwrap(), key);
    let mut bytes = [0u8; 32];
    bytes[0] = 0xAB;
    bytes[31] = 0x0F;
    let fixed = encryption_key_from_bytes(&bytes);
    assert_eq!(fixed, format!("ab{}0f", "0".repeat(60)));
    assert!(is_valid_encryption_key(&"ab".repeat(32)));
    assert!(is_valid_encryption_key(&"AB".repeat(32)));
    assert!(!is_valid_encryption_key(&"ab".repeat(31)));
    assert!(!is_valid_encryption_key(&"zz".repeat(32)));
}

#[test]
fn timestamps() {
    assert_eq!(format_timestamp("not a time"), "not a time");
    let now = chrono::Utc::now();
    assert_eq!(format_timestamp(&now.to_rfc3339()), "Just now");
    let five = now - chrono::Duration::minutes(5);
    assert_eq!(format_timestamp(&five.to_rfc3339()), "5 mins ago");
    let one_hour = now - chrono::Duration::minutes(61);
    assert_eq!(format_timestamp(&one_hour.to_rfc3339()), "1 hour ago");
    let two_days = now - chrono::Duration::hours(49);
    assert_eq!(format_timestamp(&two_days.to_rfc3339()), "2 days ago");
    let old = format_timestamp("2020-03-04T12:00:00Z");
    assert!(old.starts_with("Mar 0"));
    assert!(old.ends_with(", 2020"));
    assert_eq!(old.len(), "Mar 04, 2020".len());
}

#[test]
fn calendar_dates() {
    assert_eq!(calendar_date_text(2020, 3, 4), "Mar 04, 2020");
    assert_eq!(calendar_date_text(1999, 12, 31), "Dec 31, 1999");
    assert_eq!(calendar_date_text(42, 1, 9), "Jan 09, 0042");
    assert_eq!(calendar_date_text(-1, 6, 15), "Jun 15, -0001");
    assert_eq!(calendar_date_text(12345, 11, 1), "Nov 01, +12345");
}

#[test]
fn elapsed_seconds_between_instants() {
    assert_eq!(elapsed_between(100, 0, 40, 0), 60);
    assert_eq!(elapsed_between(100, 500_000_000, 40, 600_000_000), 59);
    assert_eq!(elapsed_between(40, 0, 100, 500_000_000), -60);
    assert_eq!(elapsed_between(-10, 0, -75, 0), 65);
    // A leap second counts once the other instant's second of the day has passed it.
    assert_eq!(elapsed_between(120, 0, 59, 1_000_000_000), 61);
    assert_eq!(elapsed_between(86_400 + 30, 0, 86_399, 1_000_000_000), 30);
    assert_eq!(
        relative_time_text(1_000_000, 0, 1_000_000 - 7 * 86_400, 0, 2020, 3, 4),
        "Mar 04, 2020"
    );
    assert_eq!(relative_time_text(1_000, 0, 880, 0, 2020, 3, 4), "2 mins ago");
}

#[test]
fn describe_elapsed_buckets() {
    let d = || "Mar 04, 2020".to_string();
    assert_eq!(describe_elapsed(-5, d()), "Just now");
    assert_eq!(describe_elapsed(59, d()), "Just now");
    assert_eq!(describe_elapsed(60, d()), "1 min ago");
    assert_eq!(describe_elapsed(3599, d()), "59 mins ago");
    assert_eq!(describe_elapsed(3600, d()), "1 hour ago");
    assert_eq!(describe_elapsed(86399, d()), "23 hours ago");
    assert_eq!(describe_elapsed(86400, d()), "1 day ago");
    assert_eq!(describe_elapsed(6 * 86400 + 5, d()), "6 days ago");
    assert_eq!(describe_elapsed(7 * 86400, d()), "Mar 04, 2020");
}

#[test]
fn entry_record() {
    let entry = ClipboardEntry {
        id: 4,
        content: "hello".to_string(),
        content_type: "text".to_string(),
        timestamp: "yesterday".to_string(),
        is_favorite: true,
    };
    let record = ClipboardEntryRecord::from_entry(entry);
    assert_eq!(record.id, 4);
    assert_eq!(record.content, "hello");
    assert_eq!(record.relative_timestamp, "yesterday");
    assert!(record.is_favorite);
}

#[test]
fn config_record_round_trip() {
    let mut config = Config::default();
    config.max_history_size = 42;
    config.theme = ThemePreference::Dark;
    config.window_width = 900;
    config.privacy.ignored_patterns = vec!["bank".to_string()];
    let record = ConfigRecord::from_config(config.clone());
    assert_eq!(record.max_history_size, 42);
    assert_eq!(record.theme, "dark");
    assert_eq!(record.quick_pick_shortcut, "Ctrl+Shift+V");
    let base = Config::default();
    let back = record.apply_to(base);
    assert_eq!(back.max_history_size, 42);
    assert_eq!(back.theme, ThemePreference::Dark);
    assert_eq!(back.window_width, 500);
    assert_eq!(back.privacy.ignored_patterns, vec!["bank"]);
    let mut odd = ConfigRecord::from_config(Config::default());
    odd.theme = " LIGHT".to_string();
    assert_eq!(odd.apply_to(Config::default()).theme, ThemePreference::Light);
}

#[test]
fn joining_paths() {
    assert_eq!(join_path("/home/u", "a"), "/home/u/a");
    assert_eq!(join_path("/home/u/", "a"), "/home/u/a");
    assert_eq!(join_path("", "a"), "a");
    assert_eq!(join_path("/home/u", "/etc"), "/etc");
    assert_eq!(
        join_path("/home/u", "a"),
        std::path::Path::new("/home/u").join("a").to_string_lossy()
    );
}
