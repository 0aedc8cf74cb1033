use yanklog_core::profile::{Platform, Profile};
use yanklog_core::updater::{
    choose_install_dir, compare_version_parts, downloads_base_url, installer_arguments, installer_outcome,
    is_newer_version, latest_version_url, newer_release, parse_numeric_version, prepare_install,
    sanitize_version, update_check_url,
};

#[test]
fn detects_newer_semver() {
    assert!(is_newer_version("1.0.51", "1.0.50"));
    assert!(!is_newer_version("1.0.50", "1.0.50"));
    assert!(!is_newer_version("1.0.49", "1.0.50"));
}

#[test]
fn supports_prefixed_versions() {
    assert!(is_newer_version("v2.0.0", "1.9.9"));
}

#[test]
fn rejects_invalid_update_versions() {
    assert_eq!(sanitize_version("v1.0.0").unwrap(), "1.0.0");
    assert!(sanitize_version("<!DOCTYPE html>").is_err());
    assert!(sanitize_version("").is_err());
}

#[test]
fn sanitize_messages_and_trimming() {
    assert_eq!(sanitize_version("").unwrap_err(), "Update version was empty.");
    assert_eq!(sanitize_version("  vvv ").unwrap_err(), "Update version was empty.");
    assert_eq!(sanitize_version("  v1.2.3-beta_1\n").unwrap(), "1.2.3-beta_1");
    assert_eq!(
        sanitize_version("1.0 <b>").unwrap_err(),
        "Invalid update version: 1.0 <b>"
    );
    assert_eq!(
        sanitize_version("DocType1").unwrap_err(),
        "Invalid update version: DocType1"
    );
    let long = "1".repeat(65);
    assert!(sanitize_version(&long).is_err());
    assert!(sanitize_version(&"1".repeat(64)).is_ok());
    assert!(sanitize_version("1.0é").is_err());
}

#[test]
fn sanitize_is_idempotent_on_examples() {
    for text in ["v1.0.0", " 2.3 ", "vv10.1-rc1"] {
        let once = sanitize_version(text).unwrap();
        assert_eq!(sanitize_version(&once).unwrap(), once);
    }
}

#[test]
fn numeric_versions_parse() {
    assert_eq!(parse_numeric_version("1.2.3"), Some(vec![1, 2, 3]));
    assert_eq!(parse_numeric_version("1.2.3-beta"), Some(vec![1, 2, 3]));
    assert_eq!(parse_numeric_version("+4.05"), Some(vec![4, 5]));
    assert_eq!(parse_numeric_version("18446744073709551615"), Some(vec![u64::MAX]));
    assert_eq!(parse_numeric_version("18446744073709551616"), None);
    assert_eq!(parse_numeric_version("-1"), None);
    assert_eq!(parse_numeric_version("1..2"), None);
    assert_eq!(parse_numeric_version("1.2."), None);
    assert_eq!(parse_numeric_version("1.a"), None);
    assert_eq!(parse_numeric_version(""), None);
    assert_eq!(parse_numeric_version("+"), None);
}

#[test]
fn part_comparison_pads_with_zero() {
    assert!(!compare_version_parts(&[1, 0], &[1, 0, 0]));
    assert!(!compare_version_parts(&[1, 0, 0], &[1, 0]));
    assert!(compare_version_parts(&[1, 0, 1], &[1, 0]));
    assert!(!compare_version_parts(&[1], &[1, 0, 1]));
    assert!(compare_version_parts(&[2], &[1, 9, 9]));
}

#[test]
fn non_numeric_versions_compare_by_text() {
    assert!(is_newer_version("nightly", "1.0.0"));
    assert!(!is_newer_version(" vnightly", "nightly"));
    assert!(!is_newer_version("1.0", "1.0.0"));
    assert!(!is_newer_version("1.0.0", "1.0"));
}

#[test]
fn newer_release_decides() {
    assert_eq!(newer_release("v1.2.0\n", "1.1.9").unwrap(), Some("1.2.0".to_string()));
    assert_eq!(newer_release("1.1.9", "1.1.9").unwrap(), None);
    assert_eq!(
        newer_release("<html>", "1.0").unwrap_err(),
        "Invalid update version: <html>"
    );
}

#[test]
fn download_addresses() {
    assert_eq!(
        downloads_base_url(Platform::Linux, None, None),
        "https://downloads.yanklog.com/linux"
    );
    assert_eq!(
        downloads_base_url(Platform::MacOS, None, Some("https://mirror.test//".to_string())),
        "https://mirror.test/macos"
    );
    assert_eq!(
        downloads_base_url(
            Platform::Linux,
            Some("https://base.test/x/".to_string()),
            Some("https://ignored".to_string())
        ),
        "https://base.test/x"
    );
    assert_eq!(
        latest_version_url(Platform::Linux, "https://a"),
        "https://a/latest-version.txt"
    );
    assert_eq!(
        latest_version_url(Platform::MacOS, "https://a"),
        "https://a/latest-macos-version.txt"
    );
    let release = Profile::new(Platform::Linux, false);
    let dev = Profile::new(Platform::Linux, true);
    assert_eq!(
        update_check_url(&release, false, None, None).unwrap(),
        "https://downloads.yanklog.com/linux/latest-version.txt"
    );
    assert_eq!(update_check_url(&release, true, None, None), None);
    assert_eq!(update_check_url(&dev, false, None, None), None);
}

#[test]
fn install_preparation() {
    let dev = Profile::new(Platform::Linux, true);
    assert_eq!(
        prepare_install(&dev, "1.0", None).unwrap_err(),
        "Updates are disabled for yanklog dev builds."
    );
    let linux = Profile::new(Platform::Linux, false);
    assert_eq!(
        prepare_install(&linux, "v1.0", None).unwrap(),
        (
            "1.0".to_string(),
            "https://downloads.yanklog.com/install.sh".to_string()
        )
    );
    let mac = Profile::new(Platform::MacOS, false);
    assert_eq!(
        prepare_install(&mac, "1.0", None).unwrap().1,
        "https://downloads.yanklog.com/install-macos.sh"
    );
    assert_eq!(
        prepare_install(&mac, "1.0", Some("https://x/i.sh".to_string())).unwrap().1,
        "https://x/i.sh"
    );
    assert!(prepare_install(&linux, "", None).is_err());
}

#[test]
fn installer_arguments_and_outcome() {
    assert_eq!(
        installer_arguments(Platform::Linux, "1.2", "/opt/y"),
        vec!["-s", "--", "--version", "1.2", "--dir", "/opt/y", "--no-path-update"]
    );
    assert_eq!(
        installer_arguments(Platform::MacOS, "1.2", "/Apps")[6],
        "--no-launch"
    );
    assert_eq!(installer_outcome(true, " done\n", "warn", "0").unwrap(), "done");
    assert_eq!(installer_outcome(false, "out", " bad \n", "1").unwrap_err(), "bad");
    assert_eq!(installer_outcome(false, " out ", "  ", "1").unwrap_err(), "out");
    assert_eq!(
        installer_outcome(false, "", "", "exit status: 3").unwrap_err(),
        "Installer exited with status exit status: 3"
    );
}

#[test]
fn install_directories() {
    let some = |s: &str| Some(s.to_string());
    assert_eq!(
        choose_install_dir(Platform::Linux, some("/apps"), None, some("/usr/bin"), some("/home/u")),
        "/apps"
    );
    assert_eq!(
        choose_install_dir(Platform::Linux, None, some("/x"), some("/usr/bin"), some("/home/u")),
        "/usr/bin"
    );
    assert_eq!(
        choose_install_dir(Platform::Linux, None, None, None, some("/home/u")),
        "/home/u/.local/bin"
    );
    assert_eq!(choose_install_dir(Platform::Linux, None, None, None, None), "~/.local/bin");
    assert_eq!(
        choose_install_dir(Platform::MacOS, None, some("/Applications"), some("/x"), some("/Users/u")),
        "/Applications"
    );
    assert_eq!(
        choose_install_dir(Platform::MacOS, None, None, some("/x"), some("/Users/u/")),
        "/Users/u/Applications"
    );
    assert_eq!(choose_install_dir(Platform::MacOS, None, None, None, None), "~/Applications");
}
