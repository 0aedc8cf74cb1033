use yanklog_core::desktop::{
    autostart_entry, autostart_file_name, desktop_exec_quote, entry_meta_text,
    is_inside_rounded_rect, next_selection_index, quick_picker_command_text,
    shell_quote_for_display, theme_from_index, theme_index, IconRect,
};
use yanklog_core::ThemePreference;

#[test]
fn theme_selector_positions() {
    assert_eq!(theme_index(ThemePreference::System), 0);
    assert_eq!(theme_index(ThemePreference::Light), 1);
    assert_eq!(theme_index(ThemePreference::Dark), 2);
    assert_eq!(theme_from_index(7), ThemePreference::System);
    for t in [ThemePreference::System, ThemePreference::Light, ThemePreference::Dark] {
        assert_eq!(theme_from_index(theme_index(t)), t);
    }
}

#[test]
fn quoting() {
    assert_eq!(desktop_exec_quote("/usr/bin/yanklog"), "\"/usr/bin/yanklog\"");
    assert_eq!(desktop_exec_quote("a\"b\\c"), "\"a\\\"b\\\\c\"");
    assert_eq!(shell_quote_for_display("/usr/bin/yanklog"), "/usr/bin/yanklog");
    assert_eq!(shell_quote_for_display("/my apps/y"), "'/my apps/y'");
    assert_eq!(shell_quote_for_display("it's"), "'it'\"'\"'s'");
    assert_eq!(shell_quote_for_display(""), "");
    assert_eq!(quick_picker_command_text("/bin/y", false), "/bin/y --pick");
    assert_eq!(
        quick_picker_command_text("/b c", true),
        "env YANKLOG_DEV_MODE=1 YANKLOG_DISABLE_UPDATE_CHECK=1 '/b c' --pick"
    );
}

#[test]
fn autostart() {
    assert_eq!(autostart_file_name(false), "com.yanklog.app.autostart.desktop");
    assert_eq!(autostart_file_name(true), "com.yanklog.dev.autostart.desktop");
    assert_eq!(
        autostart_entry("yanklog", "\"/bin/y\""),
        "[Desktop Entry]\nType=Application\nName=yanklog\nComment=Start yanklog at login\nExec=\"/bin/y\" --background\nIcon=yanklog\nTerminal=false\nX-GNOME-Autostart-enabled=true\nNoDisplay=true\n"
    );
}

#[test]
fn meta_line() {
    assert_eq!(entry_meta_text("sometime", true), "sometime · pinned");
    assert_eq!(entry_meta_text("sometime", false), "sometime");
}

#[test]
fn quick_picker_selection() {
    assert_eq!(next_selection_index(None, 0, 1), None);
    assert_eq!(next_selection_index(None, 3, 1), Some(1));
    assert_eq!(next_selection_index(Some(2), 3, 1), Some(2));
    assert_eq!(next_selection_index(Some(0), 3, -1), Some(0));
    assert_eq!(next_selection_index(Some(9), 3, -1), Some(1));
    assert_eq!(next_selection_index(Some(-4), 3, 1), Some(1));
}

#[test]
fn rounded_rectangles() {
    let r = IconRect { x: 0, y: 0, width: 10, height: 10 };
    assert!(is_inside_rounded_rect(5, 5, r, 3));
    assert!(!is_inside_rounded_rect(0, 0, r, 3));
    assert!(is_inside_rounded_rect(0, 0, r, 0));
    assert!(is_inside_rounded_rect(3, 0, r, 3));
    assert!(!is_inside_rounded_rect(10, 5, r, 3));
    assert!(!is_inside_rounded_rect(-1, 5, r, 3));
    assert!(is_inside_rounded_rect(1, 1, r, 3));
    let empty = IconRect { x: 0, y: 0, width: 0, height: 5 };
    assert!(!is_inside_rounded_rect(0, 0, empty, 1));
    let thin = IconRect { x: 0, y: 0, width: 2, height: 20 };
    assert!(is_inside_rounded_rect(0, 0, thin, 5));
}
