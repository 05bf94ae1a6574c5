use pereplyot::config::{config_dir, config_path, ColorScheme, Config};
use pereplyot::host::{annotations_path, meta_path};
use pereplyot::launcher::{resolve_title, whole_book_count_text, LauncherSession};
use pereplyot::path::join_path;
use pereplyot::text::decimal_string;

#[test]
fn launcher_shown_only_when_asked_for() {
    let mut s = LauncherSession::new();
    assert!(!s.on_command_line(false));
    assert!(s.close_launcher_when_readers_closed());
    assert!(s.on_command_line(true));
    assert!(s.on_command_line(false));
    assert!(!s.close_launcher_when_readers_closed());
}

#[test]
fn titles() {
    assert_eq!(resolve_title(Some("Moby Dick".into()), Some("moby".into())), "Moby Dick");
    assert_eq!(resolve_title(Some("".into()), Some("moby".into())), "moby");
    assert_eq!(resolve_title(None, None), "Untitled");
    assert_eq!(resolve_title(None, Some("".into())), "");
}

#[test]
fn count_texts() {
    assert_eq!(whole_book_count_text(3), "3 found");
    assert_eq!(whole_book_count_text(200), "200+ found");
    assert_eq!(whole_book_count_text(0), "0 found");
}

#[test]
fn theme_selects_scheme() {
    let c = Config::default();
    assert_eq!(c.theme, "system");
    assert_eq!(c.color_scheme(), ColorScheme::Default);
    assert_eq!(Config { theme: "light".into() }.color_scheme(), ColorScheme::ForceLight);
    assert_eq!(Config { theme: "dark".into() }.color_scheme(), ColorScheme::ForceDark);
    assert_eq!(Config { theme: "Dark".into() }.color_scheme(), ColorScheme::Default);
}

#[test]
fn paths_join_like_pathbuf() {
    assert_eq!(config_dir("/home/u/.config"), "/home/u/.config/pereplyot");
    assert_eq!(config_path("/home/u/.config"), "/home/u/.config/pereplyot/config.json");
    assert_eq!(join_path("", "a"), "a");
    assert_eq!(join_path("/x", "/abs"), "/abs");
    assert_eq!(meta_path("/d", "abc"), "/d/meta/abc.json");
    assert_eq!(annotations_path("/d/", "abc"), "/d/annotations/abc.json");
}

#[test]
fn decimal_numbers() {
    assert_eq!(decimal_string(0), "0");
    assert_eq!(decimal_string(1234567890), "1234567890");
    assert_eq!(decimal_string(u64::MAX), u64::MAX.to_string());
}
