use luminousity::config::{merge_config, Config, ConfigFile, Setting};
use luminousity::paths::{
    config_dir, config_dir_under, config_file, config_file_under, expand_user, expand_user_with,
    ascii_bytes, history_file, history_file_under, home_dir_string, join_path, join_path_bytes, or_dot,
};

fn defaults() -> Config {
    Config { default_save_directory: "/home/u".to_string(), tab_size: 4, expand_tabs: true }
}

#[test]
fn join_path_like_pathbuf() {
    assert_eq!(join_path("/home/u", "a.txt"), "/home/u/a.txt");
    assert_eq!(join_path("/home/u/", "a.txt"), "/home/u/a.txt");
    assert_eq!(join_path("/home/u", "/tmp/x"), "/tmp/x");
    assert_eq!(join_path("", "a"), "a");
    for (b, n) in [("/home/u", "a.txt"), ("/home/u/", "d/e"), ("/x", "/abs"), ("", "a"), (".", "f")] {
        let expected = std::path::PathBuf::from(b).join(n).to_string_lossy().to_string();
        assert_eq!(join_path(b, n), expected);
    }
}

#[test]
fn config_paths_under_home() {
    assert_eq!(config_dir_under(b"/home/u"), b"/home/u/.config/luminousity".to_vec());
    assert_eq!(config_file_under(b"/home/u"), b"/home/u/.config/luminousity/config.json".to_vec());
    assert_eq!(history_file_under(b"/home/u/"), b"/home/u/.cache/luminousity_history.json".to_vec());
    assert_eq!(config_file_under(b"."), b"./.config/luminousity/config.json".to_vec());
    assert_eq!(config_file_under(b"/h\xff"), b"/h\xff/.config/luminousity/config.json".to_vec());
}

#[test]
fn config_paths_of_current_user() {
    let home: Vec<u8> = dirs::home_dir()
        .map(|p| p.into_os_string().into_encoded_bytes())
        .unwrap_or_else(|| b".".to_vec());
    assert_eq!(config_file(), config_file_under(&home));
    assert_eq!(config_dir(), config_dir_under(&home));
    assert_eq!(history_file(), history_file_under(&home));
    assert!(config_file().ends_with(b"/.config/luminousity/config.json"));
    assert!(!home_dir_string().is_empty());
    assert_eq!(home_dir_string(), String::from_utf8_lossy(&home));
}

#[test]
fn or_dot_without_home() {
    assert_eq!(or_dot(None), b".".to_vec());
    assert_eq!(or_dot(Some(b"/h".to_vec())), b"/h".to_vec());
}

#[test]
fn byte_paths_join_like_pathbuf() {
    assert_eq!(join_path_bytes(b"/a", b"b"), b"/a/b".to_vec());
    assert_eq!(join_path_bytes(b"/a/", b"b"), b"/a/b".to_vec());
    assert_eq!(join_path_bytes(b"/a", b"/b"), b"/b".to_vec());
    assert_eq!(join_path_bytes(b"", b"b"), b"b".to_vec());
    assert_eq!(ascii_bytes(".cache"), b".cache".to_vec());
}

#[test]
fn expand_user_replaces_tilde() {
    assert_eq!(expand_user_with("~/docs", "/home/u"), "/home/u/docs");
    assert_eq!(expand_user_with("~", "/home/u"), "/home/u");
    assert_eq!(expand_user_with("docs/~", "/home/u"), "docs/~");
    assert_eq!(expand_user("plain/path"), "plain/path");
    assert_eq!(expand_user(""), "");
    assert_eq!(expand_user("~/x"), format!("{}/x", home_dir_string()));
}

#[test]
fn default_config() {
    let c = Config::default();
    assert_eq!(c.tab_size, 4);
    assert!(c.expand_tabs);
    assert_eq!(c.default_save_directory, home_dir_string());
    assert!(!c.default_save_directory.is_empty());
}

#[test]
fn merge_without_file_keeps_defaults() {
    let c = merge_config(None, defaults());
    assert_eq!(c.default_save_directory, "/home/u");
    assert_eq!(c.tab_size, 4);
    assert!(c.expand_tabs);
}

#[test]
fn merge_given_settings_override() {
    let f = ConfigFile {
        default_save_directory: Setting::Given("/tmp".to_string()),
        tab_size: Setting::Given(2),
        expand_tabs: Setting::Missing,
    };
    let c = merge_config(Some(f), defaults());
    assert_eq!(c.default_save_directory, "/tmp");
    assert_eq!(c.tab_size, 2);
    assert!(c.expand_tabs);
}

#[test]
fn merge_malformed_setting_ignores_file() {
    let f = ConfigFile {
        default_save_directory: Setting::Given("/tmp".to_string()),
        tab_size: Setting::Malformed,
        expand_tabs: Setting::Given(false),
    };
    let c = merge_config(Some(f), defaults());
    assert_eq!(c.default_save_directory, "/home/u");
    assert_eq!(c.tab_size, 4);
    assert!(c.expand_tabs);
}
