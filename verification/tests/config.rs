//! The configuration file.
use pouch::config::{
    adopt, candidate_config_paths, default_auto_check, is_updater_auto_check_enabled,
    legacy_config_paths, load, looks_like_url, warn_if_legacy_json_present, Candidate, ConfigFile,
    Settings, UpdaterConfig, WindowDimensions, WindowDimensionsMode,
};
use pouch::hook::ignore_filter::{is_ignored, IgnoreEntry};
use pouch::util::DataRoots;

fn empty() -> ConfigFile {
    ConfigFile { startup_urls: None, window_dimensions: None, ignore_urls: None, updater: None }
}

fn suffix(s: &str) -> IgnoreEntry {
    IgnoreEntry::Suffix { suffix: s.to_string(), comment: None }
}

fn parse_window_dimensions(value_toml: &str) -> Option<WindowDimensions> {
    let table: toml::Table = format!("x = {value_toml}").parse().ok()?;
    match &table["x"] {
        toml::Value::String(word) => Some(WindowDimensions::Mode(WindowDimensionsMode::from_word(word)?)),
        _ => None,
    }
}

#[test]
fn looks_like_url_accepts_http_and_https() {
    assert!(looks_like_url("http://example.com/"));
    assert!(looks_like_url("https://example.com/"));
    assert!(!looks_like_url("ftp://example.com/"));
    assert!(!looks_like_url("example.com"));
    assert!(!looks_like_url(""));
}

#[test]
fn window_dimensions_default_string() {
    let parsed = parse_window_dimensions(r#""default""#).unwrap();
    assert!(matches!(parsed, WindowDimensions::Mode(WindowDimensionsMode::Default)));
}

#[test]
fn window_dimensions_inherit_string() {
    let parsed = parse_window_dimensions(r#""inherit""#).unwrap();
    assert!(matches!(parsed, WindowDimensions::Mode(WindowDimensionsMode::Inherit)));
}

#[test]
fn window_dimensions_maximized_string() {
    let parsed = parse_window_dimensions(r#""maximized""#).unwrap();
    assert!(matches!(parsed, WindowDimensions::Mode(WindowDimensionsMode::Maximized)));
}

#[test]
fn window_dimensions_fullscreen_string() {
    let parsed = parse_window_dimensions(r#""fullscreen""#).unwrap();
    assert!(matches!(parsed, WindowDimensions::Mode(WindowDimensionsMode::Fullscreen)));
}

#[test]
fn window_dimensions_rejects_uppercase_mode() {
    assert!(parse_window_dimensions(r#""Maximized""#).is_none());
    assert!(parse_window_dimensions(r#""FULLSCREEN""#).is_none());
    assert!(parse_window_dimensions(r#""max""#).is_none());
    assert!(parse_window_dimensions(r#""screen""#).is_none());
}

#[test]
fn config_file_window_dimensions_defaults_when_missing() {
    assert!(matches!(WindowDimensions::default(), WindowDimensions::Mode(WindowDimensionsMode::Inherit)));
    let mut settings = Settings::new();
    let config = adopt(&mut settings, &empty());
    assert!(matches!(config.window_dimensions, WindowDimensions::Mode(WindowDimensionsMode::Inherit)));
}

#[test]
fn config_file_tolerates_missing_startup_urls() {
    let mut settings = Settings::new();
    assert!(adopt(&mut settings, &empty()).startup_urls.is_empty());
}

#[test]
fn updater_config_missing_section_is_none() {
    assert!(UpdaterConfig::default().auto_check);
    assert!(default_auto_check());
    let mut settings = Settings::new();
    adopt(&mut settings, &empty());
    assert!(is_updater_auto_check_enabled(&settings));
}

#[test]
fn updater_config_explicit_false_disables() {
    let mut settings = Settings::new();
    assert!(is_updater_auto_check_enabled(&settings));
    let file = ConfigFile { updater: Some(UpdaterConfig { auto_check: false }), ..empty() };
    adopt(&mut settings, &file);
    assert!(!is_updater_auto_check_enabled(&settings));
    adopt(&mut settings, &empty());
    assert!(is_updater_auto_check_enabled(&settings));
}

#[test]
fn only_web_addresses_are_opened() {
    let mut settings = Settings::new();
    let file = ConfigFile {
        startup_urls: Some(vec![
            "https://a.example/".to_string(),
            "ftp://c.example/".to_string(),
            "http://b.example/".to_string(),
        ]),
        window_dimensions: Some(WindowDimensions::Size { width: 3, height: 4 }),
        ..empty()
    };
    let config = adopt(&mut settings, &file);
    assert_eq!(config.startup_urls, vec!["https://a.example/", "http://b.example/"]);
    assert_eq!(config.window_dimensions, WindowDimensions::Size { width: 3, height: 4 });
}

#[test]
fn first_file_that_parses_is_taken() {
    let mut settings = Settings::new();
    let first = ConfigFile { startup_urls: Some(vec!["https://first.example/".to_string()]), ..empty() };
    let second = ConfigFile { startup_urls: Some(vec!["https://second.example/".to_string()]), ..empty() };
    let candidates = vec![
        Candidate::Missing,
        Candidate::Malformed,
        Candidate::Unreadable,
        Candidate::Parsed(first),
        Candidate::Parsed(second),
    ];
    assert_eq!(load(&mut settings, &candidates).startup_urls, vec!["https://first.example/"]);
}

#[test]
fn without_a_file_the_settings_stay() {
    let mut settings = Settings::new();
    let file = ConfigFile {
        ignore_urls: Some(vec![suffix("gstatic.com")]),
        updater: Some(UpdaterConfig { auto_check: false }),
        ..empty()
    };
    adopt(&mut settings, &file);
    let config = load(&mut settings, &vec![Candidate::Malformed, Candidate::Missing]);
    assert!(config.startup_urls.is_empty());
    assert_eq!(config.window_dimensions, WindowDimensions::Mode(WindowDimensionsMode::Inherit));
    assert!(is_ignored(&settings.matchers, "https://gstatic.com/x"));
    assert!(!is_updater_auto_check_enabled(&settings));
}

#[test]
fn a_reload_replaces_the_rules() {
    let mut settings = Settings::new();
    let before = ConfigFile { ignore_urls: Some(vec![suffix("a.com")]), ..empty() };
    load(&mut settings, &vec![Candidate::Parsed(before)]);
    assert!(is_ignored(&settings.matchers, "https://a.com/"));
    let after = ConfigFile { ignore_urls: Some(vec![suffix("b.com")]), ..empty() };
    load(&mut settings, &vec![Candidate::Parsed(after)]);
    assert!(!is_ignored(&settings.matchers, "https://a.com/"));
    assert!(is_ignored(&settings.matchers, "https://b.com/"));
    load(&mut settings, &vec![Candidate::Parsed(empty())]);
    assert!(!is_ignored(&settings.matchers, "https://b.com/"));
}

#[test]
fn configuration_paths() {
    let roots = DataRoots { dev: None, platform: Some("/data".to_string()), exe: None };
    let paths = candidate_config_paths(&roots);
    assert_eq!(paths[0], "/data/hook.conf.toml");
    let legacy = legacy_config_paths(&roots);
    assert!(legacy.iter().any(|p| p == "/data/hook.config.json"), "{legacy:?}");
    assert_eq!(warn_if_legacy_json_present(&vec![false, true, true]), Some(1));
    assert_eq!(warn_if_legacy_json_present(&vec![false, false]), None);
}
