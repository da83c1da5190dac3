//! Windows, the launch, copied files and updates.
use pouch::bootstrap::{
    bootstrap_macos_user_dir, copy_dir_recursive, copy_failure, next_step, EntryKind, Failure,
    FileStep, SampleProbe, TreeEntry,
};
use pouch::config::{Settings, WindowDimensions, WindowDimensionsMode};
use pouch::dialog::{
    cache_window_dimensions, current_window_dimensions, next_window_label, prompt_initial_url,
    prompt_url_for_new_window, prompt_url_via_alert, show_new_window_dialog, NewWindow, FIRST_BUTTON,
    FIRST_LABEL,
};
use pouch::migrate::{migrate_legacy_windows_data, Directory, LegacyProbe};
use pouch::startup::{
    exit_code, focused_webview_window, main_window_for, menu_action, next_stage, plan_startup, Answer,
    MainWindow, MenuAction, Stage, MENU_ID_CHECK_FOR_UPDATES, MENU_ID_NEW_WINDOW,
    MENU_ID_OPEN_DEVTOOLS, MENU_ID_RELOAD, MENU_ID_REVEAL_FOLDER,
};
use pouch::storage::WindowState;
use pouch::updater::{
    check_interactive, check_silent, checked_message, failure_message, fetch_latest_version,
    is_installed_layout, is_newer, is_scoop_install, is_scoop_path, is_update, should_notify,
    update_offer, windows_offer, Checked, Platform, UpdateFailure, Version, RELEASES_URL,
    SCOOP_COMMAND,
};
use pouch::util::PathComponent;
use pouch::window::{
    accepts_title, apply_inherit_mode, capture_window_state, devtools_symbol, is_save_due,
    schedule_save_state, title_after_load, window_geometry, Geometry, SaveClock, LOADING_TITLE,
};

fn path(step: &FileStep) -> String {
    match step {
        FileStep::CreateDir { path } => format!("mkdir {path}"),
        FileStep::CopyFile { from, to } => format!("copy {from} {to}"),
        FileStep::CopyTree { from, to } => format!("tree {from} {to}"),
        FileStep::WriteMarker { path } => format!("mark {path}"),
    }
}

fn paths(steps: &[FileStep]) -> Vec<String> {
    steps.iter().map(path).collect()
}

fn entry(path: &str, kind: EntryKind, taken: bool) -> TreeEntry {
    TreeEntry { path: path.to_string(), kind, taken }
}

#[test]
fn copy_dir_recursive_copies_nested_files() {
    let entries = vec![
        entry("hook.conf.toml", EntryKind::File, false),
        entry("inject", EntryKind::Dir, false),
        entry("inject/global.js", EntryKind::File, false),
        entry("inject/leelib.js", EntryKind::File, false),
    ];
    let (steps, n) = copy_dir_recursive("/src", "/dst/out", &entries, false);
    assert_eq!(n, 3, "expected three files copied");
    let done = paths(&steps);
    assert!(done.contains(&"copy /src/hook.conf.toml /dst/out/hook.conf.toml".to_string()));
    assert!(done.contains(&"copy /src/inject/global.js /dst/out/inject/global.js".to_string()));
    assert!(done.contains(&"copy /src/inject/leelib.js /dst/out/inject/leelib.js".to_string()));
}

#[test]
fn copy_dir_recursive_creates_destination() {
    let entries = vec![entry("a.txt", EntryKind::File, false)];
    let (steps, n) = copy_dir_recursive("/src", "/dst/nested/missing/leaf", &entries, false);
    assert_eq!(n, 1);
    assert_eq!(
        paths(&steps),
        vec!["mkdir /dst/nested/missing/leaf", "copy /src/a.txt /dst/nested/missing/leaf/a.txt"]
    );
}

#[test]
fn kept_files_are_not_written() {
    let entries = vec![
        entry("a", EntryKind::File, true),
        entry("b", EntryKind::File, false),
        entry("link", EntryKind::Other, false),
    ];
    let (kept, n) = copy_dir_recursive("/s", "/d", &entries, true);
    assert_eq!(paths(&kept), vec!["mkdir /d", "copy /s/b /d/b"]);
    assert_eq!(n, 1);
    let (all, n) = copy_dir_recursive("/s", "/d", &entries, false);
    assert_eq!(paths(&all), vec!["mkdir /d", "copy /s/a /d/a", "copy /s/b /d/b"]);
    assert_eq!(n, 2);
}

#[test]
fn a_failed_step_has_its_consequences() {
    let entries = vec![
        entry("a", EntryKind::Dir, false),
        entry("a/x", EntryKind::File, false),
        entry("a/b", EntryKind::Dir, false),
        entry("a/b/y", EntryKind::File, false),
        entry("ab", EntryKind::File, false),
    ];
    let (steps, _) = copy_dir_recursive("/s", "/d", &entries, true);
    assert_eq!(steps.len(), 6);
    for failure in [Failure::NeedsDirectory, Failure::Ends, Failure::SkipsBelow] {
        assert_eq!(next_step(&steps, 1, true, failure), 2);
        assert_eq!(next_step(&steps, 5, false, failure), 6);
    }
    assert_eq!(next_step(&steps, 1, false, Failure::NeedsDirectory), 6);
    assert_eq!(next_step(&steps, 2, false, Failure::NeedsDirectory), 3);
    assert_eq!(next_step(&steps, 2, false, Failure::Ends), 6);
    assert_eq!(next_step(&steps, 0, false, Failure::SkipsBelow), 6);
    assert_eq!(next_step(&steps, 1, false, Failure::SkipsBelow), 5);
    assert_eq!(next_step(&steps, 2, false, Failure::SkipsBelow), 3);
    assert_eq!(next_step(&steps, 3, false, Failure::SkipsBelow), 5);
    assert_eq!(copy_failure(true), Failure::SkipsBelow);
    assert_eq!(copy_failure(false), Failure::Ends);
}

fn sample() -> SampleProbe {
    SampleProbe {
        user_dir: Some("/u".to_string()),
        resource_dir: Some("/r".to_string()),
        has_sample: true,
        has_sample_config: true,
        has_sample_inject: true,
        has_config: false,
        has_inject: false,
    }
}

#[test]
fn samples_are_put_in_place_once() {
    assert_eq!(
        paths(&bootstrap_macos_user_dir(&sample())),
        vec![
            "mkdir /u",
            "copy /r/sample/hook.conf.toml /u/hook.conf.toml",
            "tree /r/sample/inject /u/inject"
        ]
    );
    let half = SampleProbe { has_config: true, ..sample() };
    assert_eq!(paths(&bootstrap_macos_user_dir(&half)), vec!["mkdir /u", "tree /r/sample/inject /u/inject"]);
    let bare = SampleProbe { has_sample: false, ..sample() };
    assert_eq!(paths(&bootstrap_macos_user_dir(&bare)), vec!["mkdir /u"]);
    let unbundled = SampleProbe { resource_dir: None, ..sample() };
    assert_eq!(paths(&bootstrap_macos_user_dir(&unbundled)), vec!["mkdir /u"]);
    let homeless = SampleProbe { user_dir: None, ..sample() };
    assert!(bootstrap_macos_user_dir(&homeless).is_empty());
}

fn directory(path: &str, name: &str) -> Option<Directory> {
    let components = vec![PathComponent::RootDir, PathComponent::Normal(name.to_string())];
    Some(Directory { path: path.to_string(), components })
}

fn legacy() -> LegacyProbe {
    LegacyProbe {
        new_root: directory("/n", "n"),
        old_root: directory("/o", "o"),
        has_marker: false,
        has_old_config: true,
        has_old_inject: true,
        has_old_overrides: true,
        has_new_config: false,
    }
}

#[test]
fn old_data_is_moved_once() {
    assert_eq!(
        paths(&migrate_legacy_windows_data(&legacy())),
        vec![
            "mkdir /n",
            "copy /o/hook.conf.toml /n/hook.conf.toml",
            "tree /o/inject /n/inject",
            "tree /o/overrides /n/overrides",
            "mark /n/.migrated-from-portable"
        ]
    );
    assert!(migrate_legacy_windows_data(&LegacyProbe { has_marker: true, ..legacy() }).is_empty());
    assert!(migrate_legacy_windows_data(&LegacyProbe { new_root: None, ..legacy() }).is_empty());
    assert!(migrate_legacy_windows_data(&LegacyProbe { old_root: None, ..legacy() }).is_empty());
    let same = LegacyProbe { old_root: directory("\\n", "n"), ..legacy() };
    assert!(migrate_legacy_windows_data(&same).is_empty());
    let nothing = LegacyProbe {
        has_old_config: false,
        has_old_inject: false,
        has_old_overrides: false,
        ..legacy()
    };
    assert!(migrate_legacy_windows_data(&nothing).is_empty());
}

#[test]
fn a_new_configuration_is_kept() {
    let probe = LegacyProbe { has_new_config: true, has_old_inject: false, ..legacy() };
    assert_eq!(
        paths(&migrate_legacy_windows_data(&probe)),
        vec!["mkdir /n", "tree /o/overrides /n/overrides", "mark /n/.migrated-from-portable"]
    );
}

#[test]
fn window_labels_differ() {
    let mut counter = FIRST_LABEL;
    assert_eq!(next_window_label(&mut counter), "window-2");
    assert_eq!(next_window_label(&mut counter), "window-3");
    let mut last = usize::MAX;
    assert_eq!(next_window_label(&mut last), format!("window-{}", usize::MAX));
    assert_eq!(last, 0);
}

#[test]
fn window_dimensions_are_noted_once() {
    let mut cached = None;
    assert_eq!(current_window_dimensions(&cached), WindowDimensions::Mode(WindowDimensionsMode::Inherit));
    let size = WindowDimensions::Size { width: 1, height: 2 };
    cache_window_dimensions(&mut cached, size);
    cache_window_dimensions(&mut cached, WindowDimensions::default());
    assert_eq!(current_window_dimensions(&cached), size);
}

#[test]
fn questions_for_a_url() {
    assert_eq!(prompt_initial_url().title, "Welcome to Pouch");
    assert_eq!(prompt_initial_url().info, "Enter a URL to open:");
    assert_eq!(prompt_url_for_new_window().title, "New Window");
    assert_eq!(prompt_url_for_new_window().info, "Enter a URL (http or https):");
    assert_eq!(prompt_url_via_alert(Some(FIRST_BUTTON), "x").as_deref(), Some("x"));
    assert_eq!(prompt_url_via_alert(Some(1001), "x"), None);
    assert_eq!(prompt_url_via_alert(None, "x"), None);
}

#[test]
fn only_web_urls_open_in_a_new_window() {
    assert!(matches!(show_new_window_dialog(None), NewWindow::Nothing));
    assert!(matches!(show_new_window_dialog(Some("  ")), NewWindow::Nothing));
    assert!(matches!(show_new_window_dialog(Some("example.com")), NewWindow::NotAUrl(_)));
    assert!(matches!(show_new_window_dialog(Some("file:///x")), NewWindow::NotWeb));
    match show_new_window_dialog(Some(" https://example.com \n")) {
        NewWindow::Open { entry } => assert_eq!(entry, "https://example.com"),
        _ => panic!("expected a window"),
    }
}

fn state(width: u32, height: u32) -> WindowState {
    WindowState { x: 120, y: 80, width, height, maximized: false, fullscreen: true }
}

fn sized(width: u32, height: u32, maximized: bool, fullscreen: bool) -> Geometry {
    Geometry { position: None, width, height, maximized, fullscreen }
}

#[test]
fn windows_have_a_size() {
    let mode = |m| WindowDimensions::Mode(m);
    assert_eq!(window_geometry(mode(WindowDimensionsMode::Default), Some(state(5, 6))), sized(1280, 960, false, false));
    assert_eq!(window_geometry(mode(WindowDimensionsMode::Maximized), None), sized(1280, 960, true, false));
    assert_eq!(window_geometry(mode(WindowDimensionsMode::Fullscreen), None), sized(1280, 960, false, true));
    assert_eq!(
        window_geometry(WindowDimensions::Size { width: 800, height: 600 }, None),
        sized(800, 600, false, false)
    );
    assert_eq!(
        window_geometry(WindowDimensions::Size { width: 0, height: 600 }, None),
        sized(1280, 960, true, false)
    );
}

#[test]
fn saved_state_is_restored() {
    let inherit = WindowDimensions::Mode(WindowDimensionsMode::Inherit);
    let restored = window_geometry(inherit, Some(state(640, 480)));
    assert_eq!(
        restored,
        Geometry { position: Some((120, 80)), width: 640, height: 480, maximized: false, fullscreen: true }
    );
    assert_eq!(apply_inherit_mode(Some(state(0, 480))), sized(1280, 960, false, false));
    assert_eq!(apply_inherit_mode(None), sized(1280, 960, false, false));
}

#[test]
fn window_state_is_captured() {
    let captured = capture_window_state((1, 2), (3, 4), None, Some(true));
    assert_eq!(captured, WindowState { x: 1, y: 2, width: 3, height: 4, maximized: false, fullscreen: true });
}

#[test]
fn only_the_last_change_is_saved() {
    let mut clock = SaveClock { version: 0 };
    let first = schedule_save_state(&mut clock);
    assert!(is_save_due(&clock, first));
    let second = schedule_save_state(&mut clock);
    assert!(!is_save_due(&clock, first));
    assert!(is_save_due(&clock, second));
}

#[test]
fn titles_of_windows() {
    assert!(accepts_title("a"));
    assert!(!accepts_title(" \t"));
    assert_eq!(title_after_load(Some(LOADING_TITLE), Some("h.com")).as_deref(), Some("h.com"));
    assert_eq!(title_after_load(Some("\u{23f3} Loading... x"), None).as_deref(), Some("Pouch"));
    assert_eq!(title_after_load(Some("A page"), Some("h.com")), None);
    assert_eq!(title_after_load(None, Some("h.com")), None);
    assert_eq!(devtools_symbol(true), "wrench.and.screwdriver.fill");
    assert_eq!(devtools_symbol(false), "wrench.and.screwdriver");
}

#[test]
fn the_launch_goes_step_by_step() {
    let mut stage = Stage::Migrate;
    let mut seen = vec![stage];
    while stage != Stage::Running {
        stage = next_stage(stage, true, true);
        seen.push(stage);
    }
    assert_eq!(
        seen,
        vec![
            Stage::Migrate,
            Stage::Bootstrap,
            Stage::LoadConfig,
            Stage::InstallGlobal,
            Stage::StartProxy,
            Stage::TrustCertificate,
            Stage::ScanScripts,
            Stage::OpenWindows,
            Stage::AttachHandler,
            Stage::ScheduleUpdateCheck,
            Stage::Running
        ]
    );
    assert_eq!(next_stage(Stage::TrustCertificate, false, true), Stage::Quit { code: 1 });
    assert_eq!(next_stage(Stage::InstallGlobal, false, true), Stage::Quit { code: 1 });
    assert_eq!(next_stage(Stage::OpenWindows, false, true), Stage::Quit { code: 1 });
    assert_eq!(next_stage(Stage::StartProxy, false, true), Stage::ScanScripts);
    assert_eq!(next_stage(Stage::InstallGlobal, true, false), Stage::ScanScripts);
}

#[test]
fn every_startup_url_is_opened() {
    let urls: Vec<String> = ["https://a/", "no url", "https://b/", "https://c/"].iter().map(|s| s.to_string()).collect();
    let mut counter = FIRST_LABEL;
    let plan = plan_startup(&urls, &mut counter);
    let opened: Vec<(&str, &str)> = plan.windows.iter().map(|w| (w.label.as_str(), w.url.as_str())).collect();
    assert_eq!(opened, vec![("main", "https://a/"), ("window-2", "https://b/"), ("window-3", "https://c/")]);
    assert!(!plan.ask);
    assert_eq!(counter, 4);
}

#[test]
fn without_a_first_url_the_user_is_asked() {
    let mut counter = FIRST_LABEL;
    let none = plan_startup(&Vec::new(), &mut counter);
    assert!(none.ask);
    assert!(none.windows.is_empty());
    let plan = plan_startup(&vec!["no url".to_string(), "https://b/".to_string()], &mut counter);
    assert!(plan.ask);
    assert_eq!(plan.windows[0].label, "window-2");
}

#[test]
fn answers_to_the_question() {
    assert!(matches!(main_window_for(Answer::Unavailable, false), MainWindow::Wait));
    assert!(matches!(main_window_for(Answer::Unavailable, true), MainWindow::Exit));
    for listed in [false, true] {
        assert!(matches!(main_window_for(Answer::Declined, listed), MainWindow::Exit));
        assert!(matches!(main_window_for(Answer::Entered("file:///x"), listed), MainWindow::Exit));
        assert!(matches!(main_window_for(Answer::Entered("x"), listed), MainWindow::NotAUrl(_)));
        match main_window_for(Answer::Entered(" https://a/ "), listed) {
            MainWindow::Open { url } => assert_eq!(url, "https://a/"),
            _ => panic!("expected a window"),
        }
    }
}

#[test]
fn the_menu() {
    assert_eq!(menu_action(MENU_ID_OPEN_DEVTOOLS, false), Some(MenuAction::ToggleDevtools));
    assert_eq!(menu_action(MENU_ID_CHECK_FOR_UPDATES, false), Some(MenuAction::CheckForUpdates));
    assert_eq!(menu_action(MENU_ID_NEW_WINDOW, true), Some(MenuAction::NewWindow));
    assert_eq!(menu_action(MENU_ID_NEW_WINDOW, false), None);
    assert_eq!(menu_action(MENU_ID_REVEAL_FOLDER, true), Some(MenuAction::RevealFolder));
    assert_eq!(menu_action(MENU_ID_RELOAD, true), Some(MenuAction::Reload));
    assert_eq!(menu_action("other", true), None);
    assert_eq!(focused_webview_window(&vec![None, Some(false), Some(true), Some(true)]), Some(2));
    assert_eq!(focused_webview_window(&vec![None, Some(false)]), None);
}

#[test]
fn the_program_ends_once() {
    let mut exiting = false;
    assert_eq!(exit_code(&mut exiting, Some(3)), Some(3));
    assert_eq!(exit_code(&mut exiting, Some(4)), None);
    let mut other = false;
    assert_eq!(exit_code(&mut other, None), Some(0));
}

#[test]
fn installed_programs_look_for_updates() {
    let bundle = Some("/Applications/Pouch.app/Contents/MacOS/pouch");
    assert!(is_installed_layout(Platform::MacOs, false, bundle));
    assert!(!is_installed_layout(Platform::MacOs, true, bundle));
    assert!(!is_installed_layout(Platform::MacOs, false, Some("/tmp/pouch")));
    assert!(!is_installed_layout(Platform::MacOs, false, None));
    assert!(is_installed_layout(Platform::Windows, false, None));
    assert!(!is_installed_layout(Platform::Windows, true, None));
    assert!(!is_installed_layout(Platform::Other, false, bundle));
    let mut settings = Settings::new();
    assert!(check_silent(true, &settings));
    assert!(!check_silent(false, &settings));
    settings.updater_auto_check = false;
    assert!(!check_silent(true, &settings));
}

#[test]
fn scoop_is_told_by_the_path() {
    assert!(is_scoop_install(Some("C:\\Users\\Ü\\SCOOP\\Apps\\Pouch\\current\\pouch.exe")));
    assert!(!is_scoop_install(Some("C:\\pouch.exe")));
    assert!(!is_scoop_install(None));
    assert!(is_scoop_path("c:\\scoop\\apps\\pouch\\x"));
    assert!(!is_scoop_path("c:\\SCOOP\\apps\\pouch\\x"));
}

fn version(major: u64, minor: u64, patch: u64, pre: &str, build: &str) -> Version {
    Version { major, minor, patch, pre: pre.to_string(), build: build.to_string() }
}

#[test]
fn versions_are_ordered() {
    assert_eq!(is_update("2.1.1", "2.1.0"), Some(true));
    assert_eq!(is_update("2.1.0", "2.1.0"), Some(false));
    assert_eq!(is_update("2.0.9", "2.1.0"), Some(false));
    assert_eq!(is_update("10.0.0", "9.9.9"), Some(true));
    assert_eq!(is_update("2.1.0", "2.1.0-rc.1"), Some(true));
    assert_eq!(is_update("2.1.0-rc.1", "2.1.0"), Some(false));
    assert_eq!(is_update("2.1.0-rc.10", "2.1.0-rc.9"), Some(true));
    assert_eq!(is_update("2.1.0+b.2", "2.1.0+b.1"), Some(true));
    assert_eq!(is_update("v2.1.0", "2.1.0"), None);
    assert_eq!(is_update("2.1.0", "2.1"), None);
    assert!(is_newer(&version(1, 2, 3, "", ""), &version(1, 2, 3, "a", "")));
    assert!(!is_newer(&version(1, 2, 3, "a", ""), &version(1, 2, 3, "a", "")));
}

#[test]
fn versions_are_ordered_as_elsewhere() {
    let texts = ["1.0.0", "1.0.0-a", "1.0.0-a.1", "1.0.0-1", "1.0.0+x", "1.0.0-a+x", "1.0.1", "1.2.0", "2.0.0-z+9"];
    for a in texts {
        for b in texts {
            let expected = semver::Version::parse(a).unwrap() > semver::Version::parse(b).unwrap();
            assert_eq!(is_update(a, b), Some(expected), "{a} {b}");
        }
    }
}

#[test]
fn latest_version_is_read() {
    assert_eq!(fetch_latest_version(200, b"{\"version\":\"2.2.0\",\"notes\":1}").as_deref(), Some("2.2.0"));
    assert_eq!(fetch_latest_version(404, b"{\"version\":\"2.2.0\"}"), None);
    assert_eq!(fetch_latest_version(200, b"{\"version\":2}"), None);
    assert_eq!(fetch_latest_version(200, b"{}"), None);
    assert_eq!(fetch_latest_version(200, b"[]"), None);
    assert_eq!(fetch_latest_version(200, b"oops"), None);
    assert!(should_notify(Some("2.2.0"), "2.1.0"));
    assert!(!should_notify(Some("2.1.0"), "2.1.0"));
    assert!(!should_notify(Some("soon"), "2.1.0"));
    assert!(!should_notify(None, "2.1.0"));
}

fn told(installed: bool, latest: Option<&str>) -> (String, String) {
    let checked = check_interactive(installed, latest, "2.1.0");
    let message = checked_message(&checked).expect("a message");
    (message.title, message.body)
}

#[test]
fn the_user_is_told_what_came_of_it() {
    assert_eq!(
        told(false, Some("9.0.0")),
        (
            "Auto-update unavailable".to_string(),
            format!("This build does not support auto-update.\n\nDownload the latest release from:\n{RELEASES_URL}")
        )
    );
    assert_eq!(
        told(true, None),
        (
            "Update check failed".to_string(),
            format!("Could not reach GitHub to check for updates.\n\nVisit {RELEASES_URL} manually.")
        )
    );
    assert_eq!(
        told(true, Some("x")),
        (
            "Update check failed".to_string(),
            format!("Could not parse version info from GitHub.\n\nVisit {RELEASES_URL} manually.")
        )
    );
    assert_eq!(
        told(true, Some("2.1.0")),
        ("No update available".to_string(), "You are running the latest version of Pouch.".to_string())
    );
    match check_interactive(true, Some("2.2.0"), "2.1.0") {
        Checked::Available { version } => assert_eq!(version, "2.2.0"),
        _ => panic!("expected an update"),
    }
}

#[test]
fn updates_are_offered() {
    let plain = update_offer("2.2.0", Some(" \n"));
    assert_eq!(plain.title, "Update to v2.2.0");
    assert_eq!(plain.body, "Pouch v2.2.0 is available.\n\nUpdate now?");
    assert_eq!(update_offer("2.2.0", None).body, plain.body);
    let noted = update_offer("2.2.0", Some(" Fixes "));
    assert_eq!(noted.body, "Pouch v2.2.0 is available.\n\n Fixes \n\nUpdate now?");
    let scoop = windows_offer("2.2.0", true);
    assert_eq!(scoop.message.title, "Update available");
    assert_eq!(scoop.message.body, "Pouch v2.2.0 is available. Update with:\n\nscoop update pouch");
    assert_eq!(scoop.button, "Copy command");
    assert_eq!(scoop.copies, Some(SCOOP_COMMAND));
    let portable = windows_offer("2.2.0", false);
    assert_eq!(portable.message.body, "Pouch v2.2.0 is available. Download the latest release from GitHub.");
    assert_eq!(portable.button, "Open release page");
    assert_eq!(portable.copies, None);
    assert_eq!(failure_message(UpdateFailure::NoPlugin, "e").body, "Updater plugin not available:\ne");
    assert_eq!(failure_message(UpdateFailure::Check, "e").body, "Could not check for updates:\ne");
    assert_eq!(failure_message(UpdateFailure::Install, "e").title, "Update failed");
}
