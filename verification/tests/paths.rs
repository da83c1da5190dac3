//! Paths and directories.
use pouch::util::{
    data_root, join_path, lexical_normalize, macos_app_support_dir, normalize_components,
    pretty_components, pretty_path, same_components, user_data_dir, user_data_path,
    windows_appdata_dir, DataRoots, PathComponent, UserDataKind,
};

fn dev(root: &str) -> DataRoots {
    DataRoots { dev: Some(root.to_string()), platform: Some("/p".to_string()), exe: None }
}

#[test]
fn collapses_parent_in_middle() {
    assert_eq!(lexical_normalize("/a/b/../c"), "/a/c");
}

#[test]
fn collapses_trailing_parent() {
    assert_eq!(lexical_normalize("/a/b/c/.."), "/a/b");
}

#[test]
fn drops_current_dir_segments() {
    assert_eq!(lexical_normalize("/a/./b"), "/a/b");
}

#[test]
fn preserves_leading_parent_in_relative() {
    assert_eq!(lexical_normalize("../foo"), "../foo");
}

#[test]
fn collapses_real_world_inject_path() {
    assert_eq!(
        lexical_normalize("/Users/x/pouch/src-tauri/../inject/global.js"),
        "/Users/x/pouch/inject/global.js"
    );
}

#[test]
fn cannot_pop_past_root() {
    assert_eq!(lexical_normalize("/.."), "/");
    assert_eq!(lexical_normalize("/../.."), "/");
}

#[test]
fn empty_input_becomes_dot() {
    assert_eq!(lexical_normalize(""), ".");
}

#[test]
fn relative_parent_after_segment_pops_segment_only() {
    assert_eq!(lexical_normalize("a/b/../../c"), "c");
}

#[test]
fn relative_parent_then_segment_then_parent() {
    assert_eq!(lexical_normalize("../a/.."), "..");
}

#[test]
fn pretty_path_is_absolute_for_relative_input() {
    let cwd = "/home/user/pouch/src/..";
    let pretty = pretty_path("inject/global.js", Some(cwd));
    let expected = lexical_normalize(&join_path(cwd, "inject/global.js"));
    assert_eq!(pretty, expected);
    assert_eq!(pretty, "/home/user/pouch/inject/global.js");
    assert_eq!(pretty_path("/a/../b", None), "/b");
}

#[test]
fn user_data_kind_name_matches_slot() {
    assert_eq!(UserDataKind::Inject.name(), "inject");
    assert_eq!(UserDataKind::Overrides.name(), "overrides");
    assert_eq!(UserDataKind::Config.name(), "hook.conf.toml");
}

#[test]
fn user_data_path_dev_points_into_repo_root() {
    for (kind, name) in [
        (UserDataKind::Inject, "inject"),
        (UserDataKind::Overrides, "overrides"),
        (UserDataKind::Config, "hook.conf.toml"),
    ] {
        let got = user_data_path(kind, &dev("/repo/src-tauri")).expect("dev path is always Some");
        assert_eq!(got, format!("/repo/src-tauri/../{name}"));
    }
}

#[test]
fn user_data_dir_matches_user_data_path() {
    for kind in [UserDataKind::Inject, UserDataKind::Overrides, UserDataKind::Config] {
        assert_eq!(user_data_dir(kind, &dev("/r")), user_data_path(kind, &dev("/r")));
    }
}

#[test]
fn macos_app_support_dir_behaviour() {
    let dir = macos_app_support_dir(Some("/Users/testuser")).expect("HOME is set");
    assert!(dir.ends_with("/Library/Application Support/Pouch"), "got {dir}");
    assert!(
        dir.split('/').any(|c| c == "Application Support"),
        "expected 'Application Support' as a single component, got {dir}"
    );
    assert!(macos_app_support_dir(None).is_none());
}

#[test]
fn data_directories() {
    assert_eq!(windows_appdata_dir(Some("/a")).as_deref(), Some("/a/Pouch"));
    assert_eq!(windows_appdata_dir(None), None);
    let platform = DataRoots { dev: None, platform: Some("/p".to_string()), exe: Some("/e".to_string()) };
    assert_eq!(data_root(&platform).as_deref(), Some("/p"));
    let portable = DataRoots { dev: None, platform: None, exe: Some("/e".to_string()) };
    assert_eq!(data_root(&portable).as_deref(), Some("/e"));
    let none = DataRoots { dev: None, platform: None, exe: None };
    assert_eq!(data_root(&none), None);
    assert_eq!(user_data_path(UserDataKind::Config, &none), None);
}

#[test]
fn paths_are_joined() {
    assert_eq!(join_path("/a", "b"), "/a/b");
    assert_eq!(join_path("/a/", "b"), "/a/b");
    assert_eq!(join_path("/a", "/b"), "/b");
    assert_eq!(join_path("", "b"), "b");
    assert_eq!(join_path("/a", ""), "/a/");
}

#[test]
fn a_normal_path_is_stable() {
    for path in ["/a/b", "../x", ".", "/", "a/../../b", "//a///b/", "./a/.", "/a/../.."] {
        let once = lexical_normalize(path);
        assert_eq!(lexical_normalize(&once), once);
        assert_eq!(once.starts_with('/'), path.starts_with('/'));
        assert!(!once.is_empty());
        assert!(once == "." || !once.split('/').any(|name| name == "."));
    }
    assert_eq!(lexical_normalize("//a///b/"), "/a/b");
}

fn named(names: &[&str]) -> Vec<PathComponent> {
    names
        .iter()
        .map(|name| match *name {
            "/" => PathComponent::RootDir,
            "." => PathComponent::CurDir,
            ".." => PathComponent::ParentDir,
            drive if drive.ends_with(':') => PathComponent::Prefix(drive.to_string()),
            name => PathComponent::Normal(name.to_string()),
        })
        .collect()
}

#[test]
fn components_are_taken_relative_to_the_working_directory() {
    let cases: [(&[&str], &[&str]); 6] = [
        (&["x", "..", "y"], &["C:", "/", "a", "y"]),
        (&["/", "x"], &["C:", "/", "x"]),
        (&["D:", "/", "x", "..", ".."], &["D:", "/"]),
        (&["D:", "x"], &["D:", "x"]),
        (&["..", "..", ".."], &["C:", "/"]),
        (&["."], &["C:", "/", "a"]),
    ];
    for (path, shown) in cases {
        let got = pretty_components(named(path), Some(named(&["C:", "/", "a"])));
        assert!(same_components(&got, &named(shown)), "{got:?}");
    }
    let bare = pretty_components(named(&["a", ".."]), None);
    assert!(same_components(&bare, &named(&["."])), "{bare:?}");
    assert!(!same_components(&named(&["C:", "a"]), &named(&["D:", "a"])));
    assert!(!same_components(&named(&["a"]), &named(&["a", "b"])));
}

#[test]
fn a_drive_stays_in_front() {
    let parts = normalize_components(vec![
        PathComponent::Prefix("C:".to_string()),
        PathComponent::RootDir,
        PathComponent::ParentDir,
        PathComponent::Normal("a".to_string()),
        PathComponent::CurDir,
        PathComponent::Normal("b".to_string()),
        PathComponent::ParentDir,
    ]);
    assert_eq!(format!("{parts:?}"), "[Prefix(\"C:\"), RootDir, Normal(\"a\")]");
}
