//! Recent URLs and where they are stored.
use pouch::recent_urls;
use pouch::storage::{
    add_recent_url, load_recent_urls, remember, storage_path, WindowState, MAX_RECENT,
};
use pouch::util::DataRoots;

/// The stored value, as the table holds it.
struct Row {
    raw: Option<String>,
}

impl Row {
    fn new() -> Row {
        Row { raw: None }
    }

    fn add(&mut self, url: &str) {
        if let Some(value) = add_recent_url(self.raw.as_deref(), url) {
            self.raw = Some(value);
        }
    }

    fn load(&self) -> Vec<String> {
        load_recent_urls(self.raw.as_deref())
    }
}

fn roots(platform: Option<&str>) -> DataRoots {
    DataRoots { dev: None, platform: platform.map(|s| s.to_string()), exe: None }
}

#[test]
fn recent_url_dedupe_surfaces_existing_entry() {
    let mut row = Row::new();
    row.add("https://a.example/");
    row.add("https://b.example/");
    row.add("https://a.example/");
    assert_eq!(row.load(), vec!["https://a.example/", "https://b.example/"]);
}

#[test]
fn recent_url_truncates_to_max() {
    let mut row = Row::new();
    for i in 0..(MAX_RECENT + 5) {
        row.add(&format!("https://host{i}.example/"));
    }
    let urls = row.load();
    assert_eq!(urls.len(), MAX_RECENT);
    assert_eq!(urls[0], format!("https://host{}.example/", MAX_RECENT + 4));
    assert_eq!(urls[MAX_RECENT - 1], "https://host5.example/");
}

#[test]
fn recent_url_ignores_empty_and_whitespace() {
    let mut row = Row::new();
    row.add("");
    row.add("   ");
    row.add("\t\n");
    assert!(row.load().is_empty());
    assert!(row.raw.is_none());
}

#[test]
fn corrupt_recent_urls_json_falls_back_to_empty() {
    let mut row = Row::new();
    row.raw = Some("{not valid json".to_string());
    assert!(row.load().is_empty());
    row.add("https://a.example/");
    assert_eq!(row.load(), vec!["https://a.example/"]);
}

#[test]
fn recent_url_trims_input_before_dedupe() {
    let mut row = Row::new();
    row.add("https://a.example/");
    row.add("   https://a.example/  ");
    assert_eq!(row.load(), vec!["https://a.example/"]);
}

#[test]
fn the_stored_value_is_a_json_list() {
    assert_eq!(add_recent_url(None, "a\"b\\c\u{1}").as_deref(), Some("[\"a\\\"b\\\\c\\u0001\"]"));
    assert_eq!(add_recent_url(Some("[\"x\"]"), "y").as_deref(), Some("[\"y\",\"x\"]"));
    assert_eq!(load_recent_urls(Some(" [ \"\\u0041\" , \"b\" ] ")), vec!["A", "b"]);
    assert!(load_recent_urls(Some("[1]")).is_empty());
    assert!(load_recent_urls(None).is_empty());
}

#[test]
fn using_the_latest_again_changes_nothing() {
    let urls = vec!["a".to_string(), "b".to_string()];
    assert_eq!(remember(&urls, "a"), urls);
    assert_eq!(remember(&urls, " c "), vec!["c", "a", "b"]);
}

#[test]
fn recent_urls_in_a_file() {
    let value = recent_urls::add_recent_url(Some("[\"x\"]"), "y").unwrap();
    assert_eq!(recent_urls::load_recent_urls(Some(&value)), vec!["y", "x"]);
    assert_eq!(recent_urls::recent_urls_path(&roots(Some("/d"))), "/d/recent_urls.json");
    assert_eq!(recent_urls::recent_urls_path(&roots(None)), "recent_urls.json");
}

#[test]
fn the_table_lies_where_the_setting_says() {
    assert_eq!(storage_path(Some("/x.db"), &roots(Some("/d"))), "/x.db");
    assert_eq!(storage_path(None, &roots(Some("/d"))), "/d/storage.db");
    assert_eq!(storage_path(None, &roots(None)), "storage.db");
    assert_eq!(WindowState::default().width, 0);
}
