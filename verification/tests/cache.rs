//! The cache: keys, policy, files.
use std::hash::{Hash, Hasher};

use pouch::cache_store::{
    append_qs_marker, body_path, cache_key_from_url, cache_root, clear_all, clear_host, clear_url,
    decode_key, entry_paths, ignore_not_found, read, short_query_hash, should_cache, sidecar_path,
    CacheKeyError, CachePolicy, ClearAction, FileContent, IoFailure, Metadata,
};
use pouch::util::DataRoots;

fn meta_for(url: &str) -> Metadata {
    Metadata {
        original_url: url.to_string(),
        content_type: Some("text/plain".to_string()),
        etag: Some("\"abc\"".to_string()),
        last_modified: Some("Wed, 01 Jan 2025 00:00:00 GMT".to_string()),
        saved_at: "2026-05-06T12:00:00Z".to_string(),
        forwarded_headers: Vec::new(),
    }
}

/// A file system in which the plans are carried out.
struct Disk {
    files: Vec<(String, FileContent)>,
}

impl Disk {
    fn new() -> Disk {
        Disk { files: Vec::new() }
    }

    fn put(&mut self, path: String, content: FileContent) {
        self.files.retain(|(p, _)| *p != path);
        self.files.push((path, content));
    }

    fn write(&mut self, key: &str, body: &[u8], meta: &Metadata) {
        let plan = pouch::cache_store::write("/root", key, body.to_vec(), meta.clone());
        self.put(plan.body_path, plan.body);
        self.put(plan.sidecar_path, plan.sidecar);
    }

    fn has(&self, path: &str) -> bool {
        self.files.iter().any(|(p, _)| p == path)
    }

    fn read(&self, key: &str) -> Option<(Vec<u8>, Metadata)> {
        let paths = entry_paths("/root", key);
        let mut body = None;
        let mut sidecar = None;
        for (path, content) in &self.files {
            if *path == paths.body {
                if let FileContent::Body(bytes) = content {
                    body = Some(bytes.clone());
                }
            }
            if *path == paths.sidecar {
                if let FileContent::Sidecar(meta) = content {
                    sidecar = Some(meta.clone());
                }
            }
        }
        read(body, sidecar)
    }

    fn clear(&mut self, key: &str) {
        let paths = clear_url("/root", key);
        self.files.retain(|(p, _)| *p != paths.body && *p != paths.sidecar);
    }
}

#[test]
fn write_and_read_round_trip() {
    let mut disk = Disk::new();
    let meta = meta_for("https://example.com/a.txt");
    disk.write("example.com/a.txt", b"hello world", &meta);
    assert!(disk.has("/root/example.com/a.txt"));
    assert!(disk.has("/root/example.com/a.txt.meta.json"));
    let (body, got) = disk.read("example.com/a.txt").unwrap();
    assert_eq!(body, b"hello world");
    assert_eq!(got, meta);
}

#[test]
fn read_of_a_missing_key_is_none() {
    let disk = Disk::new();
    assert!(disk.read("example.com/missing").is_none());
}

#[test]
fn read_without_sidecar_is_none() {
    let mut disk = Disk::new();
    disk.put("/root/example.com/orphan.txt".to_string(), FileContent::Body(b"x".to_vec()));
    assert!(disk.read("example.com/orphan.txt").is_none());
    assert!(read(None, Some(meta_for("u"))).is_none());
    assert!(read(None, None).is_none());
}

#[test]
fn cleared_entry_is_gone() {
    let mut disk = Disk::new();
    let meta = meta_for("https://example.com/b.txt");
    disk.write("example.com/b.txt", b"data", &meta);
    disk.write("example.com/c.txt", b"kept", &meta);
    disk.clear("example.com/b.txt");
    assert!(!disk.has("/root/example.com/b.txt"));
    assert!(!disk.has("/root/example.com/b.txt.meta.json"));
    assert!(disk.read("example.com/b.txt").is_none());
    assert_eq!(disk.read("example.com/c.txt").unwrap().0, b"kept");
    disk.clear("example.com/b.txt");
}

#[test]
fn an_edited_file_is_served() {
    let mut disk = Disk::new();
    let meta = meta_for("https://example.com/b.js");
    disk.write("example.com/b.js", b"old", &meta);
    disk.put("/root/example.com/b.js".to_string(), FileContent::Body(b"new".to_vec()));
    assert_eq!(disk.read("example.com/b.js").unwrap(), (b"new".to_vec(), meta));
    disk.files.retain(|(p, _)| p != "/root/example.com/b.js");
    assert!(disk.read("example.com/b.js").is_none());
}

#[test]
fn write_leaves_other_entries() {
    let mut disk = Disk::new();
    disk.write("h/a", b"1", &meta_for("https://h/a"));
    disk.write("h/b", b"2", &meta_for("https://h/b"));
    assert_eq!(disk.read("h/a").unwrap().0, b"1");
    assert_eq!(disk.read("h/a").unwrap().1.original_url, "https://h/a");
    assert_eq!(disk.read("h/b").unwrap().0, b"2");
}

#[test]
fn host_and_whole_cache_are_cleared() {
    assert_eq!(clear_host("/root", "example.com"), "/root/example.com");
    assert_eq!(clear_all(".gitkeep", false), ClearAction::Keep);
    assert_eq!(clear_all("example.com", true), ClearAction::RemoveTree);
    assert_eq!(clear_all("stray.txt", false), ClearAction::RemoveFile);
}

#[test]
fn the_cache_lies_where_the_setting_says() {
    let roots = DataRoots { dev: None, platform: Some("/data".to_string()), exe: None };
    assert_eq!(cache_root(Some("/tmp/c"), &roots), "/tmp/c");
    assert_eq!(cache_root(None, &roots), "/data/overrides");
    let none = DataRoots { dev: None, platform: None, exe: None };
    assert_eq!(cache_root(None, &none), "overrides");
}

#[test]
fn a_missing_file_is_no_failure() {
    assert_eq!(ignore_not_found(Ok(())), Ok(()));
    assert_eq!(ignore_not_found(Err(IoFailure::NotFound)), Ok(()));
    assert_eq!(ignore_not_found(Err(IoFailure::Other)), Err(IoFailure::Other));
}

#[test]
fn key_is_host_and_path() {
    assert_eq!(cache_key_from_url("https://example.com/static/a.png").unwrap(), "example.com/static/a.png");
    assert_eq!(cache_key_from_url("http://example.com/static/a.png").unwrap(), "example.com/static/a.png");
    assert_eq!(cache_key_from_url("https://example.com/").unwrap(), "example.com/index.html");
    assert_eq!(cache_key_from_url("https://example.com/path/").unwrap(), "example.com/path/index.html");
    assert_eq!(cache_key_from_url("https://x.com/a").unwrap(), "x.com/a");
    assert_eq!(cache_key_from_url("https://x.com/foo.js").unwrap(), "x.com/foo.js");
    assert_eq!(cache_key_from_url("https://x.com/path/bar.css").unwrap(), "x.com/path/bar.css");
}

#[test]
fn query_is_marked_in_the_key() {
    let k1 = cache_key_from_url("https://x.com/foo.js?v=1").unwrap();
    let k2 = cache_key_from_url("https://x.com/foo.js?v=2").unwrap();
    assert!(k1.starts_with("x.com/foo.js.__qs_"), "k1 was {k1}");
    assert!(k1.ends_with("__.js"), "k1 was {k1}");
    assert!(k2.starts_with("x.com/foo.js.__qs_"), "k2 was {k2}");
    assert!(k2.ends_with("__.js"), "k2 was {k2}");
    assert_ne!(k1, k2, "different queries must yield different keys");

    let nested = cache_key_from_url("https://x.com/path/bar.css?v=1").unwrap();
    assert!(nested.starts_with("x.com/path/bar.css.__qs_"), "nested was {nested}");
    assert!(nested.ends_with("__.css"), "nested was {nested}");

    let hidden = cache_key_from_url("https://x.com/.htaccess?v=1").unwrap();
    assert!(hidden.starts_with("x.com/.htaccess.__qs_"), "hidden was {hidden}");
    assert!(hidden.ends_with("__"), "hidden was {hidden}");
    assert!(!hidden.ends_with(".htaccess"), "hidden was {hidden}");

    let archive = cache_key_from_url("https://x.com/foo.tar.gz?v=1").unwrap();
    assert!(archive.starts_with("x.com/foo.tar.gz.__qs_"), "archive was {archive}");
    assert!(archive.ends_with("__.gz"), "archive was {archive}");

    let root = cache_key_from_url("https://x.com/?q=1").unwrap();
    assert!(root.starts_with("x.com/index.html.__qs_"), "root was {root}");
    assert!(root.ends_with("__.html"), "root was {root}");
}

#[test]
fn fragment_and_empty_query_do_not_count() {
    assert_eq!(
        cache_key_from_url("https://x.com/foo.js?b=c").unwrap(),
        cache_key_from_url("https://x.com/foo.js?b=c#frag").unwrap(),
    );
    assert_eq!(cache_key_from_url("https://x.com/a?").unwrap(), "x.com/a");
}

#[test]
fn hash_is_that_of_the_default_hasher() {
    for query in ["", "v=1", "v=2", "a=b&c=d", "q=%20ü"] {
        let mut hasher = std::collections::hash_map::DefaultHasher::new();
        query.hash(&mut hasher);
        assert_eq!(short_query_hash(query), format!("{:08x}", hasher.finish() as u32));
        assert_eq!(short_query_hash(query).len(), 8);
    }
}

#[test]
fn marker_stands_behind_the_file_name() {
    assert_eq!(append_qs_marker("h/a.js", "0123abcd"), "h/a.js.__qs_0123abcd__.js");
    assert_eq!(append_qs_marker("h/a", "0123abcd"), "h/a.__qs_0123abcd__");
    assert_eq!(append_qs_marker("h.com/a", "0123abcd"), "h.com/a.__qs_0123abcd__");
    assert_eq!(append_qs_marker("h/.rc", "0123abcd"), "h/.rc.__qs_0123abcd__");
}

#[test]
fn urls_without_a_key_are_refused() {
    assert!(matches!(cache_key_from_url("not a url"), Err(CacheKeyError::Parse(_))));
    assert!(matches!(cache_key_from_url("file:///etc/hosts"), Err(CacheKeyError::MissingHost)));
    let words = url::ParseError::RelativeUrlWithoutBase.to_string();
    assert_eq!(
        CacheKeyError::Parse(url::ParseError::RelativeUrlWithoutBase).message(&words),
        "invalid URL: relative URL without a base"
    );
    assert_eq!(CacheKeyError::MissingHost.message(""), "URL is missing a host component");
}

#[test]
fn cache_control_decides_on_storing() {
    assert_eq!(should_cache(None), CachePolicy::Store);
    assert_eq!(should_cache(Some("public")), CachePolicy::Store);
    assert!(matches!(should_cache(Some("no-store")), CachePolicy::Skip { reason: "no-store" }));
    assert!(matches!(should_cache(Some("private, max-age=300")), CachePolicy::Skip { reason: "private" }));
    assert!(matches!(should_cache(Some("no-cache")), CachePolicy::Skip { reason: "no-cache" }));
    assert!(matches!(should_cache(Some("max-age=0")), CachePolicy::Skip { reason: "max-age=0" }));
    assert!(matches!(should_cache(Some("s-maxage=0")), CachePolicy::Skip { reason: "s-maxage=0" }));
    assert_eq!(should_cache(Some("max-age=300")), CachePolicy::Store);
    assert!(matches!(should_cache(Some("No-Store")), CachePolicy::Skip { reason: "no-store" }));
    assert_eq!(should_cache(Some("")), CachePolicy::Store);
    assert_eq!(should_cache(Some(" PUBLIC ,  Max-Age=0")), should_cache(Some("public,max-age=0")));
}

#[test]
fn keys_are_decoded_before_they_name_files() {
    assert_eq!(decode_key("example.com/p%20q.png"), "example.com/p q.png");
    assert_eq!(decode_key("h/%zz%4"), "h/%zz%4");
    assert_eq!(decode_key("h/%C3%BC"), "h/ü");
    assert_eq!(body_path("/root", "example.com/p%20q.png"), "/root/example.com/p q.png");
    assert_eq!(sidecar_path("/root/h/a.txt"), "/root/h/a.txt.meta.json");
    let mut disk = Disk::new();
    disk.write("example.com/p%20q.png", b"img", &meta_for("https://example.com/p%20q.png"));
    assert!(disk.has("/root/example.com/p q.png"));
    assert!(!disk.has("/root/example.com/p%20q.png"));
    assert_eq!(disk.read("example.com/p%20q.png").unwrap().0, b"img");
}

#[test]
fn forwarded_headers_are_read_back_in_order() {
    let mut disk = Disk::new();
    let mut meta = meta_for("https://api.example.com/data");
    meta.forwarded_headers = vec![
        ("Access-Control-Allow-Origin".to_string(), "https://app.example.com".to_string()),
        ("Cache-Control".to_string(), "max-age=3600".to_string()),
        ("Vary".to_string(), "Accept-Encoding".to_string()),
    ];
    disk.write("api.example.com/data", b"{}", &meta);
    let (_, got) = disk.read("api.example.com/data").unwrap();
    assert_eq!(got.forwarded_headers, meta.forwarded_headers);
}

#[test]
fn metadata_is_empty_by_default() {
    let meta = Metadata::default();
    assert_eq!(meta.original_url, "");
    assert!(meta.content_type.is_none());
    assert!(meta.forwarded_headers.is_empty());
}
