//! The ignore list.
use pouch::hook::ignore_filter::{
    any_matches, compile_entries, host_glob_to_regex, is_ignored, set_matchers, url_glob_to_regex,
    IgnoreEntry, IgnoreMatcher,
};

fn suffix(s: &str) -> IgnoreEntry {
    IgnoreEntry::Suffix { suffix: s.to_string(), comment: None }
}

fn wildcard(s: &str) -> IgnoreEntry {
    IgnoreEntry::Wildcard { wildcard: s.to_string(), comment: None }
}

fn url_wildcard(s: &str) -> IgnoreEntry {
    IgnoreEntry::UrlWildcard { url_wildcard: s.to_string(), comment: None }
}

fn url_regex(s: &str) -> IgnoreEntry {
    IgnoreEntry::UrlRegex { url_regex: s.to_string(), comment: None }
}

fn matcher(entry: IgnoreEntry) -> IgnoreMatcher {
    compile_entries(&[entry]).into_iter().next().expect("compile produced no matcher")
}

fn host_of(url: &str) -> Option<String> {
    url::Url::parse(url).ok().and_then(|u| u.host_str().map(|h| h.to_ascii_lowercase()))
}

fn hits(m: &IgnoreMatcher, url: &str) -> bool {
    m.matches(url, host_of(url).as_deref())
}

#[test]
fn suffix_matches_apex() {
    assert!(hits(&matcher(suffix("gstatic.com")), "https://gstatic.com/x"));
}

#[test]
fn suffix_matches_subdomain() {
    assert!(hits(&matcher(suffix("gstatic.com")), "https://fonts.gstatic.com/x"));
}

#[test]
fn suffix_rejects_substring_prefix() {
    assert!(!hits(&matcher(suffix("gstatic.com")), "https://notgstatic.com/x"));
}

#[test]
fn suffix_rejects_evil_suffix() {
    assert!(!hits(&matcher(suffix("gstatic.com")), "https://gstatic.com.evil/x"));
}

#[test]
fn suffix_matches_with_port() {
    assert!(hits(&matcher(suffix("gstatic.com")), "https://gstatic.com:443/x"));
}

#[test]
fn wildcard_matches_subdomain() {
    assert!(hits(&matcher(wildcard("*.google.com")), "https://x.google.com/y"));
}

#[test]
fn wildcard_strict_excludes_apex() {
    assert!(!hits(&matcher(wildcard("*.google.com")), "https://google.com/y"));
}

#[test]
fn wildcard_middle_label() {
    assert!(hits(&matcher(wildcard("ads.*.com")), "https://ads.foo.com/x"));
}

#[test]
fn wildcard_does_not_cross_dot() {
    assert!(!hits(&matcher(wildcard("ads.*.com")), "https://ads.foo.bar.com/x"));
}

#[test]
fn url_wildcard_matches_path_segment() {
    assert!(hits(&matcher(url_wildcard("https://example.com/api/*")), "https://example.com/api/foo"));
}

#[test]
fn url_wildcard_does_not_cross_slash() {
    assert!(!hits(&matcher(url_wildcard("https://example.com/api/*")), "https://example.com/api/foo/bar"));
}

#[test]
fn url_regex_matches_user_pattern() {
    assert!(hits(&matcher(url_regex("^https://example\\.com/track/.*")), "https://example.com/track/abc"));
}

#[test]
fn patterns_are_anchored_and_escaped() {
    assert_eq!(host_glob_to_regex("*.google.com"), "^[^.]*\\.google\\.com$");
    assert_eq!(url_glob_to_regex("https://a.b/*"), "^https://a\\.b/[^/]*$");
}

#[test]
fn plain_globs_match_themselves_alone() {
    let plain = matcher(url_wildcard("https://a.b/c?d=[e](f)"));
    assert!(hits(&plain, "https://a.b/c?d=[e](f)"));
    assert!(!hits(&plain, "https://a.b/c?d=[e](f)g"));
    assert!(!hits(&plain, "https://axb/c?d=[e](f)"));
}

#[test]
fn a_bad_pattern_is_left_out() {
    let compiled = compile_entries(&[url_regex("("), suffix("a.com"), suffix("")]);
    assert!(any_matches(&compiled, "https://a.com/", Some("a.com")));
    assert!(!any_matches(&compiled, "https://b.com/", Some("b.com")));
    assert!(compile_entries(&[url_regex("(")]).is_empty());
}

#[test]
fn no_rules_ignore_nothing() {
    assert!(!is_ignored(&Vec::new(), "https://example.com/"));
}

#[test]
fn hosts_are_compared_without_case() {
    let mut installed = Vec::new();
    set_matchers(&mut installed, &[suffix("GStatic.com")]);
    assert!(is_ignored(&installed, "https://FONTS.gstatic.COM/x"));
    assert!(!is_ignored(&installed, "not a url"));
    set_matchers(&mut installed, &[]);
    assert!(!is_ignored(&installed, "https://fonts.gstatic.com/x"));
}
