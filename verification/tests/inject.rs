//! Scripts that are injected into pages.
use std::io::{Read, Seek, SeekFrom, Write};

use pouch::inject::{
    build_dispatcher_js, parse_frontmatter, resolve_inject_dir, scan_inject_dir, sort_by_path,
    InjectRule, MatchPattern, ScriptFile, DISPATCHER_HEAD, DISPATCHER_TAIL,
};
use pouch::util::DataRoots;

fn file(path: &str, content: &str) -> ScriptFile {
    ScriptFile { path: path.to_string(), content: Some(content.to_string()) }
}

const PLAIN: &str = "// ==UserScript==\n// @match *\n// ==/UserScript==\n";

#[test]
fn parse_frontmatter_minimal() {
    let src = "// ==UserScript==\n// @match https://example.com/*\n// ==/UserScript==\n";
    let (name, patterns) = parse_frontmatter(src).expect("should parse");
    assert!(name.is_none());
    assert_eq!(patterns.len(), 1);
    assert_eq!(patterns[0], MatchPattern::Glob("https://example.com/*".into()));
}

#[test]
fn parse_frontmatter_with_name_and_multiple_match() {
    let src = "\
// ==UserScript==
// @name leelib
// @match https://www.leelib.com/*
// @match https://blog.leelib.com/*
// ==/UserScript==
console.log('body');
";
    let (name, patterns) = parse_frontmatter(src).expect("should parse");
    assert_eq!(name.as_deref(), Some("leelib"));
    assert_eq!(patterns.len(), 2);
}

#[test]
fn parse_frontmatter_regex_prefix() {
    let src = "// ==UserScript==\n// @match regex:^https://(api|cdn)\\.x\\.com/\n// ==/UserScript==";
    let (_, patterns) = parse_frontmatter(src).expect("should parse");
    assert_eq!(patterns[0], MatchPattern::Regex("^https://(api|cdn)\\.x\\.com/".into()));
}

#[test]
fn a_header_that_is_never_closed_is_none() {
    assert_eq!(parse_frontmatter("// ==UserScript==\n// @match *\nconsole.log(1);\n"), None);
    assert_eq!(parse_frontmatter("// ==UserScript==\n// @match *\n// ==/UserScript== \n"), None);
    let closed = parse_frontmatter("// ==UserScript==\n// @match *\n  // ==/UserScript==\nconsole.log(1);\n");
    assert_eq!(closed, Some((None, vec![MatchPattern::Glob("*".into())])));
    let rules = scan_inject_dir(vec![
        file("open.js", "// ==UserScript==\n// @match *\n// @match b\n"),
        file("closed.js", PLAIN),
    ]);
    assert_eq!(rules.len(), 1);
    assert_eq!(rules[0].name, "closed");
}

#[test]
fn parse_frontmatter_ignores_unknown_fields() {
    let src = "\
// ==UserScript==
// @name demo
// @grant   none
// @run-at  document-start
// @version 1.0
// @match   https://example.com/*
// @noframes
// ==/UserScript==
";
    let (name, patterns) = parse_frontmatter(src).expect("should parse");
    assert_eq!(name.as_deref(), Some("demo"));
    assert_eq!(patterns.len(), 1);
}

#[test]
fn parse_frontmatter_no_match_returns_none() {
    let src = "// ==UserScript==\n// @name lonely\n// ==/UserScript==";
    assert!(parse_frontmatter(src).is_none());
}

#[test]
fn parse_frontmatter_no_block_returns_none() {
    assert!(parse_frontmatter("console.log('hi');").is_none());
    assert!(parse_frontmatter("// @match https://example.com/*\n").is_none());
}

#[test]
fn parse_frontmatter_stops_at_end_marker() {
    let src = "\
// ==UserScript==
// @match https://example.com/*
// ==/UserScript==
// @match https://malicious.example/*
";
    let (_, patterns) = parse_frontmatter(src).expect("should parse");
    assert_eq!(patterns.len(), 1);
    assert_eq!(patterns[0], MatchPattern::Glob("https://example.com/*".into()));
}

#[test]
fn build_dispatcher_js_returns_none_for_empty_rules() {
    assert!(build_dispatcher_js(&[]).is_none());
}

#[test]
fn build_dispatcher_js_embeds_strings_safely() {
    let rule = InjectRule {
        name: "weird\"name\\".into(),
        patterns: vec![MatchPattern::Glob("https://*/path?q=\"x\"".into())],
        code: "var s = \"line1\\n\"; // backtick`\nconsole.log('\u{1F600}');".into(),
    };
    let js = build_dispatcher_js(&[rule]).expect("should produce dispatcher");
    assert!(js.contains("(function()"));
    assert!(js.contains("new Function(rule.code)"));
    assert!(js.contains("\\\""));
    assert!(js.contains("\\\\"));
    assert!(js.contains("\"glob\""));
}

#[test]
fn scan_inject_dir_does_not_panic_and_rules_have_patterns() {
    let files = vec![
        file("b.js", PLAIN),
        file("a.js", "no header"),
        file("a.txt", PLAIN),
        ScriptFile { path: "c.js".to_string(), content: None },
    ];
    let v = scan_inject_dir(files);
    assert_eq!(v.len(), 1);
    for rule in &v {
        assert!(!rule.patterns.is_empty(), "rule {:?} has no patterns", rule.name);
    }
}

#[test]
fn parse_frontmatter_from_real_file_in_tempdir() {
    let body = "\
// ==UserScript==
// @name tempdir-rule
// @match *
// ==/UserScript==
console.log('hi');
";
    let mut f = tempfile::tempfile().expect("tempfile");
    f.write_all(body.as_bytes()).unwrap();
    f.seek(SeekFrom::Start(0)).unwrap();
    let mut content = String::new();
    f.read_to_string(&mut content).unwrap();
    let (name, patterns) = parse_frontmatter(&content).expect("should parse");
    assert_eq!(name.as_deref(), Some("tempdir-rule"));
    assert_eq!(patterns, vec![MatchPattern::Glob("*".into())]);
}

#[test]
fn header_lines_may_be_indented_and_end_in_cr() {
    let src = "x\r\n  // ==UserScript==\r\n\t// @name   two words \r\n  // @match  * \r\n  // ==/UserScript==\r\n";
    let (name, patterns) = parse_frontmatter(src).expect("should parse");
    assert_eq!(name.as_deref(), Some("two words"));
    assert_eq!(patterns, vec![MatchPattern::Glob("*".into())]);
}

#[test]
fn rules_come_in_the_order_of_their_paths() {
    let files = vec![file("sub/a.js", PLAIN), file("z.js", PLAIN), file("b.js", PLAIN)];
    let names: Vec<String> = scan_inject_dir(files).into_iter().map(|r| r.name).collect();
    assert_eq!(names, vec!["b", "a", "z"]);
    let sorted = sort_by_path(vec![file("a.b/x", ""), file("a/x", "")]);
    assert_eq!(sorted[0].path, "a/x");
}

#[test]
fn a_rule_is_the_whole_file_under_its_name() {
    let named = "// ==UserScript==\n// @name n\n// @match a\n// @match regex:b\n// ==/UserScript==\nrun();";
    let rules = scan_inject_dir(vec![file("dir/my.rule.js", PLAIN), file("x.js", named)]);
    assert_eq!(rules[0].name, "my.rule");
    assert_eq!(rules[0].code, PLAIN);
    assert_eq!(rules[1].name, "n");
    assert_eq!(
        rules[1].patterns,
        vec![MatchPattern::Glob("a".to_string()), MatchPattern::Regex("b".to_string())]
    );
}

#[test]
fn the_dispatcher_is_written_exactly() {
    let rules = vec![InjectRule {
        name: "n".to_string(),
        patterns: vec![MatchPattern::Glob("*".to_string()), MatchPattern::Regex("a\\b".to_string())],
        code: "1\n\u{1}\u{7f}".to_string(),
    }];
    let middle = "{name:\"n\",patterns:[{kind:\"glob\",value:\"*\"},{kind:\"regex\",value:\"a\\\\b\"},],code:\"1\\n\\u0001\u{7f}\"},";
    assert_eq!(
        build_dispatcher_js(&rules),
        Some(format!("{DISPATCHER_HEAD}{middle}{DISPATCHER_TAIL}"))
    );
}

#[test]
fn embedded_texts_are_json() {
    let code: String = (0u32..0x3000).filter_map(char::from_u32).collect();
    let rule = InjectRule { name: String::new(), patterns: Vec::new(), code: code.clone() };
    let js = build_dispatcher_js(&[rule]).unwrap();
    assert!(js.contains(&serde_json::to_string(&code).unwrap()));
}

#[test]
fn the_script_directory_is_found() {
    let roots = DataRoots { dev: None, platform: Some("/data".to_string()), exe: None };
    assert_eq!(resolve_inject_dir(&roots, true, true).as_deref(), Some("/data/inject"));
    assert_eq!(resolve_inject_dir(&roots, false, true).as_deref(), Some("inject"));
    assert_eq!(resolve_inject_dir(&roots, false, false), None);
    let none = DataRoots { dev: None, platform: None, exe: None };
    assert_eq!(resolve_inject_dir(&none, true, false), None);
}
