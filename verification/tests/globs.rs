use turbo_engine::globs::{entry_reported, file_included, potential_match, should_traverse, WalkType};

#[test]
fn potential_match_cases() {
    let cases: &[(&str, &str, bool)] = &[
        ("/a/b/c/d", "/a/b/c/d", true),
        ("/a", "/a/b/c", true),
        ("/a/b/c/d", "**", true),
        ("/a/b/c", "/b", false),
        ("a", "a/b/**", true),
        ("a/b", "a/**/c/d", true),
        ("/a/b/c", "/a/*/c", true),
        ("/a/b/c/d/e", "/a/**/d/e", true),
        ("/a/b/c/d/e", "/a/**/e", true),
        ("/a/b/c/d/e", "/a/**/*", true),
        ("/a/b/c/d/e", "/a/*/*/d/*", true),
        ("/a/b/c/d/e", "/**/c/d/*", true),
        ("/a/b/c/d/e", "/*/b/**", true),
        ("/a/b/c/d", "/a/b/c/?", true),
        ("/a/b/c/d/e/f", "/a/b/**/e/?", true),
        ("/a/b/c/d/e/f", "/a/*/c/d/*/?", true),
        ("/a/b/c/d", "/a/b/c/?/e", true),
        ("/a/b/c/d/e/f", "/a/b/*/e/f", false),
        ("/a/b/c/d/e", "/a/b/**/e/f/g", true),
        ("/a/b/c/d/e", "/a/b/*/d/z", false),
    ];
    for (path, glob, expected) in cases {
        assert_eq!(potential_match(path, glob), *expected, "{} ~ {}", path, glob);
    }
}

#[test]
fn traversal_and_inclusion() {
    let includes = vec![String::from("src/**")];
    let excludes = vec![String::from("src/vendor/**")];
    assert!(should_traverse("src", &includes, &excludes));
    assert!(!should_traverse("docs", &includes, &excludes));
    assert!(file_included("src/lib.rs", &includes, &excludes));
    assert!(!file_included("src/vendor/x.rs", &includes, &excludes));
    assert!(!file_included("readme.md", &includes, &excludes));
}

#[test]
fn entry_reporting_by_walk_type() {
    let includes = vec![String::from("src/**")];
    let excludes: Vec<String> = vec![];
    assert!(entry_reported(WalkType::Files, true, false, "src/a.rs", &includes, &excludes));
    assert!(!entry_reported(WalkType::Files, false, true, "src", &includes, &excludes));
    assert!(entry_reported(WalkType::Folders, false, true, "anything", &includes, &excludes));
    assert!(entry_reported(WalkType::All, false, true, "src", &includes, &excludes));
    assert!(entry_reported(WalkType::All, true, false, "src/a.rs", &includes, &excludes));
    assert!(!entry_reported(WalkType::All, true, false, "other/a.rs", &includes, &excludes));
}
