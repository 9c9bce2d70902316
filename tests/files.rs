use sw_assistant::files::{
    detect_language_from_path, filename_only, is_ignored_by_git, parse_line_range, path_extension, read_segment, FilePattern,
};

#[test]
fn file_names_and_extensions() {
    assert_eq!(filename_only("src/main.rs"), "main.rs");
    assert_eq!(filename_only("main.rs"), "main.rs");
    assert_eq!(filename_only("dir/.."), "");
    assert_eq!(filename_only("/"), "");
    assert_eq!(filename_only("a/b/"), "b");
    assert_eq!(path_extension("src/lib.rs/"), "rs");
    assert_eq!(path_extension("a/b.tar.gz"), "gz");
    assert_eq!(path_extension("a/.bashrc"), "");
    assert_eq!(path_extension("Makefile"), "");
}

#[test]
fn languages_by_path() {
    assert_eq!(detect_language_from_path("x/y.rs"), "Rust");
    assert_eq!(detect_language_from_path("app.tsx"), "TypeScript");
    assert_eq!(detect_language_from_path("a.go"), "go");
    assert_eq!(detect_language_from_path("README"), "text");
}

#[test]
fn pattern_filters() {
    let p = FilePattern::new().include_extension("rs").include_extension("md").exclude_pattern("test");
    assert!(p.matches("src/lib.rs"));
    assert!(p.matches("README.md"));
    assert!(!p.matches("tests/integration.rs"));
    assert!(!p.matches("package.json"));
    let q = FilePattern::new().exclude_extension("log").include_pattern("src/");
    assert!(q.matches("src/a.txt"));
    assert!(!q.matches("src/a.log"));
    assert!(!q.matches("docs/a.txt"));
    assert!(FilePattern::new().matches("anything"));
}

#[test]
fn ignored_paths() {
    assert!(is_ignored_by_git("proj/node_modules/x/index.js"));
    assert!(is_ignored_by_git("proj/.env"));
    assert!(is_ignored_by_git("target"));
    assert!(!is_ignored_by_git("proj/src/main.rs"));
    assert!(!is_ignored_by_git("proj/app.log"));
}

#[test]
fn line_ranges() {
    assert_eq!(parse_line_range("1:3"), Ok((1, 3)));
    assert_eq!(parse_line_range("2:2"), Ok((2, 2)));
    assert_eq!(parse_line_range("bad"), Err("invalid --range, expected START:END".to_string()));
    assert_eq!(parse_line_range("1:2:3"), Err("invalid --range, expected START:END".to_string()));
    assert_eq!(parse_line_range("x:2"), Err("invalid START".to_string()));
    assert_eq!(parse_line_range("1:"), Err("invalid END".to_string()));
    assert_eq!(parse_line_range("0:2"), Err("invalid range values".to_string()));
    assert_eq!(parse_line_range("3:2"), Err("invalid range values".to_string()));
}

#[test]
fn segments_of_lines() {
    let text = "fn main() {}\nfn other() {}\nlast";
    assert_eq!(read_segment(text, 1, 1), "fn main() {}\n");
    assert_eq!(read_segment(text, 2, 9), "fn other() {}\nlast\n");
    assert_eq!(read_segment(text, 5, 9), "");
}
