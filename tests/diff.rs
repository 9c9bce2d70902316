use sw_assistant::diff::{
    apply_diff_to_content, clean_generated_code, generate_unified_diff, parse_diff_target_files, parse_hunk_header, parse_usize,
};

#[test]
fn diff_of_modified_file() {
    let d = generate_unified_diff("a\nb\n", "a\nc\n", "f.txt");
    assert_eq!(d, "--- a/f.txt\n+++ b/f.txt\n@@ -1,2 +1,2 @@\n-a\n-b\n+a\n+c\n");
}

#[test]
fn diff_of_new_and_deleted_file() {
    assert_eq!(generate_unified_diff("", "x\n", "n"), "--- a/n\n+++ b/n\n@@ -0,0 +1,1 @@\n+x\n");
    assert_eq!(generate_unified_diff("x\ny", "", "n"), "--- a/n\n+++ b/n\n@@ -1,2 +0,0 @@\n-x\n-y\n");
    assert_eq!(generate_unified_diff("", "", "n"), "--- a/n\n+++ b/n\n");
}

#[test]
fn diff_with_many_lines_counts_in_decimal() {
    let new: String = (0..12).map(|i| format!("l{}\n", i)).collect();
    let d = generate_unified_diff("", &new, "f");
    assert!(d.starts_with("--- a/f\n+++ b/f\n@@ -0,0 +1,12 @@\n+l0\n"));
}

#[test]
fn apply_removes_and_appends() {
    let diff = "--- a/f\n+++ b/f\n@@ -1,2 +1,2 @@\n-b\n+c\n";
    assert_eq!(apply_diff_to_content("a\nb\nb", diff), "a\nb\nc");
    assert_eq!(apply_diff_to_content("", "+x\n+y"), "x\ny");
}

#[test]
fn fences_are_stripped() {
    assert_eq!(clean_generated_code("```rust\nfn main() {}\n```"), "fn main() {}");
    assert_eq!(clean_generated_code("plain\ntext"), "plain\ntext");
    assert_eq!(clean_generated_code("  ```\nx\n  ```  \n"), "x");
}

#[test]
fn diff_targets() {
    let d = "--- a/foo\n+++ b/foo\n@@\n+++   src/x.rs\n+++ /dev/null\n+++ b/\n";
    assert_eq!(parse_diff_target_files(d), vec!["foo", "src/x.rs"]);
}

#[test]
fn hunk_headers() {
    let h = parse_hunk_header("@@ -1,4 +2,5 @@").unwrap();
    assert_eq!((h.old_start, h.old_count, h.new_start, h.new_count), (1, 4, 2, 5));
    let h = parse_hunk_header("@@   -7 +9,0   @@").unwrap();
    assert_eq!((h.old_start, h.old_count, h.new_start, h.new_count), (7, 1, 9, 0));
    assert!(parse_hunk_header("@@").is_none());
    assert!(parse_hunk_header("@@ -1,4 @@").is_none());
    assert!(parse_hunk_header("@@ +1 -1 @@").is_none());
    assert!(parse_hunk_header("@@ -x +1 @@").is_none());
    assert!(parse_hunk_header("@@ -1 +1 @@ trailing").is_none());
}

#[test]
fn unsigned_numbers() {
    let cs = |s: &str| s.chars().collect::<Vec<char>>();
    assert_eq!(parse_usize(&cs("42")), Some(42));
    assert_eq!(parse_usize(&cs("+7")), Some(7));
    assert_eq!(parse_usize(&cs("")), None);
    assert_eq!(parse_usize(&cs("+")), None);
    assert_eq!(parse_usize(&cs("4a")), None);
    assert_eq!(parse_usize(&cs("18446744073709551615")), Some(usize::MAX));
    assert_eq!(parse_usize(&cs("18446744073709551616")), None);
}
