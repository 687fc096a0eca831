use agent_codemap::scanner::{compare_paths, output_path, relative_path, sort_paths};
use core::cmp::Ordering;

#[test]
fn test_relative_path_single_file() {
    let rel = relative_path("/tmp/main.rs", true, "/tmp/main.rs");
    assert_eq!(rel, "main.rs");
}

#[test]
fn test_relative_path_directory() {
    let rel = relative_path("/tmp", false, "/tmp/src/lib.rs");
    assert_eq!(rel, "src/lib.rs");
}

#[test]
fn test_relative_path_outside_base_is_unchanged() {
    let rel = relative_path("/tmp", false, "/elsewhere/x.rs");
    assert_eq!(rel, "/elsewhere/x.rs");
}

#[test]
fn test_output_path_mirrors_relative_path() {
    let out = output_path("/in", "/in/a/b.rs", "/out");
    assert_eq!(out, "/out/a/b.rs.md");
}

#[test]
fn test_compare_paths_dirs_before_files() {
    // a path that still descends at a level precedes one that ends there
    assert_eq!(compare_paths("/t/sub/m.rs", "/t/a.rs", "/t"), Ordering::Less);
    assert_eq!(compare_paths("/t/a.rs", "/t/sub/m.rs", "/t"), Ordering::Greater);
}

#[test]
fn test_compare_paths_lexicographic_names() {
    assert_eq!(compare_paths("/t/a.rs", "/t/z.rs", "/t"), Ordering::Less);
    assert_eq!(compare_paths("/t/z.rs", "/t/a.rs", "/t"), Ordering::Greater);
    assert_eq!(compare_paths("/t/a.rs", "/t/a.rs", "/t"), Ordering::Equal);
}

#[test]
fn test_sort_paths_scan_order() {
    let files = vec![
        "/t/z.rs".to_string(),
        "/t/a.rs".to_string(),
        "/t/sub/m.rs".to_string(),
    ];
    let sorted = sort_paths(files, "/t");
    assert_eq!(sorted, vec!["/t/sub/m.rs", "/t/a.rs", "/t/z.rs"]);
}
