use std::path::Path;

use phaneros::ignore_filter::{ignore_walk_step, IgnoreFilter, IgnoreWalkStep};
use tempfile::tempdir;

/// The filter of the vault at `root` whose ignore files hold `contents`,
/// file after file.
fn filter_for(root: &Path, contents: &[&str]) -> IgnoreFilter {
    let lines: Vec<String> = contents.iter().flat_map(|c| c.lines()).map(|l| l.to_string()).collect();
    IgnoreFilter::new(&root.to_string_lossy(), &lines)
}

fn ignored(filter: &IgnoreFilter, path: &Path, is_dir: bool) -> bool {
    filter.check_ignored(&path.to_string_lossy(), is_dir).expect("path under the vault")
}

#[test]
fn test_default_ignore_patterns_without_git() {
    let dir = tempdir().unwrap();
    let filter = filter_for(dir.path(), &[]);

    assert!(ignored(&filter, &dir.path().join(".git"), true));
    assert!(ignored(&filter, &dir.path().join(".DS_Store"), false));
    assert!(ignored(&filter, &dir.path().join("node_modules"), true));
    assert!(ignored(&filter, &dir.path().join("target"), true));
    assert!(ignored(&filter, &dir.path().join(".phaneros"), true));

    assert!(!ignored(&filter, &dir.path().join("src"), true));
    assert!(!ignored(&filter, &dir.path().join("main.rs"), false));
}

#[test]
fn test_custom_phanerosignore_patterns() {
    let dir = tempdir().unwrap();
    let filter = filter_for(dir.path(), &["*.log\nbuild/\nsecret.txt"]);

    assert!(ignored(&filter, &dir.path().join("app.log"), false));
    assert!(ignored(&filter, &dir.path().join("build"), true));
    assert!(ignored(&filter, &dir.path().join("secret.txt"), false));

    assert!(!ignored(&filter, &dir.path().join("app.rs"), false));
}

#[test]
fn test_nested_gitignore_patterns() {
    let dir = tempdir().unwrap();
    let sub_dir = tempfile::Builder::new().prefix("subfolder").rand_bytes(0).tempdir_in(dir.path()).unwrap();
    let sub = sub_dir.path().to_path_buf();
    let filter = filter_for(dir.path(), &["*.dist\noutput/"]);

    assert!(ignored(&filter, &sub.join("bundle.dist"), false));
    assert!(ignored(&filter, &sub.join("output"), true));
}

#[test]
fn temp_files_are_ignored_even_outside_the_vault() {
    let dir = tempdir().unwrap();
    let filter = filter_for(dir.path(), &[]);
    assert_eq!(filter.check_ignored("/elsewhere/notes.txt.phaneros-tmp", false), Some(true));
    assert_eq!(filter.check_ignored("/elsewhere/notes.txt", false), Some(false));
}

#[test]
fn a_path_the_matcher_cannot_relativize_is_refused() {
    let filter = IgnoreFilter::new("/vault", &Vec::new());
    assert_eq!(filter.check_ignored("/vault//notes.txt", false), None);
    assert_eq!(filter.check_ignored("/vault/notes.txt", false), Some(false));
    assert_eq!(filter.check_ignored("/vault/target", true), Some(true));
}

#[test]
fn walk_steps() {
    assert_eq!(ignore_walk_step(".git", false, true), IgnoreWalkStep::Skip);
    assert_eq!(ignore_walk_step("target", false, true), IgnoreWalkStep::Skip);
    assert_eq!(ignore_walk_step(".gitignore", true, false), IgnoreWalkStep::Load);
    assert_eq!(ignore_walk_step(".phanerosignore", true, false), IgnoreWalkStep::Load);
    assert_eq!(ignore_walk_step(".gitignore", false, true), IgnoreWalkStep::Descend);
    assert_eq!(ignore_walk_step("docs", false, true), IgnoreWalkStep::Descend);
    assert_eq!(ignore_walk_step("a.txt", true, false), IgnoreWalkStep::Pass);
}

#[test]
fn comments_blank_lines_and_broken_globs_add_nothing() {
    let dir = tempdir().unwrap();
    let filter = filter_for(dir.path(), &["# notes.txt\n\n   \n{broken\n*.tmp\n!keep.tmp"]);
    assert!(!ignored(&filter, &dir.path().join("notes.txt"), false));
    assert!(ignored(&filter, &dir.path().join("scratch.tmp"), false));
    assert!(!ignored(&filter, &dir.path().join("keep.tmp"), false));
    assert!(ignored(&filter, &dir.path().join("target"), true));
}
