use assert_fs::prelude::{FileTouch, FileWriteStr, PathChild};
use assert_fs::TempDir;
use projectable::ignore_rules::{build_override_ignorer, combine_verdicts, override_globs, IgnoreBuilder, IgnoreError};
use projectable::path::PathBuf;

fn temp_files(names: &[&str]) -> TempDir {
    let temp = TempDir::new().unwrap();
    for name in names {
        temp.child(name).touch().unwrap();
    }
    temp
}

fn root_of(temp: &TempDir) -> PathBuf {
    PathBuf::from_str(temp.path().to_str().unwrap())
}

fn p(s: &str) -> PathBuf {
    PathBuf::from_str(s)
}

#[test]
fn ignores_nothing_with_no_gitignore() {
    let temp = temp_files(&["test.txt", "test2.txt"]);
    let root = root_of(&temp);
    let ignore = IgnoreBuilder::new(&root).build().unwrap();
    assert!(!ignore.is_ignored(&root.join_str("test.txt")));
    assert!(!ignore.is_ignored(&root.join_str("test2.txt")));
}

#[test]
fn uses_gitignore() {
    let temp = temp_files(&["test.txt", "test2.txt"]);
    temp.child(".gitignore").write_str("/test2.txt").unwrap();
    let ignore = IgnoreBuilder::new(&root_of(&temp)).build().unwrap();
    assert!(!ignore.is_ignored(&p("test.txt")));
    assert!(ignore.is_ignored(&p("test2.txt")));
}

#[test]
fn can_add_ignored_files() {
    let temp = temp_files(&["test.txt", "test2.txt"]);
    let ignore = IgnoreBuilder::new(&root_of(&temp))
        .ignore(&vec!["test.txt".to_owned()])
        .build()
        .unwrap();
    assert!(ignore.is_ignored(&p("test.txt")));
    assert!(!ignore.is_ignored(&p("test2.txt")));
}

#[test]
fn can_opt_out_of_gitignore() {
    let temp = temp_files(&["test.txt", "test2.txt"]);
    temp.child(".gitignore").write_str("/test2.txt").unwrap();
    let ignore = IgnoreBuilder::new(&root_of(&temp))
        .use_gitignore(false)
        .build()
        .unwrap();
    assert!(!ignore.is_ignored(&p("test.txt")));
    assert!(!ignore.is_ignored(&p("test2.txt")));
}

#[test]
fn custom_ignored_directories_are_recursively_ignored() {
    let temp = temp_files(&["test.txt", "test/test.txt"]);
    let ignore = IgnoreBuilder::new(&root_of(&temp))
        .ignore(&vec!["test".to_owned()])
        .build()
        .unwrap();
    assert!(ignore.is_ignored(&p("test")));
    assert!(ignore.is_ignored(&p("test/test.txt")));
}

#[test]
fn git_directory_is_implictly_ignored() {
    let temp = temp_files(&[".git/git_stuff.txt", "test.txt"]);
    let ignore = IgnoreBuilder::new(&root_of(&temp)).build().unwrap();
    assert!(ignore.is_ignored(&p(".git")));
}

#[test]
fn override_globs_negate_each_pattern_and_its_contents() {
    let globs = override_globs(&vec!["a".to_owned(), "b*".to_owned()]);
    assert_eq!(
        vec!["!a", "!a/**", "!b*", "!b*/**", "!/.git", "!/.git/**"],
        globs
    );
}

#[test]
fn verdicts_combine_by_or() {
    assert!(!combine_verdicts(false, None, None));
    assert!(!combine_verdicts(false, Some(false), Some(false)));
    assert!(combine_verdicts(true, Some(false), None));
    assert!(combine_verdicts(false, Some(true), Some(false)));
    assert!(combine_verdicts(false, None, Some(true)));
}

#[test]
fn a_refused_glob_is_named_in_the_error() {
    let root = PathBuf::from_str("/project");
    let err = build_override_ignorer(&root, &vec!["ok".to_owned(), "a[".to_owned()]).err().unwrap();
    assert_eq!(IgnoreError::Glob("!a[".to_owned()), err);
    let built = IgnoreBuilder::new(&root).use_gitignore(false).ignore(&vec!["a[".to_owned()]).build();
    assert_eq!(IgnoreError::Glob("!a[".to_owned()), built.err().unwrap());
    assert!(build_override_ignorer(&root, &vec!["ok".to_owned()]).is_ok());
}
