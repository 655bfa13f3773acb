use assert_fs::fixture::{FileTouch, PathChild};
use assert_fs::TempDir;
use projectable::ignore_rules::build_override_ignorer;
use projectable::items::Item;
use projectable::path::PathBuf;
use projectable::queue::Queue;
use projectable::tree::Filetree;
use std::path::Path;

fn lib(p: &Path) -> PathBuf {
    PathBuf::from_str(&p.to_string_lossy())
}

/// The entries below `root` that a walk gives, the root left out, as the program walks it.
fn walk(root: &Path, ignore: &Vec<String>, show_hidden: bool) -> Vec<PathBuf> {
    let overrides = build_override_ignorer(&lib(root), ignore).unwrap().into_matcher();
    ignore::WalkBuilder::new(root)
        .overrides(overrides)
        .hidden(!show_hidden)
        .build()
        .filter_map(|entry| entry.ok().map(|entry| entry.into_path()))
        .filter(|entry_path| entry_path != root)
        .map(|p| lib(&p))
        .collect()
}

fn temp_files(names: &[&str]) -> TempDir {
    let temp = TempDir::new().unwrap();
    for name in names {
        temp.child(name).touch().unwrap();
    }
    temp
}

#[test]
fn can_ignore() {
    let temp = temp_files(&["test.txt", "test2.txt"]);
    let walked = walk(temp.path(), &vec!["test2.txt".to_string()], false);
    let filetree = Filetree::from_paths(lib(temp.path()), &walked, Queue::new());

    assert_eq!(1, filetree.listing().items().len());
    assert_eq!(Some("test.txt".to_string()), filetree.listing().items()[0].path().file_name());
}

#[test]
fn can_full_refresh_to_account_for_new_files() {
    let temp = temp_files(&["test.txt", "test2.txt"]);
    let walked = walk(temp.path(), &Vec::new(), false);
    let mut filetree = Filetree::from_paths(lib(temp.path()), &walked, Queue::new());
    temp.child("new.txt").touch().unwrap();

    assert_eq!(2, filetree.listing().len());
    filetree.refresh(&walk(temp.path(), &Vec::new(), false));
    assert_eq!(3, filetree.listing().len());
}

#[test]
fn can_show_hidden_files() {
    let temp = temp_files(&["test.txt", ".test2.txt"]);
    let walked = walk(temp.path(), &Vec::new(), false);
    let mut filetree = Filetree::from_paths(lib(temp.path()), &walked, Queue::new());

    assert_eq!(1, filetree.listing().len());
    filetree.toggle_dotfiles(&walk(temp.path(), &Vec::new(), !filetree.showing_hidden()));
    assert!(filetree.listing().items().contains(&&Item::File(lib(&temp.path().join(".test2.txt")))));
    assert_eq!(2, filetree.listing().len());
}

#[test]
fn toggles_hidden_files() {
    let temp = temp_files(&["test.txt", ".test2.txt"]);
    let walked = walk(temp.path(), &Vec::new(), false);
    let mut filetree = Filetree::from_paths(lib(temp.path()), &walked, Queue::new());

    assert_eq!(1, filetree.listing().len());
    filetree.toggle_dotfiles(&walk(temp.path(), &Vec::new(), !filetree.showing_hidden()));
    assert_eq!(2, filetree.listing().len());
    filetree.toggle_dotfiles(&walk(temp.path(), &Vec::new(), !filetree.showing_hidden()));
    assert_eq!(vec![&Item::File(lib(&temp.path().join("test.txt")))], filetree.listing().items());
}

#[test]
fn can_show_hidden_on_initialization() {
    let temp = temp_files(&["test.txt", ".test2.txt"]);
    let show_hidden_by_default = true;
    let walked = walk(temp.path(), &Vec::new(), show_hidden_by_default);
    let filetree = Filetree::from_paths(lib(temp.path()), &walked, Queue::new());

    assert_eq!(2, filetree.listing().len());
}
