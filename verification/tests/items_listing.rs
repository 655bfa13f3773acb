use projectable::items::{sort_items, Item, Items, ItemsIndex};
use projectable::path::PathBuf;

fn p(s: &str) -> PathBuf {
    PathBuf::from_str(s)
}

fn paths(list: &[&str]) -> Vec<PathBuf> {
    list.iter().map(|s| p(s)).collect()
}

fn file(s: &str) -> Item {
    Item::File(p(s))
}

fn dir(s: &str) -> Item {
    Item::Dir(p(s))
}

#[test]
fn can_build_dir_flat() {
    let files = paths(&["/test.txt", "/test2.txt", "/test3.txt"]);
    let items = Items::new(&files);
    assert_eq!(
        vec![file("/test.txt"), file("/test2.txt"), file("/test3.txt")],
        items.items()
    );
}

#[test]
fn can_build_dir_with_directory() {
    let files = paths(&["/test/test.txt", "/test2.txt"]);
    let items = Items::new(&files);
    assert_eq!(
        vec![file("/test2.txt"), dir("/test"), file("/test/test.txt")],
        items.items()
    );
}

#[test]
fn can_build_dir_with_many_nested_directories() {
    let files = paths(&["/test/test/test/test.txt", "/test2.txt"]);
    let items = Items::new(&files);
    assert_eq!(
        vec![
            file("/test2.txt"),
            dir("/test"),
            dir("/test/test"),
            dir("/test/test/test"),
            file("/test/test/test/test.txt"),
        ],
        items.items()
    );
}

#[test]
fn can_build_with_multiple_files_with_same_parent() {
    let files = paths(&["/test.txt", "/test/test.txt", "/test/test2.txt"]);
    let items = Items::new(&files);
    assert_eq!(
        vec![
            file("/test.txt"),
            dir("/test"),
            file("/test/test.txt"),
            file("/test/test2.txt")
        ],
        items.items()
    );
}

#[test]
fn items_are_alphanumerically_ordered() {
    let mut items = vec![file("test2.txt"), file("test1.txt"), file("test99.txt")];
    sort_items(&mut items);
    assert_eq!(
        vec![file("test1.txt"), file("test2.txt"), file("test99.txt")],
        items
    );
}

#[test]
fn items_are_merged_under_parent_directory() {
    let files = paths(&["/test.txt", "/test/test.txt", "/test2.txt", "/test/test2.txt"]);
    let items = Items::new(&files);
    assert_eq!(
        vec![
            file("/test.txt"),
            file("/test2.txt"),
            dir("/test"),
            file("/test/test.txt"),
            file("/test/test2.txt"),
        ],
        items.items()
    );
}

#[test]
fn dirs_when_building_are_properly_handled() {
    let files = paths(&["/test", "/test/test.txt", "/test2.txt"]);
    let items = Items::new(&files);
    assert_eq!(
        vec![file("/test2.txt"), dir("/test"), file("/test/test.txt")],
        items.items()
    );
}

#[test]
fn dirs_when_building_are_properly_handled_in_both_directions() {
    let files = paths(&["/test/test.txt", "/test", "/test2.txt"]);
    let items = Items::new(&files);
    assert_eq!(
        vec![file("/test2.txt"), dir("/test"), file("/test/test.txt")],
        items.items()
    );
}

#[test]
fn dirs_when_building_are_properly_handled_in_any_level_of_nesting() {
    let files = paths(&["/test/test/test/test.txt", "/test", "/test2.txt"]);
    let items = Items::new(&files);
    assert_eq!(
        vec![
            file("/test2.txt"),
            dir("/test"),
            dir("/test/test"),
            dir("/test/test/test"),
            file("/test/test/test/test.txt")
        ],
        items.items()
    );
}

#[test]
fn dirs_when_building_are_properly_handled_in_any_level_of_nesting_in_both_directions() {
    let files = paths(&["/test", "/test/test/test/test.txt", "/test2.txt"]);
    let items = Items::new(&files);
    assert_eq!(
        vec![
            file("/test2.txt"),
            dir("/test"),
            dir("/test/test"),
            dir("/test/test/test"),
            file("/test/test/test/test.txt")
        ],
        items.items()
    );
}

#[test]
fn can_iterate_over_items() {
    let mut items = Items::new(&paths(&["/foo", "/bar", "/baz"]));
    assert_eq!(
        vec![&file("/foo"), &file("/bar"), &file("/baz")],
        items.iter().collect::<Vec<_>>()
    );
    for item in items.iter_mut() {
        match item {
            Item::Dir(path) => *path = PathBuf::new(),
            Item::File(path) => *path = PathBuf::new(),
        }
    }
    assert_eq!(
        vec![
            Item::File(PathBuf::new()),
            Item::File(PathBuf::new()),
            Item::File(PathBuf::new()),
        ],
        items.into_items()
    );
}

#[test]
fn can_remove_files() {
    let mut items = Items::new(&paths(&["/root/test.txt", "/root/test2.txt"]));
    assert_eq!(Some(file("/root/test.txt")), items.remove(&ItemsIndex::Number(0)));
    assert_eq!(vec![file("/root/test2.txt")], items.items());
}

#[test]
fn can_remove_directories_and_deletes_all_children() {
    let mut items = Items::new(&paths(&[
        "/root/test.txt",
        "/root/test2.txt",
        "/root/test",
        "/root/test/test.txt",
        "/root/test/test2.txt",
        "/root/test/test3.txt",
    ]));
    assert_eq!(Some(dir("/root/test")), items.remove(&ItemsIndex::Number(2)));
    assert_eq!(vec![file("/root/test.txt"), file("/root/test2.txt")], items.items());
}

#[test]
fn can_remove_directories_and_removes_until_end_if_children_are_at_end() {
    let mut items = Items::new(&paths(&[
        "/root/test.txt",
        "/root/test",
        "/root/test/test.txt",
        "/root/test/test2.txt",
        "/root/test/test3.txt",
    ]));
    assert_eq!(Some(dir("/root/test")), items.remove(&ItemsIndex::Number(1)));
    assert_eq!(vec![file("/root/test.txt")], items.items());
}

#[test]
fn can_remove_single_directory() {
    let mut items = Items::new(&paths(&["/root/test.txt", "/root/test", "/root/test/test.txt"]));
    assert_eq!(Some(dir("/root/test")), items.remove(&ItemsIndex::Number(1)));
    assert_eq!(vec![file("/root/test.txt")], items.items());
}

#[test]
fn can_add_item() {
    let mut items = Items::new(&paths(&["/root/test.txt"]));
    assert_eq!(Some(&file("/root/test2.txt")), items.add(file("/root/test2.txt")));
    assert_eq!(vec![file("/root/test.txt"), file("/root/test2.txt")], items.items())
}

#[test]
fn adding_duplicate_item_does_not_add_and_returns_none() {
    let mut items = Items::new(&paths(&["/root/test.txt"]));
    assert_eq!(None, items.add(file("/root/test.txt")));
    assert_eq!(vec![file("/root/test.txt")], items.items())
}

#[test]
fn can_pass_path_into_remove() {
    let mut items = Items::new(&paths(&["/root/test.txt", "/root/test2.txt"]));
    assert!(items.remove(&ItemsIndex::Path(p("/root/test2.txt"))).is_some());
    assert_eq!(vec![file("/root/test.txt")], items.items())
}

#[test]
fn can_pass_empty_into_items() {
    Items::new(&[]);
}

#[test]
fn can_ignore_certain_globs() {
    let items = Items::new(&paths(&["/root/test.txt", "/root/test2.txt", "/root/foo.txt"]))
        .ignore(&vec!["test*".to_owned()])
        .unwrap();
    assert_eq!(vec![file("/root/foo.txt")], items.items())
}

#[test]
fn removing_a_directory_keeps_the_siblings_that_follow_it() {
    let mut items = Items::new(&paths(&["/root/a/x.txt", "/root/b/y.txt"]));
    assert_eq!(
        vec![dir("/root/a"), file("/root/a/x.txt"), dir("/root/b"), file("/root/b/y.txt")],
        items.items()
    );
    assert_eq!(Some(dir("/root/a")), items.remove(&ItemsIndex::Number(0)));
    assert_eq!(vec![dir("/root/b"), file("/root/b/y.txt")], items.items());
}

#[test]
fn removing_out_of_range_or_unknown_path_changes_nothing() {
    let mut items = Items::new(&paths(&["/root/test.txt"]));
    assert_eq!(None, items.remove(&ItemsIndex::Number(5)));
    assert_eq!(None, items.remove(&ItemsIndex::Path(p("/root/nothere.txt"))));
    assert_eq!(vec![file("/root/test.txt")], items.items());
}

#[test]
fn numbers_are_ordered_by_value() {
    let mut items = vec![file("/a/file10"), file("/a/file9"), file("/a/file1")];
    sort_items(&mut items);
    assert_eq!(vec![file("/a/file1"), file("/a/file9"), file("/a/file10")], items);
}

#[test]
fn root_is_the_common_ancestor() {
    let items = Items::new(&paths(&["/r/a/x.txt", "/r/b/y.txt"]));
    assert_eq!(&p("/r"), items.root());
    let single = Items::new(&paths(&["/r/a/x.txt"]));
    assert_eq!(&p("/r/a"), single.root());
}

#[test]
fn get_finds_by_number_and_path() {
    let mut items = Items::new(&paths(&["/root/a.txt", "/root/b.txt"]));
    assert_eq!(Some(&file("/root/b.txt")), items.get(&ItemsIndex::Number(1)));
    assert_eq!(Some(&file("/root/a.txt")), items.get(&ItemsIndex::Path(p("/root/a.txt"))));
    assert_eq!(None, items.get(&ItemsIndex::Number(2)));
    if let Some(it) = items.get_mut(&ItemsIndex::Number(0)) {
        *it = file("/root/c.txt");
    }
    assert_eq!(vec![file("/root/c.txt"), file("/root/b.txt")], items.items());
}

#[test]
fn without_keeps_the_entries_not_ignored_in_order() {
    let items = Items::new(&paths(&["/root/a.txt", "/root/b.txt", "/root/c.txt"]));
    let kept = items.without(&vec![false, true, false]);
    assert_eq!(vec![file("/root/a.txt"), file("/root/c.txt")], kept.items());
}
