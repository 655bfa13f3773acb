use projectable::dir::{Dir, DirBuilder, DirError, File, Item};
use projectable::path::PathBuf;

fn p(s: &str) -> PathBuf {
    PathBuf::from_str(s)
}

fn file(s: &str) -> Item {
    Item::File(File::new(p(s)))
}

fn dir(s: &str, children: Vec<Item>) -> Item {
    Item::Dir(Dir::new(p(s), children))
}

fn tree(s: &str, children: Vec<Item>) -> Dir {
    Dir::new(p(s), children)
}

/// What the disk holds under `/tmp/t` for the files `test.txt` and `test/test.txt`.
fn disk_with_nested_file() -> Dir {
    tree(
        "/tmp/t",
        vec![dir("/tmp/t/test", vec![file("/tmp/t/test/test.txt")]), file("/tmp/t/test.txt")],
    )
}

#[test]
fn dir_can_build_new_dir() {
    let disk = disk_with_nested_file();
    let built = DirBuilder::new(&p("/tmp/t")).build(&disk);
    assert_eq!(
        tree(
            "/tmp/t",
            vec![dir("/tmp/t/test", vec![file("/tmp/t/test/test.txt")]), file("/tmp/t/test.txt")],
        ),
        built
    );
}

#[test]
fn filetree_can_build_new_dir() {
    let disk = disk_with_nested_file();
    let built = DirBuilder::new(&p("/tmp/t")).build(&disk);
    assert_eq!(disk, built);
}

#[test]
fn dir_can_add_file_to_dir() {
    let mut d = DirBuilder::new(&p("/tmp/t")).build(&tree("/tmp/t", vec![]));
    let f = d.new_file("test.txt");
    assert_eq!(&File::new(p("/tmp/t/test.txt")), f);
}

#[test]
fn filetree_can_add_file_to_dir() {
    let mut d = tree("/tmp/t", vec![]);
    let f = d.new_file("test.txt");
    assert_eq!(&File::new(p("/tmp/t/test.txt")), f);
    assert_eq!(1, d.len());
}

#[test]
fn dir_can_remove_file() {
    let mut d = tree("/tmp/t", vec![file("/tmp/t/test.txt")]);
    let removed = d.remove_child(0);
    assert_eq!(file("/tmp/t/test.txt"), removed);
    assert_eq!(0, d.len());
}

#[test]
fn filetree_can_remove_file() {
    let mut d = tree("/tmp/t", vec![file("/tmp/t/test.txt")]);
    d.remove_child(0);
    assert!(d.child(0).is_none());
}

#[test]
fn dir_can_remove_dir() {
    let mut d = tree("/tmp/t", vec![dir("/tmp/t/test", vec![])]);
    d.remove_child(0);
    assert_eq!(0, d.len());
}

#[test]
fn dir_can_remove_dir_with_child() {
    let mut d = disk_with_nested_file();
    let removed = d.remove_child(0);
    assert_eq!(dir("/tmp/t/test", vec![file("/tmp/t/test/test.txt")]), removed);
    assert_eq!(1, d.len());
}

#[test]
fn filetree_can_remove_dir_with_child() {
    let mut d = tree("/tmp/t", vec![dir("/tmp/t/test", vec![file("/tmp/t/test/test.txt")])]);
    d.remove_child(0);
    assert_eq!(0, d.len());
}

#[test]
fn dir_dir_can_ignore() {
    let disk = tree("/tmp/t", vec![file("/tmp/t/test.txt"), file("/tmp/t/ignore.txt")]);
    let d = DirBuilder::new(&p("/tmp/t")).ignore(&[p("/tmp/t/ignore.txt")]).build(&disk);
    assert_eq!(tree("/tmp/t", vec![file("/tmp/t/test.txt")]), d);
}

#[test]
fn filetree_dir_can_ignore() {
    let disk = tree("/tmp/t", vec![file("/tmp/t/ignore.txt"), file("/tmp/t/test.txt")]);
    let d = DirBuilder::new(&p("/tmp/t")).ignore(&[p("/tmp/t/ignore.txt")]).build(&disk);
    assert_eq!(1, d.len());
    assert_eq!(&p("/tmp/t/test.txt"), d.child(0).unwrap().path());
}

#[test]
fn dir_can_order_directories_first() {
    let disk = tree(
        "/tmp/t",
        vec![
            dir("/tmp/t/test", vec![file("/tmp/t/test/test.txt")]),
            file("/tmp/t/test.txt"),
            dir("/tmp/t/test2", vec![file("/tmp/t/test2/test.txt")]),
        ],
    );
    let d = DirBuilder::new(&p("/tmp/t")).dirs_first(true).build(&disk);
    assert_eq!(&p("/tmp/t/test.txt"), d.child(d.len() - 1).unwrap().path());
    assert_eq!(&p("/tmp/t/test2"), d.child(0).unwrap().path());
}

#[test]
fn can_only_include_certain_files() {
    let disk = tree(
        "/tmp/t",
        vec![file("/tmp/t/test.txt"), file("/tmp/t/test2.txt"), file("/tmp/t/test3.txt")],
    );
    let d = DirBuilder::new(&p("/tmp/t")).only_include(&[p("/tmp/t/test.txt")]).build(&disk);
    assert_eq!(1, d.iter().len());
    assert_eq!(&p("/tmp/t/test.txt"), d.child(0).unwrap().path());
}

#[test]
fn only_including_a_dir_keeps_children() {
    let disk = tree(
        "/tmp/t",
        vec![
            dir("/tmp/t/test", vec![file("/tmp/t/test/test.txt"), file("/tmp/t/test/test2.txt")]),
            file("/tmp/t/ignore.txt"),
        ],
    );
    let d = DirBuilder::new(&p("/tmp/t")).only_include(&[p("/tmp/t/test")]).build(&disk);
    assert_eq!(1, d.iter().len());
    assert_eq!(&p("/tmp/t/test"), d.child(0).unwrap().path());
    if let Item::Dir(inner) = d.child(0).unwrap() {
        assert_eq!(2, inner.iter().len());
    } else {
        panic!("item should be a dir");
    }
}

#[test]
fn only_including_nested_file_keeps_ancestors() {
    let disk = tree(
        "/tmp/t",
        vec![
            dir(
                "/tmp/t/test",
                vec![dir("/tmp/t/test/keep", vec![file("/tmp/t/test/keep/keep.txt")])],
            ),
            file("/tmp/t/test.txt"),
        ],
    );
    let d = DirBuilder::new(&p("/tmp/t"))
        .only_include(&[p("/tmp/t/test/keep/keep.txt")])
        .build(&disk);
    assert_eq!(1, d.iter().len());
    assert_eq!(&p("/tmp/t/test/keep/keep.txt"), d.nested_child(&[0, 0, 0]).unwrap().path());
}

fn deep_tree() -> Dir {
    tree(
        "/tmp/t",
        vec![dir(
            "/tmp/t/test",
            vec![dir("/tmp/t/test/test", vec![file("/tmp/t/test/test/test.txt")])],
        )],
    )
}

#[test]
fn can_get_location_by_path() {
    let d = deep_tree();
    assert_eq!(Some(vec![0, 0, 0]), d.location_by_path(&p("/tmp/t/test/test/test.txt")));
}

#[test]
fn location_by_path_returns_empty_when_root_path_is_given() {
    let d = tree("/tmp/t", vec![]);
    assert_eq!(Some(Vec::new()), d.location_by_path(&p("/tmp/t")));
}

#[test]
fn location_by_path_returns_dir_when_locating_dir() {
    let d = deep_tree();
    assert_eq!(Some(vec![0, 0]), d.location_by_path(&p("/tmp/t/test/test")));
}

#[test]
fn location_by_path_misses_unknown_paths() {
    let d = deep_tree();
    assert_eq!(None, d.location_by_path(&p("/tmp/t/other")));
}

#[test]
fn removing_by_path_takes_out_nested_item() {
    let mut d = deep_tree();
    let removed = d.remove(&p("/tmp/t/test/test")).unwrap();
    assert_eq!(&p("/tmp/t/test/test"), removed.path());
    assert_eq!(None, d.location_by_path(&p("/tmp/t/test/test")));
    assert_eq!(Some(vec![0]), d.location_by_path(&p("/tmp/t/test")));
}

#[test]
fn removing_unknown_path_is_refused() {
    let mut d = deep_tree();
    assert_eq!(Err(DirError::InvalidTarget), d.remove(&p("/tmp/t/nothing")));
    assert_eq!(deep_tree(), d);
}

#[test]
fn adding_entry_puts_it_under_its_parent_once() {
    let mut d = deep_tree();
    assert_eq!(Ok(()), d.add_entry(&p("/tmp/t/test/new.txt"), false));
    assert_eq!(Some(vec![0, 1]), d.location_by_path(&p("/tmp/t/test/new.txt")));
    assert_eq!(Ok(()), d.add_entry(&p("/tmp/t/test/new.txt"), false));
    if let Item::Dir(inner) = d.child(0).unwrap() {
        assert_eq!(2, inner.len());
    } else {
        panic!("item should be a dir");
    }
    assert_eq!(Ok(()), d.add_entry(&p("/tmp/t/sub"), true));
    assert_eq!(&dir("/tmp/t/sub", vec![]), d.child(1).unwrap());
}

#[test]
fn adding_under_unknown_parent_is_refused() {
    let mut d = deep_tree();
    assert_eq!(Err(DirError::InvalidTarget), d.add_entry(&p("/tmp/t/nope/x.txt"), false));
}

#[test]
fn nested_child_mut_changes_in_place() {
    let mut d = deep_tree();
    if let Some(Item::Dir(inner)) = d.nested_child_mut(&[0, 0]) {
        inner.new_file("more.txt");
    }
    assert_eq!(
        &p("/tmp/t/test/test/more.txt"),
        d.nested_child(&[0, 0, 1]).unwrap().path()
    );
    assert!(d.nested_child_mut(&[]).is_none());
    assert!(d.nested_child_mut(&[3]).is_none());
}

#[test]
fn child_mut_and_iter_mut_reach_children() {
    let mut d = tree("/tmp/t", vec![file("/tmp/t/a"), file("/tmp/t/b")]);
    assert!(d.child_mut(2).is_none());
    *d.child_mut(0).unwrap() = file("/tmp/t/c");
    assert_eq!(&p("/tmp/t/c"), d.child(0).unwrap().path());
    assert_eq!(2, d.iter_mut().len());
}
