use projectable::items::{Item, ItemsIndex};
use projectable::listing::{FileListing, ListingError};
use projectable::path::PathBuf;

fn listing(paths: &[&str]) -> FileListing {
    let files: Vec<PathBuf> = paths.iter().map(|p| PathBuf::from_str(p)).collect();
    FileListing::new(&files)
}

fn file(p: &str) -> Item {
    Item::File(PathBuf::from_str(p))
}

fn dir(p: &str) -> Item {
    Item::Dir(PathBuf::from_str(p))
}

fn num(n: usize) -> ItemsIndex {
    ItemsIndex::Number(n)
}

fn at(p: &str) -> ItemsIndex {
    ItemsIndex::Path(PathBuf::from_str(p))
}

fn bits(v: &[u8]) -> Vec<bool> {
    v.iter().map(|b| *b == 1).collect()
}

#[test]
fn can_fold_dirs() {
    let mut items = listing(&["/root/test.txt", "/root/test/test.txt", "/root/test/test2.txt"]);

    items.fold(&num(1));
    assert_eq!(bits(&[0, 1, 0, 0]), items.folded());
}

#[test]
fn folded_dirs_are_not_included_in_items() {
    let mut items = listing(&["/root/test.txt", "/root/test/test.txt", "/root/test/test2.txt"]);

    items.fold(&num(1));
    assert_eq!(vec![&file("/root/test.txt"), &dir("/root/test")], items.items());
}

#[test]
fn nested_dirs_are_folded() {
    let mut items = listing(&[
        "/root/test.txt",
        "/root/test/test.txt",
        "/root/test/test2.txt",
        "/root/test/test/test.txt",
    ]);

    items.fold(&num(1));
    assert_eq!(vec![&file("/root/test.txt"), &dir("/root/test")], items.items());
}

#[test]
fn next_selection_does_not_go_past_length() {
    let mut items = listing(&[
        "/root/test.txt",
        "/root/test/test.txt",
        "/root/test/test2.txt",
        "/root/test/test/test.txt",
    ]);

    items.select_next_n(100);
    assert_eq!(5, items.selected().unwrap());
}

#[test]
fn prev_selection_does_not_go_past_0() {
    let mut items = listing(&[
        "/root/test.txt",
        "/root/test/test.txt",
        "/root/test/test2.txt",
        "/root/test/test/test.txt",
    ]);

    items.select_prev_n(1);
    assert_eq!(0, items.selected().unwrap());
}

#[test]
fn nested_folds_are_concealed_by_parent_fold() {
    let mut items = listing(&[
        "/root/test.txt",
        "/root/test/test.txt",
        "/root/test/test2.txt",
        "/root/test/test/test.txt",
    ]);

    items.fold(&num(4));
    items.fold(&num(1));
    assert_eq!(vec![&file("/root/test.txt"), &dir("/root/test")], items.items());
}

#[test]
fn folding_out_of_range_returns_none() {
    let mut items = listing(&[
        "/root/test.txt",
        "/root/test/test.txt",
        "/root/test/test2.txt",
        "/root/test/test/test.txt",
    ]);

    assert!(items.fold(&num(100)).is_none());
}

#[test]
fn can_iterate_over_visible_items() {
    let mut items = listing(&[
        "/root/test.txt",
        "/root/test/test.txt",
        "/root/test/test2.txt",
        "/root/test/test/test.txt",
    ]);

    items.fold(&num(1));
    let visible = items.iter();
    assert_eq!(vec![(0, &file("/root/test.txt")), (1, &dir("/root/test"))], visible);
}

#[test]
fn selection_is_relative() {
    let mut items = listing(&[
        "/root/test.txt",
        "/root/test/test.txt",
        "/root/test/test2.txt",
        "/root/test/test/test.txt",
        "/root/test2/test.txt",
    ]);

    items.fold(&num(1));
    assert_eq!(0, items.selected().unwrap());
    items.select_next_n(2);
    assert_eq!(2, items.selected().unwrap());
    items.select_prev_n(2);
    assert_eq!(0, items.selected().unwrap());
    assert_eq!(&dir("/root/test2"), items.select(&num(2)).unwrap());
}

#[test]
fn folding_is_relative() {
    let mut items = listing(&[
        "/root/test.txt",
        "/root/test/test.txt",
        "/root/test/test2.txt",
        "/root/test/test/test.txt",
        "/root/test2/test.txt",
    ]);
    items.fold(&num(1));
    items.fold(&num(2));
    assert_eq!(
        vec![&file("/root/test.txt"), &dir("/root/test"), &dir("/root/test2")],
        items.items()
    );
}

#[test]
fn can_toggle_fold() {
    let mut items = listing(&["/root/test.txt", "/root/test/test.txt", "/root/test/test2.txt"]);

    items.select_next();
    items.toggle_fold();
    let selected = items.selected().unwrap();
    assert!(items.is_folded(&num(selected)).unwrap());
}

#[test]
fn can_handle_multiple_folds() {
    let mut items = listing(&[
        "/root/test.txt",
        "/root/test/test.txt",
        "/root/test/test2.txt",
        "/root/test2/test.txt",
        "/root/test2/test2.txt",
    ]);

    items.select_next();
    items.toggle_fold();
    items.select_next();
    items.select_next();
    assert_eq!(5, items.selected_position());
}

#[test]
fn cannot_fold_files() {
    let mut items = listing(&["/root/test.txt", "/root/test/test.txt", "/root/test/test2.txt"]);

    items.toggle_fold();
    assert!(!items.is_folded(&num(0)).unwrap());
    items.fold(&num(0));
    assert!(!items.is_folded(&num(0)).unwrap());
}

#[test]
fn fold_all_folds_only_directories() {
    let mut items = listing(&[
        "/root/test.txt",
        "/root/test/test.txt",
        "/root/test/test2.txt",
        "/root/test2/test.txt",
    ]);

    items.fold_all();
    assert_eq!(bits(&[0, 1, 0, 0, 1, 0]), items.folded());
}

#[test]
fn unfold_all_unfolds_everything() {
    let mut items = listing(&[
        "/root/test.txt",
        "/root/test/test.txt",
        "/root/test/test2.txt",
        "/root/test2/test.txt",
    ]);

    items.fold_all();
    items.unfold_all();
    assert_eq!(bits(&[0, 0, 0, 0, 0, 0]), items.folded());
}

#[test]
fn nested_dirs_are_not_visible_when_topmost_is_folded() {
    let mut items = listing(&[
        "/root/test.txt",
        "/root/test/test.txt",
        "/root/test/test2.txt",
        "/root/test/test2/test.txt",
        "/root/test/test3/test.txt",
    ]);

    items.fold_all();
    assert_eq!(2, items.len());
}

#[test]
fn removing_from_listing_removes_from_folded() {
    let mut items = listing(&[
        "/root/test.txt",
        "/root/test/test.txt",
        "/root/test/test2.txt",
        "/root/test2/test.txt",
    ]);

    items.fold_all();
    assert!(items.remove(&num(1)).is_ok());
    assert_eq!(vec![&file("/root/test.txt"), &dir("/root/test2")], items.items());
    assert_eq!(bits(&[0, 1, 0]), items.folded());
}

#[test]
fn removing_with_1_item_left_doesnt_panic() {
    let mut items = listing(&["/root/test.txt"]);
    assert!(items.remove(&num(0)).is_ok());
}

#[test]
fn selected_returns_none_if_empty() {
    let items = FileListing::default();
    assert!(items.selected().is_none());
    assert!(items.selected_item().is_none());
}

#[test]
fn opening_path_opens_all_nested_dirs() {
    let mut items = listing(&["/root/test/test/test/test.txt", "/root/test.txt"]);

    assert!(items.select(&at("/root/test/test/test")).is_some());
    assert_eq!(3, items.selected().unwrap());
}

#[test]
fn going_past_selection_with_fold_does_not_panic() {
    let mut items = listing(&[
        "/root/test.txt",
        "/root/test/test.txt",
        "/root/test/test/test.txt",
        "/root/test/test2/test.txt",
    ]);

    items.fold_all();
    items.unfold(&num(1));
    items.select_last();
    items.select_next();

    assert_eq!(4, items.selected().unwrap());
}

#[test]
fn can_fold_recursively_under_certain_paths() {
    let mut items = listing(&[
        "/root/test.txt",
        "/root/test/test/test.txt",
        "/root/test/test2/test.txt",
        "/root/test2/test.txt",
    ]);

    assert!(items.fold_under(&num(1)).is_ok());
    assert_eq!(bits(&[0, 1, 1, 0, 1, 0, 0, 0]), items.folded());
}

#[test]
fn can_unfold_recursively_under_certain_paths() {
    let mut items = listing(&[
        "/root/test.txt",
        "/root/test/test/test.txt",
        "/root/test/test2/test.txt",
        "/root/test2/test.txt",
    ]);

    items.fold_all();
    assert!(items.unfold_under(&num(1)).is_ok());
    assert_eq!(bits(&[0, 0, 0, 0, 0, 0, 1, 0]), items.folded());
}

#[test]
fn unfold_all_folds_all_if_everything_already_unfolded() {
    let mut items = listing(&[
        "/root/test/test.txt",
        "/root/test/testing.txt",
        "/root/test2/test2.txt",
    ]);
    items.unfold_all();
    assert_eq!(bits(&[1, 0, 0, 1, 0]), items.folded());
}

#[test]
fn unfolding_folded_dir_under_shows_its_entries_again() {
    let mut items = listing(&["/root/a/x.txt", "/root/b.txt"]);
    items.fold_all();
    assert_eq!(vec![&file("/root/b.txt"), &dir("/root/a")], items.items());
    assert!(items.unfold_under(&num(1)).is_ok());
    assert_eq!(
        vec![&file("/root/b.txt"), &dir("/root/a"), &file("/root/a/x.txt")],
        items.items()
    );
    assert!(items.unfold_under(&num(1)).is_ok());
    assert_eq!(bits(&[0, 1, 0]), items.folded());
}

#[test]
fn fold_then_unfold_restores_the_listing() {
    let mut items = listing(&["/root/a/x.txt", "/root/a/y.txt", "/root/b/z.txt"]);
    let before = items.folded();
    assert_eq!(Some(0), items.fold(&num(0)));
    assert_eq!(2, items.items().len() - 1);
    assert_eq!(Some(0), items.unfold(&num(0)));
    assert_eq!(before, items.folded());
}

#[test]
fn errors_name_their_target() {
    let mut items = listing(&["/root/test.txt"]);
    assert_eq!(Err(ListingError::InvalidRemoveTarget), items.remove(&num(5)));
    assert_eq!(Err(ListingError::InvalidFoldUnderTarget), items.fold_under(&at("/root/none")));
    assert_eq!(Err(ListingError::InvalidUnfoldUnderTarget), items.unfold_under(&num(9)));
}

#[test]
fn adding_appends_with_a_fold_for_directories() {
    let mut items = listing(&["/root/test.txt"]);
    items.add(dir("/root/dir"));
    items.add(file("/root/test.txt"));
    assert_eq!(bits(&[0, 1]), items.folded());
    assert_eq!(vec![&file("/root/test.txt"), &dir("/root/dir")], items.items());
}
