use projectable::dir::{Dir, File, Item};
use projectable::files::{last_of_path, Files, FilesError};
use projectable::keys::{KeyCode, KeyEvent, KeyModifiers};
use projectable::path::PathBuf;
use projectable::prompt::{PendingOperations, PendingPopup};
use projectable::queue::{AppEvent, Queue};

fn p(s: &str) -> PathBuf {
    PathBuf::from_str(s)
}

fn file(s: &str) -> Item {
    Item::File(File::new(p(s)))
}

fn dir(s: &str, children: Vec<Item>) -> Item {
    Item::Dir(Dir::new(p(s), children))
}

#[test]
fn last_of_path_only_gets_last_part() {
    let name = last_of_path(&p("t/d/d/s/test.txt"));
    assert_eq!("test.txt".to_owned(), name);
}

#[test]
fn last_of_path_works_with_one_part() {
    let name = last_of_path(&p("test.txt"));
    assert_eq!("test.txt", name);
}

#[test]
fn last_of_path_of_root_and_empty_path() {
    assert_eq!("/", last_of_path(&p("/")));
    assert_eq!("", last_of_path(&p("")));
}

#[test]
fn can_remove_file_in_flat_tree() {
    let mut files = Files::new(Dir::new(p("/t"), vec![file("/t/test.txt"), file("/t/test2.txt")]));
    assert!(files.remove_file(&[0]).is_ok());
    assert_eq!(1, files.dir().iter().len());
}

#[test]
fn can_remove_nested_item_in_tree() {
    let mut files = Files::new(Dir::new(p("/t"), vec![dir("/t/test", vec![file("/t/test/test.txt")])]));
    assert!(files.remove_file(&[0, 0]).is_ok());
    let Some(Item::Dir(d)) = files.dir().child(0) else {
        panic!("did not get dir for first child");
    };
    assert_eq!(0, d.iter().len());
}

#[test]
fn removing_at_a_missing_location_is_refused() {
    let mut files = Files::new(Dir::new(p("/t"), vec![file("/t/a")]));
    assert_eq!(Err(FilesError::InvalidLocation), files.remove_file(&[0, 1]));
    assert_eq!(1, files.dir().len());
}

#[test]
fn adding_file_adds_child_if_current_is_directory() {
    let mut files = Files::new(Dir::new(p("/t"), vec![dir("/t/test", vec![file("/t/test/test.txt")])]));
    assert_eq!(Ok(()), files.add_file(&[0], "test2.txt"));
    assert_eq!(&p("/t/test/test2.txt"), files.dir().nested_child(&[0, 1]).unwrap().path());
}

#[test]
fn adding_file_next_to_a_file_puts_it_in_the_root() {
    let mut files = Files::new(Dir::new(p("/t"), vec![file("/t/a")]));
    assert_eq!(Ok(()), files.add_file(&[0], "b"));
    assert_eq!(&p("/t/b"), files.dir().child(1).unwrap().path());
    assert_eq!(Ok(()), files.add_file(&[3], "c"));
    assert_eq!(3, files.dir().len());
    assert_eq!(Err(FilesError::InvalidLocation), files.add_file(&[0, 0], "d"));
}

fn key(code: KeyCode) -> KeyEvent {
    KeyEvent { code, modifiers: KeyModifiers::none() }
}

#[test]
fn simple_confirmation_sends_delete_on_confirm_only() {
    let mut popup = PendingPopup::new(Queue::new());
    popup.set_operation(PendingOperations::DeleteFile(p("/x")));
    popup.handle_key(&key(KeyCode::Char('j')));
    assert_eq!(1, popup.selected());
    popup.handle_key(&key(KeyCode::Enter));
    assert!(popup.pop_event().is_none());
    assert!(!popup.has_work());
    popup.set_operation(PendingOperations::DeleteFile(p("/x")));
    popup.handle_key(&key(KeyCode::Enter));
    assert_eq!(Some(AppEvent::DeleteFile(p("/x"))), popup.pop_event());
}

#[test]
fn can_add_file_at_location() {
    let mut files = Files::new(Dir::new(p("/t"), vec![]));
    assert_eq!(Ok(()), files.add_file(&[0], "test.txt"));
    assert_eq!(&p("/t/test.txt"), files.dir().child(0).unwrap().path());
}

#[test]
fn can_add_nested_file() {
    let mut files = Files::new(Dir::new(p("/t"), vec![dir("/t/test", vec![file("/t/test/test.txt")])]));
    // The selection is the nested file at [0, 0]; the file is added in its directory.
    let selected = [0usize, 0];
    assert_eq!(Ok(()), files.add_file(&selected[..1], "test2.txt"));
    assert_eq!(&p("/t/test/test2.txt"), files.dir().nested_child(&[0, 1]).unwrap().path());
}
