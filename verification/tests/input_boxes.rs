use projectable::input_box::{InputBox, InputOperation};
use projectable::keys::{KeyCode, KeyEvent, KeyModifiers};
use projectable::path::PathBuf;
use projectable::prompt;
use projectable::queue::{AppEvent, Queue};

fn root() -> PathBuf {
    PathBuf::from_str("/")
}

fn key(code: KeyCode) -> KeyEvent {
    KeyEvent { code, modifiers: KeyModifiers::none() }
}

fn ctrl(c: char) -> KeyEvent {
    KeyEvent { code: KeyCode::Char(c), modifiers: KeyModifiers::ctrl() }
}

#[test]
fn giving_operation_gives_work() {
    let mut input_box = InputBox::default();
    assert!(!input_box.has_work());
    input_box.set_operation(InputOperation::NewFile { at: root() });
    assert!(input_box.has_work());
}

#[test]
fn cannot_add_slash_when_creating_file_or_dir() {
    for operation in [InputOperation::NewDir { at: root() }, InputOperation::NewFile { at: root() }] {
        let mut input_box = InputBox::default();
        input_box.set_operation(operation);
        input_box.set_text("should not work /");
        assert!(!input_box.has_valid_input().expect("should have work"));
    }
}

#[test]
fn invalid_input_with_backslash_when_creating_file_or_dir_on_windows() {
    for operation in [InputOperation::NewDir { at: root() }, InputOperation::NewFile { at: root() }] {
        let mut input_box = InputBox::new(Queue::new());
        input_box.set_operation(operation);
        input_box.set_text("should not work \\");
        assert!(!input_box.has_valid_input_with('\\').expect("should have work"));
    }
}

#[test]
fn reset_on_esc() {
    let mut input_box = InputBox::default();
    input_box.set_text("text");
    input_box.set_operation(InputOperation::NewFile { at: root() });
    input_box.handle_key(&key(KeyCode::Esc));
    assert_eq!(String::new(), input_box.text());
    assert_eq!(&InputOperation::NoOperations, input_box.operation());
}

#[test]
fn takes_no_input_with_no_work() {
    let mut input_box = InputBox::default();
    for event in [key(KeyCode::Char('h')), key(KeyCode::Char('i'))] {
        input_box.handle_key(&event);
    }
    assert_eq!(String::new(), input_box.text());
}

#[test]
fn takes_input() {
    let mut input_box = InputBox::default();
    input_box.set_operation(InputOperation::NewFile { at: root() });
    for event in [key(KeyCode::Char('h')), key(KeyCode::Char('i'))] {
        input_box.handle_key(&event);
    }
    assert_eq!("hi".to_owned(), input_box.text());
}

#[test]
fn can_delete() {
    let mut input_box = InputBox::default();
    input_box.set_operation(InputOperation::NewFile { at: root() });
    for event in [
        key(KeyCode::Char('h')),
        key(KeyCode::Char('i')),
        key(KeyCode::Backspace),
        key(KeyCode::Delete),
    ] {
        input_box.handle_key(&event);
    }
    assert_eq!(String::new(), input_box.text());
}

#[test]
fn can_delete_whole_line() {
    let mut input_box = InputBox::default();
    input_box.set_operation(InputOperation::NewFile { at: root() });
    for event in [key(KeyCode::Char('h')), key(KeyCode::Char('i'))] {
        input_box.handle_key(&event);
    }
    input_box.handle_key(&ctrl('u'));
    assert_eq!(String::new(), input_box.text());
}

#[test]
fn can_send_new_dir_event() {
    let mut input_box = InputBox::default();
    input_box.set_operation(InputOperation::NewDir { at: root() });
    input_box.set_text("hello_world");
    input_box.handle_key(&key(KeyCode::Enter));
    assert_eq!(
        AppEvent::NewDir(PathBuf::from_str("/hello_world")),
        input_box.pop_event().expect("should have sent event")
    );
}

#[test]
fn can_send_new_file_event() {
    let mut input_box = InputBox::default();
    input_box.set_operation(InputOperation::NewFile { at: root() });
    input_box.set_text("hello_world.txt");
    input_box.handle_key(&key(KeyCode::Enter));
    assert_eq!(
        AppEvent::NewFile(PathBuf::from_str("/hello_world.txt")),
        input_box.pop_event().expect("should have sent event")
    );
}

#[test]
fn resets_after_option_entered() {
    let mut input_box = InputBox::default();
    input_box.set_operation(InputOperation::NewFile { at: root() });
    input_box.set_text("test");
    input_box.handle_key(&key(KeyCode::Enter));
    assert!(input_box.text().is_empty());
    assert_eq!(&InputOperation::NoOperations, input_box.operation());
}

#[test]
fn cannot_take_empty_input() {
    for operation in [InputOperation::NewFile { at: root() }, InputOperation::NewDir { at: root() }] {
        let mut input_box = InputBox::default();
        input_box.set_operation(operation);
        assert!(!input_box.has_valid_input().expect("should have work"))
    }
}

#[test]
fn moving_cursor_does_not_go_past_text_on_right() {
    let mut input_box = InputBox::default();
    input_box.set_text("testing");
    input_box.cursor_right();
    assert_eq!(0, input_box.cursor_offset());
}

#[test]
fn moving_cursor_does_not_go_past_text_on_left() {
    let mut input_box = InputBox::default();
    input_box.set_text("test");
    for _ in 0..5 {
        input_box.cursor_left();
    }
    assert_eq!(4, input_box.cursor_offset());
}

#[test]
fn can_send_execute_command_to_queue() {
    let mut input_box = InputBox::default();
    input_box.set_text("testing {}");
    input_box.set_operation(InputOperation::Command { to: root() });
    input_box.handle_key(&key(KeyCode::Enter));
    assert_eq!(AppEvent::RunCommand("testing /".to_owned()), input_box.pop_event().unwrap());
}

#[test]
fn deletes_where_cursor_is() {
    let mut input_box = InputBox::default();
    input_box.set_text("testing");
    input_box.set_operation(InputOperation::Command { to: root() });
    input_box.handle_key(&key(KeyCode::Left));
    input_box.handle_key(&key(KeyCode::Delete));
    assert_eq!("testig".to_owned(), input_box.text());
}

#[test]
fn inserts_where_cursor_is() {
    let mut input_box = InputBox::default();
    input_box.set_text("testing");
    input_box.set_operation(InputOperation::Command { to: root() });
    input_box.handle_key(&key(KeyCode::Left));
    input_box.handle_key(&key(KeyCode::Char('n')));
    assert_eq!("testinng".to_owned(), input_box.text());
}

#[test]
fn deletes_line_where_cursor_is() {
    let mut input_box = InputBox::default();
    input_box.set_text("testing");
    input_box.set_operation(InputOperation::Command { to: root() });
    input_box.handle_key(&key(KeyCode::Left));
    input_box.handle_key(&ctrl('u'));
    assert_eq!("g".to_owned(), input_box.text());
}

#[test]
fn search_sends_text_typed() {
    let mut input_box = InputBox::default();
    input_box.set_operation(InputOperation::SearchFiles);
    input_box.set_text("main");
    input_box.handle_key(&key(KeyCode::Enter));
    assert_eq!(AppEvent::SearchFiles("main".to_owned()), input_box.pop_event().unwrap());
    assert!(input_box.pop_event().is_none());
}

#[test]
fn enter_with_empty_text_sends_nothing() {
    let mut input_box = InputBox::default();
    input_box.set_operation(InputOperation::NewFile { at: root() });
    input_box.handle_key(&key(KeyCode::Enter));
    assert!(input_box.pop_event().is_none());
    assert!(input_box.has_work());
}

#[test]
fn simple_box_sends_new_file_and_resets() {
    let mut b = prompt::InputBox::new(Queue::new());
    b.set_operation(prompt::InputOperations::NewFile { at: PathBuf::from_str("/tmp") });
    for event in [key(KeyCode::Char('a')), key(KeyCode::Char('b')), key(KeyCode::Backspace)] {
        b.handle_key(&event);
    }
    assert_eq!("a".to_owned(), b.text());
    b.handle_key(&key(KeyCode::Enter));
    assert_eq!(AppEvent::NewFile(PathBuf::from_str("/tmp/a")), b.pop_event().unwrap());
    assert!(!b.has_work());
}

#[test]
fn simple_box_rejects_slashes_and_clears_on_ctrl_u() {
    let mut b = prompt::InputBox::new(Queue::new());
    assert_eq!(None, b.has_valid_input());
    b.set_operation(prompt::InputOperations::NewDir { at: PathBuf::from_str("/tmp") });
    b.set_text("a/b");
    assert_eq!(Some(false), b.has_valid_input());
    b.handle_key(&key(KeyCode::Enter));
    assert!(b.pop_event().is_none());
    b.handle_key(&ctrl('u'));
    assert_eq!(String::new(), b.text());
    b.set_text("a\\b");
    assert_eq!(Some(false), b.has_valid_input_with('\\'));
    assert_eq!(Some(true), b.has_valid_input_with('/'));
}
