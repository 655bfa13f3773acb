use projectable::component::Visibility;
use projectable::config::Config;
use projectable::fuzzy::{AreaEdit, FuzzyMatcher, FuzzyOperation};
use projectable::keys::{KeyCode, KeyEvent, KeyModifiers};
use projectable::logging::{EventLoggerSubscriber, Level, LogReceiver};
use projectable::marks::{Marks, MarksPopup};
use projectable::path::PathBuf;
use projectable::pending::{PendingOperation, PendingPopup};
use projectable::popup::{Popup, Preset};
use projectable::queue::{AppEvent, Queue};
use projectable::scroll::ParagraphState;

fn key(code: KeyCode) -> KeyEvent {
    KeyEvent { code, modifiers: KeyModifiers::none() }
}

fn shifted(c: char) -> KeyEvent {
    KeyEvent { code: KeyCode::Char(c), modifiers: KeyModifiers { shift: true, ..KeyModifiers::none() } }
}

fn ctrl(c: char) -> KeyEvent {
    KeyEvent { code: KeyCode::Char(c), modifiers: KeyModifiers::ctrl() }
}

fn p(s: &str) -> PathBuf {
    PathBuf::from_str(s)
}

#[test]
fn new_popup_selects_first_item() {
    let popup = PendingPopup::default();
    assert_eq!(0, popup.selected())
}

#[test]
fn selecting_next_does_not_go_over_num_of_items() {
    let mut popup = PendingPopup::default();
    popup.select_next();
    popup.select_next();
    popup.select_next();
    assert_eq!(1, popup.selected());
}

#[test]
fn selecting_prev_does_not_go_below_num_of_items() {
    let mut popup = PendingPopup::default();
    popup.select_prev();
    popup.select_prev();
    assert_eq!(0, popup.selected());
}

#[test]
fn receives_no_input_when_has_no_work() {
    let mut popup = PendingPopup::default();
    popup.handle_key(&key(KeyCode::Char('j')));
    assert_eq!(0, popup.selected());
}

#[test]
fn can_go_up_and_down() {
    let mut popup = PendingPopup::default();
    popup.set_operation(PendingOperation::DeleteFile(p("/")));
    popup.handle_key(&key(KeyCode::Char('j')));
    assert_eq!(1, popup.selected());
    popup.handle_key(&key(KeyCode::Char('k')));
    assert_eq!(0, popup.selected());
}

#[test]
fn sends_message_on_confirm() {
    let mut popup = PendingPopup::default();
    popup.set_operation(PendingOperation::DeleteFile(p("/")));
    popup.handle_key(&key(KeyCode::Enter));
    assert_eq!(Some(AppEvent::DeleteFile(p("/"))), popup.pop_event());
    assert!(!popup.has_work());
}

#[test]
fn sends_no_message_on_deny() {
    let mut popup = PendingPopup::default();
    popup.set_operation(PendingOperation::DeleteFile(p("/")));
    for event in [key(KeyCode::Char('j')), key(KeyCode::Enter)] {
        popup.handle_key(&event);
    }
    assert!(popup.pop_event().is_none());
    assert!(!popup.has_work());
}

#[test]
fn visible_with_preset() {
    let mut popup = Popup::default();
    assert!(!popup.visible());
    popup.set_preset(Preset::Help);
    assert!(popup.visible());
}

#[test]
fn q_resets() {
    let config = Config::default();
    let mut popup = Popup::new();
    popup.set_preset(Preset::Help);
    popup.handle_key(&key(KeyCode::Char('q')), &config);
    assert_eq!(Preset::Nothing, popup.preset());
}

#[test]
fn up_and_down_increment_scroll() {
    let config = Config::default();
    let mut popup = Popup::new();
    popup.set_preset(Preset::Help);
    popup.handle_key(&key(KeyCode::Char('j')), &config);
    assert_eq!(1, popup.scroll());
    popup.handle_key(&key(KeyCode::Char('k')), &config);
    assert_eq!(0, popup.scroll());
}

#[test]
fn g_and_shift_g_go_all_up_and_all_down() {
    let config = Config::default();
    let mut popup = Popup::new();
    popup.set_preset(Preset::Help);
    popup.handle_key(&shifted('G'), &config);
    assert_eq!(u16::MAX, popup.scroll());
    popup.handle_key(&key(KeyCode::Char('g')), &config);
    assert_eq!(0, popup.scroll());
}

#[test]
fn escape_closes_popup() {
    let config = Config::default();
    let mut popup = Popup::new();
    popup.set_preset(Preset::RunningCommand);
    popup.handle_key(&key(KeyCode::Esc), &config);
    assert!(!popup.visible());
}

fn test_marks_popup() -> MarksPopup {
    let mut popup = MarksPopup::new(vec![p("."), p("/")], Queue::new());
    popup.open();
    popup
}

#[test]
fn new_selects_fist_item() {
    let popup = test_marks_popup();
    assert_eq!(0, popup.selected());
}

#[test]
fn adding_marks_is_unique() {
    let mut popup = test_marks_popup();
    assert_eq!(2, popup.marks().len());
    popup.add_mark(p("."));
    assert_eq!(2, popup.marks().len());
}

#[test]
fn can_delete_marks() {
    let mut popup = test_marks_popup();
    popup.delete_selected();
    assert_eq!(p("/"), popup.marks()[0])
}

#[test]
fn deleting_last_mark_wraps_selected_to_top() {
    let mut popup = test_marks_popup();
    popup.select_last();
    popup.delete_selected();
    assert_eq!(0, popup.selected());
}

#[test]
fn does_not_panic_with_zero_marks() {
    let config = Config::default();
    let mut popup = test_marks_popup();
    popup.set_marks(Vec::new());
    for event in [
        key(KeyCode::Char('j')),
        key(KeyCode::Char('k')),
        key(KeyCode::Char('g')),
        shifted('G'),
        key(KeyCode::Enter),
        key(KeyCode::Char('d')),
    ] {
        popup.handle_key(&event, &config);
    }
    assert!(popup.pop_event().is_none());
}

#[test]
fn marks_popup_can_select_first() {
    let mut popup = test_marks_popup();
    popup.select_next();
    popup.select_first();
    assert_eq!(0, popup.selected());
}

#[test]
fn marks_popup_can_select_last() {
    let mut popup = test_marks_popup();
    popup.set_marks(vec![p("."), p("/"), p("/test.txt")]);
    popup.select_last();
    assert_eq!(2, popup.selected())
}

#[test]
fn visible_with_work_and_vice_versa() {
    let mut popup = test_marks_popup();
    assert!(popup.visible());
    popup.close();
    assert!(!popup.visible());
}

#[test]
fn opening_a_mark_sends_it_and_closes() {
    let config = Config::default();
    let mut popup = test_marks_popup();
    popup.handle_key(&key(KeyCode::Char('j')), &config);
    popup.handle_key(&key(KeyCode::Enter), &config);
    assert_eq!(Some(AppEvent::GotoFile(p("/"))), popup.pop_event());
    assert!(!popup.visible());
}

#[test]
fn marks_of_a_project_are_read_and_put_back() {
    let all = vec![(p("/a"), vec![p("/a/x")]), (p("/b"), vec![p("/b/y"), p("/b/z")])];
    let marks = Marks::from_all(&p("/b"), &all);
    assert_eq!(&p("/b"), marks.project());
    assert_eq!(&[p("/b/y"), p("/b/z")], marks.marks());
    let none = Marks::from_all(&p("/c"), &all);
    assert!(none.marks().is_empty());
    let back = none.put_into(all);
    assert_eq!(3, back.len());
    assert_eq!((p("/c"), Vec::new()), back[2]);
    assert_eq!(&PathBuf::new(), Marks::default().project());
}

fn finder(items: &[&str], pattern: &str) -> FuzzyMatcher {
    let mut matcher = FuzzyMatcher::new(Queue::new());
    matcher.start(items.iter().map(|s| s.to_string()).collect(), FuzzyOperation::OpenFile);
    matcher.set_pattern(pattern);
    matcher
}

#[test]
fn compute_best_matches_gives_sorted_list_of_matches_with_indices() {
    let matcher = finder(
        &[
            "/root/test.txt",
            "/root/test2.txt",
            "/root/2tests.txt",
            "/root/test/testingthis32.txt",
            "none!",
        ],
        "t2",
    );
    let matches = matcher.compute_best_matches();
    assert_eq!(
        vec![
            ("/root/2tests.txt".to_owned(), vec![4, 6]),
            ("/root/test2.txt".to_owned(), vec![9, 10]),
            ("/root/test/testingthis32.txt".to_owned(), vec![11, 23]),
        ],
        matches
    );
}

#[test]
fn submit_resets_everything() {
    let mut matcher = finder(&["test", "testing"], "");
    matcher.select_next();
    matcher.submit();
    assert!(matcher.selected().is_none());
    assert!(matcher.compute_best_matches().is_empty());
    assert!(!matcher.visible());
}

#[test]
fn select_prev_saturates_at_zero() {
    let mut matcher = FuzzyMatcher::new(Queue::new());
    assert!(matcher.selected().is_none());
    matcher.select_prev();
    assert_eq!(0, matcher.selected().unwrap());
}

#[test]
fn select_next_saturates_at_length_of_input() {
    let mut matcher = finder(&["test", "testing"], "");
    for _ in 0..6 {
        matcher.select_next();
    }
    assert_eq!(1, matcher.selected().unwrap());
}

#[test]
fn submit_does_not_panic_with_no_matching_items() {
    let mut matcher = finder(&["item"], "sdlkfjslkddf");
    assert!(!matcher.submit());
}

#[test]
fn submit_gets_selected_match() {
    let mut matcher = finder(&["item", "item2"], "it");
    assert_eq!(
        vec![("item2".to_owned(), vec![0, 1]), ("item".to_owned(), vec![0, 1])],
        matcher.compute_best_matches()
    );
    matcher.select_prev();
    matcher.submit();
    assert_eq!(Some(AppEvent::GotoFile(p("item2"))), matcher.pop_event());
}

#[test]
fn finder_keys_tell_the_text_box_what_to_do() {
    let mut matcher = finder(&["a", "b"], "x");
    assert_eq!(AreaEdit::Input, matcher.handle_key(&key(KeyCode::Char('z'))));
    assert_eq!(AreaEdit::Input, matcher.handle_key(&ctrl('p')));
    assert_eq!(Some(1), matcher.selected());
    assert_eq!(AreaEdit::ClearedThenInput, matcher.handle_key(&ctrl('u')));
    assert_eq!(AreaEdit::Cleared, matcher.handle_key(&key(KeyCode::Esc)));
    assert!(!matcher.visible());
    assert_eq!(AreaEdit::Nothing, matcher.handle_key(&key(KeyCode::Char('z'))));
}

#[test]
fn log_receiver_keeps_messages_in_order() {
    let mut receiver = LogReceiver::new();
    assert!(receiver.messages().is_empty());
    receiver.receive("first", Level::Info);
    receiver.receive("second", Level::Error);
    assert_eq!(
        &[("first".to_owned(), Level::Info), ("second".to_owned(), Level::Error)],
        receiver.messages()
    );
}

#[test]
fn visibility_defaults_to_hidden() {
    assert!(!Visibility::default().is_visible());
    assert!(Visibility::Visible.is_visible());
}

#[test]
fn paragraph_scrolls_within_bounds() {
    let mut state = ParagraphState::new();
    state.up();
    assert_eq!(0, state.offset_top);
    state.down_by(5);
    assert_eq!(5, state.offset_top);
    state.up_by(2);
    assert_eq!(3, state.offset_top);
    state.down_by(u16::MAX);
    assert_eq!(u16::MAX, state.offset_top);
    state.down();
    assert_eq!(u16::MAX, state.offset_top);
    state.reset();
    assert_eq!(0, state.offset_top);
}

#[test]
fn help_text_pads_every_key_to_the_longest_one() {
    let config = Config::default();
    assert!(Popup::can_show_help(&config));
    let mut popup = Popup::new();
    assert!(popup.text(&config).is_none());
    popup.set_preset(Preset::Help);
    let text = popup.text(&config).unwrap();
    assert_eq!("Help", text.title);
    assert_eq!(35, text.height);
    assert_eq!(27, text.lines.len());
    let width = [
        config.open, config.down, config.up, config.all_up, config.all_down,
        config.filetree.down_three, config.filetree.up_three, config.filetree.delete,
        config.filetree.new_file, config.filetree.new_dir, config.filetree.search,
        config.filetree.clear, config.preview.up_key, config.preview.down_key,
        config.filetree.diff_mode, config.filetree.git_filter, config.filetree.show_dotfiles,
        config.filetree.exec_cmd, config.filetree.special_command, config.filetree.open_all,
        config.filetree.close_all, config.filetree.close_under, config.filetree.open_under,
        config.filetree.mark_selected, config.marks.open, config.quit, config.help,
    ]
    .iter()
    .map(|k| k.to_text().len())
    .max()
    .unwrap()
        + 1;
    assert!(text.lines.iter().all(|(key, _)| key.chars().count() == width && key.ends_with(' ')));
    assert_eq!((format!("{:width$}", config.open.to_text()), "Open file/toggle opened".to_string()), text.lines[0]);
    assert_eq!((format!("{:width$}", "j"), "Move down".to_string()), text.lines[1]);
    assert_eq!("Go to bottom", text.lines[3].1);
    assert_eq!((format!("{:width$}", "?"), "Open help window".to_string()), text.lines[26]);
}

#[test]
fn running_command_text_is_one_plain_line() {
    let mut popup = Popup::new();
    popup.set_preset(Preset::RunningCommand);
    let text = popup.text(&Config::default()).unwrap();
    assert_eq!("Command", text.title);
    assert_eq!(3, text.height);
    assert_eq!(vec![(String::new(), "Command in-progress. Press CTRL-C to quit".to_string())], text.lines);
}

#[test]
fn visible_scroll_stops_at_the_last_line() {
    let config = Config::default();
    let mut popup = Popup::new();
    popup.set_preset(Preset::Help);
    for _ in 0..15 {
        popup.handle_key(&key(KeyCode::Char('j')), &config);
    }
    assert_eq!(15, popup.scroll());
    assert_eq!(10, popup.visible_scroll(30, 20));
    assert_eq!(10, popup.scroll());
    assert_eq!(10, popup.visible_scroll(40, 20));
    assert_eq!(0, popup.visible_scroll(5, 20));
    assert_eq!(0, popup.scroll());
}
