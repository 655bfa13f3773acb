use projectable::config::Config;
use projectable::file_cmd::{FileCmdPopup, MatchState};
use projectable::input_box::InputOperation;
use projectable::keys::{KeyCode, KeyEvent, KeyModifiers};
use projectable::path::PathBuf;
use projectable::queue::{AppEvent, Queue};

fn key(code: KeyCode) -> KeyEvent {
    KeyEvent { code, modifiers: KeyModifiers::none() }
}

fn config_with(special: Vec<(&str, Vec<&str>)>) -> Config {
    Config {
        special_commands: special
            .into_iter()
            .map(|(p, cs)| (p.to_owned(), cs.into_iter().map(|c| c.to_owned()).collect()))
            .collect(),
        ..Config::default()
    }
}

fn test_popup() -> (FileCmdPopup, Config) {
    let config = config_with(vec![("*", vec!["command {}", "command2 {} {...}", "command3"])]);
    let mut popup = FileCmdPopup::new(Queue::new(), &config);
    popup.open_for(PathBuf::from_str("test.txt"));
    (popup, config)
}

fn events(popup: &mut FileCmdPopup) -> Vec<AppEvent> {
    let mut out = Vec::new();
    while let Some(e) = popup.pop_event() {
        out.push(e);
    }
    out
}

#[test]
fn starts_with_first_selected() {
    let popup = FileCmdPopup::default();
    assert_eq!(0, popup.selected());
}

#[test]
fn silent_when_file_does_not_match() {
    let mut popup = FileCmdPopup::default();
    let state = popup.open_for(PathBuf::from_str("test.txt"));
    assert_eq!(MatchState::NotMatched, state);
    assert!(!state.is_matched());
}

#[test]
fn can_open_for_file() {
    let config = config_with(vec![("*", vec!["command"]), ("not_there.txt", vec!["should_not_be_here"])]);
    let mut popup = FileCmdPopup::new(Queue::new(), &config);
    let state = popup.open_for(PathBuf::from_str("test.txt"));
    assert_eq!(MatchState::Matched, state);
    assert!(state.is_matched());
    assert_eq!(PathBuf::from_str("test.txt"), popup.opened().unwrap().1);
    assert_eq!(vec!["command".to_owned()], popup.opened().unwrap().0.commands);
}

#[test]
fn selecting_prev_cannot_go_below_zero() {
    let mut popup = FileCmdPopup::default();
    popup.select_prev();
    assert_eq!(0, popup.selected());
}

#[test]
fn selecting_next_cannot_go_above_opened_amount() {
    let (mut popup, _) = test_popup();
    for _ in 0..10 {
        popup.select_next();
    }
    assert_eq!(2, popup.selected());
}

#[test]
fn file_cmd_popup_can_select_last() {
    let (mut popup, _) = test_popup();
    popup.select_last();
    assert_eq!(2, popup.selected());
}

#[test]
fn file_cmd_popup_can_select_first() {
    let (mut popup, _) = test_popup();
    popup.select_next();
    popup.select_first();
    assert_eq!(0, popup.selected());
}

#[test]
fn visible_with_work() {
    let (popup, _) = test_popup();
    assert!(popup.visible());
}

#[test]
fn quitting_properly_restores_registry() {
    let (mut popup, config) = test_popup();
    assert_eq!(0, popup.registry_len());
    popup.handle_key(&key(KeyCode::Char('q')), &config);
    assert_eq!(1, popup.registry_len());
    assert!(!popup.visible());
}

#[test]
fn confirming_properly_restores_registry() {
    let (mut popup, config) = test_popup();
    assert_eq!(0, popup.registry_len());
    popup.handle_key(&key(KeyCode::Enter), &config);
    assert_eq!(1, popup.registry_len());
}

#[test]
fn confirming_sends_run_command_event_with_interpolated_path() {
    let (mut popup, config) = test_popup();
    popup.handle_key(&key(KeyCode::Enter), &config);
    assert!(events(&mut popup).contains(&AppEvent::RunCommand("command test.txt".to_owned())));
}

#[test]
fn confirming_with_search_interpolation_opens_search_box() {
    let (mut popup, config) = test_popup();
    popup.select_next();
    popup.handle_key(&key(KeyCode::Enter), &config);
    assert!(events(&mut popup).contains(&AppEvent::OpenInput(InputOperation::SpecialCommand(
        "command2 test.txt {...}".to_owned()
    ))));
}

#[test]
fn keys_move_through_the_commands() {
    let (mut popup, config) = test_popup();
    popup.handle_key(&key(KeyCode::Char('j')), &config);
    assert_eq!(1, popup.selected());
    popup.handle_key(&KeyEvent { code: KeyCode::Char('G'), modifiers: KeyModifiers { shift: true, ..KeyModifiers::none() } }, &config);
    assert_eq!(2, popup.selected());
    popup.handle_key(&key(KeyCode::Char('k')), &config);
    assert_eq!(1, popup.selected());
    popup.handle_key(&key(KeyCode::Char('g')), &config);
    assert_eq!(0, popup.selected());
    popup.handle_key(&key(KeyCode::Esc), &config);
    assert!(!popup.visible());
}

#[test]
fn a_pattern_that_does_not_parse_is_refused() {
    let config = config_with(vec![("[", vec!["command"])]);
    assert!(FileCmdPopup::try_new(Queue::new(), &config).is_none());
    let fine = config_with(vec![("*.rs", vec!["cargo run"])]);
    assert!(FileCmdPopup::try_new(Queue::new(), &fine).is_some());
}

#[test]
fn open_for_takes_the_first_pattern_that_matches() {
    let config = config_with(vec![("*.rs", vec!["rust"]), ("*.txt", vec!["first"]), ("test*", vec!["second"])]);
    let mut popup = FileCmdPopup::new(Queue::new(), &config);
    assert_eq!(MatchState::Matched, popup.open_for(PathBuf::from_str("/p/test.txt")));
    assert_eq!(vec!["first".to_owned()], popup.opened().unwrap().0.commands);
}

#[test]
fn an_unclosed_pattern_is_refused() {
    let config = config_with(vec![("a[", vec!["x"])]);
    assert!(FileCmdPopup::try_new(Queue::new(), &config).is_none());
}
