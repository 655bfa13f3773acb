use projectable::config::{project_root_globs, Action, Config, FiletreeConfig, GlobList, GlobListError, Key, KeyConflict, Merge};
use projectable::keys::{KeyCode, KeyEvent, KeyModifiers};
use projectable::style::{Color, Style};

fn mods(control: bool, alt: bool, shift: bool) -> KeyModifiers {
    KeyModifiers { shift, control, alt, super_key: false, hyper: false, meta: false }
}

#[test]
fn parse_rgb_from_hex_form() {
    let color = "#010203";
    assert_eq!(Color::Rgb(1, 2, 3), color.parse().unwrap());
}

#[test]
fn parse_rgb_from_function_form() {
    let color = "rgb(1, 2, 3)";
    assert_eq!(Color::Rgb(1, 2, 3), color.parse().unwrap());
}

#[test]
fn parsing_rgb_ignores_whitespace() {
    let color = "  rgb     ( 1  , 3 , 10    )  ";
    assert_eq!(Color::Rgb(1, 3, 10), color.parse().unwrap());
}

#[test]
fn parsing_colors_by_name_and_rejecting_others() {
    assert_eq!(Ok(Color::LightCyan), "lightcyan".parse::<Color>());
    assert_eq!(Ok(Color::Reset), "none".parse::<Color>());
    assert_eq!(Ok(Color::Rgb(255, 0, 171)), "#ff00AB".parse::<Color>());
    assert!("rgb(1, 2)".parse::<Color>().is_err());
    assert!("rgb(1, 2, 3, 4)".parse::<Color>().is_err());
    assert!("rgb(256, 2, 3)".parse::<Color>().is_err());
    assert!("#12345".parse::<Color>().is_err());
    assert!("purple".parse::<Color>().is_err());
}

#[test]
fn colors_are_written_as_they_are_read() {
    assert_eq!("rgb(1, 22, 255)".to_owned(), Color::Rgb(1, 22, 255).to_text());
    assert_eq!("none".to_owned(), Color::Reset.to_text());
    for c in [Color::Rgb(0, 9, 100), Color::Black, Color::LightMagenta, Color::White] {
        assert_eq!(Ok(c), c.to_text().parse::<Color>());
    }
}

#[test]
fn comparing_key_event_and_key_properly_recognizes_uppercase() {
    let key = Key { code: KeyCode::Char('D'), mods: KeyModifiers::none() };
    let key_event = KeyEvent { code: KeyCode::Char('D'), modifiers: mods(false, false, true) };
    assert!(key.matches(&key_event));
    let plain = KeyEvent { code: KeyCode::Char('D'), modifiers: KeyModifiers::none() };
    assert!(!key.matches(&plain));
}

#[test]
fn merge_keeps_lhs_when_rhs_is_default() {
    let mut lhs = Config { quit: Key::normal('z'), ..Default::default() };
    let rhs = Config::default();
    lhs.merge(rhs);
    assert_eq!(Key::normal('z'), lhs.quit);
}

#[test]
fn merge_has_rhs_take_precedence_over_lhs() {
    let mut lhs = Config { quit: Key::normal('z'), ..Default::default() };
    let rhs = Config { quit: Key::normal('v'), ..Default::default() };
    lhs.merge(rhs);
    assert_eq!(Key::normal('v'), lhs.quit);
}

#[test]
fn merge_has_rhs_override_lhs_when_lhs_is_default() {
    let mut lhs = Config::default();
    let rhs = Config { quit: Key::normal('v'), ..Default::default() };
    lhs.merge(rhs);
    assert_eq!(Key::normal('v'), lhs.quit);
}

#[test]
fn merging_filetree_config_extends_ignore_vec() {
    let mut lhs = Config::default();
    lhs.filetree.ignore = vec!["test".to_owned(), "test2".to_owned()];
    let mut rhs = Config::default();
    rhs.filetree.ignore = vec!["test3".to_owned(), "test4".to_owned()];
    lhs.merge(rhs);
    assert_eq!(
        vec!["test".to_owned(), "test2".to_owned(), "test3".to_owned(), "test4".to_owned()],
        lhs.filetree.ignore
    );
}

#[test]
fn merging_takes_the_right_sides_new_file_key() {
    let mut lhs = Config::default();
    lhs.filetree.new_file = Key::normal('x');
    let mut rhs = Config::default();
    rhs.filetree.new_file = Key::normal('y');
    rhs.preview.scroll_amount = 3;
    rhs.log.info = Style::color(Color::Red);
    lhs.merge(rhs);
    assert_eq!(Key::normal('y'), lhs.filetree.new_file);
    assert_eq!(3, lhs.preview.scroll_amount);
    assert_eq!(Style::color(Color::Red), lhs.log.info);
}

#[test]
fn merging_special_commands_replaces_same_pattern() {
    let mut lhs = Config::default();
    lhs.special_commands = vec![("*.rs".to_owned(), vec!["cargo run".to_owned()])];
    let mut rhs = Config::default();
    rhs.special_commands = vec![
        ("*.py".to_owned(), vec!["python {}".to_owned()]),
        ("*.rs".to_owned(), vec!["cargo test".to_owned()]),
    ];
    lhs.merge(rhs);
    assert_eq!(
        vec![
            ("*.rs".to_owned(), vec!["cargo test".to_owned()]),
            ("*.py".to_owned(), vec!["python {}".to_owned()]),
        ],
        lhs.special_commands
    );
}

#[test]
fn properly_reports_keybind_conflicts() {
    let config = Config { help: Key::normal('q'), down: Key::normal('q'), ..Default::default() };
    assert_eq!(
        vec![KeyConflict::new(Key::normal('q'), vec![Action::Quit, Action::Help, Action::Down])],
        config.check_conflicts()
    );
}

#[test]
fn default_config_has_no_conflicts() {
    assert!(Config::default().check_conflicts().is_empty());
}

#[test]
fn stringifies_keys_properly_with_no_mods() {
    let key = Key::normal('j');
    assert_eq!("j", &key.to_text());
}

#[test]
fn stringifies_keys_properly_with_multiple_mods() {
    let key = Key { code: KeyCode::Char('d'), mods: mods(true, true, false) };
    assert_eq!("ctrl-alt-d", &key.to_text());
}

#[test]
fn stringifies_keys_properly_with_one_mod() {
    let key = Key::ctrl('j');
    assert_eq!("ctrl-j", &key.to_text());
}

#[test]
fn merges_custom_keybinds() {
    let config = Config { commands: vec![(Key::normal('v'), "echo testing".to_owned())], ..Default::default() };
    assert_eq!(
        vec![KeyConflict::new(
            Key::normal('v'),
            vec![Action::FiletreeSpecialCommand, Action::Arbitrary("echo testing".to_owned())]
        )],
        config.check_conflicts()
    );
}

#[test]
fn describes_conflicts() {
    let conflict = KeyConflict::new(Key::ctrl('c'), vec![Action::KillProcesses, Action::Arbitrary("ls".to_owned())]);
    assert_eq!(
        "key conflict on \"ctrl-c\" with associated actions: \"kill_processes\", \"arbitrary\"".to_owned(),
        conflict.describe()
    );
}

#[test]
fn can_parse_key_with_no_mods() {
    let keys = ["a", "b", "z", "r", "d", "?"];
    for key in keys {
        let k = Key::parse_key(key).expect("key should parse correctly");
        assert_eq!(Key { code: KeyCode::Char(key.chars().next().unwrap()), mods: KeyModifiers::none() }, k);
    }
}

#[test]
fn can_parse_special_keys() {
    let tests = [("tab", KeyCode::Tab), ("backtab", KeyCode::BackTab), ("enter", KeyCode::Enter), ("up", KeyCode::Up)];
    for (input, expected) in tests {
        assert_eq!(expected, Key::parse_key(input).expect("should parse correctly").code);
    }
}

#[test]
fn can_parse_keys_with_mods() {
    let tests = [
        ("ctrl-y", Key { code: KeyCode::Char('y'), mods: mods(true, false, false) }),
        ("ctrl-b", Key { code: KeyCode::Char('b'), mods: mods(true, false, false) }),
        ("alt-y", Key { code: KeyCode::Char('y'), mods: mods(false, true, false) }),
        ("ctrl-alt-y", Key { code: KeyCode::Char('y'), mods: mods(true, true, false) }),
    ];
    for (input, expected) in tests {
        assert_eq!(expected, Key::parse_key(input).expect("should parse"));
    }
}

#[test]
fn parsing_keys_reads_what_the_grammar_allows() {
    assert!(Key::parse_key("").is_err());
    assert!(Key::parse_key("ctrl-").is_err());
    assert_eq!(Key::normal('-'), Key::parse_key("--").unwrap());
    assert_eq!(KeyCode::Down, Key::parse_key("downward").unwrap().code);
    assert!(!Key::text_supported("é"));
    assert!(Key::text_supported("ctrl-a"));
}

#[test]
fn glob_list_finds_a_project_root_by_its_entries() {
    let globs = project_root_globs(&vec![".git".to_string()]);
    let list = GlobList::new(&globs).unwrap();
    assert!(list.is_match("/home/user/project/.git"));
    assert!(!list.is_match("/home/user/project/src"));
    let root = vec!["/p/src".to_string(), "/p/.git".to_string()];
    let not_root = vec!["/p/src/main.rs".to_string(), "/p/src/.gitignore".to_string()];
    assert!(list.matches_any(&root));
    assert!(!list.matches_any(&not_root));
    assert!(!list.matches_any(&Vec::new()));
}

#[test]
fn glob_list_refuses_the_first_pattern_that_does_not_parse() {
    let globs = vec!["**/ok".to_string(), "a[".to_string(), "b{".to_string()];
    assert_eq!(GlobList::new(&globs).unwrap_err(), GlobListError::Pattern(1));
    let empty = GlobList::new(&Vec::new()).unwrap();
    assert!(!empty.is_match("/anything"));
}

#[test]
fn filetree_merge_takes_every_key_the_right_side_sets() {
    let mut lhs = FiletreeConfig::default();
    let rhs = FiletreeConfig {
        new_file: Key::normal('x'),
        open_all: Key::normal('y'),
        close_all: Key::normal('z'),
        ..Default::default()
    };
    lhs.merge(rhs);
    assert_eq!(Key::normal('x'), lhs.new_file);
    assert_eq!(Key::normal('y'), lhs.open_all);
    assert_eq!(Key::normal('z'), lhs.close_all);
}

#[test]
fn filetree_default_lists_directories_in_order() {
    let d = FiletreeConfig::default();
    assert!(!d.dirs_first && d.use_git && d.use_gitignore && d.ignore.is_empty());
    assert_eq!(1000, d.refresh_time);
    assert!(!d.show_hidden_by_default);
}
