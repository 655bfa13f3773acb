use assert_fs::fixture::{FileTouch, PathChild};
use projectable::config::{Config, Key};
use projectable::input_box::InputOperation;
use projectable::items::{Item, ItemsIndex};
use projectable::keys::{KeyCode, KeyEvent, KeyModifiers};
use projectable::path::PathBuf;
use projectable::pending::PendingOperation;
use projectable::queue::{AppEvent, Queue};
use projectable::refresh::RefreshData;
use projectable::tree::{Filetree, GitStatus, TreeAction};

const ROOT: &str = "/project";

fn p(s: &str) -> PathBuf {
    PathBuf::from_str(s)
}

fn under(name: &str) -> PathBuf {
    p(&format!("{ROOT}/{name}"))
}

/// A tree of the entries a walk of the project would give, in that order.
fn tree(entries: &[&str]) -> Filetree {
    let paths: Vec<PathBuf> = entries.iter().map(|e| under(e)).collect();
    Filetree::from_paths(p(ROOT), &paths, Queue::new())
}

fn key(code: KeyCode) -> KeyEvent {
    KeyEvent { code, modifiers: KeyModifiers::none() }
}

fn ch(c: char) -> KeyEvent {
    key(KeyCode::Char(c))
}

fn shifted(c: char) -> KeyEvent {
    KeyEvent { code: KeyCode::Char(c), modifiers: KeyModifiers { shift: true, ..KeyModifiers::none() } }
}

fn ctrl(c: char) -> KeyEvent {
    KeyEvent { code: KeyCode::Char(c), modifiers: KeyModifiers::ctrl() }
}

fn events(tree: &mut Filetree) -> Vec<AppEvent> {
    let mut out = Vec::new();
    while let Some(e) = tree.pop_event() {
        out.push(e);
    }
    out
}

#[test]
fn filetree_new_filetree_selects_first() {
    let filetree = tree(&["test.txt"]);
    assert_eq!(&under("test.txt"), filetree.get_selected().unwrap().path());
}

#[test]
fn sends_delete_event() {
    let config = Config::default();
    let mut filetree = tree(&["test.txt"]);
    filetree.handle_key(&ch('d'), &config);
    assert!(events(&mut filetree).contains(&AppEvent::OpenPopup(PendingOperation::DeleteFile(under("test.txt")))));
}

#[test]
fn sends_new_file_and_new_dir_events() {
    let config = Config::default();
    let mut filetree = tree(&["test.txt"]);

    filetree.handle_key(&ch('n'), &config);
    assert!(events(&mut filetree).contains(&AppEvent::OpenInput(InputOperation::NewFile { at: p(ROOT) })));

    filetree.handle_key(&shifted('N'), &config);
    assert!(events(&mut filetree).contains(&AppEvent::OpenInput(InputOperation::NewDir { at: p(ROOT) })));
}

#[test]
fn makes_new_file_as_sibling_when_selected_dir_is_closed() {
    let config = Config::default();
    let mut filetree = tree(&["test", "test/test.txt"]);
    assert_eq!(&under("test"), filetree.listing().selected_item().unwrap().path());

    filetree.handle_key(&ch('n'), &config);
    assert!(events(&mut filetree).contains(&AppEvent::OpenInput(InputOperation::NewFile { at: p(ROOT) })));
}

#[test]
fn makes_new_file_as_child_when_selected_dir_is_open() {
    let config = Config::default();
    let mut filetree = tree(&["test", "test/test.txt"]);
    filetree.listing_mut().toggle_fold();

    filetree.handle_key(&ch('n'), &config);
    assert!(events(&mut filetree).contains(&AppEvent::OpenInput(InputOperation::NewFile { at: under("test") })));
}

#[test]
fn enter_opens_when_over_dir() {
    let config = Config::default();
    let mut filetree = tree(&["test", "test/test.txt"]);
    filetree.listing_mut().toggle_fold();

    filetree.handle_key(&key(KeyCode::Enter), &config);
    let selected = filetree.listing().selected().unwrap();
    assert!(filetree.listing().is_folded(&ItemsIndex::Number(selected)).unwrap());
}

#[test]
fn enter_sends_open_file_when_over_files() {
    let config = Config::default();
    let mut filetree = tree(&["test.txt"]);
    filetree.handle_key(&key(KeyCode::Enter), &config);
    assert!(events(&mut filetree).contains(&AppEvent::OpenFile(under("test.txt"))));
}

#[test]
fn can_jump_down_by_three() {
    let config = Config::default();
    let mut filetree = tree(&["test.txt", "test2.txt", "test3.txt", "test4.txt"]);
    filetree.handle_key(&ctrl('n'), &config);
    assert_eq!(3, filetree.listing().selected().unwrap());
}

#[test]
fn can_jump_up_by_three() {
    let config = Config::default();
    let mut filetree = tree(&["test.txt", "test2.txt", "test3.txt", "test4.txt"]);
    for input in [shifted('G'), ctrl('p')] {
        filetree.handle_key(&input, &config);
    }
    assert_eq!(0, filetree.listing().selected().unwrap());
}

#[test]
fn can_send_run_cmd() {
    let config = Config::default();
    let mut filetree = tree(&["test.txt"]);
    filetree.handle_key(&ch('e'), &config);
    assert!(events(&mut filetree).contains(&AppEvent::OpenInput(InputOperation::Command { to: under("test.txt") })));
}

#[test]
fn can_send_toggle_preview_cmd() {
    let config = Config::default();
    let mut filetree = tree(&[]);
    filetree.handle_key(&ch('t'), &config);
    assert!(events(&mut filetree).contains(&AppEvent::TogglePreviewMode));
}

#[test]
fn search_key_hands_out_every_entry() {
    let config = Config::default();
    let mut empty = tree(&[]);
    assert_eq!(TreeAction::Search(Vec::new()), empty.handle_key(&ch('/'), &config));

    let mut filetree = tree(&["a", "a/x.txt", "b.txt"]);
    assert_eq!(
        TreeAction::Search(vec![under("b.txt"), under("a"), under("a/x.txt")]),
        filetree.handle_key(&ch('/'), &config)
    );
}

#[test]
fn keys_for_outside_work_are_handed_back() {
    let config = Config::default();
    let mut filetree = tree(&["test.txt"]);
    events(&mut filetree);
    assert_eq!(TreeAction::FilterGitModified, filetree.handle_key(&shifted('T'), &config));
    assert_eq!(TreeAction::Refresh, filetree.handle_key(&ch('\\'), &config));
    assert_eq!(TreeAction::ToggleDotfiles, filetree.handle_key(&ch('.'), &config));
    assert!(events(&mut filetree).is_empty());
}

#[test]
fn unfocused_tree_takes_no_keys() {
    let config = Config::default();
    let mut filetree = tree(&["test.txt"]);
    events(&mut filetree);
    filetree.focus(false);
    assert_eq!(TreeAction::Nothing, filetree.handle_key(&ch('d'), &config));
    assert!(events(&mut filetree).is_empty());
}

#[test]
fn partial_refresh_delete_goes_to_same_item() {
    let mut filetree = tree(&["test", "test/test.txt", "test/test2.txt"]);
    filetree.listing_mut().unfold_all();
    filetree.listing_mut().select(&ItemsIndex::Number(1));
    let selected = filetree.listing().selected_item().unwrap().path().duplicate();
    filetree.partial_refresh(&RefreshData::Delete(selected)).unwrap();
    assert_eq!(1, filetree.listing().selected().unwrap());
}

#[test]
fn partial_refresh_goes_to_parent_if_only_child() {
    let mut filetree = tree(&["test", "test/test.txt"]);
    filetree.listing_mut().unfold_all();
    filetree.listing_mut().select(&ItemsIndex::Number(1));
    let selected = filetree.listing().selected_item().unwrap().path().duplicate();
    filetree.partial_refresh(&RefreshData::Delete(selected)).unwrap();
    assert_eq!(0, filetree.listing().selected().unwrap());
}

#[test]
fn can_send_search_cmd() {
    let config = Config::default();
    let mut filetree = tree(&[]);
    assert_eq!(TreeAction::Search(Vec::new()), filetree.handle_key(&ch('/'), &config));
}

#[test]
fn can_open_all() {
    let mut filetree = tree(&[
        "test.txt",
        "test",
        "test/test2.txt",
        "test2",
        "test2/test4",
        "test2/test4/test.txt",
    ]);
    filetree.open_all();
    assert_eq!(6, filetree.listing().len());
}

#[test]
fn can_mark_selected() {
    let config = Config::default();
    let mut filetree = tree(&["test.txt"]);
    filetree.handle_key(&ch('m'), &config);
    assert!(events(&mut filetree).contains(&AppEvent::Mark(under("test.txt"))));
}

#[test]
fn swallow_invalid_delete_external_events() {
    let mut filetree = tree(&["test.txt"]);
    filetree.handle_refresh(&[RefreshData::Delete(p("does_not_exist.txt"))]);
    assert_eq!(1, filetree.listing().len());
}

#[test]
fn opening_path_adds_preview_event_to_queue() {
    let mut filetree = tree(&["test.txt"]);
    filetree.open_path(&under("test.txt"));
    assert!(events(&mut filetree).contains(&AppEvent::PreviewFile(under("test.txt"))));
}

#[test]
fn opening_the_root_does_nothing() {
    let mut filetree = tree(&["test.txt"]);
    events(&mut filetree);
    filetree.open_path(&p(ROOT));
    assert!(events(&mut filetree).is_empty());
}

#[test]
fn can_partial_refresh_to_add_files() {
    let temp = assert_fs::TempDir::new().unwrap();
    temp.child("test.txt").touch().unwrap();
    temp.child("test2.txt").touch().unwrap();
    let root = p(&temp.path().to_string_lossy());
    let walked = vec![root.join_str("test.txt"), root.join_str("test2.txt")];
    let mut filetree = Filetree::from_paths(root.duplicate(), &walked, Queue::new());
    temp.child("new.txt").touch().unwrap();

    assert_eq!(2, filetree.listing().len());
    assert!(filetree.partial_refresh(&RefreshData::Add(root.join_str("new.txt"))).is_ok());
    assert_eq!(3, filetree.listing().len());
    assert!(filetree.listing().items().contains(&&Item::File(root.join_str("new.txt"))));
    assert!(filetree.partial_refresh(&RefreshData::Add(root.join_str("gone.txt"))).is_ok());
    assert_eq!(3, filetree.listing().len());
}

#[test]
fn can_filter_include_certain_files() {
    let mut filetree = tree(&["test.txt", "test2.txt"]);
    filetree.filter_include(&[under("test.txt"), under("test2.txt")], &[under("test.txt")]);
    assert_eq!(vec![&Item::File(under("test.txt"))], filetree.listing().items());
}

#[test]
fn toggling_dotfiles_flips_the_choice() {
    let mut filetree = tree(&["test.txt"]);
    assert!(!filetree.showing_hidden());
    filetree.toggle_dotfiles(&[under("test.txt"), under(".test2.txt")]);
    assert!(filetree.showing_hidden());
    assert_eq!(2, filetree.listing().len());
}

#[test]
fn arbitrary_keys_are_fed_into_custom_commands() {
    let config = Config { commands: vec![(Key::normal('z'), "testing".to_owned())], ..Config::default() };
    let mut filetree = tree(&["test.txt", "test2.txt"]);
    filetree.handle_key(&ch('z'), &config);
    assert!(events(&mut filetree).contains(&AppEvent::RunCommand("testing".to_owned())));
}

#[test]
fn custom_commands_are_performed_with_substitutions() {
    let config = Config {
        commands: vec![
            (Key::normal('z'), "vim {}".to_owned()),
            (Key::normal('x'), "nvim {...}".to_owned()),
        ],
        ..Config::default()
    };
    let mut filetree = tree(&["test.txt"]);

    filetree.handle_key(&ch('z'), &config);
    assert!(events(&mut filetree).contains(&AppEvent::RunCommand(format!("vim {ROOT}/test.txt"))));
    filetree.handle_key(&ch('x'), &config);
    assert!(events(&mut filetree)
        .contains(&AppEvent::OpenInput(InputOperation::SpecialCommand("nvim {...}".to_owned()))));
}

#[test]
fn rows_indent_entries_and_sign_directories() {
    let config = Config::default();
    let mut filetree = tree(&["a.txt", "src", "src/main.rs"]);
    filetree.open_all();
    let marks = vec![under("a.txt")];
    let rows = filetree.rows(&marks, &Vec::new(), &config);
    assert_eq!(3, rows.len());
    assert!(rows.contains(&("  \u{25bc} src".to_string(), Some(config.filetree.dir_style))));
    assert!(rows.contains(&("      main.rs".to_string(), None)));
    assert!(rows.contains(&("    a.txt".to_string(), Some(config.filetree.marks_style))));
    for (row, item) in rows.iter().zip(filetree.listing().items()) {
        assert!(row.0.ends_with(&item.path().file_name().unwrap()));
    }

    filetree.close_all();
    let rows = filetree.rows(&Vec::new(), &Vec::new(), &config);
    assert!(rows.contains(&("  \u{25b6} src".to_string(), Some(config.filetree.dir_style))));
    assert!(rows.contains(&("    a.txt".to_string(), None)));
    assert_eq!(2, rows.len());
}

#[test]
fn key_is_safe_refuses_going_to_the_bottom_of_an_empty_tree() {
    let config = Config::default();
    let empty = tree(&[]);
    assert!(!empty.key_is_safe(&shifted('G'), &config));
    assert!(empty.key_is_safe(&ch('j'), &config));
    let filled = tree(&["a.txt"]);
    assert!(filled.key_is_safe(&shifted('G'), &config));
}

#[test]
fn rows_show_git_statuses() {
    let config = Config::default();
    let mut filetree = tree(&["a.txt", "b.txt", "c.txt", "d.txt", "src", "src/main.rs"]);
    filetree.open_all();
    let statuses = vec![
        (under("a.txt"), GitStatus::WorktreeNew),
        (under("b.txt"), GitStatus::IndexModified),
        (under("c.txt"), GitStatus::WorktreeModified),
        (under("d.txt"), GitStatus::IndexNew),
        (under("src/main.rs"), GitStatus::Other),
    ];
    let rows = filetree.rows(&Vec::new(), &statuses, &config);
    assert!(rows.contains(&("  + a.txt".to_string(), Some(config.filetree.git_new_style))));
    assert!(rows.contains(&("  ~ b.txt".to_string(), Some(config.filetree.added_style))));
    assert!(rows.contains(&("  ~ c.txt".to_string(), Some(config.filetree.git_modified_style))));
    assert!(rows.contains(&("  ~ d.txt".to_string(), None)));
    assert!(rows.contains(&("      main.rs".to_string(), None)));
    assert!(rows.contains(&("  \u{25bc} src".to_string(), Some(config.filetree.dir_style))));
}
