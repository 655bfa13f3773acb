use projectable::app::{App, Step};
use projectable::config::Config;
use projectable::input_box::InputOperation;
use projectable::keys::{KeyCode, KeyEvent, KeyModifiers};
use projectable::path::PathBuf;
use projectable::pending::PendingOperation;
use projectable::popup::Preset;
use projectable::preview::Mode;
use projectable::queue::{AppEvent, Queue};
use projectable::tree::{Filetree, TreeAction};

const ROOT: &str = "/project";

fn p(s: &str) -> PathBuf {
    PathBuf::from_str(s)
}

fn under(name: &str) -> PathBuf {
    p(&format!("{ROOT}/{name}"))
}

fn app(entries: &[&str], cwd: &str) -> App {
    let paths: Vec<PathBuf> = entries.iter().map(|e| under(e)).collect();
    let tree = Filetree::from_paths(p(ROOT), &paths, Queue::new());
    App::new(p(ROOT), &p(cwd), tree, &None)
}

fn ch(c: char) -> KeyEvent {
    KeyEvent { code: KeyCode::Char(c), modifiers: KeyModifiers::none() }
}

fn key(code: KeyCode) -> KeyEvent {
    KeyEvent { code, modifiers: KeyModifiers::none() }
}

/// Steps until an event asks for outside work, or nothing waits.
fn next_outside(app: &mut App) -> Option<AppEvent> {
    loop {
        match app.step() {
            Step::Idle => return None,
            Step::Handled => {}
            Step::Outside(e) => return Some(e),
        }
    }
}

fn drain(app: &mut App) -> Vec<AppEvent> {
    let mut out = Vec::new();
    while let Some(e) = next_outside(app) {
        out.push(e);
    }
    out
}

#[test]
fn starting_previews_the_opened_entry() {
    let mut app = app(&["a.txt", "b.txt"], "/project/b.txt");
    assert_eq!(
        vec![AppEvent::PreviewFile(under("a.txt")), AppEvent::PreviewFile(under("b.txt"))],
        drain(&mut app)
    );
    assert_eq!(Step::Idle, app.step());
}

#[test]
fn quit_key_quits_without_popups() {
    let config = Config::default();
    let mut app = app(&["a.txt"], ROOT);
    assert!(!app.should_quit());
    app.handle_key(&ch('q'), &config);
    assert!(app.should_quit());
}

#[test]
fn help_key_opens_help() {
    let config = Config::default();
    let mut app = app(&["a.txt"], ROOT);
    app.handle_key(&ch('?'), &config);
    assert_eq!(Preset::Help, app.text_popup().preset());
    app.handle_key(&ch('q'), &config);
    assert_eq!(Preset::Nothing, app.text_popup().preset());
    assert!(!app.should_quit());
}

#[test]
fn deleting_asks_first_then_hands_out_the_deletion() {
    let config = Config::default();
    let mut app = app(&["a.txt", "b.txt"], ROOT);
    drain(&mut app);

    app.handle_key(&ch('d'), &config);
    assert_eq!(vec![AppEvent::PreviewFile(under("a.txt"))], drain(&mut app));
    assert_eq!(&PendingOperation::DeleteFile(under("a.txt")), app.pending().operation());

    app.handle_key(&key(KeyCode::Enter), &config);
    assert_eq!(vec![AppEvent::DeleteFile(under("a.txt"))], drain(&mut app));
    assert_eq!(&PendingOperation::NoPending, app.pending().operation());

    assert!(app.deleted(&under("a.txt")).is_ok());
    assert_eq!(vec![AppEvent::PreviewFile(under("b.txt"))], drain(&mut app));
    assert_eq!(1, app.tree().listing().len());
}

#[test]
fn new_file_goes_through_the_text_box() {
    let config = Config::default();
    let mut app = app(&["a.txt"], ROOT);
    drain(&mut app);

    app.handle_key(&ch('n'), &config);
    drain(&mut app);
    assert_eq!(&InputOperation::NewFile { at: p(ROOT) }, app.input_box().operation());
    for c in "b.txt".chars() {
        app.handle_key(&ch(c), &config);
    }
    app.handle_key(&key(KeyCode::Enter), &config);
    assert_eq!(vec![AppEvent::NewFile(under("b.txt"))], drain(&mut app));
}

#[test]
fn keys_do_not_reach_the_tree_while_a_popup_is_open() {
    let config = Config::default();
    let mut app = app(&["a.txt", "b.txt"], ROOT);
    drain(&mut app);
    app.handle_key(&ch('?'), &config);
    assert_eq!(TreeAction::Nothing, app.handle_key(&ch('j'), &config));
    assert_eq!(0, app.tree().listing().selected().unwrap());
    assert!(!app.tree().focused());
    assert!(drain(&mut app).is_empty());
}

#[test]
fn toggling_the_preview_mode_is_handled_inside() {
    let config = Config::default();
    let mut app = app(&["a.txt"], ROOT);
    drain(&mut app);
    app.handle_key(&ch('t'), &config);
    assert_eq!(vec![AppEvent::PreviewFile(under("a.txt"))], drain(&mut app));
    assert_eq!(Mode::Diff, app.previewer().mode());
}

#[test]
fn preview_command_quotes_the_file() {
    let config = Config::default();
    let mut app = app(&["a.txt"], ROOT);
    let cmd = app.preview_command(&under("a.txt"), &config).unwrap();
    assert!(cmd.contains("'/project/a.txt'") || cmd.contains("\"/project/a.txt\""));
    app.set_preview("hello".to_owned());
    assert_eq!("hello", app.previewer().contents().as_str());
}
