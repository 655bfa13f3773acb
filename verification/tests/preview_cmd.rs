use projectable::config::Config;
use projectable::keys::{KeyCode, KeyEvent, KeyModifiers};
use projectable::path::PathBuf;
use projectable::preview::{Mode, PreviewError, PreviewFile};

fn p(s: &str) -> PathBuf {
    PathBuf::from_str(s)
}

#[test]
fn does_not_work_with_zero_args() {
    let mut config = Config::default();
    config.preview.preview_cmd = String::new();
    config.preview.git_pager = Some("test".to_owned());
    let mut previewer = PreviewFile::with_pager(&config.preview.git_pager);
    assert_eq!(
        Err(PreviewError::NoCommand),
        previewer.command_for(&p("/tmp/test.txt"), &config.preview.preview_cmd, '/')
    );
}

#[test]
fn works_with_one_arg() {
    let mut previewer = PreviewFile::new();
    assert_eq!(Ok("cat".to_owned()), previewer.command_for(&p("/tmp/test.txt"), &"cat".to_owned(), '/'));
}

#[test]
fn works_with_file_with_spaces() {
    let mut previewer = PreviewFile::new();
    assert_eq!(
        Ok("cat '/tmp/hello world'".to_owned()),
        previewer.command_for(&p("/tmp/hello world"), &"cat {}".to_owned(), '/')
    );
    assert_eq!(
        Ok("type \"/tmp/hello world\"".to_owned()),
        previewer.command_for(&p("/tmp/hello world"), &"type {}".to_owned(), '\\')
    );
}

#[test]
fn diff_mode_uses_git_with_pager() {
    let mut previewer = PreviewFile::with_pager(&Some("delta".to_owned()));
    previewer.toggle_mode();
    assert_eq!(
        Ok("git diff '/a' | delta".to_owned()),
        previewer.command_for(&p("/a"), &"cat {}".to_owned(), '/')
    );
    previewer.toggle_mode();
    assert_eq!(Ok("cat '/a'".to_owned()), previewer.command_for(&p("/a"), &"cat {}".to_owned(), '/'));
}

#[test]
fn preview_keys_scroll_by_the_scroll_amount() {
    let config = Config::default();
    let mut previewer = PreviewFile::new();
    let down = KeyEvent { code: KeyCode::Char('d'), modifiers: KeyModifiers::ctrl() };
    let up = KeyEvent { code: KeyCode::Char('u'), modifiers: KeyModifiers::ctrl() };
    previewer.handle_key(&down, &config);
    previewer.handle_key(&down, &config);
    assert_eq!(20, previewer.offset());
    previewer.handle_key(&up, &config);
    assert_eq!(10, previewer.offset());
    previewer.focus(false);
    previewer.handle_key(&down, &config);
    assert_eq!(10, previewer.offset());
    previewer.set_contents("text".to_owned());
    assert_eq!("text", previewer.contents());
    let _ = Mode::default();
}

#[test]
fn visible_offset_stops_at_the_last_line() {
    let config = projectable::config::Config::default();
    let mut previewer = PreviewFile::new();
    for _ in 0..4 {
        previewer.handle_key(&projectable::keys::KeyEvent {
            code: config.preview.down_key.code,
            modifiers: config.preview.down_key.mods,
        }, &config);
    }
    let scrolled = previewer.offset();
    assert!(scrolled > 0);
    assert_eq!(0, previewer.visible_offset(1));
    assert_eq!(0, previewer.offset());
}
