use projectable::path::PathBuf;
use projectable::queue::{AppEvent, Queue};
use projectable::refresh::{ChangeBuffer, FsChange, RefreshData};

fn p(s: &str) -> PathBuf {
    PathBuf::from_str(s)
}

#[test]
fn buffer_flushes_additions_then_deletions() {
    let mut buffer = ChangeBuffer::new();
    assert!(buffer.flush().is_empty());
    buffer.add_created(vec![p("/a"), p("/b")]);
    buffer.add_removed(vec![p("/c")]);
    buffer.add_created(vec![p("/d")]);
    assert_eq!(
        vec![
            vec![RefreshData::Add(p("/a")), RefreshData::Add(p("/b")), RefreshData::Add(p("/d"))],
            vec![RefreshData::Delete(p("/c"))],
        ],
        buffer.flush()
    );
    assert!(buffer.flush().is_empty());
}

#[test]
fn buffer_leaves_out_empty_batches() {
    let mut buffer = ChangeBuffer::new();
    buffer.add_removed(vec![p("/c")]);
    assert_eq!(vec![vec![RefreshData::Delete(p("/c"))]], buffer.flush());
}

#[test]
fn changes_are_held_while_suspended() {
    let mut buffer = ChangeBuffer::new();
    assert_eq!(None, buffer.route(FsChange::Created, vec![p("/a")], true));
    assert_eq!(
        Some(vec![RefreshData::Delete(p("/b"))]),
        buffer.route(FsChange::Removed, vec![p("/b")], false)
    );
    assert_eq!(None, buffer.route(FsChange::Other, vec![p("/z")], false));
    assert_eq!(vec![vec![RefreshData::Add(p("/a"))]], buffer.flush());
}

#[test]
fn queue_is_first_in_first_out() {
    let mut queue = Queue::new();
    assert!(queue.is_empty());
    queue.add(AppEvent::TogglePreviewMode);
    queue.add(AppEvent::RunCommand("ls".to_owned()));
    assert_eq!(2, queue.len());
    assert_eq!(Some(AppEvent::TogglePreviewMode), queue.pop());
    assert_eq!(Some(AppEvent::RunCommand("ls".to_owned())), queue.pop());
    assert_eq!(None, queue.pop());
}
