//! The events that parts of the application hand to each other, in order.

use vstd::prelude::*;
use crate::input_box::InputOperation;
use crate::path::PathBuf;
use crate::pending::PendingOperation;

verus! {

/// Something a part of the application asks the application to do.
#[derive(Debug, PartialEq, Eq)]
pub enum AppEvent {
    OpenPopup(PendingOperation),
    OpenInput(InputOperation),
    DeleteFile(PathBuf),
    OpenFile(PathBuf),
    NewFile(PathBuf),
    NewDir(PathBuf),
    PreviewFile(PathBuf),
    TogglePreviewMode,
    RunCommand(String),
    SearchFiles(String),
    GotoFile(PathBuf),
    Mark(PathBuf),
    DeleteMark(PathBuf),
    SpecialCommand(PathBuf),
}

/// What the application hands back to its caller.
#[derive(Debug, PartialEq, Eq)]
pub enum TerminalEvent {
    OpenFile(PathBuf),
}

/// Events waiting to be handled, first in first out.
#[derive(Debug, Default)]
pub struct Queue {
    events: Vec<AppEvent>,
}

impl Queue {
    pub closed spec fn events(&self) -> Seq<AppEvent> {
        self.events@
    }

    /// An empty queue.
    pub fn new() -> (r: Queue)
        ensures
            r.events() == Seq::<AppEvent>::empty(),
    {
        Queue { events: Vec::new() }
    }

    /// Puts `event` last.
    pub fn add(&mut self, event: AppEvent)
        ensures
            final(self).events() == old(self).events().push(event),
    {
        self.events.push(event);
    }

    /// Takes the first event out, if there is one.
    pub fn pop(&mut self) -> (r: Option<AppEvent>)
        ensures
            old(self).events().len() == 0 ==> r is None && final(self).events() == old(self).events(),
            old(self).events().len() > 0 ==> r == Some(old(self).events()[0]) && final(self).events()
                == old(self).events().drop_first(),
    {
        if self.events.len() == 0 {
            return None;
        }
        let e = self.events.remove(0);
        proof {
            assert(self.events@ =~= old(self).events@.drop_first());
        }
        Some(e)
    }

    /// Whether no event waits.
    pub fn is_empty(&self) -> (r: bool)
        ensures
            r == (self.events().len() == 0),
    {
        self.events.len() == 0
    }

    /// The number of events waiting.
    pub fn len(&self) -> (r: usize)
        ensures
            r == self.events().len(),
    {
        self.events.len()
    }
}

/// Events come out of the queue in the order they went in: after adding `a` then `b` to
/// an empty queue, the events waiting are `a` then `b`.
pub proof fn lemma_queue_fifo(q: Seq<AppEvent>, a: AppEvent, b: AppEvent)
    requires
        q.len() == 0,
    ensures
        q.push(a).push(b)[0] == a,
        q.push(a).push(b).drop_first() == seq![b],
{
    assert(q.push(a).push(b).drop_first() =~= seq![b]);
}

} // verus!
