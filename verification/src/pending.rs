//! The popup that asks to confirm an operation before it is done.

use vstd::prelude::*;
use crate::keys::{KeyCode, KeyEvent};
use crate::path::PathBuf;
use crate::queue::{AppEvent, Queue};

verus! {

/// The operation that waits for confirmation.
#[derive(Debug, PartialEq, Eq, Default)]
pub enum PendingOperation {
    DeleteFile(PathBuf),
    #[default]
    NoPending,
}

/// The confirmation popup: the operation, which of its two choices (confirm, deny) is
/// selected, and the events it sends.
#[derive(Default)]
pub struct PendingPopup {
    operation: PendingOperation,
    selected: usize,
    queue: Queue,
}

/// What a key press does to the popup (`handle_key`): nothing while no operation waits;
/// `j` and `k` move the selection between the two choices; escape and `q` drop the
/// operation; enter on "confirm" sends the operation's event, and enter on either choice
/// drops the operation. Dropping the operation selects "confirm" again.
pub open spec fn pending_key_effect(before: PendingPopup, after: PendingPopup, key: KeyEvent) -> bool {
    let sel = before.spec_selected();
    if before.spec_operation() == PendingOperation::NoPending {
        after == before
    } else {
        match key.code {
            KeyCode::Char('j') => after.spec_operation() == before.spec_operation() && after.spec_queue()
                == before.spec_queue() && after.spec_selected() == (if sel == 1 {
                1
            } else {
                sel + 1
            }),
            KeyCode::Char('k') => after.spec_operation() == before.spec_operation() && after.spec_queue()
                == before.spec_queue() && after.spec_selected() == (if sel == 0 {
                0
            } else {
                (sel - 1) as nat
            }),
            KeyCode::Esc | KeyCode::Char('q') => after.spec_operation() == PendingOperation::NoPending
                && after.spec_selected() == 0 && after.spec_queue() == before.spec_queue(),
            KeyCode::Enter => {
                &&& after.spec_operation() == PendingOperation::NoPending
                &&& after.spec_selected() == 0
                &&& if sel == 1 {
                    after.spec_queue() == before.spec_queue()
                } else {
                    &&& after.spec_queue().events().len() == before.spec_queue().events().len() + 1
                    &&& after.spec_queue().events().drop_last() == before.spec_queue().events()
                    &&& after.spec_queue().events().last() matches AppEvent::DeleteFile(p) && before.spec_operation()
                        matches PendingOperation::DeleteFile(q) && p@ == q@
                }
            },
            _ => after == before,
        }
    }
}

impl PendingPopup {
    pub closed spec fn spec_operation(&self) -> PendingOperation {
        self.operation
    }

    pub closed spec fn spec_selected(&self) -> nat {
        self.selected as nat
    }

    pub closed spec fn spec_queue(&self) -> Queue {
        self.queue
    }

    /// The selection is one of the two choices.
    pub closed spec fn wf(&self) -> bool {
        self.selected <= 1
    }

    /// A popup with nothing waiting, "confirm" selected, sending its events to `queue`.
    pub fn new(queue: Queue) -> (r: PendingPopup)
        ensures
            r.wf(),
            r.spec_operation() == PendingOperation::NoPending,
            r.spec_selected() == 0,
            r.spec_queue() == queue,
    {
        PendingPopup { operation: PendingOperation::NoPending, selected: 0, queue }
    }

    /// The operation waiting.
    pub fn operation(&self) -> (r: &PendingOperation)
        ensures
            *r == self.spec_operation(),
    {
        &self.operation
    }

    /// Lets `operation` wait for confirmation.
    pub fn set_operation(&mut self, operation: PendingOperation)
        ensures
            final(self).spec_operation() == operation,
            final(self).spec_selected() == old(self).spec_selected(),
            final(self).spec_queue() == old(self).spec_queue(),
            old(self).wf() ==> final(self).wf(),
    {
        self.operation = operation;
    }

    /// Takes out the first event the popup has sent, if any.
    pub fn pop_event(&mut self) -> (r: Option<AppEvent>)
        ensures
            old(self).spec_queue().events().len() == 0 ==> r is None && final(self).spec_queue().events()
                == old(self).spec_queue().events(),
            old(self).spec_queue().events().len() > 0 ==> r == Some(old(self).spec_queue().events()[0])
                && final(self).spec_queue().events() == old(self).spec_queue().events().drop_first(),
            final(self).spec_operation() == old(self).spec_operation(),
            final(self).spec_selected() == old(self).spec_selected(),
            old(self).wf() ==> final(self).wf(),
    {
        self.queue.pop()
    }

    /// Whether an operation waits.
    pub fn has_work(&self) -> (r: bool)
        ensures
            r == (self.spec_operation() != PendingOperation::NoPending),
    {
        match self.operation {
            PendingOperation::NoPending => false,
            _ => true,
        }
    }

    /// The choice selected: 0 to confirm, 1 to deny.
    pub fn selected(&self) -> (r: usize)
        ensures
            r == self.spec_selected(),
    {
        self.selected
    }

    /// Selects the next choice, staying on the last.
    pub fn select_next(&mut self)
        requires
            old(self).wf(),
        ensures
            final(self).wf(),
            final(self).spec_selected() == (if old(self).spec_selected() == 1 {
                1
            } else {
                old(self).spec_selected() + 1
            }),
            final(self).spec_operation() == old(self).spec_operation(),
            final(self).spec_queue() == old(self).spec_queue(),
    {
        if self.selected == 1 {
            return;
        }
        self.selected = self.selected + 1;
    }

    /// Selects the previous choice, staying on the first.
    pub fn select_prev(&mut self)
        requires
            old(self).wf(),
        ensures
            final(self).wf(),
            final(self).spec_selected() == (if old(self).spec_selected() == 0 {
                0
            } else {
                (old(self).spec_selected() - 1) as nat
            }),
            final(self).spec_operation() == old(self).spec_operation(),
            final(self).spec_queue() == old(self).spec_queue(),
    {
        if self.selected == 0 {
            return;
        }
        self.selected = self.selected - 1;
    }

    /// Drops the operation and selects "confirm".
    pub fn reset_work(&mut self)
        ensures
            final(self).wf(),
            final(self).spec_operation() == PendingOperation::NoPending,
            final(self).spec_selected() == 0,
            final(self).spec_queue() == old(self).spec_queue(),
    {
        self.operation = PendingOperation::NoPending;
        self.selected = 0;
    }

    /// Handles a key press (see `pending_key_effect`).
    pub fn handle_key(&mut self, key: &KeyEvent)
        requires
            old(self).wf(),
        ensures
            final(self).wf(),
            pending_key_effect(*old(self), *final(self), *key),
    {
        if !self.has_work() {
            return;
        }
        match key.code {
            KeyCode::Char('j') => self.select_next(),
            KeyCode::Char('k') => self.select_prev(),
            KeyCode::Esc | KeyCode::Char('q') => self.reset_work(),
            KeyCode::Enter => {
                if self.selected == 1 {
                    self.reset_work();
                    return;
                }
                let event = match &self.operation {
                    PendingOperation::DeleteFile(path) => AppEvent::DeleteFile(path.duplicate()),
                    PendingOperation::NoPending => {
                        return;
                    },
                };
                let ghost q0 = self.queue.events();
                self.queue.add(event);
                self.reset_work();
                proof {
                    assert(self.queue.events().drop_last() =~= q0);
                }
            },
            _ => {},
        }
    }
}

/// While an operation waits, with one of the two choices selected: `j` selects the
/// second choice ("Deny") and `k` the first ("Confirm"); escape and `q` drop the
/// operation without sending anything; enter drops it too, and sends its event only
/// when "Confirm" was selected.
pub proof fn lemma_pending_keys(before: PendingPopup, after: PendingPopup, key: KeyEvent)
    requires
        pending_key_effect(before, after, key),
        before.spec_operation() != PendingOperation::NoPending,
        before.spec_selected() <= 1,
    ensures
        key.code == KeyCode::Char('j') ==> after.spec_selected() == 1 && after.spec_operation() == before.spec_operation(),
        key.code == KeyCode::Char('k') ==> after.spec_selected() == 0 && after.spec_operation() == before.spec_operation(),
        key.code == KeyCode::Esc || key.code == KeyCode::Char('q') ==> after.spec_operation() == PendingOperation::NoPending
            && after.spec_queue() == before.spec_queue(),
        key.code == KeyCode::Enter ==> after.spec_operation() == PendingOperation::NoPending,
        key.code == KeyCode::Enter && before.spec_selected() == 1 ==> after.spec_queue() == before.spec_queue(),
        key.code == KeyCode::Enter && before.spec_selected() == 0 ==> after.spec_queue().events().len()
            == before.spec_queue().events().len() + 1,
{
}

} // verus!
