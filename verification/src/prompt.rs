//! A simple box that asks for the name of a new file or directory, typed at the end.

use vstd::prelude::*;
use crate::keys::{KeyCode, KeyEvent};
use crate::path::{main_separator, PathBuf, path_join, parse_path};
use crate::queue::{AppEvent, Queue};
use crate::text::{has_char, string_from_chars, str_chars};

verus! {

/// What the name typed is for.
#[derive(Debug, PartialEq, Eq, Default)]
pub enum InputOperations {
    /// A new file in the directory `at`.
    NewFile { at: PathBuf },
    /// A new directory in the directory `at`.
    NewDir { at: PathBuf },
    /// Nothing: the box is closed.
    #[default]
    NoOperations,
}

/// Whether the name `text` is acceptable for `op` on a platform with path separator `sep`:
/// it holds no `/` (nor `\` where that is the separator); no answer without an operation.
pub open spec fn valid_name(op: InputOperations, text: Seq<char>, sep: char) -> Option<bool> {
    match op {
        InputOperations::NoOperations => None,
        _ => Some(
            if sep == '\\' {
                !(has_char(text, '/') || has_char(text, '\\'))
            } else {
                !has_char(text, '/')
            },
        ),
    }
}

/// The box: the operation it serves, the events it sends and the name typed.
#[derive(Default)]
pub struct InputBox {
    operation: InputOperations,
    queue: Queue,
    text: Vec<char>,
}

fn holds(text: &Vec<char>, c: char) -> (r: bool)
    ensures
        r == has_char(text@, c),
{
    let mut i: usize = 0;
    while i < text.len()
        invariant
            i <= text@.len(),
            forall|j: int| 0 <= j < i ==> text@[j] != c,
        decreases text@.len() - i,
    {
        if text[i] == c {
            return true;
        }
        i = i + 1;
    }
    false
}

impl InputBox {
    pub closed spec fn spec_operation(&self) -> InputOperations {
        self.operation
    }

    pub closed spec fn spec_queue(&self) -> Queue {
        self.queue
    }

    pub closed spec fn spec_text(&self) -> Seq<char> {
        self.text@
    }

    /// A closed box with no text, sending its events to `queue`.
    pub fn new(queue: Queue) -> (r: InputBox)
        ensures
            r.spec_operation() == InputOperations::NoOperations,
            r.spec_queue() == queue,
            r.spec_text() == Seq::<char>::empty(),
    {
        InputBox { text: Vec::new(), queue, operation: InputOperations::NoOperations }
    }

    /// The operation the box serves.
    pub fn operation(&self) -> (r: &InputOperations)
        ensures
            *r == self.spec_operation(),
    {
        &self.operation
    }

    /// Opens the box for `operation` (or closes it); the text stays.
    pub fn set_operation(&mut self, operation: InputOperations)
        ensures
            final(self).spec_operation() == operation,
            final(self).spec_text() == old(self).spec_text(),
            final(self).spec_queue() == old(self).spec_queue(),
    {
        self.operation = operation;
    }

    /// The name typed.
    pub fn text(&self) -> (r: String)
        ensures
            r@ == self.spec_text(),
    {
        string_from_chars(self.text.as_slice())
    }

    /// Replaces the name typed.
    pub fn set_text(&mut self, text: &str)
        ensures
            final(self).spec_text() == text@,
            final(self).spec_operation() == old(self).spec_operation(),
            final(self).spec_queue() == old(self).spec_queue(),
    {
        self.text = str_chars(text);
    }

    /// Takes out the first event the box has sent, if any.
    pub fn pop_event(&mut self) -> (r: Option<AppEvent>)
        ensures
            old(self).spec_queue().events().len() == 0 ==> r is None,
            old(self).spec_queue().events().len() > 0 ==> r == Some(old(self).spec_queue().events()[0])
                && final(self).spec_queue().events() == old(self).spec_queue().events().drop_first(),
            final(self).spec_operation() == old(self).spec_operation(),
            final(self).spec_text() == old(self).spec_text(),
    {
        self.queue.pop()
    }

    /// Whether the box serves an operation.
    pub fn has_work(&self) -> (r: bool)
        ensures
            r == (self.spec_operation() != InputOperations::NoOperations),
    {
        match self.operation {
            InputOperations::NoOperations => false,
            _ => true,
        }
    }

    /// Closes the box and clears the name.
    pub fn reset(&mut self)
        ensures
            final(self).spec_operation() == InputOperations::NoOperations,
            final(self).spec_text() == Seq::<char>::empty(),
            final(self).spec_queue() == old(self).spec_queue(),
    {
        self.text = Vec::new();
        self.operation = InputOperations::NoOperations;
    }

    /// Whether the name is acceptable (see `valid_name`) with the path separator `sep`.
    pub fn has_valid_input_with(&self, sep: char) -> (r: Option<bool>)
        ensures
            r == valid_name(self.spec_operation(), self.spec_text(), sep),
    {
        match self.operation {
            InputOperations::NoOperations => None,
            _ => {
                let slash = holds(&self.text, '/');
                if sep == '\\' {
                    Some(!(slash || holds(&self.text, '\\')))
                } else {
                    Some(!slash)
                }
            },
        }
    }

    /// Whether the name is acceptable on this platform.
    pub fn has_valid_input(&self) -> (r: Option<bool>)
        ensures
            r == valid_name(self.spec_operation(), self.spec_text(), '/') || r == valid_name(
                self.spec_operation(),
                self.spec_text(),
                '\\',
            ),
    {
        self.has_valid_input_with(main_separator())
    }

    /// Handles a key press while the box is open (see `name_key_effect`).
    pub fn handle_key_with(&mut self, key: &KeyEvent, sep: char)
        ensures
            name_key_effect(*old(self), *final(self), *key, sep),
    {
        if !self.has_work() {
            return;
        }
        if key.code == KeyCode::Esc {
            self.reset();
            return;
        }
        if key.code == KeyCode::Enter {
            let valid = match self.has_valid_input_with(sep) {
                Some(v) => v,
                None => false,
            };
            if valid {
                let text = string_from_chars(self.text.as_slice());
                let event = match &self.operation {
                    InputOperations::NewFile { at } => AppEvent::NewFile(at.join_str(text.as_str())),
                    InputOperations::NewDir { at } => AppEvent::NewDir(at.join_str(text.as_str())),
                    InputOperations::NoOperations => {
                        return;
                    },
                };
                let ghost q0 = self.queue.events();
                self.queue.add(event);
                self.reset();
                proof {
                    assert(self.queue.events().drop_last() =~= q0);
                }
            }
            return;
        }
        match key.code {
            KeyCode::Char(c) => {
                if c == 'u' && key.modifiers.control {
                    self.text = Vec::new();
                } else {
                    self.text.push(c);
                }
            },
            KeyCode::Delete | KeyCode::Backspace => {
                let ghost before = self.text@;
                let _ = self.text.pop();
                proof {
                    if before.len() == 0 {
                        assert(self.text@ =~= before);
                    }
                }
            },
            _ => {},
        }
    }

    /// `handle_key_with` the platform's path separator.
    pub fn handle_key(&mut self, key: &KeyEvent)
        ensures
            name_key_effect(*old(self), *final(self), *key, '/') || name_key_effect(
                *old(self),
                *final(self),
                *key,
                '\\',
            ),
    {
        let sep = main_separator();
        self.handle_key_with(key, sep);
    }
}

/// The event that confirming the name `text` for `op` sends: the new entry `text` inside
/// the directory.
pub open spec fn named_event(op: InputOperations, text: Seq<char>, e: AppEvent) -> bool {
    match op {
        InputOperations::NewFile { at } => e matches AppEvent::NewFile(p) && p@ == path_join(at@, parse_path(text)),
        InputOperations::NewDir { at } => e matches AppEvent::NewDir(p) && p@ == path_join(at@, parse_path(text)),
        InputOperations::NoOperations => false,
    }
}

/// What a key press does to the box: nothing while it is closed; escape closes it and
/// clears the name; enter with an acceptable name sends the operation's event (see
/// `named_event`), closes the box and clears the name; `ctrl-u` clears the name; delete and
/// backspace drop the last character; any other character is appended.
pub open spec fn name_key_effect(before: InputBox, after: InputBox, key: KeyEvent, sep: char) -> bool {
    let text = before.spec_text();
    if before.spec_operation() == InputOperations::NoOperations {
        after == before
    } else if key.code == KeyCode::Esc {
        after.spec_operation() == InputOperations::NoOperations && after.spec_text() == Seq::<char>::empty()
            && after.spec_queue() == before.spec_queue()
    } else if key.code == KeyCode::Enter {
        if valid_name(before.spec_operation(), text, sep) == Some(true) {
            &&& after.spec_operation() == InputOperations::NoOperations
            &&& after.spec_text() == Seq::<char>::empty()
            &&& after.spec_queue().events().len() == before.spec_queue().events().len() + 1
            &&& after.spec_queue().events().drop_last() == before.spec_queue().events()
            &&& named_event(before.spec_operation(), text, after.spec_queue().events().last())
        } else {
            after == before
        }
    } else {
        &&& after.spec_operation() == before.spec_operation()
        &&& after.spec_queue() == before.spec_queue()
        &&& after.spec_text() == match key.code {
            KeyCode::Char(c) => if c == 'u' && key.modifiers.control {
                Seq::<char>::empty()
            } else {
                text.push(c)
            },
            KeyCode::Delete | KeyCode::Backspace => if text.len() > 0 {
                text.drop_last()
            } else {
                text
            },
            _ => text,
        }
    }
}

/// The operation that waits for confirmation in the simple confirmation popup.
#[derive(Debug, PartialEq, Eq, Default)]
pub enum PendingOperations {
    DeleteFile(PathBuf),
    #[default]
    NoPending,
}

/// The simple confirmation popup: the operation, which of its two choices (confirm,
/// deny) is selected, and the events it sends.
#[derive(Default)]
pub struct PendingPopup {
    operation: PendingOperations,
    selected: usize,
    queue: Queue,
}

impl PendingPopup {
    pub closed spec fn spec_operation(&self) -> PendingOperations {
        self.operation
    }

    pub closed spec fn spec_selected(&self) -> nat {
        self.selected as nat
    }

    pub closed spec fn spec_queue(&self) -> Queue {
        self.queue
    }

    /// A popup with nothing waiting, "confirm" selected, sending its events to `queue`.
    pub fn new(queue: Queue) -> (r: PendingPopup)
        ensures
            r.spec_operation() == PendingOperations::NoPending,
            r.spec_selected() == 0,
            r.spec_queue() == queue,
    {
        PendingPopup { operation: PendingOperations::NoPending, selected: 0, queue }
    }

    /// Lets `operation` wait for confirmation.
    pub fn set_operation(&mut self, operation: PendingOperations)
        ensures
            final(self).spec_operation() == operation,
            final(self).spec_selected() == old(self).spec_selected(),
            final(self).spec_queue() == old(self).spec_queue(),
    {
        self.operation = operation;
    }

    /// The choice selected: 0 to confirm, 1 to deny.
    pub fn selected(&self) -> (r: usize)
        ensures
            r == self.spec_selected(),
    {
        self.selected
    }

    /// Takes out the first event the popup has sent, if any.
    pub fn pop_event(&mut self) -> (r: Option<AppEvent>)
        ensures
            old(self).spec_queue().events().len() == 0 ==> r is None,
            old(self).spec_queue().events().len() > 0 ==> r == Some(old(self).spec_queue().events()[0]),
    {
        self.queue.pop()
    }

    /// Whether an operation waits.
    pub fn has_work(&self) -> (r: bool)
        ensures
            r == (self.spec_operation() != PendingOperations::NoPending),
    {
        match self.operation {
            PendingOperations::NoPending => false,
            _ => true,
        }
    }

    /// Handles a key press while an operation waits: `j` selects "deny", `k` selects
    /// "confirm", escape and `q` drop the operation, and enter sends the operation's event
    /// when "confirm" is selected and drops the operation either way.
    pub fn handle_key(&mut self, key: &KeyEvent)
        ensures
            old(self).spec_operation() == PendingOperations::NoPending ==> *final(self) == *old(self),
            old(self).spec_operation() != PendingOperations::NoPending ==> match key.code {
                KeyCode::Char('j') => final(self).spec_selected() == (if old(self).spec_selected() >= 1 {
                    old(self).spec_selected()
                } else {
                    old(self).spec_selected() + 1
                }) && final(self).spec_operation() == old(self).spec_operation()
                    && final(self).spec_queue() == old(self).spec_queue(),
                KeyCode::Char('k') => final(self).spec_selected() == (if old(self).spec_selected() == 0 {
                    0
                } else {
                    (old(self).spec_selected() - 1) as nat
                }) && final(self).spec_operation() == old(self).spec_operation()
                    && final(self).spec_queue() == old(self).spec_queue(),
                KeyCode::Esc | KeyCode::Char('q') => final(self).spec_operation() == PendingOperations::NoPending
                    && final(self).spec_selected() == 0 && final(self).spec_queue() == old(self).spec_queue(),
                KeyCode::Enter => final(self).spec_operation() == PendingOperations::NoPending
                    && final(self).spec_selected() == 0 && if old(self).spec_selected() == 1 {
                    final(self).spec_queue() == old(self).spec_queue()
                } else {
                    &&& final(self).spec_queue().events().len() == old(self).spec_queue().events().len() + 1
                    &&& final(self).spec_queue().events().drop_last() == old(self).spec_queue().events()
                    &&& final(self).spec_queue().events().last() matches AppEvent::DeleteFile(p)
                        && old(self).spec_operation() matches PendingOperations::DeleteFile(q) && p@ == q@
                },
                _ => *final(self) == *old(self),
            },
    {
        if !self.has_work() {
            return;
        }
        match key.code {
            KeyCode::Char('j') => {
                if self.selected < 1 {
                    self.selected = self.selected + 1;
                }
            },
            KeyCode::Char('k') => {
                if self.selected > 0 {
                    self.selected = self.selected - 1;
                }
            },
            KeyCode::Esc | KeyCode::Char('q') => {
                self.operation = PendingOperations::NoPending;
                self.selected = 0;
            },
            KeyCode::Enter => {
                if self.selected == 1 {
                    self.operation = PendingOperations::NoPending;
                    self.selected = 0;
                    return;
                }
                let event = match &self.operation {
                    PendingOperations::DeleteFile(path) => AppEvent::DeleteFile(path.duplicate()),
                    PendingOperations::NoPending => {
                        return;
                    },
                };
                let ghost q0 = self.queue.events();
                self.queue.add(event);
                self.operation = PendingOperations::NoPending;
                self.selected = 0;
                proof {
                    assert(self.queue.events().drop_last() =~= q0);
                }
            },
            _ => {},
        }
    }
}

} // verus!
