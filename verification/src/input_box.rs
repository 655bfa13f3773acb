//! A one-line text box that asks for a name, a command or a search.

use vstd::prelude::*;
use crate::keys::{KeyCode, KeyEvent};
use crate::path::{main_separator, PathBuf, PathView, path_join, parse_path, path_text};
use crate::queue::{AppEvent, Queue};
use crate::text::{has_char, replace_all, replace_str, str_chars, str_contains_char, string_from_chars};

verus! {

/// What the text typed is for.
#[derive(Debug, PartialEq, Eq, Default)]
pub enum InputOperation {
    /// A new file in the directory `at`.
    NewFile { at: PathBuf },
    /// A new directory in the directory `at`.
    NewDir { at: PathBuf },
    /// A command to run on the path `to`.
    Command { to: PathBuf },
    /// A search for files.
    SearchFiles,
    /// A command in which `{...}` stands for the text typed.
    SpecialCommand(String),
    /// Nothing: the box is closed.
    #[default]
    NoOperations,
}

/// Whether `text` is acceptable for `op` on a platform with path separator `sep`: empty
/// text never is; a new entry's name holds no `/` (nor `\` where that is the separator);
/// no answer without an operation.
pub open spec fn valid_input(op: InputOperation, text: Seq<char>, sep: char) -> Option<bool> {
    if text.len() == 0 {
        Some(false)
    } else {
        match op {
            InputOperation::NewFile { .. } | InputOperation::NewDir { .. } => Some(
                if sep == '\\' {
                    !(has_char(text, '/') || has_char(text, '\\'))
                } else {
                    !has_char(text, '/')
                },
            ),
            InputOperation::NoOperations => None,
            _ => Some(true),
        }
    }
}

/// The text box: the operation it serves, the events it sends, the text typed and the
/// cursor, counted from the end of the text.
#[derive(Default)]
pub struct InputBox {
    operation: InputOperation,
    queue: Queue,
    text: Vec<char>,
    cursor_offset: u32,
}

impl InputBox {
    pub closed spec fn spec_operation(&self) -> InputOperation {
        self.operation
    }

    pub closed spec fn spec_queue(&self) -> Queue {
        self.queue
    }

    /// The operation the box serves.
    pub fn operation(&self) -> (r: &InputOperation)
        ensures
            *r == self.spec_operation(),
    {
        &self.operation
    }

    /// Opens the box for `operation` (or closes it); the text stays.
    pub fn set_operation(&mut self, operation: InputOperation)
        ensures
            final(self).spec_operation() == operation,
            final(self).spec_text() == old(self).spec_text(),
            final(self).spec_offset() == old(self).spec_offset(),
            final(self).spec_queue() == old(self).spec_queue(),
            old(self).wf() ==> final(self).wf(),
    {
        self.operation = operation;
    }

    /// Takes out the first event the box has sent, if any.
    pub fn pop_event(&mut self) -> (r: Option<AppEvent>)
        ensures
            old(self).spec_queue().events().len() == 0 ==> r is None && final(self).spec_queue().events()
                == old(self).spec_queue().events(),
            old(self).spec_queue().events().len() > 0 ==> r == Some(old(self).spec_queue().events()[0])
                && final(self).spec_queue().events() == old(self).spec_queue().events().drop_first(),
            final(self).spec_operation() == old(self).spec_operation(),
            final(self).spec_text() == old(self).spec_text(),
            final(self).spec_offset() == old(self).spec_offset(),
            old(self).wf() ==> final(self).wf(),
    {
        self.queue.pop()
    }

    pub closed spec fn spec_text(&self) -> Seq<char> {
        self.text@
    }

    pub closed spec fn spec_offset(&self) -> nat {
        self.cursor_offset as nat
    }

    /// The cursor lies within the text.
    pub closed spec fn wf(&self) -> bool {
        self.cursor_offset <= self.text@.len() <= u32::MAX
    }

    /// A closed box with no text, sending its events to `queue`.
    pub fn new(queue: Queue) -> (r: InputBox)
        ensures
            r.wf(),
            r.spec_operation() == InputOperation::NoOperations,
            r.spec_queue() == queue,
            r.spec_text() == Seq::<char>::empty(),
            r.spec_offset() == 0,
    {
        InputBox { text: Vec::new(), queue, operation: InputOperation::NoOperations, cursor_offset: 0 }
    }

    /// The text typed.
    pub fn text(&self) -> (r: String)
        ensures
            r@ == self.spec_text(),
    {
        string_from_chars(self.text.as_slice())
    }

    /// Replaces the text typed; the cursor keeps its distance from the end, within the text.
    pub fn set_text(&mut self, text: &str)
        requires
            text@.len() <= u32::MAX,
        ensures
            final(self).wf(),
            final(self).spec_text() == text@,
            final(self).spec_operation() == old(self).spec_operation(),
            final(self).spec_queue() == old(self).spec_queue(),
            final(self).spec_offset() == if old(self).spec_offset() <= text@.len() {
                old(self).spec_offset()
            } else {
                text@.len()
            },
    {
        self.text = str_chars(text);
        if self.cursor_offset as usize > self.text.len() {
            self.cursor_offset = self.text.len() as u32;
        }
    }

    /// The cursor's distance from the end of the text.
    pub fn cursor_offset(&self) -> (r: u32)
        ensures
            r == self.spec_offset(),
    {
        self.cursor_offset
    }

    /// Whether the box serves an operation.
    pub fn has_work(&self) -> (r: bool)
        ensures
            r == (self.spec_operation() != InputOperation::NoOperations),
    {
        match self.operation {
            InputOperation::NoOperations => false,
            _ => true,
        }
    }

    /// Closes the box and clears the text.
    pub fn reset(&mut self)
        requires
            old(self).wf(),
        ensures
            final(self).wf(),
            final(self).spec_operation() == InputOperation::NoOperations,
            final(self).spec_text() == Seq::<char>::empty(),
            final(self).spec_queue() == old(self).spec_queue(),
            final(self).spec_offset() == 0,
    {
        self.text = Vec::new();
        self.operation = InputOperation::NoOperations;
        self.cursor_offset = 0;
    }

    /// Moves the cursor one character left, not past the start of the text.
    pub fn cursor_left(&mut self)
        requires
            old(self).wf(),
        ensures
            final(self).wf(),
            final(self).spec_text() == old(self).spec_text(),
            final(self).spec_operation() == old(self).spec_operation(),
            final(self).spec_queue() == old(self).spec_queue(),
            final(self).spec_offset() == if old(self).spec_offset() < old(self).spec_text().len() {
                old(self).spec_offset() + 1
            } else {
                old(self).spec_text().len()
            },
    {
        if (self.cursor_offset as usize) < self.text.len() {
            self.cursor_offset = self.cursor_offset + 1;
        }
    }

    /// Moves the cursor one character right, not past the end of the text.
    pub fn cursor_right(&mut self)
        requires
            old(self).wf(),
        ensures
            final(self).wf(),
            final(self).spec_text() == old(self).spec_text(),
            final(self).spec_operation() == old(self).spec_operation(),
            final(self).spec_queue() == old(self).spec_queue(),
            final(self).spec_offset() == if old(self).spec_offset() == 0 {
                0
            } else {
                (old(self).spec_offset() - 1) as nat
            },
    {
        if self.cursor_offset == 0 {
            return;
        }
        self.cursor_offset = self.cursor_offset - 1;
    }

    /// The cursor's position from the start of the text.
    pub fn cursor_pos(&self) -> (r: usize)
        requires
            self.wf(),
        ensures
            r == self.spec_text().len() - self.spec_offset(),
    {
        self.text.len() - self.cursor_offset as usize
    }

    /// Whether the text is acceptable (see `valid_input`) on a platform whose path
    /// separator is `sep`.
    pub fn has_valid_input_with(&self, sep: char) -> (r: Option<bool>)
        ensures
            r == valid_input(self.spec_operation(), self.spec_text(), sep),
    {
        if self.text.len() == 0 {
            return Some(false);
        }
        match self.operation {
            InputOperation::NewFile { .. } | InputOperation::NewDir { .. } => {
                let slash = contains_char(&self.text, '/');
                if sep == '\\' {
                    Some(!(slash || contains_char(&self.text, '\\')))
                } else {
                    Some(!slash)
                }
            },
            InputOperation::NoOperations => None,
            _ => Some(true),
        }
    }

    /// Whether the text is acceptable on this platform.
    pub fn has_valid_input(&self) -> (r: Option<bool>)
        ensures
            r == valid_input(self.spec_operation(), self.spec_text(), '/') || r == valid_input(
                self.spec_operation(),
                self.spec_text(),
                '\\',
            ),
    {
        self.has_valid_input_with(main_separator())
    }
}

fn contains_char(text: &Vec<char>, c: char) -> (r: bool)
    ensures
        r == has_char(text@, c),
{
    let mut i: usize = 0;
    while i < text.len()
        invariant
            i <= text@.len(),
            forall|j: int| 0 <= j < i ==> text@[j] != c,
        decreases text@.len() - i,
    {
        if text[i] == c {
            return true;
        }
        i = i + 1;
    }
    false
}

/// The event that confirming `text` for `op` sends: the entry `text` inside the directory
/// for a new file or directory, the command with every `{}` replaced by the path's text,
/// or the search.
pub open spec fn confirmed_event(op: InputOperation, text: Seq<char>, e: AppEvent) -> bool {
    match op {
        InputOperation::NewFile { at } => e matches AppEvent::NewFile(p) && p@ == path_join(at@, parse_path(text)),
        InputOperation::NewDir { at } => e matches AppEvent::NewDir(p) && p@ == path_join(at@, parse_path(text)),
        InputOperation::Command { to } => e matches AppEvent::RunCommand(c) && c@ == replace_all(
            text,
            seq!['{', '}'],
            path_text(to@),
        ),
        InputOperation::SearchFiles => e matches AppEvent::SearchFiles(s) && s@ == text,
        InputOperation::SpecialCommand(cmd) => e matches AppEvent::RunCommand(c) && c@ == replace_all(
            cmd@,
            seq!['{', '.', '.', '.', '}'],
            text,
        ),
        InputOperation::NoOperations => false,
    }
}

/// The text after a key press at cursor position `pos`, for keys that edit: `ctrl-u` drops
/// everything before the cursor, delete and backspace drop the character before the cursor
/// when there is one, and any other character goes in at the cursor.
pub open spec fn edited(text: Seq<char>, pos: int, key: KeyEvent) -> Seq<char> {
    match key.code {
        KeyCode::Char(c) => if c == 'u' && key.modifiers.control {
            text.skip(pos)
        } else {
            text.insert(pos, c)
        },
        KeyCode::Delete | KeyCode::Backspace => if pos > 0 {
            text.remove(pos - 1)
        } else {
            text
        },
        _ => text,
    }
}

impl InputBox {
    /// Handles a key press while the box is open (nothing happens while it is closed):
    /// escape closes it; left and right move the cursor; enter with acceptable text sends
    /// the operation's event (see `confirmed_event`) and closes the box; other keys edit
    /// the text (see `edited`). The acceptable text is judged with the path separator `sep`.
    pub fn handle_key_with(&mut self, key: &KeyEvent, sep: char)
        requires
            old(self).wf(),
            old(self).spec_text().len() < u32::MAX,
        ensures
            final(self).wf(),
            final(self).spec_offset() <= final(self).spec_text().len(),
            key_effect(*old(self), *final(self), *key, sep),
    {
        proof {
            lemma_cursor_within_text(*old(self));
        }
        if !self.has_work() {
            return;
        }
        match key.code {
            KeyCode::Esc => {
                self.reset();
                return;
            },
            KeyCode::Right => {
                self.cursor_right();
                return;
            },
            KeyCode::Left => {
                self.cursor_left();
                return;
            },
            _ => {},
        }
        let pos = self.cursor_pos();
        if key.code == KeyCode::Enter {
            let valid = match self.has_valid_input_with(sep) {
                Some(v) => v,
                None => false,
            };
            if valid {
                let text = string_from_chars(self.text.as_slice());
                let event = match &self.operation {
                    InputOperation::NewFile { at } => AppEvent::NewFile(at.join_str(text.as_str())),
                    InputOperation::NewDir { at } => AppEvent::NewDir(at.join_str(text.as_str())),
                    InputOperation::Command { to } => {
                        let path = to.to_text();
                        AppEvent::RunCommand(replace_str(text.as_str(), "{}", path.as_str()))
                    },
                    InputOperation::SearchFiles => AppEvent::SearchFiles(text),
                    InputOperation::SpecialCommand(cmd) => {
                        AppEvent::RunCommand(replace_str(cmd.as_str(), "{...}", text.as_str()))
                    },
                    InputOperation::NoOperations => {
                        return;
                    },
                };
                proof {
                    reveal_strlit("{}");
                    assert("{}"@ =~= seq!['{', '}']);
                    reveal_strlit("{...}");
                    assert("{...}"@ =~= seq!['{', '.', '.', '.', '}']);
                }
                let ghost q0 = self.queue.events();
                self.queue.add(event);
                self.reset();
                proof {
                    assert(self.queue.events().drop_last() =~= q0);
                }
                return;
            }
            return;
        }
        let ghost before = self.text@;
        match key.code {
            KeyCode::Char(c) => {
                if c == 'u' && key.modifiers.control {
                    let mut rest: Vec<char> = Vec::new();
                    let mut i: usize = pos;
                    while i < self.text.len()
                        invariant
                            pos <= i <= self.text@.len(),
                            self.text@ == before,
                            rest@ == before.subrange(pos as int, i as int),
                        decreases self.text@.len() - i,
                    {
                        rest.push(self.text[i]);
                        proof {
                            assert(rest@ =~= before.subrange(pos as int, i + 1));
                        }
                        i = i + 1;
                    }
                    proof {
                        assert(rest@ =~= before.skip(pos as int));
                    }
                    self.text = rest;
                } else {
                    self.text.insert(pos, c);
                }
            },
            KeyCode::Delete | KeyCode::Backspace => {
                if pos > 0 {
                    self.text.remove(pos - 1);
                }
            },
            _ => {},
        }
    }

    /// `handle_key_with` the platform's path separator.
    pub fn handle_key(&mut self, key: &KeyEvent)
        requires
            old(self).wf(),
            old(self).spec_text().len() < u32::MAX,
        ensures
            final(self).wf(),
            final(self).spec_offset() <= final(self).spec_text().len(),
            key_effect(*old(self), *final(self), *key, '/') || key_effect(
                *old(self),
                *final(self),
                *key,
                '\\',
            ),
    {
        let sep = main_separator();
        self.handle_key_with(key, sep);
    }
}

/// What a key press does to the box (`handle_key_with`): nothing while it is closed;
/// escape closes it and clears the text; left and right move the cursor within the text;
/// enter with acceptable text sends the operation's event (see `confirmed_event`), closes
/// the box and clears the text; other keys edit the text (see `edited`), keeping the
/// cursor's distance from the end.
pub open spec fn key_effect(before: InputBox, after: InputBox, key: KeyEvent, sep: char) -> bool {
    let text = before.spec_text();
    let off = before.spec_offset();
    let pos = text.len() - off;
    if before.spec_operation() == InputOperation::NoOperations {
        after.spec_operation() == before.spec_operation() && after.spec_text() == text && after.spec_queue() == before.spec_queue()
            && after.spec_offset() == off
    } else if key.code == KeyCode::Esc {
        after.spec_operation() == InputOperation::NoOperations && after.spec_text() == Seq::<char>::empty()
            && after.spec_queue() == before.spec_queue() && after.spec_offset() == 0
    } else if key.code == KeyCode::Left {
        after.spec_operation() == before.spec_operation() && after.spec_text() == text && after.spec_queue() == before.spec_queue()
            && after.spec_offset() == (if off < text.len() {
            off + 1
        } else {
            text.len()
        })
    } else if key.code == KeyCode::Right {
        after.spec_operation() == before.spec_operation() && after.spec_text() == text && after.spec_queue() == before.spec_queue()
            && after.spec_offset() == (if off == 0 {
            0
        } else {
            (off - 1) as nat
        })
    } else if key.code == KeyCode::Enter {
        if valid_input(before.spec_operation(), text, sep) == Some(true) {
            &&& after.spec_operation() == InputOperation::NoOperations
            &&& after.spec_text() == Seq::<char>::empty()
            &&& after.spec_offset() == 0
            &&& after.spec_queue().events().len() == before.spec_queue().events().len() + 1
            &&& after.spec_queue().events().drop_last() == before.spec_queue().events()
            &&& confirmed_event(before.spec_operation(), text, after.spec_queue().events().last())
        } else {
            after.spec_operation() == before.spec_operation() && after.spec_text() == text && after.spec_queue()
                == before.spec_queue() && after.spec_offset() == off
        }
    } else {
        after.spec_operation() == before.spec_operation() && after.spec_queue() == before.spec_queue() && after.spec_text()
            == edited(text, pos, key) && after.spec_offset() == off
    }
}

/// The cursor of a well-formed text box stays within its text: its offset from the end
/// is at most the text's length. Every operation of the box keeps it well formed.
pub proof fn lemma_cursor_within_text(b: InputBox)
    requires
        b.wf(),
    ensures
        b.spec_offset() <= b.spec_text().len(),
        b.spec_text().len() <= u32::MAX,
{
}

/// In an open text box, with the cursor at `pos` characters from the start: left moves
/// the cursor one character toward the start and right one toward the end, each
/// stopping at its end of the text; backspace removes the character before the cursor;
/// a character without control is typed in at the cursor, which moves past it; escape
/// closes the box and empties it.
pub proof fn lemma_cursor_keys(before: InputBox, after: InputBox, key: KeyEvent, sep: char)
    requires
        key_effect(before, after, key, sep),
        before.spec_operation() != InputOperation::NoOperations,
        before.spec_offset() <= before.spec_text().len(),
    ensures
        ({
            let text = before.spec_text();
            let pos = text.len() - before.spec_offset();
            let new_pos = after.spec_text().len() - after.spec_offset();
            &&& key.code == KeyCode::Left ==> after.spec_text() == text && new_pos == (if pos > 0 {
                pos - 1
            } else {
                0
            })
            &&& key.code == KeyCode::Right ==> after.spec_text() == text && new_pos == (if pos < text.len() {
                pos + 1
            } else {
                pos
            })
            &&& key.code == KeyCode::Backspace && pos > 0 ==> after.spec_text() == text.remove(pos - 1) && new_pos
                == pos - 1
            &&& key.code matches KeyCode::Char(c) ==> (!key.modifiers.control ==> after.spec_text() == text.insert(
                pos,
                c,
            ) && new_pos == pos + 1)
            &&& key.code == KeyCode::Esc ==> after.spec_operation() == InputOperation::NoOperations
                && after.spec_text().len() == 0
        }),
{
}

} // verus!
