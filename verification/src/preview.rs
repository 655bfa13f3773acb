//! The file preview: which command shows a file, and how far its output is scrolled.

use vstd::prelude::*;
use crate::config::Config;
use crate::keys::KeyEvent;
use crate::path::{main_separator, path_text, PathBuf};
use crate::popup::is_key;
use crate::scroll::{moved_down, moved_up, ParagraphState};
use crate::text::{replace_all, replace_str, str_chars, string_from_chars};

verus! {

/// Whether a file is shown as it is or as its changes.
#[derive(Debug, Default, PartialEq, Eq, Clone, Copy, Structural)]
pub enum Mode {
    #[default]
    Preview,
    Diff,
}

/// Why no preview command could be made.
#[derive(Debug, PartialEq, Eq, Clone, Copy)]
pub enum PreviewError {
    /// The preview command or the diff command is empty.
    NoCommand,
}

/// The command that shows a file's changes: `git diff {}`, piped into the pager when one
/// is set.
pub open spec fn git_command(pager: Option<Seq<char>>) -> Seq<char> {
    match pager {
        None => "git diff {}"@,
        Some(p) => "git diff {} | "@ + p,
    }
}

/// A path as the shell takes it: in double quotes where the path separator is a backslash
/// (Windows), in single quotes elsewhere.
pub open spec fn quoted(path: Seq<char>, sep: char) -> Seq<char> {
    if sep == '\\' {
        seq!['"'] + path + seq!['"']
    } else {
        seq!['\''] + path + seq!['\'']
    }
}

/// The preview of files.
pub struct PreviewFile {
    git_cmd: String,
    mode: Mode,
    contents: String,
    focused: bool,
    state: ParagraphState,
}

fn push_text(out: &mut Vec<char>, t: &str)
    ensures
        final(out)@ == old(out)@ + t@,
{
    let ts = str_chars(t);
    let ghost before = out@;
    let mut i: usize = 0;
    while i < ts.len()
        invariant
            i <= ts@.len(),
            ts@ == t@,
            out@ == before + ts@.take(i as int),
        decreases ts@.len() - i,
    {
        out.push(ts[i]);
        proof {
            assert(out@ =~= before + ts@.take(i + 1));
        }
        i = i + 1;
    }
    proof {
        assert(ts@.take(i as int) =~= ts@);
    }
}

impl PreviewFile {
    pub closed spec fn spec_git_cmd(&self) -> Seq<char> {
        self.git_cmd@
    }

    pub closed spec fn spec_mode(&self) -> Mode {
        self.mode
    }

    pub closed spec fn spec_contents(&self) -> Seq<char> {
        self.contents@
    }

    pub closed spec fn spec_focused(&self) -> bool {
        self.focused
    }

    pub closed spec fn spec_offset(&self) -> u16 {
        self.state.offset_top
    }

    /// A focused preview with no pager, at the top, showing nothing.
    pub fn new() -> (r: PreviewFile)
        ensures
            r.spec_git_cmd() == git_command(None),
            r.spec_mode() == Mode::Preview,
            r.spec_contents().len() == 0,
            r.spec_focused(),
            r.spec_offset() == 0,
    {
        PreviewFile::with_pager(&None)
    }

    /// A focused preview that pipes changes into `pager` when one is set.
    pub fn with_pager(pager: &Option<String>) -> (r: PreviewFile)
        ensures
            r.spec_git_cmd() == git_command(match pager {
                Some(p) => Some(p@),
                None => None,
            }),
            r.spec_mode() == Mode::Preview,
            r.spec_contents().len() == 0,
            r.spec_focused(),
            r.spec_offset() == 0,
    {
        let mut cs: Vec<char> = Vec::new();
        match pager {
            None => push_text(&mut cs, "git diff {}"),
            Some(p) => {
                push_text(&mut cs, "git diff {} | ");
                push_text(&mut cs, p.as_str());
            },
        }
        PreviewFile {
            git_cmd: string_from_chars(cs.as_slice()),
            mode: Mode::Preview,
            contents: String::new(),
            focused: true,
            state: ParagraphState::new(),
        }
    }

    /// Switches between showing files and showing their changes.
    pub fn toggle_mode(&mut self)
        ensures
            final(self).spec_mode() == (if old(self).spec_mode() == Mode::Preview {
                Mode::Diff
            } else {
                Mode::Preview
            }),
            final(self).spec_git_cmd() == old(self).spec_git_cmd(),
            final(self).spec_contents() == old(self).spec_contents(),
            final(self).spec_offset() == old(self).spec_offset(),
            final(self).spec_focused() == old(self).spec_focused(),
    {
        self.mode = match self.mode {
            Mode::Preview => Mode::Diff,
            Mode::Diff => Mode::Preview,
        };
    }

    /// The command that shows `file` on a platform whose path separator is `sep`: the
    /// preview command (in preview mode) or the diff command, with every `{}` replaced by
    /// the quoted path; the scroll goes back to the top. Fails when either command is empty.
    pub fn command_for(&mut self, file: &PathBuf, preview_cmd: &String, sep: char) -> (r: Result<String, PreviewError>)
        ensures
            preview_cmd@.len() == 0 || old(self).spec_git_cmd().len() == 0 ==> r == Err::<String, PreviewError>(
                PreviewError::NoCommand,
            ) && final(self).spec_offset() == old(self).spec_offset(),
            !(preview_cmd@.len() == 0 || old(self).spec_git_cmd().len() == 0) ==> (r matches Ok(c) && c@ == replace_all(
                if old(self).spec_mode() == Mode::Preview {
                    preview_cmd@
                } else {
                    old(self).spec_git_cmd()
                },
                "{}"@,
                quoted(path_text(file@), sep),
            )) && final(self).spec_offset() == 0,
            final(self).spec_mode() == old(self).spec_mode(),
            final(self).spec_git_cmd() == old(self).spec_git_cmd(),
            final(self).spec_contents() == old(self).spec_contents(),
            final(self).spec_focused() == old(self).spec_focused(),
    {
        if preview_cmd.as_str().unicode_len() == 0 || self.git_cmd.as_str().unicode_len() == 0 {
            return Err(PreviewError::NoCommand);
        }
        self.state.reset();
        let text = file.to_text();
        let mut q: Vec<char> = Vec::new();
        let mark = if sep == '\\' {
            '"'
        } else {
            '\''
        };
        q.push(mark);
        push_text(&mut q, text.as_str());
        q.push(mark);
        let replacement = string_from_chars(q.as_slice());
        proof {
            assert(q@ =~= quoted(path_text(file@), sep));
        }
        let cmd = match self.mode {
            Mode::Preview => replace_str(preview_cmd.as_str(), "{}", replacement.as_str()),
            Mode::Diff => replace_str(self.git_cmd.as_str(), "{}", replacement.as_str()),
        };
        Ok(cmd)
    }

    /// The command that shows `file` on this platform (see `command_for`).
    pub fn preview_command(&mut self, file: &PathBuf, preview_cmd: &String) -> (r: Result<String, PreviewError>)
        ensures
            preview_cmd@.len() == 0 || old(self).spec_git_cmd().len() == 0 <==> r is Err,
    {
        self.command_for(file, preview_cmd, main_separator())
    }

    /// Whether files or their changes are shown.
    pub fn mode(&self) -> (r: Mode)
        ensures
            r == self.spec_mode(),
    {
        self.mode
    }

    /// Shows the output of the preview command.
    pub fn set_contents(&mut self, contents: String)
        ensures
            final(self).spec_contents() == contents@,
            final(self).spec_mode() == old(self).spec_mode(),
            final(self).spec_git_cmd() == old(self).spec_git_cmd(),
            final(self).spec_offset() == old(self).spec_offset(),
            final(self).spec_focused() == old(self).spec_focused(),
    {
        self.contents = contents;
    }

    /// What is shown.
    pub fn contents(&self) -> (r: &String)
        ensures
            r@ == self.spec_contents(),
    {
        &self.contents
    }

    /// How far the preview is scrolled down.
    pub fn offset(&self) -> (r: u16)
        ensures
            r == self.spec_offset(),
    {
        self.state.offset_top
    }

    /// The offset at which a text of `lines` lines is shown: no further than its last line.
    /// The preview keeps it.
    pub fn visible_offset(&mut self, lines: u16) -> (r: u16)
        requires
            lines > 0,
        ensures
            r == (if old(self).spec_offset() < lines - 1 {
                old(self).spec_offset() as int
            } else {
                lines - 1
            }),
            final(self).spec_offset() == r,
            final(self).spec_mode() == old(self).spec_mode(),
            final(self).spec_git_cmd() == old(self).spec_git_cmd(),
            final(self).spec_contents() == old(self).spec_contents(),
            final(self).spec_focused() == old(self).spec_focused(),
    {
        self.state.clamp_to(lines);
        self.state.offset_top
    }

    /// Gives or takes the focus.
    pub fn focus(&mut self, focus: bool)
        ensures
            final(self).spec_focused() == focus,
            final(self).spec_mode() == old(self).spec_mode(),
            final(self).spec_git_cmd() == old(self).spec_git_cmd(),
            final(self).spec_contents() == old(self).spec_contents(),
            final(self).spec_offset() == old(self).spec_offset(),
    {
        self.focused = focus;
    }

    /// Handles a key press while focused: the preview's down key scrolls down by the scroll
    /// amount, its up key up by it (the down key is tried first).
    pub fn handle_key(&mut self, ev: &KeyEvent, config: &Config)
        ensures
            final(self).spec_offset() == (if !old(self).spec_focused() {
                old(self).spec_offset()
            } else if is_key(config.preview.down_key, *ev) {
                moved_down(old(self).spec_offset(), config.preview.scroll_amount)
            } else if is_key(config.preview.up_key, *ev) {
                moved_up(old(self).spec_offset(), config.preview.scroll_amount)
            } else {
                old(self).spec_offset()
            }),
            final(self).spec_mode() == old(self).spec_mode(),
            final(self).spec_git_cmd() == old(self).spec_git_cmd(),
            final(self).spec_contents() == old(self).spec_contents(),
            final(self).spec_focused() == old(self).spec_focused(),
            old(self).spec_focused() && is_key(config.preview.down_key, *ev) ==> {
                let (o, k) = (old(self).spec_offset(), config.preview.scroll_amount);
                final(self).spec_offset() >= o && (o + k <= u16::MAX ==> final(self).spec_offset() == o + k)
            },
            old(self).spec_focused() && !is_key(config.preview.down_key, *ev) && is_key(config.preview.up_key, *ev) ==> {
                let (o, k) = (old(self).spec_offset(), config.preview.scroll_amount);
                final(self).spec_offset() <= o && (o >= k ==> final(self).spec_offset() == o - k)
            },
    {
        if !self.focused {
            return;
        }
        if config.preview.down_key.matches(ev) {
            self.state.down_by(config.preview.scroll_amount);
        } else if config.preview.up_key.matches(ev) {
            self.state.up_by(config.preview.scroll_amount);
        }
    }
}

} // verus!
