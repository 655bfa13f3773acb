//! The application: the tree, the preview and the popups, how a key press reaches them,
//! and the events they send, taken one at a time. Changes to the disk, commands and the
//! editor are the caller's: a step hands them out, and the caller reports back.

use vstd::prelude::*;
use crate::config::Config;
use crate::input_box::{InputBox, InputOperation, key_effect};
use crate::items::{ItemsIndex, ItemsIndexView, resolve, remove_at};
use crate::keys::KeyEvent;
use crate::listing::{FileListing, ListingError, removed, selected_by};
use crate::path::{PathBuf, PathView, main_separator};
use crate::pending::{PendingOperation, PendingPopup, pending_key_effect};
use crate::popup::{Popup, Preset, is_key, popup_key_effect};
use crate::preview::{PreviewError, PreviewFile, Mode, quoted};
use crate::queue::{AppEvent, Queue};
use crate::refresh::RefreshData;
use crate::scroll::{moved_down, moved_up};
use crate::text::replace_all;
use crate::tree::{Filetree, TreeAction, tree_key_effect, tree_key_safe, sel_path, refresh_step, lemma_tree_wf};

verus! {

/// What one step of the application did with the oldest event.
#[derive(Debug, PartialEq, Eq)]
pub enum Step {
    /// No event was waiting.
    Idle,
    /// The event was handled inside the application.
    Handled,
    /// The event asks for work outside: the caller performs it.
    Outside(AppEvent),
}

/// The application.
pub struct App {
    tree: Filetree,
    path: PathBuf,
    should_quit: bool,
    queue: Queue,
    pending: PendingPopup,
    input_box: InputBox,
    previewer: PreviewFile,
    text_popup: Popup,
}

/// Whether a popup is open: the confirmation, the text box or the text popup.
pub open spec fn popup_open(a: App) -> bool {
    ||| a.spec_pending().spec_operation() != PendingOperation::NoPending
    ||| a.spec_input().spec_operation() != InputOperation::NoOperations
    ||| a.spec_popup().spec_preset() != Preset::Nothing
}

/// The preview after a key press with focus `focused`: its scroll keys move it.
pub open spec fn preview_key_effect(c: Config, o: PreviewFile, n: PreviewFile, ev: KeyEvent, focused: bool) -> bool {
    &&& n.spec_focused() == focused
    &&& n.spec_mode() == o.spec_mode()
    &&& n.spec_git_cmd() == o.spec_git_cmd()
    &&& n.spec_contents() == o.spec_contents()
    &&& n.spec_offset() == (if !focused {
        o.spec_offset()
    } else if is_key(c.preview.down_key, ev) {
        moved_down(o.spec_offset(), c.preview.scroll_amount)
    } else if is_key(c.preview.up_key, ev) {
        moved_up(o.spec_offset(), c.preview.scroll_amount)
    } else {
        o.spec_offset()
    })
}

/// The key presses that the application can take: those that its parts can take, with
/// a text under the text box's limit.
pub open spec fn app_key_safe(c: Config, a: App, ev: KeyEvent) -> bool {
    &&& a.spec_input().spec_text().len() < u32::MAX
    &&& tree_key_safe(c, !popup_open(a), a.spec_tree().spec_listing(), ev)
    &&& !(a.spec_popup().spec_preset() != Preset::Nothing && is_key(c.down, ev) && a.spec_popup().spec_scroll() == u16::MAX)
}

/// The events waiting, after those that the parts have sent.
pub open spec fn waiting(a: App) -> Seq<AppEvent> {
    a.spec_queue() + a.spec_pending().spec_queue().events() + a.spec_input().spec_queue().events()
        + a.spec_tree().spec_queue()
}

/// What a step does with the oldest waiting event `e` (see `App::step`), beside taking it.
pub open spec fn step_effect(o: App, n: App, e: AppEvent, s: Step) -> bool {
    match e {
        AppEvent::OpenPopup(op) => s == Step::Handled && n.spec_pending().spec_operation() == op
            && n.spec_input().spec_operation() == o.spec_input().spec_operation()
            && n.spec_tree().spec_listing() == o.spec_tree().spec_listing()
            && n.spec_previewer() == o.spec_previewer(),
        AppEvent::OpenInput(op) => s == Step::Handled && n.spec_input().spec_operation() == op
            && n.spec_pending().spec_operation() == o.spec_pending().spec_operation()
            && n.spec_tree().spec_listing() == o.spec_tree().spec_listing()
            && n.spec_previewer() == o.spec_previewer(),
        AppEvent::TogglePreviewMode => s == Step::Handled && n.spec_previewer().spec_mode() == (if o.spec_previewer().spec_mode()
            == Mode::Preview {
            Mode::Diff
        } else {
            Mode::Preview
        }) && n.spec_previewer().spec_offset() == o.spec_previewer().spec_offset()
            && n.spec_pending().spec_operation() == o.spec_pending().spec_operation()
            && n.spec_input().spec_operation() == o.spec_input().spec_operation()
            && n.spec_tree().spec_listing() == o.spec_tree().spec_listing(),
        AppEvent::GotoFile(p) => s == Step::Handled && (if p@ == o.spec_tree().spec_root() {
            n.spec_tree().spec_listing() == o.spec_tree().spec_listing() && n.spec_tree().spec_queue().len() == 0
        } else {
            (exists|found: bool| #[trigger] selected_by(o.spec_tree().spec_listing(), n.spec_tree().spec_listing(), ItemsIndexView::Path(p@), found))
                && n.spec_tree().spec_queue().len() == 1 && (n.spec_tree().spec_queue()[0] matches AppEvent::PreviewFile(x) && x@ == p@)
        }) && n.spec_pending().spec_operation() == o.spec_pending().spec_operation()
            && n.spec_input().spec_operation() == o.spec_input().spec_operation()
            && n.spec_previewer() == o.spec_previewer(),
        _ => s == Step::Outside(e) && n.spec_pending().spec_operation() == o.spec_pending().spec_operation()
            && n.spec_input().spec_operation() == o.spec_input().spec_operation()
            && n.spec_tree().spec_listing() == o.spec_tree().spec_listing()
            && n.spec_previewer() == o.spec_previewer(),
    }
}

/// Whether the tree still selects an entry after the entry at `p` is removed: something
/// is left, or, when `p` is not listed, the selection designates an entry.
pub open spec fn survives_removal(l: FileListing, p: PathView) -> bool {
    match resolve(l.spec_items(), ItemsIndexView::Path(p)) {
        Some(i) if 0 <= i < l.spec_items().len() => remove_at(l.spec_items(), i).len() > 0,
        _ => l.spec_selected() < l.spec_items().len(),
    }
}

impl App {
    pub closed spec fn spec_tree(&self) -> Filetree {
        self.tree
    }

    pub closed spec fn spec_pending(&self) -> PendingPopup {
        self.pending
    }

    pub closed spec fn spec_input(&self) -> InputBox {
        self.input_box
    }

    pub closed spec fn spec_previewer(&self) -> PreviewFile {
        self.previewer
    }

    pub closed spec fn spec_popup(&self) -> Popup {
        self.text_popup
    }

    pub closed spec fn spec_queue(&self) -> Seq<AppEvent> {
        self.queue.events()
    }

    pub closed spec fn spec_quit(&self) -> bool {
        self.should_quit
    }

    pub closed spec fn spec_path(&self) -> PathView {
        self.path@
    }

    /// Its parts are well formed.
    pub closed spec fn wf(&self) -> bool {
        &&& self.tree.wf()
        &&& self.pending.wf()
        &&& self.input_box.wf()
    }

    /// The application for the project at `path`, with `tree` listing it: the entry at
    /// `cwd` is opened in the tree, the popups are closed, and the preview uses `git_pager`
    /// for changes.
    pub fn new(path: PathBuf, cwd: &PathBuf, tree: Filetree, git_pager: &Option<String>) -> (r: App)
        requires
            tree.wf(),
        ensures
            r.wf(),
            r.spec_path() == path@,
            !r.spec_quit(),
            r.spec_queue().len() == 0,
            r.spec_pending().spec_operation() == PendingOperation::NoPending,
            r.spec_input().spec_operation() == InputOperation::NoOperations,
            r.spec_popup().spec_preset() == Preset::Nothing,
            r.spec_previewer().spec_mode() == Mode::Preview,
    {
        let mut tree = tree;
        tree.open_path(cwd);
        App {
            tree,
            path,
            should_quit: false,
            queue: Queue::new(),
            pending: PendingPopup::new(Queue::new()),
            input_box: InputBox::new(Queue::new()),
            previewer: PreviewFile::with_pager(git_pager),
            text_popup: Popup::new(),
        }
    }

    /// Takes a key press: with a popup open, the tree and the preview lose the focus; every
    /// part then takes the key; with no popup open, the quit key ends the application and
    /// the help key opens the help. Returns the work the tree asks for.
    pub fn handle_key(&mut self, key: &KeyEvent, config: &Config) -> (a: TreeAction)
        requires
            old(self).wf(),
            app_key_safe(*config, *old(self), *key),
        ensures
            final(self).wf(),
            final(self).spec_path() == old(self).spec_path(),
            final(self).spec_queue() == old(self).spec_queue(),
            pending_key_effect(old(self).spec_pending(), final(self).spec_pending(), *key),
            key_effect(old(self).spec_input(), final(self).spec_input(), *key, '/') || key_effect(
                old(self).spec_input(),
                final(self).spec_input(),
                *key,
                '\\',
            ),
            final(self).spec_tree().spec_focused() == !popup_open(*old(self)),
            popup_open(*old(self)) ==> a == TreeAction::Nothing && final(self).spec_tree().spec_listing()
                == old(self).spec_tree().spec_listing() && final(self).spec_tree().spec_queue() == old(self).spec_tree().spec_queue(),
            !popup_open(*old(self)) ==> tree_key_effect(
                *config,
                old(self).spec_tree().spec_listing(),
                final(self).spec_tree().spec_listing(),
                old(self).spec_tree().spec_queue(),
                final(self).spec_tree().spec_queue(),
                *key,
                a,
            ),
            preview_key_effect(*config, old(self).spec_previewer(), final(self).spec_previewer(), *key, !popup_open(*old(self))),
            exists|mid: Popup|
                #[trigger] popup_key_effect(*config, old(self).spec_popup(), mid, *key) && if popup_open(*old(self)) {
                    final(self).spec_popup() == mid && final(self).spec_quit() == old(self).spec_quit()
                } else if is_key(config.quit, *key) {
                    final(self).spec_popup() == mid && final(self).spec_quit()
                } else if is_key(config.help, *key) {
                    final(self).spec_popup().spec_preset() == Preset::Help && final(self).spec_popup().spec_scroll()
                        == mid.spec_scroll() && final(self).spec_quit() == old(self).spec_quit()
                } else {
                    final(self).spec_popup() == mid && final(self).spec_quit() == old(self).spec_quit()
                },
    {
        let popup_open = self.pending.has_work() || self.input_box.has_work() || self.text_popup.visible();
        self.tree.focus(!popup_open);
        self.previewer.focus(!popup_open);

        self.pending.handle_key(key);
        self.input_box.handle_key(key);
        let action = self.tree.handle_key(key, config);
        self.previewer.handle_key(key, config);
        self.text_popup.handle_key(key, config);
        let ghost mid = self.text_popup;

        if popup_open {
            return action;
        }
        if config.quit.matches(key) {
            self.should_quit = true;
        } else if config.help.matches(key) {
            self.text_popup.set_preset(Preset::Help);
        }
        proof {
            assert(popup_key_effect(*config, old(self).spec_popup(), mid, *key));
        }
        action
    }

    /// Takes the oldest event, after those that the parts have sent (the confirmation's,
    /// the text box's, then the tree's, each in order): opening a popup or the text box,
    /// switching the preview's mode and going to a file are handled here; any other event
    /// is handed out.
    pub fn step(&mut self) -> (s: Step)
        requires
            old(self).wf(),
        ensures
            final(self).wf(),
            final(self).spec_path() == old(self).spec_path(),
            final(self).spec_quit() == old(self).spec_quit(),
            final(self).spec_popup() == old(self).spec_popup(),
            final(self).spec_input().spec_text() == old(self).spec_input().spec_text(),
            final(self).spec_tree().spec_root() == old(self).spec_tree().spec_root(),
            final(self).spec_pending().spec_queue().events().len() == 0,
            final(self).spec_input().spec_queue().events().len() == 0,
            waiting(*old(self)).len() == 0 ==> s == Step::Idle && final(self).spec_queue().len() == 0
                && final(self).spec_pending().spec_operation() == old(self).spec_pending().spec_operation()
                && final(self).spec_input().spec_operation() == old(self).spec_input().spec_operation()
                && final(self).spec_tree().spec_listing() == old(self).spec_tree().spec_listing()
                && final(self).spec_tree().spec_queue().len() == 0
                && final(self).spec_previewer() == old(self).spec_previewer(),
            waiting(*old(self)).len() > 0 ==> final(self).spec_queue() == waiting(*old(self)).drop_first()
                && step_effect(*old(self), *final(self), waiting(*old(self))[0], s),
    {
        self.collect();
        let ghost all = self.queue.events();
        proof {
            assert(all == waiting(*old(self)));
        }
        let event = match self.queue.pop() {
            Some(e) => e,
            None => return Step::Idle,
        };
        proof {
            assert(event == all[0]);
        }
        match event {
            AppEvent::OpenPopup(op) => {
                self.pending.set_operation(op);
                Step::Handled
            },
            AppEvent::OpenInput(op) => {
                self.input_box.set_operation(op);
                Step::Handled
            },
            AppEvent::TogglePreviewMode => {
                self.previewer.toggle_mode();
                Step::Handled
            },
            AppEvent::GotoFile(p) => {
                let ghost t0 = self.tree.spec_queue();
                self.tree.open_path(&p);
                proof {
                    if p@ != old(self).spec_tree().spec_root() {
                        assert(t0.len() == 0);
                        assert(self.tree.spec_queue().len() == 1);
                        assert(self.tree.spec_queue()[0] == self.tree.spec_queue().last());
                    }
                }
                Step::Handled
            },
            other => Step::Outside(other),
        }
    }

    /// Reports that the entry at `path` was deleted from disk: the tree drops it (failing
    /// when it does not list it), and the entry the tree then selects is previewed.
    pub fn deleted(&mut self, path: &PathBuf) -> (r: Result<(), ListingError>)
        requires
            old(self).wf(),
            survives_removal(old(self).spec_tree().spec_listing(), path@),
        ensures
            final(self).wf(),
            final(self).spec_path() == old(self).spec_path(),
            final(self).spec_quit() == old(self).spec_quit(),
            exists|q: Seq<AppEvent>| #[trigger] refresh_step(
                old(self).spec_tree().spec_listing(),
                old(self).spec_tree().spec_queue(),
                crate::refresh::RefreshView::Delete(path@),
                final(self).spec_tree().spec_listing(),
                q,
                r,
            ) && (r is Ok ==> final(self).spec_tree().spec_queue() == q && match sel_path(final(self).spec_tree().spec_listing()) {
                Some(p) => final(self).spec_queue().len() == old(self).spec_queue().len() + 1
                    && final(self).spec_queue().take(old(self).spec_queue().len() as int) == old(self).spec_queue()
                    && (final(self).spec_queue().last() matches AppEvent::PreviewFile(x) && x@ == p),
                None => false,
            }) && (r is Err ==> final(self).spec_tree().spec_queue() == q && final(self).spec_queue() == old(self).spec_queue()),
    {
        proof {
            lemma_tree_wf(self.tree);
        }
        let ghost q0 = self.queue.events();
        let ghost o = self.tree.spec_listing();
        let ghost oq = self.tree.spec_queue();
        let r = self.tree.partial_refresh(&RefreshData::Delete(path.duplicate()));
        let ghost tq = self.tree.spec_queue();
        proof {
            assert(refresh_step(o, oq, crate::refresh::RefreshView::Delete(path@), self.tree.spec_listing(), tq, r));
            assert(o == old(self).spec_tree().spec_listing());
            assert(oq == old(self).spec_tree().spec_queue());
            assert(self.tree.spec_listing() == self.spec_tree().spec_listing());
        }
        if r.is_err() {
            return r;
        }
        proof {
            assert(removed(old(self).spec_tree().spec_listing(), self.tree.spec_listing(), ItemsIndexView::Path(path@), r));
            assert(sel_path(self.tree.spec_listing()) is Some);
        }
        let selected = match self.tree.get_selected() {
            Some(it) => Some(it.path().duplicate()),
            None => None,
        };
        match selected {
            Some(p) => {
                proof {
                    assert(sel_path(self.tree.spec_listing()) == Some(p@));
                }
                self.queue.add(AppEvent::PreviewFile(p));
                proof {
                    assert(self.queue.events().take(q0.len() as int) =~= q0);
                }
            },
            None => {},
        }
        proof {
            assert(self.spec_tree().spec_queue() == tq);
            assert(refresh_step(
                old(self).spec_tree().spec_listing(),
                old(self).spec_tree().spec_queue(),
                crate::refresh::RefreshView::Delete(path@),
                self.spec_tree().spec_listing(),
                tq,
                r,
            ));
        }
        r
    }

    /// Whether `deleted` can be told of the entry at `path` (see `survives_removal`).
    pub fn can_report_deletion(&self, path: &PathBuf) -> (r: bool)
        ensures
            r == survives_removal(self.spec_tree().spec_listing(), path@),
    {
        let l = self.tree.listing();
        match l.len_after_remove(&ItemsIndex::Path(path.duplicate())) {
            Some(n) => n > 0,
            None => l.selected_position() < l.all_items().len(),
        }
    }

    /// Reports that a file or directory was created at `path`: the tree lists it (see
    /// `Filetree::partial_refresh`).
    pub fn created(&mut self, path: &PathBuf)
        requires
            old(self).wf(),
            old(self).spec_tree().spec_listing().spec_items().len() + 1 < 0x2000_0000,
        ensures
            final(self).wf(),
            final(self).spec_path() == old(self).spec_path(),
            final(self).spec_quit() == old(self).spec_quit(),
            final(self).spec_queue() == old(self).spec_queue(),
            exists|r: Result<(), ListingError>| #[trigger] refresh_step(
                old(self).spec_tree().spec_listing(),
                old(self).spec_tree().spec_queue(),
                crate::refresh::RefreshView::Add(path@),
                final(self).spec_tree().spec_listing(),
                final(self).spec_tree().spec_queue(),
                r,
            ),
    {
        let ghost o = self.tree.spec_listing();
        let ghost oq = self.tree.spec_queue();
        let r = self.tree.partial_refresh(&RefreshData::Add(path.duplicate()));
        proof {
            assert(refresh_step(o, oq, crate::refresh::RefreshView::Add(path@), self.tree.spec_listing(), self.tree.spec_queue(), r));
            assert(o == old(self).spec_tree().spec_listing());
            assert(oq == old(self).spec_tree().spec_queue());
            assert(self.tree.spec_listing() == self.spec_tree().spec_listing());
        }
    }

    /// The command that previews `file` (see `PreviewFile::command_for`), with the
    /// platform's path separator.
    pub fn preview_command(&mut self, file: &PathBuf, config: &Config) -> (r: Result<String, PreviewError>)
        requires
            old(self).wf(),
        ensures
            final(self).wf(),
            final(self).spec_path() == old(self).spec_path(),
            final(self).spec_quit() == old(self).spec_quit(),
            final(self).spec_queue() == old(self).spec_queue(),
            final(self).spec_tree() == old(self).spec_tree(),
            final(self).spec_previewer().spec_mode() == old(self).spec_previewer().spec_mode(),
            final(self).spec_previewer().spec_contents() == old(self).spec_previewer().spec_contents(),
            config.preview.preview_cmd@.len() == 0 || old(self).spec_previewer().spec_git_cmd().len() == 0 ==> r
                == Err::<String, PreviewError>(PreviewError::NoCommand),
            !(config.preview.preview_cmd@.len() == 0 || old(self).spec_previewer().spec_git_cmd().len() == 0) ==> exists|sep: char|
                (sep == '/' || sep == '\\') && (r matches Ok(c) && c@ == replace_all(
                    if old(self).spec_previewer().spec_mode() == Mode::Preview {
                        config.preview.preview_cmd@
                    } else {
                        old(self).spec_previewer().spec_git_cmd()
                    },
                    "{}"@,
                    #[trigger] quoted(crate::path::path_text(file@), sep),
                )),
    {
        let sep = main_separator();
        self.previewer.command_for(file, &config.preview.preview_cmd, sep)
    }

    /// Shows `contents`, the output of the preview command.
    pub fn set_preview(&mut self, contents: String)
        requires
            old(self).wf(),
        ensures
            final(self).wf(),
            final(self).spec_previewer().spec_contents() == contents@,
            final(self).spec_previewer().spec_mode() == old(self).spec_previewer().spec_mode(),
            final(self).spec_previewer().spec_offset() == old(self).spec_previewer().spec_offset(),
            final(self).spec_tree() == old(self).spec_tree(),
            final(self).spec_queue() == old(self).spec_queue(),
            final(self).spec_quit() == old(self).spec_quit(),
    {
        self.previewer.set_contents(contents);
    }

    /// Whether the quit key was pressed.
    pub fn should_quit(&self) -> (r: bool)
        ensures
            r == self.spec_quit(),
    {
        self.should_quit
    }

    /// The project's root.
    pub fn path(&self) -> (r: &PathBuf)
        ensures
            r@ == self.spec_path(),
    {
        &self.path
    }

    /// The tree.
    pub fn tree(&self) -> (r: &Filetree)
        ensures
            *r == self.spec_tree(),
    {
        &self.tree
    }

    /// The tree, for the caller's reports of walks (`refresh`, `filter_include`,
    /// `toggle_dotfiles`).
    pub fn tree_mut(&mut self) -> (r: &mut Filetree)
        ensures
            *r == old(self).spec_tree(),
            final(self).spec_tree() == *final(r),
            final(self).spec_queue() == old(self).spec_queue(),
            final(self).spec_quit() == old(self).spec_quit(),
            final(self).spec_path() == old(self).spec_path(),
    {
        &mut self.tree
    }

    /// The confirmation popup.
    pub fn pending(&self) -> (r: &PendingPopup)
        ensures
            *r == self.spec_pending(),
    {
        &self.pending
    }

    /// The text box.
    pub fn input_box(&self) -> (r: &InputBox)
        ensures
            *r == self.spec_input(),
    {
        &self.input_box
    }

    /// The preview.
    pub fn previewer(&self) -> (r: &PreviewFile)
        ensures
            *r == self.spec_previewer(),
    {
        &self.previewer
    }

    /// The text popup.
    pub fn text_popup(&self) -> (r: &Popup)
        ensures
            *r == self.spec_popup(),
    {
        &self.text_popup
    }

    /// Scrolls the text popup for text of `len` lines shown in a window `height` lines high
    /// (see `Popup::visible_scroll`); nothing else changes.
    pub fn popup_scroll(&mut self, len: u16, height: u16) -> (r: u16)
        requires
            old(self).wf(),
        ensures
            final(self).wf(),
            r == (if len < height {
                0
            } else if old(self).spec_popup().spec_scroll() < len - height {
                old(self).spec_popup().spec_scroll()
            } else {
                len - height
            }),
            final(self).spec_popup().spec_scroll() == r,
            final(self).spec_popup().spec_preset() == old(self).spec_popup().spec_preset(),
            final(self).spec_tree() == old(self).spec_tree(),
            final(self).spec_pending() == old(self).spec_pending(),
            final(self).spec_input() == old(self).spec_input(),
            final(self).spec_previewer() == old(self).spec_previewer(),
            final(self).spec_queue() == old(self).spec_queue(),
            final(self).spec_quit() == old(self).spec_quit(),
            final(self).spec_path() == old(self).spec_path(),
    {
        self.text_popup.visible_scroll(len, height)
    }

    /// The offset at which the preview's text of `lines` lines is shown (see
    /// `PreviewFile::visible_offset`); nothing else changes.
    pub fn preview_scroll(&mut self, lines: u16) -> (r: u16)
        requires
            old(self).wf(),
            lines > 0,
        ensures
            final(self).wf(),
            r == (if old(self).spec_previewer().spec_offset() < lines - 1 {
                old(self).spec_previewer().spec_offset() as int
            } else {
                lines - 1
            }),
            final(self).spec_previewer().spec_offset() == r,
            final(self).spec_previewer().spec_mode() == old(self).spec_previewer().spec_mode(),
            final(self).spec_previewer().spec_git_cmd() == old(self).spec_previewer().spec_git_cmd(),
            final(self).spec_previewer().spec_contents() == old(self).spec_previewer().spec_contents(),
            final(self).spec_previewer().spec_focused() == old(self).spec_previewer().spec_focused(),
            final(self).spec_tree() == old(self).spec_tree(),
            final(self).spec_pending() == old(self).spec_pending(),
            final(self).spec_input() == old(self).spec_input(),
            final(self).spec_popup() == old(self).spec_popup(),
            final(self).spec_queue() == old(self).spec_queue(),
            final(self).spec_quit() == old(self).spec_quit(),
            final(self).spec_path() == old(self).spec_path(),
    {
        self.previewer.visible_offset(lines)
    }

    /// Whether `key` can be handed to `handle_key` with the bindings of `config` (see
    /// `app_key_safe`).
    pub fn key_is_safe(&self, key: &KeyEvent, config: &Config) -> (r: bool)
        requires
            self.wf(),
        ensures
            r == app_key_safe(*config, *self, *key),
    {
        if self.input_box.text().unicode_len() >= 0xffff_ffff {
            return false;
        }
        let popup_open = self.pending.has_work() || self.input_box.has_work() || self.text_popup.visible();
        if self.text_popup.visible() && config.down.matches(key) && self.text_popup.scroll() == 0xffff {
            return false;
        }
        if popup_open {
            return true;
        }
        self.tree.key_is_safe_focused(key, config)
    }

    /// Moves the events that the parts have sent to the application's own, in order: the
    /// confirmation's, the text box's, then the tree's.
    fn collect(&mut self)
        requires
            old(self).wf(),
        ensures
            final(self).wf(),
            final(self).spec_path() == old(self).spec_path(),
            final(self).spec_quit() == old(self).spec_quit(),
            final(self).spec_queue() == old(self).spec_queue() + old(self).spec_pending().spec_queue().events()
                + old(self).spec_input().spec_queue().events() + old(self).spec_tree().spec_queue(),
            final(self).spec_pending().spec_queue().events().len() == 0,
            final(self).spec_input().spec_queue().events().len() == 0,
            final(self).spec_tree().spec_queue().len() == 0,
            final(self).spec_pending().spec_operation() == old(self).spec_pending().spec_operation(),
            final(self).spec_input().spec_operation() == old(self).spec_input().spec_operation(),
            final(self).spec_input().spec_text() == old(self).spec_input().spec_text(),
            final(self).spec_tree().spec_listing() == old(self).spec_tree().spec_listing(),
            final(self).spec_tree().spec_root() == old(self).spec_tree().spec_root(),
            final(self).spec_previewer() == old(self).spec_previewer(),
            final(self).spec_popup() == old(self).spec_popup(),
    {
        let ghost q0 = self.queue.events();
        let ghost pq = self.pending.spec_queue().events();
        let ghost iq = self.input_box.spec_queue().events();
        let ghost tq = self.tree.spec_queue();
        let ghost mut k: int = 0;
        loop
            invariant
                self.wf(),
                self.path == old(self).path,
                self.should_quit == old(self).should_quit,
                self.input_box == old(self).input_box,
                self.tree == old(self).tree,
                self.previewer == old(self).previewer,
                self.text_popup == old(self).text_popup,
                self.pending.spec_operation() == old(self).pending.spec_operation(),
                0 <= k <= pq.len(),
                self.pending.spec_queue().events() == pq.skip(k),
                self.queue.events() == q0 + pq.take(k),
            ensures
                self.pending.spec_queue().events().len() == 0,
            decreases self.pending.spec_queue().events().len(),
        {
            let e = match self.pending.pop_event() {
                Some(e) => e,
                None => break,
            };
            proof {
                assert(pq.skip(k)[0] == pq[k]);
                assert(pq.skip(k).drop_first() =~= pq.skip(k + 1));
                assert(pq.take(k + 1) =~= pq.take(k).push(e));
            }
            self.queue.add(e);
            proof {
                k = k + 1;
            }
        }
        proof {
            assert(pq.take(k) =~= pq);
        }
        let ghost mut k: int = 0;
        loop
            invariant
                self.wf(),
                self.path == old(self).path,
                self.should_quit == old(self).should_quit,
                self.tree == old(self).tree,
                self.previewer == old(self).previewer,
                self.text_popup == old(self).text_popup,
                self.pending.spec_queue().events().len() == 0,
                self.pending.spec_operation() == old(self).pending.spec_operation(),
                self.input_box.spec_operation() == old(self).input_box.spec_operation(),
                self.input_box.spec_text() == old(self).input_box.spec_text(),
                self.input_box.spec_offset() == old(self).input_box.spec_offset(),
                0 <= k <= iq.len(),
                self.input_box.spec_queue().events() == iq.skip(k),
                self.queue.events() == q0 + pq + iq.take(k),
            ensures
                self.input_box.spec_queue().events().len() == 0,
            decreases self.input_box.spec_queue().events().len(),
        {
            let e = match self.input_box.pop_event() {
                Some(e) => e,
                None => break,
            };
            proof {
                assert(iq.skip(k)[0] == iq[k]);
                assert(iq.skip(k).drop_first() =~= iq.skip(k + 1));
                assert(iq.take(k + 1) =~= iq.take(k).push(e));
            }
            self.queue.add(e);
            proof {
                k = k + 1;
            }
        }
        proof {
            assert(iq.take(k) =~= iq);
        }
        let ghost mut k: int = 0;
        loop
            invariant
                self.wf(),
                self.path == old(self).path,
                self.should_quit == old(self).should_quit,
                self.previewer == old(self).previewer,
                self.text_popup == old(self).text_popup,
                self.pending.spec_queue().events().len() == 0,
                self.input_box.spec_queue().events().len() == 0,
                self.pending.spec_operation() == old(self).pending.spec_operation(),
                self.input_box.spec_operation() == old(self).input_box.spec_operation(),
                self.input_box.spec_text() == old(self).input_box.spec_text(),
                self.tree.spec_listing() == old(self).tree.spec_listing(),
                self.tree.spec_root() == old(self).tree.spec_root(),
                0 <= k <= tq.len(),
                self.tree.spec_queue() == tq.skip(k),
                self.queue.events() == q0 + pq + iq + tq.take(k),
            ensures
                self.tree.spec_queue().len() == 0,
            decreases self.tree.spec_queue().len(),
        {
            let e = match self.tree.pop_event() {
                Some(e) => e,
                None => break,
            };
            proof {
                assert(tq.skip(k)[0] == tq[k]);
                assert(tq.skip(k).drop_first() =~= tq.skip(k + 1));
                assert(tq.take(k + 1) =~= tq.take(k).push(e));
            }
            self.queue.add(e);
            proof {
                k = k + 1;
            }
        }
        proof {
            assert(tq.take(k) =~= tq);
        }
    }
}

} // verus!
