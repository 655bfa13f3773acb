//! The special-command popup: commands registered for file patterns, offered for a file
//! that matches one, and run (or completed in the text box) when one is chosen.

use vstd::prelude::*;
use crate::config::{Config, GlobList, GlobListError, Key, code_key, first_unparsed, glob_set_builds, glob_set_matches};
use crate::input_box::InputOperation;
use crate::keys::{KeyCode, KeyEvent};
use crate::path::{PathBuf, PathView, path_text};
use crate::popup::is_key;
use crate::queue::{AppEvent, Queue};
use crate::text::{contains_seq, replace_all, replace_str, str_contains, str_chars, string_from_chars};

verus! {

#[verifier::external_type_specification]
#[verifier::external_body]
pub struct ExGlobError(globset::Error);

/// Whether `globset::Glob::new` parses `pattern`.
pub uninterp spec fn glob_parses(pattern: Seq<char>) -> bool;

/// Whether opening found commands for the file.
#[derive(Debug, Clone, Copy, PartialEq, Eq, Structural)]
pub enum MatchState {
    Matched,
    NotMatched,
}

impl MatchState {
    /// Whether commands were found.
    pub fn is_matched(&self) -> (r: bool)
        ensures
            r == (*self == MatchState::Matched),
    {
        *self == MatchState::Matched
    }
}

/// Commands registered for the files that a pattern matches.
#[derive(Debug)]
pub struct FileCommand {
    pub pattern: GlobList,
    pub commands: Vec<String>,
}

/// The pattern by which the commands of `pattern` are looked for: any directories, then
/// `pattern`.
pub open spec fn anywhere(pattern: Seq<char>) -> Seq<char> {
    seq!['*', '*', '/'] + pattern
}

/// Every pattern of the special commands, looked for anywhere, parses and compiles.
pub open spec fn patterns_parse(cs: Seq<(String, Vec<String>)>) -> bool {
    forall|k: int| 0 <= k < cs.len() ==> glob_parses(anywhere(#[trigger] cs[k].0@)) && glob_set_builds(
        seq![anywhere(cs[k].0@)],
    )
}

/// The position of the first of `registry` whose pattern matches `path`, if one does.
pub open spec fn first_match(registry: Seq<FileCommand>, path: Seq<char>) -> Option<int> {
    if exists|k: int| 0 <= k < registry.len() && glob_set_matches((#[trigger] registry[k]).pattern@, path) {
        Some(choose|k: int| 0 <= k < registry.len() && glob_set_matches((#[trigger] registry[k]).pattern@, path)
            && forall|j: int| 0 <= j < k ==> !glob_set_matches((#[trigger] registry[j]).pattern@, path))
    } else {
        None
    }
}

/// The popup: the commands registered, those opened for a file with the file, the
/// selected command, and the events it sends.
pub struct FileCmdPopup {
    selected: usize,
    registry: Vec<FileCommand>,
    queue: Queue,
    opened: Option<(FileCommand, PathBuf)>,
}

/// The arm of the bindings that a key press takes, in the order they are tried.
pub open spec fn cmd_arm(c: Config, ev: KeyEvent) -> int {
    if is_key(c.down, ev) {
        0
    } else if is_key(c.up, ev) {
        1
    } else if is_key(c.all_up, ev) {
        2
    } else if is_key(c.all_down, ev) {
        3
    } else if is_key(c.quit, ev) || is_key(code_key(KeyCode::Esc), ev) {
        4
    } else if is_key(c.open, ev) {
        5
    } else {
        6
    }
}

/// The command chosen from `cmd` for the file at `path`: `{}` stands for the path.
pub open spec fn chosen_command(cmd: Seq<char>, path: PathView) -> Seq<char> {
    replace_all(cmd, seq!['{', '}'], path_text(path))
}

impl FileCmdPopup {
    pub closed spec fn spec_selected(&self) -> nat {
        self.selected as nat
    }

    pub closed spec fn spec_registry(&self) -> Seq<FileCommand> {
        self.registry@
    }

    pub closed spec fn spec_opened(&self) -> Option<(FileCommand, PathBuf)> {
        self.opened
    }

    pub closed spec fn spec_queue(&self) -> Seq<AppEvent> {
        self.queue.events()
    }

    /// The commands opened, when some are.
    pub open spec fn opened_commands(&self) -> Seq<String> {
        match self.spec_opened() {
            Some(o) => o.0.commands@,
            None => Seq::empty(),
        }
    }

    /// The selection designates an opened command, when there are any.
    pub closed spec fn wf(&self) -> bool {
        self.opened matches Some(o) ==> (o.0.commands@.len() == 0 || self.selected < o.0.commands@.len())
    }

    /// A closed popup, the first command selected, with the commands that `config` registers
    /// by pattern, each pattern looked for anywhere below the file system (see `anywhere`).
    pub fn new(queue: Queue, config: &Config) -> (r: FileCmdPopup)
        requires
            patterns_parse(config.special_commands@),
        ensures
            r.wf(),
            r.spec_selected() == 0,
            r.spec_opened() is None,
            r.spec_queue() == queue.events(),
            r.spec_registry().len() == config.special_commands@.len(),
            forall|k: int| 0 <= k < r.spec_registry().len() ==> #[trigger] r.spec_registry()[k].commands.deep_view() == config.special_commands@[k].1.deep_view()
                && r.spec_registry()[k].pattern@ == seq![anywhere(config.special_commands@[k].0@)],
    {
        match FileCmdPopup::try_new(queue, config) {
            Some(p) => p,
            None => {
                proof {
                    assert(false);
                }
                FileCmdPopup { selected: 0, registry: Vec::new(), queue: Queue::new(), opened: None }
            },
        }
    }

    /// `new`, when every pattern parses; none otherwise.
    pub fn try_new(queue: Queue, config: &Config) -> (r: Option<FileCmdPopup>)
        ensures
            r is Some <==> patterns_parse(config.special_commands@),
            r matches Some(p) ==> {
                &&& p.wf()
                &&& p.spec_selected() == 0
                &&& p.spec_opened() is None
                &&& p.spec_queue() == queue.events()
                &&& p.spec_registry().len() == config.special_commands@.len()
                &&& forall|k: int| 0 <= k < p.spec_registry().len() ==> #[trigger] p.spec_registry()[k].commands.deep_view() == config.special_commands@[k].1.deep_view()
                    && p.spec_registry()[k].pattern@ == seq![anywhere(config.special_commands@[k].0@)]
            },
    {
        let cs = &config.special_commands;
        let mut registry: Vec<FileCommand> = Vec::new();
        let mut i: usize = 0;
        while i < cs.len()
            invariant
                cs@ == config.special_commands@,
                i <= cs@.len(),
                registry@.len() == i,
                forall|k: int| 0 <= k < i ==> glob_parses(anywhere(#[trigger] cs@[k].0@)) && glob_set_builds(
                    seq![anywhere(cs@[k].0@)],
                ),
                forall|k: int| 0 <= k < i ==> #[trigger] registry@[k].commands.deep_view() == cs@[k].1.deep_view()
                    && registry@[k].pattern@ == seq![anywhere(cs@[k].0@)],
            decreases cs@.len() - i,
        {
            let mut text: Vec<char> = Vec::new();
            text.push('*');
            text.push('*');
            text.push('/');
            let pattern_chars = str_chars(cs[i].0.as_str());
            let mut j: usize = 0;
            while j < pattern_chars.len()
                invariant
                    j <= pattern_chars@.len(),
                    text@ == seq!['*', '*', '/'] + pattern_chars@.take(j as int),
                decreases pattern_chars@.len() - j,
            {
                text.push(pattern_chars[j]);
                proof {
                    assert(pattern_chars@.take(j + 1) =~= pattern_chars@.take(j as int).push(pattern_chars@[j as int]));
                }
                j = j + 1;
            }
            proof {
                assert(pattern_chars@.take(j as int) =~= pattern_chars@);
            }
            let full = string_from_chars(text.as_slice());
            proof {
                assert(full@ == anywhere(cs@[i as int].0@));
            }
            let mut one: Vec<String> = Vec::new();
            one.push(full);
            let ghost g1 = seq![anywhere(cs@[i as int].0@)];
            proof {
                assert(one.deep_view() =~= g1);
            }
            let pattern = match GlobList::new(&one) {
                Ok(l) => l,
                Err(e) => {
                    proof {
                        assert(cs@[i as int] == config.special_commands@[i as int]);
                        if e matches GlobListError::Pattern(_) {
                            let w = choose|w: int| 0 <= w < g1.len() && !glob_parses(#[trigger] g1[w])
                                && forall|j: int| 0 <= j < w ==> glob_parses(#[trigger] g1[j]);
                            assert(w == 0);
                            assert(!glob_parses(anywhere(cs@[i as int].0@)));
                        } else {
                            assert(first_unparsed(g1) is None);
                            assert(!glob_set_builds(g1));
                        }
                        assert(!patterns_parse(config.special_commands@));
                    }
                    return None;
                },
            };
            proof {
                assert(first_unparsed(g1) is None);
                if !glob_parses(anywhere(cs@[i as int].0@)) {
                    assert(!glob_parses(g1[0]));
                }
                assert(glob_set_builds(g1));
            }
            let commands = copy_commands(&cs[i].1);
            let ghost before = registry@;
            registry.push(FileCommand { pattern, commands });
            proof {
                assert(registry@[i as int].commands.deep_view() == cs@[i as int].1.deep_view());
                assert forall|k: int| 0 <= k < i + 1 implies #[trigger] registry@[k].commands.deep_view() == cs@[k].1.deep_view()
                    && registry@[k].pattern@ == seq![anywhere(cs@[k].0@)] by {
                    if k < i {
                        assert(registry@[k] == before[k]);
                        assert(before[k].commands.deep_view() == cs@[k].1.deep_view());
                        assert(before[k].pattern@ == seq![anywhere(cs@[k].0@)]);
                    }
                }
            }
            i = i + 1;
        }
        let r = FileCmdPopup { selected: 0, registry, queue, opened: None };
        proof {
            assert(patterns_parse(config.special_commands@));
            assert(r.wf());
            assert(r.spec_registry().len() == config.special_commands@.len());
            assert(forall|k: int| 0 <= k < r.spec_registry().len() ==> #[trigger] r.spec_registry()[k].commands.deep_view() == config.special_commands@[k].1.deep_view()
                && r.spec_registry()[k].pattern@ == seq![anywhere(config.special_commands@[k].0@)]);
        }
        Some(r)
    }

    /// Opens the commands of the first registered pattern that the file at `path` matches
    /// (see `first_match`), taking them out of the registry; the first command is
    /// selected. Nothing else changes when no pattern matches.
    pub fn open_for(&mut self, path: PathBuf) -> (r: MatchState)
        requires
            old(self).wf(),
        ensures
            final(self).wf(),
            final(self).spec_selected() == 0,
            final(self).spec_queue() == old(self).spec_queue(),
            match first_match(old(self).spec_registry(), path_text(path@)) {
                Some(k) => r == MatchState::Matched && final(self).spec_registry() == old(self).spec_registry().remove(k)
                    && final(self).spec_opened() == Some((old(self).spec_registry()[k], path)),
                None => r == MatchState::NotMatched && final(self).spec_registry() == old(self).spec_registry()
                    && final(self).spec_opened() == old(self).spec_opened(),
            },
    {
        self.selected = 0;
        let text = path.to_text();
        let mut i: usize = 0;
        while i < self.registry.len()
            invariant
                i <= self.registry@.len(),
                self.registry@ == old(self).registry@,
                self.opened == old(self).opened,
                self.queue == old(self).queue,
                self.selected == 0,
                text@ == path_text(path@),
                forall|j: int| 0 <= j < i ==> !glob_set_matches((#[trigger] self.registry@[j]).pattern@, text@),
            decreases self.registry@.len() - i,
        {
            if self.registry[i].pattern.is_match(text.as_str()) {
                proof {
                    let reg = old(self).spec_registry();
                    let w = choose|k: int| 0 <= k < reg.len() && glob_set_matches((#[trigger] reg[k]).pattern@, text@)
                        && forall|j: int| 0 <= j < k ==> !glob_set_matches((#[trigger] reg[j]).pattern@, text@);
                    assert(glob_set_matches(reg[i as int].pattern@, text@));
                    assert(w == i as int) by {
                        if w < i as int {
                            assert(!glob_set_matches(reg[w].pattern@, text@));
                        } else if w > i as int {
                            assert(!glob_set_matches(reg[i as int].pattern@, text@));
                        }
                    }
                }
                let found = self.registry.remove(i);
                proof {
                    assert(found == old(self).registry@[i as int]);
                    assert(self.registry@ == old(self).registry@.remove(i as int));
                }
                let ghost gp = path;
                self.opened = Some((found, path));
                proof {
                    assert(self.spec_opened() == Some((old(self).spec_registry()[i as int], gp)));
                }
                return MatchState::Matched;
            }
            i = i + 1;
        }
        proof {
            let reg = old(self).spec_registry();
            assert(!exists|k: int| 0 <= k < reg.len() && glob_set_matches((#[trigger] reg[k]).pattern@, text@));
        }
        MatchState::NotMatched
    }

    /// The selected command's position.
    pub fn selected(&self) -> (r: usize)
        ensures
            r == self.spec_selected(),
    {
        self.selected
    }

    /// Whether commands are opened.
    pub fn visible(&self) -> (r: bool)
        ensures
            r == (self.spec_opened() is Some),
    {
        self.opened.is_some()
    }

    /// Whether the popup takes the focus: always.
    pub fn focused(&self) -> (r: bool)
        ensures
            r,
    {
        true
    }

    /// The opened commands with the file they were opened for.
    pub fn opened(&self) -> (r: Option<&(FileCommand, PathBuf)>)
        ensures
            match self.spec_opened() {
                Some(o) => r matches Some(x) && *x == o,
                None => r is None,
            },
    {
        match &self.opened {
            Some(o) => Some(o),
            None => None,
        }
    }

    /// The number of command sets registered and not opened.
    pub fn registry_len(&self) -> (r: usize)
        ensures
            r == self.spec_registry().len(),
    {
        self.registry.len()
    }

    /// Takes out the first event the popup has sent, if any.
    pub fn pop_event(&mut self) -> (r: Option<AppEvent>)
        ensures
            old(self).spec_queue().len() == 0 ==> r is None && final(self).spec_queue() == old(self).spec_queue(),
            old(self).spec_queue().len() > 0 ==> r == Some(old(self).spec_queue()[0]) && final(self).spec_queue()
                == old(self).spec_queue().drop_first(),
            final(self).spec_selected() == old(self).spec_selected(),
            final(self).spec_registry() == old(self).spec_registry(),
            final(self).spec_opened() == old(self).spec_opened(),
            old(self).wf() ==> final(self).wf(),
    {
        self.queue.pop()
    }

    /// Selects the next command, staying at the last one.
    pub fn select_next(&mut self)
        requires
            old(self).wf(),
            old(self).spec_opened() is Some,
            old(self).opened_commands().len() > 0,
        ensures
            final(self).wf(),
            final(self).spec_selected() == (if old(self).spec_selected() + 1 == old(self).opened_commands().len() {
                old(self).spec_selected()
            } else {
                old(self).spec_selected() + 1
            }),
            final(self).spec_registry() == old(self).spec_registry(),
            final(self).spec_opened() == old(self).spec_opened(),
            final(self).spec_queue() == old(self).spec_queue(),
    {
        let len = match &self.opened {
            Some(o) => o.0.commands.len(),
            None => 1,
        };
        if self.selected == len - 1 {
            return;
        }
        self.selected = self.selected + 1;
    }

    /// Selects the previous command, staying at the first one.
    pub fn select_prev(&mut self)
        requires
            old(self).wf(),
        ensures
            final(self).wf(),
            final(self).spec_selected() == (if old(self).spec_selected() == 0 {
                0
            } else {
                (old(self).spec_selected() - 1) as nat
            }),
            final(self).spec_registry() == old(self).spec_registry(),
            final(self).spec_opened() == old(self).spec_opened(),
            final(self).spec_queue() == old(self).spec_queue(),
    {
        if self.selected == 0 {
            return;
        }
        self.selected = self.selected - 1;
    }

    /// Selects the first command.
    pub fn select_first(&mut self)
        requires
            old(self).wf(),
        ensures
            final(self).wf(),
            final(self).spec_selected() == 0,
            final(self).spec_registry() == old(self).spec_registry(),
            final(self).spec_opened() == old(self).spec_opened(),
            final(self).spec_queue() == old(self).spec_queue(),
    {
        self.selected = 0;
    }

    /// Selects the last command.
    pub fn select_last(&mut self)
        requires
            old(self).wf(),
            old(self).spec_opened() is Some,
            old(self).opened_commands().len() > 0,
        ensures
            final(self).wf(),
            final(self).spec_selected() == old(self).opened_commands().len() - 1,
            final(self).spec_registry() == old(self).spec_registry(),
            final(self).spec_opened() == old(self).spec_opened(),
            final(self).spec_queue() == old(self).spec_queue(),
    {
        let len = match &self.opened {
            Some(o) => o.0.commands.len(),
            None => 1,
        };
        self.selected = len - 1;
    }

    /// Closes the opened commands, putting them back at the end of the registry.
    pub fn close(&mut self)
        requires
            old(self).wf(),
        ensures
            final(self).wf(),
            final(self).spec_opened() is None,
            final(self).spec_selected() == old(self).spec_selected(),
            final(self).spec_queue() == old(self).spec_queue(),
            match old(self).spec_opened() {
                Some(o) => final(self).spec_registry() == old(self).spec_registry().push(o.0),
                None => final(self).spec_registry() == old(self).spec_registry(),
            },
    {
        let opened = self.opened.take();
        match opened {
            Some(o) => self.registry.push(o.0),
            None => {},
        }
    }

    /// Takes a key press while commands are opened: down and up move the selection, the
    /// jumps go to either end, quit and escape close, and open sends the selected command
    /// for the file (see `chosen_command`) — to run, or to the text box when `{...}` remains
    /// in it — and closes.
    pub fn handle_key(&mut self, ev: &KeyEvent, config: &Config)
        requires
            old(self).wf(),
            old(self).spec_opened() is Some && (cmd_arm(*config, *ev) == 0 || cmd_arm(*config, *ev) == 3 || cmd_arm(
                *config,
                *ev,
            ) == 5) ==> old(self).opened_commands().len() > 0,
        ensures
            final(self).wf(),
            old(self).spec_opened() is None ==> final(self).spec_selected() == old(self).spec_selected()
                && final(self).spec_registry() == old(self).spec_registry() && final(self).spec_opened()
                == old(self).spec_opened() && final(self).spec_queue() == old(self).spec_queue(),
            old(self).spec_opened() matches Some(o) ==> {
                let arm = cmd_arm(*config, *ev);
                let n = o.0.commands@.len();
                let sel = old(self).spec_selected();
                if arm == 4 || arm == 5 {
                    &&& final(self).spec_opened() is None
                    &&& final(self).spec_selected() == sel
                    &&& final(self).spec_registry() == old(self).spec_registry().push(o.0)
                    &&& if arm == 4 {
                        final(self).spec_queue() == old(self).spec_queue()
                    } else {
                        let full = chosen_command(o.0.commands@[sel as int]@, o.1@);
                        &&& final(self).spec_queue().len() == old(self).spec_queue().len() + 1
                        &&& final(self).spec_queue().drop_last() == old(self).spec_queue()
                        &&& if contains_seq(full, seq!['{', '.', '.', '.', '}']) {
                            final(self).spec_queue().last() matches AppEvent::OpenInput(InputOperation::SpecialCommand(s)) && s@ == full
                        } else {
                            final(self).spec_queue().last() matches AppEvent::RunCommand(s) && s@ == full
                        }
                    }
                } else {
                    &&& final(self).spec_opened() == old(self).spec_opened()
                    &&& final(self).spec_registry() == old(self).spec_registry()
                    &&& final(self).spec_queue() == old(self).spec_queue()
                    &&& final(self).spec_selected() == (if arm == 0 {
                        if sel + 1 == n { sel } else { sel + 1 }
                    } else if arm == 1 {
                        if sel == 0 { 0 } else { (sel - 1) as nat }
                    } else if arm == 2 {
                        0
                    } else if arm == 3 {
                        (n - 1) as nat
                    } else {
                        sel
                    })
                }
            },
            old(self).spec_opened() matches Some(o) ==> {
                let n = o.0.commands@.len();
                let sel = old(self).spec_selected();
                let down = is_key(config.down, *ev);
                let up = is_key(config.up, *ev);
                let top = is_key(config.all_up, *ev);
                let bottom = is_key(config.all_down, *ev);
                &&& down ==> final(self).spec_selected() >= sel && (sel + 1 < n ==> final(self).spec_selected() == sel + 1)
                &&& !down && up ==> final(self).spec_selected() <= sel && (sel > 0 ==> final(self).spec_selected() == sel - 1)
                &&& !down && !up && top ==> final(self).spec_selected() == 0
                &&& !down && !up && !top && bottom ==> final(self).spec_selected() == n - 1
                &&& (down || up || top || bottom) ==> final(self).spec_opened() is Some
                &&& !down && !up && !top && !bottom && (is_key(config.quit, *ev) || is_key(code_key(KeyCode::Esc), *ev))
                    ==> final(self).spec_opened() is None && final(self).spec_queue() == old(self).spec_queue()
                &&& !down && !up && !top && !bottom && !is_key(config.quit, *ev) && !is_key(code_key(KeyCode::Esc), *ev)
                    && is_key(config.open, *ev) ==> final(self).spec_opened() is None && final(self).spec_queue().len()
                    == old(self).spec_queue().len() + 1
            },
    {
        if !self.visible() {
            return;
        }
        if config.down.matches(ev) {
            self.select_next();
        } else if config.up.matches(ev) {
            self.select_prev();
        } else if config.all_up.matches(ev) {
            self.select_first();
        } else if config.all_down.matches(ev) {
            self.select_last();
        } else if config.quit.matches(ev) || Key::esc().matches(ev) {
            self.close();
        } else if config.open.matches(ev) {
            let opened = match self.opened.take() {
                Some(o) => o,
                None => return,
            };
            let ghost q0 = self.queue.events();
            let text = opened.1.to_text();
            let full = replace_str(opened.0.commands[self.selected].as_str(), "{}", text.as_str());
            proof {
                reveal_strlit("{}");
                reveal_strlit("{...}");
                assert("{}"@ =~= seq!['{', '}']);
                assert("{...}"@ =~= seq!['{', '.', '.', '.', '}']);
            }
            if str_contains(full.as_str(), "{...}") {
                self.queue.add(AppEvent::OpenInput(InputOperation::SpecialCommand(full)));
            } else {
                self.queue.add(AppEvent::RunCommand(full));
            }
            self.registry.push(opened.0);
            proof {
                assert(self.queue.events().drop_last() =~= q0);
            }
        }
    }
}

/// A copy of a list of commands.
fn copy_commands(v: &Vec<String>) -> (r: Vec<String>)
    ensures
        r.deep_view() == v.deep_view(),
{
    let mut out: Vec<String> = Vec::new();
    let mut i: usize = 0;
    while i < v.len()
        invariant
            i <= v@.len(),
            out.deep_view() == v.deep_view().take(i as int),
        decreases v@.len() - i,
    {
        let c = string_from_chars(str_chars(v[i].as_str()).as_slice());
        let ghost before = out.deep_view();
        out.push(c);
        proof {
            assert(v.deep_view()[i as int] == v@[i as int]@);
            assert(out.deep_view() =~= before.push(c@));
            assert(out.deep_view() =~= v.deep_view().take(i + 1));
        }
        i = i + 1;
    }
    proof {
        assert(v.deep_view().take(v@.len() as int) =~= v.deep_view());
    }
    out
}

impl Default for FileCmdPopup {
    /// The popup of the default settings: nothing registered.
    fn default() -> (r: FileCmdPopup)
        ensures
            r.wf(),
            r.spec_selected() == 0,
            r.spec_opened() is None,
            r.spec_registry().len() == 0,
            r.spec_queue().len() == 0,
    {
        FileCmdPopup { selected: 0, registry: Vec::new(), queue: Queue::new(), opened: None }
    }
}

} // verus!
