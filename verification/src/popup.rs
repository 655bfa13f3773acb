//! The scrolled text popup (help, running commands).

use vstd::prelude::*;
use crate::config::{code_key, expected_mods, key_text, printable, Config, Key};
use crate::keys::{KeyCode, KeyEvent};
use crate::text::{str_chars, string_from_chars};

verus! {

/// What the popup shows.
#[derive(Debug, PartialEq, Eq, Clone, Copy, Default, Structural)]
pub enum Preset {
    Help,
    RunningCommand,
    #[default]
    Nothing,
}

/// The popup: what it shows and how far it is scrolled down.
#[derive(Default)]
pub struct Popup {
    preset: Preset,
    scroll_y: u16,
}

/// The key event `ev` is the binding `k` (`Key::matches`).
pub open spec fn is_key(k: Key, ev: KeyEvent) -> bool {
    ev.code == k.code && ev.modifiers == expected_mods(k)
}

/// What a key press does to the popup (`handle_key`): nothing while it shows nothing;
/// otherwise the first binding of the configuration that the key is decides, in this
/// order: down scrolls one line down, up one line up (not past the top), all-up to the
/// top, all-down to the bottom, and quit or escape close it.
pub open spec fn popup_key_effect(c: Config, before: Popup, after: Popup, ev: KeyEvent) -> bool {
    let y = before.spec_scroll();
    let p = before.spec_preset();
    if p == Preset::Nothing {
        after == before
    } else if is_key(c.down, ev) {
        after.spec_preset() == p && after.spec_scroll() == y + 1
    } else if is_key(c.up, ev) {
        after.spec_preset() == p && after.spec_scroll() == (if y == 0 {
            0
        } else {
            y - 1
        })
    } else if is_key(c.all_up, ev) {
        after.spec_preset() == p && after.spec_scroll() == 0
    } else if is_key(c.all_down, ev) {
        after.spec_preset() == p && after.spec_scroll() == u16::MAX
    } else if is_key(c.quit, ev) || is_key(code_key(KeyCode::Esc), ev) {
        after.spec_preset() == Preset::Nothing && after.spec_scroll() == y
    } else {
        after == before
    }
}

/// The bindings that the help window lists, each with what it does, in the window's order.
pub open spec fn help_bindings(c: Config) -> Seq<(Key, Seq<char>)> {
    seq![
        (c.open, "Open file/toggle opened"@),
        (c.down, "Move down"@),
        (c.up, "Move up"@),
        (c.all_up, "Go to bottom"@),
        (c.all_down, "Go to top"@),
        (c.filetree.down_three, "Move down by 3"@),
        (c.filetree.up_three, "Move up by 3"@),
        (c.filetree.delete, "Delete file"@),
        (c.filetree.new_file, "Create new file"@),
        (c.filetree.new_dir, "Create new directory"@),
        (c.filetree.search, "Search"@),
        (c.filetree.clear, "Clear search"@),
        (c.preview.up_key, "Preview down"@),
        (c.preview.down_key, "Preview up"@),
        (c.filetree.diff_mode, "Toggle diff view"@),
        (c.filetree.git_filter, "Filter for files with new git changes"@),
        (c.filetree.show_dotfiles, "Show dotfiles"@),
        (c.filetree.exec_cmd, "Execute command"@),
        (c.filetree.special_command, "Execute special command"@),
        (c.filetree.open_all, "Open all directories"@),
        (c.filetree.close_all, "Close all directories"@),
        (c.filetree.close_under, "Close all under directory"@),
        (c.filetree.open_under, "Open all under directory"@),
        (c.filetree.mark_selected, "Mark selected file"@),
        (c.marks.open, "Open marks window"@),
        (c.quit, "Quit"@),
        (c.help, "Open help window"@),
    ]
}

/// Every key that the help window lists can be written out.
pub open spec fn help_printable(c: Config) -> bool {
    forall|i: int| 0 <= i < help_bindings(c).len() ==> printable((#[trigger] help_bindings(c)[i]).0.code)
}

/// The number of bytes of `c` in UTF-8.
pub open spec fn char_utf8_len(c: char) -> nat {
    if c <= '\x7f' {
        1
    } else if c <= '\u{7ff}' {
        2
    } else if c <= '\u{ffff}' {
        3
    } else {
        4
    }
}

/// The number of bytes of `s` in UTF-8.
pub open spec fn utf8_len(s: Seq<char>) -> nat
    decreases s.len(),
{
    if s.len() == 0 {
        0
    } else {
        utf8_len(s.drop_last()) + char_utf8_len(s.last())
    }
}

/// The longest written key of `bs`, in bytes.
pub open spec fn longest_key(bs: Seq<(Key, Seq<char>)>) -> nat
    decreases bs.len(),
{
    if bs.len() == 0 {
        0
    } else {
        let m = longest_key(bs.drop_last());
        let l = utf8_len(key_text(bs.last().0));
        if l > m {
            l
        } else {
            m
        }
    }
}

/// `s` with spaces after it up to `width` characters.
pub open spec fn padded(s: Seq<char>, width: nat) -> Seq<char> {
    if s.len() < width {
        s + Seq::new((width - s.len()) as nat, |i: int| ' ')
    } else {
        s
    }
}

/// The lines of the help window: each key written out and padded to one character more than
/// the longest key's length in bytes, beside what the key does.
pub open spec fn help_lines(c: Config) -> Seq<(Seq<char>, Seq<char>)> {
    let bs = help_bindings(c);
    Seq::new(bs.len(), |i: int| (padded(key_text(bs[i].0), longest_key(bs) + 1), bs[i].1))
}

proof fn lemma_chars_within_bytes(s: Seq<char>)
    ensures
        s.len() <= utf8_len(s),
    decreases s.len(),
{
    if s.len() > 0 {
        lemma_chars_within_bytes(s.drop_last());
    }
}

proof fn lemma_longest_bounds(bs: Seq<(Key, Seq<char>)>, i: int)
    requires
        0 <= i < bs.len(),
    ensures
        utf8_len(key_text(bs[i].0)) <= longest_key(bs),
    decreases bs.len(),
{
    if i < bs.len() - 1 {
        lemma_longest_bounds(bs.drop_last(), i);
    }
}

/// The keys of the help window stand in one column: every key is padded to the same
/// width, one more than the longest key's length.
pub proof fn lemma_help_keys_aligned(c: Config)
    ensures
        forall|i: int| 0 <= i < help_lines(c).len() ==> (#[trigger] help_lines(c)[i]).0.len() == longest_key(
            help_bindings(c),
        ) + 1,
{
    let bs = help_bindings(c);
    assert forall|i: int| 0 <= i < help_lines(c).len() implies (#[trigger] help_lines(c)[i]).0.len() == longest_key(bs)
        + 1 by {
        lemma_longest_bounds(bs, i);
        lemma_chars_within_bytes(key_text(bs[i].0));
    }
}

/// The text a popup shows: its title, its height on screen, and its lines, each a
/// highlighted part and a plain part.
pub struct PopupText {
    pub title: String,
    pub height: u16,
    pub lines: Vec<(String, String)>,
}

/// The lines of a popup's text, as values.
pub open spec fn line_views(lines: Seq<(String, String)>) -> Seq<(Seq<char>, Seq<char>)> {
    lines.map_values(|l: (String, String)| (l.0@, l.1@))
}

/// The text of what `p` shows, with the bindings of `c`.
pub open spec fn popup_text(p: Preset, c: Config, t: PopupText) -> bool {
    match p {
        Preset::Help => t.title@ == "Help"@ && t.height == 35 && line_views(t.lines@) == help_lines(c),
        Preset::RunningCommand => t.title@ == "Command"@ && t.height == 3 && line_views(t.lines@) == seq![
            (Seq::<char>::empty(), "Command in-progress. Press CTRL-C to quit"@),
        ],
        Preset::Nothing => false,
    }
}

/// A string of the text of `s`.
fn owned(s: &str) -> (r: String)
    ensures
        r@ == s@,
{
    string_from_chars(str_chars(s).as_slice())
}

/// The bindings that the help window lists (see `help_bindings`).
fn help_binding_list(c: &Config) -> (r: Vec<(Key, String)>)
    ensures
        r@.map_values(|b: (Key, String)| (b.0, b.1@)) == help_bindings(*c),
{
    let mut r: Vec<(Key, String)> = Vec::new();
    r.push((c.open, owned("Open file/toggle opened")));
    r.push((c.down, owned("Move down")));
    r.push((c.up, owned("Move up")));
    r.push((c.all_up, owned("Go to bottom")));
    r.push((c.all_down, owned("Go to top")));
    r.push((c.filetree.down_three, owned("Move down by 3")));
    r.push((c.filetree.up_three, owned("Move up by 3")));
    r.push((c.filetree.delete, owned("Delete file")));
    r.push((c.filetree.new_file, owned("Create new file")));
    r.push((c.filetree.new_dir, owned("Create new directory")));
    r.push((c.filetree.search, owned("Search")));
    r.push((c.filetree.clear, owned("Clear search")));
    r.push((c.preview.up_key, owned("Preview down")));
    r.push((c.preview.down_key, owned("Preview up")));
    r.push((c.filetree.diff_mode, owned("Toggle diff view")));
    r.push((c.filetree.git_filter, owned("Filter for files with new git changes")));
    r.push((c.filetree.show_dotfiles, owned("Show dotfiles")));
    r.push((c.filetree.exec_cmd, owned("Execute command")));
    r.push((c.filetree.special_command, owned("Execute special command")));
    r.push((c.filetree.open_all, owned("Open all directories")));
    r.push((c.filetree.close_all, owned("Close all directories")));
    r.push((c.filetree.close_under, owned("Close all under directory")));
    r.push((c.filetree.open_under, owned("Open all under directory")));
    r.push((c.filetree.mark_selected, owned("Mark selected file")));
    r.push((c.marks.open, owned("Open marks window")));
    r.push((c.quit, owned("Quit")));
    r.push((c.help, owned("Open help window")));
    proof {
        assert(r@.map_values(|b: (Key, String)| (b.0, b.1@)) =~= help_bindings(*c));
    }
    r
}

/// The number of bytes of `c` in UTF-8.
fn char_len_utf8(c: char) -> (r: usize)
    ensures
        r == char_utf8_len(c),
{
    if c <= '\x7f' {
        1
    } else if c <= '\u{7ff}' {
        2
    } else if c <= '\u{ffff}' {
        3
    } else {
        4
    }
}

proof fn lemma_utf8_len_bound(s: Seq<char>)
    ensures
        utf8_len(s) <= 4 * s.len(),
    decreases s.len(),
{
    if s.len() > 0 {
        lemma_utf8_len_bound(s.drop_last());
    }
}

proof fn lemma_key_text_len(k: Key)
    ensures
        key_text(k).len() <= 18,
{
    reveal_strlit("ctrl-");
    reveal_strlit("alt-");
    reveal_strlit("up");
    reveal_strlit("down");
    reveal_strlit("right");
    reveal_strlit("left");
    reveal_strlit("enter");
    reveal_strlit("backspace");
    reveal_strlit("tab");
    reveal_strlit("backtab");
}

/// The number of bytes of `s` in UTF-8.
fn text_len_utf8(s: &Vec<char>) -> (r: usize)
    requires
        s@.len() <= 18,
    ensures
        r == utf8_len(s@),
{
    let mut n: usize = 0;
    let mut i: usize = 0;
    while i < s.len()
        invariant
            i <= s@.len() <= 18,
            n == utf8_len(s@.take(i as int)),
            n <= 4 * i,
        decreases s@.len() - i,
    {
        proof {
            assert(s@.take(i + 1).drop_last() =~= s@.take(i as int));
            lemma_utf8_len_bound(s@.take(i as int));
        }
        n = n + char_len_utf8(s[i]);
        i = i + 1;
    }
    proof {
        assert(s@.take(i as int) =~= s@);
    }
    n
}

/// `s` with spaces after it up to `width` characters.
fn pad(s: &Vec<char>, width: usize) -> (r: String)
    ensures
        r@ == padded(s@, width as nat),
{
    let mut out: Vec<char> = Vec::new();
    let mut i: usize = 0;
    while i < s.len()
        invariant
            i <= s@.len(),
            out@ == s@.take(i as int),
        decreases s@.len() - i,
    {
        out.push(s[i]);
        proof {
            assert(out@ =~= s@.take(i + 1));
        }
        i = i + 1;
    }
    proof {
        assert(s@.take(i as int) =~= s@);
    }
    if s.len() < width {
        let mut j: usize = s.len();
        while j < width
            invariant
                s@.len() <= j <= width,
                out@ == s@ + Seq::new((j - s@.len()) as nat, |k: int| ' '),
            decreases width - j,
        {
            out.push(' ');
            proof {
                assert(out@ =~= s@ + Seq::new((j + 1 - s@.len()) as nat, |k: int| ' '));
            }
            j = j + 1;
        }
    }
    string_from_chars(out.as_slice())
}

/// The lines of the help window (see `help_lines`).
fn help_text_lines(c: &Config) -> (r: Vec<(String, String)>)
    requires
        help_printable(*c),
    ensures
        line_views(r@) == help_lines(*c),
{
    let bs = help_binding_list(c);
    let ghost hb = help_bindings(*c);
    assert(bs@.len() == hb.len());
    let mut width: usize = 0;
    let mut i: usize = 0;
    while i < bs.len()
        invariant
            i <= bs@.len(),
            bs@.len() == hb.len(),
            hb == help_bindings(*c),
            bs@.map_values(|b: (Key, String)| (b.0, b.1@)) == hb,
            help_printable(*c),
            width == longest_key(hb.take(i as int)),
            width <= 72,
        decreases bs@.len() - i,
    {
        assert(hb[i as int].0 == bs@[i as int].0);
        assert(printable(hb[i as int].0.code));
        let text = bs[i].0.to_text();
        let t = str_chars(text.as_str());
        proof {
            lemma_key_text_len(bs@[i as int].0);
            lemma_utf8_len_bound(t@);
            assert(hb.take(i + 1).drop_last() =~= hb.take(i as int));
            assert(hb.take(i + 1).last() == hb[i as int]);
        }
        let l = text_len_utf8(&t);
        if l > width {
            width = l;
        }
        i = i + 1;
    }
    proof {
        assert(hb.take(i as int) =~= hb);
    }
    let mut r: Vec<(String, String)> = Vec::new();
    let mut i: usize = 0;
    while i < bs.len()
        invariant
            i <= bs@.len(),
            bs@.len() == hb.len(),
            hb == help_bindings(*c),
            bs@.map_values(|b: (Key, String)| (b.0, b.1@)) == hb,
            help_printable(*c),
            width == longest_key(hb),
            width <= 72,
            line_views(r@) == help_lines(*c).take(i as int),
        decreases bs@.len() - i,
    {
        assert(hb[i as int].0 == bs@[i as int].0);
        assert(hb[i as int].1 == bs@[i as int].1@);
        assert(printable(hb[i as int].0.code));
        let text = bs[i].0.to_text();
        let t = str_chars(text.as_str());
        let key = pad(&t, width + 1);
        let desc = owned(bs[i].1.as_str());
        let ghost before = r@;
        r.push((key, desc));
        proof {
            assert(line_views(r@) =~= line_views(before).push((key@, desc@)));
            assert(help_lines(*c).take(i + 1) =~= help_lines(*c).take(i as int).push(help_lines(*c)[i as int]));
        }
        i = i + 1;
    }
    proof {
        assert(help_lines(*c).take(i as int) =~= help_lines(*c));
    }
    r
}

impl Popup {
    pub closed spec fn spec_preset(&self) -> Preset {
        self.preset
    }

    pub closed spec fn spec_scroll(&self) -> int {
        self.scroll_y as int
    }

    /// A popup that shows nothing, at the top.
    pub fn new() -> (r: Popup)
        ensures
            r.spec_preset() == Preset::Nothing,
            r.spec_scroll() == 0,
    {
        Popup { preset: Preset::Nothing, scroll_y: 0 }
    }

    /// What the popup shows.
    pub fn preset(&self) -> (r: Preset)
        ensures
            r == self.spec_preset(),
    {
        self.preset
    }

    /// Shows `preset`.
    pub fn set_preset(&mut self, preset: Preset)
        ensures
            final(self).spec_preset() == preset,
            final(self).spec_scroll() == old(self).spec_scroll(),
    {
        self.preset = preset;
    }

    /// How far the popup is scrolled down.
    pub fn scroll(&self) -> (r: u16)
        ensures
            r == self.spec_scroll(),
    {
        self.scroll_y
    }

    /// Whether the popup shows something.
    pub fn visible(&self) -> (r: bool)
        ensures
            r == (self.spec_preset() != Preset::Nothing),
    {
        match self.preset {
            Preset::Nothing => false,
            _ => true,
        }
    }

    /// Handles a key press with the bindings of `config` (see `popup_key_effect`). Scrolling
    /// down from the bottom is left out.
    pub fn handle_key(&mut self, ev: &KeyEvent, config: &Config)
        requires
            !(old(self).spec_preset() != Preset::Nothing && is_key(config.down, *ev) && old(self).spec_scroll()
                == u16::MAX),
        ensures
            popup_key_effect(*config, *old(self), *final(self), *ev),
    {
        if !self.visible() {
            return;
        }
        if config.down.matches(ev) {
            self.scroll_y = self.scroll_y + 1;
        } else if config.up.matches(ev) {
            if self.scroll_y != 0 {
                self.scroll_y = self.scroll_y - 1;
            }
        } else if config.all_up.matches(ev) {
            self.scroll_y = 0;
        } else if config.all_down.matches(ev) {
            self.scroll_y = u16::MAX;
        } else if config.quit.matches(ev) || Key::esc().matches(ev) {
            self.preset = Preset::Nothing;
        }
    }

    /// Whether every key that the help window lists can be written out (see
    /// `help_printable`).
    pub fn can_show_help(config: &Config) -> (r: bool)
        ensures
            r == help_printable(*config),
    {
        let bs = help_binding_list(config);
        let ghost hb = help_bindings(*config);
        let mut i: usize = 0;
        while i < bs.len()
            invariant
                i <= bs@.len(),
                bs@.len() == hb.len(),
                hb == help_bindings(*config),
                bs@.map_values(|b: (Key, String)| (b.0, b.1@)) == hb,
                forall|j: int| 0 <= j < i ==> printable((#[trigger] hb[j]).0.code),
            decreases bs@.len() - i,
        {
            assert(hb[i as int].0 == bs@[i as int].0);
            if !bs[i].0.is_printable() {
                return false;
            }
            i = i + 1;
        }
        true
    }

    /// The text of what the popup shows (see `popup_text`), or nothing when it shows
    /// nothing.
    pub fn text(&self, config: &Config) -> (r: Option<PopupText>)
        requires
            self.spec_preset() == Preset::Help ==> help_printable(*config),
        ensures
            r is None <==> self.spec_preset() == Preset::Nothing,
            r matches Some(t) ==> popup_text(self.spec_preset(), *config, t),
    {
        match self.preset {
            Preset::Nothing => None,
            Preset::RunningCommand => {
                let mut lines: Vec<(String, String)> = Vec::new();
                lines.push((String::new(), owned("Command in-progress. Press CTRL-C to quit")));
                proof {
                    assert(line_views(lines@) =~= seq![
                        (Seq::<char>::empty(), "Command in-progress. Press CTRL-C to quit"@),
                    ]);
                }
                Some(PopupText { title: owned("Command"), height: 3, lines })
            },
            Preset::Help => Some(PopupText { title: owned("Help"), height: 35, lines: help_text_lines(config) }),
        }
    }

    /// How far text of `len` lines is scrolled in a window `height` lines high: not at all
    /// when it fits, else as far as the popup was scrolled but no further than shows the
    /// last line at the bottom. The popup keeps that.
    pub fn visible_scroll(&mut self, len: u16, height: u16) -> (r: u16)
        ensures
            r == (if len < height {
                0
            } else if old(self).spec_scroll() < len - height {
                old(self).spec_scroll()
            } else {
                len - height
            }),
            final(self).spec_scroll() == r,
            final(self).spec_preset() == old(self).spec_preset(),
    {
        let r = if len < height {
            0
        } else if self.scroll_y < len - height {
            self.scroll_y
        } else {
            len - height
        };
        self.scroll_y = r;
        r
    }
}

/// In an open popup the first binding that the key is decides: down scrolls one line
/// further down, up one line back up (staying at the top), all-up goes to the top,
/// all-down to the bottom, and quit or escape closes the popup where it was scrolled.
/// What the popup shows stays, but for the closing.
pub proof fn lemma_popup_bindings(c: Config, before: Popup, after: Popup, ev: KeyEvent)
    requires
        popup_key_effect(c, before, after, ev),
        before.spec_preset() != Preset::Nothing,
    ensures
        is_key(c.down, ev) ==> after.spec_scroll() == before.spec_scroll() + 1,
        !is_key(c.down, ev) && is_key(c.up, ev) ==> after.spec_scroll() <= before.spec_scroll() && (
        before.spec_scroll() > 0 ==> after.spec_scroll() == before.spec_scroll() - 1),
        !is_key(c.down, ev) && !is_key(c.up, ev) && is_key(c.all_up, ev) ==> after.spec_scroll() == 0,
        !is_key(c.down, ev) && !is_key(c.up, ev) && !is_key(c.all_up, ev) && is_key(c.all_down, ev)
            ==> after.spec_scroll() == u16::MAX,
        !is_key(c.down, ev) && !is_key(c.up, ev) && !is_key(c.all_up, ev) && !is_key(c.all_down, ev) ==> if is_key(
            c.quit,
            ev,
        ) || is_key(code_key(KeyCode::Esc), ev) {
            after.spec_preset() == Preset::Nothing && after.spec_scroll() == before.spec_scroll()
        } else {
            after == before
        },
        is_key(c.down, ev) || is_key(c.up, ev) || is_key(c.all_up, ev) || is_key(c.all_down, ev)
            ==> after.spec_preset() == before.spec_preset(),
{
}

} // verus!
