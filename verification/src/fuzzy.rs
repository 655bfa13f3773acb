//! The fuzzy finder: a typed pattern, the choices that match it best, and a selection.

use vstd::prelude::*;
use crate::keys::{KeyCode, KeyEvent};
use crate::path::{parse_path, PathBuf};
use crate::queue::{AppEvent, Queue};
use crate::text::str_chars;

verus! {

/// What choosing a match does.
#[derive(Debug, PartialEq, Eq, Clone, Copy, Structural)]
pub enum FuzzyOperation {
    OpenFile,
    /// The finder is closed.
    NoOperation,
}

/// The score and matched character positions that the skim fuzzy matcher (with its
/// default settings) gives `choice` for `pattern`, if it matches.
pub uninterp spec fn skim_indices(choice: Seq<char>, pattern: Seq<char>) -> Option<(i64, Seq<usize>)>;

/// `SkimMatcherV2::fuzzy_indices` of the default skim matcher: the score and the positions
/// of the matched characters when `choice` matches `pattern`. An empty pattern matches with
/// score 0 and no positions.
#[verifier::external_body]
fn fuzzy_indices(choice: &str, pattern: &str) -> (r: Option<(i64, Vec<usize>)>)
    ensures
        r matches Some((score, idx)) ==> skim_indices(choice@, pattern@) == Some((score, idx@)),
        r is None <==> skim_indices(choice@, pattern@) is None,
        pattern@.len() == 0 ==> r is Some,
        r matches Some(m) ==> (pattern@.len() == 0 ==> m.0 == 0 && m.1@.len() == 0),
{
    fuzzy_matcher::FuzzyMatcher::fuzzy_indices(&fuzzy_matcher::skim::SkimMatcherV2::default(), choice, pattern)
}

/// The matches of `choices` in their order: each matching choice's position, score and
/// matched positions.
pub open spec fn matches_in_order(choices: Seq<Seq<char>>, pattern: Seq<char>) -> Seq<(int, i64, Seq<usize>)>
    decreases choices.len(),
{
    if choices.len() == 0 {
        seq![]
    } else {
        let prev = matches_in_order(choices.drop_last(), pattern);
        match skim_indices(choices.last(), pattern) {
            Some((s, v)) => prev.push(((choices.len() - 1) as int, s, v)),
            None => prev,
        }
    }
}

/// `a` comes before `b`: a higher score, or the same score and a later choice.
pub open spec fn ranks_before(a: (int, i64, Seq<usize>), b: (int, i64, Seq<usize>)) -> bool {
    a.1 > b.1 || (a.1 == b.1 && a.0 > b.0)
}

/// The best matches: the matches of the choices, best score first, and among equal
/// scores the later choice first.
pub open spec fn is_best_matches(r: Seq<(int, i64, Seq<usize>)>, choices: Seq<Seq<char>>, pattern: Seq<char>) -> bool {
    &&& r.to_multiset() == matches_in_order(choices, pattern).to_multiset()
    &&& forall|i: int, j: int| 0 <= i < j < r.len() ==> ranks_before(#[trigger] r[i], #[trigger] r[j])
}

/// The fuzzy finder: the choices, the pattern typed, what choosing does, the selection
/// and the events it sends.
pub struct FuzzyMatcher {
    input: Vec<String>,
    pattern: String,
    operation: FuzzyOperation,
    selected: Option<usize>,
    queue: Queue,
}

/// How the text box with the pattern must follow a key press.
#[derive(Debug, PartialEq, Eq, Clone, Copy)]
pub enum AreaEdit {
    /// The text box stays as it is.
    Nothing,
    /// The text box is emptied and the key is not typed.
    Cleared,
    /// The key is typed into the text box.
    Input,
    /// The text box is emptied, then the key is typed into it.
    ClearedThenInput,
}

fn ranked_matches(input: &Vec<String>, pattern: &String) -> (r: Vec<(usize, i64, Vec<usize>)>)
    ensures
        is_best_matches(r@.map_values(|m: (usize, i64, Vec<usize>)| (m.0 as int, m.1, m.2@)), input.deep_view(), pattern@),
        forall|k: int| 0 <= k < r@.len() ==> (#[trigger] r@[k]).0 < input@.len(),
{
    let ghost choices = input.deep_view();
    let mut out: Vec<(usize, i64, Vec<usize>)> = Vec::new();
    let mut i: usize = 0;
    proof {
        broadcast use vstd::seq_lib::group_to_multiset_ensures;
        assert(choices.take(0) =~= Seq::<Seq<char>>::empty());
    }
    while i < input.len()
        invariant
            i <= input@.len(),
            choices == input.deep_view(),
            out@.map_values(|m: (usize, i64, Vec<usize>)| (m.0 as int, m.1, m.2@)).to_multiset()
                == matches_in_order(choices.take(i as int), pattern@).to_multiset(),
            forall|a: int, b: int| 0 <= a < b < out@.len() ==> ranks_before(
                (#[trigger] out@[a].0 as int, out@[a].1, out@[a].2@),
                (#[trigger] out@[b].0 as int, out@[b].1, out@[b].2@),
            ),
            forall|k: int| 0 <= k < out@.len() ==> (#[trigger] out@[k]).0 < i,
        decreases input@.len() - i,
    {
        let ghost before = out@.map_values(|m: (usize, i64, Vec<usize>)| (m.0 as int, m.1, m.2@));
        proof {
            assert(choices.take(i + 1).drop_last() =~= choices.take(i as int));
            assert(choices.take(i + 1).last() == input@[i as int]@);
        }
        match fuzzy_indices(input[i].as_str(), pattern.as_str()) {
            None => {
                proof {
                    assert(matches_in_order(choices.take(i + 1), pattern@) == matches_in_order(choices.take(i as int), pattern@));
                }
            },
            Some((score, idx)) => {
                let ghost x = (i as int, score, idx@);
                proof {
                    assert(matches_in_order(choices.take(i + 1), pattern@) == matches_in_order(choices.take(i as int), pattern@).push(x));
                }
                // Every earlier match has a smaller position, so the new one goes before
                // all those with the same or a smaller score.
                let mut p: usize = 0;
                while p < out.len() && out[p].1 > score
                    invariant
                        p <= out@.len(),
                        forall|k: int| 0 <= k < p ==> (#[trigger] out@[k]).1 > score,
                    decreases out@.len() - p,
                {
                    p = p + 1;
                }
                let ghost old_out = out@;
                out.insert(p, (i, score, idx));
                proof {
                    let now = out@.map_values(|m: (usize, i64, Vec<usize>)| (m.0 as int, m.1, m.2@));
                    assert(now =~= before.insert(p as int, x));
                    let lo = before.subrange(0, p as int);
                    let hi = before.subrange(p as int, before.len() as int);
                    assert(before.insert(p as int, x) =~= lo.push(x) + hi);
                    assert(before =~= lo + hi);
                    assert(now.to_multiset() =~= before.to_multiset().insert(x)) by {
                        broadcast use vstd::seq_lib::group_to_multiset_ensures;
                        vstd::seq_lib::lemma_multiset_commutative(lo.push(x), hi);
                        vstd::seq_lib::lemma_multiset_commutative(lo, hi);
                    }
                    assert(matches_in_order(choices.take(i as int), pattern@).push(x).to_multiset()
                        =~= matches_in_order(choices.take(i as int), pattern@).to_multiset().insert(x)) by {
                        broadcast use vstd::seq_lib::group_to_multiset_ensures;
                    }
                    assert forall|a: int, b: int| 0 <= a < b < out@.len() implies ranks_before(
                        (#[trigger] out@[a].0 as int, out@[a].1, out@[a].2@),
                        (#[trigger] out@[b].0 as int, out@[b].1, out@[b].2@),
                    ) by {
                        if b < p {
                            assert(out@[a] == old_out[a] && out@[b] == old_out[b]);
                        } else if b == p {
                            assert(out@[a] == old_out[a]);
                        } else if a == p {
                            assert(out@[b] == old_out[b - 1]);
                            assert(!(old_out[b - 1].1 > score));
                        } else if a < p {
                            assert(out@[a] == old_out[a] && out@[b] == old_out[b - 1]);
                        } else {
                            assert(out@[a] == old_out[a - 1] && out@[b] == old_out[b - 1]);
                        }
                    }
                    assert forall|k: int| 0 <= k < out@.len() implies (#[trigger] out@[k]).0 < i + 1 by {
                        if k < p {
                            assert(out@[k] == old_out[k]);
                        } else if k > p {
                            assert(out@[k] == old_out[k - 1]);
                        }
                    }
                }
            },
        }
        i = i + 1;
    }
    proof {
        assert(choices.take(i as int) =~= choices);
    }
    out
}

impl FuzzyMatcher {
    pub closed spec fn spec_input(&self) -> Seq<Seq<char>> {
        self.input.deep_view()
    }

    pub closed spec fn spec_pattern(&self) -> Seq<char> {
        self.pattern@
    }

    pub closed spec fn spec_operation(&self) -> FuzzyOperation {
        self.operation
    }

    pub closed spec fn spec_selected(&self) -> Option<usize> {
        self.selected
    }

    pub closed spec fn spec_queue(&self) -> Queue {
        self.queue
    }

    /// A closed finder with no choices, sending its events to `queue`.
    pub fn new(queue: Queue) -> (r: FuzzyMatcher)
        ensures
            r.spec_input().len() == 0,
            r.spec_pattern().len() == 0,
            r.spec_operation() == FuzzyOperation::NoOperation,
            r.spec_selected() is None,
            r.spec_queue() == queue,
    {
        FuzzyMatcher {
            input: Vec::new(),
            pattern: String::new(),
            operation: FuzzyOperation::NoOperation,
            selected: None,
            queue,
        }
    }

    /// Opens the finder on `items` for `operation`, selecting the first match.
    pub fn start(&mut self, items: Vec<String>, operation: FuzzyOperation)
        ensures
            final(self).spec_input() == items.deep_view(),
            final(self).spec_operation() == operation,
            final(self).spec_selected() == Some(0usize),
            final(self).spec_pattern() == old(self).spec_pattern(),
            final(self).spec_queue() == old(self).spec_queue(),
    {
        self.operation = operation;
        self.input = items;
        self.selected = Some(0);
    }

    /// Opens the finder on `items` to open the file chosen.
    pub fn open_path(&mut self, items: Vec<String>)
        ensures
            final(self).spec_input() == items.deep_view(),
            final(self).spec_operation() == FuzzyOperation::OpenFile,
            final(self).spec_selected() == Some(0usize),
            final(self).spec_pattern() == old(self).spec_pattern(),
            final(self).spec_queue() == old(self).spec_queue(),
    {
        self.start(items, FuzzyOperation::OpenFile);
    }

    /// Sets the pattern typed.
    pub fn set_pattern(&mut self, pattern: &str)
        ensures
            final(self).spec_pattern() == pattern@,
            final(self).spec_input() == old(self).spec_input(),
            final(self).spec_operation() == old(self).spec_operation(),
            final(self).spec_selected() == old(self).spec_selected(),
            final(self).spec_queue() == old(self).spec_queue(),
    {
        self.pattern = crate::text::string_from_chars(str_chars(pattern).as_slice());
    }

    /// The choices that match the pattern, best first (see `is_best_matches`), each with
    /// the positions of its matched characters.
    pub fn compute_best_matches(&self) -> (r: Vec<(String, Vec<usize>)>)
        ensures
            exists|ranked: Seq<(int, i64, Seq<usize>)>|
                is_best_matches(ranked, self.spec_input(), self.spec_pattern()) && r@.len() == ranked.len()
                    && forall|k: int|
                    0 <= k < ranked.len() ==> 0 <= (#[trigger] ranked[k]).0 < self.spec_input().len() && r@[k].0@
                        == self.spec_input()[ranked[k].0] && r@[k].1@ == ranked[k].2,
    {
        let ranked = ranked_matches(&self.input, &self.pattern);
        let ghost rv = ranked@.map_values(|m: (usize, i64, Vec<usize>)| (m.0 as int, m.1, m.2@));
        let mut r: Vec<(String, Vec<usize>)> = Vec::new();
        let mut k: usize = 0;
        while k < ranked.len()
            invariant
                k <= ranked@.len(),
                rv == ranked@.map_values(|m: (usize, i64, Vec<usize>)| (m.0 as int, m.1, m.2@)),
                forall|j: int| 0 <= j < ranked@.len() ==> (#[trigger] ranked@[j]).0 < self.input@.len(),
                r@.len() == k,
                forall|j: int|
                    0 <= j < k ==> (#[trigger] r@[j]).0@ == self.input.deep_view()[rv[j].0] && r@[j].1@ == rv[j].2,
            decreases ranked@.len() - k,
        {
            let t = self.input[ranked[k].0].clone();
            let idx = ranked[k].2.clone();
            r.push((t, idx));
            proof {
                assert(self.input.deep_view()[ranked@[k as int].0 as int] == self.input@[ranked@[k as int].0 as int]@);
            }
            k = k + 1;
        }
        proof {
            assert(is_best_matches(rv, self.spec_input(), self.spec_pattern()));
            assert forall|j: int| 0 <= j < rv.len() implies 0 <= (#[trigger] rv[j]).0 < self.spec_input().len() && r@[j].0@
                == self.spec_input()[rv[j].0] && r@[j].1@ == rv[j].2 by {
                assert(ranked@[j].0 < self.input@.len());
            }
        }
        r
    }

    /// Closes the finder: no choices, no pattern, no selection.
    pub fn reset(&mut self)
        ensures
            final(self).spec_input().len() == 0,
            final(self).spec_pattern().len() == 0,
            final(self).spec_operation() == FuzzyOperation::NoOperation,
            final(self).spec_selected() is None,
            final(self).spec_queue() == old(self).spec_queue(),
    {
        self.pattern = String::new();
        self.operation = FuzzyOperation::NoOperation;
        self.input = Vec::new();
        self.selected = None;
        proof {
            assert(self.input.deep_view() =~= Seq::<Seq<char>>::empty());
        }
    }

    /// Chooses the selected match: for opening, the event to go to its file is sent and the
    /// finder closes. Nothing happens without a selection or a match at it, and the finder
    /// must have an operation when there is one. Returns whether it chose.
    pub fn submit(&mut self) -> (r: bool)
        requires
            old(self).spec_selected() matches Some(s) && s < matches_in_order(old(self).spec_input(), old(self).spec_pattern()).len()
                ==> old(self).spec_operation() == FuzzyOperation::OpenFile,
        ensures
            !r ==> *final(self) == *old(self),
            r ==> final(self).spec_operation() == FuzzyOperation::NoOperation && final(self).spec_input().len() == 0
                && final(self).spec_selected() is None && final(self).spec_pattern().len() == 0
                && final(self).spec_queue().events().len() == old(self).spec_queue().events().len() + 1
                && final(self).spec_queue().events().drop_last() == old(self).spec_queue().events()
                && (final(self).spec_queue().events().last() matches AppEvent::GotoFile(p) && exists|ranked: Seq<(int, i64, Seq<usize>)>|
                is_best_matches(ranked, old(self).spec_input(), old(self).spec_pattern()) && (old(self).spec_selected()
                    matches Some(sel) && sel < ranked.len() && 0 <= ranked[sel as int].0 < old(self).spec_input().len()
                    && p@ == parse_path(old(self).spec_input()[ranked[sel as int].0]))),
            r <==> (old(self).spec_selected() matches Some(s) && s < matches_in_order(
                old(self).spec_input(),
                old(self).spec_pattern(),
            ).len()),
    {
        let sel = match self.selected {
            Some(s) => s,
            None => return false,
        };
        let matches = self.compute_best_matches();
        proof {
            let ranked = choose|ranked: Seq<(int, i64, Seq<usize>)>|
                is_best_matches(ranked, self.spec_input(), self.spec_pattern()) && matches@.len() == ranked.len()
                    && forall|k: int|
                    0 <= k < ranked.len() ==> 0 <= (#[trigger] ranked[k]).0 < self.spec_input().len() && matches@[k].0@
                        == self.spec_input()[ranked[k].0] && matches@[k].1@ == ranked[k].2;
            ranked.to_multiset_ensures();
            matches_in_order(self.spec_input(), self.spec_pattern()).to_multiset_ensures();
            assert(matches@.len() == matches_in_order(self.spec_input(), self.spec_pattern()).len());
        }
        if sel >= matches.len() {
            return false;
        }
        if self.operation == FuzzyOperation::NoOperation {
            return false;
        }
        let path = PathBuf::from_str(matches[sel].0.as_str());
        let ghost q0 = self.queue.events();
        self.queue.add(AppEvent::GotoFile(path));
        self.reset();
        proof {
            assert(self.queue.events().drop_last() =~= q0);
        }
        true
    }

    /// Selects the next match, staying on the last choice; starts from the first when
    /// nothing is selected. There must be a choice.
    pub fn select_next(&mut self)
        requires
            old(self).spec_input().len() > 0,
        ensures
            final(self).spec_selected() == Some(({
                let old_sel: int = match old(self).spec_selected() {
                    Some(s) => s as int,
                    None => 0,
                };
                if old_sel + 1 < old(self).spec_input().len() - 1 {
                    old_sel + 1
                } else {
                    old(self).spec_input().len() - 1
                }
            }) as usize),
            final(self).spec_input() == old(self).spec_input(),
            final(self).spec_pattern() == old(self).spec_pattern(),
            final(self).spec_operation() == old(self).spec_operation(),
            final(self).spec_queue() == old(self).spec_queue(),
    {
        let old_sel = match self.selected {
            Some(s) => s,
            None => 0,
        };
        let last = self.input.len() - 1;
        let next = if old_sel < last {
            old_sel + 1
        } else {
            last
        };
        self.selected = Some(next);
    }

    /// Selects the previous match, staying on the first; selects the first when nothing is.
    pub fn select_prev(&mut self)
        ensures
            final(self).spec_selected() == Some(match old(self).spec_selected() {
                Some(s) => if s == 0 {
                    0usize
                } else {
                    (s - 1) as usize
                },
                None => 0usize,
            }),
            final(self).spec_input() == old(self).spec_input(),
            final(self).spec_pattern() == old(self).spec_pattern(),
            final(self).spec_operation() == old(self).spec_operation(),
            final(self).spec_queue() == old(self).spec_queue(),
    {
        let old_sel = match self.selected {
            Some(s) => s,
            None => 0,
        };
        self.selected = Some(if old_sel == 0 {
            0
        } else {
            old_sel - 1
        });
    }

    /// The selection, if any.
    pub fn selected(&self) -> (r: Option<usize>)
        ensures
            r == self.spec_selected(),
    {
        self.selected
    }

    /// Whether the finder is open.
    pub fn visible(&self) -> (r: bool)
        ensures
            r == (self.spec_operation() != FuzzyOperation::NoOperation),
    {
        match self.operation {
            FuzzyOperation::NoOperation => false,
            _ => true,
        }
    }

    /// Takes out the first event the finder has sent, if any.
    pub fn pop_event(&mut self) -> (r: Option<AppEvent>)
        ensures
            old(self).spec_queue().events().len() == 0 ==> r is None,
            old(self).spec_queue().events().len() > 0 ==> r == Some(old(self).spec_queue().events()[0]),
    {
        self.queue.pop()
    }

    /// Handles a key press while open and tells how the text box with the pattern must
    /// follow: escape (alone) closes the finder; enter (alone) chooses the selected match;
    /// `ctrl-n` selects the previous match and `ctrl-p` the next; `ctrl-u` empties the
    /// pattern. Every key but escape and enter is then typed into the text box. Moving to
    /// the next match needs a choice.
    pub fn handle_key(&mut self, key: &KeyEvent) -> (r: AreaEdit)
        requires
            old(self).spec_operation() != FuzzyOperation::NoOperation && key.code == KeyCode::Char('p')
                && key.modifiers.control && !key.modifiers.alt ==> old(self).spec_input().len() > 0,
        ensures
            old(self).spec_operation() == FuzzyOperation::NoOperation ==> r == AreaEdit::Nothing && *final(self)
                == *old(self),
            old(self).spec_operation() != FuzzyOperation::NoOperation && key.code == KeyCode::Esc && !key.modifiers.control
                && !key.modifiers.alt ==> r == AreaEdit::Cleared && final(self).spec_operation()
                == FuzzyOperation::NoOperation && final(self).spec_queue() == old(self).spec_queue(),
            old(self).spec_operation() != FuzzyOperation::NoOperation && key.code == KeyCode::Char('u') && key.modifiers.control
                && !key.modifiers.alt ==> r == AreaEdit::ClearedThenInput && final(self).spec_pattern().len() == 0
                && final(self).spec_selected() == old(self).spec_selected(),
            old(self).spec_operation() != FuzzyOperation::NoOperation && key.code == KeyCode::Char('n') && key.modifiers.control
                && !key.modifiers.alt ==> r == AreaEdit::Input && final(self).spec_selected() == Some(
                match old(self).spec_selected() {
                    Some(s) => if s == 0 {
                        0usize
                    } else {
                        (s - 1) as usize
                    },
                    None => 0usize,
                },
            ) && final(self).spec_input() == old(self).spec_input() && final(self).spec_pattern() == old(self).spec_pattern(),
            old(self).spec_operation() != FuzzyOperation::NoOperation && key.code == KeyCode::Char('p') && key.modifiers.control
                && !key.modifiers.alt ==> r == AreaEdit::Input && final(self).spec_input() == old(self).spec_input()
                && final(self).spec_pattern() == old(self).spec_pattern() && final(self).spec_selected() == Some(({
                let old_sel: int = match old(self).spec_selected() {
                    Some(s) => s as int,
                    None => 0,
                };
                if old_sel + 1 < old(self).spec_input().len() - 1 {
                    old_sel + 1
                } else {
                    old(self).spec_input().len() - 1
                }
            }) as usize),
            old(self).spec_operation() != FuzzyOperation::NoOperation && key.code == KeyCode::Enter && !key.modifiers.control
                && !key.modifiers.alt ==> (r == AreaEdit::Cleared <==> (old(self).spec_selected() matches Some(s) && s
                < matches_in_order(old(self).spec_input(), old(self).spec_pattern()).len())) && (r == AreaEdit::Cleared
                ==> final(self).spec_operation() == FuzzyOperation::NoOperation) && (r != AreaEdit::Cleared ==> r
                == AreaEdit::Nothing && *final(self) == *old(self)),
    {
        if !self.visible() {
            return AreaEdit::Nothing;
        }
        let plain = !key.modifiers.control && !key.modifiers.alt;
        let ctrl_only = key.modifiers.control && !key.modifiers.alt;
        match key.code {
            KeyCode::Esc if plain => {
                self.reset();
                AreaEdit::Cleared
            },
            KeyCode::Enter if plain => {
                if self.submit() {
                    AreaEdit::Cleared
                } else {
                    AreaEdit::Nothing
                }
            },
            KeyCode::Char('n') if ctrl_only => {
                self.select_prev();
                AreaEdit::Input
            },
            KeyCode::Char('p') if ctrl_only => {
                self.select_next();
                AreaEdit::Input
            },
            KeyCode::Char('u') if ctrl_only => {
                self.pattern = String::new();
                AreaEdit::ClearedThenInput
            },
            _ => AreaEdit::Input,
        }
    }
}

} // verus!
