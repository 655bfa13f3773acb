//! The tree view: the listing of the project's files, the key bindings that move through
//! it and fold it, and the events that it sends. Walking the disk and asking git stay
//! with the caller: the tree says when they are wanted, and takes what they found.

use vstd::prelude::*;
use crate::config::{Config, Key};
use crate::style::Style;
use crate::input_box::InputOperation;
use crate::items::{
    Item, ItemView, ItemsIndex, ItemsIndexView, path_views, valid_inputs, item_views, dir_arrangement,
    listing_of, root_of,
};
use crate::keys::KeyEvent;
use crate::listing::{
    FileListing, ListingError, listing_fits, to_absolute, first_effect, last_effect, next_effect,
    prev_effect, up_ok, refolded, same_tree, toggled, all_folded, all_unfolded, fold_under_effect,
    unfold_under_effect, lemma_rank_bounds, lemma_rank_of_path, lemma_removed_len, added, removed, selected_by,
};
use crate::path::{PathBuf, PathView, path_parent, path_text, path_starts_with, path_exists, path_is_dir};
use crate::pending::PendingOperation;
use crate::popup::is_key;
use crate::queue::{AppEvent, Queue};
use crate::refresh::{RefreshData, RefreshView, refresh_views};
use crate::text::{contains_seq, replace_all, replace_str, str_contains};

verus! {

/// Work that a key press asks of the caller, outside the tree.
#[derive(Debug, PartialEq, Eq)]
pub enum TreeAction {
    /// Nothing.
    Nothing,
    /// Walk the project again and rebuild the tree (`refresh`).
    Refresh,
    /// Keep only the files that git reports changed (`filter_include`).
    FilterGitModified,
    /// Walk the project again with hidden files shown or not (`toggle_dotfiles`).
    ToggleDotfiles,
    /// Search among these paths, every entry of the listing.
    Search(Vec<PathBuf>),
}

/// The arm of the key bindings that a key press takes, in the order they are tried; the
/// moves but the jumps to either end want a listing that shows something.
pub open spec fn tree_arm(c: Config, ev: KeyEvent, not_empty: bool) -> int {
    let t = c.filetree;
    if is_key(c.all_up, ev) {
        0
    } else if is_key(c.all_down, ev) {
        1
    } else if is_key(c.down, ev) && not_empty {
        2
    } else if is_key(c.up, ev) && not_empty {
        3
    } else if is_key(t.down_three, ev) && not_empty {
        4
    } else if is_key(t.up_three, ev) && not_empty {
        5
    } else if is_key(t.exec_cmd, ev) && not_empty {
        6
    } else if is_key(t.delete, ev) {
        7
    } else if is_key(t.diff_mode, ev) {
        8
    } else if is_key(t.git_filter, ev) {
        9
    } else if is_key(t.search, ev) {
        10
    } else if is_key(t.clear, ev) {
        11
    } else if is_key(c.open, ev) {
        12
    } else if is_key(t.new_file, ev) {
        13
    } else if is_key(t.new_dir, ev) {
        14
    } else if is_key(t.close_all, ev) {
        15
    } else if is_key(t.open_all, ev) {
        16
    } else if is_key(t.special_command, ev) {
        17
    } else if is_key(t.mark_selected, ev) {
        18
    } else if is_key(t.open_under, ev) {
        19
    } else if is_key(t.close_under, ev) {
        20
    } else if is_key(t.show_dotfiles, ev) {
        21
    } else {
        22
    }
}

/// The path of the selected entry, when the selection designates one.
pub open spec fn sel_path(l: FileListing) -> Option<PathView> {
    if l.spec_selected() < l.spec_items().len() {
        Some(l.spec_items()[l.spec_selected() as int].path())
    } else {
        None
    }
}

/// `q` ends at `at` with the preview of the selected entry of `l`, when there is one.
pub open spec fn ends_with_preview(q: Seq<AppEvent>, at: int, l: FileListing) -> bool {
    match sel_path(l) {
        Some(p) => q.len() == at + 1 && (q[at] matches AppEvent::PreviewFile(x) && x@ == p),
        None => q.len() == at,
    }
}

/// Where a new file or directory goes from the selection: into the selected directory
/// when it is unfolded, next to the selected entry otherwise.
pub open spec fn new_entry_at(l: FileListing, rank: nat) -> PathView {
    let item = l.spec_items()[l.spec_selected() as int];
    let folded = match to_absolute(l.spec_items(), l.spec_folded(), ItemsIndexView::Number(rank)) {
        Some(i) => l.spec_folded()[i],
        None => false,
    };
    if item is Dir && !folded {
        item.path()
    } else {
        path_parent(item.path()).unwrap()
    }
}

/// The command bound to `k`: the first binding for it.
pub open spec fn bound_command(cs: Seq<(Key, String)>, k: Key) -> Option<Seq<char>>
    decreases cs.len(),
{
    if cs.len() == 0 {
        None
    } else if cs[0].0 == k {
        Some(cs[0].1@)
    } else {
        bound_command(cs.drop_first(), k)
    }
}

/// `q1` is `q0` with one event that `e` accepts, then the preview of `l`.
pub open spec fn sent_then_preview(q0: Seq<AppEvent>, q1: Seq<AppEvent>, e: spec_fn(AppEvent) -> bool, l: FileListing) -> bool {
    &&& q1.len() > q0.len()
    &&& q1.take(q0.len() as int) == q0
    &&& e(q1[q0.len() as int])
    &&& ends_with_preview(q1, q0.len() + 1int, l)
}

/// `q1` is `q0` then the preview of `l`.
pub open spec fn just_preview(q0: Seq<AppEvent>, q1: Seq<AppEvent>, l: FileListing) -> bool {
    &&& q1.len() >= q0.len()
    &&& q1.take(q0.len() as int) == q0
    &&& ends_with_preview(q1, q0.len() as int, l)
}

/// `q1` is `q0` with, when the selection designates an entry, one event that `e` accepts
/// for its path; then the preview of `l`.
pub open spec fn sent_for_selected(
    q0: Seq<AppEvent>,
    q1: Seq<AppEvent>,
    o: FileListing,
    e: spec_fn(AppEvent, PathView) -> bool,
    l: FileListing,
) -> bool {
    match sel_path(o) {
        Some(p) => sent_then_preview(q0, q1, |x: AppEvent| e(x, p), l),
        None => just_preview(q0, q1, l),
    }
}

/// What a key press that the tree takes on does to its listing and events (see
/// `tree_arm`), and the work it returns; a key press with no binding runs the command
/// bound to it, with `{}` standing for the selected path, or opens the text box for it
/// when `{...}` remains in it.
#[verifier::opaque]
pub open spec fn tree_key_effect(
    c: Config,
    o: FileListing,
    n: FileListing,
    q0: Seq<AppEvent>,
    q1: Seq<AppEvent>,
    ev: KeyEvent,
    a: TreeAction,
) -> bool {
    let arm = tree_arm(c, ev, o.spec_shown().len() > 0);
    if arm == 9 || arm == 11 || arm == 21 {
        &&& n == o
        &&& q1 == q0
        &&& a == (if arm == 9 {
            TreeAction::FilterGitModified
        } else if arm == 11 {
            TreeAction::Refresh
        } else {
            TreeAction::ToggleDotfiles
        })
    } else if arm == 22 {
        &&& n == o
        &&& a == TreeAction::Nothing
        &&& match (bound_command(c.commands@, Key { code: ev.code, mods: ev.modifiers }), sel_path(o)) {
            (Some(cmd), Some(p)) => {
                let full = replace_all(cmd, seq!['{', '}'], path_text(p));
                if contains_seq(full, seq!['{', '.', '.', '.', '}']) {
                    q1.len() == q0.len() + 1 && q1.take(q0.len() as int) == q0 && (q1.last() matches AppEvent::OpenInput(
                        InputOperation::SpecialCommand(s),
                    ) && s@ == full)
                } else {
                    q1.len() == q0.len() + 1 && q1.take(q0.len() as int) == q0 && (q1.last() matches AppEvent::RunCommand(
                        s,
                    ) && s@ == full)
                }
            },
            _ => q1 == q0,
        }
    } else {
        &&& (if arm == 10 {
            a matches TreeAction::Search(ps) && path_views(ps@) == o.spec_items().map_values(|it: ItemView| it.path())
        } else {
            a == TreeAction::Nothing
        })
        &&& if arm == 0 {
            first_effect(o, n) && just_preview(q0, q1, n)
        } else if arm == 1 {
            last_effect(o, n) && just_preview(q0, q1, n)
        } else if arm == 2 {
            next_effect(o, n, 1) && just_preview(q0, q1, n)
        } else if arm == 3 {
            prev_effect(o, n, 1) && just_preview(q0, q1, n)
        } else if arm == 4 {
            next_effect(o, n, 3) && just_preview(q0, q1, n)
        } else if arm == 5 {
            prev_effect(o, n, 3) && just_preview(q0, q1, n)
        } else if arm == 6 {
            n == o && sent_for_selected(
                q0,
                q1,
                o,
                |x: AppEvent, p: PathView| x matches AppEvent::OpenInput(InputOperation::Command { to }) && to@ == p,
                n,
            )
        } else if arm == 7 {
            n == o && sent_for_selected(
                q0,
                q1,
                o,
                |x: AppEvent, p: PathView| x matches AppEvent::OpenPopup(PendingOperation::DeleteFile(f)) && f@ == p,
                n,
            )
        } else if arm == 8 {
            n == o && sent_then_preview(q0, q1, |x: AppEvent| x == AppEvent::TogglePreviewMode, n)
        } else if arm == 10 {
            n == o && just_preview(q0, q1, n)
        } else if arm == 12 {
            match sel_path(o) {
                Some(p) => if o.spec_items()[o.spec_selected() as int] is Dir {
                    refolded(o, n, toggled(o)) && just_preview(q0, q1, n)
                } else {
                    n == o && sent_then_preview(q0, q1, |x: AppEvent| x matches AppEvent::OpenFile(f) && f@ == p, n)
                },
                None => n == o && just_preview(q0, q1, n),
            }
        } else if arm == 13 || arm == 14 {
            n == o && match o.spec_rank() {
                Some(rank) => sent_then_preview(
                    q0,
                    q1,
                    |x: AppEvent|
                        if arm == 13 {
                            x matches AppEvent::OpenInput(InputOperation::NewFile { at }) && at@ == new_entry_at(o, rank)
                        } else {
                            x matches AppEvent::OpenInput(InputOperation::NewDir { at }) && at@ == new_entry_at(o, rank)
                        },
                    n,
                ),
                None => just_preview(q0, q1, n),
            }
        } else if arm == 15 {
            refolded(o, n, all_folded(o)) && just_preview(q0, q1, n)
        } else if arm == 16 {
            refolded(o, n, all_unfolded(o)) && just_preview(q0, q1, n)
        } else if arm == 17 {
            n == o && sent_for_selected(
                q0,
                q1,
                o,
                |x: AppEvent, p: PathView| x matches AppEvent::SpecialCommand(f) && f@ == p,
                n,
            )
        } else if arm == 18 {
            n == o && sent_for_selected(
                q0,
                q1,
                o,
                |x: AppEvent, p: PathView| x matches AppEvent::Mark(f) && f@ == p,
                n,
            )
        } else if arm == 19 {
            just_preview(q0, q1, n) && match o.spec_rank() {
                Some(rank) => exists|r: Result<(), ListingError>| unfold_under_effect(o, n, ItemsIndexView::Number(rank), r),
                None => n == o,
            }
        } else {
            just_preview(q0, q1, n) && match o.spec_rank() {
                Some(rank) => exists|r: Result<(), ListingError>| fold_under_effect(o, n, ItemsIndexView::Number(rank), r),
                None => n == o,
            }
        }
    }
}

/// The moves through a listing that shows something, each when no binding tried before
/// it is the key: all-up selects the first entry, all-down the last shown one; down and
/// up move the selection one shown entry, down-three and up-three three, stopping at
/// either end. The entries and their folds stay, and the tree asks nothing of the caller.
pub proof fn lemma_tree_moves(
    c: Config,
    o: FileListing,
    n: FileListing,
    q0: Seq<AppEvent>,
    q1: Seq<AppEvent>,
    ev: KeyEvent,
    a: TreeAction,
)
    requires
        o.wf(),
        o.spec_shown().len() > 0,
        tree_key_effect(c, o, n, q0, q1, ev, a),
    ensures
        is_key(c.all_up, ev) ==> a == TreeAction::Nothing && same_tree(o, n) && n.spec_selected() == 0
            && n.spec_rank() == Some(0nat),
        !is_key(c.all_up, ev) && is_key(c.all_down, ev) ==> a == TreeAction::Nothing && same_tree(o, n)
            && n.spec_rank() == Some((o.spec_shown().len() - 1) as nat) && n.spec_selected() == o.spec_shown().len() - 1,
        (!is_key(c.all_up, ev) && !is_key(c.all_down, ev)) && (is_key(c.down, ev) || is_key(c.up, ev) || is_key(c.filetree.down_three, ev)
            || is_key(c.filetree.up_three, ev)) ==> a == TreeAction::Nothing,
        !is_key(c.all_up, ev) && !is_key(c.all_down, ev) && is_key(c.down, ev) ==> same_tree(o, n) && if o.rank_or_first() + 1 < o.spec_shown().len() {
            n.spec_rank() == Some(o.rank_or_first() + 1) && n.spec_selected() == o.spec_shown()[o.rank_or_first() + 1int]
        } else {
            n.spec_rank() == Some((o.spec_shown().len() - 1) as nat) && n.spec_selected() == o.spec_shown().last()
        },
        !is_key(c.all_up, ev) && !is_key(c.all_down, ev) && !is_key(c.down, ev) && is_key(c.up, ev) ==> same_tree(o, n) && if o.rank_or_first() >= 1 {
            n.spec_rank() == Some((o.rank_or_first() - 1) as nat) && (o.rank_or_first() - 1 < o.spec_shown().len()
                ==> n.spec_selected() == o.spec_shown()[o.rank_or_first() - 1])
        } else {
            n.spec_rank() == Some(0nat) && n.spec_selected() == 0
        },
        !is_key(c.all_up, ev) && !is_key(c.all_down, ev) && !is_key(c.down, ev) && !is_key(c.up, ev)
            && is_key(c.filetree.down_three, ev) ==> same_tree(o, n) && if o.rank_or_first() + 3 < o.spec_shown().len() {
            n.spec_rank() == Some(o.rank_or_first() + 3) && n.spec_selected() == o.spec_shown()[o.rank_or_first() + 3int]
        } else {
            n.spec_rank() == Some((o.spec_shown().len() - 1) as nat) && n.spec_selected() == o.spec_shown().last()
        },
        !is_key(c.all_up, ev) && !is_key(c.all_down, ev) && !is_key(c.down, ev) && !is_key(c.up, ev)
            && !is_key(c.filetree.down_three, ev) && is_key(c.filetree.up_three, ev) ==> same_tree(o, n) && if o.rank_or_first() >= 3 {
            n.spec_rank() == Some((o.rank_or_first() - 3) as nat) && (o.rank_or_first() - 3 < o.spec_shown().len()
                ==> n.spec_selected() == o.spec_shown()[o.rank_or_first() - 3])
        } else {
            n.spec_rank() == Some(0nat) && n.spec_selected() == 0
        },
{
    reveal(tree_key_effect);
    lemma_rank_bounds(o);
}

/// The key is none of the moves and not the command prompt: not the jumps to either
/// end, and, where the listing shows something, neither down, up, down-three, up-three
/// nor the command prompt.
pub open spec fn moves_pass(c: Config, ev: KeyEvent, not_empty: bool) -> bool {
    &&& !is_key(c.all_up, ev)
    &&& !is_key(c.all_down, ev)
    &&& not_empty ==> !is_key(c.down, ev) && !is_key(c.up, ev) && !is_key(c.filetree.down_three, ev)
        && !is_key(c.filetree.up_three, ev) && !is_key(c.filetree.exec_cmd, ev)
}

/// The selection designates an entry and `q1` holds, after `q0`, an event that `e`
/// accepts for its path.
pub open spec fn sends_for_selected(o: FileListing, q0: Seq<AppEvent>, q1: Seq<AppEvent>, e: spec_fn(AppEvent, PathView) -> bool) -> bool {
    sel_path(o) matches Some(p) ==> q1.len() > q0.len() && e(q1[q0.len() as int], p)
}

/// What each of the tree's bindings past the moves does, the first one that the key is
/// deciding: in a listing that shows something the command prompt asks for a command on
/// the selected entry; delete asks to confirm deleting it; diff mode asks for the other
/// preview; git filter, clear and hidden files hand their work to the caller and change
/// nothing; search hands it every entry's path; open flips the fold of a selected
/// directory and opens a selected file; new file and new directory ask for a name where
/// the new entry goes; close all and open all refold (see their own laws); special
/// command and mark send their event for the selected entry; open under and close under
/// unfold and fold the subtree at the selection. A key with no binding changes nothing
/// in the tree.
pub proof fn lemma_tree_bindings(
    c: Config,
    o: FileListing,
    n: FileListing,
    q0: Seq<AppEvent>,
    q1: Seq<AppEvent>,
    ev: KeyEvent,
    a: TreeAction,
)
    requires
        o.wf(),
        tree_key_effect(c, o, n, q0, q1, ev, a),
    ensures
        o.spec_shown().len() > 0 && !is_key(c.all_up, ev) && !is_key(c.all_down, ev) && !is_key(c.down, ev)
            && !is_key(c.up, ev) && !is_key(c.filetree.down_three, ev) && !is_key(c.filetree.up_three, ev)
            && is_key(c.filetree.exec_cmd, ev) ==> {
            &&& n == o
            &&& a == TreeAction::Nothing
            &&& sends_for_selected(o, q0, q1, |x: AppEvent, p: PathView| x matches AppEvent::OpenInput(InputOperation::Command { to }) && to@ == p)
        },
        moves_pass(c, ev, o.spec_shown().len() > 0) ==> if is_key(c.filetree.delete, ev) {
            &&& n == o
            &&& a == TreeAction::Nothing
            &&& sends_for_selected(o, q0, q1, |x: AppEvent, p: PathView| x matches AppEvent::OpenPopup(PendingOperation::DeleteFile(f)) && f@ == p)
        } else if is_key(c.filetree.diff_mode, ev) {
            &&& n == o
            &&& a == TreeAction::Nothing
            &&& q1.len() > q0.len() && q1[q0.len() as int] == AppEvent::TogglePreviewMode
        } else if is_key(c.filetree.git_filter, ev) {
            n == o && q1 == q0 && a == TreeAction::FilterGitModified
        } else if is_key(c.filetree.search, ev) {
            &&& n == o
            &&& a matches TreeAction::Search(ps) && path_views(ps@) == o.spec_items().map_values(|it: ItemView| it.path())
        } else if is_key(c.filetree.clear, ev) {
            n == o && q1 == q0 && a == TreeAction::Refresh
        } else if is_key(c.open, ev) {
            &&& a == TreeAction::Nothing
            &&& sel_path(o) matches Some(p) ==> if o.spec_items()[o.spec_selected() as int] is Dir {
                &&& n.spec_items() == o.spec_items()
                &&& n.spec_selected() == o.spec_selected()
                &&& n.spec_folded() == o.spec_folded().update(
                    o.spec_selected() as int,
                    !o.spec_folded()[o.spec_selected() as int],
                )
            } else {
                &&& n == o
                &&& q1.len() > q0.len()
                &&& q1[q0.len() as int] matches AppEvent::OpenFile(f) && f@ == p
            }
        } else if is_key(c.filetree.new_file, ev) {
            &&& n == o
            &&& a == TreeAction::Nothing
            &&& o.spec_rank() matches Some(rank) ==> q1.len() > q0.len() && (q1[q0.len() as int] matches AppEvent::OpenInput(
                InputOperation::NewFile { at },
            ) && at@ == new_entry_at(o, rank))
        } else if is_key(c.filetree.new_dir, ev) {
            &&& n == o
            &&& a == TreeAction::Nothing
            &&& o.spec_rank() matches Some(rank) ==> q1.len() > q0.len() && (q1[q0.len() as int] matches AppEvent::OpenInput(
                InputOperation::NewDir { at },
            ) && at@ == new_entry_at(o, rank))
        } else if is_key(c.filetree.close_all, ev) || is_key(c.filetree.open_all, ev) {
            a == TreeAction::Nothing && n.spec_items() == o.spec_items() && n.spec_selected() == o.spec_selected()
        } else if is_key(c.filetree.special_command, ev) {
            &&& n == o
            &&& a == TreeAction::Nothing
            &&& sends_for_selected(o, q0, q1, |x: AppEvent, p: PathView| x matches AppEvent::SpecialCommand(f) && f@ == p)
        } else if is_key(c.filetree.mark_selected, ev) {
            &&& n == o
            &&& a == TreeAction::Nothing
            &&& sends_for_selected(o, q0, q1, |x: AppEvent, p: PathView| x matches AppEvent::Mark(f) && f@ == p)
        } else if is_key(c.filetree.open_under, ev) {
            &&& a == TreeAction::Nothing
            &&& o.spec_rank() matches Some(rank) ==> exists|r: Result<(), ListingError>|
                unfold_under_effect(o, n, ItemsIndexView::Number(rank), r)
        } else if is_key(c.filetree.close_under, ev) {
            &&& a == TreeAction::Nothing
            &&& o.spec_rank() matches Some(rank) ==> exists|r: Result<(), ListingError>|
                fold_under_effect(o, n, ItemsIndexView::Number(rank), r)
        } else if is_key(c.filetree.show_dotfiles, ev) {
            n == o && q1 == q0 && a == TreeAction::ToggleDotfiles
        } else {
            n == o && a == TreeAction::Nothing
        },
{
    reveal(tree_key_effect);
    lemma_rank_bounds(o);
}

/// The close-all binding, when no binding tried before it is the key, folds every
/// directory of the listing and leaves the files' flags, the entries and the selection
/// as they were; the tree asks nothing of the caller.
pub proof fn lemma_close_all_folds_every_dir(
    c: Config,
    o: FileListing,
    n: FileListing,
    q0: Seq<AppEvent>,
    q1: Seq<AppEvent>,
    ev: KeyEvent,
    a: TreeAction,
)
    requires
        o.wf(),
        tree_key_effect(c, o, n, q0, q1, ev, a),
        is_key(c.filetree.close_all, ev),
        !is_key(c.all_up, ev),
        !is_key(c.all_down, ev),
        o.spec_shown().len() > 0 ==> !is_key(c.down, ev) && !is_key(c.up, ev) && !is_key(c.filetree.down_three, ev)
            && !is_key(c.filetree.up_three, ev) && !is_key(c.filetree.exec_cmd, ev),
        !is_key(c.filetree.delete, ev),
        !is_key(c.filetree.diff_mode, ev),
        !is_key(c.filetree.git_filter, ev),
        !is_key(c.filetree.search, ev),
        !is_key(c.filetree.clear, ev),
        !is_key(c.open, ev),
        !is_key(c.filetree.new_file, ev),
        !is_key(c.filetree.new_dir, ev),
    ensures
        a == TreeAction::Nothing,
        n.wf(),
        n.spec_items() == o.spec_items(),
        n.spec_selected() == o.spec_selected(),
        n.spec_rank() == o.spec_rank(),
        n.spec_folded().len() == o.spec_items().len(),
        forall|j: int| 0 <= j < o.spec_items().len() && o.spec_items()[j] is Dir ==> #[trigger] n.spec_folded()[j],
        forall|j: int|
            0 <= j < o.spec_items().len() && !(o.spec_items()[j] is Dir) ==> #[trigger] n.spec_folded()[j]
                == o.spec_folded()[j],
{
    reveal(tree_key_effect);
    lemma_rank_bounds(o);
}

/// The open-all binding, when no binding tried before it is the key, unfolds every
/// entry of a listing where something is folded, and folds every directory of one where
/// nothing is; the entries and the selection stay as they were, and the tree asks
/// nothing of the caller.
pub proof fn lemma_open_all_unfolds(
    c: Config,
    o: FileListing,
    n: FileListing,
    q0: Seq<AppEvent>,
    q1: Seq<AppEvent>,
    ev: KeyEvent,
    a: TreeAction,
)
    requires
        o.wf(),
        tree_key_effect(c, o, n, q0, q1, ev, a),
        is_key(c.filetree.open_all, ev),
        !is_key(c.all_up, ev),
        !is_key(c.all_down, ev),
        o.spec_shown().len() > 0 ==> !is_key(c.down, ev) && !is_key(c.up, ev) && !is_key(c.filetree.down_three, ev)
            && !is_key(c.filetree.up_three, ev) && !is_key(c.filetree.exec_cmd, ev),
        !is_key(c.filetree.delete, ev),
        !is_key(c.filetree.diff_mode, ev),
        !is_key(c.filetree.git_filter, ev),
        !is_key(c.filetree.search, ev),
        !is_key(c.filetree.clear, ev),
        !is_key(c.open, ev),
        !is_key(c.filetree.new_file, ev),
        !is_key(c.filetree.new_dir, ev),
        !is_key(c.filetree.close_all, ev),
    ensures
        a == TreeAction::Nothing,
        n.wf(),
        n.spec_items() == o.spec_items(),
        n.spec_selected() == o.spec_selected(),
        n.spec_rank() == o.spec_rank(),
        n.spec_folded().len() == o.spec_items().len(),
        (exists|j: int| 0 <= j < o.spec_items().len() && o.spec_folded()[j]) ==> forall|j: int|
            0 <= j < o.spec_items().len() ==> !#[trigger] n.spec_folded()[j],
        (forall|j: int| 0 <= j < o.spec_items().len() ==> !o.spec_folded()[j]) ==> forall|j: int|
            0 <= j < o.spec_items().len() ==> #[trigger] n.spec_folded()[j] == (o.spec_items()[j] is Dir),
{
    reveal(tree_key_effect);
    lemma_rank_bounds(o);
}

/// The key presses that the tree can take: the jump to the end wants an entry, a move
/// up must land on a shown entry, a new entry wants the selection to designate a shown
/// entry with a parent, and folding under the selection wants an entry at its rank.
pub open spec fn tree_key_safe(c: Config, focused: bool, l: FileListing, ev: KeyEvent) -> bool {
    let arm = tree_arm(c, ev, l.spec_shown().len() > 0);
    focused ==> {
        &&& arm == 1 ==> l.spec_items().len() > 0
        &&& arm == 3 ==> up_ok(l, 1)
        &&& arm == 5 ==> up_ok(l, 3)
        &&& (arm == 13 || arm == 14) ==> match l.spec_rank() {
            Some(rank) => {
                &&& l.spec_items().len() > 0 || rank != 0
                &&& to_absolute(l.spec_items(), l.spec_folded(), ItemsIndexView::Number(rank)) is Some
                &&& l.spec_selected() < l.spec_items().len()
                &&& path_parent(l.spec_items()[l.spec_selected() as int].path()) is Some
            },
            None => true,
        }
        &&& (arm == 19 || arm == 20) ==> match l.spec_rank() {
            Some(rank) => l.spec_items().len() > 0 || rank != 0,
            None => true,
        }
    }
}

/// The arm of the bindings that a key press takes (see `tree_arm`).
fn key_arm(c: &Config, ev: &KeyEvent, not_empty: bool) -> (r: u8)
    ensures
        r as int == tree_arm(*c, *ev, not_empty),
{
    let t = &c.filetree;
    if c.all_up.matches(ev) {
        0
    } else if c.all_down.matches(ev) {
        1
    } else if c.down.matches(ev) && not_empty {
        2
    } else if c.up.matches(ev) && not_empty {
        3
    } else if t.down_three.matches(ev) && not_empty {
        4
    } else if t.up_three.matches(ev) && not_empty {
        5
    } else if t.exec_cmd.matches(ev) && not_empty {
        6
    } else if t.delete.matches(ev) {
        7
    } else if t.diff_mode.matches(ev) {
        8
    } else if t.git_filter.matches(ev) {
        9
    } else if t.search.matches(ev) {
        10
    } else if t.clear.matches(ev) {
        11
    } else if c.open.matches(ev) {
        12
    } else if t.new_file.matches(ev) {
        13
    } else if t.new_dir.matches(ev) {
        14
    } else if t.close_all.matches(ev) {
        15
    } else if t.open_all.matches(ev) {
        16
    } else if t.special_command.matches(ev) {
        17
    } else if t.mark_selected.matches(ev) {
        18
    } else if t.open_under.matches(ev) {
        19
    } else if t.close_under.matches(ev) {
        20
    } else if t.show_dotfiles.matches(ev) {
        21
    } else {
        22
    }
}

/// The first command bound to `k` in `cs`.
fn find_command<'a>(cs: &'a Vec<(Key, String)>, k: &Key) -> (r: Option<&'a String>)
    ensures
        r matches Some(s) ==> bound_command(cs@, *k) == Some(s@),
        r is None <==> bound_command(cs@, *k) is None,
{
    let mut i: usize = 0;
    proof {
        assert(cs@.skip(0) =~= cs@);
    }
    while i < cs.len()
        invariant
            i <= cs@.len(),
            bound_command(cs@, *k) == bound_command(cs@.skip(i as int), *k),
        decreases cs@.len() - i,
    {
        proof {
            assert(cs@.skip(i as int)[0] == cs@[i as int]);
            assert(cs@.skip(i as int).drop_first() =~= cs@.skip(i + 1));
        }
        if cs[i].0 == *k {
            return Some(&cs[i].1);
        }
        i = i + 1;
    }
    proof {
        assert(cs@.skip(i as int).len() == 0);
    }
    None
}

/// A listing of `paths` as `FileListing::new` makes it: nothing folded, the first entry
/// selected.
pub open spec fn fresh_listing(paths: Seq<PathView>, l: FileListing) -> bool {
    &&& l.wf()
    &&& l.spec_root() == root_of(paths)
    &&& exists|ds: Seq<ItemView>| dir_arrangement(paths, ds) && l.spec_items() == #[trigger] listing_of(paths, ds)
    &&& l.spec_folded() == Seq::new(l.spec_items().len(), |_i: int| false)
    &&& l.spec_selected() == 0
    &&& l.spec_rank() == Some(0nat)
}

/// Whether `e` is one of `wanted`, or lies in one of them.
pub open spec fn is_included(e: PathView, wanted: Seq<PathView>) -> bool {
    exists|k: int| 0 <= k < wanted.len() && (wanted[k] == e || path_starts_with(e, #[trigger] wanted[k]))
}

/// The paths of `walked` that are included, in order.
pub open spec fn kept_paths(walked: Seq<PathView>, wanted: Seq<PathView>) -> Seq<PathView>
    decreases walked.len(),
{
    if walked.len() == 0 {
        seq![]
    } else {
        let rest = kept_paths(walked.drop_last(), wanted);
        if is_included(walked.last(), wanted) {
            rest.push(walked.last())
        } else {
            rest
        }
    }
}

/// Every kept path is a path of `walked`.
proof fn lemma_kept_paths(walked: Seq<PathView>, wanted: Seq<PathView>)
    ensures
        forall|i: int| 0 <= i < kept_paths(walked, wanted).len() ==> exists|j: int| 0 <= j < walked.len()
            && #[trigger] kept_paths(walked, wanted)[i] == walked[j],
    decreases walked.len(),
{
    if walked.len() > 0 {
        let w = walked.drop_last();
        lemma_kept_paths(w, wanted);
        let k = kept_paths(walked, wanted);
        assert forall|i: int| 0 <= i < k.len() implies exists|j: int| 0 <= j < walked.len() && #[trigger] k[i] == walked[j] by {
            if i < kept_paths(w, wanted).len() {
                let j = choose|j: int| 0 <= j < w.len() && kept_paths(w, wanted)[i] == w[j];
                assert(k[i] == walked[j]);
            } else {
                assert(k[i] == walked[walked.len() - 1]);
            }
        }
    }
}

/// `q1` is `q0`, with the preview of `p` after it when the entry at `p` is the one that
/// `l` selects.
pub open spec fn previewed_if(q0: Seq<AppEvent>, q1: Seq<AppEvent>, l: FileListing, p: PathView) -> bool {
    if sel_path(l) == Some(p) {
        q1.len() == q0.len() + 1 && q1.take(q0.len() as int) == q0 && (q1.last() matches AppEvent::PreviewFile(x) && x@ == p)
    } else {
        q1 == q0
    }
}

/// One change on disk caught up with: a deletion removes the entry (and fails when it is
/// not listed); an addition does nothing when nothing is at the path any more, and lists
/// a directory or a file otherwise. A change that touches the selected entry previews it.
pub open spec fn refresh_step(
    o: FileListing,
    q0: Seq<AppEvent>,
    d: RefreshView,
    n: FileListing,
    q1: Seq<AppEvent>,
    r: Result<(), ListingError>,
) -> bool {
    match d {
        RefreshView::Delete(p) => removed(o, n, ItemsIndexView::Path(p), r) && (if r is Ok {
            previewed_if(q0, q1, n, p)
        } else {
            q1 == q0
        }),
        RefreshView::Add(p) => r is Ok && ((n == o && q1 == q0) || ((added(o, n, ItemView::Dir(p)) || added(
            o,
            n,
            ItemView::File(p),
        )) && previewed_if(q0, q1, n, p))),
    }
}

/// A batch of changes caught up with one after the other, whatever each one's result:
/// the listings and events `ls` and `qs` pass from `o` and `q0` to `n` and `q1`, one
/// change at a time.
pub open spec fn refresh_chain(
    o: FileListing,
    q0: Seq<AppEvent>,
    d: Seq<RefreshView>,
    n: FileListing,
    q1: Seq<AppEvent>,
    ls: Seq<FileListing>,
    qs: Seq<Seq<AppEvent>>,
    rs: Seq<Result<(), ListingError>>,
) -> bool {
    &&& ls.len() == d.len() + 1
    &&& qs.len() == d.len() + 1
    &&& rs.len() == d.len()
    &&& ls[0] == o
    &&& qs[0] == q0
    &&& ls[d.len() as int] == n
    &&& qs[d.len() as int] == q1
    &&& forall|k: int| 0 <= k < d.len() ==> #[trigger] refresh_step(ls[k], qs[k], d[k], ls[k + 1], qs[k + 1], rs[k])
}

/// The effect of the moves, arms 0 to 5.
proof fn lemma_effect_move(c: Config, o: FileListing, n: FileListing, q0: Seq<AppEvent>, q1: Seq<AppEvent>, ev: KeyEvent)
    requires
        0 <= tree_arm(c, ev, o.spec_shown().len() > 0) <= 5,
        ({
            let arm = tree_arm(c, ev, o.spec_shown().len() > 0);
            &&& arm == 0 ==> first_effect(o, n)
            &&& arm == 1 ==> last_effect(o, n)
            &&& arm == 2 ==> next_effect(o, n, 1)
            &&& arm == 3 ==> prev_effect(o, n, 1)
            &&& arm == 4 ==> next_effect(o, n, 3)
            &&& arm == 5 ==> prev_effect(o, n, 3)
        }),
        just_preview(q0, q1, n),
    ensures
        tree_key_effect(c, o, n, q0, q1, ev, TreeAction::Nothing),
{
    reveal(tree_key_effect);
}

/// The effect of the keys that send an event for the selected entry, arms 6, 7, 17, 18.
proof fn lemma_effect_send(c: Config, o: FileListing, n: FileListing, q0: Seq<AppEvent>, qm: Seq<AppEvent>, q1: Seq<AppEvent>, ev: KeyEvent)
    requires
        ({
            let arm = tree_arm(c, ev, o.spec_shown().len() > 0);
            arm == 6 || arm == 7 || arm == 17 || arm == 18
        }),
        n == o,
        ({
            let arm = tree_arm(c, ev, o.spec_shown().len() > 0);
            match sel_path(o) {
                Some(p) => qm.len() == q0.len() + 1 && qm.take(q0.len() as int) == q0 && ({
                    let x = qm[q0.len() as int];
                    if arm == 6 {
                        x matches AppEvent::OpenInput(InputOperation::Command { to }) && to@ == p
                    } else if arm == 7 {
                        x matches AppEvent::OpenPopup(PendingOperation::DeleteFile(f)) && f@ == p
                    } else if arm == 17 {
                        x matches AppEvent::SpecialCommand(f) && f@ == p
                    } else {
                        x matches AppEvent::Mark(f) && f@ == p
                    }
                }),
                None => qm == q0,
            }
        }),
        just_preview(qm, q1, n),
    ensures
        tree_key_effect(c, o, n, q0, q1, ev, TreeAction::Nothing),
{
    reveal(tree_key_effect);
    if qm.len() > q0.len() {
        assert(q1[q0.len() as int] == qm[q0.len() as int]);
        assert(q1.take(q0.len() as int) =~= q0);
    }
}

/// The effect of the diff key, arm 8.
proof fn lemma_effect_diff(c: Config, o: FileListing, q0: Seq<AppEvent>, q1: Seq<AppEvent>, ev: KeyEvent)
    requires
        tree_arm(c, ev, o.spec_shown().len() > 0) == 8,
        just_preview(q0.push(AppEvent::TogglePreviewMode), q1, o),
    ensures
        tree_key_effect(c, o, o, q0, q1, ev, TreeAction::Nothing),
{
    reveal(tree_key_effect);
    assert(q1[q0.len() as int] == q0.push(AppEvent::TogglePreviewMode)[q0.len() as int]);
    assert(q1.take(q0.len() as int) =~= q0);
}

/// The effect of the search key, arm 10.
proof fn lemma_effect_search(c: Config, o: FileListing, q0: Seq<AppEvent>, q1: Seq<AppEvent>, ev: KeyEvent, a: TreeAction)
    requires
        tree_arm(c, ev, o.spec_shown().len() > 0) == 10,
        a matches TreeAction::Search(ps) && path_views(ps@) == o.spec_items().map_values(|it: ItemView| it.path()),
        just_preview(q0, q1, o),
    ensures
        tree_key_effect(c, o, o, q0, q1, ev, a),
{
    reveal(tree_key_effect);
}

/// The effect of the open key, arm 12.
proof fn lemma_effect_open(c: Config, o: FileListing, n: FileListing, q0: Seq<AppEvent>, qm: Seq<AppEvent>, q1: Seq<AppEvent>, ev: KeyEvent)
    requires
        tree_arm(c, ev, o.spec_shown().len() > 0) == 12,
        match sel_path(o) {
            Some(p) => if o.spec_items()[o.spec_selected() as int] is Dir {
                refolded(o, n, toggled(o)) && qm == q0
            } else {
                n == o && qm.len() == q0.len() + 1 && qm.take(q0.len() as int) == q0 && (qm[q0.len() as int] matches AppEvent::OpenFile(f) && f@ == p)
            },
            None => n == o && qm == q0,
        },
        just_preview(qm, q1, n),
    ensures
        tree_key_effect(c, o, n, q0, q1, ev, TreeAction::Nothing),
{
    reveal(tree_key_effect);
    if qm.len() > q0.len() {
        assert(q1[q0.len() as int] == qm[q0.len() as int]);
        assert(q1.take(q0.len() as int) =~= q0);
    }
}

/// The effect of the new-entry keys, arms 13 and 14.
proof fn lemma_effect_new_entry(c: Config, o: FileListing, q0: Seq<AppEvent>, qm: Seq<AppEvent>, q1: Seq<AppEvent>, ev: KeyEvent)
    requires
        ({
            let arm = tree_arm(c, ev, o.spec_shown().len() > 0);
            arm == 13 || arm == 14
        }),
        match o.spec_rank() {
            Some(rank) => qm.len() == q0.len() + 1 && qm.take(q0.len() as int) == q0 && ({
                let x = qm[q0.len() as int];
                if tree_arm(c, ev, o.spec_shown().len() > 0) == 13 {
                    x matches AppEvent::OpenInput(InputOperation::NewFile { at }) && at@ == new_entry_at(o, rank)
                } else {
                    x matches AppEvent::OpenInput(InputOperation::NewDir { at }) && at@ == new_entry_at(o, rank)
                }
            }),
            None => qm == q0,
        },
        just_preview(qm, q1, o),
    ensures
        tree_key_effect(c, o, o, q0, q1, ev, TreeAction::Nothing),
{
    reveal(tree_key_effect);
    if qm.len() > q0.len() {
        assert(q1[q0.len() as int] == qm[q0.len() as int]);
        assert(q1.take(q0.len() as int) =~= q0);
    }
}

/// The effect of the fold keys, arms 15, 16, 19 and 20.
proof fn lemma_effect_fold(c: Config, o: FileListing, n: FileListing, q0: Seq<AppEvent>, q1: Seq<AppEvent>, ev: KeyEvent)
    requires
        ({
            let arm = tree_arm(c, ev, o.spec_shown().len() > 0);
            &&& arm == 15 || arm == 16 || arm == 19 || arm == 20
            &&& arm == 15 ==> refolded(o, n, all_folded(o))
            &&& arm == 16 ==> refolded(o, n, all_unfolded(o))
            &&& arm == 19 ==> match o.spec_rank() {
                Some(rank) => exists|r: Result<(), ListingError>| #[trigger] unfold_under_effect(o, n, ItemsIndexView::Number(rank), r),
                None => n == o,
            }
            &&& arm == 20 ==> match o.spec_rank() {
                Some(rank) => exists|r: Result<(), ListingError>| #[trigger] fold_under_effect(o, n, ItemsIndexView::Number(rank), r),
                None => n == o,
            }
        }),
        just_preview(q0, q1, n),
    ensures
        tree_key_effect(c, o, n, q0, q1, ev, TreeAction::Nothing),
{
    reveal(tree_key_effect);
}

/// The effect of the keys that hand work back, arms 9, 11 and 21, and of a key with no
/// binding, arm 22.
proof fn lemma_effect_outside(c: Config, o: FileListing, q0: Seq<AppEvent>, q1: Seq<AppEvent>, ev: KeyEvent, a: TreeAction)
    requires
        ({
            let arm = tree_arm(c, ev, o.spec_shown().len() > 0);
            &&& arm == 9 || arm == 11 || arm == 21 || arm == 22
            &&& arm == 9 ==> a == TreeAction::FilterGitModified && q1 == q0
            &&& arm == 11 ==> a == TreeAction::Refresh && q1 == q0
            &&& arm == 21 ==> a == TreeAction::ToggleDotfiles && q1 == q0
            &&& arm == 22 ==> a == TreeAction::Nothing && match (bound_command(c.commands@, Key { code: ev.code, mods: ev.modifiers }), sel_path(o)) {
                (Some(cmd), Some(p)) => {
                    let full = replace_all(cmd, seq!['{', '}'], path_text(p));
                    if contains_seq(full, seq!['{', '.', '.', '.', '}']) {
                        q1.len() == q0.len() + 1 && q1.take(q0.len() as int) == q0 && (q1.last() matches AppEvent::OpenInput(
                            InputOperation::SpecialCommand(s),
                        ) && s@ == full)
                    } else {
                        q1.len() == q0.len() + 1 && q1.take(q0.len() as int) == q0 && (q1.last() matches AppEvent::RunCommand(
                            s,
                        ) && s@ == full)
                    }
                },
                _ => q1 == q0,
            }
        }),
    ensures
        tree_key_effect(c, o, o, q0, q1, ev, a),
{
    reveal(tree_key_effect);
}

/// The tree view.
pub struct Filetree {
    is_focused: bool,
    listing: FileListing,
    root_path: PathBuf,
    queue: Queue,
    is_showing_hidden: bool,
}

/// A well-formed tree has a well-formed listing, whose selection's rank stays under the
/// bit-vector limit.
pub proof fn lemma_tree_wf(t: Filetree)
    requires
        t.wf(),
    ensures
        t.spec_listing().wf(),
        t.spec_listing().rank_or_first() < 0x2000_0000,
{
}

impl Filetree {
    pub closed spec fn spec_listing(&self) -> FileListing {
        self.listing
    }

    pub closed spec fn spec_queue(&self) -> Seq<AppEvent> {
        self.queue.events()
    }

    pub closed spec fn spec_focused(&self) -> bool {
        self.is_focused
    }

    pub closed spec fn spec_root(&self) -> PathView {
        self.root_path@
    }

    pub closed spec fn spec_hidden(&self) -> bool {
        self.is_showing_hidden
    }

    /// The listing is well formed and the selection's rank stays under the bit-vector
    /// limit.
    pub closed spec fn wf(&self) -> bool {
        &&& self.listing.wf()
        &&& self.listing.rank_or_first() < 0x2000_0000
    }

    /// A focused tree of `paths` below `root`, every directory folded; the first entry
    /// of the unfolded listing is previewed.
    pub fn from_paths(root: PathBuf, paths: &[PathBuf], queue: Queue) -> (r: Filetree)
        requires
            valid_inputs(path_views(paths@)),
            listing_fits(path_views(paths@)),
        ensures
            r.wf(),
            r.spec_focused(),
            !r.spec_hidden(),
            r.spec_root() == root@,
            exists|l: FileListing|
                #[trigger] ends_with_preview(r.spec_queue(), queue.events().len() as int, l)
                && r.spec_queue().take(queue.events().len() as int) == queue.events()
                && fresh_listing(path_views(paths@), l) && refolded(l, r.spec_listing(), all_folded(l)),
    {
        let ghost q0 = queue.events();
        let mut tree = Filetree {
            is_focused: true,
            listing: FileListing::new(paths),
            root_path: root,
            queue,
            is_showing_hidden: false,
        };
        let ghost first = tree.listing;
        tree.preview_selected();
        proof {
            lemma_rank_bounds(tree.listing);
        }
        tree.listing.fold_all();
        proof {
            assert(ends_with_preview(tree.spec_queue(), q0.len() as int, first));
        }
        tree
    }

    /// Sends the preview of the selected entry, when the selection designates one.
    pub fn preview_selected(&mut self)
        requires
            old(self).wf(),
        ensures
            final(self).wf(),
            final(self).spec_listing() == old(self).spec_listing(),
            final(self).spec_focused() == old(self).spec_focused(),
            final(self).spec_root() == old(self).spec_root(),
            final(self).spec_hidden() == old(self).spec_hidden(),
            just_preview(old(self).spec_queue(), final(self).spec_queue(), final(self).spec_listing()),
    {
        let ghost q0 = self.queue.events();
        let p = match self.listing.selected_item() {
            Some(it) => Some(it.path().duplicate()),
            None => None,
        };
        match p {
            Some(p) => {
                self.queue.add(AppEvent::PreviewFile(p));
                proof {
                    assert(self.queue.events().take(q0.len() as int) =~= q0);
                }
            },
            None => {
                proof {
                    assert(self.queue.events().take(q0.len() as int) =~= q0);
                }
            },
        }
    }

    /// The listing shown.
    pub fn listing(&self) -> (r: &FileListing)
        ensures
            *r == self.spec_listing(),
    {
        &self.listing
    }

    /// The listing shown, for changing in place.
    pub fn listing_mut(&mut self) -> (r: &mut FileListing)
        ensures
            *r == old(self).spec_listing(),
            final(self).spec_listing() == *final(r),
            final(self).spec_queue() == old(self).spec_queue(),
            final(self).spec_focused() == old(self).spec_focused(),
            final(self).spec_root() == old(self).spec_root(),
            final(self).spec_hidden() == old(self).spec_hidden(),
    {
        &mut self.listing
    }

    /// The oldest event not yet handed out.
    pub fn pop_event(&mut self) -> (r: Option<AppEvent>)
        ensures
            final(self).spec_listing() == old(self).spec_listing(),
            final(self).spec_focused() == old(self).spec_focused(),
            final(self).spec_root() == old(self).spec_root(),
            final(self).spec_hidden() == old(self).spec_hidden(),
            old(self).spec_queue().len() == 0 ==> r is None && final(self).spec_queue() == old(self).spec_queue(),
            old(self).spec_queue().len() > 0 ==> r == Some(old(self).spec_queue()[0])
                && final(self).spec_queue() == old(self).spec_queue().drop_first(),
            old(self).wf() ==> final(self).wf(),
    {
        self.queue.pop()
    }

    /// Whether the tree is shown: always.
    pub fn visible(&self) -> (r: bool)
        ensures
            r,
    {
        true
    }

    /// Gives or takes the focus.
    pub fn focus(&mut self, focus: bool)
        ensures
            final(self).spec_focused() == focus,
            final(self).spec_listing() == old(self).spec_listing(),
            final(self).spec_queue() == old(self).spec_queue(),
            final(self).spec_root() == old(self).spec_root(),
            final(self).spec_hidden() == old(self).spec_hidden(),
            old(self).wf() ==> final(self).wf(),
    {
        self.is_focused = focus;
    }

    /// Whether the tree has the focus.
    pub fn focused(&self) -> (r: bool)
        ensures
            r == self.spec_focused(),
    {
        self.is_focused
    }

    /// Whether hidden files are shown.
    pub fn showing_hidden(&self) -> (r: bool)
        ensures
            r == self.spec_hidden(),
    {
        self.is_showing_hidden
    }

    /// The selected entry.
    pub fn get_selected(&self) -> (r: Option<&Item>)
        ensures
            match sel_path(self.spec_listing()) {
                Some(p) => r matches Some(it) && it@ == self.spec_listing().spec_items()[self.spec_listing().spec_selected() as int],
                None => r is None,
            },
    {
        self.listing.selected_item()
    }

    /// Takes a key press: see `tree_key_effect`; an unfocused tree takes none.
    pub fn handle_key(&mut self, key: &KeyEvent, config: &Config) -> (a: TreeAction)
        requires
            old(self).wf(),
            tree_key_safe(*config, old(self).spec_focused(), old(self).spec_listing(), *key),
        ensures
            final(self).wf(),
            final(self).spec_focused() == old(self).spec_focused(),
            final(self).spec_root() == old(self).spec_root(),
            final(self).spec_hidden() == old(self).spec_hidden(),
            !old(self).spec_focused() ==> a == TreeAction::Nothing && final(self).spec_listing() == old(
                self,
            ).spec_listing() && final(self).spec_queue() == old(self).spec_queue(),
            old(self).spec_focused() ==> tree_key_effect(
                *config,
                old(self).spec_listing(),
                final(self).spec_listing(),
                old(self).spec_queue(),
                final(self).spec_queue(),
                *key,
                a,
            ),
    {
        if !self.is_focused {
            return TreeAction::Nothing;
        }
        proof {
            lemma_rank_bounds(self.listing);
        }
        let ghost o = self.listing;
        let ghost q0 = self.queue.events();
        let not_empty = !self.listing.is_empty();
        let arm = key_arm(config, key, not_empty);
        if arm == 9 || arm == 11 || arm == 21 || arm == 22 {
            let a = if arm == 9 {
                TreeAction::FilterGitModified
            } else if arm == 11 {
                TreeAction::Refresh
            } else if arm == 21 {
                TreeAction::ToggleDotfiles
            } else {
                self.run_bound_command(key, config);
                TreeAction::Nothing
            };
            proof {
                lemma_effect_outside(*config, o, q0, self.queue.events(), *key, a);
            }
            return a;
        }
        if arm <= 5 {
            self.move_key(arm);
            self.preview_selected();
            proof {
                lemma_effect_move(*config, o, self.listing, q0, self.queue.events(), *key);
            }
            return TreeAction::Nothing;
        }
        if arm == 6 || arm == 7 || arm == 17 || arm == 18 {
            self.send_for_selected(arm);
            let ghost qm = self.queue.events();
            self.preview_selected();
            proof {
                lemma_effect_send(*config, o, self.listing, q0, qm, self.queue.events(), *key);
            }
            return TreeAction::Nothing;
        }
        if arm == 8 {
            self.queue.add(AppEvent::TogglePreviewMode);
            self.preview_selected();
            proof {
                lemma_effect_diff(*config, o, q0, self.queue.events(), *key);
            }
            return TreeAction::Nothing;
        }
        if arm == 10 {
            let a = TreeAction::Search(self.all_paths());
            self.preview_selected();
            proof {
                lemma_effect_search(*config, o, q0, self.queue.events(), *key, a);
            }
            return a;
        }
        if arm == 12 {
            self.open_key();
            let ghost qm = self.queue.events();
            self.preview_selected();
            proof {
                lemma_effect_open(*config, o, self.listing, q0, qm, self.queue.events(), *key);
            }
            return TreeAction::Nothing;
        }
        if arm == 13 || arm == 14 {
            self.new_entry_key(arm == 13);
            let ghost qm = self.queue.events();
            self.preview_selected();
            proof {
                lemma_effect_new_entry(*config, o, q0, qm, self.queue.events(), *key);
            }
            return TreeAction::Nothing;
        }
        self.fold_key(arm);
        self.preview_selected();
        proof {
            lemma_effect_fold(*config, o, self.listing, q0, self.queue.events(), *key);
        }
        TreeAction::Nothing
    }

    /// Moves the selection for the arms from 0 to 5 of `tree_arm`.
    fn move_key(&mut self, arm: u8)
        requires
            old(self).wf(),
            arm <= 5,
            (arm == 1 || arm == 2 || arm == 4) ==> old(self).listing.spec_items().len() > 0,
            arm == 3 ==> up_ok(old(self).listing, 1),
            arm == 5 ==> up_ok(old(self).listing, 3),
        ensures
            final(self).wf(),
            final(self).queue == old(self).queue,
            final(self).is_focused == old(self).is_focused,
            final(self).root_path == old(self).root_path,
            final(self).is_showing_hidden == old(self).is_showing_hidden,
            arm == 0 ==> first_effect(old(self).listing, final(self).listing),
            arm == 1 ==> last_effect(old(self).listing, final(self).listing),
            arm == 2 ==> next_effect(old(self).listing, final(self).listing, 1),
            arm == 3 ==> prev_effect(old(self).listing, final(self).listing, 1),
            arm == 4 ==> next_effect(old(self).listing, final(self).listing, 3),
            arm == 5 ==> prev_effect(old(self).listing, final(self).listing, 3),
    {
        proof {
            lemma_rank_bounds(self.listing);
        }
        if arm == 0 {
            self.listing.select_first();
        } else if arm == 1 {
            self.listing.select_last();
        } else if arm == 2 {
            self.listing.select_next();
        } else if arm == 3 {
            self.listing.select_prev();
        } else if arm == 4 {
            self.listing.select_next_n(3);
        } else {
            self.listing.select_prev_n(3);
        }
        proof {
            lemma_rank_bounds(self.listing);
        }
    }

    /// Sends the event of arm 6, 7, 17 or 18 of `tree_arm` for the selected entry.
    fn send_for_selected(&mut self, arm: u8)
        requires
            old(self).wf(),
            arm == 6 || arm == 7 || arm == 17 || arm == 18,
        ensures
            final(self).wf(),
            final(self).listing == old(self).listing,
            final(self).is_focused == old(self).is_focused,
            final(self).root_path == old(self).root_path,
            final(self).is_showing_hidden == old(self).is_showing_hidden,
            match sel_path(old(self).listing) {
                Some(p) => final(self).queue.events().len() == old(self).queue.events().len() + 1
                    && final(self).queue.events().take(old(self).queue.events().len() as int) == old(self).queue.events()
                    && ({
                        let x = final(self).queue.events()[old(self).queue.events().len() as int];
                        if arm == 6 {
                            x matches AppEvent::OpenInput(InputOperation::Command { to }) && to@ == p
                        } else if arm == 7 {
                            x matches AppEvent::OpenPopup(PendingOperation::DeleteFile(f)) && f@ == p
                        } else if arm == 17 {
                            x matches AppEvent::SpecialCommand(f) && f@ == p
                        } else {
                            x matches AppEvent::Mark(f) && f@ == p
                        }
                    }),
                None => final(self).queue == old(self).queue,
            },
    {
        let ghost q0 = self.queue.events();
        if let Some(p) = self.selected_path() {
            let e = if arm == 6 {
                AppEvent::OpenInput(InputOperation::Command { to: p })
            } else if arm == 7 {
                AppEvent::OpenPopup(PendingOperation::DeleteFile(p))
            } else if arm == 17 {
                AppEvent::SpecialCommand(p)
            } else {
                AppEvent::Mark(p)
            };
            self.queue.add(e);
            proof {
                assert(self.queue.events().take(q0.len() as int) =~= q0);
            }
        }
    }

    /// The open key: a directory's fold flips, a file is opened.
    fn open_key(&mut self)
        requires
            old(self).wf(),
        ensures
            final(self).wf(),
            final(self).is_focused == old(self).is_focused,
            final(self).root_path == old(self).root_path,
            final(self).is_showing_hidden == old(self).is_showing_hidden,
            match sel_path(old(self).listing) {
                Some(p) => if old(self).listing.spec_items()[old(self).listing.spec_selected() as int] is Dir {
                    refolded(old(self).listing, final(self).listing, toggled(old(self).listing)) && final(self).queue
                        == old(self).queue
                } else {
                    final(self).listing == old(self).listing && final(self).queue.events().len() == old(self).queue.events().len() + 1
                        && final(self).queue.events().take(old(self).queue.events().len() as int) == old(self).queue.events()
                        && (final(self).queue.events()[old(self).queue.events().len() as int] matches AppEvent::OpenFile(f) && f@ == p)
                },
                None => final(self).listing == old(self).listing && final(self).queue == old(self).queue,
            },
    {
        let ghost q0 = self.queue.events();
        proof {
            lemma_rank_bounds(self.listing);
        }
        let sel = match self.listing.selected_item() {
            Some(it) => Some((it.is_file(), it.path().duplicate())),
            None => None,
        };
        match sel {
            Some((false, _)) => self.listing.toggle_fold(),
            Some((true, p)) => {
                self.queue.add(AppEvent::OpenFile(p));
                proof {
                    assert(self.queue.events().take(q0.len() as int) =~= q0);
                }
            },
            None => {},
        }
        proof {
            lemma_rank_bounds(self.listing);
        }
    }

    /// The new-file (or, unless `as_file`, new-directory) key: opens the text box for an
    /// entry where the selection says (see `new_entry_at`).
    fn new_entry_key(&mut self, as_file: bool)
        requires
            old(self).wf(),
            match old(self).listing.spec_rank() {
                Some(rank) => {
                    &&& old(self).listing.spec_items().len() > 0 || rank != 0
                    &&& to_absolute(old(self).listing.spec_items(), old(self).listing.spec_folded(), ItemsIndexView::Number(rank)) is Some
                    &&& old(self).listing.spec_selected() < old(self).listing.spec_items().len()
                    &&& path_parent(old(self).listing.spec_items()[old(self).listing.spec_selected() as int].path()) is Some
                },
                None => true,
            },
        ensures
            final(self).wf(),
            final(self).listing == old(self).listing,
            final(self).is_focused == old(self).is_focused,
            final(self).root_path == old(self).root_path,
            final(self).is_showing_hidden == old(self).is_showing_hidden,
            match old(self).listing.spec_rank() {
                Some(rank) => final(self).queue.events().len() == old(self).queue.events().len() + 1
                    && final(self).queue.events().take(old(self).queue.events().len() as int) == old(self).queue.events()
                    && ({
                        let x = final(self).queue.events()[old(self).queue.events().len() as int];
                        if as_file {
                            x matches AppEvent::OpenInput(InputOperation::NewFile { at }) && at@ == new_entry_at(old(self).listing, rank)
                        } else {
                            x matches AppEvent::OpenInput(InputOperation::NewDir { at }) && at@ == new_entry_at(old(self).listing, rank)
                        }
                    }),
                None => final(self).queue == old(self).queue,
            },
    {
        let ghost q0 = self.queue.events();
        if let Some(rank) = self.listing.selected() {
            let at = self.new_entry_path(rank);
            if as_file {
                self.queue.add(AppEvent::OpenInput(InputOperation::NewFile { at }));
            } else {
                self.queue.add(AppEvent::OpenInput(InputOperation::NewDir { at }));
            }
            proof {
                assert(self.queue.events().take(q0.len() as int) =~= q0);
            }
        }
    }

    /// The fold keys: arms 15, 16, 19 and 20 of `tree_arm`.
    fn fold_key(&mut self, arm: u8)
        requires
            old(self).wf(),
            arm == 15 || arm == 16 || arm == 19 || arm == 20,
            (arm == 19 || arm == 20) ==> match old(self).listing.spec_rank() {
                Some(rank) => old(self).listing.spec_items().len() > 0 || rank != 0,
                None => true,
            },
        ensures
            final(self).wf(),
            final(self).queue == old(self).queue,
            final(self).is_focused == old(self).is_focused,
            final(self).root_path == old(self).root_path,
            final(self).is_showing_hidden == old(self).is_showing_hidden,
            arm == 15 ==> refolded(old(self).listing, final(self).listing, all_folded(old(self).listing)),
            arm == 16 ==> refolded(old(self).listing, final(self).listing, all_unfolded(old(self).listing)),
            arm == 19 ==> match old(self).listing.spec_rank() {
                Some(rank) => exists|r: Result<(), ListingError>| #[trigger] unfold_under_effect(old(self).listing, final(self).listing, ItemsIndexView::Number(rank), r),
                None => final(self).listing == old(self).listing,
            },
            arm == 20 ==> match old(self).listing.spec_rank() {
                Some(rank) => exists|r: Result<(), ListingError>| #[trigger] fold_under_effect(old(self).listing, final(self).listing, ItemsIndexView::Number(rank), r),
                None => final(self).listing == old(self).listing,
            },
    {
        if arm == 15 {
            self.listing.fold_all();
        } else if arm == 16 {
            self.listing.unfold_all();
        } else {
            if let Some(rank) = self.listing.selected() {
                let ghost o = self.listing;
                if arm == 19 {
                    let r = self.listing.unfold_under(&ItemsIndex::Number(rank));
                    proof {
                        assert(unfold_under_effect(o, self.listing, ItemsIndexView::Number(rank as nat), r));
                    }
                } else {
                    let r = self.listing.fold_under(&ItemsIndex::Number(rank));
                    proof {
                        assert(fold_under_effect(o, self.listing, ItemsIndexView::Number(rank as nat), r));
                    }
                }
            }
        }
    }

    /// Rebuilds the tree from `paths`, the project walked again, every directory folded.
    pub fn refresh(&mut self, paths: &[PathBuf])
        requires
            old(self).wf(),
            valid_inputs(path_views(paths@)),
            listing_fits(path_views(paths@)),
        ensures
            final(self).wf(),
            exists|l: FileListing| #[trigger] fresh_listing(path_views(paths@), l) && refolded(l, final(self).spec_listing(), all_folded(l)),
            final(self).spec_queue() == old(self).spec_queue(),
            final(self).spec_focused() == old(self).spec_focused(),
            final(self).spec_root() == old(self).spec_root(),
            final(self).spec_hidden() == old(self).spec_hidden(),
    {
        self.listing = FileListing::new(paths);
        let ghost l = self.listing;
        proof {
            assert(fresh_listing(path_views(paths@), l));
        }
        self.listing.fold_all();
    }

    /// Rebuilds the tree from the paths of `walked` that are one of `wanted` or lie in
    /// one of them, nothing folded.
    pub fn filter_include(&mut self, walked: &[PathBuf], wanted: &[PathBuf])
        requires
            old(self).wf(),
            valid_inputs(path_views(walked@)),
            listing_fits(kept_paths(path_views(walked@), path_views(wanted@))),
        ensures
            final(self).wf(),
            fresh_listing(kept_paths(path_views(walked@), path_views(wanted@)), final(self).spec_listing()),
            final(self).spec_queue() == old(self).spec_queue(),
            final(self).spec_focused() == old(self).spec_focused(),
            final(self).spec_root() == old(self).spec_root(),
            final(self).spec_hidden() == old(self).spec_hidden(),
    {
        let ghost ws = path_views(walked@);
        let ghost inc = path_views(wanted@);
        let mut kept: Vec<PathBuf> = Vec::new();
        let mut i: usize = 0;
        while i < walked.len()
            invariant
                ws == path_views(walked@),
                inc == path_views(wanted@),
                i <= walked@.len(),
                path_views(kept@) == kept_paths(ws.take(i as int), inc),
            decreases walked@.len() - i,
        {
            let e = &walked[i];
            let mut found = false;
            let mut k: usize = 0;
            while k < wanted.len()
                invariant
                    inc == path_views(wanted@),
                    k <= wanted@.len(),
                    found == exists|m: int| 0 <= m < k && (inc[m] == e@ || path_starts_with(e@, #[trigger] inc[m])),
                decreases wanted@.len() - k,
            {
                if wanted[k].same(e) || e.starts_with(&wanted[k]) {
                    found = true;
                }
                proof {
                    assert(inc[k as int] == wanted@[k as int]@);
                }
                k = k + 1;
            }
            proof {
                assert(ws.take(i + 1).drop_last() =~= ws.take(i as int));
                assert(ws.take(i + 1).last() == e@);
                assert(found == is_included(e@, inc));
            }
            if found {
                kept.push(e.duplicate());
                proof {
                    assert(path_views(kept@) =~= kept_paths(ws.take(i as int), inc).push(e@));
                }
            }
            i = i + 1;
        }
        proof {
            assert(ws.take(walked@.len() as int) =~= ws);
            let kp = kept_paths(ws, inc);
            lemma_kept_paths(ws, inc);
            assert forall|m: int| 0 <= m < kp.len() implies {
                &&& (#[trigger] kp[m]).absolute
                &&& kp[m].comps.len() > 0
                &&& kp[m].wf()
                &&& crate::text::short_digit_runs(path_text(kp[m]))
            } by {
                let j = choose|j: int| 0 <= j < ws.len() && kp[m] == ws[j];
                assert(ws[j] == ws[j]);
            }
        }
        self.listing = FileListing::new(kept.as_slice());
    }

    /// Shows hidden files when they were hidden and hides them otherwise, rebuilding the
    /// tree from `walked`, the project walked with the new choice, every directory folded.
    pub fn toggle_dotfiles(&mut self, walked: &[PathBuf])
        requires
            old(self).wf(),
            valid_inputs(path_views(walked@)),
            listing_fits(path_views(walked@)),
        ensures
            final(self).wf(),
            final(self).spec_hidden() == !old(self).spec_hidden(),
            exists|l: FileListing| #[trigger] fresh_listing(path_views(walked@), l) && refolded(l, final(self).spec_listing(), all_folded(l)),
            final(self).spec_queue() == old(self).spec_queue(),
            final(self).spec_focused() == old(self).spec_focused(),
            final(self).spec_root() == old(self).spec_root(),
    {
        self.is_showing_hidden = !self.is_showing_hidden;
        self.refresh(walked);
    }

    /// Catches up with one change on disk (see `refresh_step`); whether anything is at an
    /// added path, and whether it is a directory, is asked of the disk.
    pub fn partial_refresh(&mut self, data: &RefreshData) -> (r: Result<(), ListingError>)
        requires
            old(self).wf(),
            data@ is Add ==> old(self).spec_listing().spec_items().len() + 1 < 0x2000_0000,
        ensures
            final(self).wf(),
            refresh_step(old(self).spec_listing(), old(self).spec_queue(), data@, final(self).spec_listing(), final(self).spec_queue(), r),
            final(self).spec_listing().spec_items().len() <= old(self).spec_listing().spec_items().len() + 1,
            final(self).spec_focused() == old(self).spec_focused(),
            final(self).spec_root() == old(self).spec_root(),
            final(self).spec_hidden() == old(self).spec_hidden(),
    {
        let ghost q0 = self.queue.events();
        proof {
            lemma_rank_bounds(self.listing);
        }
        let p = match data {
            RefreshData::Delete(path) => {
                let ghost o = self.listing;
                let r = self.listing.remove(&ItemsIndex::Path(path.duplicate()));
                proof {
                    lemma_removed_len(o, self.listing, ItemsIndexView::Path(path@), r);
                }
                if r.is_err() {
                    return r;
                }
                path
            },
            RefreshData::Add(path) => {
                let text = path.to_text();
                if !path_exists(text.as_str()) {
                    return Ok(());
                }
                if path_is_dir(text.as_str()) {
                    self.listing.add(Item::Dir(path.duplicate()));
                } else {
                    self.listing.add(Item::File(path.duplicate()));
                }
                path
            },
        };
        proof {
            lemma_rank_bounds(self.listing);
        }
        let same = match self.listing.selected_item() {
            Some(it) => it.path().same(p),
            None => false,
        };
        if same {
            self.queue.add(AppEvent::PreviewFile(p.duplicate()));
            proof {
                assert(self.queue.events().take(q0.len() as int) =~= q0);
            }
        }
        Ok(())
    }

    /// Catches up with a batch of changes on disk, one after the other; a deletion of
    /// something not listed is passed over.
    pub fn handle_refresh(&mut self, data: &[RefreshData])
        requires
            old(self).wf(),
            old(self).spec_listing().spec_items().len() + data@.len() + 1 < 0x2000_0000,
        ensures
            final(self).wf(),
            exists|ls: Seq<FileListing>, qs: Seq<Seq<AppEvent>>, rs: Seq<Result<(), ListingError>>| #[trigger] refresh_chain(
                old(self).spec_listing(),
                old(self).spec_queue(),
                refresh_views(data@),
                final(self).spec_listing(),
                final(self).spec_queue(),
                ls,
                qs,
                rs,
            ),
            final(self).spec_focused() == old(self).spec_focused(),
            final(self).spec_root() == old(self).spec_root(),
            final(self).spec_hidden() == old(self).spec_hidden(),
    {
        let ghost o = self.listing;
        let ghost q0 = self.queue.events();
        let ghost d = refresh_views(data@);
        let ghost mut ls: Seq<FileListing> = seq![o];
        let ghost mut qs: Seq<Seq<AppEvent>> = seq![q0];
        let ghost mut rs: Seq<Result<(), ListingError>> = seq![];
        let mut i: usize = 0;
        while i < data.len()
            invariant
                self.wf(),
                o == old(self).spec_listing(),
                q0 == old(self).spec_queue(),
                d == refresh_views(data@),
                d.len() == data@.len(),
                i <= data@.len(),
                self.listing.spec_items().len() <= o.spec_items().len() + i,
                o.spec_items().len() + data@.len() + 1 < 0x2000_0000,
                refresh_chain(o, q0, d.take(i as int), self.listing, self.queue.events(), ls, qs, rs),
                self.spec_focused() == old(self).spec_focused(),
                self.spec_root() == old(self).spec_root(),
                self.spec_hidden() == old(self).spec_hidden(),
            decreases data@.len() - i,
        {
            let ghost m = self.listing;
            let ghost qm = self.queue.events();
            let r = self.partial_refresh(&data[i]);
            proof {
                assert(d[i as int] == data@[i as int]@);
                let t = d.take(i + 1);
                let ls2 = ls.push(self.listing);
                let qs2 = qs.push(self.queue.events());
                let rs2 = rs.push(r);
                assert forall|k: int| 0 <= k < t.len() implies #[trigger] refresh_step(ls2[k], qs2[k], t[k], ls2[k + 1], qs2[k + 1], rs2[k]) by {
                    if k < i {
                        assert(t[k] == d.take(i as int)[k]);
                        assert(refresh_step(ls[k], qs[k], d.take(i as int)[k], ls[k + 1], qs[k + 1], rs[k]));
                    } else {
                        assert(t[k] == d[i as int]);
                    }
                }
                ls = ls2;
                qs = qs2;
                rs = rs2;
            }
            i = i + 1;
        }
        proof {
            assert(d.take(data@.len() as int) =~= d);
            assert(refresh_chain(o, q0, d, self.spec_listing(), self.spec_queue(), ls, qs, rs));
        }
    }

    /// Selects the entry at `path` (opening the way to it) and previews it; the root
    /// itself is left alone.
    pub fn open_path(&mut self, path: &PathBuf)
        requires
            old(self).wf(),
        ensures
            final(self).wf(),
            final(self).spec_focused() == old(self).spec_focused(),
            final(self).spec_root() == old(self).spec_root(),
            final(self).spec_hidden() == old(self).spec_hidden(),
            path@ == old(self).spec_root() ==> final(self).spec_listing() == old(self).spec_listing()
                && final(self).spec_queue() == old(self).spec_queue(),
            path@ != old(self).spec_root() ==> (exists|found: bool| #[trigger] selected_by(old(self).spec_listing(), final(self).spec_listing(), ItemsIndexView::Path(path@), found))
                && final(self).spec_queue().len() == old(self).spec_queue().len() + 1
                && final(self).spec_queue().take(old(self).spec_queue().len() as int) == old(self).spec_queue()
                && (final(self).spec_queue().last() matches AppEvent::PreviewFile(x) && x@ == path@),
    {
        if path.same(&self.root_path) {
            return;
        }
        let ghost o = self.listing;
        let ghost q0 = self.queue.events();
        let found = self.listing.select(&ItemsIndex::Path(path.duplicate())).is_some();
        proof {
            assert(selected_by(o, self.listing, ItemsIndexView::Path(path@), found));
            lemma_rank_bounds(self.listing);
            lemma_rank_of_path(self.listing.spec_items(), self.listing.spec_shown(), path@);
        }
        self.queue.add(AppEvent::PreviewFile(path.duplicate()));
        proof {
            assert(self.queue.events().take(q0.len() as int) =~= q0);
            assert(selected_by(o, self.spec_listing(), ItemsIndexView::Path(path@), found));
            assert(self.spec_queue().len() == q0.len() + 1);
            assert(self.spec_queue().last() matches AppEvent::PreviewFile(x) && x@ == path@);
            assert(o == old(self).spec_listing());
        }
    }

    /// Unfolds everything, or folds every directory when nothing is folded.
    pub fn open_all(&mut self)
        requires
            old(self).wf(),
        ensures
            final(self).wf(),
            refolded(old(self).spec_listing(), final(self).spec_listing(), all_unfolded(old(self).spec_listing())),
            final(self).spec_queue() == old(self).spec_queue(),
            final(self).spec_focused() == old(self).spec_focused(),
            final(self).spec_root() == old(self).spec_root(),
            final(self).spec_hidden() == old(self).spec_hidden(),
    {
        self.listing.unfold_all();
    }

    /// Folds every directory.
    pub fn close_all(&mut self)
        requires
            old(self).wf(),
        ensures
            final(self).wf(),
            refolded(old(self).spec_listing(), final(self).spec_listing(), all_folded(old(self).spec_listing())),
            final(self).spec_queue() == old(self).spec_queue(),
            final(self).spec_focused() == old(self).spec_focused(),
            final(self).spec_root() == old(self).spec_root(),
            final(self).spec_hidden() == old(self).spec_hidden(),
    {
        self.listing.fold_all();
    }

    /// Unfolds under the selection (see `FileListing::unfold_under`), when there is one.
    pub fn open_under(&mut self)
        requires
            old(self).wf(),
            old(self).spec_listing().spec_rank() matches Some(rank) ==> old(self).spec_listing().spec_items().len() > 0 || rank != 0,
        ensures
            final(self).wf(),
            match old(self).spec_listing().spec_rank() {
                Some(rank) => exists|r: Result<(), ListingError>| #[trigger] unfold_under_effect(old(self).spec_listing(), final(self).spec_listing(), ItemsIndexView::Number(rank), r),
                None => final(self).spec_listing() == old(self).spec_listing(),
            },
            final(self).spec_queue() == old(self).spec_queue(),
            final(self).spec_focused() == old(self).spec_focused(),
            final(self).spec_root() == old(self).spec_root(),
            final(self).spec_hidden() == old(self).spec_hidden(),
    {
        if let Some(rank) = self.listing.selected() {
            let ghost o = self.listing;
            let r = self.listing.unfold_under(&ItemsIndex::Number(rank));
            proof {
                assert(unfold_under_effect(o, self.spec_listing(), ItemsIndexView::Number(rank as nat), r));
            }
        }
    }

    /// Folds under the selection (see `FileListing::fold_under`), when there is one.
    pub fn close_under(&mut self)
        requires
            old(self).wf(),
            old(self).spec_listing().spec_rank() matches Some(rank) ==> old(self).spec_listing().spec_items().len() > 0 || rank != 0,
        ensures
            final(self).wf(),
            match old(self).spec_listing().spec_rank() {
                Some(rank) => exists|r: Result<(), ListingError>| #[trigger] fold_under_effect(old(self).spec_listing(), final(self).spec_listing(), ItemsIndexView::Number(rank), r),
                None => final(self).spec_listing() == old(self).spec_listing(),
            },
            final(self).spec_queue() == old(self).spec_queue(),
            final(self).spec_focused() == old(self).spec_focused(),
            final(self).spec_root() == old(self).spec_root(),
            final(self).spec_hidden() == old(self).spec_hidden(),
    {
        if let Some(rank) = self.listing.selected() {
            let ghost o = self.listing;
            let r = self.listing.fold_under(&ItemsIndex::Number(rank));
            proof {
                assert(fold_under_effect(o, self.spec_listing(), ItemsIndexView::Number(rank as nat), r));
            }
        }
    }

    /// A copy of the selected entry's path.
    fn selected_path(&self) -> (r: Option<PathBuf>)
        ensures
            match sel_path(self.listing) {
                Some(p) => r matches Some(q) && q@ == p,
                None => r is None,
            },
    {
        match self.listing.selected_item() {
            Some(it) => Some(it.path().duplicate()),
            None => None,
        }
    }

    /// The paths of all entries of the listing, in order.
    fn all_paths(&self) -> (r: Vec<PathBuf>)
        ensures
            path_views(r@) == self.listing.spec_items().map_values(|it: ItemView| it.path()),
    {
        let list = self.listing.all_items();
        let ghost s = self.listing.spec_items();
        let mut out: Vec<PathBuf> = Vec::new();
        let mut i: usize = 0;
        while i < list.len()
            invariant
                item_views(list@) == s,
                s == self.listing.spec_items(),
                i <= list@.len(),
                out@.len() == i,
                forall|j: int| 0 <= j < i ==> (#[trigger] out@[j])@ == s[j].path(),
            decreases list@.len() - i,
        {
            proof {
                assert(s[i as int] == list@[i as int]@);
            }
            out.push(list[i].path().duplicate());
            i = i + 1;
        }
        proof {
            assert(path_views(out@) =~= s.map_values(|it: ItemView| it.path()));
        }
        out
    }

    /// Where a new entry goes from the selection at `rank` (see `new_entry_at`).
    fn new_entry_path(&self, rank: usize) -> (r: PathBuf)
        requires
            self.listing.wf(),
            self.listing.spec_rank() == Some(rank as nat),
            self.listing.spec_items().len() > 0 || rank != 0,
            to_absolute(self.listing.spec_items(), self.listing.spec_folded(), ItemsIndexView::Number(rank as nat)) is Some,
            self.listing.spec_selected() < self.listing.spec_items().len(),
            path_parent(self.listing.spec_items()[self.listing.spec_selected() as int].path()) is Some,
        ensures
            r@ == new_entry_at(self.listing, rank as nat),
    {
        let is_folded = match self.listing.is_folded(&ItemsIndex::Number(rank)) {
            Some(b) => b,
            None => false,
        };
        match self.listing.selected_item() {
            Some(it) => {
                if !it.is_file() && !is_folded {
                    it.path().duplicate()
                } else {
                    match it.path().parent() {
                        Some(q) => q,
                        None => PathBuf::new(),
                    }
                }
            },
            None => PathBuf::new(),
        }
    }

    /// Runs the command bound to the key pressed on the selected entry (see
    /// `tree_key_effect`).
    fn run_bound_command(&mut self, key: &KeyEvent, config: &Config)
        requires
            old(self).wf(),
        ensures
            final(self).wf(),
            final(self).listing == old(self).listing,
            final(self).is_focused == old(self).is_focused,
            final(self).root_path == old(self).root_path,
            final(self).is_showing_hidden == old(self).is_showing_hidden,
            ({
                let q0 = old(self).spec_queue();
                let q1 = final(self).spec_queue();
                match (bound_command(config.commands@, Key { code: key.code, mods: key.modifiers }), sel_path(old(self).listing)) {
                    (Some(cmd), Some(p)) => {
                        let full = replace_all(cmd, seq!['{', '}'], path_text(p));
                        if contains_seq(full, seq!['{', '.', '.', '.', '}']) {
                            q1.len() == q0.len() + 1 && q1.take(q0.len() as int) == q0 && (q1.last() matches AppEvent::OpenInput(
                                InputOperation::SpecialCommand(s),
                            ) && s@ == full)
                        } else {
                            q1.len() == q0.len() + 1 && q1.take(q0.len() as int) == q0 && (q1.last() matches AppEvent::RunCommand(
                                s,
                            ) && s@ == full)
                        }
                    },
                    _ => q1 == q0,
                }
            }),
    {
        let k = Key::from_event(key);
        let cmd = match find_command(&config.commands, &k) {
            Some(cmd) => cmd,
            None => return,
        };
        let p = match self.selected_path() {
            Some(p) => p,
            None => return,
        };
        let text = p.to_text();
        let full = replace_str(cmd.as_str(), "{}", text.as_str());
        let ghost q0 = self.queue.events();
        proof {
            reveal_strlit("{}");
            reveal_strlit("{...}");
            assert("{}"@ =~= seq!['{', '}']);
            assert("{...}"@ =~= seq!['{', '.', '.', '.', '}']);
        }
        if str_contains(full.as_str(), "{...}") {
            self.queue.add(AppEvent::OpenInput(InputOperation::SpecialCommand(full)));
        } else {
            self.queue.add(AppEvent::RunCommand(full));
        }
        proof {
            assert(self.queue.events().take(q0.len() as int) =~= q0);
        }
    }
}


/// The sign before a folded directory.
pub const CLOSED_SYMBOL: char = '\u{25b6}';

/// The sign before an open directory.
pub const OPENED_SYMBOL: char = '\u{25bc}';

/// The number of components of `p`, the root counting as one.
pub open spec fn path_len(p: PathView) -> int {
    p.comps.len() + if p.absolute {
        1int
    } else {
        0int
    }
}

/// How many levels `p` lies below `root`.
pub open spec fn depth_below(p: PathView, root: PathView) -> nat {
    if path_len(p) >= path_len(root) {
        (path_len(p) - path_len(root)) as nat
    } else {
        0
    }
}

/// The last component of `p`, or nothing.
pub open spec fn name_of(p: PathView) -> Seq<char> {
    if p.comps.len() > 0 {
        p.comps.last()
    } else {
        Seq::empty()
    }
}

/// What git says of a file, as far as the tree shows it.
#[derive(Debug, Clone, Copy, PartialEq, Eq, Structural)]
pub enum GitStatus {
    /// Not yet known to git.
    WorktreeNew,
    /// Changed and staged.
    IndexModified,
    /// Added to the index.
    IndexNew,
    /// Changed and not staged.
    WorktreeModified,
    /// Anything else.
    Other,
}

/// The status of the first entry of `statuses` for `p`, if there is one.
pub open spec fn status_of(statuses: Seq<(PathView, GitStatus)>, p: PathView) -> Option<GitStatus> {
    if exists|i: int| 0 <= i < statuses.len() && (#[trigger] statuses[i]).0 == p {
        Some(
            statuses[choose|i: int|
                0 <= i < statuses.len() && (#[trigger] statuses[i]).0 == p && forall|j: int|
                    0 <= j < i ==> (#[trigger] statuses[j]).0 != p].1,
        )
    } else {
        None
    }
}

/// The statuses, as values.
pub open spec fn status_views(s: Seq<(PathBuf, GitStatus)>) -> Seq<(PathView, GitStatus)> {
    s.map_values(|e: (PathBuf, GitStatus)| (e.0@, e.1))
}

/// The sign of an entry: for a directory whether it is folded; for a file `+` when it is
/// new to git, `~` when it is changed or added, a space otherwise.
pub open spec fn row_sign(it: ItemView, folded: bool, status: Option<GitStatus>) -> char {
    if it.is_file() {
        match status {
            Some(GitStatus::WorktreeNew) => '+',
            Some(GitStatus::IndexModified) | Some(GitStatus::IndexNew) | Some(GitStatus::WorktreeModified) => '~',
            _ => ' ',
        }
    } else if folded {
        CLOSED_SYMBOL
    } else {
        OPENED_SYMBOL
    }
}

/// How an entry of the tree is written: two spaces for each level below `root`, its sign,
/// a space, and its name.
pub open spec fn row_text(root: PathView, it: ItemView, folded: bool, status: Option<GitStatus>) -> Seq<char> {
    Seq::new(2 * depth_below(it.path(), root), |i: int| ' ') + seq![row_sign(it, folded, status), ' '] + name_of(
        it.path(),
    )
}

/// The style that git's status gives an entry: new, added (staged) and changed files
/// have their own styles.
pub open spec fn status_style(status: Option<GitStatus>, c: Config) -> Option<Style> {
    match status {
        Some(GitStatus::WorktreeNew) => Some(c.filetree.git_new_style),
        Some(GitStatus::IndexModified) => Some(c.filetree.added_style),
        Some(GitStatus::WorktreeModified) => Some(c.filetree.git_modified_style),
        _ => None,
    }
}

/// The style of an entry: that of marks for a marked one, else that of its git status,
/// else that of directories for a directory, else none.
pub open spec fn row_style(it: ItemView, marked: bool, status: Option<GitStatus>, c: Config) -> Option<Style> {
    if marked {
        Some(c.filetree.marks_style)
    } else if status_style(status, c) is Some {
        status_style(status, c)
    } else if !it.is_file() {
        Some(c.filetree.dir_style)
    } else {
        None
    }
}

/// The rows of the shown entries of `l`, with the paths `marks` marked and the git
/// `statuses` shown.
pub open spec fn tree_rows(
    l: FileListing,
    marks: Seq<PathView>,
    statuses: Seq<(PathView, GitStatus)>,
    c: Config,
    r: Seq<(Seq<char>, Option<Style>)>,
) -> bool {
    let shown = l.spec_shown();
    &&& r.len() == shown.len()
    &&& forall|k: int| 0 <= k < r.len() ==> {
        let it = #[trigger] l.spec_items()[shown[k]];
        let st = status_of(statuses, it.path());
        &&& r[k].0 == row_text(l.spec_root(), it, l.spec_folded()[shown[k]], st)
        &&& r[k].1 == row_style(it, marks.contains(it.path()), st, c)
    }
}

/// The status of `p` in `statuses` (see `status_of`).
fn find_status(statuses: &Vec<(PathBuf, GitStatus)>, p: &PathBuf) -> (r: Option<GitStatus>)
    ensures
        r == status_of(status_views(statuses@), p@),
{
    let ghost sv = status_views(statuses@);
    let mut i: usize = 0;
    while i < statuses.len()
        invariant
            i <= statuses@.len(),
            sv == status_views(statuses@),
            forall|j: int| 0 <= j < i ==> (#[trigger] sv[j]).0 != p@,
        decreases statuses@.len() - i,
    {
        if statuses[i].0.same(p) {
            proof {
                assert(sv[i as int].0 == p@);
                let w = choose|w: int|
                    0 <= w < sv.len() && (#[trigger] sv[w]).0 == p@ && forall|j: int| 0 <= j < w ==> (#[trigger] sv[j]).0 != p@;
                assert(w == i as int) by {
                    if w < i as int {
                        assert(sv[w].0 != p@);
                    } else if w > i as int {
                        assert(sv[i as int].0 != p@);
                    }
                }
            }
            return Some(statuses[i].1);
        }
        proof {
            assert(sv[i as int].0 != p@);
        }
        i = i + 1;
    }
    None
}

/// Whether `marks` holds `p`.
fn is_marked(marks: &Vec<PathBuf>, p: &PathBuf) -> (r: bool)
    ensures
        r == path_views(marks@).contains(p@),
{
    let mut i: usize = 0;
    while i < marks.len()
        invariant
            i <= marks@.len(),
            forall|j: int| 0 <= j < i ==> path_views(marks@)[j] != p@,
        decreases marks@.len() - i,
    {
        if marks[i].same(p) {
            proof {
                assert(path_views(marks@)[i as int] == p@);
            }
            return true;
        }
        i = i + 1;
    }
    false
}

/// The row of an entry (see `row_text`).
fn row_of(root: &PathBuf, it: &Item, folded: bool, status: Option<GitStatus>) -> (r: String)
    ensures
        r@ == row_text(root@, it@, folded, status),
{
    let p = it.path();
    let pc = p.comps.len();
    let rc = root.comps.len();
    let mut levels: usize = if pc >= rc {
        pc - rc
    } else {
        0
    };
    let mut extra = false;
    if pc >= rc {
        if p.absolute && !root.absolute {
            extra = true;
        } else if !p.absolute && root.absolute && levels > 0 {
            levels = levels - 1;
        }
    }
    proof {
        assert(p.comps@.len() == p@.comps.len());
        assert(root.comps@.len() == root@.comps.len());
        assert(levels + (if extra { 1int } else { 0int }) == depth_below(it@.path(), root@));
    }
    let mut out: Vec<char> = Vec::new();
    let mut k: usize = 0;
    while k < levels
        invariant
            k <= levels,
            out@ == Seq::new(2 * k as nat, |i: int| ' '),
        decreases levels - k,
    {
        out.push(' ');
        out.push(' ');
        proof {
            assert(out@ =~= Seq::new(2 * (k + 1) as nat, |i: int| ' '));
        }
        k = k + 1;
    }
    if extra {
        out.push(' ');
        out.push(' ');
    }
    proof {
        assert(out@ =~= Seq::new(2 * depth_below(it@.path(), root@), |i: int| ' '));
    }
    let sign = if it.is_file() {
        match status {
            Some(GitStatus::WorktreeNew) => '+',
            Some(GitStatus::IndexModified) | Some(GitStatus::IndexNew) | Some(GitStatus::WorktreeModified) => '~',
            _ => ' ',
        }
    } else if folded {
        CLOSED_SYMBOL
    } else {
        OPENED_SYMBOL
    };
    out.push(sign);
    out.push(' ');
    let ghost head = out@;
    match p.file_name() {
        Some(name) => {
            let cs = crate::text::str_chars(name.as_str());
            let mut j: usize = 0;
            while j < cs.len()
                invariant
                    j <= cs@.len(),
                    out@ == head + cs@.take(j as int),
                decreases cs@.len() - j,
            {
                out.push(cs[j]);
                proof {
                    assert(out@ =~= head + cs@.take(j + 1));
                }
                j = j + 1;
            }
            proof {
                assert(cs@.take(j as int) =~= cs@);
            }
        },
        None => {
            proof {
                assert(out@ =~= head + Seq::<char>::empty());
            }
        },
    }
    crate::text::string_from_chars(out.as_slice())
}

impl Filetree {
    /// The rows that draw the shown entries of the tree, in order, with the paths `marks`
    /// marked and the git `statuses` shown (see `tree_rows`).
    pub fn rows(&self, marks: &Vec<PathBuf>, statuses: &Vec<(PathBuf, GitStatus)>, config: &Config) -> (r: Vec<(String, Option<Style>)>)
        requires
            self.wf(),
        ensures
            tree_rows(self.spec_listing(), path_views(marks@), status_views(statuses@), *config, r@.map_values(
                |row: (String, Option<Style>)| (row.0@, row.1),
            )),
    {
        proof {
            lemma_tree_wf(*self);
        }
        let shown = self.listing.iter();
        let root = self.listing.root();
        let ghost l = self.spec_listing();
        let mut r: Vec<(String, Option<Style>)> = Vec::new();
        let mut k: usize = 0;
        while k < shown.len()
            invariant
                k <= shown@.len(),
                l == self.spec_listing(),
                l.wf(),
                root@ == l.spec_root(),
                shown@.len() == l.spec_shown().len(),
                forall|q: int| 0 <= q < shown@.len() ==> (#[trigger] shown@[q]).0 as int == l.spec_shown()[q]
                    && shown@[q].1@ == l.spec_items()[l.spec_shown()[q]],
                r@.len() == k,
                forall|q: int| 0 <= q < k ==> {
                    let it = #[trigger] l.spec_items()[l.spec_shown()[q]];
                    let st = status_of(status_views(statuses@), it.path());
                    &&& r@[q].0@ == row_text(l.spec_root(), it, l.spec_folded()[l.spec_shown()[q]], st)
                    &&& r@[q].1 == row_style(it, path_views(marks@).contains(it.path()), st, *config)
                },
            decreases shown@.len() - k,
        {
            proof {
                lemma_rank_bounds(l);
            }
            let (pos, it) = shown[k];
            assert(pos as int == l.spec_shown()[k as int] && it@ == l.spec_items()[l.spec_shown()[k as int]]);
            let folded = self.listing.is_folded_at(pos);
            let status = find_status(statuses, it.path());
            let text = row_of(root, it, folded, status);
            let marked = is_marked(marks, it.path());
            let by_status = match status {
                Some(GitStatus::WorktreeNew) => Some(config.filetree.git_new_style),
                Some(GitStatus::IndexModified) => Some(config.filetree.added_style),
                Some(GitStatus::WorktreeModified) => Some(config.filetree.git_modified_style),
                _ => None,
            };
            let style = if marked {
                Some(config.filetree.marks_style)
            } else if by_status.is_some() {
                by_status
            } else if !it.is_file() {
                Some(config.filetree.dir_style)
            } else {
                None
            };
            let ghost before = r@;
            r.push((text, style));
            proof {
                assert forall|q: int| 0 <= q < k + 1 implies {
                    let it = #[trigger] l.spec_items()[l.spec_shown()[q]];
                    let st = status_of(status_views(statuses@), it.path());
                    &&& r@[q].0@ == row_text(l.spec_root(), it, l.spec_folded()[l.spec_shown()[q]], st)
                    &&& r@[q].1 == row_style(it, path_views(marks@).contains(it.path()), st, *config)
                } by {
                    if q < k {
                        assert(r@[q] == before[q]);
                    }
                }
            }
            k = k + 1;
        }
        proof {
            assert(r@.map_values(|row: (String, Option<Style>)| (row.0@, row.1)).len() == r@.len());
        }
        r
    }
}

impl Filetree {
    /// Whether `key` can be handed to `handle_key` with the bindings of `config` (see
    /// `tree_key_safe`).
    pub fn key_is_safe(&self, key: &KeyEvent, config: &Config) -> (r: bool)
        requires
            self.wf(),
        ensures
            r == tree_key_safe(*config, self.spec_focused(), self.spec_listing(), *key),
    {
        if !self.is_focused {
            return true;
        }
        self.key_is_safe_focused(key, config)
    }

    /// Whether `key` can be handed to `handle_key` once the tree has the focus.
    pub fn key_is_safe_focused(&self, key: &KeyEvent, config: &Config) -> (r: bool)
        requires
            self.wf(),
        ensures
            r == tree_key_safe(*config, true, self.spec_listing(), *key),
    {
        proof {
            lemma_tree_wf(*self);
            lemma_rank_bounds(self.spec_listing());
        }
        let l = &self.listing;
        let shown = l.len();
        let arm = key_arm(config, key, shown > 0);
        let items = l.all_items().len();
        let rank: usize = match l.selected() {
            Some(k) => k,
            None => 0,
        };
        let ghost lv = self.spec_listing();
        assert(rank == lv.rank_or_first());
        if arm == 1 {
            return items > 0;
        }
        if arm == 3 {
            let up: usize = if rank >= 1 { rank - 1 } else { 0 };
            return up == 0 || up < shown;
        }
        if arm == 5 {
            let up: usize = if rank >= 3 { rank - 3 } else { 0 };
            return up == 0 || up < shown;
        }
        if arm == 13 || arm == 14 || arm == 19 || arm == 20 {
            match l.selected() {
                None => {
                    return true;
                },
                Some(k) => {
                    if items == 0 && k == 0 {
                        return false;
                    }
                    if arm == 19 || arm == 20 {
                        return true;
                    }
                    if l.is_folded(&ItemsIndex::Number(k)).is_none() {
                        return false;
                    }
                    match l.selected_item() {
                        None => {
                            return false;
                        },
                        Some(it) => {
                            return it.path().parent().is_some();
                        },
                    }
                },
            }
        }
        true
    }
}

} // verus!
