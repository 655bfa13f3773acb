//! The file listing of the tree view: the listed entries, which directories are folded,
//! which entries a fold leaves visible, and the selection among the visible ones.

use vstd::prelude::*;
use bitvec::order::Lsb0;
use bitvec::vec::BitVec;
use crate::path::{PathBuf, PathView, path_starts_with};
use crate::items::{
    Item, ItemView, Items, ItemsIndex, ItemsIndexView, item_views, path_views, valid_inputs,
    dir_arrangement, listing_of, root_of, resolve, remove_at, run_under, has_path,
};

verus! {

/// A `bitvec` bit-vector. Verus cannot take the declaration of `BitVec` (its parameters
/// are bound by traits of `bitvec`), so it is held whole in a private field, and what it
/// holds is known only through `bits_of` and the functions below.
#[verifier::external_body]
#[derive(Debug)]
pub struct Bits {
    inner: BitVec,
}

/// The bits that a bit-vector holds, in order.
pub uninterp spec fn bits_of(v: Bits) -> Seq<bool>;

/// `BitVec::repeat`: `len` copies of `bit`. It panics when `len` passes the bit-vector's
/// limit (`usize::MAX >> 3` bits), which the bound here stays under on every platform.
#[verifier::external_body]
fn bits_repeat(bit: bool, len: usize) -> (r: Bits)
    requires
        len < 0x2000_0000,
    ensures
        bits_of(r) == Seq::new(len as nat, |_i: int| bit),
{
    Bits { inner: BitVec::<usize, Lsb0>::repeat(bit, len) }
}

/// `BitVec::len`: the number of bits.
#[verifier::external_body]
fn bits_len(v: &Bits) -> (r: usize)
    ensures
        r == bits_of(*v).len(),
{
    v.inner.len()
}

/// `BitSlice::get` with one position: the bit there, if the position is in range.
#[verifier::external_body]
fn bits_get(v: &Bits, index: usize) -> (r: Option<bool>)
    ensures
        index < bits_of(*v).len() ==> r == Some(bits_of(*v)[index as int]),
        index >= bits_of(*v).len() ==> r is None,
{
    v.inner.get(index).map(|b| *b)
}

/// `BitSlice::set`: writes `value` at `index`, which must be in range (it panics
/// otherwise).
#[verifier::external_body]
fn bits_set(v: &mut Bits, index: usize, value: bool)
    requires
        index < bits_of(*old(v)).len(),
    ensures
        bits_of(*final(v)) == bits_of(*old(v)).update(index as int, value),
{
    v.inner.set(index, value)
}

/// `BitVec::insert`: puts `value` at `index`, shifting the bits after it; `index` may be
/// the length. It panics past the length, or when the vector is at its limit.
#[verifier::external_body]
fn bits_insert(v: &mut Bits, index: usize, value: bool)
    requires
        index <= bits_of(*old(v)).len(),
        bits_of(*old(v)).len() + 1 < 0x2000_0000,
    ensures
        bits_of(*final(v)) == bits_of(*old(v)).insert(index as int, value),
{
    v.inner.insert(index, value)
}

/// `BitVec::drain` over `start..end`, with the drained bits dropped: the bits in that
/// range leave. It panics on a range outside the vector.
#[verifier::external_body]
fn bits_drain(v: &mut Bits, start: usize, end: usize)
    requires
        start <= end <= bits_of(*old(v)).len(),
    ensures
        bits_of(*final(v)) == bits_of(*old(v)).take(start as int) + bits_of(*old(v)).skip(
            end as int,
        ),
{
    drop(v.inner.drain(start..end))
}

/// `BitSlice::fill`: every bit becomes `value`.
#[verifier::external_body]
fn bits_fill(v: &mut Bits, value: bool)
    ensures
        bits_of(*final(v)) == Seq::new(bits_of(*old(v)).len(), |_i: int| value),
{
    v.inner.fill(value)
}

/// `BitSlice::not_any`: whether no bit is set.
#[verifier::external_body]
fn bits_not_any(v: &Bits) -> (r: bool)
    ensures
        r == (forall|i: int| 0 <= i < bits_of(*v).len() ==> !#[trigger] bits_of(*v)[i]),
{
    v.inner.not_any()
}

/// Whether `p` lies in (or is) the fold `fold`, when there is one.
pub open spec fn in_fold(p: PathView, fold: Option<PathView>) -> bool {
    match fold {
        Some(f) => path_starts_with(p, f),
        None => false,
    }
}

/// The fold in force at position `i` while walking the listing: the last folded entry
/// met so far that was itself shown.
pub open spec fn fold_before(s: Seq<ItemView>, folded: Seq<bool>, i: nat) -> Option<PathView>
    decreases i,
{
    if i == 0 {
        None
    } else {
        let j = (i - 1) as nat;
        let cur = fold_before(s, folded, j);
        if folded[j as int] && !in_fold(s[j as int].path(), cur) {
            Some(s[j as int].path())
        } else {
            cur
        }
    }
}

/// Whether the entry at position `i` is shown: it does not lie in the fold in force.
pub open spec fn shown(s: Seq<ItemView>, folded: Seq<bool>, i: nat) -> bool {
    !in_fold(s[i as int].path(), fold_before(s, folded, i))
}

/// The positions among the first `n` entries that are shown, in order.
pub open spec fn shown_upto(s: Seq<ItemView>, folded: Seq<bool>, n: nat) -> Seq<int>
    decreases n,
{
    if n == 0 {
        Seq::empty()
    } else {
        let j = (n - 1) as nat;
        let rest = shown_upto(s, folded, j);
        if shown(s, folded, j) {
            rest.push(j as int)
        } else {
            rest
        }
    }
}

/// The positions of all shown entries, in order.
pub open spec fn shown_positions(s: Seq<ItemView>, folded: Seq<bool>) -> Seq<int> {
    shown_upto(s, folded, s.len())
}

/// Whether the positions held by `v` are those of `t`.
pub open spec fn same_positions(v: Seq<usize>, t: Seq<int>) -> bool {
    v.len() == t.len() && forall|k: int| 0 <= k < v.len() ==> #[trigger] v[k] as int == t[k]
}

/// The positions at which `items` are shown under `folded`.
fn shown_positions_exec(items: &Items, folded: &Bits) -> (r: Vec<usize>)
    requires
        bits_of(*folded).len() == items@.items.len(),
    ensures
        same_positions(r@, shown_positions(items@.items, bits_of(*folded))),
{
    let ghost s = items@.items;
    let ghost f = bits_of(*folded);
    let list = items.items();
    let n = list.len();
    let mut out: Vec<usize> = Vec::new();
    let mut cur: Option<usize> = None;
    let mut i: usize = 0;
    while i < n
        invariant
            s == items@.items,
            f == bits_of(*folded),
            item_views(list@) == s,
            n == s.len(),
            f.len() == n,
            i <= n,
            cur matches Some(c) ==> c < i && fold_before(s, f, i as nat) == Some(s[c as int].path()),
            cur is None ==> fold_before(s, f, i as nat) is None,
            same_positions(out@, shown_upto(s, f, i as nat)),
        decreases n - i,
    {
        proof {
            assert(s[i as int] == list@[i as int]@);
        }
        let p = list[i].path();
        let under = match cur {
            Some(c) => {
                proof {
                    assert(s[c as int] == list@[c as int]@);
                }
                p.starts_with(list[c].path())
            },
            None => false,
        };
        let bit = match bits_get(folded, i) {
            Some(b) => b,
            None => false,
        };
        let ghost before = out@;
        if !under {
            out.push(i);
            if bit {
                cur = Some(i);
            }
        }
        proof {
            assert(under == in_fold(s[i as int].path(), fold_before(s, f, i as nat)));
            assert(bit == f[i as int]);
            if !under {
                assert(out@ =~= before.push(i));
            }
        }
        i = i + 1;
    }
    out
}

/// The first shown entry, by its rank among the shown ones, whose path is `p`.
pub open spec fn rank_of_path(s: Seq<ItemView>, shown: Seq<int>, p: PathView) -> Option<int>
    decreases shown.len(),
{
    if shown.len() == 0 {
        None
    } else if s[shown[0]].path() == p {
        Some(0)
    } else {
        match rank_of_path(s, shown.drop_first(), p) {
            Some(k) => Some(k + 1),
            None => None,
        }
    }
}

/// The position in the whole listing that an index of the shown entries designates: a
/// number counts the shown entries (0 is always the first entry of the listing), a path
/// is looked for among the shown entries.
pub open spec fn to_absolute(s: Seq<ItemView>, folded: Seq<bool>, index: ItemsIndexView) -> Option<int> {
    let shown = shown_positions(s, folded);
    match index {
        ItemsIndexView::Number(n) => if n == 0 {
            Some(0)
        } else if n < shown.len() {
            Some(shown[n as int])
        } else {
            None
        },
        ItemsIndexView::Path(p) => match rank_of_path(s, shown, p) {
            Some(k) => Some(shown[k]),
            None => None,
        },
    }
}

/// Whether every arrangement of the listing of `files` stays under the bit-vector limit.
pub open spec fn listing_fits(files: Seq<PathView>) -> bool {
    forall|ds: Seq<ItemView>| #[trigger] dir_arrangement(files, ds) ==> listing_of(files, ds).len() < 0x2000_0000
}

/// The shown positions among the first `n` entries rise strictly and stay below `n`; the
/// first entry is always shown.
proof fn lemma_shown_upto(s: Seq<ItemView>, folded: Seq<bool>, n: nat)
    ensures
        forall|k: int| 0 <= k < shown_upto(s, folded, n).len() ==> 0 <= #[trigger] shown_upto(s, folded, n)[k] < n,
        forall|a: int, b: int| 0 <= a < b < shown_upto(s, folded, n).len() ==> shown_upto(s, folded, n)[a] < shown_upto(s, folded, n)[b],
        shown_upto(s, folded, n).len() <= n,
        n > 0 ==> shown_upto(s, folded, n).len() > 0 && shown_upto(s, folded, n)[0] == 0,
    decreases n,
{
    if n > 0 {
        lemma_shown_upto(s, folded, (n - 1) as nat);
        if n == 1 {
            assert(fold_before(s, folded, 0) is None);
            assert(shown(s, folded, 0));
        }
    }
}

/// A rank found by path designates a shown entry with that path, and no earlier shown
/// entry has it.
pub proof fn lemma_rank_of_path(s: Seq<ItemView>, shown: Seq<int>, p: PathView)
    ensures
        rank_of_path(s, shown, p) matches Some(k) ==> 0 <= k < shown.len() && s[shown[k]].path() == p
            && forall|j: int| 0 <= j < k ==> s[#[trigger] shown[j]].path() != p,
        rank_of_path(s, shown, p) is None ==> forall|j: int| 0 <= j < shown.len() ==> s[#[trigger] shown[j]].path() != p,
    decreases shown.len(),
{
    if shown.len() > 0 {
        lemma_rank_of_path(s, shown.drop_first(), p);
        assert forall|j: int| 1 <= j < shown.len() implies #[trigger] shown[j] == shown.drop_first()[j - 1] by {}
    }
}

/// The fold in force at `j` depends only on the folds before `j`.
proof fn lemma_fold_before_same(s: Seq<ItemView>, f: Seq<bool>, g: Seq<bool>, j: nat)
    requires
        forall|m: int| 0 <= m < j ==> f[m] == g[m],
    ensures
        fold_before(s, f, j) == fold_before(s, g, j),
    decreases j,
{
    if j > 0 {
        lemma_fold_before_same(s, f, g, (j - 1) as nat);
    }
}

/// The shown positions among the first `k` entries depend only on the folds before the
/// last of them.
proof fn lemma_shown_upto_same(s: Seq<ItemView>, f: Seq<bool>, g: Seq<bool>, k: nat)
    requires
        forall|m: int| 0 <= m && m + 1 < k ==> f[m] == g[m],
    ensures
        shown_upto(s, f, k) == shown_upto(s, g, k),
    decreases k,
{
    if k > 0 {
        lemma_shown_upto_same(s, f, g, (k - 1) as nat);
        lemma_fold_before_same(s, f, g, (k - 1) as nat);
    }
}

/// The shown positions among the first `k1` entries begin those among the first `k2`;
/// the rest lie at `k1` or later.
proof fn lemma_shown_upto_extends(s: Seq<ItemView>, f: Seq<bool>, k1: nat, k2: nat)
    requires
        k1 <= k2,
    ensures
        shown_upto(s, f, k1).len() <= shown_upto(s, f, k2).len(),
        shown_upto(s, f, k2).take(shown_upto(s, f, k1).len() as int) == shown_upto(s, f, k1),
        forall|m: int| shown_upto(s, f, k1).len() <= m < shown_upto(s, f, k2).len() ==> #[trigger] shown_upto(s, f, k2)[m] >= k1,
    decreases k2,
{
    if k2 > k1 {
        lemma_shown_upto_extends(s, f, k1, (k2 - 1) as nat);
        let a = shown_upto(s, f, k1);
        let b = shown_upto(s, f, (k2 - 1) as nat);
        let c = shown_upto(s, f, k2);
        if shown(s, f, (k2 - 1) as nat) {
            assert(c == b.push(k2 - 1));
            assert(c.take(a.len() as int) =~= b.take(a.len() as int));
        } else {
            assert(c == b);
        }
    } else {
        assert(shown_upto(s, f, k2).take(shown_upto(s, f, k1).len() as int) =~= shown_upto(s, f, k1));
    }
}

/// Two sequences that agree up to the rank where the first finds `p` find it there both.
proof fn lemma_rank_of_path_prefix(s: Seq<ItemView>, a: Seq<int>, b: Seq<int>, p: PathView, k: int)
    requires
        rank_of_path(s, a, p) == Some(k),
        0 <= k < a.len(),
        k < b.len(),
        forall|j: int| 0 <= j <= k ==> a[j] == b[j],
    ensures
        rank_of_path(s, b, p) == Some(k),
    decreases k,
{
    lemma_rank_of_path(s, a, p);
    if k > 0 {
        assert(a[0] == b[0]);
        assert(s[a[0]].path() != p);
        let a1 = a.drop_first();
        let b1 = b.drop_first();
        match rank_of_path(s, a1, p) {
            Some(k1) => {
                assert(k1 == k - 1);
                assert forall|j: int| 0 <= j <= k - 1 implies a1[j] == b1[j] by {
                    assert(a[j + 1] == b[j + 1]);
                }
                lemma_rank_of_path_prefix(s, a1, b1, p, k - 1);
            },
            None => {},
        }
    } else {
        assert(a[0] == b[0]);
    }
}

/// Folding a directory keeps every index that designates it: the entries before it, and
/// it, stay shown at the same ranks.
pub proof fn lemma_fold_keeps_index(s: Seq<ItemView>, f: Seq<bool>, index: ItemsIndexView, i: int)
    requires
        f.len() == s.len(),
        to_absolute(s, f, index) == Some(i),
        0 <= i < s.len(),
    ensures
        to_absolute(s, f.update(i, true), index) == Some(i),
{
    let g = f.update(i, true);
    let n = s.len();
    let i1 = (i + 1) as nat;
    assert forall|m: int| 0 <= m && m + 1 < i1 implies f[m] == g[m] by {}
    lemma_shown_upto_same(s, f, g, i1);
    lemma_shown_upto_extends(s, f, i1, n);
    lemma_shown_upto_extends(s, g, i1, n);
    lemma_shown_upto(s, f, n);
    lemma_shown_upto(s, g, n);
    lemma_shown_upto(s, f, i1);
    let pre = shown_upto(s, f, i1);
    let sf = shown_positions(s, f);
    let sg = shown_positions(s, g);
    assert(sf.take(pre.len() as int) == pre);
    assert(sg.take(pre.len() as int) == pre);
    assert forall|j: int| 0 <= j < pre.len() implies #[trigger] sf[j] == sg[j] by {
        assert(sf.take(pre.len() as int)[j] == sg.take(pre.len() as int)[j]);
    }
    match index {
        ItemsIndexView::Number(k) => {
            if k != 0 {
                assert(sf[k as int] == i);
                if k >= pre.len() {
                    assert(sf[k as int] >= i1);
                }
                assert(sg[k as int] == i);
            }
        },
        ItemsIndexView::Path(p) => {
            lemma_rank_of_path(s, sf, p);
            match rank_of_path(s, sf, p) {
                Some(k) => {
                    assert(sf[k] == i);
                    if k >= pre.len() {
                        assert(sf[k] >= i1);
                    }
                    lemma_rank_of_path_prefix(s, sf, sg, p, k);
                },
                None => {},
            }
        },
    }
}

/// Folding a directory and then unfolding it by the same index restores the folds: the
/// index still designates the directory, so the fold flag goes back.
pub proof fn lemma_unfold_undoes_fold(s: Seq<ItemView>, f: Seq<bool>, index: ItemsIndexView, i: int)
    requires
        f.len() == s.len(),
        to_absolute(s, f, index) == Some(i),
        0 <= i < s.len(),
        s[i] is Dir,
        !f[i],
    ensures
        to_absolute(s, f.update(i, true), index) == Some(i),
        f.update(i, true).update(i, false) == f,
{
    lemma_fold_keeps_index(s, f, index, i);
    assert(f.update(i, true).update(i, false) =~= f);
}

/// Why a change of the listing was refused.
#[derive(Debug, PartialEq, Eq, Clone, Copy)]
pub enum ListingError {
    /// The entry to remove is not listed.
    InvalidRemoveTarget,
    /// The entry to fold under is not shown.
    InvalidFoldUnderTarget,
    /// The entry to unfold under is not shown.
    InvalidUnfoldUnderTarget,
}

/// No entry among the first `j + 1` has path `p`.
pub open spec fn no_path_upto(s: Seq<ItemView>, p: PathView, j: int) -> bool {
    forall|k: int| 0 <= k <= j ==> (#[trigger] s[k]).path() != p
}

/// The folds after opening the way to `p`: every directory that holds `p` and comes
/// before the first entry with path `p` is unfolded.
pub open spec fn opened_toward(s: Seq<ItemView>, folded: Seq<bool>, p: PathView) -> Seq<bool> {
    Seq::new(
        folded.len(),
        |j: int| if no_path_upto(s, p, j) && path_starts_with(p, s[j].path()) { false } else { folded[j] },
    )
}

/// The run of entries from position `i` on that lie in (or are) the entry at `i`.
pub open spec fn in_run(s: Seq<ItemView>, i: int, j: int) -> bool {
    i <= j < i + run_under(s.skip(i), s[i].path())
}

/// The folds after setting every directory in the run from `i` to `value`.
pub open spec fn set_run(s: Seq<ItemView>, folded: Seq<bool>, i: int, value: bool) -> Seq<bool> {
    Seq::new(folded.len(), |j: int| if in_run(s, i, j) && s[j] is Dir { value } else { folded[j] })
}

/// Whether some directory in the run from `i` is folded.
pub open spec fn run_has_fold(s: Seq<ItemView>, folded: Seq<bool>, i: int) -> bool {
    exists|j: int| 0 <= j < s.len() && #[trigger] in_run(s, i, j) && s[j] is Dir && folded[j]
}

/// A run of entries never passes the end.
proof fn lemma_run_under_len(t: Seq<ItemView>, p: PathView)
    ensures
        run_under(t, p) <= t.len(),
    decreases t.len(),
{
    if t.len() > 0 && path_starts_with(t[0].path(), p) {
        lemma_run_under_len(t.skip(1), p);
    }
}

/// A run covers a sequence whose entries all lie in `p`.
proof fn lemma_run_under_all(t: Seq<ItemView>, p: PathView)
    requires
        forall|m: int| 0 <= m < t.len() ==> path_starts_with((#[trigger] t[m]).path(), p),
    ensures
        run_under(t, p) == t.len(),
    decreases t.len(),
{
    if t.len() > 0 {
        assert forall|m: int| 0 <= m < t.skip(1).len() implies path_starts_with((#[trigger] t.skip(1)[m]).path(), p) by {
            assert(t.skip(1)[m] == t[m + 1]);
        }
        lemma_run_under_all(t.skip(1), p);
    }
}

/// The run from `i` grows one entry at a time while the entries lie in the entry at `i`.
proof fn lemma_run_under_step(t: Seq<ItemView>, p: PathView, k: int)
    requires
        0 <= k < t.len(),
        forall|m: int| 0 <= m < k ==> path_starts_with((#[trigger] t[m]).path(), p),
    ensures
        path_starts_with(t[k].path(), p) ==> run_under(t, p) > k,
        !path_starts_with(t[k].path(), p) ==> run_under(t, p) == k,
    decreases k,
{
    if k > 0 {
        assert forall|m: int| 0 <= m < k - 1 implies path_starts_with((#[trigger] t.skip(1)[m]).path(), p) by {
            assert(t.skip(1)[m] == t[m + 1]);
        }
        assert(t.skip(1)[k - 1] == t[k]);
        lemma_run_under_step(t.skip(1), p, k - 1);
        assert(path_starts_with(t[0].path(), p));
    }
}

/// The tree view's listing: the entries, which directories are folded, the selected
/// entry (by its position in the whole listing) and the selection's rank among the shown
/// entries.
#[derive(Debug)]
pub struct FileListing {
    items: Items,
    selected: usize,
    folded: Bits,
    cache: Vec<usize>,
    selected_cache: Option<usize>,
}

impl FileListing {
    /// The listed entries.
    pub closed spec fn spec_items(&self) -> Seq<ItemView> {
        self.items@.items
    }

    /// The root of the listing.
    pub closed spec fn spec_root(&self) -> PathView {
        self.items@.root
    }

    /// Which entries are folded.
    pub closed spec fn spec_folded(&self) -> Seq<bool> {
        bits_of(self.folded)
    }

    /// The selected position in the whole listing.
    pub closed spec fn spec_selected(&self) -> nat {
        self.selected as nat
    }

    /// The selection's rank among the shown entries, if any.
    pub closed spec fn spec_rank(&self) -> Option<nat> {
        match self.selected_cache {
            Some(k) => Some(k as nat),
            None => None,
        }
    }

    /// The positions of the shown entries.
    pub open spec fn spec_shown(&self) -> Seq<int> {
        shown_positions(self.spec_items(), self.spec_folded())
    }

    /// The rank from which relative moves start.
    pub open spec fn rank_or_first(&self) -> nat {
        match self.spec_rank() {
            Some(k) => k,
            None => 0,
        }
    }

    /// One fold flag per entry, the entries under the bit-vector limit, and the shown
    /// positions kept up to date.
    pub closed spec fn wf(&self) -> bool {
        &&& bits_of(self.folded).len() == self.items@.items.len()
        &&& self.items@.items.len() < 0x2000_0000
        &&& same_positions(self.cache@, shown_positions(self.items@.items, bits_of(self.folded)))
    }

    /// Lists `files` (see `Items::new`) with nothing folded and the first entry selected.
    pub fn new(files: &[PathBuf]) -> (r: FileListing)
        requires
            valid_inputs(path_views(files@)),
            listing_fits(path_views(files@)),
        ensures
            r.wf(),
            r.spec_root() == root_of(path_views(files@)),
            exists|ds: Seq<ItemView>|
                dir_arrangement(path_views(files@), ds) && r.spec_items() == #[trigger] listing_of(
                    path_views(files@),
                    ds,
                ),
            r.spec_folded() == Seq::new(r.spec_items().len(), |_i: int| false),
            r.spec_selected() == 0,
            r.spec_rank() == Some(0nat),
    {
        let items = Items::new(files);
        let len = items.len();
        proof {
            let ds = choose|ds: Seq<ItemView>|
                dir_arrangement(path_views(files@), ds) && items@.items == #[trigger] listing_of(
                    path_views(files@),
                    ds,
                );
            assert(listing_of(path_views(files@), ds).len() < 0x2000_0000);
        }
        let folded = bits_repeat(false, len);
        let cache = shown_positions_exec(&items, &folded);
        FileListing { items, selected: 0, folded, cache, selected_cache: Some(0) }
    }

    /// The listed entries, in order, folded or not.
    pub fn all_items(&self) -> (r: &[Item])
        ensures
            item_views(r@) == self.spec_items(),
    {
        self.items.items()
    }

    /// The root of the listing.
    pub fn root(&self) -> (r: &PathBuf)
        ensures
            r@ == self.spec_root(),
    {
        self.items.root()
    }

    /// The fold flags, one per entry.
    pub fn folded(&self) -> (r: Vec<bool>)
        requires
            self.wf(),
        ensures
            r@ == self.spec_folded(),
    {
        let n = bits_len(&self.folded);
        let mut out: Vec<bool> = Vec::new();
        let mut i: usize = 0;
        while i < n
            invariant
                n == bits_of(self.folded).len(),
                i <= n,
                out@ == bits_of(self.folded).take(i as int),
            decreases n - i,
        {
            let b = match bits_get(&self.folded, i) {
                Some(b) => b,
                None => false,
            };
            out.push(b);
            proof {
                assert(bits_of(self.folded).take(i as int + 1) =~= bits_of(self.folded).take(i as int).push(b));
            }
            i = i + 1;
        }
        proof {
            assert(bits_of(self.folded).take(n as int) =~= bits_of(self.folded));
        }
        out
    }

    /// The number of shown entries.
    pub fn len(&self) -> (r: usize)
        requires
            self.wf(),
        ensures
            r == self.spec_shown().len(),
    {
        self.cache.len()
    }

    /// Whether no entry is shown.
    pub fn is_empty(&self) -> (r: bool)
        requires
            self.wf(),
        ensures
            r == (self.spec_shown().len() == 0),
    {
        self.cache.len() == 0
    }

    /// The selection's rank among the shown entries.
    pub fn selected(&self) -> (r: Option<usize>)
        ensures
            r matches Some(k) ==> self.spec_rank() == Some(k as nat),
            r is None <==> self.spec_rank() is None,
    {
        self.selected_cache
    }

    /// The number of entries that removing the entry `index` designates in the whole
    /// listing would leave; none when it designates no entry.
    pub fn len_after_remove(&self, index: &ItemsIndex) -> (r: Option<usize>)
        ensures
            match resolve(self.spec_items(), index@) {
                Some(i) if 0 <= i < self.spec_items().len() => r matches Some(n) && n == remove_at(self.spec_items(), i).len(),
                _ => r is None,
            },
    {
        self.items.len_after_remove(index)
    }

    /// The selected position in the whole listing.
    pub fn selected_position(&self) -> (r: usize)
        ensures
            r == self.spec_selected(),
    {
        self.selected
    }

    /// The selected entry, by its position in the whole listing.
    pub fn selected_item(&self) -> (r: Option<&Item>)
        ensures
            self.spec_selected() < self.spec_items().len() ==> (r matches Some(it) && it@
                == self.spec_items()[self.spec_selected() as int]),
            self.spec_selected() >= self.spec_items().len() ==> r is None,
    {
        self.items.get(&ItemsIndex::Number(self.selected))
    }

    /// The position in the whole listing that `index` designates (see `to_absolute`).
    fn relative_to_absolute(&self, index: &ItemsIndex) -> (r: Option<usize>)
        requires
            self.wf(),
        ensures
            r matches Some(i) ==> to_absolute(self.spec_items(), self.spec_folded(), index@) == Some(i as int),
            r is None <==> to_absolute(self.spec_items(), self.spec_folded(), index@) is None,
            r matches Some(i) ==> (i < self.spec_items().len() || i == 0),
    {
        let ghost s = self.spec_items();
        let ghost f = self.spec_folded();
        let ghost shown = shown_positions(s, f);
        proof {
            lemma_shown_upto(s, f, s.len());
        }
        match index {
            ItemsIndex::Number(n) => {
                if *n == 0 {
                    Some(0)
                } else if *n < self.cache.len() {
                    Some(self.cache[*n])
                } else {
                    None
                }
            },
            ItemsIndex::Path(p) => {
                let list = self.items.items();
                let mut k: usize = 0;
                proof {
                    lemma_rank_of_path(s, shown, p@);
                }
                while k < self.cache.len()
                    invariant
                        index@ == ItemsIndexView::Path(p@),
                        self.wf(),
                        s == self.spec_items(),
                        f == self.spec_folded(),
                        shown == shown_positions(s, f),
                        item_views(list@) == s,
                        k <= shown.len(),
                        forall|j: int| 0 <= j < k ==> s[#[trigger] shown[j]].path() != p@,
                        forall|j: int| 0 <= j < shown.len() ==> 0 <= #[trigger] shown[j] < s.len(),
                        rank_of_path(s, shown, p@) matches Some(r) ==> 0 <= r < shown.len() && s[shown[r]].path() == p@
                            && forall|j: int| 0 <= j < r ==> s[#[trigger] shown[j]].path() != p@,
                        rank_of_path(s, shown, p@) is None ==> forall|j: int| 0 <= j < shown.len() ==> s[#[trigger] shown[j]].path() != p@,
                    decreases self.cache@.len() - k,
                {
                    let i = self.cache[k];
                    proof {
                        assert(i as int == shown[k as int]);
                        assert(s[i as int] == list@[i as int]@);
                    }
                    if list[i].path().same(p) {
                        proof {
                            assert(s[shown[k as int]].path() == p@);
                            match rank_of_path(s, shown, p@) {
                                Some(r) => {
                                    if r < k {
                                        assert(s[shown[r]].path() != p@);
                                    }
                                    if r > k {
                                        assert(s[shown[k as int]].path() != p@);
                                    }
                                    assert(r == k);
                                },
                                None => {
                                    assert(s[shown[k as int]].path() != p@);
                                },
                            }
                            assert(index@ == ItemsIndexView::Path(p@));
                            assert(rank_of_path(s, shown, p@) == Some(k as int));
                            assert(to_absolute(s, f, index@) == Some(i as int));
                        }
                        return Some(i);
                    }
                    k = k + 1;
                }
                None
            },
        }
    }
}

impl FileListing {
    /// Brings the shown positions up to date with the entries and folds.
    fn refresh_cache(&mut self)
        requires
            bits_of(old(self).folded).len() == old(self).items@.items.len(),
            old(self).items@.items.len() < 0x2000_0000,
        ensures
            final(self).wf(),
            final(self).items@ == old(self).items@,
            final(self).folded == old(self).folded,
            final(self).selected == old(self).selected,
            final(self).selected_cache == old(self).selected_cache,
    {
        self.cache = shown_positions_exec(&self.items, &self.folded);
    }

    /// Folds the directory that `index` designates among the shown entries (see
    /// `to_absolute`) and returns its position; a file stays as it is, and its position is
    /// returned all the same. Nothing changes when `index` designates nothing.
    pub fn fold(&mut self, index: &ItemsIndex) -> (r: Option<usize>)
        requires
            old(self).wf(),
            old(self).spec_items().len() > 0 || index@ != ItemsIndexView::Number(0),
        ensures
            final(self).wf(),
            final(self).spec_items() == old(self).spec_items(),
            final(self).spec_root() == old(self).spec_root(),
            final(self).spec_selected() == old(self).spec_selected(),
            final(self).spec_rank() == old(self).spec_rank(),
            match to_absolute(old(self).spec_items(), old(self).spec_folded(), index@) {
                Some(i) => r == Some(i as usize) && final(self).spec_folded() == (if old(self).spec_items()[i].is_file() {
                    old(self).spec_folded()
                } else {
                    old(self).spec_folded().update(i, true)
                }),
                None => r is None && final(self).spec_folded() == old(self).spec_folded(),
            },
    {
        let idx = match self.relative_to_absolute(index) {
            Some(i) => i,
            None => return None,
        };
        let list = self.items.items();
        proof {
            assert(self.spec_items()[idx as int] == list@[idx as int]@);
        }
        if list[idx].is_file() {
            return Some(idx);
        }
        bits_set(&mut self.folded, idx, true);
        self.refresh_cache();
        Some(idx)
    }

    /// Unfolds the entry that `index` designates among the shown entries and returns its
    /// position; nothing changes when `index` designates nothing, or position 0 of an
    /// empty listing.
    pub fn unfold(&mut self, index: &ItemsIndex) -> (r: Option<usize>)
        requires
            old(self).wf(),
        ensures
            final(self).wf(),
            final(self).spec_items() == old(self).spec_items(),
            final(self).spec_root() == old(self).spec_root(),
            final(self).spec_selected() == old(self).spec_selected(),
            final(self).spec_rank() == old(self).spec_rank(),
            match to_absolute(old(self).spec_items(), old(self).spec_folded(), index@) {
                Some(i) if i < old(self).spec_items().len() => r == Some(i as usize)
                    && final(self).spec_folded() == old(self).spec_folded().update(i, false),
                _ => r is None && final(self).spec_folded() == old(self).spec_folded(),
            },
    {
        let idx = match self.relative_to_absolute(index) {
            Some(i) => i,
            None => return None,
        };
        if idx >= bits_len(&self.folded) {
            return None;
        }
        bits_set(&mut self.folded, idx, false);
        self.refresh_cache();
        Some(idx)
    }

    /// Folds the selected directory when it is unfolded, and unfolds it when it is
    /// folded; nothing changes when no directory is selected.
    pub fn toggle_fold(&mut self)
        requires
            old(self).wf(),
        ensures
            refolded(*old(self), *final(self), toggled(*old(self))),
    {
        match self.items.get(&ItemsIndex::Number(self.selected)) {
            None => return,
            Some(it) => {
                if it.is_file() {
                    return;
                }
            },
        }
        let current = match bits_get(&self.folded, self.selected) {
            Some(b) => b,
            None => false,
        };
        bits_set(&mut self.folded, self.selected, !current);
        self.refresh_cache();
    }

    /// Whether the entry that `index` designates among the shown entries is folded.
    pub fn is_folded(&self, index: &ItemsIndex) -> (r: Option<bool>)
        requires
            self.wf(),
            self.spec_items().len() > 0 || index@ != ItemsIndexView::Number(0),
        ensures
            match to_absolute(self.spec_items(), self.spec_folded(), index@) {
                Some(i) => r == Some(self.spec_folded()[i]),
                None => r is None,
            },
    {
        let idx = match self.relative_to_absolute(index) {
            Some(i) => i,
            None => return None,
        };
        bits_get(&self.folded, idx)
    }

    /// Whether the entry at position `pos` of the whole listing is folded.
    pub fn is_folded_at(&self, pos: usize) -> (r: bool)
        requires
            self.wf(),
            pos < self.spec_items().len(),
        ensures
            r == self.spec_folded()[pos as int],
    {
        proof {
            lemma_rank_bounds(*self);
        }
        match bits_get(&self.folded, pos) {
            Some(b) => b,
            None => false,
        }
    }

    /// Selects the first entry.
    pub fn select_first(&mut self)
        requires
            old(self).wf(),
        ensures
            first_effect(*old(self), *final(self)),
    {
        self.selected = 0;
        self.selected_cache = Some(0);
    }

    /// Selects by the number of shown entries: the rank of the last shown entry, taken
    /// as both the rank and the position in the whole listing.
    pub fn select_last(&mut self)
        requires
            old(self).wf(),
            old(self).spec_items().len() > 0,
        ensures
            last_effect(*old(self), *final(self)),
    {
        proof {
            lemma_shown_upto(self.spec_items(), self.spec_folded(), self.spec_items().len());
        }
        let last = self.cache.len() - 1;
        self.selected = last;
        self.selected_cache = Some(last);
    }

    /// Moves the selection `n` shown entries down, stopping at the last one.
    pub fn select_next_n(&mut self, n: usize)
        requires
            old(self).wf(),
            old(self).spec_items().len() > 0,
            old(self).rank_or_first() + n <= usize::MAX,
        ensures
            next_effect(*old(self), *final(self), n as nat),
    {
        proof {
            lemma_shown_upto(self.spec_items(), self.spec_folded(), self.spec_items().len());
        }
        let base = match self.selected_cache {
            Some(k) => k,
            None => 0,
        };
        let target = base + n;
        if target < self.cache.len() {
            self.selected = self.cache[target];
            self.selected_cache = Some(target);
        } else {
            let last = self.cache.len() - 1;
            self.selected = match self.relative_to_absolute(&ItemsIndex::Number(last)) {
                Some(i) => i,
                None => 0,
            };
            self.selected_cache = Some(last);
        }
    }

    /// Moves the selection `n` shown entries up, stopping at the first one.
    pub fn select_prev_n(&mut self, n: usize)
        requires
            old(self).wf(),
            up_ok(*old(self), n as nat),
        ensures
            prev_effect(*old(self), *final(self), n as nat),
    {
        let base = match self.selected_cache {
            Some(k) => k,
            None => 0,
        };
        let new = if base >= n { base - n } else { 0 };
        self.selected = match self.relative_to_absolute(&ItemsIndex::Number(new)) {
            Some(i) => i,
            None => 0,
        };
        self.selected_cache = Some(new);
    }

    /// Moves the selection one shown entry down, stopping at the last one.
    pub fn select_next(&mut self)
        requires
            old(self).wf(),
            old(self).spec_items().len() > 0,
            old(self).rank_or_first() + 1 <= usize::MAX,
        ensures
            next_effect(*old(self), *final(self), 1),
    {
        self.select_next_n(1);
    }

    /// Moves the selection one shown entry up, stopping at the first one.
    pub fn select_prev(&mut self)
        requires
            old(self).wf(),
            up_ok(*old(self), 1),
        ensures
            prev_effect(*old(self), *final(self), 1),
    {
        self.select_prev_n(1);
    }

    /// Folds every directory.
    pub fn fold_all(&mut self)
        requires
            old(self).wf(),
        ensures
            refolded(*old(self), *final(self), all_folded(*old(self))),
    {
        let ghost s = self.spec_items();
        let ghost f0 = self.spec_folded();
        let list = self.items.items();
        let n = list.len();
        let mut i: usize = 0;
        while i < n
            invariant
                s == self.items@.items,
                self.items@ == old(self).items@,
                self.selected == old(self).selected,
                self.selected_cache == old(self).selected_cache,
                item_views(list@) == s,
                n == s.len(),
                i <= n,
                f0.len() == n,
                bits_of(self.folded).len() == n,
                s.len() < 0x2000_0000,
                forall|j: int| 0 <= j < i ==> #[trigger] bits_of(self.folded)[j] == (if s[j] is Dir { true } else { f0[j] }),
                forall|j: int| i <= j < n ==> #[trigger] bits_of(self.folded)[j] == f0[j],
            decreases n - i,
        {
            proof {
                assert(s[i as int] == list@[i as int]@);
            }
            if !list[i].is_file() {
                bits_set(&mut self.folded, i, true);
            }
            i = i + 1;
        }
        proof {
            assert(bits_of(self.folded) =~= Seq::new(s.len(), |j: int| if s[j] is Dir { true } else { f0[j] }));
        }
        self.refresh_cache();
    }

    /// Unfolds everything, or, when nothing is folded, folds every directory.
    pub fn unfold_all(&mut self)
        requires
            old(self).wf(),
        ensures
            refolded(*old(self), *final(self), all_unfolded(*old(self))),
    {
        if bits_not_any(&self.folded) {
            self.fold_all();
            return;
        }
        bits_fill(&mut self.folded, false);
        self.refresh_cache();
    }
}

impl FileListing {
    /// The rank among the shown entries of the first shown entry with path `p`.
    fn rank_in_shown(&self, p: &PathBuf) -> (r: Option<usize>)
        requires
            self.wf(),
        ensures
            r matches Some(k) ==> rank_of_path(self.spec_items(), self.spec_shown(), p@) == Some(k as int),
            r is None <==> rank_of_path(self.spec_items(), self.spec_shown(), p@) is None,
    {
        let ghost s = self.spec_items();
        let ghost shown = self.spec_shown();
        proof {
            lemma_shown_upto(s, self.spec_folded(), s.len());
            lemma_rank_of_path(s, shown, p@);
        }
        let list = self.items.items();
        let mut k: usize = 0;
        while k < self.cache.len()
            invariant
                self.wf(),
                s == self.spec_items(),
                shown == self.spec_shown(),
                item_views(list@) == s,
                k <= shown.len(),
                forall|j: int| 0 <= j < k ==> s[#[trigger] shown[j]].path() != p@,
                forall|j: int| 0 <= j < shown.len() ==> 0 <= #[trigger] shown[j] < s.len(),
                rank_of_path(s, shown, p@) matches Some(r) ==> 0 <= r < shown.len() && s[shown[r]].path() == p@
                    && forall|j: int| 0 <= j < r ==> s[#[trigger] shown[j]].path() != p@,
                rank_of_path(s, shown, p@) is None ==> forall|j: int| 0 <= j < shown.len() ==> s[#[trigger] shown[j]].path() != p@,
            decreases self.cache@.len() - k,
        {
            let i = self.cache[k];
            proof {
                assert(i as int == shown[k as int]);
                assert(s[i as int] == list@[i as int]@);
            }
            if list[i].path().same(p) {
                proof {
                    assert(s[shown[k as int]].path() == p@);
                    match rank_of_path(s, shown, p@) {
                        Some(r) => {
                            if r < k {
                                assert(s[shown[r]].path() != p@);
                            }
                            if r > k {
                                assert(s[shown[k as int]].path() != p@);
                            }
                        },
                        None => {
                            assert(s[shown[k as int]].path() != p@);
                        },
                    }
                }
                return Some(k);
            }
            k = k + 1;
        }
        None
    }

    /// Unfolds every directory that holds `p` and comes before the first entry with
    /// path `p`.
    fn open_toward(&mut self, p: &PathBuf)
        requires
            old(self).wf(),
        ensures
            final(self).wf(),
            final(self).items@ == old(self).items@,
            final(self).selected == old(self).selected,
            final(self).selected_cache == old(self).selected_cache,
            final(self).spec_folded() == opened_toward(old(self).spec_items(), old(self).spec_folded(), p@),
    {
        let ghost s = self.spec_items();
        let ghost f0 = self.spec_folded();
        let list = self.items.items();
        let n = list.len();
        let mut i: usize = 0;
        while i < n && !list[i].path().same(p)
            invariant
                s == self.items@.items,
                self.items@ == old(self).items@,
                self.selected == old(self).selected,
                self.selected_cache == old(self).selected_cache,
                item_views(list@) == s,
                n == s.len(),
                i <= n,
                f0.len() == n,
                bits_of(self.folded).len() == n,
                s.len() < 0x2000_0000,
                forall|k: int| 0 <= k < i ==> (#[trigger] s[k]).path() != p@,
                forall|j: int| 0 <= j < i ==> #[trigger] bits_of(self.folded)[j] == (if path_starts_with(p@, s[j].path()) {
                    false
                } else {
                    f0[j]
                }),
                forall|j: int| i <= j < n ==> #[trigger] bits_of(self.folded)[j] == f0[j],
            decreases n - i,
        {
            proof {
                assert(s[i as int] == list@[i as int]@);
            }
            if p.starts_with(list[i].path()) {
                bits_set(&mut self.folded, i, false);
            }
            i = i + 1;
        }
        proof {
            if i < n {
                assert(s[i as int] == list@[i as int]@);
                assert(s[i as int].path() == p@);
            }
            assert forall|j: int| 0 <= j < n implies #[trigger] bits_of(self.folded)[j] == opened_toward(s, f0, p@)[j] by {
                if j < i {
                    assert(no_path_upto(s, p@, j));
                } else {
                    if i < n {
                        assert(!no_path_upto(s, p@, j));
                    }
                }
            }
            assert(bits_of(self.folded) =~= opened_toward(s, f0, p@));
        }
        self.refresh_cache();
    }

    /// Selects the entry that `index` designates among the shown entries and returns
    /// it. A path first unfolds the directories that lead to it; the selection's rank
    /// becomes the number given, or the rank of the first shown entry with the path,
    /// even when nothing is then selected.
    pub fn select(&mut self, index: &ItemsIndex) -> (r: Option<&Item>)
        requires
            old(self).wf(),
            old(self).spec_items().len() > 0 || index@ != ItemsIndexView::Number(0),
        ensures
            selected_by(*old(self), *final(self), index@, r is Some),
            r matches Some(it) ==> it@ == old(self).spec_items()[final(self).spec_selected() as int],
    {
        match index {
            ItemsIndex::Path(p) => {
                self.open_toward(p);
            },
            ItemsIndex::Number(_) => {},
        }
        self.selected_cache = match index {
            ItemsIndex::Number(n) => Some(*n),
            ItemsIndex::Path(p) => self.rank_in_shown(p),
        };
        let idx = match self.relative_to_absolute(index) {
            Some(i) => i,
            None => return None,
        };
        self.selected = idx;
        let list = self.items.items();
        proof {
            assert(self.spec_items()[idx as int] == list@[idx as int]@);
        }
        Some(&list[idx])
    }

    /// Sets every directory in the run from `i` (the entries that lie in the entry at
    /// `i`) to `value`; returns whether one of them was folded before.
    fn set_run_exec(&mut self, i: usize, value: bool) -> (had_fold: bool)
        requires
            old(self).wf(),
            i < old(self).spec_items().len(),
        ensures
            final(self).wf(),
            final(self).items@ == old(self).items@,
            final(self).selected == old(self).selected,
            final(self).selected_cache == old(self).selected_cache,
            final(self).spec_folded() == set_run(old(self).spec_items(), old(self).spec_folded(), i as int, value),
            had_fold == run_has_fold(old(self).spec_items(), old(self).spec_folded(), i as int),
    {
        let ghost s = self.spec_items();
        let ghost f0 = self.spec_folded();
        let ghost t = s.skip(i as int);
        let list = self.items.items();
        let n = list.len();
        proof {
            assert(s[i as int] == list@[i as int]@);
            lemma_run_under_len(t, s[i as int].path());
        }
        let target = list[i].path();
        let mut j: usize = i;
        let mut had_fold = false;
        while j < n && list[j].path().starts_with(target)
            invariant
                s == self.items@.items,
                self.items@ == old(self).items@,
                self.selected == old(self).selected,
                self.selected_cache == old(self).selected_cache,
                item_views(list@) == s,
                t == s.skip(i as int),
                n == s.len(),
                i < n,
                i <= j <= n,
                target@ == s[i as int].path(),
                f0.len() == n,
                bits_of(self.folded).len() == n,
                s.len() < 0x2000_0000,
                forall|m: int| i <= m < j ==> path_starts_with((#[trigger] s[m]).path(), target@),
                forall|m: int| i <= m < j ==> #[trigger] bits_of(self.folded)[m] == (if s[m] is Dir { value } else { f0[m] }),
                forall|m: int| 0 <= m < i || j <= m < n ==> #[trigger] bits_of(self.folded)[m] == f0[m],
                had_fold == exists|m: int| i <= m < j && (#[trigger] s[m]) is Dir && f0[m],
            decreases n - j,
        {
            proof {
                assert(s[j as int] == list@[j as int]@);
            }
            if !list[j].is_file() {
                let before = match bits_get(&self.folded, j) {
                    Some(b) => b,
                    None => false,
                };
                if before {
                    had_fold = true;
                }
                bits_set(&mut self.folded, j, value);
            }
            j = j + 1;
        }
        proof {
            let run = run_under(t, target@);
            assert forall|m: int| 0 <= m < j - i implies path_starts_with((#[trigger] t[m]).path(), target@) by {
                assert(t[m] == s[m + i]);
            }
            if j < n {
                assert(s[j as int] == list@[j as int]@);
                assert(t[j - i] == s[j as int]);
                lemma_run_under_step(t, target@, j - i);
                assert(run == j - i);
            } else {
                lemma_run_under_all(t, target@);
                assert(run == j - i);
            }
            assert forall|m: int| 0 <= m < n implies #[trigger] bits_of(self.folded)[m] == set_run(s, f0, i as int, value)[m] by {
                assert(in_run(s, i as int, m) == (i <= m < j));
            }
            assert(bits_of(self.folded) =~= set_run(s, f0, i as int, value));
            assert(had_fold == run_has_fold(s, f0, i as int)) by {
                if had_fold {
                    let m = choose|m: int| i <= m < j && (#[trigger] s[m]) is Dir && f0[m];
                    assert(in_run(s, i as int, m));
                }
                if run_has_fold(s, f0, i as int) {
                    let m = choose|m: int| 0 <= m < s.len() && #[trigger] in_run(s, i as int, m) && s[m] is Dir && f0[m];
                    assert(i <= m < j);
                }
            }
        }
        self.refresh_cache();
        had_fold
    }
}

impl FileListing {
    /// Folds every directory in the run of the entry that `index` designates among the
    /// shown entries: the entries from it on that lie in it.
    pub fn fold_under(&mut self, index: &ItemsIndex) -> (r: Result<(), ListingError>)
        requires
            old(self).wf(),
            old(self).spec_items().len() > 0 || index@ != ItemsIndexView::Number(0),
        ensures
            fold_under_effect(*old(self), *final(self), index@, r),
    {
        let idx = match self.relative_to_absolute(index) {
            Some(i) => i,
            None => return Err(ListingError::InvalidFoldUnderTarget),
        };
        let _ = self.set_run_exec(idx, true);
        Ok(())
    }

    /// Unfolds every directory in the run of the entry that `index` designates among the
    /// shown entries; when none of them was folded, folds them instead (through the
    /// first shown entry with that entry's path).
    pub fn unfold_under(&mut self, index: &ItemsIndex) -> (r: Result<(), ListingError>)
        requires
            old(self).wf(),
            old(self).spec_items().len() > 0 || index@ != ItemsIndexView::Number(0),
        ensures
            unfold_under_effect(*old(self), *final(self), index@, r),
    {
        let ghost s = self.spec_items();
        let ghost f = self.spec_folded();
        let idx = match self.relative_to_absolute(index) {
            Some(i) => i,
            None => return Err(ListingError::InvalidUnfoldUnderTarget),
        };
        let had_fold = self.set_run_exec(idx, false);
        if !had_fold {
            proof {
                assert(set_run(s, f, idx as int, false) =~= f) by {
                    assert forall|j: int| 0 <= j < f.len() implies #[trigger] set_run(s, f, idx as int, false)[j] == f[j] by {
                        if in_run(s, idx as int, j) && s[j] is Dir && f[j] {
                            assert(run_has_fold(s, f, idx as int));
                        }
                    }
                }
            }
            let list = self.items.items();
            proof {
                assert(s[idx as int] == list@[idx as int]@);
            }
            let target = ItemsIndex::Path(list[idx].path().duplicate());
            return self.fold_under(&target);
        }
        Ok(())
    }

    /// Appends `item` with its fold flag (set for a directory), unless an entry with its
    /// path is listed already.
    pub fn add(&mut self, item: Item)
        requires
            old(self).wf(),
            old(self).spec_items().len() + 1 < 0x2000_0000,
        ensures
            added(*old(self), *final(self), item@),
    {
        let is_dir = !item.is_file();
        let n = self.items.len();
        let added = self.items.add(item).is_some();
        if added {
            bits_insert(&mut self.folded, n, is_dir);
            proof {
                assert(bits_of(old(self).folded).insert(n as int, is_dir) =~= bits_of(old(self).folded).push(is_dir));
            }
        }
        self.refresh_cache();
    }

    /// Removes the entry that `index` designates in the whole listing (a directory with
    /// the entries below it that directly follow it), with their fold flags; a selection
    /// past the end moves to the last entry, and a rank past the shown entries to the last
    /// of them. Fails when `index` designates no entry.
    pub fn remove(&mut self, index: &ItemsIndex) -> (r: Result<(), ListingError>)
        requires
            old(self).wf(),
        ensures
            removed(*old(self), *final(self), index@, r),
    {
        let ghost s = self.spec_items();
        let pos = self.items.resolve_index(index);
        let old_len = self.items.len();
        let removed = self.items.remove(index).is_some();
        if !removed {
            return Err(ListingError::InvalidRemoveTarget);
        }
        let i = match pos {
            Some(i) => i,
            None => 0,
        };
        let new_len = self.items.len();
        proof {
            let rest = s.skip(i as int + 1);
            if s[i as int] is Dir {
                lemma_run_under_len(rest, s[i as int].path());
            }
            assert(remove_at(s, i as int).len() <= s.len() - 1);
        }
        let count = old_len - new_len;
        bits_drain(&mut self.folded, i, i + count);
        if self.selected >= new_len {
            self.selected = if new_len > 0 { new_len - 1 } else { 0 };
        }
        self.refresh_cache();
        if let Some(k) = self.selected_cache {
            let shown = self.cache.len();
            if k >= shown {
                self.selected_cache = Some(if shown > 0 { shown - 1 } else { 0 });
            }
        }
        Ok(())
    }

    /// The shown entries, each with its position in the whole listing.
    pub fn iter(&self) -> (r: Vec<(usize, &Item)>)
        requires
            self.wf(),
        ensures
            r@.len() == self.spec_shown().len(),
            forall|k: int| 0 <= k < r@.len() ==> (#[trigger] r@[k]).0 as int == self.spec_shown()[k]
                && r@[k].1@ == self.spec_items()[self.spec_shown()[k]],
    {
        let ghost s = self.spec_items();
        let ghost shown = self.spec_shown();
        proof {
            lemma_shown_upto(s, self.spec_folded(), s.len());
        }
        let list = self.items.items();
        let mut out: Vec<(usize, &Item)> = Vec::new();
        let mut k: usize = 0;
        while k < self.cache.len()
            invariant
                self.wf(),
                s == self.spec_items(),
                shown == self.spec_shown(),
                item_views(list@) == s,
                k <= shown.len(),
                out@.len() == k,
                forall|j: int| 0 <= j < shown.len() ==> 0 <= #[trigger] shown[j] < s.len(),
                forall|j: int| 0 <= j < k ==> (#[trigger] out@[j]).0 as int == shown[j] && out@[j].1@ == s[shown[j]],
            decreases self.cache@.len() - k,
        {
            let i = self.cache[k];
            proof {
                assert(i as int == shown[k as int]);
                assert(s[i as int] == list@[i as int]@);
            }
            out.push((i, &list[i]));
            k = k + 1;
        }
        out
    }

    /// The shown entries.
    pub fn items(&self) -> (r: Vec<&Item>)
        requires
            self.wf(),
        ensures
            r@.len() == self.spec_shown().len(),
            forall|k: int| 0 <= k < r@.len() ==> (#[trigger] r@[k])@ == self.spec_items()[self.spec_shown()[k]],
    {
        let ghost s = self.spec_items();
        let ghost shown = self.spec_shown();
        proof {
            lemma_shown_upto(s, self.spec_folded(), s.len());
        }
        let list = self.items.items();
        let mut out: Vec<&Item> = Vec::new();
        let mut k: usize = 0;
        while k < self.cache.len()
            invariant
                self.wf(),
                s == self.spec_items(),
                shown == self.spec_shown(),
                item_views(list@) == s,
                k <= shown.len(),
                out@.len() == k,
                forall|j: int| 0 <= j < shown.len() ==> 0 <= #[trigger] shown[j] < s.len(),
                forall|j: int| 0 <= j < k ==> (#[trigger] out@[j])@ == s[shown[j]],
            decreases self.cache@.len() - k,
        {
            let i = self.cache[k];
            proof {
                assert(i as int == shown[k as int]);
                assert(s[i as int] == list@[i as int]@);
            }
            out.push(&list[i]);
            k = k + 1;
        }
        out
    }
}

/// A well-formed listing has one fold flag per entry, shows at most its entries, always
/// the first one, in rising order, and only positions of entries; it stays under the
/// bit-vector limit.
pub proof fn lemma_rank_bounds(l: FileListing)
    requires
        l.wf(),
    ensures
        l.spec_folded().len() == l.spec_items().len(),
        l.spec_shown().len() <= l.spec_items().len(),
        l.spec_items().len() > 0 <==> l.spec_shown().len() > 0,
        l.spec_items().len() > 0 ==> l.spec_shown()[0] == 0,
        l.spec_items().len() < 0x2000_0000,
        forall|k: int| 0 <= k < l.spec_shown().len() ==> 0 <= #[trigger] l.spec_shown()[k] < l.spec_items().len(),
        forall|a: int, b: int| 0 <= a < b < l.spec_shown().len() ==> l.spec_shown()[a] < l.spec_shown()[b],
{
    lemma_shown_upto(l.spec_items(), l.spec_folded(), l.spec_items().len());
}

/// The listing keeps its entries, root and folds.
pub open spec fn same_tree(o: FileListing, n: FileListing) -> bool {
    &&& n.wf()
    &&& n.spec_items() == o.spec_items()
    &&& n.spec_root() == o.spec_root()
    &&& n.spec_folded() == o.spec_folded()
}

/// `select_first`: the first entry is selected, at rank 0.
pub open spec fn first_effect(o: FileListing, n: FileListing) -> bool {
    &&& same_tree(o, n)
    &&& n.spec_selected() == 0
    &&& n.spec_rank() == Some(0nat)
}

/// `select_last`: the number of shown entries less one becomes both the rank and the
/// selected position.
pub open spec fn last_effect(o: FileListing, n: FileListing) -> bool {
    &&& same_tree(o, n)
    &&& n.spec_selected() == o.spec_shown().len() - 1
    &&& n.spec_rank() == Some((o.spec_shown().len() - 1) as nat)
}

/// `select_next_n`: the selection moves `k` shown entries down, stopping at the last.
pub open spec fn next_effect(o: FileListing, n: FileListing, k: nat) -> bool {
    let shown = o.spec_shown();
    let target = o.rank_or_first() + k;
    &&& same_tree(o, n)
    &&& if target < shown.len() {
        n.spec_selected() == shown[target as int] && n.spec_rank() == Some(target as nat)
    } else {
        n.spec_selected() == shown[shown.len() - 1] && n.spec_rank() == Some((shown.len() - 1) as nat)
    }
}

/// The rank that moving `k` shown entries up from the selection reaches.
pub open spec fn rank_up(o: FileListing, k: nat) -> nat {
    if o.rank_or_first() >= k { (o.rank_or_first() - k) as nat } else { 0 }
}

/// Whether moving `k` entries up reaches a rank that designates an entry.
pub open spec fn up_ok(o: FileListing, k: nat) -> bool {
    rank_up(o, k) == 0 || rank_up(o, k) < o.spec_shown().len()
}

/// `select_prev_n`: the selection moves `k` shown entries up, stopping at the first.
pub open spec fn prev_effect(o: FileListing, n: FileListing, k: nat) -> bool {
    let new = rank_up(o, k);
    &&& same_tree(o, n)
    &&& n.spec_rank() == Some(new)
    &&& n.spec_selected() == (if new == 0 { 0 } else { o.spec_shown()[new as int] })
}

/// The folds change to `f`; the entries and the selection stay.
pub open spec fn refolded(o: FileListing, n: FileListing, f: Seq<bool>) -> bool {
    &&& n.wf()
    &&& n.spec_items() == o.spec_items()
    &&& n.spec_root() == o.spec_root()
    &&& n.spec_selected() == o.spec_selected()
    &&& n.spec_rank() == o.spec_rank()
    &&& n.spec_folded() == f
}

/// The folds that `toggle_fold` leaves: the selected directory's fold flipped.
pub open spec fn toggled(o: FileListing) -> Seq<bool> {
    if o.spec_selected() < o.spec_items().len() && o.spec_items()[o.spec_selected() as int] is Dir {
        o.spec_folded().update(o.spec_selected() as int, !o.spec_folded()[o.spec_selected() as int])
    } else {
        o.spec_folded()
    }
}

/// The folds with every directory folded.
pub open spec fn all_folded(o: FileListing) -> Seq<bool> {
    Seq::new(o.spec_items().len(), |j: int| if o.spec_items()[j] is Dir { true } else { o.spec_folded()[j] })
}

/// The folds that `unfold_all` leaves: all cleared, or, when none was set, every
/// directory folded.
pub open spec fn all_unfolded(o: FileListing) -> Seq<bool> {
    if forall|j: int| 0 <= j < o.spec_folded().len() ==> !#[trigger] o.spec_folded()[j] {
        all_folded(o)
    } else {
        Seq::new(o.spec_items().len(), |_j: int| false)
    }
}

/// `fold_under` with `index`: the result and the folds it leaves.
pub open spec fn fold_under_effect(o: FileListing, n: FileListing, index: ItemsIndexView, r: Result<(), ListingError>) -> bool {
    match to_absolute(o.spec_items(), o.spec_folded(), index) {
        Some(i) => r is Ok && refolded(o, n, set_run(o.spec_items(), o.spec_folded(), i, true)),
        None => r == Err::<(), ListingError>(ListingError::InvalidFoldUnderTarget) && refolded(o, n, o.spec_folded()),
    }
}

/// `unfold_under` with `index`: the result and the folds it leaves.
pub open spec fn unfold_under_effect(o: FileListing, n: FileListing, index: ItemsIndexView, r: Result<(), ListingError>) -> bool {
    let s = o.spec_items();
    let f = o.spec_folded();
    match to_absolute(s, f, index) {
        Some(i) => if run_has_fold(s, f, i) {
            r is Ok && refolded(o, n, set_run(s, f, i, false))
        } else {
            fold_under_effect(o, n, ItemsIndexView::Path(s[i].path()), r)
        },
        None => r == Err::<(), ListingError>(ListingError::InvalidUnfoldUnderTarget) && refolded(o, n, f),
    }
}

/// `add` of `item`: appended with its fold flag (set for a directory) unless its path is
/// listed already.
pub open spec fn added(o: FileListing, n: FileListing, item: ItemView) -> bool {
    &&& n.wf()
    &&& n.spec_root() == o.spec_root()
    &&& n.spec_selected() == o.spec_selected()
    &&& n.spec_rank() == o.spec_rank()
    &&& if has_path(o.spec_items(), item.path()) {
        n.spec_items() == o.spec_items() && n.spec_folded() == o.spec_folded()
    } else {
        n.spec_items() == o.spec_items().push(item) && n.spec_folded() == o.spec_folded().push(item is Dir)
    }
}

/// `remove` of the entry that `index` designates in the whole listing: the result and the
/// listing it leaves.
pub open spec fn removed(o: FileListing, n: FileListing, index: ItemsIndexView, r: Result<(), ListingError>) -> bool {
    let s = o.spec_items();
    let f = o.spec_folded();
    &&& n.wf()
    &&& n.spec_root() == o.spec_root()
    &&& match resolve(s, index) {
        Some(i) if 0 <= i < s.len() => {
            let rest = remove_at(s, i);
            &&& r is Ok
            &&& n.spec_rank() == clamped_rank(o.spec_rank(), n.spec_shown().len())
            &&& n.spec_items() == rest
            &&& n.spec_folded() == f.take(i) + f.skip(i + (s.len() - rest.len()))
            &&& n.spec_selected() == (if o.spec_selected() >= rest.len() {
                if rest.len() > 0 { (rest.len() - 1) as nat } else { 0 }
            } else {
                o.spec_selected()
            })
        },
        _ => r == Err::<(), ListingError>(ListingError::InvalidRemoveTarget) && n.spec_items() == s
            && n.spec_folded() == f && n.spec_selected() == o.spec_selected() && n.spec_rank() == o.spec_rank(),
    }
}

/// A rank kept within `shown` entries: one past them or further is brought back to the
/// last of them.
pub open spec fn clamped_rank(rank: Option<nat>, shown: nat) -> Option<nat> {
    match rank {
        Some(k) => if k >= shown {
            Some(if shown > 0 { (shown - 1) as nat } else { 0 })
        } else {
            Some(k)
        },
        None => None,
    }
}

/// A removal never lengthens the listing.
pub proof fn lemma_removed_len(o: FileListing, n: FileListing, index: ItemsIndexView, r: Result<(), ListingError>)
    requires
        removed(o, n, index, r),
    ensures
        n.spec_items().len() <= o.spec_items().len(),
{
    let s = o.spec_items();
    match resolve(s, index) {
        Some(i) => {
            if 0 <= i < s.len() {
                if s[i] is Dir {
                    lemma_run_under_len(s.skip(i + 1), s[i].path());
                }
            }
        },
        None => {},
    }
}

/// The folds that selecting by `index` leaves: the way to a path is opened.
pub open spec fn select_folds(o: FileListing, index: ItemsIndexView) -> Seq<bool> {
    match index {
        ItemsIndexView::Path(p) => opened_toward(o.spec_items(), o.spec_folded(), p),
        ItemsIndexView::Number(_) => o.spec_folded(),
    }
}

/// `select` by `index`: the folds, the rank and the selection it leaves, and whether an
/// entry comes back (`found`).
pub open spec fn selected_by(o: FileListing, n: FileListing, index: ItemsIndexView, found: bool) -> bool {
    let s = o.spec_items();
    let f1 = select_folds(o, index);
    &&& n.wf()
    &&& n.spec_items() == s
    &&& n.spec_root() == o.spec_root()
    &&& n.spec_folded() == f1
    &&& n.spec_rank() == match index {
        ItemsIndexView::Number(k) => Some(k),
        ItemsIndexView::Path(p) => match rank_of_path(s, shown_positions(s, f1), p) {
            Some(k) => Some(k as nat),
            None => None,
        },
    }
    &&& match to_absolute(s, f1, index) {
        Some(i) => n.spec_selected() == i && found,
        None => n.spec_selected() == o.spec_selected() && !found,
    }
}

impl Default for FileListing {
    /// An empty listing with no selection.
    fn default() -> (r: FileListing)
        ensures
            r.wf(),
            r.spec_items().len() == 0,
            r.spec_rank() is None,
            r.spec_selected() == 0,
    {
        let items = Items::default();
        let folded = bits_repeat(false, 0);
        let cache = shown_positions_exec(&items, &folded);
        FileListing { items, selected: 0, folded, cache, selected_cache: None }
    }
}

} // verus!
