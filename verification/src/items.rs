//! A flat listing of files and directories below a common root, where every directory
//! is followed by the files directly inside it.

use vstd::prelude::*;
use crate::path::{PathBuf, PathView, path_text, path_parent, path_starts_with, prefix_path, copy_strings, lemma_prefix_path_text, valid_component};
use crate::text::{short_digit_runs, lemma_short_digit_runs_prefix};
use vstd::std_specs::slice::into_iter_elts;
use crate::ignore_rules::{
    IgnoreBuilder, IgnoreError, override_error_is, override_glob_list, overrides_build,
    ignored_patterns, verdict_holds,
};

verus! {

/// A listed entry: a file or a directory, by its path.
#[derive(Debug, PartialEq, Eq, Hash)]
pub enum Item {
    File(PathBuf),
    Dir(PathBuf),
}

/// The mathematical value of an [`Item`].
pub enum ItemView {
    File(PathView),
    Dir(PathView),
}

impl ItemView {
    pub open spec fn path(self) -> PathView {
        match self {
            ItemView::File(p) => p,
            ItemView::Dir(p) => p,
        }
    }

    pub open spec fn is_file(self) -> bool {
        self is File
    }
}

impl View for Item {
    type V = ItemView;

    open spec fn view(&self) -> ItemView {
        match self {
            Item::File(p) => ItemView::File(p@),
            Item::Dir(p) => ItemView::Dir(p@),
        }
    }
}

/// The views of a sequence of items.
pub open spec fn item_views(s: Seq<Item>) -> Seq<ItemView> {
    s.map_values(|it: Item| it@)
}

/// The views of a sequence of paths.
pub open spec fn path_views(s: Seq<PathBuf>) -> Seq<PathView> {
    s.map_values(|p: PathBuf| p@)
}

impl Item {
    /// The path of the entry.
    pub fn path(&self) -> (r: &PathBuf)
        ensures
            r@ == self@.path(),
    {
        match self {
            Item::File(p) => p,
            Item::Dir(p) => p,
        }
    }

    /// Whether the entry is a file.
    pub fn is_file(&self) -> (r: bool)
        ensures
            r == self@.is_file(),
    {
        match self {
            Item::File(_) => true,
            Item::Dir(_) => false,
        }
    }

    /// A copy of the entry.
    pub fn duplicate(&self) -> (r: Item)
        ensures
            r@ == self@,
    {
        match self {
            Item::File(p) => Item::File(p.duplicate()),
            Item::Dir(p) => Item::Dir(p.duplicate()),
        }
    }
}

/// The result of `human_sort::compare` on two texts: `-1`, `0` or `1` for less, equal,
/// greater.
pub uninterp spec fn human_order(a: Seq<char>, b: Seq<char>) -> i8;

/// `human_sort::compare`: orders two strings with runs of digits compared by their
/// numeric value. The contract claims only that the result is one of three values,
/// named by `human_order`, and that swapping the arguments negates it (the comparison
/// walks both strings symmetrically and falls back on `str::cmp`). It reads a run of
/// digits, from where the two texts first differ in it, into a `u32` and panics when that
/// overflows; every run of both texts must therefore have a value that fits in a `u32`
/// (`short_digit_runs`), and then so does every part of it that ends the run.
#[verifier::external_body]
fn human_compare(a: &str, b: &str) -> (r: i8)
    requires
        short_digit_runs(a@),
        short_digit_runs(b@),
    ensures
        r == human_order(a@, b@),
        -1 <= r <= 1,
        r == -human_order(b@, a@),
{
    match human_sort::compare(a, b) {
        std::cmp::Ordering::Less => -1,
        std::cmp::Ordering::Equal => 0,
        std::cmp::Ordering::Greater => 1,
    }
}

/// The text by which an item is ordered.
pub open spec fn item_text(it: ItemView) -> Seq<char> {
    path_text(it.path())
}

/// Every pair of neighbours is in human order.
pub open spec fn sorted_by_text(s: Seq<ItemView>) -> bool {
    forall|i: int, j: int|
        0 <= i && j == i + 1 && j < s.len() ==> #[trigger] human_order(
            item_text(s[i]),
            item_text(s[j]),
        ) <= 0
}

/// Every item of `s` has a text with short digit runs.
pub open spec fn texts_comparable(s: Seq<ItemView>) -> bool {
    forall|i: int| 0 <= i < s.len() ==> short_digit_runs(#[trigger] item_text(s[i]))
}

/// Orders two items by their path text (`Ord for Item`): `-1`, `0` or `1`.
pub fn compare_items(a: &Item, b: &Item) -> (r: i8)
    requires
        short_digit_runs(item_text(a@)),
        short_digit_runs(item_text(b@)),
    ensures
        r == human_order(item_text(a@), item_text(b@)),
        -1 <= r <= 1,
        r == -human_order(item_text(b@), item_text(a@)),
{
    let ta = a.path().to_text();
    let tb = b.path().to_text();
    human_compare(ta.as_str(), tb.as_str())
}

/// Sorts items by their path text in human order (numbers by value); the result holds
/// the same items.
pub fn sort_items(items: &mut Vec<Item>)
    requires
        texts_comparable(item_views(old(items)@)),
    ensures
        item_views(final(items)@).to_multiset() == item_views(old(items)@).to_multiset(),
        sorted_by_text(item_views(final(items)@)),
        texts_comparable(item_views(final(items)@)),
{
    let ghost input = item_views(items@);
    let mut rest: Vec<Item> = Vec::new();
    std::mem::swap(items, &mut rest);
    let mut src = rest;
    let mut out: Vec<Item> = Vec::new();
    let ghost total = input;
    proof {
        broadcast use vstd::seq_lib::group_to_multiset_ensures;
        assert(item_views(out@) =~= Seq::<ItemView>::empty());
        assert(item_views(src@) =~= total.take(src@.len() as int));
        assert(total.skip(src@.len() as int) =~= Seq::<ItemView>::empty());
    }
    // Take items from the back of `src` and insert them into `out`.
    while src.len() > 0
        invariant
            item_views(src@) == total.take(src@.len() as int),
            src@.len() <= total.len(),
            texts_comparable(total),
            texts_comparable(item_views(out@)),
            sorted_by_text(item_views(out@)),
            item_views(out@).to_multiset() == total.skip(src@.len() as int).to_multiset(),
        decreases src@.len(),
    {
        let ghost n = src@.len();
        let ghost old_src = src@;
        let x = src.pop().unwrap();
        proof {
            assert(item_views(old_src)[n - 1] == x@);
            assert(total.take(n as int)[n - 1] == total[n - 1]);
            assert(total[n - 1] == x@);
            assert(item_views(src@) =~= total.take(n - 1));
            assert(short_digit_runs(item_text(total[n - 1])));
        }
        let ghost before = item_views(out@);
        let mut p: usize = out.len();
        let mut found = false;
        while p > 0 && !found
            invariant
                p <= out@.len(),
                found ==> p > 0 && human_order(item_text(before[p - 1]), item_text(x@)) <= 0,
                item_views(out@) == before,
                texts_comparable(before),
                short_digit_runs(item_text(x@)),
                forall|k: int| p <= k < before.len() ==> human_order(item_text(x@), item_text(before[k])) < 0,
            decreases p + if found {
                0int
            } else {
                1int
            },
        {
            proof {
                assert(item_views(out@)[p - 1] == out@[p - 1]@);
            }
            let c = compare_items(&out[p - 1], &x);
            if c <= 0 {
                found = true;
            } else {
                p = p - 1;
            }
        }
        out.insert(p, x);
        proof {
            let now = item_views(out@);
            assert(now =~= before.insert(p as int, x@)) by {
                assert forall|k: int| 0 <= k < now.len() implies now[k] == before.insert(p as int, x@)[k] by {
                }
            }
            before.insert_ensures(p as int, x@);
            assert(total.skip(n - 1) =~= seq![x@] + total.skip(n as int));
            assert(total.skip(n - 1).to_multiset() =~= total.skip(n as int).to_multiset().insert(x@)) by {
                broadcast use vstd::seq_lib::group_to_multiset_ensures;
                assert(seq![x@] + total.skip(n as int) =~= total.skip(n as int).insert(0, x@));
                total.skip(n as int).insert_ensures(0, x@);
            }
            let lo = before.subrange(0, p as int);
            let hi = before.subrange(p as int, before.len() as int);
            assert(now =~= lo.push(x@) + hi);
            assert(before =~= lo + hi);
            assert(now.to_multiset() =~= before.to_multiset().insert(x@)) by {
                broadcast use vstd::seq_lib::group_to_multiset_ensures;
                vstd::seq_lib::lemma_multiset_commutative(lo.push(x@), hi);
                vstd::seq_lib::lemma_multiset_commutative(lo, hi);
            }
            assert(src@.len() == n - 1);
            assert(now.to_multiset() == total.skip(n - 1).to_multiset());
            assert forall|i: int, j: int| 0 <= i && j == i + 1 && j < now.len() implies #[trigger] human_order(
                item_text(now[i]),
                item_text(now[j]),
            ) <= 0 by {
                if j < p {
                    assert(now[i] == before[i] && now[j] == before[j]);
                } else if j == p {
                    assert(now[i] == before[i] && now[j] == x@);
                } else if i == p {
                    assert(now[i] == x@ && now[j] == before[i]);
                } else {
                    assert(now[i] == before[i - 1] && now[j] == before[j - 1]);
                }
            }
            assert forall|i: int| 0 <= i < now.len() implies short_digit_runs(#[trigger] item_text(now[i])) by {
                if i < p {
                    assert(now[i] == before[i]);
                } else if i > p {
                    assert(now[i] == before[i - 1]);
                }
            }
        }
    }
    proof {
        assert(total.skip(0) =~= total);
    }
    *items = out;
}

/// The number of leading components that `a` and `b` share.
pub open spec fn common_len(a: Seq<Seq<char>>, b: Seq<Seq<char>>) -> nat
    decreases a.len(),
{
    if a.len() == 0 || b.len() == 0 || a[0] != b[0] {
        0
    } else {
        1 + common_len(a.skip(1), b.skip(1))
    }
}

/// The longest ancestor of `a` that `b` starts with.
pub open spec fn common_ancestor(a: PathView, b: PathView) -> PathView {
    prefix_path(a, common_len(a.comps, b.comps) as int)
}

/// `base` narrowed down by each of `files` in turn.
pub open spec fn root_fold(base: PathView, files: Seq<PathView>) -> PathView
    decreases files.len(),
{
    if files.len() == 0 {
        base
    } else {
        common_ancestor(root_fold(base, files.drop_last()), files.last())
    }
}

/// The root of a listing: the deepest common ancestor of the parent of the first file
/// and of every file; the empty path when there are no files.
pub open spec fn root_of(files: Seq<PathView>) -> PathView {
    if files.len() == 0 {
        PathView { absolute: false, comps: seq![] }
    } else {
        root_fold(path_parent(files[0]).unwrap(), files)
    }
}

/// `p` is a directory of the listing: a proper ancestor of one of the files.
pub open spec fn is_listed_dir(files: Seq<PathView>, p: PathView) -> bool {
    exists|i: int, k: int|
        0 <= i < files.len() && 0 <= k < files[i].comps.len() && p == #[trigger] prefix_path(
            files[i],
            k,
        )
}

/// The files among `part` directly inside `d` that are not directories of `all`, in order.
pub open spec fn direct_children(all: Seq<PathView>, part: Seq<PathView>, d: PathView) -> Seq<
    ItemView,
>
    decreases part.len(),
{
    if part.len() == 0 {
        seq![]
    } else {
        let rest = direct_children(all, part.drop_last(), d);
        let f = part.last();
        if path_parent(f) == Some(d) && !is_listed_dir(all, f) {
            rest.push(ItemView::File(f))
        } else {
            rest
        }
    }
}

/// Each directory of `ds` followed by the files directly inside it.
pub open spec fn layout(files: Seq<PathView>, ds: Seq<ItemView>) -> Seq<ItemView>
    decreases ds.len(),
{
    if ds.len() == 0 {
        seq![]
    } else {
        layout(files, ds.drop_last()) + seq![ItemView::Dir(ds.last().path())] + direct_children(
            files,
            files,
            ds.last().path(),
        )
    }
}

/// An entry strictly below the root.
pub open spec fn under_root(it: ItemView, root: PathView) -> bool {
    it.path() != root && path_starts_with(it.path(), root)
}

/// The entries of `s` that are strictly below `root`, in order.
pub open spec fn keep_under(s: Seq<ItemView>, root: PathView) -> Seq<ItemView>
    decreases s.len(),
{
    if s.len() == 0 {
        seq![]
    } else if under_root(s.last(), root) {
        keep_under(s.drop_last(), root).push(s.last())
    } else {
        keep_under(s.drop_last(), root)
    }
}

/// `ds` lists every directory of the listing once, in human order of their text.
pub open spec fn dir_arrangement(files: Seq<PathView>, ds: Seq<ItemView>) -> bool {
    &&& ds.no_duplicates()
    &&& forall|k: int| 0 <= k < ds.len() ==> (#[trigger] ds[k]) is Dir
    &&& forall|p: PathView| ds.contains(ItemView::Dir(p)) <==> is_listed_dir(files, p)
    &&& sorted_by_text(ds)
}

/// The inputs that `Items::new` accepts: absolute paths below the root whose texts have
/// short digit runs.
pub open spec fn valid_inputs(files: Seq<PathView>) -> bool {
    forall|i: int|
        0 <= i < files.len() ==> {
            &&& (#[trigger] files[i]).absolute
            &&& files[i].comps.len() > 0
            &&& files[i].wf()
            &&& short_digit_runs(path_text(files[i]))
        }
}

proof fn lemma_keep_under_add(a: Seq<ItemView>, b: Seq<ItemView>, root: PathView)
    ensures
        keep_under(a + b, root) == keep_under(a, root) + keep_under(b, root),
    decreases b.len(),
{
    if b.len() == 0 {
        assert(a + b =~= a);
        assert(keep_under(a, root) + keep_under(b, root) =~= keep_under(a, root));
    } else {
        assert((a + b).drop_last() =~= a + b.drop_last());
        assert((a + b).last() == b.last());
        lemma_keep_under_add(a, b.drop_last(), root);
        if under_root(b.last(), root) {
            assert(keep_under(a, root) + keep_under(b.drop_last(), root).push(b.last())
                =~= (keep_under(a, root) + keep_under(b.drop_last(), root)).push(b.last()));
        }
    }
}

proof fn lemma_common_len_step(a: Seq<Seq<char>>, b: Seq<Seq<char>>, i: int)
    requires
        0 <= i,
        i < a.len(),
        i < b.len(),
    ensures
        common_len(a.skip(i), b.skip(i)) == if a[i] == b[i] {
            1 + common_len(a.skip(i + 1), b.skip(i + 1))
        } else {
            0
        },
{
    assert(a.skip(i)[0] == a[i]);
    assert(b.skip(i)[0] == b[i]);
    assert(a.skip(i).skip(1) =~= a.skip(i + 1));
    assert(b.skip(i).skip(1) =~= b.skip(i + 1));
}

/// The longest common ancestor of `a` and `b`, kept with the root flag of `a`.
fn common_ancestor_exec(a: &PathBuf, b: &PathBuf) -> (r: PathBuf)
    ensures
        r@ == common_ancestor(a@, b@),
        a.wf() ==> r.wf(),
{
    let mut i: usize = 0;
    let ghost x = a.comps.deep_view();
    let ghost y = b.comps.deep_view();
    proof {
        assert(x.skip(0) =~= x);
        assert(y.skip(0) =~= y);
    }
    while i < a.comps.len() && i < b.comps.len() && a.comps[i] == b.comps[i]
        invariant
            x == a.comps.deep_view(),
            y == b.comps.deep_view(),
            x.len() == a.comps@.len(),
            y.len() == b.comps@.len(),
            i <= x.len(),
            i <= y.len(),
            common_len(x, y) == i + common_len(x.skip(i as int), y.skip(i as int)),
        decreases a.comps@.len() - i,
    {
        proof {
            lemma_common_len_step(x, y, i as int);
        }
        i = i + 1;
    }
    proof {
        if i < x.len() && i < y.len() {
            lemma_common_len_step(x, y, i as int);
        } else {
            assert(x.skip(i as int).len() == 0 || y.skip(i as int).len() == 0);
        }
    }
    let mut comps = copy_strings(&a.comps);
    comps.truncate(i);
    let r = PathBuf { absolute: a.absolute, comps };
    proof {
        assert(r.comps.deep_view() =~= x.take(i as int));
        assert(r@ =~= common_ancestor(a@, b@));
        if a.wf() {
            assert forall|k: int| 0 <= k < r@.comps.len() implies #[trigger] valid_component(r@.comps[k]) by {
                assert(r@.comps[k] == x[k]);
            }
        }
    }
    r
}

/// The root of a listing of `files` (see `root_of`).
fn listing_root(files: &[PathBuf]) -> (r: PathBuf)
    requires
        valid_inputs(path_views(files@)),
    ensures
        r@ == root_of(path_views(files@)),
        r.wf(),
{
    let ghost fs = path_views(files@);
    if files.len() == 0 {
        let r = PathBuf::new();
        proof {
            assert(r@ =~= root_of(fs));
        }
        return r;
    }
    proof {
        assert(fs[0] == files@[0]@);
    }
    let mut root = match files[0].parent() {
        Some(p) => p,
        None => PathBuf::new(),
    };
    let ghost base = root@;
    let mut i: usize = 0;
    proof {
        assert(fs.take(0) =~= Seq::<PathView>::empty());
    }
    while i < files.len()
        invariant
            fs == path_views(files@),
            valid_inputs(fs),
            base == path_parent(fs[0]).unwrap(),
            i <= files@.len(),
            root@ == root_fold(base, fs.take(i as int)),
            root.wf(),
        decreases files@.len() - i,
    {
        proof {
            assert(fs[i as int] == files@[i as int]@);
            assert(fs.take(i as int + 1).drop_last() =~= fs.take(i as int));
        }
        root = common_ancestor_exec(&root, &files[i]);
        i = i + 1;
    }
    proof {
        assert(fs.take(files@.len() as int) =~= fs);
    }
    root
}

/// Whether `ds` holds the directory `p`.
fn holds_dir(ds: &Vec<Item>, p: &PathBuf) -> (r: bool)
    ensures
        r == item_views(ds@).contains(ItemView::Dir(p@)),
{
    let mut j: usize = 0;
    while j < ds.len()
        invariant
            j <= ds@.len(),
            forall|m: int| 0 <= m < j ==> item_views(ds@)[m] != ItemView::Dir(p@),
        decreases ds@.len() - j,
    {
        proof {
            assert(item_views(ds@)[j as int] == ds@[j as int]@);
        }
        match &ds[j] {
            Item::Dir(q) => {
                if q.same(p) {
                    return true;
                }
            },
            Item::File(_) => {},
        }
        j = j + 1;
    }
    false
}

proof fn lemma_listed_dir_take(fs: Seq<PathView>, i: int, p: PathView)
    requires
        0 <= i < fs.len(),
    ensures
        is_listed_dir(fs.take(i + 1), p) <==> (is_listed_dir(fs.take(i), p) || exists|k: int|
            0 <= k < fs[i].comps.len() && p == #[trigger] prefix_path(fs[i], k)),
{
    let a = fs.take(i);
    let b = fs.take(i + 1);
    if is_listed_dir(b, p) {
        let (m, k) = choose|m: int, k: int|
            0 <= m < b.len() && 0 <= k < b[m].comps.len() && p == #[trigger] prefix_path(b[m], k);
        if m < i {
            assert(a[m] == b[m]);
            assert(p == prefix_path(a[m], k));
        } else {
            assert(b[m] == fs[i]);
        }
    }
    if is_listed_dir(a, p) {
        let (m, k) = choose|m: int, k: int|
            0 <= m < a.len() && 0 <= k < a[m].comps.len() && p == #[trigger] prefix_path(a[m], k);
        assert(b[m] == a[m]);
        assert(p == prefix_path(b[m], k));
    }
    if exists|k: int| 0 <= k < fs[i].comps.len() && p == #[trigger] prefix_path(fs[i], k) {
        let k = choose|k: int| 0 <= k < fs[i].comps.len() && p == #[trigger] prefix_path(fs[i], k);
        assert(b[i] == fs[i]);
        assert(p == prefix_path(b[i], k));
    }
}

/// `p` is a directory seen after the first `i` files and `k` components of the next one.
spec fn seen_dir(fs: Seq<PathView>, i: int, f: PathView, k: int, p: PathView) -> bool {
    is_listed_dir(fs.take(i), p) || exists|k2: int| 0 <= k2 < k && p == #[trigger] prefix_path(f, k2)
}

/// Every directory of the listing of `files`, each once.
fn listing_dirs(files: &[PathBuf]) -> (ds: Vec<Item>)
    requires
        valid_inputs(path_views(files@)),
    ensures
        item_views(ds@).no_duplicates(),
        forall|k: int| 0 <= k < ds@.len() ==> (#[trigger] item_views(ds@)[k]) is Dir,
        forall|p: PathView|
            item_views(ds@).contains(ItemView::Dir(p)) <==> is_listed_dir(path_views(files@), p),
        texts_comparable(item_views(ds@)),
{
    let ghost fs = path_views(files@);
    let mut ds: Vec<Item> = Vec::new();
    let mut i: usize = 0;
    proof {
        assert(fs.take(0) =~= Seq::<PathView>::empty());
        assert(item_views(ds@) =~= Seq::<ItemView>::empty());
    }
    while i < files.len()
        invariant
            fs == path_views(files@),
            valid_inputs(fs),
            i <= files@.len(),
            item_views(ds@).no_duplicates(),
            forall|k: int| 0 <= k < ds@.len() ==> (#[trigger] item_views(ds@)[k]) is Dir,
            forall|p: PathView|
                item_views(ds@).contains(ItemView::Dir(p)) <==> is_listed_dir(fs.take(i as int), p),
            texts_comparable(item_views(ds@)),
        decreases files@.len() - i,
    {
        let f = &files[i];
        proof {
            assert(fs[i as int] == f@);
        }
        let mut cur = PathBuf { absolute: f.absolute, comps: Vec::new() };
        let mut k: usize = 0;
        proof {
            assert(cur@ =~= prefix_path(f@, 0));
            assert forall|p: PathView| #[trigger] item_views(ds@).contains(ItemView::Dir(p)) <==> seen_dir(fs, i as int, f@, 0, p) by {
            }
        }
        while k < f.comps.len()
            invariant
                fs == path_views(files@),
                valid_inputs(fs),
                i < files@.len(),
                fs[i as int] == f@,
                k <= f.comps@.len(),
                f.comps@.len() == f@.comps.len(),
                cur@ == prefix_path(f@, k as int),
                item_views(ds@).no_duplicates(),
                forall|m: int| 0 <= m < ds@.len() ==> (#[trigger] item_views(ds@)[m]) is Dir,
                forall|p: PathView|
                    #[trigger] item_views(ds@).contains(ItemView::Dir(p)) <==> seen_dir(fs, i as int, f@, k as int, p),
                texts_comparable(item_views(ds@)),
            decreases f.comps@.len() - k,
        {
            if !holds_dir(&ds, &cur) {
                let ghost before = item_views(ds@);
                let cand = PathBuf { absolute: cur.absolute, comps: copy_strings(&cur.comps) };
                ds.push(Item::Dir(cand));
                proof {
                    let now = item_views(ds@);
                    assert(now =~= before.push(ItemView::Dir(cur@)));
                    assert forall|a: int, b: int| 0 <= a < b < now.len() implies now[a] != now[b] by {
                        if b == now.len() - 1 {
                            assert(before.contains(before[a]));
                        }
                    }
                    assert(now.no_duplicates());
                    lemma_prefix_path_text(f@, k as int);
                    lemma_short_digit_runs_prefix(path_text(f@), path_text(cur@).len() as int);
                    assert(path_text(f@).take(path_text(cur@).len() as int) =~= path_text(cur@));
                    assert forall|m: int| 0 <= m < now.len() implies short_digit_runs(#[trigger] item_text(now[m])) by {
                        if m < before.len() {
                            assert(now[m] == before[m]);
                        }
                    }
                    assert forall|p: PathView| #[trigger] now.contains(ItemView::Dir(p)) <==> seen_dir(fs, i as int, f@, k + 1, p) by {
                        assert(before.contains(ItemView::Dir(p)) == seen_dir(fs, i as int, f@, k as int, p));
                        if now.contains(ItemView::Dir(p)) {
                            let m = choose|m: int| 0 <= m < now.len() && now[m] == ItemView::Dir(p);
                            if m < before.len() {
                                assert(before.contains(ItemView::Dir(p)));
                            } else {
                                assert(p == prefix_path(f@, k as int));
                            }
                        }
                        if p == prefix_path(f@, k as int) {
                            assert(now[now.len() - 1] == ItemView::Dir(p));
                        }
                        if exists|k2: int| 0 <= k2 < k + 1 && p == #[trigger] prefix_path(f@, k2) {
                            let k2 = choose|k2: int| 0 <= k2 < k + 1 && p == #[trigger] prefix_path(f@, k2);
                            if k2 < k {
                                assert(before.contains(ItemView::Dir(p)));
                                let m = choose|m: int| 0 <= m < before.len() && before[m] == ItemView::Dir(p);
                                assert(now[m] == ItemView::Dir(p));
                            } else {
                                assert(now[now.len() - 1] == ItemView::Dir(p));
                            }
                        }
                        if is_listed_dir(fs.take(i as int), p) {
                            assert(before.contains(ItemView::Dir(p)));
                            let m = choose|m: int| 0 <= m < before.len() && before[m] == ItemView::Dir(p);
                            assert(now[m] == ItemView::Dir(p));
                        }
                        if before.contains(ItemView::Dir(p)) {
                            let m = choose|m: int| 0 <= m < before.len() && before[m] == ItemView::Dir(p);
                            assert(now[m] == ItemView::Dir(p));
                        }
                    }
                }
            } else {
                proof {
                    assert forall|p: PathView| #[trigger] item_views(ds@).contains(ItemView::Dir(p)) <==> seen_dir(fs, i as int, f@, k + 1, p) by {
                        assert(item_views(ds@).contains(ItemView::Dir(p)) == seen_dir(fs, i as int, f@, k as int, p));
                        if p == prefix_path(f@, k as int) {
                            assert(item_views(ds@).contains(ItemView::Dir(cur@)));
                        }
                        if exists|k2: int| 0 <= k2 < k + 1 && p == #[trigger] prefix_path(f@, k2) {
                            let k2 = choose|k2: int| 0 <= k2 < k + 1 && p == #[trigger] prefix_path(f@, k2);
                            if k2 == k {
                                assert(item_views(ds@).contains(ItemView::Dir(cur@)));
                            }
                        }
                    }
                }
            }
            let ghost old_cur = cur@;
            cur.comps.push(f.comps[k].clone());
            proof {
                assert(cur.comps.deep_view() =~= old_cur.comps.push(f.comps@[k as int]@));
                assert(f@.comps.take(k as int + 1) =~= f@.comps.take(k as int).push(f@.comps[k as int]));
                assert(cur@ =~= prefix_path(f@, k as int + 1));
            }
            k = k + 1;
        }
        proof {
            assert forall|p: PathView| item_views(ds@).contains(ItemView::Dir(p)) <==> is_listed_dir(
                fs.take(i as int + 1),
                p,
            ) by {
                assert(item_views(ds@).contains(ItemView::Dir(p)) == seen_dir(fs, i as int, f@, k as int, p));
                lemma_listed_dir_take(fs, i as int, p);
                if exists|k2: int| 0 <= k2 < fs[i as int].comps.len() && p == #[trigger] prefix_path(fs[i as int], k2) {
                    let k2 = choose|k2: int| 0 <= k2 < fs[i as int].comps.len() && p == #[trigger] prefix_path(fs[i as int], k2);
                    assert(p == prefix_path(f@, k2));
                }
                if exists|k2: int| 0 <= k2 < k && p == #[trigger] prefix_path(f@, k2) {
                    let k2 = choose|k2: int| 0 <= k2 < k && p == #[trigger] prefix_path(f@, k2);
                    assert(p == prefix_path(fs[i as int], k2));
                }
            }
        }
        i = i + 1;
    }
    proof {
        assert(fs.take(files@.len() as int) =~= fs);
    }
    ds
}

/// Whether `p` lies strictly below `root`.
fn is_under_root(p: &PathBuf, root: &PathBuf) -> (r: bool)
    ensures
        r == (p@ != root@ && path_starts_with(p@, root@)),
{
    !p.same(root) && p.starts_with(root)
}

/// Whether `a` and `b` hold the same item.
proof fn lemma_same_multiset_contains(a: Seq<ItemView>, b: Seq<ItemView>)
    requires
        a.to_multiset() == b.to_multiset(),
    ensures
        forall|x: ItemView| a.contains(x) <==> b.contains(x),
        a.no_duplicates() ==> b.no_duplicates(),
{
    broadcast use vstd::seq_lib::group_to_multiset_ensures;

    assert forall|x: ItemView| a.contains(x) <==> b.contains(x) by {
        assert(a.contains(x) <==> a.to_multiset().count(x) > 0);
        assert(b.contains(x) <==> b.to_multiset().count(x) > 0);
    }
    if a.no_duplicates() {
        a.lemma_multiset_has_no_duplicates();
        b.lemma_multiset_has_no_duplicates_conv();
    }
}

/// Where to find an item: by its position, or by its path.
#[derive(Debug)]
pub enum ItemsIndex {
    Number(usize),
    Path(PathBuf),
}

/// The mathematical value of an [`ItemsIndex`].
pub enum ItemsIndexView {
    Number(nat),
    Path(PathView),
}

impl View for ItemsIndex {
    type V = ItemsIndexView;

    open spec fn view(&self) -> ItemsIndexView {
        match self {
            ItemsIndex::Number(n) => ItemsIndexView::Number(*n as nat),
            ItemsIndex::Path(p) => ItemsIndexView::Path(p@),
        }
    }
}

/// The first position in `s` of an entry with path `p`.
pub open spec fn find_path(s: Seq<ItemView>, p: PathView) -> Option<int> {
    if exists|i: int| 0 <= i < s.len() && (#[trigger] s[i]).path() == p {
        Some(
            choose|i: int|
                0 <= i < s.len() && (#[trigger] s[i]).path() == p && forall|j: int|
                    0 <= j < i ==> (#[trigger] s[j]).path() != p,
        )
    } else {
        None
    }
}

/// The position that an index designates in `s`, if any: a number as it is, a path
/// by its first entry.
pub open spec fn resolve(s: Seq<ItemView>, index: ItemsIndexView) -> Option<int> {
    match index {
        ItemsIndexView::Number(n) => Some(n as int),
        ItemsIndexView::Path(p) => find_path(s, p),
    }
}

/// The number of leading entries of `s` whose paths start with `p`.
pub open spec fn run_under(s: Seq<ItemView>, p: PathView) -> nat
    decreases s.len(),
{
    if s.len() == 0 || !path_starts_with(s[0].path(), p) {
        0
    } else {
        1 + run_under(s.skip(1), p)
    }
}

/// `s` without the entry at `i`, and, when that entry is a directory, without the
/// entries below it that directly follow it.
pub open spec fn remove_at(s: Seq<ItemView>, i: int) -> Seq<ItemView> {
    let rest = s.skip(i + 1);
    if s[i] is Dir {
        s.take(i) + rest.skip(run_under(rest, s[i].path()) as int)
    } else {
        s.take(i) + rest
    }
}

/// Whether some entry of `s` has path `p`.
pub open spec fn has_path(s: Seq<ItemView>, p: PathView) -> bool {
    exists|i: int| 0 <= i < s.len() && (#[trigger] s[i]).path() == p
}

/// The first position in `items` of an entry with path `p`.
fn position_of(items: &Vec<Item>, p: &PathBuf) -> (r: Option<usize>)
    ensures
        r matches Some(i) ==> Some(i as int) == find_path(item_views(items@), p@),
        r is None <==> find_path(item_views(items@), p@) is None,
        r is None <==> !has_path(item_views(items@), p@),
{
    let ghost s = item_views(items@);
    let mut i: usize = 0;
    while i < items.len()
        invariant
            s == item_views(items@),
            i <= items@.len(),
            forall|j: int| 0 <= j < i ==> (#[trigger] s[j]).path() != p@,
        decreases items@.len() - i,
    {
        proof {
            assert(s[i as int] == items@[i as int]@);
        }
        if items[i].path().same(p) {
            proof {
                assert(s[i as int].path() == p@);
                let c = choose|c: int|
                    0 <= c < s.len() && (#[trigger] s[c]).path() == p@ && forall|j: int|
                        0 <= j < c ==> (#[trigger] s[j]).path() != p@;
                if c < i {
                } else if c > i {
                    assert(s[i as int].path() != p@);
                }
            }
            return Some(i);
        }
        i = i + 1;
    }
    None
}

/// The length of the run of entries of `items` from position `from` whose paths start with `p`.
fn run_under_exec(items: &Vec<Item>, from: usize, p: &PathBuf) -> (n: usize)
    requires
        from <= items@.len(),
    ensures
        n == run_under(item_views(items@).skip(from as int), p@),
        from + n <= items@.len(),
{
    let ghost s = item_views(items@);
    let mut k: usize = from;
    proof {
        assert(s.skip(from as int).skip(0) =~= s.skip(from as int));
    }
    while k < items.len() && items[k].path().starts_with(p)
        invariant
            s == item_views(items@),
            from <= k <= items@.len(),
            run_under(s.skip(from as int), p@) == (k - from) + run_under(s.skip(k as int), p@),
        decreases items@.len() - k,
    {
        proof {
            assert(s[k as int] == items@[k as int]@);
            assert(s.skip(k as int)[0] == s[k as int]);
            assert(s.skip(k as int).skip(1) =~= s.skip(k + 1));
        }
        k = k + 1;
    }
    proof {
        if k < items@.len() {
            assert(s[k as int] == items@[k as int]@);
            assert(s.skip(k as int)[0] == s[k as int]);
        }
    }
    k - from
}

/// Removes `n` entries of `v` from position `i` on.
fn cut_out(v: &mut Vec<Item>, i: usize, n: usize)
    requires
        i + n <= old(v)@.len(),
    ensures
        item_views(final(v)@) == item_views(old(v)@).take(i as int) + item_views(old(v)@).skip(i + n),
{
    let ghost s = v@;
    let mut tail = v.split_off(i);
    let mut rest = tail.split_off(n);
    v.append(&mut rest);
    proof {
        assert(v@ =~= s.take(i as int) + s.skip(i + n));
        assert(item_views(v@) =~= item_views(s).take(i as int) + item_views(s).skip(i + n));
    }
}

proof fn lemma_item_views_update(s: Seq<Item>, i: int, x: Item)
    requires
        0 <= i < s.len(),
    ensures
        item_views(s.update(i, x)) == item_views(s).update(i, x@),
{
    assert(item_views(s.update(i, x)) =~= item_views(s).update(i, x@));
}

/// The entries of `s` whose flag in `keep` is set, in order.
pub open spec fn select(s: Seq<ItemView>, keep: Seq<bool>) -> Seq<ItemView>
    decreases s.len(),
{
    if s.len() == 0 || keep.len() == 0 {
        seq![]
    } else if keep.last() {
        select(s.drop_last(), keep.drop_last()).push(s.last())
    } else {
        select(s.drop_last(), keep.drop_last())
    }
}

/// Every entry's path is well formed and, when absolute, lies below `root`.
pub open spec fn paths_below(s: Seq<ItemView>, root: PathView) -> bool {
    forall|i: int|
        0 <= i < s.len() ==> (#[trigger] s[i]).path().wf() && (s[i].path().absolute
            ==> path_starts_with(s[i].path(), root))
}

/// A listing of files and directories below a root: every directory is followed by
/// the files directly inside it, directories in human order of their path.
#[derive(Debug)]
pub struct Items {
    items: Vec<Item>,
    root: PathBuf,
}

impl Default for Items {
    /// An empty listing with an empty root.
    fn default() -> (r: Items)
        ensures
            r@.items.len() == 0,
            r@.root == (PathView { absolute: false, comps: seq![] }),
    {
        let r = Items { items: Vec::new(), root: PathBuf::new() };
        proof {
            assert(r@.items =~= Seq::<ItemView>::empty());
            assert(r@.root =~= (PathView { absolute: false, comps: seq![] }));
        }
        r
    }
}

/// The mathematical value of [`Items`].
pub struct ItemsView {
    pub items: Seq<ItemView>,
    pub root: PathView,
}

impl View for Items {
    type V = ItemsView;

    closed spec fn view(&self) -> ItemsView {
        ItemsView { items: item_views(self.items@), root: self.root@ }
    }
}

/// The entries that `Items::new` lists for `files`, when its directories are arranged as `ds`.
pub open spec fn listing_of(files: Seq<PathView>, ds: Seq<ItemView>) -> Seq<ItemView> {
    keep_under(layout(files, ds), root_of(files))
}

impl Items {
    /// Lists `files` (absolute paths, none of them the file system root) below their
    /// deepest common root. Every proper ancestor of a file becomes a directory; the
    /// directories are sorted by their text in human order, and each is followed by
    /// the files directly inside it that are not themselves directories, in the order
    /// given. The root itself and anything outside it are left out.
    pub fn new(files: &[PathBuf]) -> (r: Items)
        requires
            valid_inputs(path_views(files@)),
        ensures
            r@.root == root_of(path_views(files@)),
            exists|ds: Seq<ItemView>|
                dir_arrangement(path_views(files@), ds) && r@.items == #[trigger] listing_of(
                    path_views(files@),
                    ds,
                ),
    {
        let ghost fs = path_views(files@);
        let root = listing_root(files);
        let mut ds = listing_dirs(files);
        let ghost unsorted = item_views(ds@);
        sort_items(&mut ds);
        let ghost dsv = item_views(ds@);
        proof {
            lemma_same_multiset_contains(unsorted, dsv);
            assert forall|k: int| 0 <= k < dsv.len() implies (#[trigger] dsv[k]) is Dir by {
                assert(dsv.contains(dsv[k]));
                assert(unsorted.contains(dsv[k]));
                let m = choose|m: int| 0 <= m < unsorted.len() && unsorted[m] == dsv[k];
            }
            assert(dir_arrangement(fs, dsv));
        }
        let mut out: Vec<Item> = Vec::new();
        let mut j: usize = 0;
        proof {
            assert(dsv.take(0) =~= Seq::<ItemView>::empty());
            assert(item_views(out@) =~= Seq::<ItemView>::empty());
        }
        while j < ds.len()
            invariant
                fs == path_views(files@),
                valid_inputs(fs),
                root@ == root_of(fs),
                dsv == item_views(ds@),
                dir_arrangement(fs, dsv),
                j <= ds@.len(),
                item_views(out@) == keep_under(layout(fs, dsv.take(j as int)), root@),
            decreases ds@.len() - j,
        {
            proof {
                assert(dsv[j as int] == ds@[j as int]@);
            }
            let d = ds[j].path();
            let ghost head = item_views(out@);
            if is_under_root(d, &root) {
                out.push(Item::Dir(d.duplicate()));
            }
            let ghost dir_part = seq![ItemView::Dir(d@)];
            proof {
                assert(dir_part.drop_last() =~= Seq::<ItemView>::empty());
                assert(dir_part.last() == ItemView::Dir(d@));
                assert(keep_under(Seq::<ItemView>::empty(), root@) =~= Seq::<ItemView>::empty());
                if under_root(ItemView::Dir(d@), root@) {
                    assert(keep_under(dir_part, root@) =~= seq![ItemView::Dir(d@)]);
                } else {
                    assert(keep_under(dir_part, root@) =~= Seq::<ItemView>::empty());
                }
                assert(item_views(out@) =~= head + keep_under(dir_part, root@));
            }
            let ghost mid = item_views(out@);
            let mut m: usize = 0;
            proof {
                assert(fs.take(0) =~= Seq::<PathView>::empty());
                assert(mid =~= mid + keep_under(direct_children(fs, fs.take(0), d@), root@));
            }
            while m < files.len()
                invariant
                    fs == path_views(files@),
                    root@ == root_of(fs),
                    dsv == item_views(ds@),
                    dir_arrangement(fs, dsv),
                    m <= files@.len(),
                    item_views(out@) == mid + keep_under(direct_children(fs, fs.take(m as int), d@), root@),
                decreases files@.len() - m,
            {
                let f = &files[m];
                proof {
                    assert(fs[m as int] == f@);
                    assert(fs.take(m as int + 1).drop_last() =~= fs.take(m as int));
                    assert(fs.take(m as int + 1).last() == f@);
                }
                let ghost before = item_views(out@);
                let ghost kids = direct_children(fs, fs.take(m as int), d@);
                proof {
                    assert(kids.push(ItemView::File(f@)).drop_last() =~= kids);
                    assert(kids.push(ItemView::File(f@)).last() == ItemView::File(f@));
                }
                let parent_matches = match f.parent() {
                    Some(q) => q.same(d),
                    None => false,
                };
                let is_dir = holds_dir(&ds, f);
                if parent_matches && !is_dir && is_under_root(f, &root) {
                    out.push(Item::File(f.duplicate()));
                    proof {
                        assert(item_views(out@) =~= before.push(ItemView::File(f@)));
                        assert(keep_under(kids.push(ItemView::File(f@)), root@) == keep_under(kids, root@).push(ItemView::File(f@)));
                    }
                } else {
                    proof {
                        if parent_matches && !is_dir {
                            assert(keep_under(kids.push(ItemView::File(f@)), root@) == keep_under(kids, root@));
                        }
                    }
                }
                m = m + 1;
            }
            proof {
                assert(fs.take(files@.len() as int) =~= fs);
                let tk = dsv.take(j as int + 1);
                assert(tk.drop_last() =~= dsv.take(j as int));
                assert(tk.last() == dsv[j as int]);
                assert(layout(fs, tk) == layout(fs, dsv.take(j as int)) + dir_part + direct_children(fs, fs, d@));
                lemma_keep_under_add(layout(fs, dsv.take(j as int)) + dir_part, direct_children(fs, fs, d@), root@);
                lemma_keep_under_add(layout(fs, dsv.take(j as int)), dir_part, root@);
                assert(item_views(out@) =~= keep_under(layout(fs, tk), root@));
            }
            j = j + 1;
        }
        proof {
            assert(dsv.take(ds@.len() as int) =~= dsv);
        }
        let r = Items { items: out, root };
        proof {
            assert(r@.items == listing_of(fs, dsv));
        }
        r
    }

    /// The listed entries, in order.
    pub fn items(&self) -> (r: &[Item])
        ensures
            item_views(r@) == self@.items,
    {
        self.items.as_slice()
    }

    /// The root that the entries are listed below.
    pub fn root(&self) -> (r: &PathBuf)
        ensures
            r@ == self@.root,
    {
        &self.root
    }

    /// The number of entries.
    pub fn len(&self) -> (r: usize)
        ensures
            r == self@.items.len(),
    {
        self.items.len()
    }

    /// The position that `index` designates (a number as it is, a path by its first entry).
    pub fn resolve_index(&self, index: &ItemsIndex) -> (r: Option<usize>)
        ensures
            r matches Some(i) ==> resolve(self@.items, index@) == Some(i as int),
            r is None <==> resolve(self@.items, index@) is None,
    {
        match index {
            ItemsIndex::Number(n) => Some(*n),
            ItemsIndex::Path(p) => position_of(&self.items, p),
        }
    }

    /// The entry that `index` designates, if there is one.
    pub fn get(&self, index: &ItemsIndex) -> (r: Option<&Item>)
        ensures
            r matches Some(it) ==> (resolve(self@.items, index@) matches Some(i) && 0 <= i
                < self@.items.len() && it@ == self@.items[i]),
            r is None <==> (resolve(self@.items, index@) matches Some(i) ==> !(0 <= i
                < self@.items.len())),
    {
        let i = match self.resolve_index(index) {
            Some(i) => i,
            None => return None,
        };
        if i < self.items.len() {
            proof {
                assert(item_views(self.items@)[i as int] == self.items@[i as int]@);
            }
            Some(&self.items[i])
        } else {
            None
        }
    }

    /// The entry that `index` designates, if there is one, for changing in place.
    pub fn get_mut(&mut self, index: &ItemsIndex) -> (r: Option<&mut Item>)
        ensures
            match resolve(old(self)@.items, index@) {
                Some(i) if 0 <= i < old(self)@.items.len() => {
                    &&& r matches Some(m) && (*m)@ == old(self)@.items[i] && final(self)@ == (
                    ItemsView { items: old(self)@.items.update(i, (*final(m))@), root: old(self)@.root })
                },
                _ => r is None && final(self)@ == old(self)@,
            },
    {
        let i = match self.resolve_index(index) {
            Some(i) => i,
            None => return None,
        };
        if i < self.items.len() {
            let ghost before = self.items@;
            proof {
                assert(item_views(before)[i as int] == before[i as int]@);
            }
            let m = &mut self.items[i];
            proof {
                lemma_item_views_update(before, i as int, *final(m));
            }
            Some(m)
        } else {
            None
        }
    }

    /// Removes the entry that `index` designates and returns it; a directory takes the
    /// entries below it that directly follow it along. Nothing changes when `index`
    /// designates no entry.
    pub fn remove(&mut self, index: &ItemsIndex) -> (r: Option<Item>)
        ensures
            final(self)@.root == old(self)@.root,
            match resolve(old(self)@.items, index@) {
                Some(i) if 0 <= i < old(self)@.items.len() => {
                    &&& r matches Some(it)
                    &&& it@ == old(self)@.items[i]
                    &&& final(self)@.items == remove_at(old(self)@.items, i)
                },
                _ => r is None && final(self)@.items == old(self)@.items,
            },
    {
        let ghost s = old(self)@.items;
        let i = match self.resolve_index(index) {
            Some(i) => i,
            None => return None,
        };
        if i >= self.items.len() {
            return None;
        }
        proof {
            assert(s[i as int] == self.items@[i as int]@);
        }
        let removed = self.items.remove(i);
        let ghost after = item_views(self.items@);
        proof {
            assert(after =~= s.take(i as int) + s.skip(i as int + 1));
        }
        match &removed {
            Item::Dir(path) => {
                let n = run_under_exec(&self.items, i, path);
                cut_out(&mut self.items, i, n);
                proof {
                    let rest = s.skip(i as int + 1);
                    assert(after.skip(i as int) =~= rest);
                    assert(after.skip(i + n) =~= rest.skip(n as int));
                    assert(after.take(i as int) =~= s.take(i as int));
                    assert(item_views(self.items@) =~= remove_at(s, i as int));
                }
            },
            Item::File(_) => {
                proof {
                    assert(item_views(self.items@) =~= remove_at(s, i as int));
                }
            },
        }
        Some(removed)
    }

    /// The number of entries that removing the entry `index` designates would leave; none
    /// when it designates no entry.
    pub fn len_after_remove(&self, index: &ItemsIndex) -> (r: Option<usize>)
        ensures
            match resolve(self@.items, index@) {
                Some(i) if 0 <= i < self@.items.len() => r matches Some(n) && n == remove_at(self@.items, i).len(),
                _ => r is None,
            },
    {
        let ghost s = self@.items;
        let i = match self.resolve_index(index) {
            Some(i) => i,
            None => return None,
        };
        if i >= self.items.len() {
            return None;
        }
        proof {
            assert(s[i as int] == self.items@[i as int]@);
        }
        match &self.items[i] {
            Item::Dir(p) => {
                let n = run_under_exec(&self.items, i + 1, p);
                proof {
                    assert(s.skip(i as int + 1).skip(n as int).len() == s.len() - (i + 1) - n);
                    assert(remove_at(s, i as int).len() == i + (s.len() - (i + 1) - n));
                }
                Some(self.items.len() - 1 - n)
            },
            Item::File(_) => {
                proof {
                    assert(remove_at(s, i as int).len() == s.len() - 1);
                }
                Some(self.items.len() - 1)
            },
        }
    }

    /// Appends `item` unless an entry with its path is listed already; returns the
    /// appended entry.
    pub fn add(&mut self, item: Item) -> (r: Option<&Item>)
        ensures
            final(self)@.root == old(self)@.root,
            has_path(old(self)@.items, item@.path()) ==> r is None && final(self)@.items == old(
                self,
            )@.items,
            !has_path(old(self)@.items, item@.path()) ==> (r matches Some(it) && it@ == item@
                && final(self)@.items == old(self)@.items.push(item@)),
    {
        if position_of(&self.items, item.path()).is_some() {
            return None;
        }
        let ghost before = self.items@;
        self.items.push(item);
        proof {
            assert(item_views(self.items@) =~= item_views(before).push(item@));
        }
        let last = self.items.len() - 1;
        proof {
            assert(item_views(self.items@)[last as int] == self.items@[last as int]@);
        }
        Some(&self.items[last])
    }

    /// An iterator over the entries, in order.
    pub fn iter(&self) -> (r: std::slice::Iter<'_, Item>)
        ensures
            item_views(into_iter_elts(r)) == self@.items,
    {
        let sl = self.items.as_slice();
        let r = sl.iter();
        proof {
            broadcast use vstd::std_specs::slice::axiom_spec_slice_iter;
            assert(into_iter_elts(r) == sl@);
        }
        r
    }

    /// The entries, for changing in place; the root stays.
    pub fn iter_mut(&mut self) -> (r: &mut [Item])
        ensures
            item_views(r@) == old(self)@.items,
            final(self)@ == (ItemsView { items: item_views(final(r)@), root: old(self)@.root }),
    {
        self.items.as_mut_slice()
    }

    /// The entries of which `ignored` says false, in their order; the root stays.
    pub fn without(self, ignored: &Vec<bool>) -> (r: Items)
        requires
            ignored@.len() == self@.items.len(),
        ensures
            r@.root == self@.root,
            r@.items == select(self@.items, kept(ignored@)),
    {
        let ghost s = self@.items;
        let ghost keep = kept(ignored@);
        let mut out: Vec<Item> = Vec::new();
        let mut i: usize = 0;
        while i < self.items.len()
            invariant
                s == item_views(self.items@),
                s == self@.items,
                keep == kept(ignored@),
                ignored@.len() == s.len(),
                i <= self.items@.len(),
                item_views(out@) == select(s.take(i as int), keep.take(i as int)),
            decreases self.items@.len() - i,
        {
            proof {
                assert(s[i as int] == self.items@[i as int]@);
                assert(s.take(i as int + 1).drop_last() =~= s.take(i as int));
                assert(s.take(i as int + 1).last() == s[i as int]);
                assert(keep.take(i as int + 1).drop_last() =~= keep.take(i as int));
                assert(keep.take(i as int + 1).last() == !ignored@[i as int]);
            }
            let ghost before = item_views(out@);
            if !ignored[i] {
                out.push(self.items[i].duplicate());
                proof {
                    assert(item_views(out@) =~= before.push(s[i as int]));
                }
            }
            i = i + 1;
        }
        proof {
            assert(s.take(s.len() as int) =~= s);
            assert(keep.take(s.len() as int) =~= keep);
        }
        Items { items: out, root: self.root }
    }

    /// Leaves out the entries that the ignore rules of the root reject: the `globs`
    /// given, `.git`, the root's `.gitignore` and git's global excludes (see `without`,
    /// given the verdict of `Ignore::is_ignored` for each entry). Fails when the rules
    /// cannot be built: when the overrides of the globs cannot (see
    /// `build_override_ignorer`), or the root's `.gitignore`, read from disk, cannot.
    pub fn ignore(self, globs: &Vec<String>) -> (r: Result<Items, IgnoreError>)
        requires
            paths_below(self@.items, self@.root),
        ensures
            ({
                let root = path_text(self@.root);
                let og = override_glob_list(ignored_patterns(globs.deep_view()));
                &&& r matches Ok(out) ==> out@.root == self@.root && exists|ignored: Seq<bool>|
                    ignored.len() == self@.items.len() && out@.items == #[trigger] select(self@.items, kept(ignored))
                    && forall|k: int| 0 <= k < ignored.len() ==> #[trigger] entry_verdict(
                        root,
                        og,
                        self@.items[k].path(),
                        ignored[k],
                    )
                &&& r is Ok ==> overrides_build(root, og)
                &&& !overrides_build(root, og) ==> r is Err
                &&& r matches Err(e) ==> e == IgnoreError::Gitignore || override_error_is(root, og, e)
            }),
    {
        let rules = IgnoreBuilder::new(&self.root).ignore(globs).build();
        let rules = match rules {
            Ok(rules) => rules,
            Err(e) => return Err(e),
        };
        let ghost s = self@.items;
        let ghost root = path_text(self@.root);
        let ghost og = override_glob_list(ignored_patterns(globs.deep_view()));
        let mut ignored: Vec<bool> = Vec::new();
        let mut i: usize = 0;
        while i < self.items.len()
            invariant
                s == item_views(self.items@),
                s == self@.items,
                paths_below(s, self.root@),
                rules.root_path() == self.root@,
                rules.override_root() == root,
                rules.override_globs() == og,
                rules.has_gitignores(),
                root == path_text(self@.root),
                i <= self.items@.len(),
                ignored@.len() == i,
                forall|k: int| 0 <= k < i ==> #[trigger] entry_verdict(root, og, s[k].path(), ignored@[k]),
            decreases self.items@.len() - i,
        {
            proof {
                assert(s[i as int] == self.items@[i as int]@);
            }
            let v = rules.is_ignored(self.items[i].path());
            let ghost before = ignored@;
            ignored.push(v);
            proof {
                assert(entry_verdict(root, og, s[i as int].path(), v));
                assert forall|k: int| 0 <= k < i + 1 implies #[trigger] entry_verdict(root, og, s[k].path(), ignored@[k]) by {
                    if k < i {
                        assert(ignored@[k] == before[k]);
                    }
                }
            }
            i = i + 1;
        }
        let ghost iv = ignored@;
        let out = self.without(&ignored);
        proof {
            assert(out@.items == select(s, kept(iv)));
        }
        Ok(out)
    }

    /// The entries, consuming the listing.
    pub fn into_items(self) -> (r: Vec<Item>)
        ensures
            item_views(r@) == self@.items,
    {
        self.items
    }
}

/// Which entries stay, given for each whether it is ignored.
pub open spec fn kept(ignored: Seq<bool>) -> Seq<bool> {
    ignored.map_values(|b: bool| !b)
}

/// What holds of the verdict `ignored` of the ignore rules (with gitignores read) on the
/// entry at `p`: a match of the overrides built below `root` from `globs`, the entry
/// taken as a directory or a file as the disk has it, makes it ignored.
pub open spec fn entry_verdict(root: Seq<char>, globs: Seq<Seq<char>>, p: PathView, ignored: bool) -> bool {
    exists|is_dir: bool| #[trigger] verdict_holds(root, globs, path_text(p), is_dir, true, ignored)
}

proof fn lemma_keep_under_all_under(s: Seq<ItemView>, root: PathView)
    ensures
        forall|k: int| 0 <= k < keep_under(s, root).len() ==> under_root(#[trigger] keep_under(s, root)[k], root),
    decreases s.len(),
{
    if s.len() > 0 {
        lemma_keep_under_all_under(s.drop_last(), root);
        let prev = keep_under(s.drop_last(), root);
        let cur = keep_under(s, root);
        assert forall|k: int| 0 <= k < cur.len() implies under_root(#[trigger] cur[k], root) by {
            if k < prev.len() {
                assert(cur[k] == prev[k]);
            }
        }
    }
}

/// Every entry of a listing lies strictly below the listing's common root: it starts
/// with the root and is not the root itself.
pub proof fn lemma_items_under_root(files: Seq<PathView>, ds: Seq<ItemView>)
    ensures
        forall|k: int| 0 <= k < listing_of(files, ds).len() ==> {
            let p = (#[trigger] listing_of(files, ds)[k]).path();
            p != root_of(files) && path_starts_with(p, root_of(files))
        },
{
    lemma_keep_under_all_under(layout(files, ds), root_of(files));
}

/// Whether `files` are inputs that `Items::new` accepts (see `valid_inputs`).
pub fn inputs_are_valid(files: &[PathBuf]) -> (r: bool)
    ensures
        r == valid_inputs(path_views(files@)),
{
    let ghost fs = path_views(files@);
    let mut i: usize = 0;
    while i < files.len()
        invariant
            i <= files@.len(),
            fs == path_views(files@),
            forall|j: int| 0 <= j < i ==> {
                &&& (#[trigger] fs[j]).absolute
                &&& fs[j].comps.len() > 0
                &&& fs[j].wf()
                &&& short_digit_runs(path_text(fs[j]))
            },
        decreases files@.len() - i,
    {
        let f = &files[i];
        proof {
            assert(fs[i as int] == f@);
        }
        if !f.absolute || f.comps.len() == 0 {
            proof {
                assert(f.comps@.len() == f@.comps.len());
            }
            return false;
        }
        if !crate::path::components_valid(f) {
            return false;
        }
        let text = f.to_text();
        if !crate::text::has_short_digit_runs(text.as_str()) {
            return false;
        }
        proof {
            assert(f.comps@.len() == f@.comps.len());
        }
        i = i + 1;
    }
    true
}

proof fn lemma_keep_under_from(s: Seq<ItemView>, root: PathView)
    ensures
        forall|k: int| 0 <= k < keep_under(s, root).len() ==> s.contains(#[trigger] keep_under(s, root)[k]),
    decreases s.len(),
{
    if s.len() > 0 {
        lemma_keep_under_from(s.drop_last(), root);
        let prev = keep_under(s.drop_last(), root);
        let cur = keep_under(s, root);
        assert forall|k: int| 0 <= k < cur.len() implies s.contains(#[trigger] cur[k]) by {
            if k < prev.len() {
                assert(cur[k] == prev[k]);
                let j = choose|j: int| 0 <= j < s.drop_last().len() && s.drop_last()[j] == prev[k];
                assert(s[j] == cur[k]);
            } else {
                assert(cur[k] == s.last());
                assert(s[s.len() - 1] == cur[k]);
            }
        }
    }
}

/// What an entry of the listing of `files` is: an input that is no ancestor of another
/// input, as a file directly inside `d`.
pub open spec fn file_entry(files: Seq<PathView>, p: PathView) -> bool {
    &&& files.contains(p)
    &&& !is_listed_dir(files, p)
    &&& path_parent(p) is Some
}

proof fn lemma_direct_children_entries(all: Seq<PathView>, part: Seq<PathView>, d: PathView)
    requires
        forall|i: int| 0 <= i < part.len() ==> all.contains(#[trigger] part[i]),
    ensures
        forall|k: int| 0 <= k < direct_children(all, part, d).len() ==> {
            let it = #[trigger] direct_children(all, part, d)[k];
            &&& it is File
            &&& file_entry(all, it.path())
            &&& path_parent(it.path()) == Some(d)
        },
    decreases part.len(),
{
    if part.len() > 0 {
        assert forall|i: int| 0 <= i < part.drop_last().len() implies all.contains(#[trigger] part.drop_last()[i]) by {
            assert(part.drop_last()[i] == part[i]);
        }
        lemma_direct_children_entries(all, part.drop_last(), d);
        assert(all.contains(part[part.len() - 1]));
    }
}

proof fn lemma_layout_entries(files: Seq<PathView>, ds: Seq<ItemView>)
    requires
        forall|k: int| 0 <= k < ds.len() ==> (#[trigger] ds[k]) is Dir && is_listed_dir(files, ds[k].path()),
    ensures
        forall|k: int| 0 <= k < layout(files, ds).len() ==> {
            let it = #[trigger] layout(files, ds)[k];
            &&& it is Dir ==> is_listed_dir(files, it.path())
            &&& it is File ==> file_entry(files, it.path())
        },
    decreases ds.len(),
{
    if ds.len() > 0 {
        let rest = ds.drop_last();
        assert forall|k: int| 0 <= k < rest.len() implies (#[trigger] rest[k]) is Dir && is_listed_dir(files, rest[k].path()) by {
            assert(rest[k] == ds[k]);
        }
        lemma_layout_entries(files, rest);
        let d = ds.last().path();
        assert(ds[ds.len() - 1] == ds.last());
        assert forall|i: int| 0 <= i < files.len() implies files.contains(#[trigger] files[i]) by {}
        lemma_direct_children_entries(files, files, d);
        let a = layout(files, rest);
        let b = seq![ItemView::Dir(d)];
        let c = direct_children(files, files, d);
        let all = layout(files, ds);
        assert(all == a + b + c);
        assert forall|k: int| 0 <= k < all.len() implies {
            let it = #[trigger] all[k];
            &&& it is Dir ==> is_listed_dir(files, it.path())
            &&& it is File ==> file_entry(files, it.path())
        } by {
            if k < a.len() {
                assert(all[k] == a[k]);
            } else if k == a.len() {
                assert(all[k] == ItemView::Dir(d));
            } else {
                assert(all[k] == c[k - a.len() - 1]);
            }
        }
    }
}

/// Every entry of a listing is one that the inputs call for: a directory is a proper
/// ancestor of some input, and a file is an input that is no ancestor of another input.
pub proof fn lemma_items_are_inputs(files: Seq<PathView>, ds: Seq<ItemView>)
    requires
        dir_arrangement(files, ds),
    ensures
        forall|k: int| 0 <= k < listing_of(files, ds).len() ==> {
            let it = #[trigger] listing_of(files, ds)[k];
            &&& it is Dir ==> is_listed_dir(files, it.path())
            &&& it is File ==> file_entry(files, it.path())
        },
{
    assert forall|k: int| 0 <= k < ds.len() implies (#[trigger] ds[k]) is Dir && is_listed_dir(files, ds[k].path()) by {
        assert(ds.contains(ds[k]));
        assert(ds[k] == ItemView::Dir(ds[k].path()));
    }
    lemma_layout_entries(files, ds);
    lemma_keep_under_from(layout(files, ds), root_of(files));
    let s = layout(files, ds);
    let l = listing_of(files, ds);
    assert forall|k: int| 0 <= k < l.len() implies {
        let it = #[trigger] l[k];
        &&& it is Dir ==> is_listed_dir(files, it.path())
        &&& it is File ==> file_entry(files, it.path())
    } by {
        assert(s.contains(l[k]));
        let j = choose|j: int| 0 <= j < s.len() && s[j] == l[k];
        assert(s[j] == l[k]);
    }
}

/// No two entries of `s` have the same path.
pub open spec fn paths_distinct(s: Seq<ItemView>) -> bool {
    forall|i: int, j: int| 0 <= i < j < s.len() ==> (#[trigger] s[i]).path() != (#[trigger] s[j]).path()
}

proof fn lemma_direct_children_in_part(all: Seq<PathView>, part: Seq<PathView>, d: PathView)
    requires
        forall|i: int, j: int| 0 <= i < j < part.len() ==> part[i] != part[j],
    ensures
        forall|k: int| 0 <= k < direct_children(all, part, d).len() ==> part.contains(
            (#[trigger] direct_children(all, part, d)[k]).path(),
        ),
        paths_distinct(direct_children(all, part, d)),
    decreases part.len(),
{
    if part.len() > 0 {
        let pre = part.drop_last();
        assert forall|i: int, j: int| 0 <= i < j < pre.len() implies pre[i] != pre[j] by {
            assert(pre[i] == part[i] && pre[j] == part[j]);
        }
        lemma_direct_children_in_part(all, pre, d);
        let rest = direct_children(all, pre, d);
        let cur = direct_children(all, part, d);
        assert forall|k: int| 0 <= k < rest.len() implies (#[trigger] rest[k]).path() != part.last() by {
            let j = choose|j: int| 0 <= j < pre.len() && pre[j] == rest[k].path();
            assert(part[j] != part[part.len() - 1]);
        }
        assert forall|k: int| 0 <= k < cur.len() implies part.contains((#[trigger] cur[k]).path()) by {
            if k < rest.len() {
                assert(cur[k] == rest[k]);
                let j = choose|j: int| 0 <= j < pre.len() && pre[j] == rest[k].path();
                assert(part[j] == pre[j]);
            } else {
                assert(part[part.len() - 1] == cur[k].path());
            }
        }
        assert forall|i: int, j: int| 0 <= i < j < cur.len() implies (#[trigger] cur[i]).path() != (#[trigger] cur[j]).path() by {
            if j < rest.len() {
                assert(cur[i] == rest[i] && cur[j] == rest[j]);
            } else {
                assert(cur[i] == rest[i]);
                assert(cur[j].path() == part.last());
            }
        }
    }
}

proof fn lemma_layout_distinct(files: Seq<PathView>, ds: Seq<ItemView>)
    requires
        forall|k: int| 0 <= k < ds.len() ==> (#[trigger] ds[k]) is Dir && is_listed_dir(files, ds[k].path()),
        ds.no_duplicates(),
        forall|i: int, j: int| 0 <= i < j < files.len() ==> files[i] != files[j],
    ensures
        paths_distinct(layout(files, ds)),
        forall|k: int| 0 <= k < layout(files, ds).len() ==> {
            let it = #[trigger] layout(files, ds)[k];
            &&& it is Dir ==> ds.contains(it)
            &&& it is File ==> !is_listed_dir(files, it.path()) && path_parent(it.path()) is Some
                && ds.contains(ItemView::Dir(path_parent(it.path())->0))
        },
    decreases ds.len(),
{
    if ds.len() > 0 {
        let rest = ds.drop_last();
        assert forall|k: int| 0 <= k < rest.len() implies (#[trigger] rest[k]) is Dir && is_listed_dir(files, rest[k].path()) by {
            assert(rest[k] == ds[k]);
        }
        assert(rest.no_duplicates()) by {
            assert forall|i: int, j: int| 0 <= i < rest.len() && 0 <= j < rest.len() && i != j implies rest[i] != rest[j] by {
                assert(rest[i] == ds[i] && rest[j] == ds[j]);
            }
        }
        lemma_layout_distinct(files, rest);
        let d = ds.last().path();
        assert(ds[ds.len() - 1] == ds.last());
        assert(ds.last() == ItemView::Dir(d));
        assert(is_listed_dir(files, d));
        assert(!rest.contains(ItemView::Dir(d))) by {
            if rest.contains(ItemView::Dir(d)) {
                let j = choose|j: int| 0 <= j < rest.len() && rest[j] == ItemView::Dir(d);
                assert(ds[j] == ds[ds.len() - 1]);
            }
        }
        assert forall|i: int| 0 <= i < files.len() implies files.contains(#[trigger] files[i]) by {}
        lemma_direct_children_entries(files, files, d);
        lemma_direct_children_in_part(files, files, d);
        let a = layout(files, rest);
        let c = direct_children(files, files, d);
        let all = layout(files, ds);
        assert(all == a + seq![ItemView::Dir(d)] + c);
        assert forall|k: int| 0 <= k < all.len() implies {
            let it = #[trigger] all[k];
            &&& it is Dir ==> ds.contains(it)
            &&& it is File ==> !is_listed_dir(files, it.path()) && path_parent(it.path()) is Some
                && ds.contains(ItemView::Dir(path_parent(it.path())->0))
        } by {
            if k < a.len() {
                assert(all[k] == a[k]);
                if a[k] is Dir {
                    let j = choose|j: int| 0 <= j < rest.len() && rest[j] == a[k];
                    assert(ds[j] == a[k]);
                } else {
                    let q = ItemView::Dir(path_parent(a[k].path())->0);
                    let j = choose|j: int| 0 <= j < rest.len() && rest[j] == q;
                    assert(ds[j] == q);
                }
            } else if k == a.len() {
                assert(all[k] == ItemView::Dir(d));
                assert(ds[ds.len() - 1] == all[k]);
            } else {
                assert(all[k] == c[k - a.len() - 1]);
                assert(ds[ds.len() - 1] == ItemView::Dir(path_parent(all[k].path())->0));
            }
        }
        assert forall|i: int, j: int| 0 <= i < j < all.len() implies (#[trigger] all[i]).path() != (#[trigger] all[j]).path() by {
            if j < a.len() {
                assert(all[i] == a[i] && all[j] == a[j]);
            } else if i < a.len() {
                assert(all[i] == a[i]);
                if j == a.len() {
                    assert(all[j] == ItemView::Dir(d));
                    if a[i] is Dir {
                        if a[i].path() == d {
                            assert(a[i] == ItemView::Dir(d));
                        }
                    }
                } else {
                    let cj = c[j - a.len() - 1];
                    assert(all[j] == cj);
                    if a[i].path() == cj.path() {
                        if a[i] is Dir {
                            let m = choose|m: int| 0 <= m < rest.len() && rest[m] == a[i];
                            assert(is_listed_dir(files, rest[m].path()));
                        } else {
                            assert(path_parent(a[i].path()) == Some(d));
                        }
                    }
                }
            } else if i == a.len() {
                assert(all[i] == ItemView::Dir(d));
                assert(all[j] == c[j - a.len() - 1]);
            } else {
                assert(all[i] == c[i - a.len() - 1] && all[j] == c[j - a.len() - 1]);
            }
        }
    }
}

proof fn lemma_keep_under_distinct(s: Seq<ItemView>, root: PathView)
    requires
        paths_distinct(s),
    ensures
        paths_distinct(keep_under(s, root)),
    decreases s.len(),
{
    if s.len() > 0 {
        let pre = s.drop_last();
        assert forall|i: int, j: int| 0 <= i < j < pre.len() implies (#[trigger] pre[i]).path() != (#[trigger] pre[j]).path() by {
            assert(pre[i] == s[i] && pre[j] == s[j]);
        }
        lemma_keep_under_distinct(pre, root);
        lemma_keep_under_from(pre, root);
        let prev = keep_under(pre, root);
        let cur = keep_under(s, root);
        assert forall|i: int, j: int| 0 <= i < j < cur.len() implies (#[trigger] cur[i]).path() != (#[trigger] cur[j]).path() by {
            if j < prev.len() {
                assert(cur[i] == prev[i] && cur[j] == prev[j]);
            } else {
                assert(cur[i] == prev[i]);
                assert(cur[j] == s.last());
                let m = choose|m: int| 0 <= m < pre.len() && pre[m] == prev[i];
                assert(s[m] == prev[i]);
                assert(s[s.len() - 1] == s.last());
            }
        }
    }
}

/// With distinct inputs, no two entries of the listing have the same path.
pub proof fn lemma_items_distinct(files: Seq<PathView>, ds: Seq<ItemView>)
    requires
        dir_arrangement(files, ds),
        forall|i: int, j: int| 0 <= i < j < files.len() ==> files[i] != files[j],
    ensures
        paths_distinct(listing_of(files, ds)),
{
    assert forall|k: int| 0 <= k < ds.len() implies (#[trigger] ds[k]) is Dir && is_listed_dir(files, ds[k].path()) by {
        assert(ds.contains(ds[k]));
        assert(ds[k] == ItemView::Dir(ds[k].path()));
    }
    lemma_layout_distinct(files, ds);
    lemma_keep_under_distinct(layout(files, ds), root_of(files));
}

proof fn lemma_common_len(a: Seq<Seq<char>>, b: Seq<Seq<char>>)
    ensures
        common_len(a, b) <= a.len(),
        common_len(a, b) <= b.len(),
        a.take(common_len(a, b) as int) == b.take(common_len(a, b) as int),
    decreases a.len(),
{
    if !(a.len() == 0 || b.len() == 0 || a[0] != b[0]) {
        lemma_common_len(a.skip(1), b.skip(1));
        let m = common_len(a.skip(1), b.skip(1)) as int;
        assert(a.take(m + 1) =~= seq![a[0]] + a.skip(1).take(m));
        assert(b.take(m + 1) =~= seq![b[0]] + b.skip(1).take(m));
    } else {
        assert(a.take(0) =~= b.take(0));
    }
}

proof fn lemma_root_fold(base: PathView, fs: Seq<PathView>)
    requires
        base.absolute,
        forall|i: int| 0 <= i < fs.len() ==> (#[trigger] fs[i]).absolute,
    ensures
        root_fold(base, fs).absolute,
        path_starts_with(base, root_fold(base, fs)),
        forall|i: int| 0 <= i < fs.len() ==> path_starts_with(#[trigger] fs[i], root_fold(base, fs)),
    decreases fs.len(),
{
    if fs.len() == 0 {
        assert(base.comps.take(base.comps.len() as int) =~= base.comps);
    } else {
        let pre = fs.drop_last();
        assert forall|i: int| 0 <= i < pre.len() implies (#[trigger] pre[i]).absolute by {
            assert(pre[i] == fs[i]);
        }
        lemma_root_fold(base, pre);
        let r0 = root_fold(base, pre);
        let last = fs.last();
        lemma_common_len(r0.comps, last.comps);
        let n = common_len(r0.comps, last.comps) as int;
        let r = root_fold(base, fs);
        assert(r == prefix_path(r0, n));
        assert(r.comps == r0.comps.take(n));
        assert(path_starts_with(r0, r)) by {
            assert(r0.comps.take(n) =~= r.comps);
        }
        assert(path_starts_with(last, r)) by {
            assert(last.comps.take(n) =~= r.comps);
        }
        crate::dir::lemma_starts_with_trans(base, r0, r);
        assert forall|i: int| 0 <= i < fs.len() implies path_starts_with(#[trigger] fs[i], r) by {
            if i < pre.len() {
                assert(pre[i] == fs[i]);
                crate::dir::lemma_starts_with_trans(fs[i], r0, r);
            } else {
                assert(fs[i] == last);
            }
        }
    }
}

proof fn lemma_layout_has_dir(files: Seq<PathView>, ds: Seq<ItemView>, k: int)
    requires
        0 <= k < ds.len(),
    ensures
        layout(files, ds).contains(ItemView::Dir(ds[k].path())),
    decreases ds.len(),
{
    let a = layout(files, ds.drop_last());
    let all = layout(files, ds);
    let c = direct_children(files, files, ds.last().path());
    assert(all == a + seq![ItemView::Dir(ds.last().path())] + c);
    if k < ds.len() - 1 {
        lemma_layout_has_dir(files, ds.drop_last(), k);
        assert(ds.drop_last()[k] == ds[k]);
        let j = choose|j: int| 0 <= j < a.len() && a[j] == ItemView::Dir(ds[k].path());
        assert(all[j] == a[j]);
    } else {
        assert(all[a.len() as int] == ItemView::Dir(ds.last().path()));
    }
}

proof fn lemma_direct_children_has(all: Seq<PathView>, part: Seq<PathView>, d: PathView, p: PathView)
    requires
        part.contains(p),
        path_parent(p) == Some(d),
        !is_listed_dir(all, p),
    ensures
        direct_children(all, part, d).contains(ItemView::File(p)),
    decreases part.len(),
{
    let pre = part.drop_last();
    let rest = direct_children(all, pre, d);
    let cur = direct_children(all, part, d);
    if part.last() == p {
        assert(cur == rest.push(ItemView::File(p)));
        assert(cur[rest.len() as int] == ItemView::File(p));
    } else {
        let j = choose|j: int| 0 <= j < part.len() && part[j] == p;
        assert(j < part.len() - 1);
        assert(pre[j] == p);
        lemma_direct_children_has(all, pre, d, p);
        let m = choose|m: int| 0 <= m < rest.len() && rest[m] == ItemView::File(p);
        assert(cur[m] == rest[m]);
    }
}

proof fn lemma_layout_has_file(files: Seq<PathView>, ds: Seq<ItemView>, k: int, p: PathView)
    requires
        0 <= k < ds.len(),
        path_parent(p) == Some(ds[k].path()),
        files.contains(p),
        !is_listed_dir(files, p),
    ensures
        layout(files, ds).contains(ItemView::File(p)),
    decreases ds.len(),
{
    let a = layout(files, ds.drop_last());
    let all = layout(files, ds);
    let c = direct_children(files, files, ds.last().path());
    assert(all == a + seq![ItemView::Dir(ds.last().path())] + c);
    if k < ds.len() - 1 {
        assert(ds.drop_last()[k] == ds[k]);
        lemma_layout_has_file(files, ds.drop_last(), k, p);
        let j = choose|j: int| 0 <= j < a.len() && a[j] == ItemView::File(p);
        assert(all[j] == a[j]);
    } else {
        lemma_direct_children_has(files, files, ds.last().path(), p);
        let j = choose|j: int| 0 <= j < c.len() && c[j] == ItemView::File(p);
        assert(all[a.len() + 1 + j] == c[j]);
    }
}

proof fn lemma_keep_under_keeps(s: Seq<ItemView>, root: PathView, x: ItemView)
    requires
        s.contains(x),
        under_root(x, root),
    ensures
        keep_under(s, root).contains(x),
    decreases s.len(),
{
    let prev = keep_under(s.drop_last(), root);
    let cur = keep_under(s, root);
    if s.last() == x {
        assert(cur == prev.push(x));
        assert(cur[prev.len() as int] == x);
    } else {
        let j = choose|j: int| 0 <= j < s.len() && s[j] == x;
        assert(s.drop_last()[j] == x);
        lemma_keep_under_keeps(s.drop_last(), root, x);
        let m = choose|m: int| 0 <= m < prev.len() && prev[m] == x;
        if under_root(s.last(), root) {
            assert(cur[m] == prev[m]);
        } else {
            assert(cur == prev);
        }
    }
}

/// Every input other than the root is listed: as a directory when it is a proper ancestor
/// of some input, otherwise as a file.
pub proof fn lemma_inputs_listed(files: Seq<PathView>, ds: Seq<ItemView>, p: PathView)
    requires
        dir_arrangement(files, ds),
        valid_inputs(files),
        files.contains(p),
        p != root_of(files),
    ensures
        listing_of(files, ds).contains(if is_listed_dir(files, p) {
            ItemView::Dir(p)
        } else {
            ItemView::File(p)
        }),
{
    let i = choose|i: int| 0 <= i < files.len() && files[i] == p;
    assert(files[i].absolute && files[i].comps.len() > 0);
    assert(files[0].absolute && files[0].comps.len() > 0);
    let base = path_parent(files[0]).unwrap();
    lemma_root_fold(base, files);
    let root = root_of(files);
    assert(path_starts_with(p, root));
    let x = if is_listed_dir(files, p) { ItemView::Dir(p) } else { ItemView::File(p) };
    assert(under_root(x, root));
    if is_listed_dir(files, p) {
        assert(ds.contains(ItemView::Dir(p)));
        let k = choose|k: int| 0 <= k < ds.len() && ds[k] == ItemView::Dir(p);
        lemma_layout_has_dir(files, ds, k);
    } else {
        let q = path_parent(p)->0;
        assert(q == prefix_path(files[i], files[i].comps.len() - 1));
        assert(is_listed_dir(files, q));
        assert(ds.contains(ItemView::Dir(q)));
        let k = choose|k: int| 0 <= k < ds.len() && ds[k] == ItemView::Dir(q);
        lemma_layout_has_file(files, ds, k, p);
    }
    lemma_keep_under_keeps(layout(files, ds), root, x);
}

proof fn lemma_layout_file_after_dir(files: Seq<PathView>, ds: Seq<ItemView>)
    ensures
        forall|j: int| 0 <= j < layout(files, ds).len() && (#[trigger] layout(files, ds)[j]) is File ==> exists|i: int|
            0 <= i < j && layout(files, ds)[i] == ItemView::Dir(path_parent(layout(files, ds)[j].path())->0),
    decreases ds.len(),
{
    if ds.len() > 0 {
        lemma_layout_file_after_dir(files, ds.drop_last());
        let d = ds.last().path();
        assert forall|i: int| 0 <= i < files.len() implies files.contains(#[trigger] files[i]) by {}
        lemma_direct_children_entries(files, files, d);
        let a = layout(files, ds.drop_last());
        let c = direct_children(files, files, d);
        let all = layout(files, ds);
        assert(all == a + seq![ItemView::Dir(d)] + c);
        assert forall|j: int| 0 <= j < all.len() && (#[trigger] all[j]) is File implies exists|i: int|
            0 <= i < j && all[i] == ItemView::Dir(path_parent(all[j].path())->0) by {
            if j < a.len() {
                assert(all[j] == a[j]);
                let i = choose|i: int| 0 <= i < j && a[i] == ItemView::Dir(path_parent(a[j].path())->0);
                assert(all[i] == a[i]);
            } else if j > a.len() {
                assert(all[j] == c[j - a.len() - 1]);
                assert(all[a.len() as int] == ItemView::Dir(d));
            }
        }
    }
}

proof fn lemma_keep_under_order(s: Seq<ItemView>, root: PathView, i: int, j: int)
    requires
        0 <= i < j < s.len(),
        under_root(s[i], root),
        under_root(s[j], root),
    ensures
        exists|a: int, b: int|
            0 <= a < b < keep_under(s, root).len() && keep_under(s, root)[a] == s[i] && keep_under(s, root)[b] == s[j],
    decreases s.len(),
{
    let pre = s.drop_last();
    let prev = keep_under(pre, root);
    let cur = keep_under(s, root);
    if j < s.len() - 1 {
        assert(pre[i] == s[i] && pre[j] == s[j]);
        lemma_keep_under_order(pre, root, i, j);
        let (a, b) = choose|a: int, b: int| 0 <= a < b < prev.len() && prev[a] == pre[i] && prev[b] == pre[j];
        assert(cur[a] == prev[a] && cur[b] == prev[b]);
    } else {
        assert(pre[i] == s[i]);
        assert(pre.contains(s[i]));
        lemma_keep_under_keeps(pre, root, s[i]);
        let a = choose|a: int| 0 <= a < prev.len() && prev[a] == s[i];
        assert(cur == prev.push(s.last()));
        assert(cur[a] == prev[a]);
        assert(cur[prev.len() as int] == s[j]);
    }
}

/// With distinct inputs, a file of the listing whose directory is not the root comes after
/// that directory's entry.
pub proof fn lemma_files_after_their_dir(files: Seq<PathView>, ds: Seq<ItemView>, k: int)
    requires
        dir_arrangement(files, ds),
        valid_inputs(files),
        forall|i: int, j: int| 0 <= i < j < files.len() ==> files[i] != files[j],
        0 <= k < listing_of(files, ds).len(),
        listing_of(files, ds)[k] is File,
        path_parent(listing_of(files, ds)[k].path())->0 != root_of(files),
    ensures
        exists|m: int| 0 <= m < k && listing_of(files, ds)[m] == ItemView::Dir(path_parent(listing_of(files, ds)[k].path())->0),
{
    let s = layout(files, ds);
    let root = root_of(files);
    let l = listing_of(files, ds);
    let y = l[k];
    lemma_keep_under_from(s, root);
    assert(s.contains(y));
    let j = choose|j: int| 0 <= j < s.len() && s[j] == y;
    lemma_layout_file_after_dir(files, ds);
    assert(s[j] is File);
    let q = path_parent(y.path())->0;
    let i = choose|i: int| 0 <= i < j && s[i] == ItemView::Dir(q);
    lemma_keep_under_all_under(s, root);
    assert(under_root(y, root));
    lemma_items_are_inputs(files, ds);
    assert(file_entry(files, y.path()));
    lemma_child_under(y.path(), q, root);
    assert(under_root(s[i], root));
    lemma_keep_under_order(s, root, i, j);
    let (a, b) = choose|a: int, b: int| 0 <= a < b < l.len() && l[a] == s[i] && l[b] == s[j];
    lemma_items_distinct(files, ds);
    if b != k {
        if b < k {
            assert(l[b].path() != l[k].path());
        } else {
            assert(l[k].path() != l[b].path());
        }
    }
}

proof fn lemma_child_under(p: PathView, q: PathView, root: PathView)
    requires
        path_parent(p) == Some(q),
        p != root,
        path_starts_with(p, root),
        q != root,
    ensures
        path_starts_with(q, root),
{
    assert(q.comps == p.comps.drop_last());
    if root.comps.len() == p.comps.len() {
        assert(p.comps =~= p.comps.take(root.comps.len() as int));
        assert(p.comps == root.comps);
    }
    if root.comps.len() < p.comps.len() {
        assert(q.comps.take(root.comps.len() as int) =~= p.comps.take(root.comps.len() as int));
    }
}

} // verus!
