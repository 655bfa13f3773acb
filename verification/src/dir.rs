//! A directory tree: every directory holds the items directly inside it.

use vstd::prelude::*;
use crate::items::path_views;
use crate::path::{PathBuf, PathView, path_parent, path_starts_with, is_ancestor, path_join, parse_path};

verus! {

/// A file or a directory of the tree.
#[derive(Debug, PartialEq)]
pub enum Item {
    File(File),
    Dir(Dir),
}

/// A file, by its path.
#[derive(Debug, PartialEq)]
pub struct File {
    path: PathBuf,
}

/// A directory and the items directly inside it.
#[derive(Debug, PartialEq)]
pub struct Dir {
    path: PathBuf,
    children: Vec<Item>,
}

/// The mathematical value of a tree item.
pub enum Node {
    File(PathView),
    Dir(PathView, Seq<Node>),
}

impl Item {
    /// The value of the item and everything below it.
    pub open spec fn node(&self) -> Node
        decreases self,
    {
        match self {
            Item::File(f) => Node::File(f.spec_path()),
            Item::Dir(d) => d.node(),
        }
    }

    pub open spec fn spec_path(&self) -> PathView {
        match self {
            Item::File(f) => f.spec_path(),
            Item::Dir(d) => d.spec_path(),
        }
    }

    /// Every item below lies directly inside its directory.
    pub open spec fn wf(&self) -> bool
        decreases self,
    {
        match self {
            Item::File(f) => true,
            Item::Dir(d) => d.wf(),
        }
    }
}

impl File {
    pub closed spec fn spec_path(&self) -> PathView {
        self.path@
    }
}

impl Dir {
    pub closed spec fn spec_path(&self) -> PathView {
        self.path@
    }

    pub closed spec fn node(&self) -> Node
        decreases self,
    {
        Node::Dir(
            self.path@,
            Seq::new(
                self.children@.len(),
                |i: int|
                    if 0 <= i < self.children@.len() {
                        self.children@[i].node()
                    } else {
                        Node::File(self.path@)
                    },
            ),
        )
    }

    pub closed spec fn kids(&self) -> Seq<Item> {
        self.children@
    }

    pub closed spec fn wf(&self) -> bool
        decreases self,
    {
        forall|i: int|
            0 <= i < self.children@.len() ==> path_parent((#[trigger] self.children@[i]).spec_path())
                == Some(self.path@) && self.children@[i].wf()
    }
}

impl Node {
    pub open spec fn path(self) -> PathView {
        match self {
            Node::File(p) => p,
            Node::Dir(p, _) => p,
        }
    }

    pub open spec fn kids(self) -> Seq<Node> {
        match self {
            Node::File(_) => seq![],
            Node::Dir(_, k) => k,
        }
    }

    /// Every node lies directly inside its directory.
    pub open spec fn wf(self) -> bool
        decreases self,
    {
        match self {
            Node::File(_) => true,
            Node::Dir(p, k) => forall|i: int|
                0 <= i < k.len() ==> path_parent((#[trigger] k[i]).path()) == Some(p) && k[i].wf(),
        }
    }
}

/// The node reached from `n` by taking, at each step, the child at the next index.
pub open spec fn follow(n: Node, rest: Seq<usize>) -> Option<Node>
    decreases rest.len(),
{
    if rest.len() == 0 {
        Some(n)
    } else {
        match n {
            Node::File(_) => None,
            Node::Dir(_, k) => if rest[0] < k.len() {
                follow(k[rest[0] as int], rest.skip(1))
            } else {
                None
            },
        }
    }
}

/// The node of a directory at a non-empty `location` (`Dir::nested_child`).
pub open spec fn nested(d: Node, location: Seq<usize>) -> Option<Node> {
    if location.len() == 0 {
        None
    } else {
        follow(d, location)
    }
}

/// `n` with the node reached through `rest` replaced by `new`.
pub open spec fn replace_at(n: Node, rest: Seq<usize>, new: Node) -> Node
    decreases rest.len(),
{
    if rest.len() == 0 {
        new
    } else {
        match n {
            Node::File(_) => n,
            Node::Dir(p, k) => if rest[0] < k.len() {
                Node::Dir(p, k.update(rest[0] as int, replace_at(k[rest[0] as int], rest.skip(1), new)))
            } else {
                n
            },
        }
    }
}

/// The outcome of looking a path up in a tree.
pub enum Located {
    /// The indices that lead to the node with the path.
    Found(Seq<usize>),
    /// No node has the path.
    Missing,
    /// The search met a file whose path is a proper prefix of the one sought.
    Stuck,
}

/// The first child of `k` whose path `target` starts with.
pub open spec fn first_prefix(k: Seq<Node>, target: PathView) -> Option<int> {
    if exists|i: int| 0 <= i < k.len() && path_starts_with(target, (#[trigger] k[i]).path()) {
        Some(
            choose|i: int|
                0 <= i < k.len() && path_starts_with(target, (#[trigger] k[i]).path()) && forall|
                    j: int,
                |
                    0 <= j < i ==> !path_starts_with(target, (#[trigger] k[j]).path()),
        )
    } else {
        None
    }
}

/// Looks `target` up from `n` (`Dir::location_by_path`): the node itself when its path
/// is the target, otherwise the first child whose path the target starts with, and so on.
pub open spec fn locate(n: Node, target: PathView) -> Located
    decreases n,
{
    if n.path() == target {
        Located::Found(seq![])
    } else {
        match n {
            Node::File(_) => Located::Stuck,
            Node::Dir(_, k) => match first_prefix(k, target) {
                None => Located::Missing,
                Some(i) => if 0 <= i < k.len() && i <= usize::MAX {
                    match locate(k[i], target) {
                        Located::Found(loc) => Located::Found(seq![i as usize] + loc),
                        other => other,
                    }
                } else {
                    Located::Missing
                },
            },
        }
    }
}

proof fn lemma_dir_node_kids(d: &Dir)
    ensures
        d.node().path() == d.spec_path(),
        d.node() is Dir,
        d.node().kids().len() == d.kids().len(),
        forall|i: int| 0 <= i < d.kids().len() ==> #[trigger] d.node().kids()[i] == d.kids()[i].node(),
{
}

/// The value of a directory is a directory node with its path and children.
pub broadcast proof fn lemma_dir_node(d: Dir)
    ensures
        (#[trigger] d.node()).path() == d.spec_path(),
        d.node() is Dir,
        d.node().kids().len() == d.kids().len(),
        forall|i: int| 0 <= i < d.kids().len() ==> #[trigger] d.node().kids()[i] == d.kids()[i].node(),
{
}

impl File {
    /// The path of the file.
    pub fn path(&self) -> (r: &PathBuf)
        ensures
            r@ == self.spec_path(),
    {
        &self.path
    }
}

impl Item {
    /// The path of the item.
    pub fn path(&self) -> (r: &PathBuf)
        ensures
            r@ == self.spec_path(),
            r@ == self.node().path(),
    {
        match self {
            Item::Dir(d) => {
                proof {
                    lemma_dir_node_kids(d);
                }
                d.path()
            },
            Item::File(f) => f.path(),
        }
    }
}

/// The first position among `kids` of a node whose path `target` starts with.
fn first_prefix_exec(kids: &Vec<Item>, target: &PathBuf) -> (r: Option<usize>)
    ensures
        r matches Some(i) ==> i < kids@.len() && first_prefix(
            Seq::new(kids@.len(), |j: int| kids@[j].node()),
            target@,
        ) == Some(i as int),
        r is None ==> first_prefix(Seq::new(kids@.len(), |j: int| kids@[j].node()), target@) is None,
{
    let ghost k = Seq::new(kids@.len(), |j: int| kids@[j].node());
    let mut i: usize = 0;
    while i < kids.len()
        invariant
            k == Seq::new(kids@.len(), |j: int| kids@[j].node()),
            i <= kids@.len(),
            forall|j: int| 0 <= j < i ==> !path_starts_with(target@, (#[trigger] k[j]).path()),
        decreases kids@.len() - i,
    {
        if target.starts_with(kids[i].path()) {
            proof {
                let c = choose|c: int|
                    0 <= c < k.len() && path_starts_with(target@, (#[trigger] k[c]).path()) && forall|
                        j: int,
                    |
                        0 <= j < c ==> !path_starts_with(target@, (#[trigger] k[j]).path());
                assert(path_starts_with(target@, k[i as int].path()));
                if c < i {
                } else if c > i {
                }
            }
            return Some(i);
        }
        i = i + 1;
    }
    None
}

/// Looks `target` up from the directory `d` (see `locate`).
fn locate_in_dir(d: &Dir, target: &PathBuf) -> (r: Option<Vec<usize>>)
    requires
        locate(d.node(), target@) != Located::Stuck,
    ensures
        r matches Some(v) ==> locate(d.node(), target@) == Located::Found(v@),
        r is None <==> locate(d.node(), target@) == Located::Missing,
    decreases d,
{
    proof {
        lemma_dir_node_kids(d);
        assert(d.node().kids() =~= Seq::new(d.children@.len(), |j: int| d.children@[j].node()));
    }
    if d.path.same(target) {
        return Some(Vec::new());
    }
    let i = match first_prefix_exec(&d.children, target) {
        Some(i) => i,
        None => return None,
    };
    let child = &d.children[i];
    match child {
        Item::File(f) => {
            if f.path.same(target) {
                let mut v: Vec<usize> = Vec::new();
                v.push(i);
                proof {
                    assert(locate(child.node(), target@) == Located::Found(Seq::<usize>::empty()));
                    assert(v@ =~= seq![i] + Seq::<usize>::empty());
                }
                Some(v)
            } else {
                None
            }
        },
        Item::Dir(cd) => {
            proof {
                assert(child.node() == cd.node());
                assert(d.children@[i as int] == Item::Dir(*cd));
                assert(decreases_to!(d.children => d.children@));
                assert(decreases_to!(d.children@ => d.children@[i as int]));
                assert(decreases_to!(*d => d.children));
                assert(decreases_to!(d.children@[i as int] => *cd));
            }
            match locate_in_dir(cd, target) {
                Some(sub) => {
                    let mut v: Vec<usize> = Vec::new();
                    v.push(i);
                    let mut rest = sub;
                    v.append(&mut rest);
                    proof {
                        assert(v@ =~= seq![i] + sub@);
                    }
                    Some(v)
                },
                None => None,
            }
        },
    }
}

proof fn lemma_node_update(a: &Dir, b: &Dir, i: int, x: Item)
    requires
        0 <= i < a.kids().len(),
        b.spec_path() == a.spec_path(),
        b.kids() == a.kids().update(i, x),
    ensures
        b.node() == Node::Dir(a.spec_path(), a.node().kids().update(i, x.node())),
{
    lemma_dir_node_kids(a);
    lemma_dir_node_kids(b);
    assert(b.node().kids() =~= a.node().kids().update(i, x.node()));
}

proof fn lemma_node_updates(a: Dir, i: int)
    requires
        0 <= i < a.kids().len(),
    ensures
        forall|b: Dir|
            b.spec_path() == a.spec_path() && b.kids().len() == a.kids().len() && b.kids() == a.kids().update(
                i,
                b.kids()[i],
            ) ==> #[trigger] b.node() == Node::Dir(
                a.spec_path(),
                a.node().kids().update(i, b.kids()[i].node()),
            ),
{
    assert forall|b: Dir|
        b.spec_path() == a.spec_path() && b.kids().len() == a.kids().len() && b.kids() == a.kids().update(
            i,
            b.kids()[i],
        ) implies #[trigger] b.node() == Node::Dir(
        a.spec_path(),
        a.node().kids().update(i, b.kids()[i].node()),
    ) by {
        lemma_node_update(&a, &b, i, b.kids()[i]);
    }
}

#[verifier::loop_isolation(false)]
fn as_dir_mut(item: &mut Item) -> (r: &mut Dir)
    requires
        *old(item) is Dir,
    ensures
        *r == old(item)->Dir_0,
        *final(item) == Item::Dir(*final(r)),
        final(item).node() == final(r).node(),
{
    match item {
        Item::Dir(d) => d,
        Item::File(_) => {
            proof {
                assert(false);
            }
            loop
                decreases 0nat,
            {
            }
        },
    }
}

fn children_mut(d: &mut Dir, i: usize) -> (r: &mut Item)
    requires
        i < old(d).kids().len(),
    ensures
        *r == old(d).kids()[i as int],
        final(d).spec_path() == old(d).spec_path(),
        final(d).kids() == old(d).kids().update(i as int, *final(r)),
        final(d).node() == Node::Dir(
            old(d).spec_path(),
            old(d).node().kids().update(i as int, final(r).node()),
        ),
{
    proof {
        lemma_node_updates(*d, i as int);
    }
    &mut d.children[i]
}

/// The item reached from `item` through the indices of `location` from position `from` on.
fn follow_mut<'a>(item: &'a mut Item, location: &[usize], from: usize) -> (r: Option<&'a mut Item>)
    requires
        from <= location@.len(),
    ensures
        follow(old(item).node(), location@.skip(from as int)) is None ==> r is None,
        follow(old(item).node(), location@.skip(from as int)) is None ==> final(item).node() == old(item).node(),
        follow(old(item).node(), location@.skip(from as int)) matches Some(n) ==> (r matches Some(m) && (*m).node() == n),
        follow(old(item).node(), location@.skip(from as int)) is Some ==> (r matches Some(m) && final(item).node() == replace_at(
                old(item).node(),
                location@.skip(from as int),
                (*final(m)).node(),
            )),
    decreases location@.len() - from,
{
    let ghost rest = location@.skip(from as int);
    if from == location.len() {
        proof {
            assert(rest =~= Seq::<usize>::empty());
        }
        return Some(item);
    }
    let idx = location[from];
    proof {
        assert(rest[0] == idx);
        assert(rest.skip(1) =~= location@.skip(from + 1));
    }
    let in_range = match &*item {
        Item::File(_) => false,
        Item::Dir(d) => idx < d.children.len(),
    };
    if !in_range {
        proof {
            broadcast use lemma_dir_node;
        }
        return None;
    }
    let ghost old_node = item.node();
    let d = as_dir_mut(item);
    let ghost before = *d;
    proof {
        lemma_dir_node_kids(&before);
        lemma_node_updates(before, idx as int);
        let k = before.node().kids();
        assert(old_node == before.node());
        assert(follow(old_node, rest) == follow(k[idx as int], rest.skip(1)));
        assert forall|x: Node| #[trigger] replace_at(old_node, rest, x) == Node::Dir(
            before.spec_path(),
            k.update(idx as int, replace_at(k[idx as int], rest.skip(1), x)),
        ) by {
        }
        assert forall|x: Node| x == k[idx as int] implies #[trigger] k.update(idx as int, x) == k by {
            assert(k.update(idx as int, x) =~= k);
        }
    }
    let child = children_mut(d, idx);
    follow_mut(child, location, from + 1)
}

impl Dir {
    /// The path of the directory.
    pub fn path(&self) -> (r: &PathBuf)
        ensures
            r@ == self.spec_path(),
    {
        &self.path
    }

    /// The item directly inside at position `index`.
    pub fn child(&self, index: usize) -> (r: Option<&Item>)
        ensures
            r matches Some(c) ==> index < self.node().kids().len() && c.node()
                == self.node().kids()[index as int],
            r is None <==> index >= self.node().kids().len(),
    {
        proof {
            lemma_dir_node_kids(self);
        }
        if index < self.children.len() {
            Some(&self.children[index])
        } else {
            None
        }
    }

    /// The number of items directly inside.
    pub fn len(&self) -> (r: usize)
        ensures
            r == self.node().kids().len(),
    {
        proof {
            lemma_dir_node_kids(self);
        }
        self.children.len()
    }

    /// The item at `location`: the child at the first index, its child at the next, and
    /// so on; none for an empty location.
    pub fn nested_child(&self, location: &[usize]) -> (r: Option<&Item>)
        ensures
            r matches Some(it) ==> nested(self.node(), location@) == Some(it.node()),
            r is None <==> nested(self.node(), location@) is None,
    {
        proof {
            lemma_dir_node_kids(self);
        }
        if location.len() == 0 {
            return None;
        }
        let first = location[0];
        if first >= self.children.len() {
            return None;
        }
        let mut item = &self.children[first];
        let mut k: usize = 1;
        proof {
            assert(location@.skip(1) =~= location@.skip(0).skip(1));
        }
        while k < location.len()
            invariant
                1 <= k <= location@.len(),
                follow(self.node(), location@) == follow(item.node(), location@.skip(k as int)),
            decreases location@.len() - k,
        {
            let idx = location[k];
            proof {
                assert(location@.skip(k as int)[0] == idx);
                assert(location@.skip(k as int).skip(1) =~= location@.skip(k + 1));
            }
            match item {
                Item::Dir(d) => {
                    proof {
                        lemma_dir_node_kids(d);
                    }
                    if idx >= d.children.len() {
                        return None;
                    }
                    item = &d.children[idx];
                },
                Item::File(_) => {
                    return None;
                },
            }
            k = k + 1;
        }
        proof {
            assert(location@.skip(k as int) =~= Seq::<usize>::empty());
        }
        Some(item)
    }

    /// The indices that lead to the item with path `path` (empty for the directory
    /// itself), choosing at each level the first child whose path `path` starts with
    /// (see `locate`). The search must not run into a file that is a proper prefix of `path`.
    pub fn location_by_path(&self, path: &PathBuf) -> (r: Option<Vec<usize>>)
        requires
            locate(self.node(), path@) != Located::Stuck,
        ensures
            r matches Some(v) ==> locate(self.node(), path@) == Located::Found(v@),
            r is None <==> locate(self.node(), path@) == Located::Missing,
    {
        locate_in_dir(self, path)
    }

    /// The items directly inside, in order.
    pub fn iter(&self) -> (r: std::slice::Iter<'_, Item>)
        ensures
            vstd::std_specs::slice::into_iter_elts(r) == self.kids(),
    {
        let sl = self.children.as_slice();
        let r = sl.iter();
        proof {
            broadcast use vstd::std_specs::slice::axiom_spec_slice_iter;
        }
        r
    }
}

/// `n` without the node at the non-empty `rest`.
pub open spec fn remove_node_at(n: Node, rest: Seq<usize>) -> Node
    decreases rest.len(),
{
    match n {
        Node::File(_) => n,
        Node::Dir(p, k) => if rest.len() == 0 || rest[0] >= k.len() {
            n
        } else if rest.len() == 1 {
            Node::Dir(p, k.remove(rest[0] as int))
        } else {
            Node::Dir(p, k.update(rest[0] as int, remove_node_at(k[rest[0] as int], rest.skip(1))))
        },
    }
}

/// `kids` with `new` appended, unless a node with its path is there already.
pub open spec fn push_unique(kids: Seq<Node>, new: Node) -> Seq<Node> {
    if exists|i: int| 0 <= i < kids.len() && (#[trigger] kids[i]).path() == new.path() {
        kids
    } else {
        kids.push(new)
    }
}

/// `n` with `new` added to the directory reached through `rest` (see `push_unique`).
pub open spec fn add_node_at(n: Node, rest: Seq<usize>, new: Node) -> Node
    decreases rest.len(),
{
    match n {
        Node::File(_) => n,
        Node::Dir(p, k) => if rest.len() == 0 {
            Node::Dir(p, push_unique(k, new))
        } else if rest[0] >= k.len() {
            n
        } else {
            Node::Dir(p, k.update(rest[0] as int, add_node_at(k[rest[0] as int], rest.skip(1), new)))
        },
    }
}

proof fn lemma_node_remove(a: &Dir, b: &Dir, i: int)
    requires
        0 <= i < a.kids().len(),
        b.spec_path() == a.spec_path(),
        b.kids() == a.kids().remove(i),
    ensures
        b.node() == Node::Dir(a.spec_path(), a.node().kids().remove(i)),
{
    lemma_dir_node_kids(a);
    lemma_dir_node_kids(b);
    assert(b.node().kids() =~= a.node().kids().remove(i));
}

proof fn lemma_node_push(a: &Dir, b: &Dir, x: Item)
    requires
        b.spec_path() == a.spec_path(),
        b.kids() == a.kids().push(x),
    ensures
        b.node() == Node::Dir(a.spec_path(), a.node().kids().push(x.node())),
{
    lemma_dir_node_kids(a);
    lemma_dir_node_kids(b);
    assert(b.node().kids() =~= a.node().kids().push(x.node()));
}

/// A path that `locate` finds is the path of the node at the location found.
pub proof fn lemma_locate_found(n: Node, target: PathView)
    requires
        locate(n, target) is Found,
    ensures
        follow(n, locate(n, target)->Found_0) matches Some(m) && m.path() == target,
    decreases n,
{
    if n.path() != target {
        match n {
            Node::File(_) => {},
            Node::Dir(_, k) => {
                match first_prefix(k, target) {
                    None => {},
                    Some(i) => {
                        if 0 <= i < k.len() && i <= usize::MAX {
                            lemma_locate_found(k[i], target);
                            let sub = locate(k[i], target)->Found_0;
                            let loc = seq![i as usize] + sub;
                            assert(loc[0] == i as usize);
                            assert(loc.skip(1) =~= sub);
                        }
                    },
                }
            },
        }
    }
}

/// The nodes of a sequence of items.
pub open spec fn nodes_of(s: Seq<Item>) -> Seq<Node> {
    s.map_values(|it: Item| it.node())
}

/// The value of a directory: its path and the values of the items directly inside.
pub proof fn lemma_dir_node_of(d: &Dir)
    ensures
        d.node() == Node::Dir(d.spec_path(), nodes_of(d.kids())),
{
    lemma_dir_node_kids(d);
    assert(d.node().kids() =~= nodes_of(d.kids()));
}

/// Why a change to the tree was refused.
#[derive(Debug, PartialEq, Eq)]
pub enum DirError {
    /// No item of the tree has the path the change is about.
    InvalidTarget,
}

impl File {
    /// The file at `path`.
    pub fn new(path: PathBuf) -> (r: File)
        ensures
            r.spec_path() == path@,
    {
        File { path }
    }
}

impl Dir {
    /// The directory at `path` holding `children`, in that order.
    pub fn new(path: PathBuf, children: Vec<Item>) -> (r: Dir)
        ensures
            r.node() == Node::Dir(path@, nodes_of(children@)),
            r.kids() == children@,
    {
        let r = Dir { path, children };
        proof {
            lemma_dir_node_of(&r);
        }
        r
    }

    /// The item directly inside at position `index`, for changing in place.
    pub fn child_mut(&mut self, index: usize) -> (r: Option<&mut Item>)
        ensures
            index < old(self).kids().len() ==> (r matches Some(m) && (*m).node()
                == old(self).node().kids()[index as int] && final(self).node() == Node::Dir(
                old(self).spec_path(),
                old(self).node().kids().update(index as int, (*final(m)).node()),
            )),
            index >= old(self).kids().len() ==> r is None && *final(self) == *old(self),
    {
        proof {
            lemma_dir_node_kids(self);
        }
        if index < self.children.len() {
            Some(children_mut(self, index))
        } else {
            None
        }
    }

    /// The items directly inside, for changing in place; the path stays.
    pub fn iter_mut(&mut self) -> (r: &mut [Item])
        ensures
            r@ == old(self).kids(),
            final(self).spec_path() == old(self).spec_path(),
            final(self).kids() == final(r)@,
            final(self).node() == Node::Dir(old(self).spec_path(), nodes_of(final(r)@)),
    {
        let ghost p = self.path@;
        proof {
            broadcast use lemma_dir_node;
        }
        let r = self.children.as_mut_slice();
        proof {
            assert forall|d: Dir| d.spec_path() == p && d.kids() == final(r)@ implies #[trigger] d.node()
                == Node::Dir(p, nodes_of(final(r)@)) by {
                lemma_dir_node_of(&d);
            }
        }
        r
    }

    /// The item at `location` (see `nested_child`), for changing in place.
    pub fn nested_child_mut(&mut self, location: &[usize]) -> (r: Option<&mut Item>)
        ensures
            nested(old(self).node(), location@) is None ==> r is None && final(self).node() == old(
                self,
            ).node(),
            nested(old(self).node(), location@) matches Some(n) ==> (r matches Some(m) && (*m).node()
                == n && final(self).node() == replace_at(old(self).node(), location@, (*final(m)).node())),
    {
        proof {
            lemma_dir_node_kids(self);
        }
        if location.len() == 0 {
            return None;
        }
        let first = location[0];
        if first >= self.children.len() {
            return None;
        }
        let ghost before = self.node();
        let ghost k = before.kids();
        proof {
            assert(location@.skip(1) =~= location@.skip(0).skip(1));
            assert forall|x: Node| #[trigger] replace_at(before, location@, x) == Node::Dir(
                self.spec_path(),
                k.update(first as int, replace_at(k[first as int], location@.skip(1), x)),
            ) by {
            }
            assert forall|x: Node| x == k[first as int] implies #[trigger] k.update(first as int, x) == k by {
                assert(k.update(first as int, x) =~= k);
            }
        }
        let child = children_mut(self, first);
        follow_mut(child, location, 1)
    }
}

/// Removes and returns the node at the non-empty `loc[from..]`, a location of `d`.
fn remove_in(d: &mut Dir, loc: &[usize], from: usize) -> (r: Item)
    requires
        from < loc@.len(),
        follow(old(d).node(), loc@.skip(from as int)) is Some,
    ensures
        follow(old(d).node(), loc@.skip(from as int)) == Some(r.node()),
        final(d).node() == remove_node_at(old(d).node(), loc@.skip(from as int)),
    decreases loc@.len() - from,
{
    let ghost rest = loc@.skip(from as int);
    let ghost before = *d;
    proof {
        lemma_dir_node_kids(d);
    }
    let idx = loc[from];
    proof {
        assert(rest[0] == idx);
        assert(rest.skip(1) =~= loc@.skip(from + 1));
    }
    let ghost k = before.node().kids();
    proof {
        assert(follow(before.node(), rest) == follow(k[idx as int], rest.skip(1)));
    }
    if from + 1 == loc.len() {
        let it = d.children.remove(idx);
        proof {
            lemma_node_remove(&before, d, idx as int);
            assert(rest.skip(1) =~= Seq::<usize>::empty());
            assert(it.node() == k[idx as int]);
            assert(follow(k[idx as int], rest.skip(1)) == Some(k[idx as int]));
        }
        return it;
    }
    proof {
        lemma_node_updates(before, idx as int);
    }
    let child = children_mut(d, idx);
    proof {
        assert(child.node() == k[idx as int]);
        assert(rest.skip(1).len() > 0);
        assert(follow(k[idx as int], rest.skip(1)) is Some);
        assert(k[idx as int] is Dir);
        assert(*child is Dir);
    }
    let cd = as_dir_mut(child);
    remove_in(cd, loc, from + 1)
}

/// Adds `new` to the directory at `loc[from..]`, a location of `d`, unless an item with its
/// path is there already.
fn add_in(d: &mut Dir, loc: &[usize], from: usize, new: Item)
    requires
        from <= loc@.len(),
        follow(old(d).node(), loc@.skip(from as int)) matches Some(n) && n is Dir,
    ensures
        final(d).node() == add_node_at(old(d).node(), loc@.skip(from as int), new.node()),
    decreases loc@.len() - from,
{
    let ghost rest = loc@.skip(from as int);
    let ghost before = *d;
    proof {
        lemma_dir_node_kids(d);
    }
    if from == loc.len() {
        proof {
            assert(rest =~= Seq::<usize>::empty());
        }
        let mut i: usize = 0;
        while i < d.children.len()
            invariant
                *d == before,
                rest.len() == 0,
                rest == loc@.skip(from as int),
                i <= d.kids().len(),
                forall|j: int| 0 <= j < i ==> (#[trigger] before.node().kids()[j]).path() != new.node().path(),
            decreases d.kids().len() - i,
        {
            proof {
                lemma_dir_node_kids(d);
            }
            if d.children[i].path().same(new.path()) {
                proof {
                    lemma_dir_node_of(&before);
                    assert(before.node().kids()[i as int].path() == new.node().path());
                    assert(push_unique(before.node().kids(), new.node()) == before.node().kids());
                    assert(rest.len() == 0);
                    assert(add_node_at(before.node(), rest, new.node()) == Node::Dir(
                        before.spec_path(),
                        push_unique(before.node().kids(), new.node()),
                    ));
                    assert(add_node_at(before.node(), rest, new.node()) == before.node());
                }
                return;
            }
            i = i + 1;
        }
        d.children.push(new);
        proof {
            lemma_node_push(&before, d, new);
        }
        return;
    }
    let idx = loc[from];
    proof {
        assert(rest[0] == idx);
        assert(rest.skip(1) =~= loc@.skip(from + 1));
        lemma_node_updates(before, idx as int);
    }
    let ghost k = before.node().kids();
    proof {
        assert(follow(before.node(), rest) == follow(k[idx as int], rest.skip(1)));
    }
    let child = children_mut(d, idx);
    proof {
        assert(child.node() == k[idx as int]);
        if rest.skip(1).len() == 0 {
            assert(follow(k[idx as int], rest.skip(1)) == Some(k[idx as int]));
        } else {
            assert(follow(k[idx as int], rest.skip(1)) is Some);
        }
        assert(k[idx as int] is Dir);
        assert(*child is Dir);
    }
    let cd = as_dir_mut(child);
    add_in(cd, loc, from + 1, new)
}

impl Dir {
    /// Removes the item with path `path` (found as `location_by_path` finds it) and returns
    /// it; fails when no item has that path. The tree itself cannot be removed, and the
    /// search must not run into a file that is a proper prefix of `path`.
    pub fn remove(&mut self, path: &PathBuf) -> (r: Result<Item, DirError>)
        requires
            locate(old(self).node(), path@) != Located::Stuck,
            path@ != old(self).spec_path(),
        ensures
            locate(old(self).node(), path@) == Located::Missing ==> r == Err::<Item, DirError>(
                DirError::InvalidTarget,
            ) && final(self).node() == old(self).node(),
            locate(old(self).node(), path@) matches Located::Found(loc) ==> (r matches Ok(it) && it.node().path()
                == path@ && follow(old(self).node(), loc) == Some(it.node()) && final(self).node()
                == remove_node_at(old(self).node(), loc)),
    {
        let location = match self.location_by_path(path) {
            Some(l) => l,
            None => return Err(DirError::InvalidTarget),
        };
        proof {
            lemma_locate_found(self.node(), path@);
            lemma_dir_node_kids(self);
            if location@.len() == 0 {
                assert(self.node().path() == path@);
            }
            assert(location@.skip(0) =~= location@);
        }
        let it = remove_in(self, location.as_slice(), 0);
        Ok(it)
    }

    /// Adds the entry `path` below the directory its parent names (`location_by_path`), as
    /// a directory when `is_dir`, otherwise as a file, unless an item with that path is
    /// there already; fails when no item has the parent's path. The path must have a
    /// parent, the search for it must not run into a file, and the item with the parent's
    /// path must be a directory.
    pub fn add_entry(&mut self, path: &PathBuf, is_dir: bool) -> (r: Result<(), DirError>)
        requires
            path_parent(path@) is Some,
            locate(old(self).node(), path_parent(path@)->0) != Located::Stuck,
            locate(old(self).node(), path_parent(path@)->0) matches Located::Found(loc) ==> (follow(
                old(self).node(),
                loc,
            ) matches Some(n) && n is Dir),
        ensures
            locate(old(self).node(), path_parent(path@)->0) == Located::Missing ==> r == Err::<(), DirError>(
                DirError::InvalidTarget,
            ) && final(self).node() == old(self).node(),
            locate(old(self).node(), path_parent(path@)->0) matches Located::Found(loc) ==> r is Ok
                && final(self).node() == add_node_at(
                old(self).node(),
                loc,
                if is_dir {
                    Node::Dir(path@, seq![])
                } else {
                    Node::File(path@)
                },
            ),
    {
        let parent = match path.parent() {
            Some(p) => p,
            None => return Err(DirError::InvalidTarget),
        };
        let location = match self.location_by_path(&parent) {
            Some(l) => l,
            None => return Err(DirError::InvalidTarget),
        };
        let new = if is_dir {
            Item::Dir(Dir::new(path.duplicate(), Vec::new()))
        } else {
            Item::File(File::new(path.duplicate()))
        };
        proof {
            assert(Seq::<Item>::empty().map_values(|it: Item| it.node()) =~= Seq::<Node>::empty());
            assert(location@.skip(0) =~= location@);
        }
        add_in(self, location.as_slice(), 0, new);
        Ok(())
    }

    /// `add_entry`, with whether `path` is a directory read from disk.
    pub fn add(&mut self, path: &PathBuf) -> (r: Result<(), DirError>)
        requires
            path_parent(path@) is Some,
            locate(old(self).node(), path_parent(path@)->0) != Located::Stuck,
            locate(old(self).node(), path_parent(path@)->0) matches Located::Found(loc) ==> (follow(
                old(self).node(),
                loc,
            ) matches Some(n) && n is Dir),
        ensures
            locate(old(self).node(), path_parent(path@)->0) == Located::Missing ==> r == Err::<(), DirError>(
                DirError::InvalidTarget,
            ) && final(self).node() == old(self).node(),
            locate(old(self).node(), path_parent(path@)->0) matches Located::Found(loc) ==> r is Ok && added_entry(
                old(self).node(),
                final(self).node(),
                path@,
            ),
    {
        let text = path.to_text();
        let is_dir = crate::path::path_is_dir(text.as_str());
        self.add_entry(path, is_dir)
    }

    #[verifier::loop_isolation(false)]
    /// Records the new file `name` directly inside, after the items there, and returns it.
    /// The name must hold no `/`.
    pub fn new_file(&mut self, name: &str) -> (r: &File)
        requires
            !crate::text::has_char(name@, '/'),
        ensures
            r.spec_path() == path_join(old(self).spec_path(), parse_path(name@)),
            final(self).spec_path() == old(self).spec_path(),
            final(self).node() == Node::Dir(
                old(self).spec_path(),
                old(self).node().kids().push(Node::File(r.spec_path())),
            ),
    {
        let ghost before = *self;
        let path = self.path.join_str(name);
        let f = File::new(path);
        let ghost fp = f.spec_path();
        self.children.push(Item::File(f));
        proof {
            lemma_node_push(&before, self, Item::File(f));
        }
        let last = self.children.len() - 1;
        match &self.children[last] {
            Item::File(f) => f,
            Item::Dir(_) => {
                proof {
                    assert(false);
                }
                loop
                    decreases 0nat,
                {
                }
            },
        }
    }

    /// Takes out and returns the item directly inside at position `index`.
    pub fn remove_child(&mut self, index: usize) -> (r: Item)
        requires
            index < old(self).kids().len(),
        ensures
            r == old(self).kids()[index as int],
            final(self).spec_path() == old(self).spec_path(),
            final(self).kids() == old(self).kids().remove(index as int),
            final(self).node() == Node::Dir(
                old(self).spec_path(),
                old(self).node().kids().remove(index as int),
            ),
    {
        let ghost before = *self;
        let r = self.children.remove(index);
        proof {
            lemma_node_remove(&before, self, index as int);
        }
        r
    }
}

impl Dir {
    /// Takes out and returns the item at the non-empty location `loc`, which must lead to
    /// an item.
    pub fn remove_at(&mut self, loc: &[usize]) -> (r: Item)
        requires
            loc@.len() > 0,
            follow(old(self).node(), loc@) is Some,
        ensures
            follow(old(self).node(), loc@) == Some(r.node()),
            final(self).node() == remove_node_at(old(self).node(), loc@),
    {
        proof {
            assert(loc@.skip(0) =~= loc@);
        }
        remove_in(self, loc, 0)
    }
}

/// Putting back the node found at a location leaves the tree as it was.
pub proof fn lemma_replace_found(n: Node, rest: Seq<usize>)
    requires
        follow(n, rest) is Some,
    ensures
        replace_at(n, rest, follow(n, rest)->0) == n,
    decreases rest.len(),
{
    if rest.len() > 0 {
        match n {
            Node::File(_) => {},
            Node::Dir(p, k) => {
                if rest[0] < k.len() {
                    lemma_replace_found(k[rest[0] as int], rest.skip(1));
                    assert(k.update(rest[0] as int, k[rest[0] as int]) =~= k);
                }
            },
        }
    }
}

/// Whether the builder keeps the entry at `p`: it is not one of the `ignore` paths, and,
/// when `wanted` is given, it lies on the way to or below one of the included paths.
pub open spec fn keeps(p: PathView, ignore: Seq<PathView>, wanted: Option<Seq<PathView>>) -> bool {
    !ignore.contains(p) && is_wanted(p, wanted)
}

/// Every path is wanted when no paths are given; otherwise those on the way to or below one.
pub open spec fn is_wanted(p: PathView, wanted: Option<Seq<PathView>>) -> bool {
    match wanted {
        None => true,
        Some(inc) => exists|j: int| 0 <= j < inc.len() && #[trigger] on_the_way(p, inc[j]),
    }
}

/// `p` lies on the way to `q` or below it.
pub open spec fn on_the_way(p: PathView, q: PathView) -> bool {
    is_ancestor(p, q) || is_ancestor(q, p)
}

/// The tree that the builder makes of the tree read from disk `n`.
pub open spec fn built_node(n: Node, ignore: Seq<PathView>, dirs_first: bool, wanted: Option<Seq<PathView>>) -> Node
    decreases n,
{
    match n {
        Node::File(p) => Node::File(p),
        Node::Dir(p, k) => Node::Dir(p, built_kids(k, ignore, dirs_first, wanted)),
    }
}

/// The entries that the builder makes of the entries `k` read from disk, taken in order:
/// each kept file goes last; each kept directory goes first when `dirs_first`, else last.
pub open spec fn built_kids(k: Seq<Node>, ignore: Seq<PathView>, dirs_first: bool, wanted: Option<Seq<PathView>>) -> Seq<Node>
    decreases k,
{
    if k.len() == 0 {
        seq![]
    } else {
        let prev = built_kids(k.subrange(0, k.len() - 1), ignore, dirs_first, wanted);
        let c = k[k.len() - 1];
        if !keeps(c.path(), ignore, wanted) {
            prev
        } else {
            match c {
                Node::File(p) => prev.push(Node::File(p)),
                Node::Dir(_, _) => if dirs_first {
                    seq![built_node(c, ignore, dirs_first, wanted)] + prev
                } else {
                    prev.push(built_node(c, ignore, dirs_first, wanted))
                },
            }
        }
    }
}

/// The settings of a tree read from disk.
#[derive(Debug, PartialEq)]
pub struct DirBuilder {
    path: PathBuf,
    ignore: Vec<PathBuf>,
    dirs_first: bool,
    only_include: Option<Vec<PathBuf>>,
}

fn copy_paths(v: &[PathBuf]) -> (r: Vec<PathBuf>)
    ensures
        path_views(r@) == path_views(v@),
{
    let mut r: Vec<PathBuf> = Vec::new();
    let mut i: usize = 0;
    while i < v.len()
        invariant
            i <= v@.len(),
            path_views(r@) == path_views(v@).take(i as int),
        decreases v@.len() - i,
    {
        let d = v[i].duplicate();
        let ghost before = r@;
        r.push(d);
        proof {
            assert(path_views(v@)[i as int] == v@[i as int]@);
            assert(path_views(r@) =~= path_views(before).push(d@));
            assert(path_views(r@) =~= path_views(v@).take(i + 1));
        }
        i = i + 1;
    }
    proof {
        assert(path_views(v@).take(i as int) =~= path_views(v@));
    }
    r
}

/// Whether `a` is `p` or lies above it (`Path::ancestors`).
fn ancestor_of(a: &PathBuf, p: &PathBuf) -> (r: bool)
    ensures
        r == is_ancestor(a@, p@),
{
    a.absolute == p.absolute && p.starts_with(a)
}

impl DirBuilder {
    pub closed spec fn root(&self) -> PathView {
        self.path@
    }

    pub closed spec fn ignored(&self) -> Seq<PathView> {
        path_views(self.ignore@)
    }

    pub closed spec fn puts_dirs_first(&self) -> bool {
        self.dirs_first
    }

    pub closed spec fn included(&self) -> Option<Seq<PathView>> {
        match self.only_include {
            None => None,
            Some(v) => Some(path_views(v@)),
        }
    }

    /// Settings for the tree at `path`: nothing ignored, directories in disk order, every
    /// entry included.
    pub fn new(path: &PathBuf) -> (r: DirBuilder)
        ensures
            r.root() == path@,
            r.ignored() == Seq::<PathView>::empty(),
            !r.puts_dirs_first(),
            r.included() is None,
    {
        let r = DirBuilder { path: path.duplicate(), ignore: Vec::new(), dirs_first: false, only_include: None };
        proof {
            assert(path_views(r.ignore@) =~= Seq::<PathView>::empty());
        }
        r
    }

    /// Whether directories go before files.
    pub fn dirs_first(self, dirs_first: bool) -> (r: DirBuilder)
        ensures
            r.root() == self.root(),
            r.ignored() == self.ignored(),
            r.puts_dirs_first() == dirs_first,
            r.included() == self.included(),
    {
        DirBuilder { dirs_first, ..self }
    }

    /// Entries at these paths, and everything below them, are left out.
    pub fn ignore(self, ignore: &[PathBuf]) -> (r: DirBuilder)
        ensures
            r.root() == self.root(),
            r.ignored() == path_views(ignore@),
            r.puts_dirs_first() == self.puts_dirs_first(),
            r.included() == self.included(),
    {
        DirBuilder { ignore: copy_paths(ignore), ..self }
    }

    /// Only the entries on the way to or below these paths are kept.
    pub fn only_include(self, only_include: &[PathBuf]) -> (r: DirBuilder)
        ensures
            r.root() == self.root(),
            r.ignored() == self.ignored(),
            r.puts_dirs_first() == self.puts_dirs_first(),
            r.included() == Some(path_views(only_include@)),
    {
        DirBuilder { only_include: Some(copy_paths(only_include)), ..self }
    }

    fn keeps_path(&self, p: &PathBuf) -> (r: bool)
        ensures
            r == keeps(p@, self.ignored(), self.included()),
    {
        let mut i: usize = 0;
        while i < self.ignore.len()
            invariant
                i <= self.ignore@.len(),
                forall|j: int| 0 <= j < i ==> path_views(self.ignore@)[j] != p@,
            decreases self.ignore@.len() - i,
        {
            if self.ignore[i].same(p) {
                proof {
                    assert(path_views(self.ignore@)[i as int] == p@);
                }
                return false;
            }
            i = i + 1;
        }
        proof {
            assert(!self.ignored().contains(p@));
        }
        match &self.only_include {
            None => true,
            Some(inc) => {
                let mut j: usize = 0;
                while j < inc.len()
                    invariant
                        j <= inc@.len(),
                        self.included() == Some(path_views(inc@)),
                        !self.ignored().contains(p@),
                        forall|m: int|
                            0 <= m < j ==> !on_the_way(p@, #[trigger] path_views(inc@)[m]),
                    decreases inc@.len() - j,
                {
                    if ancestor_of(p, &inc[j]) || ancestor_of(&inc[j], p) {
                        proof {
                            let pv = path_views(inc@);
                            assert(pv[j as int] == inc@[j as int]@);
                            let w = Some(pv);
                            assert(w->0 == pv);
                            assert(on_the_way(p@, w->0[j as int]));
                            assert(self.included() == Some(pv));
                            assert(is_wanted(p@, Some(pv)));
                        }
                        return true;
                    }
                    j = j + 1;
                }
                false
            },
        }
    }

    fn build_from(&self, disk: &Dir) -> (r: Dir)
        ensures
            r.node() == built_node(disk.node(), self.ignored(), self.puts_dirs_first(), self.included()),
        decreases disk,
    {
        let ghost ig = self.ignored();
        let ghost df = self.puts_dirs_first();
        let ghost inc = self.included();
        let ghost k = nodes_of(disk.children@);
        proof {
            lemma_dir_node_of(disk);
        }
        let mut children: Vec<Item> = Vec::new();
        let mut i: usize = 0;
        while i < disk.children.len()
            invariant
                i <= disk.children@.len(),
                k == nodes_of(disk.children@),
                nodes_of(children@) == built_kids(k.subrange(0, i as int), ig, df, inc),
                ig == self.ignored(),
                df == self.puts_dirs_first(),
                inc == self.included(),
            decreases disk.children@.len() - i,
        {
            let c = &disk.children[i];
            let ghost before = children@;
            proof {
                assert(k.subrange(0, i + 1).subrange(0, i as int) =~= k.subrange(0, i as int));
                assert(k.subrange(0, i + 1)[i as int] == c.node());
            }
            if self.keeps_path(c.path()) {
                match c {
                    Item::File(f) => {
                        let it = Item::File(File::new(f.path.duplicate()));
                        children.push(it);
                        proof {
                            assert(nodes_of(children@) =~= nodes_of(before).push(it.node()));
                        }
                    },
                    Item::Dir(cd) => {
                        proof {
                            assert(disk.children@[i as int] == Item::Dir(*cd));
                            assert(decreases_to!(disk.children => disk.children@));
                            assert(decreases_to!(disk.children@ => disk.children@[i as int]));
                            assert(decreases_to!(*disk => disk.children));
                            assert(decreases_to!(disk.children@[i as int] => *cd));
                        }
                        let b = self.build_from(cd);
                        let it = Item::Dir(b);
                        if self.dirs_first {
                            children.insert(0, it);
                            proof {
                                assert(nodes_of(children@) =~= seq![it.node()] + nodes_of(before));
                            }
                        } else {
                            children.push(it);
                            proof {
                                assert(nodes_of(children@) =~= nodes_of(before).push(it.node()));
                            }
                        }
                    },
                }
            }
            i = i + 1;
        }
        proof {
            assert(k.subrange(0, i as int) =~= k);
        }
        Dir::new(disk.path.duplicate(), children)
    }

    /// Builds the tree at the root from `disk`, the tree read from disk there (entries in
    /// the order the disk lists them): see `built_node`. The tree takes the root's path.
    pub fn build(&self, disk: &Dir) -> (r: Dir)
        ensures
            r.node() == built_node(
                Node::Dir(self.root(), disk.node().kids()),
                self.ignored(),
                self.puts_dirs_first(),
                self.included(),
            ),
    {
        let b = self.build_from(disk);
        proof {
            lemma_dir_node_kids(disk);
            lemma_dir_node_kids(&b);
        }
        let r = Dir { path: self.path.duplicate(), children: b.children };
        proof {
            lemma_dir_node_of(&r);
            lemma_dir_node_of(&b);
        }
        r
    }
}

/// A location that `Dir::location_by_path` finds leads back to the path: the empty one
/// is the directory itself, and any other reaches (`Dir::nested_child`) the item with it.
pub proof fn lemma_location_leads_back(d: Node, target: PathView)
    requires
        locate(d, target) is Found,
    ensures
        locate(d, target)->Found_0.len() == 0 ==> d.path() == target,
        locate(d, target)->Found_0.len() > 0 ==> (nested(d, locate(d, target)->Found_0) matches Some(m)
            && m.path() == target),
{
    lemma_locate_found(d, target);
}

proof fn lemma_add_keeps_path(n: Node, rest: Seq<usize>, new: Node)
    ensures
        add_node_at(n, rest, new).path() == n.path(),
{
}

proof fn lemma_push_unique_twice(k: Seq<Node>, a: Node, b: Node)
    requires
        a.path() == b.path(),
    ensures
        push_unique(push_unique(k, a), b) == push_unique(k, a),
{
    let k1 = push_unique(k, a);
    if exists|i: int| 0 <= i < k.len() && (#[trigger] k[i]).path() == a.path() {
        let i = choose|i: int| 0 <= i < k.len() && (#[trigger] k[i]).path() == a.path();
        assert(k1[i].path() == b.path());
    } else {
        assert(k1[k.len() as int].path() == b.path());
    }
}

proof fn lemma_add_twice(n: Node, rest: Seq<usize>, a: Node, b: Node)
    requires
        a.path() == b.path(),
    ensures
        add_node_at(add_node_at(n, rest, a), rest, b) == add_node_at(n, rest, a),
    decreases rest.len(),
{
    match n {
        Node::File(_) => {},
        Node::Dir(p, k) => {
            if rest.len() == 0 {
                lemma_push_unique_twice(k, a, b);
            } else if rest[0] < k.len() {
                let i = rest[0] as int;
                lemma_add_twice(k[i], rest.skip(1), a, b);
                let k1 = k.update(i, add_node_at(k[i], rest.skip(1), a));
                assert(k1.update(i, add_node_at(k1[i], rest.skip(1), b)) =~= k1);
            }
        },
    }
}

proof fn lemma_least_prefix(k: Seq<Node>, target: PathView, j: int)
    requires
        0 <= j < k.len(),
        path_starts_with(target, k[j].path()),
    ensures
        exists|i: int|
            0 <= i < k.len() && path_starts_with(target, (#[trigger] k[i]).path()) && forall|m: int|
                0 <= m < i ==> !path_starts_with(target, (#[trigger] k[m]).path()),
    decreases j,
{
    if exists|m: int| 0 <= m < j && path_starts_with(target, (#[trigger] k[m]).path()) {
        let m = choose|m: int| 0 <= m < j && path_starts_with(target, (#[trigger] k[m]).path());
        lemma_least_prefix(k, target, m);
    } else {
        assert(forall|m: int| 0 <= m < j ==> !path_starts_with(target, (#[trigger] k[m]).path()));
    }
}

#[verifier::rlimit(40)]
proof fn lemma_first_prefix_same_paths(k: Seq<Node>, k1: Seq<Node>, target: PathView)
    requires
        k1.len() == k.len(),
        forall|j: int| 0 <= j < k.len() ==> (#[trigger] k1[j]).path() == k[j].path(),
        first_prefix(k, target) is Some,
    ensures
        first_prefix(k1, target) == first_prefix(k, target),
{
    let j0 = choose|j: int| 0 <= j < k.len() && path_starts_with(target, (#[trigger] k[j]).path());
    lemma_least_prefix(k, target, j0);
    let i = choose|j: int|
        0 <= j < k.len() && path_starts_with(target, (#[trigger] k[j]).path()) && forall|m: int|
            0 <= m < j ==> !path_starts_with(target, (#[trigger] k[m]).path());
    assert(k1[j0].path() == k[j0].path());
    lemma_least_prefix(k1, target, j0);
    let i1 = choose|j: int|
        0 <= j < k1.len() && path_starts_with(target, (#[trigger] k1[j]).path()) && forall|m: int|
            0 <= m < j ==> !path_starts_with(target, (#[trigger] k1[m]).path());
    assert(i1 == i) by {
        assert(k1[i].path() == k[i].path());
        assert(k1[i1].path() == k[i1].path());
    }
}

#[verifier::rlimit(40)]
proof fn lemma_locate_after_add(n: Node, target: PathView, new: Node)
    requires
        locate(n, target) is Found,
    ensures
        locate(add_node_at(n, locate(n, target)->Found_0, new), target) == locate(n, target),
    decreases n,
{
    let loc = locate(n, target)->Found_0;
    lemma_add_keeps_path(n, loc, new);
    if n.path() != target {
        match n {
            Node::File(_) => {},
            Node::Dir(p, k) => {
                let i = first_prefix(k, target)->0;
                let sub = locate(k[i], target)->Found_0;
                assert(loc == seq![i as usize] + sub);
                assert(loc.skip(1) =~= sub);
                lemma_locate_after_add(k[i], target, new);
                let k1 = k.update(i, add_node_at(k[i], sub, new));
                assert(add_node_at(n, loc, new) == Node::Dir(p, k1));
                assert forall|j: int| 0 <= j < k.len() implies (#[trigger] k1[j]).path() == k[j].path() by {
                    if j == i {
                        lemma_add_keeps_path(k[i], sub, new);
                    }
                }
                lemma_first_prefix_same_paths(k, k1, target);
                assert(locate(k1[i], target) == locate(k[i], target));
            },
        }
    }
}

/// Adding an entry twice is adding it once: the second time the parent is found at the
/// same location, and the directory there already holds an item with the path, whether
/// it is taken as a directory or a file (`Dir::add_entry`, `Dir::add`).
pub proof fn lemma_add_twice_is_add_once(n: Node, parent: PathView, a: Node, b: Node)
    requires
        locate(n, parent) is Found,
        a.path() == b.path(),
    ensures
        ({
            let loc = locate(n, parent)->Found_0;
            let once = add_node_at(n, loc, a);
            &&& locate(once, parent) == locate(n, parent)
            &&& add_node_at(once, loc, b) == once
        }),
{
    lemma_locate_after_add(n, parent, a);
    lemma_add_twice(n, locate(n, parent)->Found_0, a, b);
}

/// The outcome that `Dir::add` of `p` gives from `before`: the entry added below the
/// parent's location as a directory or as a file (whichever the disk has).
pub open spec fn added_entry(before: Node, after: Node, p: PathView) -> bool {
    let parent = path_parent(p)->0;
    locate(before, parent) matches Located::Found(loc) && (after == add_node_at(before, loc, Node::Dir(p, seq![]))
        || after == add_node_at(before, loc, Node::File(p)))
}

/// `Dir::add` done twice is done once: after the first add the parent is still found, and
/// a second add of the same path leaves the tree as the first one left it.
pub proof fn lemma_dir_add_twice(n0: Node, n1: Node, n2: Node, p: PathView)
    requires
        path_parent(p) is Some,
        added_entry(n0, n1, p),
        locate(n1, path_parent(p)->0) is Found ==> added_entry(n1, n2, p),
    ensures
        locate(n1, path_parent(p)->0) == locate(n0, path_parent(p)->0),
        n2 == n1,
{
    let parent = path_parent(p)->0;
    let d = Node::Dir(p, seq![]);
    let f = Node::File(p);
    if n1 == add_node_at(n0, locate(n0, parent)->Found_0, d) {
        lemma_add_twice_is_add_once(n0, parent, d, d);
        lemma_add_twice_is_add_once(n0, parent, d, f);
    } else {
        lemma_add_twice_is_add_once(n0, parent, f, d);
        lemma_add_twice_is_add_once(n0, parent, f, f);
    }
}

proof fn lemma_starts_with_self(p: PathView)
    ensures
        path_starts_with(p, p),
{
    assert(p.comps.take(p.comps.len() as int) =~= p.comps);
}

pub(crate) proof fn lemma_starts_with_trans(a: PathView, b: PathView, c: PathView)
    requires
        path_starts_with(a, b),
        path_starts_with(b, c),
    ensures
        path_starts_with(a, c),
{
    assert(a.comps.take(c.comps.len() as int) =~= a.comps.take(b.comps.len() as int).take(c.comps.len() as int));
}

proof fn lemma_child_starts_with_parent(c: PathView, q: PathView)
    requires
        path_parent(c) == Some(q),
    ensures
        path_starts_with(c, q),
        q.comps.len() + 1 == c.comps.len(),
        q.absolute == c.absolute,
{
    assert(c.comps.take(q.comps.len() as int) =~= q.comps);
}

/// Every node below `n` has a path that starts with `n`'s.
proof fn lemma_below_starts_with(n: Node, loc: Seq<usize>)
    requires
        n.wf(),
    ensures
        follow(n, loc) matches Some(m) ==> path_starts_with(m.path(), n.path()) && m.wf(),
    decreases loc.len(),
{
    if loc.len() == 0 {
        lemma_starts_with_self(n.path());
    } else {
        match n {
            Node::File(_) => {},
            Node::Dir(p, k) => {
                if loc[0] < k.len() {
                    let c = k[loc[0] as int];
                    lemma_below_starts_with(c, loc.skip(1));
                    lemma_child_starts_with_parent(c.path(), p);
                    if let Some(m) = follow(c, loc.skip(1)) {
                        lemma_starts_with_trans(m.path(), c.path(), p);
                    }
                }
            },
        }
    }
}

/// No two children of a directory, at any depth, have the same path.
pub open spec fn distinct_siblings(n: Node) -> bool
    decreases n,
{
    match n {
        Node::File(_) => true,
        Node::Dir(_, k) => {
            &&& forall|i: int, j: int| 0 <= i < j < k.len() ==> (#[trigger] k[i]).path() != (#[trigger] k[j]).path()
            &&& forall|i: int| 0 <= i < k.len() ==> distinct_siblings(#[trigger] k[i])
        },
    }
}

/// When `Dir::location_by_path` finds nothing, no item of a well-formed tree whose
/// siblings have distinct paths has the path: no location leads to it.
pub proof fn lemma_missing_means_absent(n: Node, target: PathView, loc: Seq<usize>)
    requires
        n.wf(),
        distinct_siblings(n),
        locate(n, target) == Located::Missing,
    ensures
        follow(n, loc) matches Some(m) ==> m.path() != target,
    decreases loc.len(),
{
    if loc.len() > 0 {
        match n {
            Node::File(_) => {},
            Node::Dir(p, k) => {
                let j = loc[0] as int;
                if j < k.len() {
                    let c = k[j];
                    if let Some(m) = follow(c, loc.skip(1)) {
                        if m.path() == target {
                            lemma_below_starts_with(c, loc.skip(1));
                            assert(path_starts_with(target, c.path()));
                            assert(first_prefix(k, target) is Some);
                            let i = first_prefix(k, target)->0;
                            lemma_least_prefix(k, target, j);
                            let w = choose|w: int|
                                0 <= w < k.len() && path_starts_with(target, (#[trigger] k[w]).path()) && forall|x: int|
                                    0 <= x < w ==> !path_starts_with(target, (#[trigger] k[x]).path());
                            assert(i == w);
                            assert(i <= j);
                            lemma_child_starts_with_parent(k[i].path(), p);
                            lemma_child_starts_with_parent(c.path(), p);
                            assert(k[i].path().comps =~= target.comps.take(k[i].path().comps.len() as int));
                            assert(c.path().comps =~= target.comps.take(c.path().comps.len() as int));
                            assert(k[i].path() == c.path());
                            assert(i == j);
                            assert(locate(k[i], target) == Located::Missing);
                            lemma_missing_means_absent(c, target, loc.skip(1));
                        }
                    }
                }
            },
        }
    }
}

} // verus!
