//! Changes on disk that the tree must catch up with.

use vstd::prelude::*;
use crate::items::path_views;
use crate::path::{PathBuf, PathView};

verus! {

/// One change on disk.
#[derive(Debug, PartialEq, Eq)]
pub enum RefreshData {
    Delete(PathBuf),
    Add(PathBuf),
}

/// The mathematical value of a change.
pub enum RefreshView {
    Delete(PathView),
    Add(PathView),
}

impl View for RefreshData {
    type V = RefreshView;

    open spec fn view(&self) -> RefreshView {
        match self {
            RefreshData::Delete(p) => RefreshView::Delete(p@),
            RefreshData::Add(p) => RefreshView::Add(p@),
        }
    }
}

/// The views of a batch of changes.
pub open spec fn refresh_views(s: Seq<RefreshData>) -> Seq<RefreshView> {
    s.map_values(|r: RefreshData| r@)
}

/// The changes that adding each of `paths` makes.
pub open spec fn adds(paths: Seq<PathView>) -> Seq<RefreshView> {
    paths.map_values(|p: PathView| RefreshView::Add(p))
}

/// The changes that deleting each of `paths` makes.
pub open spec fn deletes(paths: Seq<PathView>) -> Seq<RefreshView> {
    paths.map_values(|p: PathView| RefreshView::Delete(p))
}

/// What the disk watcher saw happen to some paths.
#[derive(Debug, PartialEq, Eq, Clone, Copy)]
pub enum FsChange {
    Created,
    Removed,
    Other,
}

/// The paths created and removed while the tree was not listening.
#[derive(Debug, Default)]
pub struct ChangeBuffer {
    created: Vec<PathBuf>,
    removed: Vec<PathBuf>,
}

fn into_changes(paths: &Vec<PathBuf>, add: bool) -> (r: Vec<RefreshData>)
    ensures
        add ==> refresh_views(r@) == adds(path_views(paths@)),
        !add ==> refresh_views(r@) == deletes(path_views(paths@)),
{
    let ghost all = path_views(paths@);
    let mut r: Vec<RefreshData> = Vec::new();
    let mut i: usize = 0;
    while i < paths.len()
        invariant
            i <= paths@.len(),
            all == path_views(paths@),
            add ==> refresh_views(r@) == adds(all.take(i as int)),
            !add ==> refresh_views(r@) == deletes(all.take(i as int)),
        decreases paths@.len() - i,
    {
        let ghost before = r@;
        let p = paths[i].duplicate();
        proof {
            assert(p@ == all[i as int]);
        }
        let change = if add {
            RefreshData::Add(p)
        } else {
            RefreshData::Delete(p)
        };
        r.push(change);
        proof {
            assert(refresh_views(r@) =~= refresh_views(before).push(change@));
            if add {
                assert(adds(all.take(i + 1)) =~= adds(all.take(i as int)).push(change@));
            } else {
                assert(deletes(all.take(i + 1)) =~= deletes(all.take(i as int)).push(change@));
            }
        }
        i = i + 1;
    }
    proof {
        assert(all.take(i as int) =~= all);
    }
    r
}

fn append_paths(to: &mut Vec<PathBuf>, paths: Vec<PathBuf>)
    ensures
        path_views(final(to)@) == path_views(old(to)@) + path_views(paths@),
{
    let mut more = paths;
    let ghost a = path_views(to@);
    let ghost b = path_views(more@);
    to.append(&mut more);
    proof {
        assert(path_views(to@) =~= a + b);
    }
}

impl ChangeBuffer {
    pub closed spec fn created(&self) -> Seq<PathView> {
        path_views(self.created@)
    }

    pub closed spec fn removed(&self) -> Seq<PathView> {
        path_views(self.removed@)
    }

    /// An empty buffer.
    pub fn new() -> (r: ChangeBuffer)
        ensures
            r.created() == Seq::<PathView>::empty(),
            r.removed() == Seq::<PathView>::empty(),
    {
        let r = ChangeBuffer { created: Vec::new(), removed: Vec::new() };
        proof {
            assert(r.created() =~= Seq::<PathView>::empty());
            assert(r.removed() =~= Seq::<PathView>::empty());
        }
        r
    }

    /// Holds on to paths that were created.
    pub fn add_created(&mut self, path: Vec<PathBuf>)
        ensures
            final(self).created() == old(self).created() + path_views(path@),
            final(self).removed() == old(self).removed(),
    {
        append_paths(&mut self.created, path);
    }

    /// Holds on to paths that were removed.
    pub fn add_removed(&mut self, path: Vec<PathBuf>)
        ensures
            final(self).removed() == old(self).removed() + path_views(path@),
            final(self).created() == old(self).created(),
    {
        append_paths(&mut self.removed, path);
    }

    /// Empties the buffer into batches of changes: the created paths as one batch of
    /// additions, then the removed paths as one batch of deletions; an empty batch is left out.
    pub fn flush(&mut self) -> (r: Vec<Vec<RefreshData>>)
        ensures
            final(self).created() == Seq::<PathView>::empty(),
            final(self).removed() == Seq::<PathView>::empty(),
            r@.map_values(|b: Vec<RefreshData>| refresh_views(b@)) == (if old(self).created().len() > 0 {
                seq![adds(old(self).created())]
            } else {
                Seq::empty()
            }) + (if old(self).removed().len() > 0 {
                seq![deletes(old(self).removed())]
            } else {
                Seq::empty()
            }),
    {
        let mut r: Vec<Vec<RefreshData>> = Vec::new();
        let mut created: Vec<PathBuf> = Vec::new();
        let mut removed: Vec<PathBuf> = Vec::new();
        std::mem::swap(&mut created, &mut self.created);
        std::mem::swap(&mut removed, &mut self.removed);
        let ghost c = path_views(created@);
        let ghost d = path_views(removed@);
        if created.len() > 0 {
            r.push(into_changes(&created, true));
        }
        let ghost mid = r@;
        if removed.len() > 0 {
            r.push(into_changes(&removed, false));
        }
        proof {
            assert(self.created() =~= Seq::<PathView>::empty());
            assert(self.removed() =~= Seq::<PathView>::empty());
            assert(r@.map_values(|b: Vec<RefreshData>| refresh_views(b@)) =~= (if c.len() > 0 {
                seq![adds(c)]
            } else {
                Seq::empty()
            }) + (if d.len() > 0 {
                seq![deletes(d)]
            } else {
                Seq::empty()
            }));
        }
        r
    }

    /// What to do with paths the watcher reports: while the tree is suspended they are held
    /// in the buffer and nothing is sent; otherwise they are sent at once as one batch.
    /// Changes other than creation and removal are dropped.
    pub fn route(&mut self, change: FsChange, paths: Vec<PathBuf>, suspended: bool) -> (r: Option<Vec<RefreshData>>)
        ensures
            change == FsChange::Other ==> r is None && final(self).created() == old(self).created()
                && final(self).removed() == old(self).removed(),
            change == FsChange::Created && suspended ==> r is None && final(self).created() == old(
                self,
            ).created() + path_views(paths@) && final(self).removed() == old(self).removed(),
            change == FsChange::Removed && suspended ==> r is None && final(self).removed() == old(
                self,
            ).removed() + path_views(paths@) && final(self).created() == old(self).created(),
            change == FsChange::Created && !suspended ==> (r matches Some(b) && refresh_views(b@)
                == adds(path_views(paths@))) && final(self).created() == old(self).created()
                && final(self).removed() == old(self).removed(),
            change == FsChange::Removed && !suspended ==> (r matches Some(b) && refresh_views(b@)
                == deletes(path_views(paths@))) && final(self).created() == old(self).created()
                && final(self).removed() == old(self).removed(),
    {
        match change {
            FsChange::Created => {
                if suspended {
                    self.add_created(paths);
                    None
                } else {
                    Some(into_changes(&paths, true))
                }
            },
            FsChange::Removed => {
                if suspended {
                    self.add_removed(paths);
                    None
                } else {
                    Some(into_changes(&paths, false))
                }
            },
            FsChange::Other => None,
        }
    }
}

} // verus!
