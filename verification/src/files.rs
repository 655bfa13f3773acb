//! The tree of files a file view shows, changed at a location of the tree.

use vstd::prelude::*;
use crate::dir::{follow, nested, nodes_of, Dir, File, Item, Node};
use crate::path::{path_join, parse_path, PathBuf, PathView};
use crate::text::{has_char, string_from_chars};

verus! {

/// The last part of a path: its last component, `/` for the root alone, nothing for the
/// empty path.
pub open spec fn last_part(p: PathView) -> Seq<char> {
    if p.comps.len() > 0 {
        p.comps.last()
    } else if p.absolute {
        seq!['/']
    } else {
        seq![]
    }
}

/// The last part of `path` (see `last_part`).
pub fn last_of_path(path: &PathBuf) -> (r: String)
    ensures
        r@ == last_part(path@),
{
    if path.comps.len() > 0 {
        let last = path.comps.len() - 1;
        proof {
            assert(path@.comps[last as int] == path.comps@[last as int]@);
        }
        path.comps[last].clone()
    } else if path.absolute {
        let mut cs: Vec<char> = Vec::new();
        cs.push('/');
        string_from_chars(cs.as_slice())
    } else {
        String::new()
    }
}

/// Why a change at a location of the tree was refused.
#[derive(Debug, PartialEq, Eq, Clone, Copy)]
pub enum FilesError {
    /// The location does not lead to a directory that can take the change.
    InvalidLocation,
}

/// The files of a view.
#[derive(Debug)]
pub struct Files {
    dir: Dir,
}

/// Whether a new file goes directly into the root for `location`: the location is one
/// index long and does not lead to a directory of the root.
pub open spec fn into_root(d: Node, location: Seq<usize>) -> bool {
    location.len() == 1 && !(follow(d, location) matches Some(n) && n is Dir)
}

/// The tree after adding the file `name` at `location` (see `Files::add_file`).
pub open spec fn added_file(d: Node, location: Seq<usize>, name: Seq<char>) -> Option<Node> {
    if into_root(d, location) {
        Some(Node::Dir(d.path(), d.kids().push(Node::File(path_join(d.path(), parse_path(name))))))
    } else {
        match nested(d, location) {
            Some(Node::Dir(p, k)) => Some(crate::dir::replace_at(
                d,
                location,
                Node::Dir(p, k.push(Node::File(path_join(p, parse_path(name))))),
            )),
            _ => None,
        }
    }
}

impl Files {
    pub closed spec fn node(&self) -> Node {
        self.dir.node()
    }

    /// The files of the tree `dir`.
    pub fn new(dir: Dir) -> (r: Files)
        ensures
            r.node() == dir.node(),
    {
        Files { dir }
    }

    /// The tree.
    pub fn dir(&self) -> (r: &Dir)
        ensures
            r.node() == self.node(),
    {
        &self.dir
    }

    /// Records the new file `name` (which holds no `/`) at `location`: directly in the
    /// root when the location is one index long and does not lead to a directory there,
    /// otherwise in the directory it leads to; fails when it leads to no directory (see
    /// `added_file`).
    pub fn add_file(&mut self, location: &[usize], name: &str) -> (r: Result<(), FilesError>)
        requires
            !has_char(name@, '/'),
        ensures
            added_file(old(self).node(), location@, name@) matches Some(n) ==> r is Ok && final(self).node() == n,
            added_file(old(self).node(), location@, name@) is None ==> r == Err::<(), FilesError>(
                FilesError::InvalidLocation,
            ) && final(self).node() == old(self).node(),
    {
        proof {
            crate::dir::lemma_dir_node_of(&self.dir);
        }
        let ghost before = self.dir.node();
        let mut to_root = false;
        if location.len() == 1 {
            let c = self.dir.child(location[0]);
            to_root = match c {
                None => true,
                Some(Item::File(_)) => true,
                Some(Item::Dir(_)) => false,
            };
            proof {
                broadcast use crate::dir::lemma_dir_node;
                assert(location@.skip(1) =~= Seq::<usize>::empty());
                let k = before.kids();
                if location@[0] < k.len() {
                    assert(follow(before, location@) == follow(k[location@[0] as int], location@.skip(1)));
                    assert(follow(before, location@) == Some(k[location@[0] as int]));
                    assert(c matches Some(it) && it.node() == k[location@[0] as int]);
                } else {
                    assert(follow(before, location@) is None);
                }
                assert(to_root == into_root(before, location@));
            }
        }
        proof {
            assert(to_root == into_root(before, location@));
        }
        if to_root {
            let _ = self.dir.new_file(name);
            return Ok(());
        }
        match self.dir.nested_child_mut(location) {
            Some(Item::Dir(d)) => {
                proof {
                    crate::dir::lemma_dir_node_of(d);
                }
                let _ = d.new_file(name);
                Ok(())
            },
            Some(Item::File(f)) => {
                proof {
                    crate::dir::lemma_replace_found(before, location@);
                }
                Err(FilesError::InvalidLocation)
            },
            None => Err(FilesError::InvalidLocation),
        }
    }

    /// Takes out and returns the item at the non-empty `location`; fails when the location
    /// leads to no item. Where the location's parent is a directory, the last index must be
    /// in range.
    pub fn remove_file(&mut self, location: &[usize]) -> (r: Result<Item, FilesError>)
        requires
            location@.len() > 0,
            follow(old(self).node(), location@.drop_last()) matches Some(Node::Dir(_, k)) ==> location@.last() < k.len(),
        ensures
            r matches Ok(it) ==> nested(old(self).node(), location@) == Some(it.node())
                && final(self).node() == crate::dir::remove_node_at(old(self).node(), location@),
            r is Err ==> final(self).node() == old(self).node(),
            r is Err <==> nested(old(self).node(), location@) is None,
    {
        match self.dir.nested_child(location) {
            None => Err(FilesError::InvalidLocation),
            Some(_) => Ok(self.dir.remove_at(location)),
        }
    }
}

} // verus!
