//! Marked files of a project, and the popup that lists them.

use vstd::prelude::*;
use crate::config::Config;
use crate::items::path_views;
use crate::keys::KeyEvent;
use crate::path::{PathBuf, PathView};
use crate::popup::is_key;
use crate::queue::{AppEvent, Queue};

verus! {

/// The marked files of one project.
#[derive(Debug)]
pub struct Marks {
    project: PathBuf,
    marks: Vec<PathBuf>,
}

/// The marks of all projects, as values: each project with its marked files.
pub open spec fn all_views(all: Seq<(PathBuf, Vec<PathBuf>)>) -> Seq<(PathView, Seq<PathView>)> {
    all.map_values(|e: (PathBuf, Vec<PathBuf>)| (e.0@, path_views(e.1@)))
}

/// The marked files of `project` among the marks of all projects: those of its first
/// entry, or none.
pub open spec fn marks_of(all: Seq<(PathView, Seq<PathView>)>, project: PathView) -> Seq<PathView> {
    if exists|i: int| 0 <= i < all.len() && (#[trigger] all[i]).0 == project {
        all[choose|i: int|
            0 <= i < all.len() && (#[trigger] all[i]).0 == project && forall|j: int|
                0 <= j < i ==> (#[trigger] all[j]).0 != project].1
    } else {
        seq![]
    }
}

/// The marks of all projects with those of `project` set to `marks`: its first entry is
/// replaced, or a new entry goes last.
pub open spec fn with_marks(all: Seq<(PathView, Seq<PathView>)>, project: PathView, marks: Seq<PathView>) -> Seq<(PathView, Seq<PathView>)> {
    if exists|i: int| 0 <= i < all.len() && (#[trigger] all[i]).0 == project {
        all.update(
            choose|i: int|
                0 <= i < all.len() && (#[trigger] all[i]).0 == project && forall|j: int|
                    0 <= j < i ==> (#[trigger] all[j]).0 != project,
            (project, marks),
        )
    } else {
        all.push((project, marks))
    }
}

fn copy_paths(v: &Vec<PathBuf>) -> (r: Vec<PathBuf>)
    ensures
        path_views(r@) == path_views(v@),
{
    let mut r: Vec<PathBuf> = Vec::new();
    let mut i: usize = 0;
    while i < v.len()
        invariant
            i <= v@.len(),
            path_views(r@) == path_views(v@).take(i as int),
        decreases v@.len() - i,
    {
        let p = v[i].duplicate();
        let ghost before = r@;
        r.push(p);
        proof {
            assert(path_views(v@)[i as int] == v@[i as int]@);
            assert(path_views(r@) =~= path_views(before).push(p@));
            assert(path_views(r@) =~= path_views(v@).take(i + 1));
        }
        i = i + 1;
    }
    proof {
        assert(path_views(v@).take(i as int) =~= path_views(v@));
    }
    r
}

fn find_project(all: &Vec<(PathBuf, Vec<PathBuf>)>, project: &PathBuf) -> (r: Option<usize>)
    ensures
        r matches Some(i) ==> i < all@.len() && all_views(all@)[i as int].0 == project@ && forall|j: int|
            0 <= j < i ==> (#[trigger] all_views(all@)[j]).0 != project@,
        r is None ==> forall|j: int| 0 <= j < all@.len() ==> (#[trigger] all_views(all@)[j]).0 != project@,
{
    let ghost s = all_views(all@);
    let mut i: usize = 0;
    while i < all.len()
        invariant
            i <= all@.len(),
            s == all_views(all@),
            forall|j: int| 0 <= j < i ==> (#[trigger] s[j]).0 != project@,
        decreases all@.len() - i,
    {
        if all[i].0.same(project) {
            return Some(i);
        }
        i = i + 1;
    }
    None
}

impl Default for Marks {
    /// No marks, for the empty path.
    fn default() -> (r: Marks)
        ensures
            r.spec_project() == (PathView { absolute: false, comps: seq![] }),
            r.spec_marks() == Seq::<PathView>::empty(),
    {
        let r = Marks { project: PathBuf::new(), marks: Vec::new() };
        proof {
            assert(r.spec_marks() =~= Seq::<PathView>::empty());
            assert(r.spec_project() =~= (PathView { absolute: false, comps: seq![] }));
        }
        r
    }
}

impl Marks {
    pub closed spec fn spec_project(&self) -> PathView {
        self.project@
    }

    pub closed spec fn spec_marks(&self) -> Seq<PathView> {
        path_views(self.marks@)
    }

    /// The marks of `project` among the marks of all projects (see `marks_of`).
    pub fn from_all(project: &PathBuf, all: &Vec<(PathBuf, Vec<PathBuf>)>) -> (r: Marks)
        ensures
            r.spec_project() == project@,
            r.spec_marks() == marks_of(all_views(all@), project@),
    {
        let ghost s = all_views(all@);
        let marks = match find_project(all, project) {
            Some(i) => {
                proof {
                    let c = choose|c: int|
                        0 <= c < s.len() && (#[trigger] s[c]).0 == project@ && forall|j: int|
                            0 <= j < c ==> (#[trigger] s[j]).0 != project@;
                    assert(s[i as int].0 == project@);
                    if c < i {
                    } else if c > i {
                    }
                    assert(c == i);
                }
                copy_paths(&all[i].1)
            },
            None => {
                let r: Vec<PathBuf> = Vec::new();
                proof {
                    assert(path_views(r@) =~= Seq::<PathView>::empty());
                }
                r
            },
        };
        Marks { project: project.duplicate(), marks }
    }

    /// The marks of all projects with this project's marks put in (see `with_marks`).
    pub fn put_into(&self, all: Vec<(PathBuf, Vec<PathBuf>)>) -> (r: Vec<(PathBuf, Vec<PathBuf>)>)
        ensures
            all_views(r@) == with_marks(all_views(all@), self.spec_project(), self.spec_marks()),
    {
        let ghost s = all_views(all@);
        let mut all = all;
        let entry = (self.project.duplicate(), copy_paths(&self.marks));
        match find_project(&all, &self.project) {
            Some(i) => {
                proof {
                    let c = choose|c: int|
                        0 <= c < s.len() && (#[trigger] s[c]).0 == self.project@ && forall|j: int|
                            0 <= j < c ==> (#[trigger] s[j]).0 != self.project@;
                    assert(s[i as int].0 == self.project@);
                    if c < i {
                    } else if c > i {
                    }
                    assert(c == i);
                }
                all.set(i, entry);
                proof {
                    assert(all_views(all@) =~= s.update(i as int, (self.project@, path_views(self.marks@))));
                }
            },
            None => {
                all.push(entry);
                proof {
                    assert(all_views(all@) =~= s.push((self.project@, path_views(self.marks@))));
                }
            },
        }
        all
    }

    /// The project the marks belong to.
    pub fn project(&self) -> (r: &PathBuf)
        ensures
            r@ == self.spec_project(),
    {
        &self.project
    }

    /// The marked files, in order.
    pub fn marks(&self) -> (r: &[PathBuf])
        ensures
            path_views(r@) == self.spec_marks(),
    {
        self.marks.as_slice()
    }
}

/// The popup that lists the marks: the marks, whether it is open and which is selected.
pub struct MarksPopup {
    marks: Vec<PathBuf>,
    queue: Queue,
    open: bool,
    selected: usize,
}

impl MarksPopup {
    pub closed spec fn spec_marks(&self) -> Seq<PathView> {
        path_views(self.marks@)
    }

    pub closed spec fn spec_open(&self) -> bool {
        self.open
    }

    pub closed spec fn spec_selected(&self) -> nat {
        self.selected as nat
    }

    pub closed spec fn spec_queue(&self) -> Queue {
        self.queue
    }

    /// A closed popup listing `marks`, the first selected.
    pub fn new(marks: Vec<PathBuf>, queue: Queue) -> (r: MarksPopup)
        ensures
            r.spec_marks() == path_views(marks@),
            !r.spec_open(),
            r.spec_selected() == 0,
            r.spec_queue() == queue,
    {
        MarksPopup { marks, queue, open: false, selected: 0 }
    }

    /// The marks listed.
    pub fn marks(&self) -> (r: &[PathBuf])
        ensures
            path_views(r@) == self.spec_marks(),
    {
        self.marks.as_slice()
    }

    /// Replaces the marks listed; the selection stays.
    pub fn set_marks(&mut self, marks: Vec<PathBuf>)
        ensures
            final(self).spec_marks() == path_views(marks@),
            final(self).spec_open() == old(self).spec_open(),
            final(self).spec_selected() == old(self).spec_selected(),
            final(self).spec_queue() == old(self).spec_queue(),
    {
        self.marks = marks;
    }

    /// The position selected.
    pub fn selected(&self) -> (r: usize)
        ensures
            r == self.spec_selected(),
    {
        self.selected
    }

    /// Takes out the first event the popup has sent, if any.
    pub fn pop_event(&mut self) -> (r: Option<AppEvent>)
        ensures
            old(self).spec_queue().events().len() == 0 ==> r is None,
            old(self).spec_queue().events().len() > 0 ==> r == Some(old(self).spec_queue().events()[0]),
    {
        self.queue.pop()
    }

    /// Whether the popup is open.
    pub fn visible(&self) -> (r: bool)
        ensures
            r == self.spec_open(),
    {
        self.open
    }

    /// Opens the popup.
    pub fn open(&mut self)
        ensures
            final(self).spec_open(),
            final(self).spec_marks() == old(self).spec_marks(),
            final(self).spec_selected() == old(self).spec_selected(),
            final(self).spec_queue() == old(self).spec_queue(),
    {
        self.open = true;
    }

    /// Closes the popup.
    pub fn close(&mut self)
        ensures
            !final(self).spec_open(),
            final(self).spec_marks() == old(self).spec_marks(),
            final(self).spec_selected() == old(self).spec_selected(),
            final(self).spec_queue() == old(self).spec_queue(),
    {
        self.open = false;
    }

    /// Adds the mark `path` last, unless it is marked already.
    pub fn add_mark(&mut self, path: PathBuf)
        ensures
            old(self).spec_marks().contains(path@) ==> final(self).spec_marks() == old(self).spec_marks(),
            !old(self).spec_marks().contains(path@) ==> final(self).spec_marks() == old(self).spec_marks().push(path@),
            final(self).spec_open() == old(self).spec_open(),
            final(self).spec_selected() == old(self).spec_selected(),
            final(self).spec_queue() == old(self).spec_queue(),
    {
        let ghost s = path_views(self.marks@);
        let mut i: usize = 0;
        while i < self.marks.len()
            invariant
                i <= self.marks@.len(),
                s == path_views(self.marks@),
                forall|j: int| 0 <= j < i ==> s[j] != path@,
            decreases self.marks@.len() - i,
        {
            if self.marks[i].same(&path) {
                proof {
                    assert(s[i as int] == path@);
                }
                return;
            }
            i = i + 1;
        }
        let ghost pv = path@;
        self.marks.push(path);
        proof {
            assert(path_views(self.marks@) =~= s.push(pv));
        }
    }

    /// Selects the next mark, staying on the last (and on the first when there are none).
    pub fn select_next(&mut self)
        requires
            old(self).spec_selected() < usize::MAX,
        ensures
            final(self).spec_selected() == (if old(self).spec_marks().len() == 0 || old(self).spec_selected()
                == old(self).spec_marks().len() - 1 {
                old(self).spec_selected()
            } else {
                old(self).spec_selected() + 1
            }),
            final(self).spec_marks() == old(self).spec_marks(),
            final(self).spec_open() == old(self).spec_open(),
            final(self).spec_queue() == old(self).spec_queue(),
    {
        if self.marks.len() == 0 || self.selected == self.marks.len() - 1 {
            return;
        }
        self.selected = self.selected + 1;
    }

    /// Selects the previous mark, staying on the first.
    pub fn select_prev(&mut self)
        ensures
            final(self).spec_selected() == (if old(self).spec_selected() == 0 {
                0
            } else {
                (old(self).spec_selected() - 1) as nat
            }),
            final(self).spec_marks() == old(self).spec_marks(),
            final(self).spec_open() == old(self).spec_open(),
            final(self).spec_queue() == old(self).spec_queue(),
    {
        if self.selected == 0 {
            return;
        }
        self.selected = self.selected - 1;
    }

    /// Selects the first mark.
    pub fn select_first(&mut self)
        ensures
            final(self).spec_selected() == 0,
            final(self).spec_marks() == old(self).spec_marks(),
            final(self).spec_open() == old(self).spec_open(),
            final(self).spec_queue() == old(self).spec_queue(),
    {
        self.selected = 0;
    }

    /// Selects the last mark, if there is one.
    pub fn select_last(&mut self)
        ensures
            final(self).spec_selected() == (if old(self).spec_marks().len() == 0 {
                old(self).spec_selected()
            } else {
                (old(self).spec_marks().len() - 1) as nat
            }),
            final(self).spec_marks() == old(self).spec_marks(),
            final(self).spec_open() == old(self).spec_open(),
            final(self).spec_queue() == old(self).spec_queue(),
    {
        if self.marks.len() == 0 {
            return;
        }
        self.selected = self.marks.len() - 1;
    }

    /// Removes the selected mark; the first is selected when the selection falls off the end.
    pub fn delete_selected(&mut self)
        requires
            old(self).spec_selected() < old(self).spec_marks().len(),
        ensures
            final(self).spec_marks() == old(self).spec_marks().remove(old(self).spec_selected() as int),
            final(self).spec_selected() == (if old(self).spec_selected() >= final(self).spec_marks().len() {
                0
            } else {
                old(self).spec_selected()
            }),
            final(self).spec_open() == old(self).spec_open(),
            final(self).spec_queue() == old(self).spec_queue(),
    {
        let ghost s = path_views(self.marks@);
        self.marks.remove(self.selected);
        proof {
            assert(path_views(self.marks@) =~= s.remove(self.selected as int));
        }
        if self.selected >= self.marks.len() {
            self.selected = 0;
        }
    }

    /// Handles a key press with the bindings of `config` (see `marks_key_effect`).
    pub fn handle_key(&mut self, ev: &KeyEvent, config: &Config)
        requires
            old(self).spec_selected() < usize::MAX,
        ensures
            marks_key_effect(*config, *old(self), *final(self), *ev),
    {
        if !self.open {
            return;
        }
        if config.quit.matches(ev) {
            self.close();
        } else if config.down.matches(ev) {
            self.select_next();
        } else if config.up.matches(ev) {
            self.select_prev();
        } else if config.all_up.matches(ev) {
            self.select_first();
        } else if config.all_down.matches(ev) {
            self.select_last();
        } else if config.open.matches(ev) {
            if self.selected < self.marks.len() {
                let p = self.marks[self.selected].duplicate();
                let ghost q0 = self.queue.events();
                self.queue.add(AppEvent::GotoFile(p));
                self.close();
                proof {
                    assert(self.queue.events().drop_last() =~= q0);
                }
            }
        } else if config.marks.delete.matches(ev) {
            if self.selected < self.marks.len() {
                let p = self.marks[self.selected].duplicate();
                let ghost q0 = self.queue.events();
                self.queue.add(AppEvent::DeleteMark(p));
                self.delete_selected();
                proof {
                    assert(self.queue.events().drop_last() =~= q0);
                }
            }
        }
    }
}

/// The queue `after` is `before` with one event added, which satisfies `last`.
pub open spec fn sent_one(before: Queue, after: Queue) -> bool {
    after.events().len() == before.events().len() + 1 && after.events().drop_last() == before.events()
}

/// What a key press does to the marks popup (`handle_key`): nothing while it is closed;
/// otherwise the first binding of the configuration that the key is decides, in this
/// order: quit closes it; down, up, all-up and all-down move the selection; open sends
/// the selected mark to go to and closes it; delete sends the selected mark to delete and
/// removes it. Open and delete do nothing when no mark is selected.
pub open spec fn marks_key_effect(c: Config, before: MarksPopup, after: MarksPopup, ev: KeyEvent) -> bool {
    let m = before.spec_marks();
    let sel = before.spec_selected();
    if !before.spec_open() {
        after == before
    } else if is_key(c.quit, ev) {
        !after.spec_open() && after.spec_marks() == m && after.spec_selected() == sel && after.spec_queue()
            == before.spec_queue()
    } else if is_key(c.down, ev) {
        after.spec_open() && after.spec_marks() == m && after.spec_queue() == before.spec_queue()
            && after.spec_selected() == (if m.len() == 0 || sel == m.len() - 1 {
            sel
        } else {
            sel + 1
        })
    } else if is_key(c.up, ev) {
        after.spec_open() && after.spec_marks() == m && after.spec_queue() == before.spec_queue()
            && after.spec_selected() == (if sel == 0 {
            0
        } else {
            (sel - 1) as nat
        })
    } else if is_key(c.all_up, ev) {
        after.spec_open() && after.spec_marks() == m && after.spec_queue() == before.spec_queue()
            && after.spec_selected() == 0
    } else if is_key(c.all_down, ev) {
        after.spec_open() && after.spec_marks() == m && after.spec_queue() == before.spec_queue()
            && after.spec_selected() == (if m.len() == 0 {
            sel
        } else {
            (m.len() - 1) as nat
        })
    } else if is_key(c.open, ev) {
        if sel < m.len() {
            &&& !after.spec_open()
            &&& after.spec_marks() == m
            &&& after.spec_selected() == sel
            &&& sent_one(before.spec_queue(), after.spec_queue())
            &&& after.spec_queue().events().last() matches AppEvent::GotoFile(p) && p@ == m[sel as int]
        } else {
            after == before
        }
    } else if is_key(c.marks.delete, ev) {
        if sel < m.len() {
            &&& after.spec_open()
            &&& after.spec_marks() == m.remove(sel as int)
            &&& after.spec_selected() == (if sel >= m.len() - 1 {
                0
            } else {
                sel
            })
            &&& sent_one(before.spec_queue(), after.spec_queue())
            &&& after.spec_queue().events().last() matches AppEvent::DeleteMark(p) && p@ == m[sel as int]
        } else {
            after == before
        }
    } else {
        after == before
    }
}

/// In the open popup the all-up binding, when neither quit, down nor up is the key,
/// selects the first mark; the marks, the events and the popup's being open stay.
pub proof fn lemma_all_up_selects_first(c: Config, before: MarksPopup, after: MarksPopup, ev: KeyEvent)
    requires
        marks_key_effect(c, before, after, ev),
        before.spec_open(),
        is_key(c.all_up, ev),
        !is_key(c.quit, ev),
        !is_key(c.down, ev),
        !is_key(c.up, ev),
    ensures
        after.spec_selected() == 0,
        after.spec_open(),
        after.spec_marks() == before.spec_marks(),
        after.spec_queue() == before.spec_queue(),
{
}

/// In the open popup the all-down binding, when neither quit, down, up nor all-up is
/// the key, selects the last mark (with no mark, the selection stays); the marks, the
/// events and the popup's being open stay.
pub proof fn lemma_all_down_selects_last(c: Config, before: MarksPopup, after: MarksPopup, ev: KeyEvent)
    requires
        marks_key_effect(c, before, after, ev),
        before.spec_open(),
        is_key(c.all_down, ev),
        !is_key(c.quit, ev),
        !is_key(c.down, ev),
        !is_key(c.up, ev),
        !is_key(c.all_up, ev),
    ensures
        before.spec_marks().len() > 0 ==> after.spec_selected() == before.spec_marks().len() - 1,
        before.spec_marks().len() == 0 ==> after.spec_selected() == before.spec_selected(),
        after.spec_open(),
        after.spec_marks() == before.spec_marks(),
        after.spec_queue() == before.spec_queue(),
{
}

/// In the open popup the first binding that the key is decides, for quit, down, up,
/// open and delete: quit closes the popup; down selects the next mark and up the one
/// before, staying at either end; open closes the popup and goes to the selected mark;
/// delete drops the selected mark and asks for it to be forgotten.
pub proof fn lemma_marks_bindings(c: Config, before: MarksPopup, after: MarksPopup, ev: KeyEvent)
    requires
        marks_key_effect(c, before, after, ev),
        before.spec_open(),
    ensures
        is_key(c.quit, ev) ==> !after.spec_open() && after.spec_marks() == before.spec_marks()
            && after.spec_queue() == before.spec_queue(),
        !is_key(c.quit, ev) && is_key(c.down, ev) ==> after.spec_open() && after.spec_marks() == before.spec_marks()
            && after.spec_selected() >= before.spec_selected() && (before.spec_selected() + 1
            < before.spec_marks().len() ==> after.spec_selected() == before.spec_selected() + 1),
        !is_key(c.quit, ev) && !is_key(c.down, ev) && is_key(c.up, ev) ==> after.spec_open() && after.spec_marks()
            == before.spec_marks() && after.spec_selected() <= before.spec_selected() && (before.spec_selected() > 0
            ==> after.spec_selected() == before.spec_selected() - 1),
        !is_key(c.quit, ev) && !is_key(c.down, ev) && !is_key(c.up, ev) && !is_key(c.all_up, ev) && !is_key(
            c.all_down,
            ev,
        ) && is_key(c.open, ev) && before.spec_selected() < before.spec_marks().len() ==> {
            &&& !after.spec_open()
            &&& after.spec_marks() == before.spec_marks()
            &&& after.spec_queue().events().len() == before.spec_queue().events().len() + 1
            &&& after.spec_queue().events().last() matches AppEvent::GotoFile(p) && p@
                == before.spec_marks()[before.spec_selected() as int]
        },
        !is_key(c.quit, ev) && !is_key(c.down, ev) && !is_key(c.up, ev) && !is_key(c.all_up, ev) && !is_key(
            c.all_down,
            ev,
        ) && !is_key(c.open, ev) && is_key(c.marks.delete, ev) && before.spec_selected()
            < before.spec_marks().len() ==> {
            &&& after.spec_open()
            &&& after.spec_marks() == before.spec_marks().remove(before.spec_selected() as int)
            &&& after.spec_queue().events().len() == before.spec_queue().events().len() + 1
            &&& after.spec_queue().events().last() matches AppEvent::DeleteMark(p) && p@
                == before.spec_marks()[before.spec_selected() as int]
        },
{
}

} // verus!
