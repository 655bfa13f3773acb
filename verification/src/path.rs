//! Paths as a root flag and a sequence of named components.
//!
//! A path is read from text by splitting on `/` and dropping empty pieces, so `/a//b/`
//! and `/a/b` are the same path. Equality, prefixes and parents are component-wise.

use vstd::prelude::*;
use crate::text::{str_chars, string_from_chars, string_push};

verus! {

/// `std::path::Path::is_dir`: whether a directory is at the path on disk; what is on disk
/// decides, so nothing is claimed.
#[verifier::external_body]
pub(crate) fn path_is_dir(path: &str) -> bool {
    std::path::Path::new(path).is_dir()
}

/// `std::path::Path::exists`: whether anything is at the path on disk; what is on disk
/// decides, so nothing is claimed.
#[verifier::external_body]
pub(crate) fn path_exists(path: &str) -> bool {
    std::path::Path::new(path).exists()
}

/// `std::path::MAIN_SEPARATOR`: the platform's path separator, a backslash on Windows and `/` elsewhere.
#[verifier::external_body]
pub(crate) fn main_separator() -> (r: char)
    ensures
        r == '/' || r == '\\',
{
    std::path::MAIN_SEPARATOR
}

/// The mathematical value of a path.
#[verifier::ext_equal]
pub struct PathView {
    pub absolute: bool,
    pub comps: Seq<Seq<char>>,
}

/// A file system path: whether it starts at the root, and its named components.
#[derive(Debug, PartialEq, Eq, Hash)]
pub struct PathBuf {
    pub absolute: bool,
    pub comps: Vec<String>,
}

impl View for PathBuf {
    type V = PathView;

    open spec fn view(&self) -> PathView {
        PathView { absolute: self.absolute, comps: self.comps.deep_view() }
    }
}

/// Splitting `s` at `/`: the completed non-empty pieces and the piece in progress.
pub open spec fn split_state(s: Seq<char>) -> (Seq<Seq<char>>, Seq<char>)
    decreases s.len(),
{
    if s.len() == 0 {
        (seq![], seq![])
    } else {
        let (done, cur) = split_state(s.drop_last());
        if s.last() == '/' {
            (if cur.len() > 0 {
                done.push(cur)
            } else {
                done
            }, seq![])
        } else {
            (done, cur.push(s.last()))
        }
    }
}

/// The non-empty pieces of `s` between `/` characters.
pub open spec fn split_components(s: Seq<char>) -> Seq<Seq<char>> {
    let (done, cur) = split_state(s);
    if cur.len() > 0 {
        done.push(cur)
    } else {
        done
    }
}

/// A component is non-empty and holds no `/`.
pub open spec fn valid_component(c: Seq<char>) -> bool {
    c.len() > 0 && forall|i: int| 0 <= i < c.len() ==> c[i] != '/'
}

pub open spec fn valid_components(cs: Seq<Seq<char>>) -> bool {
    forall|i: int| 0 <= i < cs.len() ==> #[trigger] valid_component(cs[i])
}

/// The path that the text `s` denotes.
pub open spec fn parse_path(s: Seq<char>) -> PathView {
    PathView { absolute: s.len() > 0 && s[0] == '/', comps: split_components(s) }
}

/// Components joined by `/`.
pub open spec fn join_components(cs: Seq<Seq<char>>) -> Seq<char>
    decreases cs.len(),
{
    if cs.len() == 0 {
        seq![]
    } else if cs.len() == 1 {
        cs[0]
    } else {
        join_components(cs.drop_last()) + seq!['/'] + cs.last()
    }
}

/// The text of a path: a leading `/` when it is absolute, then its components joined by `/`.
pub open spec fn path_text(p: PathView) -> Seq<char> {
    (if p.absolute {
        seq!['/']
    } else {
        seq![]
    }) + join_components(p.comps)
}

/// `Path::starts_with`: the root and components of `base` are a prefix of those of `p`.
/// The empty relative path is a prefix of every path.
pub open spec fn path_starts_with(p: PathView, base: PathView) -> bool {
    &&& (if base.absolute {
        p.absolute
    } else {
        !p.absolute || base.comps.len() == 0
    })
    &&& base.comps.len() <= p.comps.len()
    &&& p.comps.take(base.comps.len() as int) == base.comps
}

/// `Path::parent`: no parent for a path without components.
pub open spec fn path_parent(p: PathView) -> Option<PathView> {
    if p.comps.len() == 0 {
        None
    } else {
        Some(PathView { absolute: p.absolute, comps: p.comps.drop_last() })
    }
}

/// `Path::join`: an absolute `other` replaces `p`, a relative one is appended.
pub open spec fn path_join(p: PathView, other: PathView) -> PathView {
    if other.absolute {
        other
    } else {
        PathView { absolute: p.absolute, comps: p.comps + other.comps }
    }
}

/// `ancestor` is `p` or one of the paths above it (`Path::ancestors`).
pub open spec fn is_ancestor(ancestor: PathView, p: PathView) -> bool {
    ancestor.absolute == p.absolute && ancestor.comps.len() <= p.comps.len() && p.comps.take(
        ancestor.comps.len() as int,
    ) == ancestor.comps
}

impl PathView {
    pub open spec fn wf(self) -> bool {
        valid_components(self.comps)
    }
}

proof fn lemma_split_state_valid(s: Seq<char>)
    ensures
        valid_components(split_state(s).0),
        forall|i: int| 0 <= i < split_state(s).1.len() ==> split_state(s).1[i] != '/',
    decreases s.len(),
{
    if s.len() > 0 {
        lemma_split_state_valid(s.drop_last());
        let (done, cur) = split_state(s.drop_last());
        if s.last() == '/' {
            if cur.len() > 0 {
                assert forall|i: int| 0 <= i < done.push(cur).len() implies #[trigger] valid_component(
                    done.push(cur)[i],
                ) by {
                    if i < done.len() {
                        assert(done.push(cur)[i] == done[i]);
                    }
                }
            }
        } else {
            assert forall|i: int| 0 <= i < cur.push(s.last()).len() implies cur.push(s.last())[i]
                != '/' by {
                if i < cur.len() {
                    assert(cur.push(s.last())[i] == cur[i]);
                }
            }
        }
    }
}

pub proof fn lemma_parse_path_wf(s: Seq<char>)
    ensures
        parse_path(s).wf(),
{
    lemma_split_state_valid(s);
    let (done, cur) = split_state(s);
    if cur.len() > 0 {
        assert forall|i: int| 0 <= i < done.push(cur).len() implies #[trigger] valid_component(
            done.push(cur)[i],
        ) by {
            if i < done.len() {
                assert(done.push(cur)[i] == done[i]);
            }
        }
    }
}

/// Whether two character sequences held in `String`s are equal.
pub fn string_eq(a: &String, b: &String) -> (r: bool)
    ensures
        r == (a@ == b@),
{
    a.eq(b)
}

/// Whether the component sequences `a` and `b[..a.len()]` are equal.
fn comps_prefix(a: &Vec<String>, b: &Vec<String>) -> (r: bool)
    ensures
        r == (a.deep_view().len() <= b.deep_view().len() && b.deep_view().take(
            a.deep_view().len() as int,
        ) == a.deep_view()),
{
    if a.len() > b.len() {
        return false;
    }
    let mut i: usize = 0;
    while i < a.len()
        invariant
            a@.len() <= b@.len(),
            i <= a@.len(),
            forall|j: int| 0 <= j < i ==> a.deep_view()[j] == b.deep_view()[j],
        decreases a@.len() - i,
    {
        if !string_eq(&a[i], &b[i]) {
            proof {
                assert(b.deep_view().take(a@.len() as int)[i as int] == b.deep_view()[i as int]);
            }
            return false;
        }
        i = i + 1;
    }
    proof {
        assert(b.deep_view().take(a@.len() as int) =~= a.deep_view());
    }
    true
}

/// A copy of a vector of strings.
pub fn copy_strings(v: &Vec<String>) -> (r: Vec<String>)
    ensures
        r.deep_view() == v.deep_view(),
        r@ == v@,
{
    let mut r: Vec<String> = Vec::new();
    let mut i: usize = 0;
    while i < v.len()
        invariant
            i <= v@.len(),
            r@ == v@.take(i as int),
        decreases v@.len() - i,
    {
        r.push(v[i].clone());
        proof {
            assert(v@.take(i as int + 1) == v@.take(i as int).push(v@[i as int]));
        }
        i = i + 1;
    }
    proof {
        assert(v@.take(v@.len() as int) == v@);
        assert(r.deep_view() =~= v.deep_view());
    }
    r
}

impl PathBuf {
    /// The empty relative path.
    pub fn new() -> (r: PathBuf)
        ensures
            !r@.absolute,
            r@.comps.len() == 0,
            r@.wf(),
    {
        PathBuf { absolute: false, comps: Vec::new() }
    }

    /// Well-formedness: every component is non-empty and free of `/`.
    pub open spec fn wf(&self) -> bool {
        self@.wf()
    }

    /// A copy of this path.
    pub fn duplicate(&self) -> (r: PathBuf)
        ensures
            r@ == self@,
    {
        PathBuf { absolute: self.absolute, comps: copy_strings(&self.comps) }
    }

    /// The path denoted by the text `s`.
    pub fn from_str(s: &str) -> (r: PathBuf)
        ensures
            r@ == parse_path(s@),
            r.wf(),
    {
        let cs = str_chars(s);
        let mut comps: Vec<String> = Vec::new();
        let mut cur: Vec<char> = Vec::new();
        let mut i: usize = 0;
        while i < cs.len()
            invariant
                cs@ == s@,
                i <= cs@.len(),
                comps.deep_view() == split_state(cs@.take(i as int)).0,
                cur@ == split_state(cs@.take(i as int)).1,
            decreases cs@.len() - i,
        {
            proof {
                assert(cs@.take(i as int + 1).drop_last() =~= cs@.take(i as int));
                assert(cs@.take(i as int + 1).last() == cs@[i as int]);
            }
            if cs[i] == '/' {
                if cur.len() > 0 {
                    let piece = string_from_chars(cur.as_slice());
                    let ghost before = comps.deep_view();
                    comps.push(piece);
                    proof {
                        assert(comps.deep_view() =~= before.push(piece@));
                    }
                }
                cur = Vec::new();
                proof {
                    assert(cur@ =~= Seq::<char>::empty());
                }
            } else {
                cur.push(cs[i]);
            }
            i = i + 1;
        }
        proof {
            assert(cs@.take(cs@.len() as int) == cs@);
        }
        if cur.len() > 0 {
            let piece = string_from_chars(cur.as_slice());
            let ghost before = comps.deep_view();
            comps.push(piece);
            proof {
                assert(comps.deep_view() =~= before.push(piece@));
            }
        }
        let absolute = cs.len() > 0 && cs[0] == '/';
        let r = PathBuf { absolute, comps };
        proof {
            lemma_parse_path_wf(s@);
            assert(r@ =~= parse_path(s@));
        }
        r
    }

    /// Whether the path starts at the root.
    pub fn is_absolute(&self) -> (r: bool)
        ensures
            r == self@.absolute,
    {
        self.absolute
    }

    /// The number of components, the root counted as one (`Path::components().count()`).
    pub fn component_count(&self) -> (r: usize)
        requires
            self@.comps.len() < usize::MAX,
        ensures
            r == self@.comps.len() + if self@.absolute {
                1int
            } else {
                0int
            },
    {
        if self.absolute {
            self.comps.len() + 1
        } else {
            self.comps.len()
        }
    }

    /// Component-wise equality.
    pub fn same(&self, other: &PathBuf) -> (r: bool)
        ensures
            r == (self@ == other@),
    {
        if self.absolute != other.absolute || self.comps.len() != other.comps.len() {
            proof {
                assert(self.comps.deep_view().len() == self.comps@.len());
                assert(other.comps.deep_view().len() == other.comps@.len());
            }
            return false;
        }
        let r = comps_prefix(&self.comps, &other.comps);
        proof {
            if r {
                assert(other.comps.deep_view().take(self.comps.deep_view().len() as int)
                    =~= other.comps.deep_view());
            } else {
                if self@ == other@ {
                    assert(other.comps.deep_view().take(self.comps.deep_view().len() as int)
                        =~= other.comps.deep_view());
                }
            }
        }
        r
    }

    /// Whether `base` is a prefix of this path (`Path::starts_with`).
    pub fn starts_with(&self, base: &PathBuf) -> (r: bool)
        ensures
            r == path_starts_with(self@, base@),
    {
        if base.absolute {
            if !self.absolute {
                return false;
            }
        } else if self.absolute && base.comps.len() > 0 {
            return false;
        }
        comps_prefix(&base.comps, &self.comps)
    }

    /// The path without its last component (`Path::parent`).
    pub fn parent(&self) -> (r: Option<PathBuf>)
        ensures
            r matches Some(q) ==> Some(q@) == path_parent(self@),
            r is None <==> path_parent(self@) is None,
            self.wf() ==> (r matches Some(q) ==> q.wf()),
    {
        if self.comps.len() == 0 {
            return None;
        }
        let mut comps = copy_strings(&self.comps);
        comps.pop();
        let q = PathBuf { absolute: self.absolute, comps };
        proof {
            assert(q.comps.deep_view() =~= self.comps.deep_view().drop_last());
            assert(q@ =~= path_parent(self@).unwrap());
        }
        Some(q)
    }

    /// The path `other` appended to this one (`Path::join`).
    pub fn join(&self, other: &PathBuf) -> (r: PathBuf)
        ensures
            r@ == path_join(self@, other@),
            self.wf() && other.wf() ==> r.wf(),
    {
        if other.absolute {
            return other.duplicate();
        }
        let mut comps = copy_strings(&self.comps);
        let mut i: usize = 0;
        while i < other.comps.len()
            invariant
                i <= other.comps@.len(),
                comps.deep_view() == self.comps.deep_view() + other.comps.deep_view().take(i as int),
            decreases other.comps@.len() - i,
        {
            let ghost before = comps.deep_view();
            comps.push(other.comps[i].clone());
            proof {
                assert(comps.deep_view() =~= before.push(other.comps.deep_view()[i as int]));
                assert(other.comps.deep_view().take(i as int + 1) =~= other.comps.deep_view().take(
                    i as int,
                ).push(other.comps.deep_view()[i as int]));
            }
            i = i + 1;
        }
        proof {
            assert(other.comps.deep_view().take(other.comps@.len() as int) =~= other.comps.deep_view());
        }
        let r = PathBuf { absolute: self.absolute, comps };
        proof {
            assert(r@ =~= path_join(self@, other@));
            if self.wf() && other.wf() {
                assert forall|k: int| 0 <= k < r@.comps.len() implies #[trigger] valid_component(
                    r@.comps[k],
                ) by {
                    if k < self@.comps.len() {
                        assert(r@.comps[k] == self@.comps[k]);
                    } else {
                        assert(r@.comps[k] == other@.comps[k - self@.comps.len()]);
                    }
                }
            }
        }
        r
    }

    /// The path with the text `name` appended (`Path::join` with a `&str`).
    pub fn join_str(&self, name: &str) -> (r: PathBuf)
        ensures
            r@ == path_join(self@, parse_path(name@)),
            self.wf() ==> r.wf(),
    {
        let other = PathBuf::from_str(name);
        self.join(&other)
    }

    /// The last component, if any (`Path::file_name`).
    pub fn file_name(&self) -> (r: Option<String>)
        ensures
            r matches Some(s) ==> self@.comps.len() > 0 && s@ == self@.comps.last(),
            r is None <==> self@.comps.len() == 0,
    {
        if self.comps.len() == 0 {
            None
        } else {
            Some(self.comps[self.comps.len() - 1].clone())
        }
    }

    /// The text of the path (`Path::to_string_lossy`).
    pub fn to_text(&self) -> (r: String)
        ensures
            r@ == path_text(self@),
    {
        let mut out: Vec<char> = Vec::new();
        if self.absolute {
            out.push('/');
        }
        let ghost lead = out@;
        let mut i: usize = 0;
        while i < self.comps.len()
            invariant
                i <= self.comps@.len(),
                lead == (if self.absolute {
                    seq!['/']
                } else {
                    seq![]
                }),
                out@ == lead + join_components(self.comps.deep_view().take(i as int)),
            decreases self.comps@.len() - i,
        {
            let ghost before = out@;
            let ghost prev = self.comps.deep_view().take(i as int);
            if i > 0 {
                out.push('/');
            }
            let piece = str_chars(self.comps[i].as_str());
            let mut k: usize = 0;
            let ghost mid = out@;
            while k < piece.len()
                invariant
                    k <= piece@.len(),
                    out@ == mid + piece@.take(k as int),
                decreases piece@.len() - k,
            {
                out.push(piece[k]);
                proof {
                    assert(piece@.take(k as int + 1) == piece@.take(k as int).push(piece@[k as int]));
                }
                k = k + 1;
            }
            proof {
                assert(piece@.take(piece@.len() as int) == piece@);
                let next = self.comps.deep_view().take(i as int + 1);
                assert(next.drop_last() =~= prev);
                assert(next.last() == self.comps[i as int]@);
                if i == 0 {
                    assert(prev =~= Seq::<Seq<char>>::empty());
                    assert(join_components(next) == next[0]);
                    assert(out@ =~= lead + join_components(next));
                } else {
                    assert(join_components(next) == join_components(prev) + seq!['/'] + next.last());
                    assert(out@ =~= lead + join_components(next));
                }
            }
            i = i + 1;
        }
        proof {
            assert(self.comps.deep_view().take(self.comps@.len() as int) =~= self.comps.deep_view());
        }
        string_from_chars(out.as_slice())
    }
}

/// The ancestor of `p` made of its first `k` components.
pub open spec fn prefix_path(p: PathView, k: int) -> PathView {
    PathView { absolute: p.absolute, comps: p.comps.take(k) }
}

proof fn lemma_join_prefix(cs: Seq<Seq<char>>, k: int)
    requires
        0 <= k <= cs.len(),
    ensures
        join_components(cs.take(k)).is_prefix_of(join_components(cs)),
    decreases cs.len(),
{
    if k == cs.len() {
        assert(cs.take(k) =~= cs);
    } else {
        let d = cs.drop_last();
        assert(d.take(k) =~= cs.take(k));
        lemma_join_prefix(d, k);
        if cs.len() >= 2 {
            assert(join_components(cs) == join_components(d) + seq!['/'] + cs.last());
            assert(join_components(d).is_prefix_of(join_components(cs)));
        } else {
            assert(k == 0);
            assert(cs.take(0) =~= Seq::<Seq<char>>::empty());
        }
    }
}

/// The text of an ancestor is a prefix of the text of the path.
pub proof fn lemma_prefix_path_text(p: PathView, k: int)
    requires
        0 <= k <= p.comps.len(),
    ensures
        path_text(prefix_path(p, k)).is_prefix_of(path_text(p)),
{
    lemma_join_prefix(p.comps, k);
    let lead = if p.absolute {
        seq!['/']
    } else {
        seq![]
    };
    let a = join_components(p.comps.take(k));
    let b = join_components(p.comps);
    assert forall|i: int| 0 <= i < (lead + a).len() implies (lead + a)[i] == (lead + b)[i] by {
        if i >= lead.len() {
            assert(a[i - lead.len()] == b[i - lead.len()]);
        }
    }
}

proof fn lemma_split_append_plain(t: Seq<char>, c: Seq<char>)
    requires
        forall|i: int| 0 <= i < c.len() ==> c[i] != '/',
    ensures
        split_state(t + c) == (split_state(t).0, split_state(t).1 + c),
    decreases c.len(),
{
    if c.len() == 0 {
        assert(t + c =~= t);
        assert(split_state(t).1 + c =~= split_state(t).1);
    } else {
        assert((t + c).drop_last() =~= t + c.drop_last());
        assert((t + c).last() == c.last());
        lemma_split_append_plain(t, c.drop_last());
        assert(split_state(t).1 + c.drop_last() + seq![c.last()] =~= split_state(t).1 + c);
        assert((split_state(t).1 + c.drop_last()).push(c.last()) =~= split_state(t).1 + c);
    }
}

proof fn lemma_split_lead(lead: Seq<char>)
    requires
        lead == seq!['/'] || lead == Seq::<char>::empty(),
    ensures
        split_state(lead) == (Seq::<Seq<char>>::empty(), Seq::<char>::empty()),
        split_components(lead) == Seq::<Seq<char>>::empty(),
{
    let e = Seq::<char>::empty();
    assert(split_state(e) == (Seq::<Seq<char>>::empty(), e));
    if lead.len() == 1 {
        assert(lead.drop_last() =~= e);
        assert(lead.last() == '/');
        assert(split_state(lead) == (Seq::<Seq<char>>::empty(), e));
    } else {
        assert(lead =~= e);
    }
}

proof fn lemma_split_joined(lead: Seq<char>, cs: Seq<Seq<char>>)
    requires
        lead == seq!['/'] || lead == Seq::<char>::empty(),
        cs.len() > 0,
        valid_components(cs),
    ensures
        split_state(lead + join_components(cs)) == (cs.drop_last(), cs.last()),
    decreases cs.len(),
{
    lemma_split_lead(lead);
    assert(valid_component(cs.last()));
    if cs.len() == 1 {
        assert(join_components(cs) == cs[0]);
        lemma_split_append_plain(lead, cs[0]);
        assert(cs.drop_last() =~= Seq::<Seq<char>>::empty());
        assert(Seq::<char>::empty() + cs[0] =~= cs[0]);
    } else {
        let d = cs.drop_last();
        assert forall|i: int| 0 <= i < d.len() implies #[trigger] valid_component(d[i]) by {
            assert(d[i] == cs[i]);
        }
        lemma_split_joined(lead, d);
        let x = lead + join_components(d);
        assert(lead + join_components(cs) =~= (x + seq!['/']) + cs.last());
        assert((x + seq!['/']).drop_last() =~= x);
        assert((x + seq!['/']).last() == '/');
        assert(valid_component(d.last()));
        assert(d.drop_last().push(d.last()) =~= d);
        lemma_split_append_plain(x + seq!['/'], cs.last());
        assert(Seq::<char>::empty() + cs.last() =~= cs.last());
    }
}

proof fn lemma_join_first(cs: Seq<Seq<char>>)
    requires
        cs.len() > 0,
        valid_components(cs),
    ensures
        join_components(cs).len() > 0,
        join_components(cs)[0] == cs[0][0],
    decreases cs.len(),
{
    assert(valid_component(cs[0]));
    if cs.len() > 1 {
        let d = cs.drop_last();
        assert forall|i: int| 0 <= i < d.len() implies #[trigger] valid_component(d[i]) by {
            assert(d[i] == cs[i]);
        }
        lemma_join_first(d);
        assert(d[0] == cs[0]);
    }
}

/// Reading back the text of a well-formed path gives the path.
pub proof fn lemma_parse_path_text(p: PathView)
    requires
        p.wf(),
    ensures
        parse_path(path_text(p)) == p,
{
    let lead = if p.absolute {
        seq!['/']
    } else {
        Seq::<char>::empty()
    };
    let t = path_text(p);
    if p.comps.len() == 0 {
        assert(join_components(p.comps) =~= Seq::<char>::empty());
        assert(t =~= lead);
        lemma_split_lead(lead);
        assert(split_components(t) =~= p.comps);
    } else {
        lemma_split_joined(lead, p.comps);
        assert(valid_component(p.comps.last()));
        assert(p.comps.drop_last().push(p.comps.last()) =~= p.comps);
        lemma_join_first(p.comps);
        assert(valid_component(p.comps[0]));
        if !p.absolute {
            assert(t =~= join_components(p.comps));
        }
    }
    assert(parse_path(t) =~= p);
}

/// Whether every component of `p` is non-empty and holds no `/` (see `PathView::wf`).
#[verifier::loop_isolation(false)]
pub fn components_valid(p: &PathBuf) -> (r: bool)
    ensures
        r == p@.wf(),
{
    let ghost cs = p.comps.deep_view();
    let mut i: usize = 0;
    while i < p.comps.len()
        invariant
            i <= p.comps@.len(),
            cs == p.comps.deep_view(),
            cs.len() == p.comps@.len(),
            forall|j: int| 0 <= j < i ==> #[trigger] valid_component(cs[j]),
        decreases p.comps@.len() - i,
    {
        let chars = str_chars(p.comps[i].as_str());
        proof {
            assert(cs[i as int] == p.comps@[i as int]@);
        }
        if chars.len() == 0 {
            proof {
                assert(!valid_component(cs[i as int]));
            }
            return false;
        }
        let mut j: usize = 0;
        while j < chars.len()
            invariant
                j <= chars@.len(),
                chars@ == cs[i as int],
                forall|m: int| 0 <= m < j ==> chars@[m] != '/',
            decreases chars@.len() - j,
        {
            if chars[j] == '/' {
                proof {
                    assert(cs[i as int][j as int] == '/');
                    assert(!valid_component(cs[i as int]));
                }
                return false;
            }
            j = j + 1;
        }
        proof {
            assert(valid_component(cs[i as int]));
        }
        i = i + 1;
    }
    proof {
        assert(valid_components(cs));
    }
    true
}

} // verus!
