//! Deciding which paths below a root are ignored: by globs given by the user, by the
//! root's `.gitignore` and by git's global excludes file.

use vstd::prelude::*;
use crate::path::{PathBuf, PathView, path_starts_with, path_text};

verus! {

#[verifier::external_type_specification]
#[verifier::external_body]
pub struct ExGitignore(ignore::gitignore::Gitignore);

#[verifier::external_type_specification]
#[verifier::external_body]
pub struct ExGitignoreBuilder(ignore::gitignore::GitignoreBuilder);

#[verifier::external_type_specification]
#[verifier::external_body]
pub struct ExOverride(ignore::overrides::Override);

#[verifier::external_type_specification]
#[verifier::external_body]
pub struct ExOverrideBuilder(ignore::overrides::OverrideBuilder);

#[verifier::external_type_specification]
#[verifier::external_body]
pub struct ExIgnoreError(ignore::Error);

/// `ignore::gitignore::GitignoreBuilder::new`: a builder of gitignore matchers relative to `root`.
#[verifier::external_body]
fn gitignore_builder_new(root: &str) -> ignore::gitignore::GitignoreBuilder {
    ignore::gitignore::GitignoreBuilder::new(std::path::Path::new(root))
}

/// `ignore::gitignore::GitignoreBuilder::add`: reads the globs of the gitignore file at `file` from disk;
/// whether it succeeds depends on the disk, so nothing is claimed of it.
#[verifier::external_body]
fn gitignore_builder_add(builder: &mut ignore::gitignore::GitignoreBuilder, file: &str) -> bool {
    builder.add(std::path::Path::new(file)).is_none()
}

/// `ignore::gitignore::GitignoreBuilder::build`: the matcher of the globs added so far.
#[verifier::external_body]
fn gitignore_builder_build(builder: &ignore::gitignore::GitignoreBuilder) -> Result<ignore::gitignore::Gitignore, ignore::Error> {
    builder.build()
}

/// `ignore::gitignore::GitignoreBuilder::build_global`: the matcher of git's global excludes file, which
/// it locates through git's configuration in the environment; partial errors are dropped.
#[verifier::external_body]
fn gitignore_builder_build_global(builder: ignore::gitignore::GitignoreBuilder) -> ignore::gitignore::Gitignore {
    builder.build_global().0
}

/// A gitignore matcher together with the root below which it was built.
pub struct RootedGitignore {
    root: PathBuf,
    matcher: ignore::gitignore::Gitignore,
}

/// A matcher built by `build`, or git's global excludes from the same builder, below `root`.
fn rooted(root: &PathBuf, matcher: ignore::gitignore::Gitignore) -> (r: RootedGitignore)
    ensures
        r.root@ == root@,
{
    RootedGitignore { root: root.duplicate(), matcher }
}

/// `Gitignore::matched_path_or_any_parents` on the matcher of `g`, which was built by a
/// builder made below the text of `g`'s root (or is empty): whether the path or one of
/// its parents matches a glob (to be ignored or whitelisted). The source strips the
/// root's text from the path's text as a byte prefix, then one `/`, and panics when what
/// is left still starts at the filesystem root. The path's text must be in normal form
/// (as `path_text` writes it: no empty component, no trailing `/`) and the path relative
/// or below `g`'s root, which rules that out. The answer depends on the gitignore files
/// read from disk, so nothing is claimed of it.
#[verifier::external_body]
fn gitignore_matches(g: &RootedGitignore, path: &str, is_dir: bool) -> bool
    requires
        path@ == path_text(crate::path::parse_path(path@)),
        !crate::path::parse_path(path@).absolute || path_starts_with(
            crate::path::parse_path(path@),
            g.root@,
        ),
{
    match g.matcher.matched_path_or_any_parents(std::path::Path::new(path), is_dir) {
        ignore::Match::None => false,
        ignore::Match::Ignore(_) => true,
        ignore::Match::Whitelist(_) => true,
    }
}

/// `ignore::overrides::OverrideBuilder::new`: a builder of override matchers relative to `root`.
#[verifier::external_body]
fn override_builder_new(root: &str) -> ignore::overrides::OverrideBuilder {
    ignore::overrides::OverrideBuilder::new(std::path::Path::new(root))
}

/// Whether `ignore::overrides::OverrideBuilder::add` takes `glob`: it parses the glob as
/// one line of overrides, which depends on the glob alone.
pub uninterp spec fn override_glob_adds(glob: Seq<char>) -> bool;

/// Whether `ignore::overrides::OverrideBuilder::build` succeeds for a builder below `root`
/// that holds `globs`, added in this order.
pub uninterp spec fn override_globs_build(root: Seq<char>, globs: Seq<Seq<char>>) -> bool;

/// Whether the override matcher built below `root` from `globs` matches `path` (a
/// directory when `is_dir`): `Override::matched` gives an ignore or a whitelist match.
pub uninterp spec fn override_matched(root: Seq<char>, globs: Seq<Seq<char>>, path: Seq<char>, is_dir: bool) -> bool;

/// `ignore::overrides::OverrideBuilder::add`: adds one glob after those added; whether it
/// takes the glob is named `override_glob_adds`. A glob that is refused is not added.
#[verifier::external_body]
fn override_builder_add(builder: &mut ignore::overrides::OverrideBuilder, glob: &str) -> (r: bool)
    ensures
        r == override_glob_adds(glob@),
{
    builder.add(glob).is_ok()
}

/// An override builder below a root, with the globs it holds, in the order they were added.
struct OverrideDraft {
    root: String,
    globs: Vec<String>,
    builder: ignore::overrides::OverrideBuilder,
}

impl View for OverrideDraft {
    type V = (Seq<char>, Seq<Seq<char>>);

    closed spec fn view(&self) -> (Seq<char>, Seq<Seq<char>>) {
        (self.root@, self.globs.deep_view())
    }
}

/// `ignore::overrides::OverrideBuilder::build` on the builder of `draft`, which was made
/// below the draft's root and holds the draft's globs in their order: whether it succeeds
/// is named `override_globs_build`.
#[verifier::external_body]
fn override_draft_build(draft: &OverrideDraft) -> (r: Result<ignore::overrides::Override, ignore::Error>)
    ensures
        r is Ok <==> override_globs_build(draft@.0, draft@.1),
{
    draft.builder.build()
}

/// `Override::empty`: a matcher that matches nothing, as one built from no glob.
#[verifier::external_body]
fn override_empty() -> ignore::overrides::Override {
    ignore::overrides::Override::empty()
}

/// An override matcher with the root and the globs it was built from.
pub struct Overrides {
    root: String,
    globs: Vec<String>,
    matcher: ignore::overrides::Override,
}

impl View for Overrides {
    type V = (Seq<char>, Seq<Seq<char>>);

    /// The root and the globs.
    closed spec fn view(&self) -> (Seq<char>, Seq<Seq<char>>) {
        (self.root@, self.globs.deep_view())
    }
}

impl Overrides {
    /// The matcher itself, for a directory walk.
    pub fn into_matcher(self) -> ignore::overrides::Override {
        self.matcher
    }
}

/// `Override::matched` on the matcher of `overrides`, which was built below its root from
/// its globs (or holds no glob and is `Override::empty`): whether it matches `path`, to be
/// ignored or whitelisted, is named `override_matched`.
#[verifier::external_body]
fn override_matches(overrides: &Overrides, path: &str, is_dir: bool) -> (r: bool)
    ensures
        r == override_matched(overrides@.0, overrides@.1, path@, is_dir),
{
    match overrides.matcher.matched(std::path::Path::new(path), is_dir) {
        ignore::Match::None => false,
        ignore::Match::Ignore(_) => true,
        ignore::Match::Whitelist(_) => true,
    }
}

/// Why building the ignore rules failed.
#[derive(Debug, PartialEq, Eq)]
pub enum IgnoreError {
    /// The root's `.gitignore` could not be turned into a matcher.
    Gitignore,
    /// A glob could not be added; it is given.
    Glob(String),
    /// The override globs could not be turned into a matcher.
    Overrides,
}

/// The globs given to the override matcher: each ignored pattern, and `/.git`, in turn
/// as `!pattern` and `!pattern/**`, so that directories are ignored with their contents.
pub open spec fn override_glob_list(patterns: Seq<Seq<char>>) -> Seq<Seq<char>>
    decreases patterns.len(),
{
    if patterns.len() == 0 {
        seq![]
    } else {
        override_glob_list(patterns.drop_last()) + seq![
            seq!['!'] + patterns.last(),
            seq!['!'] + patterns.last() + seq!['/', '*', '*'],
        ]
    }
}

/// The patterns that are ignored: those given, then `/.git`.
pub open spec fn ignored_patterns(ignore: Seq<Seq<char>>) -> Seq<Seq<char>> {
    ignore.push(seq!['/', '.', 'g', 'i', 't'])
}

fn glob_text(prefix: char, pattern: &String, suffix: bool) -> (r: String)
    ensures
        r@ == seq![prefix] + pattern@ + if suffix {
            seq!['/', '*', '*']
        } else {
            seq![]
        },
{
    let mut cs: Vec<char> = Vec::new();
    cs.push(prefix);
    let body = crate::text::str_chars(pattern.as_str());
    let mut i: usize = 0;
    while i < body.len()
        invariant
            i <= body@.len(),
            cs@ == seq![prefix] + body@.take(i as int),
        decreases body@.len() - i,
    {
        cs.push(body[i]);
        proof {
            assert(body@.take(i as int + 1) =~= body@.take(i as int).push(body@[i as int]));
        }
        i = i + 1;
    }
    proof {
        assert(body@.take(body@.len() as int) =~= body@);
    }
    if suffix {
        cs.push('/');
        cs.push('*');
        cs.push('*');
    }
    proof {
        assert(cs@ =~= seq![prefix] + pattern@ + if suffix {
            seq!['/', '*', '*']
        } else {
            seq![]
        });
    }
    crate::text::string_from_chars(cs.as_slice())
}

/// The override globs for the ignored `patterns` (see `override_glob_list`).
pub fn override_globs(patterns: &Vec<String>) -> (r: Vec<String>)
    ensures
        r.deep_view() == override_glob_list(ignored_patterns(patterns.deep_view())),
{
    let mut all: Vec<String> = crate::path::copy_strings(patterns);
    let ghost pv = patterns.deep_view();
    all.push(crate::text::string_from_chars(&['/', '.', 'g', 'i', 't']));
    proof {
        assert(all.deep_view() =~= ignored_patterns(pv));
    }
    let ghost allv = all.deep_view();
    let mut out: Vec<String> = Vec::new();
    let mut i: usize = 0;
    proof {
        assert(allv.take(0) =~= Seq::<Seq<char>>::empty());
        assert(out.deep_view() =~= Seq::<Seq<char>>::empty());
    }
    while i < all.len()
        invariant
            allv == all.deep_view(),
            allv.len() == all@.len(),
            i <= all@.len(),
            out.deep_view() == override_glob_list(allv.take(i as int)),
        decreases all@.len() - i,
    {
        let ghost before = out.deep_view();
        let a = glob_text('!', &all[i], false);
        let b = glob_text('!', &all[i], true);
        out.push(a);
        out.push(b);
        proof {
            assert(allv.take(i as int + 1).drop_last() =~= allv.take(i as int));
            assert(allv.take(i as int + 1).last() == all@[i as int]@);
            assert(out.deep_view() =~= before + seq![a@, b@]);
        }
        i = i + 1;
    }
    proof {
        assert(allv.take(all@.len() as int) =~= allv);
    }
    out
}

/// The position of the first of `globs` that the override builder refuses, if it refuses one.
pub open spec fn first_refused(globs: Seq<Seq<char>>) -> Option<int> {
    if exists|i: int| 0 <= i < globs.len() && !override_glob_adds(#[trigger] globs[i]) {
        Some(choose|i: int| 0 <= i < globs.len() && !override_glob_adds(#[trigger] globs[i])
            && forall|j: int| 0 <= j < i ==> override_glob_adds(#[trigger] globs[j]))
    } else {
        None
    }
}

/// Whether the override matcher below `root` is built from `globs`: every glob is taken
/// and the matcher builds.
pub open spec fn overrides_build(root: Seq<char>, globs: Seq<Seq<char>>) -> bool {
    first_refused(globs) is None && override_globs_build(root, globs)
}

/// Whether `e` is why the override matcher below `root` is not built from `globs`: the
/// first glob refused, or else the build that failed.
pub open spec fn override_error_is(root: Seq<char>, globs: Seq<Seq<char>>, e: IgnoreError) -> bool {
    match first_refused(globs) {
        Some(i) => e matches IgnoreError::Glob(g) && g@ == globs[i],
        None => !override_globs_build(root, globs) && e == IgnoreError::Overrides,
    }
}

/// Builds the override matcher below `root` that ignores the `ignore` patterns and
/// `/.git` with everything below them: the globs of `override_globs` are added in order.
/// Fails with the first glob that is refused, or when the matcher cannot be built.
pub fn build_override_ignorer(root: &PathBuf, ignore: &Vec<String>) -> (r: Result<Overrides, IgnoreError>)
    ensures
        ({
            let globs = override_glob_list(ignored_patterns(ignore.deep_view()));
            &&& r matches Ok(o) ==> o@ == (path_text(root@), globs)
            &&& r is Ok <==> overrides_build(path_text(root@), globs)
            &&& r matches Err(e) ==> override_error_is(path_text(root@), globs, e)
        }),
{
    let root_text = root.to_text();
    let globs = override_globs(ignore);
    let ghost gv = globs.deep_view();
    let mut draft = OverrideDraft {
        root: copy_string(&root_text),
        globs: Vec::new(),
        builder: override_builder_new(root_text.as_str()),
    };
    proof {
        assert(draft.globs.deep_view() =~= gv.take(0));
    }
    let mut i: usize = 0;
    while i < globs.len()
        invariant
            i <= globs@.len(),
            gv == globs.deep_view(),
            gv == override_glob_list(ignored_patterns(ignore.deep_view())),
            draft.root@ == path_text(root@),
            draft.globs.deep_view() == gv.take(i as int),
            forall|j: int| 0 <= j < i ==> override_glob_adds(#[trigger] gv[j]),
        decreases globs@.len() - i,
    {
        proof {
            assert(gv[i as int] == globs@[i as int]@);
        }
        if !override_builder_add(&mut draft.builder, globs[i].as_str()) {
            let g = copy_string(&globs[i]);
            proof {
                let w = choose|k: int| 0 <= k < gv.len() && !override_glob_adds(#[trigger] gv[k])
                    && forall|j: int| 0 <= j < k ==> override_glob_adds(#[trigger] gv[j]);
                assert(!override_glob_adds(gv[i as int]));
                assert(w == i as int) by {
                    if w < i as int {
                        assert(override_glob_adds(gv[w]));
                    } else if w > i as int {
                        assert(override_glob_adds(gv[i as int]));
                    }
                }
            }
            return Err(IgnoreError::Glob(g));
        }
        let ghost before = draft.globs.deep_view();
        draft.globs.push(copy_string(&globs[i]));
        proof {
            assert(draft.globs.deep_view() =~= before.push(gv[i as int]));
            assert(gv.take(i + 1) =~= gv.take(i as int).push(gv[i as int]));
        }
        i = i + 1;
    }
    proof {
        assert(gv.take(i as int) =~= gv);
        assert(!exists|k: int| 0 <= k < gv.len() && !override_glob_adds(#[trigger] gv[k]));
    }
    match override_draft_build(&draft) {
        Ok(matcher) => Ok(Overrides { root: draft.root, globs: draft.globs, matcher }),
        Err(_) => Err(IgnoreError::Overrides),
    }
}

/// A copy of `s`.
fn copy_string(s: &String) -> (r: String)
    ensures
        r@ == s@,
{
    crate::text::string_from_chars(crate::text::str_chars(s.as_str()).as_slice())
}

/// Settings from which the ignore rules of a root are built.
#[derive(Debug)]
pub struct IgnoreBuilder {
    root: PathBuf,
    use_gitignore: bool,
    ignore: Vec<String>,
}

/// The rules that decide whether a path below a root is ignored.
pub struct Ignore {
    root: PathBuf,
    gitignore: Option<RootedGitignore>,
    overrides: Overrides,
    global_gitignore: Option<RootedGitignore>,
}

impl IgnoreBuilder {
    /// Rules for `path`, reading the `.gitignore` files and ignoring nothing more.
    pub fn new(path: &PathBuf) -> (r: IgnoreBuilder)
        ensures
            r.root_path() == path@,
            r.uses_gitignore(),
            r.patterns() == Seq::<Seq<char>>::empty(),
    {
        let r = IgnoreBuilder { root: path.duplicate(), use_gitignore: true, ignore: Vec::new() };
        proof {
            assert(r.ignore.deep_view() =~= Seq::<Seq<char>>::empty());
        }
        r
    }

    pub closed spec fn root_path(&self) -> PathView {
        self.root@
    }

    pub closed spec fn uses_gitignore(&self) -> bool {
        self.use_gitignore
    }

    pub closed spec fn patterns(&self) -> Seq<Seq<char>> {
        self.ignore.deep_view()
    }

    /// Also ignores the paths that match one of the `globs`, and everything below them.
    pub fn ignore(self, globs: &Vec<String>) -> (r: IgnoreBuilder)
        ensures
            r.root_path() == self.root_path(),
            r.uses_gitignore() == self.uses_gitignore(),
            r.patterns() == globs.deep_view(),
    {
        IgnoreBuilder { ignore: crate::path::copy_strings(globs), ..self }
    }

    /// Whether the root's `.gitignore` and git's global excludes are read.
    pub fn use_gitignore(self, yes: bool) -> (r: IgnoreBuilder)
        ensures
            r.root_path() == self.root_path(),
            r.uses_gitignore() == yes,
            r.patterns() == self.patterns(),
    {
        IgnoreBuilder { use_gitignore: yes, ..self }
    }

    /// Builds the rules: the globs given become overrides (see `override_globs`); when
    /// gitignores are used, the root's `.gitignore` (a file that cannot be read adds no
    /// glob) and git's global excludes are read. Fails when a glob does not parse or a
    /// matcher cannot be built.
    pub fn build(&self) -> (r: Result<Ignore, IgnoreError>)
        ensures
            ({
                let root = path_text(self.root_path());
                let globs = override_glob_list(ignored_patterns(self.patterns()));
                &&& r matches Ok(ig) ==> ig.root_path() == self.root_path() && ig.has_gitignores()
                    == self.uses_gitignore() && ig.override_root() == root && ig.override_globs() == globs
                &&& r is Ok ==> overrides_build(root, globs)
                &&& !overrides_build(root, globs) ==> r is Err
                &&& !self.uses_gitignore() && overrides_build(root, globs) ==> r is Ok
                &&& r matches Err(e) ==> (e == IgnoreError::Gitignore && self.uses_gitignore())
                    || override_error_is(root, globs, e)
            }),
    {
        let root_text = self.root.to_text();
        let mut gitignore: Option<RootedGitignore> = None;
        let mut global_gitignore: Option<RootedGitignore> = None;
        if self.use_gitignore {
            let mut builder = gitignore_builder_new(root_text.as_str());
            let file = self.root.join_str(".gitignore");
            let file_text = file.to_text();
            // A file that cannot be read, or a line that does not parse, is skipped.
            let _added = gitignore_builder_add(&mut builder, file_text.as_str());
            match gitignore_builder_build(&builder) {
                Ok(g) => {
                    gitignore = Some(rooted(&self.root, g));
                },
                Err(_) => {
                    return Err(IgnoreError::Gitignore);
                },
            }
            global_gitignore = Some(rooted(&self.root, gitignore_builder_build_global(builder)));
        }
        let overrides = match build_override_ignorer(&self.root, &self.ignore) {
            Ok(o) => o,
            Err(e) => {
                return Err(e);
            },
        };
        Ok(Ignore { root: self.root.duplicate(), gitignore, overrides, global_gitignore })
    }
}

/// The verdict of the three rules: ignored when the overrides match, or the root's
/// `.gitignore` or git's global excludes (where they are read) match the path or a
/// parent of it.
pub open spec fn ignored_by(overrides: bool, gitignore: Option<bool>, global: Option<bool>) -> bool {
    overrides || gitignore == Some(true) || global == Some(true)
}

/// What holds of the verdict `r` on the path whose text is `path`, a directory when
/// `is_dir`: a match of the overrides built below `root` from `globs` ignores it, and
/// without gitignores read, nothing else does.
pub open spec fn verdict_holds(root: Seq<char>, globs: Seq<Seq<char>>, path: Seq<char>, is_dir: bool, gitignores: bool, r: bool) -> bool {
    &&& override_matched(root, globs, path, is_dir) ==> r
    &&& !gitignores ==> r == override_matched(root, globs, path, is_dir)
}

/// Combines the three rules' answers (see `ignored_by`).
pub fn combine_verdicts(overrides: bool, gitignore: Option<bool>, global: Option<bool>) -> (r: bool)
    ensures
        r == ignored_by(overrides, gitignore, global),
{
    if overrides {
        return true;
    }
    let git = match gitignore {
        Some(b) => b,
        None => false,
    };
    let glob = match global {
        Some(b) => b,
        None => false,
    };
    git || glob
}

impl Ignore {
    pub closed spec fn root_path(&self) -> PathView {
        self.root@
    }

    /// The gitignore matchers were built below the root.
    #[verifier::type_invariant]
    closed spec fn rooted_below_root(&self) -> bool {
        &&& self.gitignore matches Some(g) ==> g.root@ == self.root@
        &&& self.global_gitignore matches Some(g) ==> g.root@ == self.root@
    }

    /// Whether the root's `.gitignore` or git's global excludes are read.
    pub closed spec fn has_gitignores(&self) -> bool {
        self.gitignore is Some || self.global_gitignore is Some
    }

    /// The root below which the overrides match.
    pub closed spec fn override_root(&self) -> Seq<char> {
        self.overrides@.0
    }

    /// The globs of the overrides.
    pub closed spec fn override_globs(&self) -> Seq<Seq<char>> {
        self.overrides@.1
    }

    /// Rules that ignore nothing.
    pub fn empty(root: &PathBuf) -> (r: Ignore)
        ensures
            r.root_path() == root@,
            !r.has_gitignores(),
            r.override_root() == path_text(root@),
            r.override_globs() == Seq::<Seq<char>>::empty(),
    {
        let overrides = Overrides { root: root.to_text(), globs: Vec::new(), matcher: override_empty() };
        proof {
            assert(overrides.globs.deep_view() =~= Seq::<Seq<char>>::empty());
        }
        Ignore { root: root.duplicate(), gitignore: None, overrides, global_gitignore: None }
    }

    /// Whether `path` is ignored (see `ignored_by`). A relative path is taken relative to
    /// the root; an absolute one must lie below it. Whether the path is a directory is
    /// read from disk.
    pub fn is_ignored(&self, path: &PathBuf) -> (r: bool)
        requires
            !path@.absolute || path_starts_with(path@, self.root_path()),
            path.wf(),
        ensures
            exists|is_dir: bool| #[trigger] verdict_holds(self.override_root(), self.override_globs(), path_text(path@), is_dir, self.has_gitignores(), r),
    {
        proof {
            use_type_invariant(self);
        }
        let text = path.to_text();
        proof {
            crate::path::lemma_parse_path_text(path@);
        }
        let is_dir = crate::path::path_is_dir(text.as_str());
        let over = override_matches(&self.overrides, text.as_str(), is_dir);
        let git = match &self.gitignore {
            Some(g) => Some(gitignore_matches(g, text.as_str(), is_dir)),
            None => None,
        };
        let global = match &self.global_gitignore {
            Some(g) => Some(gitignore_matches(g, text.as_str(), is_dir)),
            None => None,
        };
        let r = combine_verdicts(over, git, global);
        proof {
            assert(verdict_holds(self.override_root(), self.override_globs(), path_text(path@), is_dir, self.has_gitignores(), r));
        }
        r
    }
}

} // verus!
