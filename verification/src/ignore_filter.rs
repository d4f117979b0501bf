//! Which paths of a vault are left out of a scan: Phaneros's own entries,
//! common noise (version-control folders, build output, editor backups) and
//! whatever the vault's `.gitignore` and `.phanerosignore` files list.
use vstd::prelude::*;

use ignore::gitignore::{Gitignore, GitignoreBuilder};

use crate::config::text_order;
use crate::text::{chars_of, texts_view};
use crate::utils::{ends_with, file_name_of, internal_dir_text, is_internal_entry, path_file_name, temp_suffix_text};

verus! {

#[verifier::external_type_specification]
#[verifier::external_body]
pub struct ExGitignore(Gitignore);

#[verifier::external_type_specification]
#[verifier::external_body]
pub struct ExGitignoreBuilder(GitignoreBuilder);

/// The patterns a `GitignoreBuilder` holds, as they were written.
pub uninterp spec fn builder_globs(b: GitignoreBuilder) -> Seq<Seq<char>>;

/// The directory a `GitignoreBuilder` matches relative to.
pub uninterp spec fn builder_root(b: GitignoreBuilder) -> Seq<char>;

/// The patterns a `Gitignore` matcher holds, as they were written.
pub uninterp spec fn gitignore_globs(g: Gitignore) -> Seq<Seq<char>>;

/// The directory a `Gitignore` matcher matches relative to (`path()`).
pub uninterp spec fn gitignore_root(g: Gitignore) -> Seq<char>;

/// Whether `Gitignore::matched_path_or_any_parents` finds that a matcher
/// with these patterns and root ignores `path` or one of its parents.
pub uninterp spec fn gitignore_decision(globs: Seq<Seq<char>>, root: Seq<char>, path: Seq<char>, is_dir: bool) -> bool;

/// The pattern `GitignoreBuilder::add_line` keeps for `line` (the line less
/// trailing blank space, as its `original`), or `None` when it keeps none:
/// for a comment, a blank line, or a glob that does not parse.
pub uninterp spec fn line_glob(line: Seq<char>) -> Option<Seq<char>>;

/// Whether `GitignoreBuilder::build` compiles these patterns (as a builder
/// made by `GitignoreBuilder::new` parses them) into one matcher.
pub uninterp spec fn globs_compile(globs: Seq<Seq<char>>) -> bool;

/// `Path::starts_with`: `base` is a prefix of `path`, whole components only.
pub uninterp spec fn path_starts_with(path: Seq<char>, base: Seq<char>) -> bool;

/// Whether a path equals `Path::new(".")` (paths compare by components).
pub uninterp spec fn is_current_dir(p: Seq<char>) -> bool;

/// `p` without a leading `./`.
pub open spec fn without_dot_slash(p: Seq<char>) -> Seq<char> {
    if p.len() >= 2 && p[0] == '.' && p[1] == '/' {
        p.subrange(2, p.len() as int)
    } else {
        p
    }
}

/// A line the matcher takes as written: not a comment, and not ending in
/// blank space (its last character is visible ASCII).
pub open spec fn plain_pattern(line: Seq<char>) -> bool {
    &&& line.len() > 0
    &&& line[0] != '#'
    &&& '!' <= line.last() <= '~'
}

/// Where the matcher's view of `path` begins: past a leading `./`, and past
/// the matcher's root and one slash when `path` starts with the root's text
/// (unless the root is `.` or `path` is a bare name).
pub open spec fn strip_offset(root: Seq<char>, path: Seq<char>) -> int {
    let a: int = if path.len() >= 2 && path[0] == '.' && path[1] == '/' { 2 } else { 0 };
    let p = path.subrange(a, path.len() as int);
    if !is_current_dir(root) && p.contains('/') && root.len() <= p.len() && p.subrange(0, root.len() as int) == root {
        let b = a + root.len();
        if b < path.len() && path[b] == '/' {
            b + 1
        } else {
            b
        }
    } else {
        a
    }
}

/// The matcher's view of `path` is still absolute: it would refuse it.
pub open spec fn leaves_root(root: Seq<char>, path: Seq<char>) -> bool {
    let o = strip_offset(root, path);
    o < path.len() && path[o] == '/'
}

/// `GitignoreBuilder::new(root)`: no patterns yet; matching is relative to
/// `root` less a leading `./`.
#[verifier::external_body]
fn new_builder(root: &str) -> (r: GitignoreBuilder)
    ensures
        builder_root(r) == without_dot_slash(root@),
        builder_globs(r) == Seq::<Seq<char>>::empty(),
{
    GitignoreBuilder::new(root)
}

/// `GitignoreBuilder::add_line(None, line)`: appends the pattern it keeps
/// for the line, if any. A comment keeps none; a plain line is kept as
/// written or not at all.
#[verifier::external_body]
fn add_pattern(b: &mut GitignoreBuilder, line: &str)
    ensures
        builder_root(*final(b)) == builder_root(*old(b)),
        builder_globs(*final(b)) == match line_glob(line@) {
            Some(g) => builder_globs(*old(b)).push(g),
            None => builder_globs(*old(b)),
        },
        line@.len() > 0 && line@[0] == '#' ==> builder_globs(*final(b)) == builder_globs(*old(b)),
        plain_pattern(line@) ==> builder_globs(*final(b)) == builder_globs(*old(b)) || builder_globs(*final(b))
            == builder_globs(*old(b)).push(line@),
{
    let _ = b.add_line(None, line);
}

/// `GitignoreBuilder::build`: a matcher with the builder's patterns, rooted
/// where the builder is (an empty matcher, rooted at the empty path, when
/// there are none). It fails exactly when the patterns do not compile
/// together.
#[verifier::external_body]
fn build_matcher(b: &GitignoreBuilder) -> (r: Option<Gitignore>)
    ensures
        r is Some <==> (builder_globs(*b).len() == 0 || globs_compile(builder_globs(*b))),
        r matches Some(g) ==> gitignore_globs(g) == builder_globs(*b) && gitignore_root(g) == (if builder_globs(
            *b,
        ).len() == 0 {
            Seq::<char>::empty()
        } else {
            builder_root(*b)
        }),
{
    b.build().ok()
}

/// `Gitignore::empty()`: no patterns, rooted at the empty path.
#[verifier::external_body]
fn empty_matcher() -> (r: Gitignore)
    ensures
        gitignore_globs(r) == Seq::<Seq<char>>::empty(),
        gitignore_root(r) == Seq::<char>::empty(),
{
    Gitignore::empty()
}

/// `Gitignore::is_empty`: it holds no pattern.
#[verifier::external_body]
fn matcher_is_empty(g: &Gitignore) -> (r: bool)
    ensures
        r == (gitignore_globs(*g).len() == 0),
{
    g.is_empty()
}

/// `Gitignore::path`, as text.
#[verifier::external_body]
fn root_of_matcher(g: &Gitignore) -> (r: String)
    ensures
        r@ == gitignore_root(*g),
{
    g.path().to_string_lossy().to_string()
}

/// `Gitignore::matched_path_or_any_parents(path, is_dir).is_ignore()`. An
/// empty matcher ignores nothing; another one panics on a path it cannot
/// make relative to its root.
#[verifier::external_body]
fn matched_ignored(g: &Gitignore, path: &str, is_dir: bool) -> (r: bool)
    requires
        gitignore_globs(*g).len() == 0 || !leaves_root(gitignore_root(*g), path@),
    ensures
        r == (gitignore_globs(*g).len() > 0 && gitignore_decision(gitignore_globs(*g), gitignore_root(*g), path@, is_dir)),
{
    g.matched_path_or_any_parents(path, is_dir).is_ignore()
}

/// `Path::starts_with`.
#[verifier::external_body]
fn starts_with_path(path: &str, base: &str) -> (r: bool)
    ensures
        r == path_starts_with(path@, base@),
{
    std::path::Path::new(path).starts_with(base)
}

/// `Path::new(p) == Path::new(".")`.
#[verifier::external_body]
fn names_current_dir(p: &str) -> (r: bool)
    ensures
        r == is_current_dir(p@),
{
    std::path::Path::new(p) == std::path::Path::new(".")
}

/// Whether the matcher rooted at `root` would find `path` still absolute.
fn refused_by_matcher(root: &str, path: &str) -> (r: bool)
    ensures
        r == leaves_root(root@, path@),
{
    let p = chars_of(path);
    let rt = chars_of(root);
    let a: usize = if p.len() >= 2 && p[0] == '.' && p[1] == '/' {
        2
    } else {
        0
    };
    let ghost tail = p@.subrange(a as int, p@.len() as int);
    let mut has_slash = false;
    let mut i: usize = a;
    while i < p.len()
        invariant
            a <= i <= p@.len(),
            tail == p@.subrange(a as int, p@.len() as int),
            has_slash <==> exists|k: int| a <= k < i && p@[k] == '/',
        decreases p@.len() - i,
    {
        if p[i] == '/' {
            has_slash = true;
        }
        i = i + 1;
    }
    proof {
        if has_slash {
            let k = choose|k: int| a <= k < p@.len() && p@[k] == '/';
            assert(tail[k - a] == '/');
        } else {
            assert forall|k: int| 0 <= k < tail.len() implies tail[k] != '/' by {
                assert(tail[k] == p@[k + a]);
            }
        }
        assert(has_slash == tail.contains('/'));
    }
    let mut prefix = rt.len() <= p.len() - a;
    let mut j: usize = 0;
    while prefix && j < rt.len()
        invariant
            a <= p@.len() <= usize::MAX,
            prefix ==> rt@.len() <= p@.len() - a,
            0 <= j <= rt@.len(),
            prefix <==> (rt@.len() <= p@.len() - a && forall|k: int| 0 <= k < j ==> rt@[k] == p@[a + k]),
        decreases rt@.len() - j,
    {
        proof {
            assert(a + j < p@.len());
        }
        if rt[j] != p[a + j] {
            prefix = false;
        }
        j = j + 1;
    }
    proof {
        if prefix {
            assert(j == rt@.len());
            assert(tail.subrange(0, rt@.len() as int) =~= rt@);
        } else if rt@.len() <= tail.len() {
            let k = choose|k: int| 0 <= k < j && rt@[k] != p@[a + k];
            assert(tail.subrange(0, rt@.len() as int)[k] != rt@[k]);
        }
        assert(prefix == (rt@.len() <= tail.len() && tail.subrange(0, rt@.len() as int) == rt@));
    }
    let current = names_current_dir(root);
    let mut o = a;
    if !current && has_slash && prefix {
        o = a + rt.len();
        if o < p.len() && p[o] == '/' {
            o = o + 1;
        }
    }
    o < p.len() && p[o] == '/'
}

/// `globs` after `line` was offered: with the pattern the matcher keeps
/// for it, if any.
pub open spec fn offered(globs: Seq<Seq<char>>, line: Seq<char>) -> Seq<Seq<char>> {
    match line_glob(line) {
        Some(g) => globs.push(g),
        None => globs,
    }
}

/// `globs` after each of `lines` was offered, in order.
pub open spec fn offered_all(globs: Seq<Seq<char>>, lines: Seq<Seq<char>>) -> Seq<Seq<char>>
    decreases lines.len(),
{
    if lines.len() == 0 {
        globs
    } else {
        offered(offered_all(globs, lines.drop_last()), lines.last())
    }
}

/// The patterns of a vault whose ignore files hold `lines`, file after
/// file: the defaults, then what the matcher keeps of each line.
pub open spec fn vault_patterns(lines: Seq<Seq<char>>) -> Seq<Seq<char>> {
    offered_all(default_patterns(), lines)
}

/// The patterns a matcher built from `globs` holds: all of them, or none
/// when they do not compile together.
pub open spec fn built_patterns(globs: Seq<Seq<char>>) -> Seq<Seq<char>> {
    if globs.len() == 0 || globs_compile(globs) {
        globs
    } else {
        Seq::empty()
    }
}

/// The patterns every vault starts with: Phaneros's state folder, version
/// control, system and editor noise, dependency and build folders, in this
/// order, each kept as the matcher keeps it.
pub open spec fn default_patterns() -> Seq<Seq<char>> {
    let g = offered(Seq::empty(), ".phaneros/"@);
    let g = offered(g, ".phaneros"@);
    let g = offered(g, ".git/"@);
    let g = offered(g, ".DS_Store"@);
    let g = offered(g, "node_modules/"@);
    let g = offered(g, "target/"@);
    let g = offered(g, ".goutputstream-*"@);
    let g = offered(g, "*~"@);
    let g = offered(g, ".*.swp"@);
    let g = offered(g, ".*.swo"@);
    offered(g, "\\#*\\#"@)
}

/// Offering more lines keeps the patterns already held, in place.
proof fn lemma_offered_all_keeps(globs: Seq<Seq<char>>, lines: Seq<Seq<char>>)
    ensures
        globs.len() <= offered_all(globs, lines).len(),
        forall|i: int| 0 <= i < globs.len() ==> #[trigger] offered_all(globs, lines)[i] == globs[i],
    decreases lines.len(),
{
    if lines.len() > 0 {
        lemma_offered_all_keeps(globs, lines.drop_last());
    }
}

/// Every line offered whose pattern the matcher keeps is among the
/// patterns.
proof fn lemma_offered_all_holds(globs: Seq<Seq<char>>, lines: Seq<Seq<char>>, k: int)
    requires
        0 <= k < lines.len(),
        line_glob(lines[k]) is Some,
    ensures
        offered_all(globs, lines).contains(line_glob(lines[k]).unwrap()),
    decreases lines.len(),
{
    let prev = offered_all(globs, lines.drop_last());
    if k == lines.len() - 1 {
        assert(offered_all(globs, lines) == prev.push(line_glob(lines[k]).unwrap()));
        assert(offered_all(globs, lines)[prev.len() as int] == line_glob(lines[k]).unwrap());
    } else {
    assert(lines.drop_last()[k] == lines[k]);
        lemma_offered_all_holds(globs, lines.drop_last(), k);
        let x = line_glob(lines[k]).unwrap();
        let w = choose|w: int| 0 <= w < prev.len() && prev[w] == x;
        assert(offered(prev, lines.last())[w] == prev[w]);
        assert(offered_all(globs, lines)[w] == x);
    }
}

/// The default patterns are the built-in lines offered in order.
proof fn lemma_default_lines() -> (l: Seq<Seq<char>>)
    ensures
        l.len() == 11,
        l[0] == ".phaneros/"@,
        l[1] == ".phaneros"@,
        l[2] == ".git/"@,
        l[3] == ".DS_Store"@,
        l[4] == "node_modules/"@,
        l[5] == "target/"@,
        l[6] == ".goutputstream-*"@,
        l[7] == "*~"@,
        l[8] == ".*.swp"@,
        l[9] == ".*.swo"@,
        l[10] == "\\#*\\#"@,
        default_patterns() == offered_all(Seq::empty(), l),
{
    let l0 = Seq::<Seq<char>>::empty();
    let l1 = l0.push(".phaneros/"@);
    assert(l1.drop_last() =~= l0);
    assert(offered_all(Seq::empty(), l1) == offered(offered_all(Seq::empty(), l0), ".phaneros/"@));
    let l2 = l1.push(".phaneros"@);
    assert(l2.drop_last() =~= l1);
    assert(offered_all(Seq::empty(), l2) == offered(offered_all(Seq::empty(), l1), ".phaneros"@));
    let l3 = l2.push(".git/"@);
    assert(l3.drop_last() =~= l2);
    assert(offered_all(Seq::empty(), l3) == offered(offered_all(Seq::empty(), l2), ".git/"@));
    let l4 = l3.push(".DS_Store"@);
    assert(l4.drop_last() =~= l3);
    assert(offered_all(Seq::empty(), l4) == offered(offered_all(Seq::empty(), l3), ".DS_Store"@));
    let l5 = l4.push("node_modules/"@);
    assert(l5.drop_last() =~= l4);
    assert(offered_all(Seq::empty(), l5) == offered(offered_all(Seq::empty(), l4), "node_modules/"@));
    let l6 = l5.push("target/"@);
    assert(l6.drop_last() =~= l5);
    assert(offered_all(Seq::empty(), l6) == offered(offered_all(Seq::empty(), l5), "target/"@));
    let l7 = l6.push(".goutputstream-*"@);
    assert(l7.drop_last() =~= l6);
    assert(offered_all(Seq::empty(), l7) == offered(offered_all(Seq::empty(), l6), ".goutputstream-*"@));
    let l8 = l7.push("*~"@);
    assert(l8.drop_last() =~= l7);
    assert(offered_all(Seq::empty(), l8) == offered(offered_all(Seq::empty(), l7), "*~"@));
    let l9 = l8.push(".*.swp"@);
    assert(l9.drop_last() =~= l8);
    assert(offered_all(Seq::empty(), l9) == offered(offered_all(Seq::empty(), l8), ".*.swp"@));
    let l10 = l9.push(".*.swo"@);
    assert(l10.drop_last() =~= l9);
    assert(offered_all(Seq::empty(), l10) == offered(offered_all(Seq::empty(), l9), ".*.swo"@));
    let l11 = l10.push("\\#*\\#"@);
    assert(l11.drop_last() =~= l10);
    assert(offered_all(Seq::empty(), l11) == offered(offered_all(Seq::empty(), l10), "\\#*\\#"@));
    assert(default_patterns() == offered_all(Seq::empty(), l11));
    l11
}

/// Whatever the ignore files hold, a matcher that compiles keeps every
/// built-in line it takes: Phaneros's state folder, version control,
/// system and editor noise (swap and backup files among them), and
/// dependency and build folders.
pub proof fn lemma_builtin_lines_kept(lines: Seq<Seq<char>>)
    ensures
        ({
            let kept = built_patterns(vault_patterns(lines));
            globs_compile(vault_patterns(lines)) ==> {
            &&& line_glob(".phaneros/"@) matches Some(g) ==> kept.contains(g)
            &&& line_glob(".phaneros"@) matches Some(g) ==> kept.contains(g)
            &&& line_glob(".git/"@) matches Some(g) ==> kept.contains(g)
            &&& line_glob(".DS_Store"@) matches Some(g) ==> kept.contains(g)
            &&& line_glob("node_modules/"@) matches Some(g) ==> kept.contains(g)
            &&& line_glob("target/"@) matches Some(g) ==> kept.contains(g)
            &&& line_glob(".goutputstream-*"@) matches Some(g) ==> kept.contains(g)
            &&& line_glob("*~"@) matches Some(g) ==> kept.contains(g)
            &&& line_glob(".*.swp"@) matches Some(g) ==> kept.contains(g)
            &&& line_glob(".*.swo"@) matches Some(g) ==> kept.contains(g)
            &&& line_glob("\\#*\\#"@) matches Some(g) ==> kept.contains(g)
            }
        }),
{
    let l11 = lemma_default_lines();
    lemma_offered_all_keeps(default_patterns(), lines);
    let v = vault_patterns(lines);
    assert forall|k: int| 0 <= k < 11 && line_glob(l11[k]) is Some implies v.contains(
        line_glob(l11[k]).unwrap(),
    ) by {
        lemma_offered_all_holds(Seq::empty(), l11, k);
        let x = line_glob(l11[k]).unwrap();
        let w = choose|w: int| 0 <= w < default_patterns().len() && default_patterns()[w] == x;
        assert(v[w] == x);
    }
}

/// A path that names one of Phaneros's own entries.
pub open spec fn internal_path(path: Seq<char>) -> bool {
    match path_file_name(path) {
        Some(n) => n == internal_dir_text() || ends_with(n, temp_suffix_text()),
        None => false,
    }
}

/// The matcher of a vault's ignore rules.
#[derive(Debug)]
pub struct IgnoreFilter {
    root: String,
    gitignore: Gitignore,
}

impl IgnoreFilter {
    /// The vault folder.
    pub closed spec fn root(&self) -> Seq<char> {
        self.root@
    }

    /// The patterns of the matcher, oldest first.
    pub closed spec fn patterns(&self) -> Seq<Seq<char>> {
        gitignore_globs(self.gitignore)
    }

    /// The folder the matcher matches relative to.
    pub closed spec fn matcher_root(&self) -> Seq<char> {
        gitignore_root(self.gitignore)
    }

    /// `path` lies in the vault and is not one of Phaneros's own entries, so
    /// the patterns decide it.
    pub open spec fn decided_by_patterns(&self, path: Seq<char>) -> bool {
        !internal_path(path) && path_starts_with(path, self.root())
    }

    /// The matcher would refuse `path`: it lies in the vault by components,
    /// but its text does not reduce to a path relative to the matcher's root.
    pub open spec fn refuses(&self, path: Seq<char>) -> bool {
        &&& self.decided_by_patterns(path)
        &&& self.patterns().len() > 0
        &&& leaves_root(self.matcher_root(), path)
    }

    /// Whether `path` is left out: Phaneros's own entries always are; paths
    /// outside the vault never are; the rest as the patterns say.
    pub open spec fn ignores(&self, path: Seq<char>, is_dir: bool) -> bool {
        ||| internal_path(path)
        ||| (self.decided_by_patterns(path) && self.patterns().len() > 0 && gitignore_decision(
            self.patterns(),
            self.matcher_root(),
            path,
            is_dir,
        ))
    }

    /// The rules of the vault at `root`: Phaneros's own entries, common
    /// noise, then `ignore_lines`, the lines of the vault's ignore files,
    /// file after file. The matcher holds the default patterns followed by
    /// what it keeps of each line, or nothing when those do not compile
    /// together; it is rooted at the vault (less a leading `./`), or at the
    /// empty path when it holds nothing.
    pub fn new(root: &str, ignore_lines: &Vec<String>) -> (r: Self)
        ensures
            r.root() == root@,
            r.patterns() == built_patterns(vault_patterns(texts_view(ignore_lines@))),
            r.matcher_root() == (if r.patterns().len() == 0 {
                Seq::<char>::empty()
            } else {
                without_dot_slash(root@)
            }),
    {
        let mut builder = new_builder(root);
        add_pattern(&mut builder, ".phaneros/");
        add_pattern(&mut builder, ".phaneros");
        add_pattern(&mut builder, ".git/");
        add_pattern(&mut builder, ".DS_Store");
        add_pattern(&mut builder, "node_modules/");
        add_pattern(&mut builder, "target/");
        add_pattern(&mut builder, ".goutputstream-*");
        add_pattern(&mut builder, "*~");
        add_pattern(&mut builder, ".*.swp");
        add_pattern(&mut builder, ".*.swo");
        add_pattern(&mut builder, "\\#*\\#");
        proof {
            assert(builder_globs(builder) == default_patterns());
            assert(texts_view(ignore_lines@).take(0) =~= Seq::<Seq<char>>::empty());
        }
        let mut i: usize = 0;
        while i < ignore_lines.len()
            invariant
                builder_root(builder) == without_dot_slash(root@),
                i <= ignore_lines@.len(),
                builder_globs(builder) == offered_all(default_patterns(), texts_view(ignore_lines@).take(i as int)),
            decreases ignore_lines@.len() - i,
        {
            add_pattern(&mut builder, ignore_lines[i].as_str());
            proof {
                let t = texts_view(ignore_lines@);
                assert(t.take(i + 1).drop_last() =~= t.take(i as int));
                assert(t.take(i + 1).last() == ignore_lines@[i as int]@);
            }
            i = i + 1;
        }
        proof {
            assert(texts_view(ignore_lines@).take(i as int) =~= texts_view(ignore_lines@));
        }
        let gitignore = match build_matcher(&builder) {
            Some(g) => g,
            None => empty_matcher(),
        };
        IgnoreFilter { root: String::from_str(root), gitignore }
    }

    /// Whether `path` is left out of the scan (see `ignores`).
    pub fn is_ignored(&self, path: &str, is_dir: bool) -> (r: bool)
        requires
            !self.refuses(path@),
        ensures
            r == self.ignores(path@, is_dir),
    {
        if let Some(name) = file_name_of(path) {
            if is_internal_entry(name.as_str()) {
                return true;
            }
        }
        if !starts_with_path(path, self.root.as_str()) {
            return false;
        }
        matched_ignored(&self.gitignore, path, is_dir)
    }

    /// `is_ignored` for any path: `None` for one the matcher would refuse.
    pub fn check_ignored(&self, path: &str, is_dir: bool) -> (r: Option<bool>)
        ensures
            r == (if self.refuses(path@) {
                None
            } else {
                Some(self.ignores(path@, is_dir))
            }),
    {
        let internal = match file_name_of(path) {
            Some(name) => is_internal_entry(name.as_str()),
            None => false,
        };
        if !internal && starts_with_path(path, self.root.as_str()) && !matcher_is_empty(&self.gitignore) {
            let matcher_root = root_of_matcher(&self.gitignore);
            if refused_by_matcher(matcher_root.as_str(), path) {
                return None;
            }
        }
        Some(self.is_ignored(path, is_dir))
    }
}

/// What the search for ignore files does with a directory entry.
#[derive(Debug, Clone, Copy, PartialEq, Eq, Structural)]
pub enum IgnoreWalkStep {
    /// Version-control, state and build folders are not searched.
    Skip,
    /// A `.gitignore` or `.phanerosignore` file: its rules are loaded.
    Load,
    /// Another folder: searched in turn.
    Descend,
    /// Anything else.
    Pass,
}

/// The step for an entry named `name`.
pub fn ignore_walk_step(name: &str, is_file: bool, is_dir: bool) -> (r: IgnoreWalkStep)
    ensures
        r == (if name@ == ".git"@ || name@ == ".phaneros"@ || name@ == "node_modules"@ || name@ == "target"@ {
            IgnoreWalkStep::Skip
        } else if is_file && (name@ == ".gitignore"@ || name@ == ".phanerosignore"@) {
            IgnoreWalkStep::Load
        } else if is_dir {
            IgnoreWalkStep::Descend
        } else {
            IgnoreWalkStep::Pass
        }),
{
    if text_order(name, ".git") == 0 || text_order(name, ".phaneros") == 0 || text_order(name, "node_modules") == 0
        || text_order(name, "target") == 0 {
        IgnoreWalkStep::Skip
    } else if is_file && (text_order(name, ".gitignore") == 0 || text_order(name, ".phanerosignore") == 0) {
        IgnoreWalkStep::Load
    } else if is_dir {
        IgnoreWalkStep::Descend
    } else {
        IgnoreWalkStep::Pass
    }
}

} // verus!
