//! Sets of ignore patterns, as the `ignore` crate compiles and matches them.
//!
//! Everything that is taken on trust about that crate stands in this file.
//! `PatternBuilder` and `IgnoreWrapper` are the only ways to it from the rest
//! of the library. What is said of paths is how that crate takes them apart on
//! Unix.

use crate::text;
use ignore::gitignore::{Gitignore, GitignoreBuilder};
use vstd::prelude::*;

verus! {

/// `ignore::gitignore::GitignoreBuilder`, opaque.
#[verifier::external_type_specification]
#[verifier::external_body]
pub struct ExGitignoreBuilder(GitignoreBuilder);

/// `ignore::gitignore::Gitignore`, opaque.
#[verifier::external_type_specification]
#[verifier::external_body]
pub struct ExGitignore(Gitignore);

/// `ignore::Error`, opaque.
#[verifier::external_type_specification]
#[verifier::external_body]
pub struct ExIgnoreError(ignore::Error);

/// What a set of patterns says of a path.
#[derive(Clone, Copy, Debug, PartialEq, Eq, Structural)]
pub enum GlobVerdict {
    /// No pattern matched.
    NoMatch,
    /// The last pattern that matched asks for the path to be ignored.
    Ignored,
    /// The last pattern that matched starts with `!`.
    Whitelisted,
}

/// `line` without the white space at its end.
pub open spec fn trimmed_end(line: Seq<char>) -> Seq<char>
    decreases line.len(),
{
    if line.len() > 0 && text::is_white_space(line.last()) {
        trimmed_end(line.drop_last())
    } else {
        line
    }
}

/// Text that is left has the first character that it had.
pub proof fn lemma_trimmed_start(line: Seq<char>)
    ensures
        trimmed_end(line).len() <= line.len(),
        trimmed_end(line).len() > 0 ==> trimmed_end(line)[0] == line[0],
    decreases line.len(),
{
    if line.len() > 0 && text::is_white_space(line.last()) {
        lemma_trimmed_start(line.drop_last());
    }
}

/// The pattern that a line of a pattern file stands for: white space at its
/// end is dropped, unless the line ends in an escaped space.
pub open spec fn glob_text(line: Seq<char>) -> Seq<char> {
    if line.len() >= 2 && line[line.len() - 2] == '\\' && line.last() == ' ' {
        line
    } else {
        trimmed_end(line)
    }
}

/// Whether a line of a pattern file holds a pattern, that is, whether it is
/// neither a comment nor blank.
pub open spec fn carries_glob(line: Seq<char>) -> bool {
    &&& line.len() > 0
    &&& line[0] != '#'
    &&& glob_text(line).len() > 0
}

/// The patterns that a builder holds, in the order in which they were added.
pub uninterp spec fn builder_globs(builder: GitignoreBuilder) -> Seq<Seq<char>>;

/// The directory that a builder's patterns are relative to.
pub uninterp spec fn builder_root(builder: GitignoreBuilder) -> Seq<char>;

/// Whether a builder's options are those that it was made with, and were so
/// when its patterns were added.
pub uninterp spec fn builder_is_stock(builder: GitignoreBuilder) -> bool;

/// The patterns that a compiled set holds, in order.
pub uninterp spec fn ignore_globs(set: Gitignore) -> Seq<Seq<char>>;

/// The directory that a compiled set's patterns are relative to.
pub uninterp spec fn ignore_root(set: Gitignore) -> Seq<char>;

/// Whether a compiled set was made by a builder with its options untouched.
pub uninterp spec fn ignore_is_stock(set: Gitignore) -> bool;

/// Whether `GitignoreBuilder::add_line` can parse a pattern.
pub uninterp spec fn glob_parses(glob: Seq<char>) -> bool;

/// The error that `GitignoreBuilder::add_line` gives for a pattern that it
/// cannot parse.
pub uninterp spec fn glob_error(glob: Seq<char>) -> ignore::Error;

/// Whether `GitignoreBuilder::build` can compile a list of patterns.
pub uninterp spec fn globs_compile(globs: Seq<Seq<char>>) -> bool;

/// Whether an error is one that `GitignoreBuilder::build` gives for a list of
/// patterns. Where several patterns cannot be compiled it may be that of any.
pub uninterp spec fn is_build_error(globs: Seq<Seq<char>>, err: ignore::Error) -> bool;

/// Whether `Gitignore::matched` finds a match in a set that holds `glob` alone,
/// for a path relative to the set's directory.
pub uninterp spec fn glob_hits(glob: Seq<char>, path: Seq<char>, is_dir: bool) -> bool;

/// `path` without a leading `./`.
pub open spec fn without_here(path: Seq<char>) -> Seq<char> {
    if seq!['.', '/'].is_prefix_of(path) {
        path.skip(2)
    } else {
        path
    }
}

/// Whether a path is the current directory: a `.`, behind which only slashes
/// and single dots follow.
pub open spec fn is_here(path: Seq<char>) -> bool {
    &&& path.len() > 0
    &&& path[0] == '.'
    &&& forall|i: int| 0 <= i < path.len() ==> #[trigger] path[i] == '.' || path[i] == '/'
    &&& forall|i: int| 0 < i < path.len() ==> !(#[trigger] path[i] == '.' && path[i - 1] == '.')
}

/// The part of `path` that patterns of the directory `root` are matched with:
/// a leading `./` is dropped, and so is `root`, with a slash behind it, from a
/// path that is more than a name.
pub open spec fn relative_path(root: Seq<char>, path: Seq<char>) -> Seq<char> {
    let path = without_here(path);
    if !is_here(root) && path.contains('/') && root.is_prefix_of(path) {
        let rest = path.skip(root.len() as int);
        if rest.len() > 0 && rest[0] == '/' {
            rest.skip(1)
        } else {
            rest
        }
    } else {
        path
    }
}

/// What the patterns of a set say of a relative path: the last one that matches
/// decides.
pub open spec fn last_verdict(globs: Seq<Seq<char>>, path: Seq<char>, is_dir: bool) -> GlobVerdict
    decreases globs.len(),
{
    if globs.len() == 0 {
        GlobVerdict::NoMatch
    } else if !glob_hits(globs.last(), path, is_dir) {
        last_verdict(globs.drop_last(), path, is_dir)
    } else if globs.last()[0] == '!' {
        GlobVerdict::Whitelisted
    } else {
        GlobVerdict::Ignored
    }
}

/// What the patterns `globs` of the directory `root` say of a path.
pub open spec fn glob_verdict(
    root: Seq<char>,
    globs: Seq<Seq<char>>,
    path: Seq<char>,
    is_dir: bool,
) -> GlobVerdict {
    last_verdict(globs, relative_path(root, path), is_dir)
}

/// Of patterns that are not negative, a path is ignored if and only if one
/// matches.
pub proof fn lemma_any_hit(globs: Seq<Seq<char>>, path: Seq<char>, is_dir: bool)
    requires
        forall|i: int| 0 <= i < globs.len() ==> (#[trigger] globs[i])[0] != '!',
    ensures
        last_verdict(globs, path, is_dir) == GlobVerdict::Ignored <==> exists|i: int|
            0 <= i < globs.len() && glob_hits(#[trigger] globs[i], path, is_dir),
    decreases globs.len(),
{
    if globs.len() > 0 {
        let before = globs.drop_last();
        lemma_any_hit(before, path, is_dir);
        if glob_hits(globs.last(), path, is_dir) {
            assert(glob_hits(globs[globs.len() - 1], path, is_dir));
            assert(globs[globs.len() - 1][0] != '!');
        } else {
            if exists|i: int| 0 <= i < before.len() && glob_hits(#[trigger] before[i], path, is_dir) {
                let i = choose|i: int|
                    0 <= i < before.len() && glob_hits(#[trigger] before[i], path, is_dir);
                assert(glob_hits(globs[i], path, is_dir));
            }
            if exists|i: int| 0 <= i < globs.len() && glob_hits(#[trigger] globs[i], path, is_dir) {
                let i = choose|i: int|
                    0 <= i < globs.len() && glob_hits(#[trigger] globs[i], path, is_dir);
                assert(before[i] == globs[i]);
            }
        }
    }
}

/// Calls `GitignoreBuilder::new`: the builder holds no pattern yet, and keeps
/// the directory but for a leading `./`.
#[verifier::external_body]
fn builder_new(root: &str) -> (r: GitignoreBuilder)
    ensures
        builder_is_stock(r),
        builder_globs(r) == Seq::<Seq<char>>::empty(),
        builder_root(r) == without_here(root@),
{
    GitignoreBuilder::new(root)
}

/// Calls `GitignoreBuilder::add_line` without a file name: a comment or a blank
/// line changes nothing; any other line adds its pattern, if that parses, and
/// is an error otherwise, which depends on the pattern alone.
#[verifier::external_body]
fn builder_add_line(builder: &mut GitignoreBuilder, line: &str) -> (r: Result<(), ignore::Error>)
    requires
        builder_is_stock(*old(builder)),
    ensures
        r is Ok <==> (carries_glob(line@) ==> glob_parses(glob_text(line@))),
        r matches Err(err) ==> err == glob_error(glob_text(line@)),
        builder_is_stock(*final(builder)),
        builder_root(*final(builder)) == builder_root(*old(builder)),
        builder_globs(*final(builder)) == if r is Ok && carries_glob(line@) {
            builder_globs(*old(builder)).push(glob_text(line@))
        } else {
            builder_globs(*old(builder))
        },
    no_unwind
{
    match builder.add_line(None, line) {
        Ok(_) => Ok(()),
        Err(err) => Err(err),
    }
}

/// Calls `GitignoreBuilder::build`: the compiled set holds the builder's
/// patterns. Without patterns there is nothing to compile, and the set's
/// directory is the empty path. An error is one of those that the patterns
/// give; it need not be the same each time.
#[verifier::external_body]
fn builder_build(builder: &GitignoreBuilder) -> (r: Result<Gitignore, ignore::Error>)
    requires
        builder_is_stock(*builder),
    ensures
        r is Ok <==> builder_globs(*builder).len() == 0 || globs_compile(builder_globs(*builder)),
        r matches Err(err) ==> is_build_error(builder_globs(*builder), err),
        r matches Ok(set) ==> {
            &&& ignore_is_stock(set)
            &&& ignore_globs(set) == builder_globs(*builder)
            &&& ignore_root(set) == if builder_globs(*builder).len() == 0 {
                Seq::<char>::empty()
            } else {
                builder_root(*builder)
            }
        },
{
    builder.build()
}

/// Calls `Gitignore::empty`: a set without patterns, whose directory is the
/// empty path.
#[verifier::external_body]
fn ignore_empty() -> (r: Gitignore)
    ensures
        ignore_is_stock(r),
        ignore_globs(r) == Seq::<Seq<char>>::empty(),
        ignore_root(r) == Seq::<char>::empty(),
{
    Gitignore::empty()
}

/// Calls `Gitignore::path`: the directory that the patterns are relative to,
/// as text.
#[verifier::external_body]
fn ignore_path(set: &Gitignore) -> (r: String)
    ensures
        r@ == ignore_root(*set),
{
    set.path().to_string_lossy().into_owned()
}

/// Calls `Gitignore::matched`: the last pattern that matches the path, taken
/// relative to the set's directory, decides. Whether a pattern matches depends
/// on that pattern and the relative path alone.
#[verifier::external_body]
fn ignore_matched(set: &Gitignore, path: &str, is_dir: bool) -> (r: GlobVerdict)
    requires
        ignore_is_stock(*set),
    ensures
        r == glob_verdict(ignore_root(*set), ignore_globs(*set), path@, is_dir),
        ignore_globs(*set).len() == 1 ==> (r != GlobVerdict::NoMatch <==> glob_hits(
            ignore_globs(*set)[0],
            relative_path(ignore_root(*set), path@),
            is_dir,
        )),
{
    match set.matched(path, is_dir) {
        ignore::Match::None => GlobVerdict::NoMatch,
        ignore::Match::Ignore(_) => GlobVerdict::Ignored,
        ignore::Match::Whitelist(_) => GlobVerdict::Whitelisted,
    }
}

/// Calls `Gitignore::clone`: the copy holds the same patterns, relative to the
/// same directory.
#[verifier::external_body]
fn ignore_clone(set: &Gitignore) -> (r: Gitignore)
    ensures
        ignore_is_stock(r) == ignore_is_stock(*set),
        ignore_globs(r) == ignore_globs(*set),
        ignore_root(r) == ignore_root(*set),
{
    set.clone()
}

/// A set of patterns and the directory that they are relative to.
#[verifier::ext_equal]
pub struct Rules {
    pub root: Seq<char>,
    pub globs: Seq<Seq<char>>,
}

impl Rules {
    /// The rules of a directory that has none.
    pub open spec fn none() -> Rules {
        Rules { root: Seq::empty(), globs: Seq::empty() }
    }
}

/// Collects the patterns of one directory.
pub struct PatternBuilder {
    builder: GitignoreBuilder,
}

impl View for PatternBuilder {
    type V = Rules;

    closed spec fn view(&self) -> Rules {
        Rules { root: builder_root(self.builder), globs: builder_globs(self.builder) }
    }
}

impl PatternBuilder {
    #[verifier::type_invariant]
    spec fn stock(self) -> bool {
        builder_is_stock(self.builder)
    }

    /// A builder without patterns for the directory `root`.
    pub fn new(root: &str) -> (r: PatternBuilder)
        ensures
            r@.globs == Seq::<Seq<char>>::empty(),
            r@.root == without_here(root@),
    {
        PatternBuilder { builder: builder_new(root) }
    }

    /// Adds the pattern of one line, if the line holds one.
    pub fn add_line(&mut self, line: &str) -> (r: Result<(), ignore::Error>)
        ensures
            r is Ok <==> (carries_glob(line@) ==> glob_parses(glob_text(line@))),
            r matches Err(err) ==> err == glob_error(glob_text(line@)),
            final(self)@.root == old(self)@.root,
            final(self)@.globs == if r is Ok && carries_glob(line@) {
                old(self)@.globs.push(glob_text(line@))
            } else {
                old(self)@.globs
            },
    {
        proof {
            use_type_invariant(&*self);
        }
        builder_add_line(&mut self.builder, line)
    }

    /// Compiles the patterns collected so far.
    pub fn build(&self) -> (r: Result<IgnoreWrapper, ignore::Error>)
        ensures
            r is Ok <==> self@.globs.len() == 0 || globs_compile(self@.globs),
            r matches Err(err) ==> is_build_error(self@.globs, err),
            r matches Ok(set) ==> set@ == if self@.globs.len() == 0 {
                Rules::none()
            } else {
                self@
            },
    {
        proof {
            use_type_invariant(self);
        }
        match builder_build(&self.builder) {
            Ok(set) => {
                let wrapper = IgnoreWrapper { set };
                assert(wrapper@ =~= if self@.globs.len() == 0 {
                    Rules::none()
                } else {
                    self@
                });
                Ok(wrapper)
            },
            Err(err) => Err(err),
        }
    }
}

/// The compiled patterns of one directory.
#[derive(Debug)]
pub struct IgnoreWrapper {
    set: Gitignore,
}

impl View for IgnoreWrapper {
    type V = Rules;

    closed spec fn view(&self) -> Rules {
        Rules { root: ignore_root(self.set), globs: ignore_globs(self.set) }
    }
}

impl Default for IgnoreWrapper {
    fn default() -> (r: Self)
        ensures
            r@ == Rules::none(),
    {
        IgnoreWrapper { set: ignore_empty() }
    }
}

impl Clone for IgnoreWrapper {
    fn clone(&self) -> (r: Self)
        ensures
            r@ == self@,
    {
        proof {
            use_type_invariant(self);
        }
        IgnoreWrapper { set: ignore_clone(&self.set) }
    }
}

impl IgnoreWrapper {
    #[verifier::type_invariant]
    spec fn stock(self) -> bool {
        ignore_is_stock(self.set)
    }

    /// The directory that the patterns are relative to.
    pub fn path(&self) -> (r: String)
        ensures
            r@ == self@.root,
    {
        ignore_path(&self.set)
    }

    /// What the patterns say of a path.
    pub fn matched(&self, path: &str, is_dir: bool) -> (r: GlobVerdict)
        ensures
            r == glob_verdict(self@.root, self@.globs, path@, is_dir),
    {
        proof {
            use_type_invariant(self);
        }
        ignore_matched(&self.set, path, is_dir)
    }
}

/// The pattern of a line is the line without the white space at its end; a line
/// that ends in a backslash and a space is kept whole.
pub proof fn law_white_space_behind_a_pattern_is_dropped(line: Seq<char>, c: char)
    requires
        text::is_white_space(c),
    ensures
        line.len() == 0 || !text::is_white_space(line.last()) ==> glob_text(line) == line,
        line.len() == 0 || line.last() != '\\' || c != ' ' ==> glob_text(line.push(c))
            == trimmed_end(line),
        line.len() == 0 || !text::is_white_space(line.last()) ==> trimmed_end(line) == line,
        trimmed_end(line.push(c)) == trimmed_end(line),
        line.len() > 0 && line.last() == '\\' ==> glob_text(line.push(' ')) == line.push(' '),
{
    assert(line.push(c).drop_last() =~= line);
}

} // verus!
