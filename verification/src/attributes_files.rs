//! Which files of a tree are `.gitattributes` files.

use crate::fs_path;
use crate::repo_path;
use crate::repo_path::RepoPath;
use crate::text;
use vstd::prelude::*;

verus! {

/// The name of the files that hold attributes.
pub open spec fn attributes_name() -> Seq<char> {
    ".gitattributes"@
}

/// A glob that asks for a plain name in any directory: `**/` and the name,
/// which has no character with a meaning in globs.
pub open spec fn is_any_depth_glob(pattern: Seq<char>) -> bool {
    &&& 3 < pattern.len() <= 255
    &&& pattern.take(3) == seq!['*', '*', '/']
    &&& forall|i: int| 3 <= i < pattern.len() ==> fs_path::is_portable_char(#[trigger] pattern[i])
}

/// Whether a path, as text, is `name` or ends in `/` and `name`.
pub open spec fn is_at_any_depth(name: Seq<char>, path: Seq<char>) -> bool {
    path == name || (repo_path::slash() + name).is_suffix_of(path)
}

/// `globset::GlobMatcher`, opaque.
#[verifier::external_type_specification]
#[verifier::external_body]
pub struct ExGlobMatcher(globset::GlobMatcher);

/// The glob that a matcher holds.
pub uninterp spec fn matcher_glob(matcher: globset::GlobMatcher) -> Seq<char>;

/// Calls `globset::Glob::new` and `Glob::compile_matcher`: a plain name in any
/// directory is a valid glob, and the matcher holds it.
#[verifier::external_body]
fn compile(pattern: &str) -> (r: globset::GlobMatcher)
    requires
        is_any_depth_glob(pattern@),
    ensures
        matcher_glob(r) == pattern@,
{
    globset::Glob::new(pattern)
        .expect("a plain name in any directory is a valid glob")
        .compile_matcher()
}

/// Calls `GlobMatcher::is_match`: a glob that starts with `**/` matches what
/// follows in all directories. Where a backslash separates names too, it is
/// taken for a slash, so that a path which holds one may match besides.
#[verifier::external_body]
fn is_match(matcher: &globset::GlobMatcher, path: &str) -> (r: bool)
    requires
        is_any_depth_glob(matcher_glob(*matcher)),
    ensures
        is_at_any_depth(matcher_glob(*matcher).skip(3), path@) ==> r,
        r && !path@.contains('\\') ==> is_at_any_depth(matcher_glob(*matcher).skip(3), path@),
{
    matcher.is_match(path)
}

/// Whether `path` is a `.gitattributes` file below the directory `dir`.
pub open spec fn is_attributes_path(dir: Seq<Seq<char>>, path: Seq<Seq<char>>) -> bool {
    &&& dir.len() < path.len()
    &&& dir.is_prefix_of(path)
    &&& path.last() == attributes_name()
}

/// The `.gitattributes` files among the files of the tree at `dir`, in order.
pub fn attributes_paths(dir: &RepoPath, paths: &Vec<RepoPath>) -> (r: Vec<RepoPath>)
    ensures
        repo_path::path_views(r@) == repo_path::path_views(paths@).filter(
            |path: Seq<Seq<char>>| is_attributes_path(dir@, path),
        ),
{
    proof {
        reveal_strlit("**/.gitattributes");
        reveal_strlit(".gitattributes");
        assert("**/.gitattributes"@.take(3) =~= seq!['*', '*', '/']);
        assert("**/.gitattributes"@.skip(3) =~= ".gitattributes"@);
    }
    let matcher = compile("**/.gitattributes");
    let ghost wanted = |path: Seq<Seq<char>>| is_attributes_path(dir@, path);
    let ghost all = repo_path::path_views(paths@);
    let mut r: Vec<RepoPath> = Vec::new();
    proof {
        reveal(Seq::filter);
        assert(all.take(0).filter(wanted) =~= Seq::<Seq<Seq<char>>>::empty());
        assert(repo_path::path_views(r@) =~= Seq::<Seq<Seq<char>>>::empty());
    }
    for i in 0..paths.len()
        invariant
            all == repo_path::path_views(paths@),
            wanted == (|path: Seq<Seq<char>>| is_attributes_path(dir@, path)),
            is_any_depth_glob(matcher_glob(matcher)),
            matcher_glob(matcher).skip(3) == attributes_name(),
            repo_path::is_name(attributes_name()),
            repo_path::path_views(r@) == all.take(i as int).filter(wanted),
    {
        let path = &paths[i];
        proof {
            reveal(Seq::filter);
            assert(all.take(i + 1).drop_last() =~= all.take(i as int));
            assert(all.take(i + 1).last() == path@);
            use_type_invariant(path);
            if dir@.len() < path@.len() {
                let tail = path@.skip(dir@.len() as int);
                assert(repo_path::is_path(tail));
                repo_path::lemma_last_name(tail, attributes_name());
            }
        }
        if path.is_below(dir) {
            let tail = path.skip(dir.len());
            let name = path.component(path.len() - 1);
            if is_match(&matcher, tail.to_internal_string().as_str()) && text::same_text(
                name,
                ".gitattributes",
            ) {
                let ghost before = r@;
                r.push(path.clone());
                assert(repo_path::path_views(r@) =~= repo_path::path_views(before).push(path@));
            }
        }
    }
    assert(all.take(all.len() as int) =~= all);
    r
}

/// A `.gitattributes` file of a tree is one at any depth: whatever directories
/// lead from the tree's directory to a file of that name, it is one; and there
/// are no others.
pub proof fn law_attributes_files_stand_at_any_depth(
    dir: Seq<Seq<char>>,
    between: Seq<Seq<char>>,
    path: Seq<Seq<char>>,
)
    ensures
        is_attributes_path(dir, dir + between + seq![".gitattributes"@]),
        is_attributes_path(dir, path) <==> path.len() > dir.len() && path == dir + path.subrange(
            dir.len() as int,
            path.len() - 1,
        ) + seq![".gitattributes"@],
{
    let file = dir + between + seq![".gitattributes"@];
    assert(file.subrange(0, dir.len() as int) =~= dir);
    assert(file.last() == ".gitattributes"@);
    if path.len() > dir.len() {
        let middle = path.subrange(dir.len() as int, path.len() - 1);
        let whole = dir + middle + seq![".gitattributes"@];
        if is_attributes_path(dir, path) {
            assert(dir =~= path.subrange(0, dir.len() as int));
            assert forall|i: int| 0 <= i < path.len() implies path[i] == whole[i] by {
                if i < dir.len() {
                    assert(path.subrange(0, dir.len() as int)[i] == path[i]);
                }
            }
            assert(path =~= whole);
        }
        if path == whole {
            assert(path.subrange(0, dir.len() as int) =~= dir);
            assert(path.last() == ".gitattributes"@);
        }
    }
}

} // verus!
