//! From paths inside the repository to paths of the file system, as Unix writes
//! them.

use crate::repo_path;
use crate::repo_path::RepoPath;
use crate::text;
use vstd::prelude::*;

verus! {

/// The components that `std::path::Path::components` finds in a path, each one
/// as its name if it is a normal component (not a prefix, a root, `.` or `..`).
pub uninterp spec fn path_parts(path: Seq<char>) -> Seq<Option<Seq<char>>>;

/// A path below a directory: the directory, a slash unless it ends in one or is
/// empty, and the path; a path that starts with a slash replaces the directory.
pub open spec fn joined_path(base: Seq<char>, path: Seq<char>) -> Seq<char> {
    if path.len() > 0 && path[0] == '/' {
        path
    } else if base.len() == 0 || base.last() == '/' {
        base + path
    } else {
        base + seq!['/'] + path
    }
}

/// A name that every file system spells as it stands: ASCII letters, digits,
/// `_`, `-` and `.`, and neither `.` nor `..`.
pub open spec fn is_portable_name(name: Seq<char>) -> bool {
    &&& name.len() > 0
    &&& name != seq!['.']
    &&& name != seq!['.', '.']
    &&& forall|i: int| 0 <= i < name.len() ==> is_portable_char(#[trigger] name[i])
}

/// A character of a portable name.
pub open spec fn is_portable_char(c: char) -> bool {
    'a' <= c <= 'z' || 'A' <= c <= 'Z' || '0' <= c <= '9' || c == '_' || c == '-' || c == '.'
}

/// What the optional names in `parts` hold.
pub open spec fn part_views(parts: Seq<Option<String>>) -> Seq<Option<Seq<char>>> {
    parts.map_values(
        |part: Option<String>|
            match part {
                Some(name) => Some(name@),
                None => None,
            },
    )
}

/// Calls `std::path::Path::components`. The components depend on the path
/// alone. Slashes separate them, so that a normal component holds none and is
/// not empty. A path without slashes is its own only component, which is normal
/// unless it is `.` or `..`. The contract says so for Unix.
#[verifier::external_body]
fn components(path: &str) -> (r: Vec<Option<String>>)
    ensures
        part_views(r@) == path_parts(path@),
        path@ == seq!['.'] || path@ == seq!['.', '.'] ==> part_views(r@) == seq![
            None::<Seq<char>>,
        ],
        is_portable_name(path@) ==> part_views(r@) == seq![Some(path@)],
        repo_path::is_name(path@) && path@ != seq!['.'] && path@ != seq!['.', '.'] ==> part_views(
            r@,
        ) == seq![Some(path@)],
        forall|i: int|
            0 <= i < r@.len() ==> (#[trigger] r@[i] matches Some(part) ==> repo_path::is_name(
                part@,
            )),
{
    std::path::Path::new(path)
        .components()
        .map(|part| match part {
            std::path::Component::Normal(name) => Some(name.to_string_lossy().into_owned()),
            std::path::Component::Prefix(_) => None,
            std::path::Component::RootDir => None,
            std::path::Component::CurDir => None,
            std::path::Component::ParentDir => None,
        })
        .collect()
}

/// Calls `std::path::Path::join`, which puts the path behind the directory, with
/// a separator between them where there is none, or replaces the directory by
/// an absolute path. The contract says so for Unix, where `/` separates.
#[verifier::external_body]
pub(crate) fn join(base: &str, path: &str) -> (r: String)
    ensures
        r@ == joined_path(base@, path@),
{
    std::path::Path::new(base).join(path).to_string_lossy().into_owned()
}

/// Whether the file system takes `name` as the name of one file: it is a
/// single component, and stands for neither its directory nor the one above.
pub open spec fn is_fs_name(name: Seq<char>) -> bool {
    repo_path::is_name(name) && name != seq!['.'] && name != seq!['.', '.']
}

/// The directory `base` with the names of `path` joined to it one by one.
pub open spec fn fs_path(base: Seq<char>, path: Seq<Seq<char>>) -> Seq<char>
    decreases path.len(),
{
    if path.len() == 0 {
        base
    } else {
        joined_path(fs_path(base, path.drop_last()), path.last())
    }
}

/// The file system path of `path` below the directory `base`: an empty path is
/// written `.`.
pub open spec fn fs_text(base: Seq<char>, path: Seq<Seq<char>>) -> Seq<char> {
    if fs_path(base, path).len() == 0 {
        seq!['.']
    } else {
        fs_path(base, path)
    }
}

/// Whether the file system takes each name of `path`.
pub open spec fn has_fs_names(path: Seq<Seq<char>>) -> bool {
    forall|i: int| 0 <= i < path.len() ==> is_fs_name(#[trigger] path[i])
}

/// Below a directory that ends in a slash, a path has the directory's text with
/// its own behind it.
pub proof fn lemma_fs_path_below(base: Seq<char>, path: Seq<Seq<char>>)
    requires
        base.len() > 0,
        base.last() == '/',
        repo_path::is_path(path),
    ensures
        fs_path(base, path) == base + repo_path::internal_string(path),
        path.len() > 0 ==> repo_path::internal_string(path).len() > 0
            && repo_path::internal_string(path)[0] != '/'
            && repo_path::internal_string(path).last() != '/',
    decreases path.len(),
{
    if path.len() == 0 {
        assert(base + repo_path::internal_string(path) =~= base);
    } else {
        let before = path.drop_last();
        let name = path.last();
        assert(repo_path::is_name(path[path.len() - 1]));
        assert(repo_path::is_path(before)) by {
            assert forall|i: int| 0 <= i < before.len() implies repo_path::is_name(
                #[trigger] before[i],
            ) by {
                assert(before[i] == path[i]);
            }
        }
        lemma_fs_path_below(base, before);
        text::lemma_joined_push(before, name, repo_path::slash());
        assert(before.push(name) =~= path);
        assert(!name.contains('/'));
        assert(name[0] != '/');
        assert(name.last() != '/');
        assert(fs_path(base, path) =~= base + repo_path::internal_string(path));
    }
}

/// Whether the components that were found in `name` are `name` itself and
/// nothing else.
pub fn is_single_name(name: &str, parts: &Vec<Option<String>>) -> (r: bool)
    ensures
        r == (part_views(parts@) == seq![Some(name@)]),
{
    let ghost views = part_views(parts@);
    if parts.len() != 1 {
        assert(views.len() != 1);
        return false;
    }
    match &parts[0] {
        Some(part) => {
            assert(views =~= seq![Some(part@)]);
            assert(views[0] == Some(part@));
            text::same_text(part.as_str(), name)
        },
        None => {
            assert(views[0] is None);
            false
        },
    }
}

/// Whether the file system takes `name` as the name of one file.
fn fs_name(name: &str) -> (r: bool)
    ensures
        r == is_fs_name(name@),
        name@ == seq!['.'] || name@ == seq!['.', '.'] ==> !r,
        is_portable_name(name@) ==> r,
{
    let parts = components(name);
    proof {
        assert(seq![None::<Seq<char>>][0] != seq![Some(name@)][0]);
        if part_views(parts@) == seq![Some(name@)] {
            assert(part_views(parts@).len() == 1);
            assert(part_views(parts@)[0] == Some(name@));
            assert(parts@[0] is Some);
        }
    }
    is_single_name(name, &parts)
}

impl RepoPath {
    /// The file system path of this path below the directory `base`, if the
    /// file system takes each of its names.
    pub fn to_fs_path(&self, base: &str) -> (r: Option<String>)
        ensures
            r is Some <==> has_fs_names(self@),
            r is Some <==> forall|i: int|
                0 <= i < self@.len() ==> #[trigger] self@[i] != seq!['.'] && self@[i] != seq![
                    '.',
                    '.',
                ],
            r matches Some(p) ==> p@ == fs_text(base@, self@),
            (forall|i: int| 0 <= i < self@.len() ==> is_portable_name(#[trigger] self@[i]))
                ==> r is Some,
            (exists|i: int|
                0 <= i < self@.len() && (#[trigger] self@[i] == seq!['.'] || self@[i] == seq![
                    '.',
                    '.',
                ])) ==> r is None,
    {
        let mut r = base.to_owned();
        assert(self@.take(0) =~= Seq::<Seq<char>>::empty());
        let n = self.len();
        for i in 0..n
            invariant
                n == self@.len(),
                r@ == fs_path(base@, self@.take(i as int)),
                forall|j: int|
                    0 <= j < i ==> is_fs_name(#[trigger] self@[j]) && self@[j] != seq!['.']
                        && self@[j] != seq!['.', '.'],
        {
            let name = self.component(i);
            if !fs_name(name) {
                proof {
                    use_type_invariant(self);
                    law_only_dots_have_no_fs_path(self@);
                }
                assert(!is_fs_name(self@[i as int]));
                assert(!is_portable_name(self@[i as int]));
                return None;
            }
            r = join(r.as_str(), name);
            assert(self@.take(i + 1).drop_last() =~= self@.take(i as int));
        }
        proof {
            use_type_invariant(self);
            law_only_dots_have_no_fs_path(self@);
        }
        assert(self@.take(self@.len() as int) =~= self@);
        if r.as_str().is_empty() {
            r.push('.');
            assert(r@ =~= seq!['.']);
        }
        Some(r)
    }
}

/// A path has a file system path if and only if none of its names is `.` or
/// `..`, whatever other characters they hold.
pub proof fn law_only_dots_have_no_fs_path(path: Seq<Seq<char>>)
    requires
        repo_path::is_path(path),
    ensures
        has_fs_names(path) <==> forall|i: int|
            0 <= i < path.len() ==> #[trigger] path[i] != seq!['.'] && path[i] != seq!['.', '.'],
{
    if forall|i: int|
        0 <= i < path.len() ==> #[trigger] path[i] != seq!['.'] && path[i] != seq!['.', '.'] {
        assert forall|i: int| 0 <= i < path.len() implies is_fs_name(#[trigger] path[i]) by {
            assert(repo_path::is_name(path[i]));
        }
    }
    if has_fs_names(path) {
        assert forall|i: int| 0 <= i < path.len() implies #[trigger] path[i] != seq!['.']
            && path[i] != seq!['.', '.'] by {
            assert(is_fs_name(path[i]));
        }
    }
}

/// The file system path of a path is its text form behind the directory, with
/// one slash between them; only an empty path in no directory is written `.`.
pub proof fn law_fs_path_is_the_text_below(base: Seq<char>, path: Seq<Seq<char>>)
    requires
        repo_path::is_path(path),
    ensures
        path.len() == 0 && base.len() == 0 ==> fs_text(base, path) == seq!['.'],
        path.len() == 0 && base.len() > 0 ==> fs_text(base, path) == base,
        path.len() > 0 && (base.len() == 0 || base.last() == '/') ==> fs_text(base, path) == base
            + repo_path::internal_string(path),
        path.len() > 0 && base.len() > 0 && base.last() != '/' ==> fs_text(base, path) == base
            + seq!['/'] + repo_path::internal_string(path),
    decreases path.len(),
{
    if path.len() > 0 {
        let before = path.drop_last();
        let name = path.last();
        assert(repo_path::is_name(path[path.len() - 1]));
        assert(repo_path::is_path(before)) by {
            assert forall|i: int| 0 <= i < before.len() implies repo_path::is_name(
                #[trigger] before[i],
            ) by {
                assert(before[i] == path[i]);
            }
        }
        law_fs_path_is_the_text_below(base, before);
        lemma_fs_path_below(seq!['/'], before);
        text::lemma_joined_push(before, name, repo_path::slash());
        assert(before.push(name) =~= path);
        assert(name.contains(name[0]));
        let start = if base.len() == 0 || base.last() == '/' {
            base
        } else {
            base + seq!['/']
        };
        if before.len() == 0 {
            assert(fs_path(base, before) == base);
        } else {
            assert(fs_text(base, before) =~= start + repo_path::internal_string(before));
            assert(repo_path::internal_string(before).len() > 0);
            assert(fs_path(base, before) == fs_text(base, before)) by {
                if fs_path(base, before).len() == 0 {
                    lemma_fs_path_long(base, before);
                }
            }
        }
        assert(fs_path(base, path) =~= start + repo_path::internal_string(path));
    }
}

/// Names that are joined to a directory make it longer.
proof fn lemma_fs_path_long(base: Seq<char>, path: Seq<Seq<char>>)
    requires
        repo_path::is_path(path),
        path.len() > 0,
    ensures
        fs_path(base, path).len() > 0,
{
    assert(repo_path::is_name(path[path.len() - 1]));
}

} // verus!
