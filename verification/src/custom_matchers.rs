//! Which files of a repository its `.gitattributes` files put under Git LFS.

use crate::attributes;
use crate::attributes::LineRule;
use crate::attributes_files;
use crate::fs_path;
use crate::ignore_rules;
use crate::ignore_rules::{GlobVerdict, IgnoreWrapper, PatternBuilder};
use crate::lines;
use crate::path_tree::RepoPathTree;
use crate::repo_path;
use crate::repo_path::RepoPath;
use crate::text;
use vstd::prelude::*;

verus! {

/// Why the `.gitattributes` files could not be turned into a matcher.
#[derive(Debug)]
pub enum GitAttributesMatcherError {
    /// A pattern did not parse or compile.
    GitIgnoreError(ignore::Error),
    /// A file could not be read.
    ReadError(std::io::Error),
    /// A pattern is one that these files cannot have.
    InvalidPattern(String),
}

impl From<ignore::Error> for GitAttributesMatcherError {
    fn from(err: ignore::Error) -> (r: Self) {
        GitAttributesMatcherError::GitIgnoreError(err)
    }
}

impl vstd::std_specs::convert::FromSpecImpl<ignore::Error> for GitAttributesMatcherError {
    open spec fn obeys_from_spec() -> bool {
        true
    }

    open spec fn from_spec(err: ignore::Error) -> Self {
        GitAttributesMatcherError::GitIgnoreError(err)
    }
}

impl From<std::io::Error> for GitAttributesMatcherError {
    fn from(err: std::io::Error) -> (r: Self) {
        GitAttributesMatcherError::ReadError(err)
    }
}

impl vstd::std_specs::convert::FromSpecImpl<std::io::Error> for GitAttributesMatcherError {
    open spec fn obeys_from_spec() -> bool {
        true
    }

    open spec fn from_spec(err: std::io::Error) -> Self {
        GitAttributesMatcherError::ReadError(err)
    }
}

impl GitAttributesMatcherError {
    /// The error in words.
    pub fn message(&self) -> (r: String)
        ensures
            r@ == match *self {
                GitAttributesMatcherError::GitIgnoreError(_) =>
                    "failed to parse .gitattributes file"@,
                GitAttributesMatcherError::ReadError(_) => "failed to read .gitattributes file"@,
                GitAttributesMatcherError::InvalidPattern(why) =>
                    "invalid pattern in .gitattributes: "@ + why@,
            },
    {
        match self {
            GitAttributesMatcherError::GitIgnoreError(_) =>
                "failed to parse .gitattributes file".to_owned(),
            GitAttributesMatcherError::ReadError(_) =>
                "failed to read .gitattributes file".to_owned(),
            GitAttributesMatcherError::InvalidPattern(why) => {
                let mut r = "invalid pattern in .gitattributes: ".to_owned();
                r.append(why.as_str());
                r
            },
        }
    }
}

/// How reading the lines of a file ends. The first bad line gives the error; if
/// there is none, the failure to read on does.
pub open spec fn parse_ends(
    r: Result<(), GitAttributesMatcherError>,
    lines: Seq<Seq<u8>>,
    failure: Option<std::io::Error>,
) -> bool {
    match (attributes::first_bad(lines), failure) {
        (None, None) => r is Ok,
        (None, Some(err)) => r == Err::<(), _>(GitAttributesMatcherError::ReadError(err)),
        (Some(attributes::LineKind::Negative), _) => {
            &&& r matches Err(GitAttributesMatcherError::InvalidPattern(why))
            &&& why@ == "negative patterns are not allowed in .gitattributes files"@
        },
        (Some(attributes::LineKind::NotText), _) => r == Err::<(), _>(
            GitAttributesMatcherError::ReadError(
                lines::invalid_data_error("stream did not contain valid UTF-8"@),
            ),
        ),
        (Some(attributes::LineKind::Pattern(pattern)), _) => r == Err::<(), _>(
            GitAttributesMatcherError::GitIgnoreError(
                ignore_rules::glob_error(ignore_rules::glob_text(pattern)),
            ),
        ),
        (Some(attributes::LineKind::Skip), _) => false,
    }
}

/// Puts the patterns of a `.gitattributes` file into `builder`, line by line up
/// to the first bad one. `failure` says that `contents` is only what could be
/// read of the file before that error.
pub fn parse_gitattributes(
    contents: &Vec<u8>,
    failure: Option<std::io::Error>,
    builder: &mut PatternBuilder,
) -> (r: Result<(), GitAttributesMatcherError>)
    ensures
        parse_ends(r, lines::lines(contents@, failure is None), failure),
        final(builder)@.root == old(builder)@.root,
        final(builder)@.globs == old(builder)@.globs + attributes::taken_globs(
            lines::lines(contents@, failure is None),
        ),
{
    let list = lines::split_lines(contents, failure.is_none());
    let ghost all = lines::lines(contents@, failure is None);
    let ghost first = builder@;
    assert(all.take(0) =~= Seq::<Seq<u8>>::empty());
    assert(first.globs + Seq::<Seq<char>>::empty() =~= first.globs);
    let mut i: usize = 0;
    while i < list.len()
        invariant
            i <= list@.len(),
            all == lines::lines(contents@, failure is None),
            first == old(builder)@,
            all.len() == list@.len(),
            forall|j: int| i <= j < list@.len() ==> #[trigger] list@[j]@ == all[j],
            forall|j: int|
                0 <= j < i ==> !attributes::is_bad(attributes::kind_of_line(#[trigger] all[j])),
            builder@.root == first.root,
            builder@.globs == first.globs + attributes::globs_of(all.take(i as int)),
        decreases list@.len() - i,
    {
        let ghost kind = attributes::kind_of_line(all[i as int]);
        proof {
            assert(list@[i as int]@ == all[i as int]);
            assert(all.take(i + 1).drop_last() =~= all.take(i as int));
            if attributes::is_bad(kind) {
                attributes::lemma_clean_len(all, i as int);
            }
        }
        match lines::decode(list[i].clone()) {
            None => {
                return Err(
                    GitAttributesMatcherError::ReadError(
                        lines::invalid_data("stream did not contain valid UTF-8"),
                    ),
                );
            },
            Some(line) => match attributes::parse_line(line.as_str()) {
                LineRule::Skip => {},
                LineRule::Negative => {
                    return Err(
                        GitAttributesMatcherError::InvalidPattern(
                            "negative patterns are not allowed in .gitattributes files".to_owned(),
                        ),
                    );
                },
                LineRule::Pattern(pattern) => match builder.add_line(pattern.as_str()) {
                    Ok(()) => {
                        assert(builder@.globs =~= first.globs + attributes::globs_of(
                            all.take(i + 1),
                        ));
                    },
                    Err(err) => {
                        return Err(GitAttributesMatcherError::from(err));
                    },
                },
            },
        }
        i = i + 1;
    }
    proof {
        attributes::lemma_clean_len(all, all.len() as int);
    }
    match failure {
        None => Ok(()),
        Some(err) => Err(GitAttributesMatcherError::from(err)),
    }
}

/// What became of reading a `.gitattributes` file.
#[derive(Debug)]
pub enum FileState {
    /// The tree has the file, but the working copy does not.
    Absent,
    /// The bytes of the file.
    Read(Vec<u8>),
    /// The bytes that came before an error.
    Failed { before: Vec<u8>, error: std::io::Error },
}

/// A `.gitattributes` file of the repository.
#[derive(Debug)]
pub struct AttributesFile {
    pub path: RepoPath,
    pub state: FileState,
}

/// The lines of a file that were read.
pub open spec fn file_lines(state: FileState) -> Seq<Seq<u8>> {
    match state {
        FileState::Absent => Seq::empty(),
        FileState::Read(contents) => lines::lines(contents@, true),
        FileState::Failed { before, error } => lines::lines(before@, false),
    }
}

/// The error that kept the rest of a file from being read.
pub open spec fn file_failure(state: FileState) -> Option<std::io::Error> {
    match state {
        FileState::Failed { before, error } => Some(error),
        _ => None,
    }
}

/// Whether every line of a file could be taken.
pub open spec fn file_parses(state: FileState) -> bool {
    &&& attributes::clean_len(file_lines(state)) == file_lines(state).len()
    &&& file_failure(state) is None
}

/// Whether a file's patterns compile.
pub open spec fn file_compiles(state: FileState) -> bool {
    let globs = attributes::globs_of(file_lines(state));
    globs.len() == 0 || ignore_rules::globs_compile(globs)
}

/// The directory that a file's patterns are relative to.
pub open spec fn location(repo_root: Seq<char>, path: Seq<Seq<char>>) -> Seq<char> {
    fs_path::joined_path(repo_root, repo_path::internal_dir_string(path.drop_last()))
}

/// The patterns of each directory that has some.
pub type DirRules = Map<Seq<Seq<char>>, ignore_rules::Rules>;

/// The patterns by directory once a file has been taken: they replace those of
/// its directory. A file that is absent changes nothing.
pub open spec fn with_file(rules: DirRules, repo_root: Seq<char>, file: AttributesFile) -> DirRules {
    let dir = file.path@.drop_last();
    let globs = attributes::globs_of(file_lines(file.state));
    if file.state is Absent {
        rules
    } else if globs.len() == 0 {
        rules.remove(dir)
    } else {
        rules.insert(
            dir,
            ignore_rules::Rules {
                root: ignore_rules::without_here(location(repo_root, file.path@)),
                globs,
            },
        )
    }
}

/// The patterns by directory once all the files have been taken, in order.
pub open spec fn with_files(repo_root: Seq<char>, files: Seq<AttributesFile>) -> DirRules
    decreases files.len(),
{
    if files.len() == 0 {
        Map::empty()
    } else {
        with_file(with_files(repo_root, files.drop_last()), repo_root, files.last())
    }
}

/// Whether a file can be taken.
pub open spec fn file_is_good(file: AttributesFile) -> bool {
    file.state is Absent || (file_parses(file.state) && file_compiles(file.state))
}

/// The error that a file which cannot be taken gives.
pub open spec fn file_error(file: AttributesFile, err: GitAttributesMatcherError) -> bool {
    if file_parses(file.state) {
        err matches GitAttributesMatcherError::GitIgnoreError(why) && ignore_rules::is_build_error(
            attributes::globs_of(file_lines(file.state)),
            why,
        )
    } else {
        parse_ends(Err(err), file_lines(file.state), file_failure(file.state))
    }
}

/// How many files stand before the first that cannot be taken.
pub open spec fn good_len(files: Seq<AttributesFile>) -> nat
    decreases files.len(),
{
    if files.len() == 0 || !file_is_good(files[0]) {
        0
    } else {
        1 + good_len(files.skip(1))
    }
}

/// `good_len` is the least index of a file that cannot be taken, or the length.
proof fn lemma_good_len(files: Seq<AttributesFile>, n: int)
    requires
        0 <= n <= files.len(),
        forall|i: int| 0 <= i < n ==> file_is_good(#[trigger] files[i]),
        n == files.len() || !file_is_good(files[n]),
    ensures
        good_len(files) == n,
    decreases files.len(),
{
    if n > 0 {
        let rest = files.skip(1);
        assert forall|i: int| 0 <= i < n - 1 implies file_is_good(#[trigger] rest[i]) by {
            assert(rest[i] == files[i + 1]);
        }
        if n < files.len() {
            assert(rest[n - 1] == files[n]);
        }
        lemma_good_len(rest, n - 1);
    }
}

/// What the patterns of the directory made of the first `k` names of `file` say
/// of the rest of it.
pub open spec fn verdict_at(rules: DirRules, file: Seq<Seq<char>>, k: int) -> GlobVerdict {
    let dir = file.take(k);
    let tail = file.skip(k);
    if rules.contains_key(dir) && fs_path::has_fs_names(tail) {
        ignore_rules::glob_verdict(
            rules[dir].root,
            rules[dir].globs,
            fs_path::fs_text(rules[dir].root, tail),
            false,
        )
    } else {
        GlobVerdict::NoMatch
    }
}

/// Whether the patterns of the directory made of the first `k` names of `file`
/// match the rest of it.
pub open spec fn dir_matches(rules: DirRules, file: Seq<Seq<char>>, k: int) -> bool {
    verdict_at(rules, file, k) == GlobVerdict::Ignored
}

/// Whether the patterns of a directory above `file` match it.
pub open spec fn file_matches(rules: DirRules, file: Seq<Seq<char>>) -> bool {
    exists|k: int| 0 <= k < file.len() && #[trigger] dir_matches(rules, file, k)
}

/// Which directories a matcher wants to be visited.
#[derive(Clone, Copy, Debug, PartialEq, Eq, Structural)]
pub enum Visit {
    /// Everything in the directory matches.
    AllRecursively,
    /// Some of what is in the directory may match.
    Specific,
    /// Nothing in the directory needs a visit.
    Nothing,
}

/// Decides which files of a repository match.
pub trait Matcher {
    /// Whether the file matches.
    fn matches(&self, file: &RepoPath) -> bool;

    /// Which parts of a directory need a visit.
    fn visit(&self, dir: &RepoPath) -> Visit;
}

/// Matches the files that `.gitattributes` files put under Git LFS.
#[derive(Debug)]
pub struct GitAttributesMatcher {
    tree: RepoPathTree<IgnoreWrapper>,
}

impl View for GitAttributesMatcher {
    type V = DirRules;

    closed spec fn view(&self) -> DirRules {
        Map::new(
            |dir: Seq<Seq<char>>|
                self.tree.at(dir) matches Some(rules) && rules@.globs.len() > 0,
            |dir: Seq<Seq<char>>| self.tree.at(dir)->Some_0@,
        )
    }
}

impl Clone for GitAttributesMatcher {
    fn clone(&self) -> (r: Self)
        ensures
            r@ == self@,
    {
        let r = GitAttributesMatcher { tree: self.tree.clone() };
        proof {
            assert forall|dir: Seq<Seq<char>>| #[trigger]
                r@.dom().contains(dir) == self@.dom().contains(dir) by {
                assert(crate::path_tree::same_at(self.tree, r.tree, dir));
            }
            assert forall|dir: Seq<Seq<char>>| #[trigger] r@.dom().contains(dir) implies r@[dir]
                == self@[dir] by {
                assert(crate::path_tree::same_at(self.tree, r.tree, dir));
            }
            assert(r@ =~= self@);
        }
        r
    }
}

impl GitAttributesMatcher {
    /// A matcher that matches nothing.
    pub fn empty() -> (r: GitAttributesMatcher)
        ensures
            r@ == DirRules::empty(),
    {
        let r = GitAttributesMatcher { tree: RepoPathTree::new(IgnoreWrapper::default()) };
        proof {
            assert forall|dir: Seq<Seq<char>>| !r@.contains_key(dir) by {
                if dir.len() == 0 {
                    assert(dir =~= Seq::empty());
                }
            }
            assert(r@ =~= DirRules::empty());
        }
        r
    }

    /// Takes the patterns of one file of the repository at `repo_root`.
    pub fn add_file(&mut self, repo_root: &str, file: AttributesFile) -> (r: Result<
        (),
        GitAttributesMatcherError,
    >)
        requires
            file.path@.len() > 0,
        ensures
            r is Ok <==> file_is_good(file),
            r is Ok ==> final(self)@ == with_file(old(self)@, repo_root@, file),
            r matches Err(err) ==> final(self)@ == old(self)@ && file_error(file, err),
    {
        let dir = match file.path.parent() {
            Some(dir) => dir,
            None => RepoPath::root(),
        };
        let (contents, failure) = match file.state {
            FileState::Absent => {
                return Ok(());
            },
            FileState::Read(contents) => (contents, None),
            FileState::Failed { before, error } => (before, Some(error)),
        };
        let location = fs_path::join(repo_root, dir.to_internal_dir_string().as_str());
        let mut builder = PatternBuilder::new(location.as_str());
        let ghost all = file_lines(file.state);
        match parse_gitattributes(&contents, failure, &mut builder) {
            Ok(()) => {},
            Err(err) => {
                return Err(err);
            },
        }
        proof {
            assert(all.take(all.len() as int) =~= all);
            assert(builder@.globs =~= attributes::globs_of(all));
        }
        match builder.build() {
            Ok(rules) => {
                self.tree.insert(&dir, rules);
                proof {
                    let before = old(self)@;
                    let after = with_file(before, repo_root@, file);
                    assert forall|d: Seq<Seq<char>>| #[trigger]
                        self@.dom().contains(d) == after.dom().contains(d) by {
                        assert(d == dir@ || crate::path_tree::grown(
                            old(self).tree,
                            self.tree,
                            d,
                            dir@,
                        ));
                    }
                    assert(self@.dom() =~= after.dom());
                    assert forall|d: Seq<Seq<char>>| #[trigger]
                        self@.dom().contains(d) implies self@[d] == after[d] by {
                        assert(d == dir@ || crate::path_tree::grown(
                            old(self).tree,
                            self.tree,
                            d,
                            dir@,
                        ));
                    }
                    assert(self@ =~= after);
                }
                Ok(())
            },
            Err(err) => Err(GitAttributesMatcherError::from(err)),
        }
    }

    /// Creates a matcher from the `.gitattributes` files of the repository at
    /// `repo_root`, in the order in which they are given.
    pub fn new(files: Vec<AttributesFile>, repo_root: &str) -> (r: Result<
        GitAttributesMatcher,
        GitAttributesMatcherError,
    >)
        requires
            forall|i: int| 0 <= i < files@.len() ==> #[trigger] files@[i].path@.len() > 0,
        ensures
            r is Ok <==> good_len(files@) == files@.len(),
            r matches Ok(matcher) ==> matcher@ == with_files(repo_root@, files@),
            r matches Err(err) ==> file_error(files@[good_len(files@) as int], err),
    {
        let mut matcher = GitAttributesMatcher::empty();
        let ghost all = files@;
        assert(all.take(0) =~= Seq::<AttributesFile>::empty());
        for file in it: files
            invariant
                all == files@,
                it.seq() == all,
                forall|i: int| 0 <= i < all.len() ==> #[trigger] all[i].path@.len() > 0,
                forall|i: int| 0 <= i < it.index() ==> file_is_good(#[trigger] all[i]),
                matcher@ == with_files(repo_root@, all.take(it.index())),
        {
            let ghost i = it.index();
            proof {
                assert(all.take(i + 1).drop_last() =~= all.take(i));
                assert(file == all[i]);
                if !file_is_good(file) {
                    lemma_good_len(all, i);
                }
            }
            match matcher.add_file(repo_root, file) {
                Ok(()) => {},
                Err(err) => {
                    return Err(err);
                },
            }
        }
        proof {
            lemma_good_len(all, all.len() as int);
            assert(all.take(all.len() as int) =~= all);
        }
        Ok(matcher)
    }

    /// What the patterns of each directory above `file` say of it, from the root
    /// directory down. A directory without patterns says nothing, and so does
    /// one below which the file system does not take the file's name.
    pub fn verdicts(&self, file: &RepoPath) -> (r: Vec<GlobVerdict>)
        ensures
            r@.len() == file@.len(),
            forall|k: int|
                0 <= k < file@.len() ==> #[trigger] r@[k] == verdict_at(self@, file@, k),
    {
        let n = file.len();
        let mut r: Vec<GlobVerdict> = Vec::new();
        let mut next: Option<&RepoPathTree<IgnoreWrapper>> = Some(&self.tree);
        proof {
            assert forall|q: Seq<Seq<char>>| #[trigger] self.tree.at(q) == self.tree.at(
                file@.take(0) + q,
            ) by {
                assert(file@.take(0) + q =~= q);
            }
        }
        for k in 0..n
            invariant
                n == file@.len(),
                r@.len() == k,
                next matches Some(node) ==> forall|q: Seq<Seq<char>>| #[trigger]
                    node.at(q) == self.tree.at(file@.take(k as int) + q),
                next is None ==> forall|j: int|
                    k <= j < n ==> self.tree.at(#[trigger] file@.take(j)) is None,
                forall|j: int| 0 <= j < k ==> #[trigger] r@[j] == verdict_at(self@, file@, j),
        {
            match next {
                None => {
                    assert(self.tree.at(file@.take(k as int)) is None);
                    r.push(GlobVerdict::NoMatch);
                },
                Some(node) => {
                    let rules = node.value();
                    let tail = file.skip(k);
                    proof {
                        assert(file@.take(k as int) + Seq::<Seq<char>>::empty() =~= file@.take(
                            k as int,
                        ));
                        assert(self.tree.at(file@.take(k as int)) == Some(*rules));
                    }
                    let verdict = match tail.to_fs_path(rules.path().as_str()) {
                        Some(path) => rules.matched(path.as_str(), false),
                        None => GlobVerdict::NoMatch,
                    };
                    r.push(verdict);
                    let child = node.child(file.component(k));
                    proof {
                        let name = file@[k as int];
                        match child {
                            None => {
                                assert forall|j: int| k + 1 <= j < n implies self.tree.at(
                                    #[trigger] file@.take(j),
                                ) is None by {
                                    let q = file@.subrange(k as int, j);
                                    assert(q[0] == name);
                                    assert(node.at(q) is None);
                                    assert(file@.take(k as int) + q =~= file@.take(j));
                                }
                            },
                            Some(sub) => {
                                assert forall|q: Seq<Seq<char>>| #[trigger]
                                    sub.at(q) == self.tree.at(file@.take(k + 1) + q) by {
                                    let p = seq![name] + q;
                                    assert(p.skip(1) =~= q);
                                    assert(node.at(p) == sub.at(q));
                                    assert(file@.take(k as int) + p =~= file@.take(k + 1) + q);
                                }
                            },
                        }
                    }
                    next = child;
                },
            }
        }
        r
    }
}

/// Whether one of the verdicts on a file is that it is to be matched.
pub fn any_ignored(verdicts: &Vec<GlobVerdict>) -> (r: bool)
    ensures
        r == exists|k: int| 0 <= k < verdicts@.len() && #[trigger] verdicts@[k]
            == GlobVerdict::Ignored,
{
    for k in 0..verdicts.len()
        invariant
            forall|j: int| 0 <= j < k ==> #[trigger] verdicts@[j] != GlobVerdict::Ignored,
    {
        if verdicts[k] == GlobVerdict::Ignored {
            return true;
        }
    }
    false
}

impl Matcher for GitAttributesMatcher {
    fn matches(&self, file: &RepoPath) -> (r: bool)
        ensures
            r == file_matches(self@, file@),
    {
        let verdicts = self.verdicts(file);
        let r = any_ignored(&verdicts);
        proof {
            if r {
                let k = choose|k: int|
                    0 <= k < verdicts@.len() && #[trigger] verdicts@[k] == GlobVerdict::Ignored;
                assert(dir_matches(self@, file@, k));
            }
            if file_matches(self@, file@) {
                let k = choose|k: int|
                    0 <= k < file@.len() && #[trigger] dir_matches(self@, file@, k);
                assert(verdicts@[k] == GlobVerdict::Ignored);
            }
        }
        r
    }

    fn visit(&self, dir: &RepoPath) -> (r: Visit)
        ensures
            r == Visit::Nothing,
    {
        Visit::Nothing
    }
}

/// A file that is not below a directory is matched as before when the patterns
/// of that directory change.
pub proof fn law_patterns_bind_below_only(
    rules: DirRules,
    repo_root: Seq<char>,
    attributes_file: AttributesFile,
    file: Seq<Seq<char>>,
)
    requires
        !(attributes_file.path@.drop_last().is_prefix_of(file)
            && attributes_file.path@.drop_last().len() < file.len()),
    ensures
        file_matches(with_file(rules, repo_root, attributes_file), file) == file_matches(
            rules,
            file,
        ),
{
    let dir = attributes_file.path@.drop_last();
    let after = with_file(rules, repo_root, attributes_file);
    assert forall|k: int| 0 <= k < file.len() implies dir_matches(after, file, k) == dir_matches(
        rules,
        file,
        k,
    ) by {
        assert(file.take(k) != dir) by {
            if file.take(k) == dir {
                assert(dir =~= file.subrange(0, dir.len() as int));
            }
        }
    }
    if file_matches(after, file) {
        let k = choose|k: int| 0 <= k < file.len() && #[trigger] dir_matches(after, file, k);
        assert(dir_matches(rules, file, k));
    }
    if file_matches(rules, file) {
        let k = choose|k: int| 0 <= k < file.len() && #[trigger] dir_matches(rules, file, k);
        assert(dir_matches(after, file, k));
    }
}

/// The order in which the files of two different directories are taken does not
/// matter.
pub proof fn law_order_of_files_does_not_matter(
    rules: DirRules,
    repo_root: Seq<char>,
    one: AttributesFile,
    other: AttributesFile,
)
    requires
        one.path@.drop_last() != other.path@.drop_last(),
    ensures
        with_file(with_file(rules, repo_root, one), repo_root, other) == with_file(
            with_file(rules, repo_root, other),
            repo_root,
            one,
        ),
{
    assert(with_file(with_file(rules, repo_root, one), repo_root, other) =~= with_file(
        with_file(rules, repo_root, other),
        repo_root,
        one,
    ));
}

/// Without `.gitattributes` files no file matches.
pub proof fn law_no_files_match_nothing(repo_root: Seq<char>, file: Seq<Seq<char>>)
    ensures
        !file_matches(with_files(repo_root, Seq::empty()), file),
{
}

/// Whether `attributes_file` itself puts `file` under Git LFS: it was read, the
/// file is below its directory, and its patterns match the rest of the path.
pub open spec fn says_lfs(
    repo_root: Seq<char>,
    attributes_file: AttributesFile,
    file: Seq<Seq<char>>,
) -> bool {
    let dir = attributes_file.path@.drop_last();
    let root = ignore_rules::without_here(location(repo_root, attributes_file.path@));
    let globs = attributes::globs_of(file_lines(attributes_file.state));
    let tail = file.skip(dir.len() as int);
    &&& attributes_file.state !is Absent
    &&& globs.len() > 0
    &&& dir.len() < file.len()
    &&& dir.is_prefix_of(file)
    &&& fs_path::has_fs_names(tail)
    &&& ignore_rules::glob_verdict(root, globs, fs_path::fs_text(root, tail), false)
        == GlobVerdict::Ignored
}

/// Whether no two files stand in one directory.
pub open spec fn one_per_directory(files: Seq<AttributesFile>) -> bool {
    forall|i: int, j: int|
        0 <= i < j < files.len() ==> (#[trigger] files[i]).path@.drop_last() != (
        #[trigger] files[j]).path@.drop_last()
}

/// Different `.gitattributes` files of a tree stand in different directories.
pub proof fn law_one_attributes_file_per_directory(
    dir: Seq<Seq<char>>,
    files: Seq<AttributesFile>,
)
    requires
        forall|i: int|
            0 <= i < files.len() ==> attributes_files::is_attributes_path(
                dir,
                (#[trigger] files[i]).path@,
            ),
        forall|i: int, j: int|
            0 <= i < j < files.len() ==> (#[trigger] files[i]).path@ != (#[trigger] files[j]).path@,
    ensures
        one_per_directory(files),
{
    assert forall|i: int, j: int| 0 <= i < j < files.len() implies (
    #[trigger] files[i]).path@.drop_last() != (#[trigger] files[j]).path@.drop_last() by {
        let one = files[i].path@;
        let other = files[j].path@;
        assert(one =~= one.drop_last().push(one.last()));
        assert(other =~= other.drop_last().push(other.last()));
    }
}

/// The patterns of a directory are those of the file in it.
proof fn lemma_rules_of_directory(
    repo_root: Seq<char>,
    files: Seq<AttributesFile>,
    dir: Seq<Seq<char>>,
)
    requires
        one_per_directory(files),
    ensures
        forall|i: int|
            0 <= i < files.len() && (#[trigger] files[i]).path@.drop_last() == dir ==> {
                let globs = attributes::globs_of(file_lines(files[i].state));
                &&& with_files(repo_root, files).contains_key(dir) <==> files[i].state !is Absent
                    && globs.len() > 0
                &&& with_files(repo_root, files).contains_key(dir) ==> with_files(
                    repo_root,
                    files,
                )[dir] == (ignore_rules::Rules {
                    root: ignore_rules::without_here(location(repo_root, files[i].path@)),
                    globs,
                })
            },
        (forall|i: int|
            0 <= i < files.len() ==> (#[trigger] files[i]).path@.drop_last() != dir)
            ==> !with_files(repo_root, files).contains_key(dir),
    decreases files.len(),
{
    if files.len() > 0 {
        let before = files.drop_last();
        let last = files.last();
        assert(one_per_directory(before));
        lemma_rules_of_directory(repo_root, before, dir);
        if last.path@.drop_last() == dir {
            assert forall|i: int| 0 <= i < before.len() implies (
            #[trigger] before[i]).path@.drop_last() != dir by {
                assert(files[i] == before[i]);
                assert(files[files.len() - 1] == last);
            }
        }
        assert forall|i: int|
            0 <= i < files.len() && (#[trigger] files[i]).path@.drop_last() == dir implies {
            let globs = attributes::globs_of(file_lines(files[i].state));
            &&& with_files(repo_root, files).contains_key(dir) <==> files[i].state !is Absent
                && globs.len() > 0
            &&& with_files(repo_root, files).contains_key(dir) ==> with_files(
                repo_root,
                files,
            )[dir] == (ignore_rules::Rules {
                root: ignore_rules::without_here(location(repo_root, files[i].path@)),
                globs,
            })
        } by {
            if i < before.len() {
                assert(before[i] == files[i]);
                assert(files[files.len() - 1] == last);
            }
        }
        if forall|i: int|
            0 <= i < files.len() ==> (#[trigger] files[i]).path@.drop_last() != dir {
            assert(files[files.len() - 1] == last);
            assert forall|i: int| 0 <= i < before.len() implies (
            #[trigger] before[i]).path@.drop_last() != dir by {
                assert(files[i] == before[i]);
            }
        }
    }
}

/// A file matches if and only if one of the `.gitattributes` files above it puts
/// it under Git LFS.
pub proof fn law_matches_iff_a_file_above_says_so(
    repo_root: Seq<char>,
    files: Seq<AttributesFile>,
    file: Seq<Seq<char>>,
)
    requires
        one_per_directory(files),
    ensures
        file_matches(with_files(repo_root, files), file) <==> exists|i: int|
            0 <= i < files.len() && says_lfs(repo_root, #[trigger] files[i], file),
{
    let rules = with_files(repo_root, files);
    if file_matches(rules, file) {
        let k = choose|k: int| 0 <= k < file.len() && #[trigger] dir_matches(rules, file, k);
        let dir = file.take(k);
        lemma_rules_of_directory(repo_root, files, dir);
        let i = choose|i: int|
            0 <= i < files.len() && (#[trigger] files[i]).path@.drop_last() == dir;
        assert(dir.is_prefix_of(file));
        assert(says_lfs(repo_root, files[i], file));
    }
    if exists|i: int| 0 <= i < files.len() && says_lfs(repo_root, #[trigger] files[i], file) {
        let i = choose|i: int|
            0 <= i < files.len() && says_lfs(repo_root, #[trigger] files[i], file);
        let dir = files[i].path@.drop_last();
        lemma_rules_of_directory(repo_root, files, dir);
        assert(file.take(dir.len() as int) =~= dir);
        assert(dir_matches(rules, file, dir.len() as int));
    }
}

/// Reading a file that is two texts with a line feed between them is reading the
/// first and then, if that went well, the second: the same patterns are taken,
/// and the same error, if any, comes out.
pub proof fn law_reading_goes_on(
    one: Seq<u8>,
    other: Seq<u8>,
    failure: Option<std::io::Error>,
    r: Result<(), GitAttributesMatcherError>,
)
    ensures
        ({
            let complete = failure is None;
            let whole = lines::lines(one.push(lines::line_feed()) + other, complete);
            let first = lines::lines(one, true);
            let second = lines::lines(other, complete);
            if parse_ends(Ok(()), first, None) {
                &&& parse_ends(r, whole, failure) <==> parse_ends(r, second, failure)
                &&& attributes::taken_globs(whole) == attributes::taken_globs(first)
                    + attributes::taken_globs(second)
            } else {
                &&& parse_ends(r, whole, failure) <==> parse_ends(r, first, None)
                &&& attributes::taken_globs(whole) == attributes::taken_globs(first)
            }
        }),
{
    let complete = failure is None;
    let ended = one.push(lines::line_feed());
    lines::lemma_lines_of_sum(one, other, complete);
    attributes::lemma_read_ended(one);
    attributes::lemma_read_sum(lines::lines(ended, true), lines::lines(other, complete));
}

/// Whether a path, as text, starts at the root of the file system.
pub open spec fn is_absolute(path: Seq<char>) -> bool {
    path.len() > 0 && path[0] == '/'
}

/// Whether a directory can be told from paths below it by its text: it does not
/// start with a `./` behind a `./`.
pub open spec fn is_plain_root(path: Seq<char>) -> bool {
    !seq!['.', '/', '.', '/'].is_prefix_of(path) && path != seq!['.', '/', '.']
}

/// Where the repository is decides on the directories of the patterns, and on
/// nothing else that is known of them.
proof fn lemma_rules_elsewhere(
    repo_root: Seq<char>,
    other_root: Seq<char>,
    files: Seq<AttributesFile>,
    dir: Seq<Seq<char>>,
)
    ensures
        with_files(repo_root, files).contains_key(dir) == with_files(
            other_root,
            files,
        ).contains_key(dir),
        with_files(repo_root, files).contains_key(dir) ==> {
            let rules = with_files(repo_root, files)[dir];
            &&& rules.globs == with_files(other_root, files)[dir].globs
            &&& rules.root == ignore_rules::without_here(
                fs_path::joined_path(repo_root, repo_path::internal_dir_string(dir)),
            )
        },
    decreases files.len(),
{
    if files.len() > 0 {
        lemma_rules_elsewhere(repo_root, other_root, files.drop_last(), dir);
    }
}

/// Patterns are matched with the part of a path below their directory.
proof fn lemma_relative_verdict(
    repo_root: Seq<char>,
    dir: Seq<Seq<char>>,
    tail: Seq<Seq<char>>,
    globs: Seq<Seq<char>>,
)
    requires
        is_plain_root(repo_root),
        repo_path::is_path(dir),
        repo_path::is_path(tail),
        tail.len() > 0,
        tail[0] != seq!['.'],
        is_absolute(repo_root) || dir.len() == 0 || dir[0] != seq!['.'],
    ensures
        ({
            let root = ignore_rules::without_here(
                fs_path::joined_path(repo_root, repo_path::internal_dir_string(dir)),
            );
            ignore_rules::glob_verdict(root, globs, fs_path::fs_text(root, tail), false)
                == ignore_rules::last_verdict(globs, repo_path::internal_string(tail), false)
        }),
{
    let below = repo_path::internal_dir_string(dir);
    let place = fs_path::joined_path(repo_root, below);
    let root = ignore_rules::without_here(place);
    let rest = repo_path::internal_string(tail);
    let here = seq!['.', '/'];
    if dir.len() > 0 {
        fs_path::lemma_fs_path_below(seq!['/'], dir);
    }
    fs_path::lemma_fs_path_below(seq!['/'], tail);
    fs_path::law_fs_path_is_the_text_below(root, tail);
    lemma_no_dot_first(tail);
    assert(place.len() > 0 ==> place.last() == '/');
    assert(!here.is_prefix_of(root)) by {
        if here.is_prefix_of(root) {
            assert(root.subrange(0, 2)[0] == '.' && root.subrange(0, 2)[1] == '/');
            if here.is_prefix_of(place) {
                assert(place.subrange(0, 2)[0] == '.' && place.subrange(0, 2)[1] == '/');
                assert(place[2] == root[0] && place[3] == root[1]);
            }
            lemma_plain_place(repo_root, dir);
        }
    }
    assert(root.len() > 0 ==> root.last() == '/');
    let path = fs_path::fs_text(root, tail);
    assert(path =~= root + rest);
    assert(!here.is_prefix_of(path)) by {
        if here.is_prefix_of(path) {
            assert(path.subrange(0, 2)[0] == '.' && path.subrange(0, 2)[1] == '/');
            if root.len() >= 2 {
                assert(root[0] == '.' && root[1] == '/');
                assert(root.subrange(0, 2) =~= here);
            } else if root.len() == 1 {
                assert(root[0] == '/');
                assert(path[0] == root[0]);
            } else {
                assert(rest.subrange(0, 2) =~= here);
            }
        }
    }
    assert(!ignore_rules::is_here(root)) by {
        if ignore_rules::is_here(root) {
            if root.len() == 1 {
                assert(root[0] == '/');
            } else {
                assert(root[1] == '.' || root[1] == '/');
                assert(!(root[1] == '.' && root[0] == '.'));
                assert(root.subrange(0, 2) =~= here);
            }
        }
    }
    assert(root =~= path.subrange(0, root.len() as int));
    assert(path.skip(root.len() as int) =~= rest);
    if root.len() > 0 {
        assert(path[root.len() - 1] == '/');
        assert(path.contains('/'));
    }
}

/// The text of a path whose first name is not `.` does not start with `./`.
proof fn lemma_no_dot_first(path: Seq<Seq<char>>)
    requires
        repo_path::is_path(path),
        path.len() > 0,
        path[0] != seq!['.'],
    ensures
        !seq!['.', '/'].is_prefix_of(repo_path::internal_string(path)),
    decreases path.len(),
{
    let s = repo_path::internal_string(path);
    let here = seq!['.', '/'];
    let name = path[0];
    assert(repo_path::is_name(name));
    if here.is_prefix_of(s) {
        assert(s.subrange(0, 2)[0] == '.' && s.subrange(0, 2)[1] == '/');
        assert(s[0] == '.' && s[1] == '/');
        assert(s[0] == name[0]);
        if name.len() > 1 {
            assert(s[1] == name[1]);
            assert(name.contains(name[1]));
        } else {
            assert(name =~= seq!['.']);
        }
    }
}

/// Below a plain directory no directory starts with a `./` behind a `./`.
proof fn lemma_plain_place(repo_root: Seq<char>, dir: Seq<Seq<char>>)
    requires
        is_plain_root(repo_root),
        repo_path::is_path(dir),
        is_absolute(repo_root) || dir.len() == 0 || dir[0] != seq!['.'],
    ensures
        ({
            let place = fs_path::joined_path(repo_root, repo_path::internal_dir_string(dir));
            !(place.len() >= 4 && place[0] == '.' && place[1] == '/' && place[2] == '.' && place[3]
                == '/')
        }),
{
    let below = repo_path::internal_dir_string(dir);
    let place = fs_path::joined_path(repo_root, below);
    let here = seq!['.', '/'];
    if dir.len() > 0 {
        fs_path::lemma_fs_path_below(seq!['/'], dir);
        if dir[0] != seq!['.'] {
            lemma_no_dot_first(dir);
            assert(!(below[0] == '.' && below[1] == '/')) by {
                if below[0] == '.' && below[1] == '/' {
                    if repo_path::internal_string(dir).len() == 1 {
                        lemma_single_dot(dir);
                    } else {
                        assert(repo_path::internal_string(dir).subrange(0, 2) =~= here);
                    }
                }
            }
        }
    }
    if place.len() >= 4 && place[0] == '.' && place[1] == '/' && place[2] == '.' && place[3] == '/' {
        if repo_root.len() >= 4 {
            assert(repo_root.subrange(0, 4) =~= seq!['.', '/', '.', '/']);
        } else if repo_root.len() == 3 {
            assert(repo_root =~= seq!['.', '/', '.']);
        } else if repo_root.len() == 2 {
            assert(place =~= repo_root + below);
        } else if repo_root.len() == 1 {
            assert(place =~= repo_root + seq!['/'] + below);
        } else {
            assert(place =~= below);
        }
    }
}

/// Only the path of a single `.` has it as its text.
proof fn lemma_single_dot(path: Seq<Seq<char>>)
    requires
        repo_path::is_path(path),
        path.len() > 0,
        repo_path::internal_string(path).len() == 1,
        repo_path::internal_string(path)[0] == '.',
    ensures
        path[0] == seq!['.'],
{
    let dot = seq![seq!['.']];
    assert(repo_path::internal_string(path) =~= seq!['.']);
    assert(repo_path::internal_string(dot) =~= seq!['.']);
    repo_path::law_text_form_determines_path(path, dot);
}

/// Where the repository is does not matter to which files match.
pub proof fn law_place_of_repository_does_not_matter(
    repo_root: Seq<char>,
    other_root: Seq<char>,
    files: Seq<AttributesFile>,
    file: Seq<Seq<char>>,
)
    requires
        is_plain_root(repo_root),
        is_plain_root(other_root),
        repo_path::is_path(file),
        (is_absolute(repo_root) && is_absolute(other_root)) || file.len() == 0 || file[0] != seq![
            '.',
        ],
    ensures
        file_matches(with_files(repo_root, files), file) == file_matches(
            with_files(other_root, files),
            file,
        ),
{
    let rules = with_files(repo_root, files);
    let other_rules = with_files(other_root, files);
    assert forall|k: int| 0 <= k < file.len() implies dir_matches(rules, file, k) == dir_matches(
        other_rules,
        file,
        k,
    ) by {
        let dir = file.take(k);
        let tail = file.skip(k);
        assert(repo_path::is_path(dir));
        assert(repo_path::is_path(tail));
        lemma_rules_elsewhere(repo_root, other_root, files, dir);
        lemma_rules_elsewhere(other_root, repo_root, files, dir);
        if rules.contains_key(dir) && fs_path::has_fs_names(tail) {
            assert(fs_path::is_fs_name(tail[0]));
            lemma_relative_verdict(repo_root, dir, tail, rules[dir].globs);
            lemma_relative_verdict(other_root, dir, tail, rules[dir].globs);
        }
    }
    if file_matches(rules, file) {
        let k = choose|k: int| 0 <= k < file.len() && #[trigger] dir_matches(rules, file, k);
        assert(dir_matches(other_rules, file, k));
    }
    if file_matches(other_rules, file) {
        let k = choose|k: int| 0 <= k < file.len() && #[trigger] dir_matches(other_rules, file, k);
        assert(dir_matches(rules, file, k));
    }
}

/// Whether `more` is the file `fewer` with further lines, in any place.
pub open spec fn has_lines_of(more: AttributesFile, fewer: AttributesFile) -> bool {
    &&& more.path@ == fewer.path@
    &&& forall|line: Seq<u8>| #[trigger]
        file_lines(fewer.state).contains(line) ==> file_lines(more.state).contains(line)
}

/// A file that puts `file` under Git LFS still does so with further lines.
proof fn lemma_more_lines_say_lfs(
    repo_root: Seq<char>,
    fewer: AttributesFile,
    more: AttributesFile,
    file: Seq<Seq<char>>,
)
    requires
        has_lines_of(more, fewer),
        says_lfs(repo_root, fewer, file),
    ensures
        says_lfs(repo_root, more, file),
{
    let root = ignore_rules::without_here(location(repo_root, fewer.path@));
    let tail = file.skip(fewer.path@.drop_last().len() as int);
    let path = ignore_rules::relative_path(root, fs_path::fs_text(root, tail));
    let fewer_lines = file_lines(fewer.state);
    let more_lines = file_lines(more.state);
    let fewer_globs = attributes::globs_of(fewer_lines);
    let more_globs = attributes::globs_of(more_lines);
    assert forall|i: int| 0 <= i < fewer_globs.len() implies (#[trigger] fewer_globs[i])[0]
        != '!' by {
        let j = attributes::lemma_globs_come_from_lines(fewer_lines, i);
    }
    assert forall|i: int| 0 <= i < more_globs.len() implies (#[trigger] more_globs[i])[0]
        != '!' by {
        let j = attributes::lemma_globs_come_from_lines(more_lines, i);
    }
    ignore_rules::lemma_any_hit(fewer_globs, path, false);
    ignore_rules::lemma_any_hit(more_globs, path, false);
    let i = choose|i: int|
        0 <= i < fewer_globs.len() && ignore_rules::glob_hits(
            #[trigger] fewer_globs[i],
            path,
            false,
        );
    let j = attributes::lemma_globs_come_from_lines(fewer_lines, i);
    let line = fewer_lines[j];
    assert(fewer_lines.contains(line));
    assert(more_lines.contains(line));
    let k = attributes::lemma_lines_give_globs(more_lines, more_lines.index_of(line));
    assert(ignore_rules::glob_hits(more_globs[k], path, false));
}

/// More files and more lines never take a match away: if every file that was
/// read is still there, with at least the lines that it had, then whatever
/// matched still does.
pub proof fn law_more_lines_match_more(
    repo_root: Seq<char>,
    fewer: Seq<AttributesFile>,
    more: Seq<AttributesFile>,
    file: Seq<Seq<char>>,
)
    requires
        one_per_directory(fewer),
        one_per_directory(more),
        forall|i: int|
            0 <= i < fewer.len() && (#[trigger] fewer[i]).state !is Absent ==> exists|j: int|
                0 <= j < more.len() && has_lines_of(#[trigger] more[j], fewer[i]),
    ensures
        file_matches(with_files(repo_root, fewer), file) ==> file_matches(
            with_files(repo_root, more),
            file,
        ),
{
    law_matches_iff_a_file_above_says_so(repo_root, fewer, file);
    law_matches_iff_a_file_above_says_so(repo_root, more, file);
    if file_matches(with_files(repo_root, fewer), file) {
        let i = choose|i: int|
            0 <= i < fewer.len() && says_lfs(repo_root, #[trigger] fewer[i], file);
        let j = choose|j: int|
            0 <= j < more.len() && has_lines_of(#[trigger] more[j], fewer[i]);
        lemma_more_lines_say_lfs(repo_root, fewer[i], more[j], file);
    }
}

/// Whether a line of a file asks for a pattern that matches `path`, taken
/// relative to the file's directory.
pub open spec fn some_line_hits(lines: Seq<Seq<u8>>, path: Seq<char>) -> bool {
    exists|j: int|
        0 <= j < lines.len() && (attributes::line_glob(#[trigger] lines[j]) matches Some(glob)
            && ignore_rules::glob_hits(glob, path, false))
}

/// Of the patterns that lines add, one matches if and only if a line hits.
proof fn lemma_some_line_hits(lines: Seq<Seq<u8>>, path: Seq<char>)
    ensures
        some_line_hits(lines, path) <==> ignore_rules::last_verdict(
            attributes::globs_of(lines),
            path,
            false,
        ) == GlobVerdict::Ignored,
        some_line_hits(lines, path) ==> attributes::globs_of(lines).len() > 0,
{
    let globs = attributes::globs_of(lines);
    assert forall|i: int| 0 <= i < globs.len() implies (#[trigger] globs[i])[0] != '!' by {
        let j = attributes::lemma_globs_come_from_lines(lines, i);
    }
    ignore_rules::lemma_any_hit(globs, path, false);
    if some_line_hits(lines, path) {
        let j = choose|j: int|
            0 <= j < lines.len() && (attributes::line_glob(#[trigger] lines[j]) matches Some(glob)
                && ignore_rules::glob_hits(glob, path, false));
        let i = attributes::lemma_lines_give_globs(lines, j);
        assert(ignore_rules::glob_hits(globs[i], path, false));
    }
    if exists|i: int|
        0 <= i < globs.len() && ignore_rules::glob_hits(#[trigger] globs[i], path, false) {
        let i = choose|i: int|
            0 <= i < globs.len() && ignore_rules::glob_hits(#[trigger] globs[i], path, false);
        let j = attributes::lemma_globs_come_from_lines(lines, i);
        assert(attributes::line_glob(lines[j]) == Some(globs[i]));
    }
}

/// When a single file puts `file` under Git LFS.
proof fn lemma_says_lfs(repo_root: Seq<char>, attributes_file: AttributesFile, file: Seq<Seq<char>>)
    requires
        is_plain_root(repo_root),
        repo_path::is_path(file),
        is_absolute(repo_root) || file.len() == 0 || file[0] != seq!['.'],
    ensures
        says_lfs(repo_root, attributes_file, file) <==> ({
            let dir = attributes_file.path@.drop_last();
            let tail = file.skip(dir.len() as int);
            &&& dir.len() < file.len()
            &&& file.take(dir.len() as int) == dir
            &&& forall|k: int|
                0 <= k < tail.len() ==> #[trigger] tail[k] != seq!['.'] && tail[k] != seq!['.', '.']
            &&& match attributes_file.state {
                FileState::Absent => false,
                FileState::Read(contents) => some_line_hits(
                    lines::lines(contents@, true),
                    repo_path::internal_string(tail),
                ),
                FileState::Failed { before, error } => some_line_hits(
                    lines::lines(before@, false),
                    repo_path::internal_string(tail),
                ),
            }
        }),
{
    let dir = attributes_file.path@.drop_last();
    let tail = file.skip(dir.len() as int);
    let all = file_lines(attributes_file.state);
    if dir.len() < file.len() {
        assert(dir.is_prefix_of(file) <==> file.take(dir.len() as int) == dir);
        assert(repo_path::is_path(tail));
        fs_path::law_only_dots_have_no_fs_path(tail);
        if dir.is_prefix_of(file) && fs_path::has_fs_names(tail) {
            assert(repo_path::is_path(dir)) by {
                assert forall|k: int| 0 <= k < dir.len() implies repo_path::is_name(
                    #[trigger] dir[k],
                ) by {
                    assert(file.take(dir.len() as int)[k] == file[k]);
                }
            }
            if dir.len() > 0 {
                assert(file.take(dir.len() as int)[0] == file[0]);
            }
            assert(fs_path::is_fs_name(tail[0]));
            lemma_relative_verdict(repo_root, dir, tail, attributes::globs_of(all));
            lemma_some_line_hits(all, repo_path::internal_string(tail));
        }
    }
}

/// A file matches if and only if a line of a `.gitattributes` file in a
/// directory above it asks for a pattern that matches the rest of its path, none
/// of whose names is `.` or `..`.
pub proof fn law_a_file_matches_iff_a_line_above_hits(
    repo_root: Seq<char>,
    files: Seq<AttributesFile>,
    file: Seq<Seq<char>>,
)
    requires
        one_per_directory(files),
        is_plain_root(repo_root),
        repo_path::is_path(file),
        is_absolute(repo_root) || file.len() == 0 || file[0] != seq!['.'],
    ensures
        file_matches(with_files(repo_root, files), file) <==> exists|i: int|
            0 <= i < files.len() && ({
                let dir = (#[trigger] files[i]).path@.drop_last();
                let tail = file.skip(dir.len() as int);
                &&& dir.len() < file.len()
                &&& file.take(dir.len() as int) == dir
                &&& forall|k: int|
                    0 <= k < tail.len() ==> #[trigger] tail[k] != seq!['.'] && tail[k] != seq![
                        '.',
                        '.',
                    ]
                &&& match files[i].state {
                    FileState::Absent => false,
                    FileState::Read(contents) => some_line_hits(
                        lines::lines(contents@, true),
                        repo_path::internal_string(tail),
                    ),
                    FileState::Failed { before, error } => some_line_hits(
                        lines::lines(before@, false),
                        repo_path::internal_string(tail),
                    ),
                }
            }),
{
    law_matches_iff_a_file_above_says_so(repo_root, files, file);
    assert forall|i: int| 0 <= i < files.len() implies (says_lfs(
        repo_root,
        #[trigger] files[i],
        file,
    ) <==> ({
        let dir = files[i].path@.drop_last();
        let tail = file.skip(dir.len() as int);
        &&& dir.len() < file.len()
        &&& file.take(dir.len() as int) == dir
        &&& forall|k: int|
            0 <= k < tail.len() ==> #[trigger] tail[k] != seq!['.'] && tail[k] != seq!['.', '.']
        &&& match files[i].state {
            FileState::Absent => false,
            FileState::Read(contents) => some_line_hits(
                lines::lines(contents@, true),
                repo_path::internal_string(tail),
            ),
            FileState::Failed { before, error } => some_line_hits(
                lines::lines(before@, false),
                repo_path::internal_string(tail),
            ),
        }
    })) by {
        lemma_says_lfs(repo_root, files[i], file);
    }
}

/// What reading a single line comes to. Bytes that are not text are a failure to
/// read; a line that asks for nothing is passed over; a negative one is refused;
/// and the pattern of any other line is added if it can be parsed, and its error
/// handed on if not. What comes before a failure and is no whole line is not
/// looked at.
pub proof fn law_reading_one_line(
    line: Seq<u8>,
    failure: std::io::Error,
    r: Result<(), GitAttributesMatcherError>,
)
    requires
        !line.contains(0x0a),
    ensures
        ({
            let all = lines::lines(line, true);
            let words = text::words(vstd::utf8::decode_utf8(line));
            let lfs = exists|i: int| 1 <= i < words.len() && #[trigger] words[i] == "filter=lfs"@;
            let pattern = text::replaced(words[0], "[[:space:]]"@, seq![' ']);
            let glob = ignore_rules::glob_text(pattern);
            if !vstd::utf8::valid_utf8(line) {
                &&& parse_ends(r, all, None) <==> r == Err::<(), _>(
                    GitAttributesMatcherError::ReadError(
                        lines::invalid_data_error("stream did not contain valid UTF-8"@),
                    ),
                )
                &&& attributes::taken_globs(all) == Seq::<Seq<char>>::empty()
            } else if words.len() == 0 || words[0][0] == '#' || !lfs {
                &&& parse_ends(r, all, None) <==> r is Ok
                &&& attributes::taken_globs(all) == Seq::<Seq<char>>::empty()
            } else if words[0][0] == '!' {
                &&& parse_ends(r, all, None) <==> (r matches Err(
                    GitAttributesMatcherError::InvalidPattern(why),
                ) && why@ == "negative patterns are not allowed in .gitattributes files"@)
                &&& attributes::taken_globs(all) == Seq::<Seq<char>>::empty()
            } else if words[0].last() == '/' || glob.len() == 0 {
                &&& parse_ends(r, all, None) <==> r is Ok
                &&& attributes::taken_globs(all) == Seq::<Seq<char>>::empty()
            } else if ignore_rules::glob_parses(glob) {
                &&& parse_ends(r, all, None) <==> r is Ok
                &&& attributes::taken_globs(all) == seq![glob]
            } else {
                &&& parse_ends(r, all, None) <==> r == Err::<(), _>(
                    GitAttributesMatcherError::GitIgnoreError(ignore_rules::glob_error(glob)),
                )
                &&& attributes::taken_globs(all) == Seq::<Seq<char>>::empty()
            }
        }),
        parse_ends(r, lines::lines(line, false), Some(failure)) <==> r == Err::<(), _>(
            GitAttributesMatcherError::ReadError(failure),
        ),
        attributes::taken_globs(lines::lines(line, false)) == Seq::<Seq<char>>::empty(),
{
    let all = lines::lines(line, true);
    let none = Seq::<Seq<u8>>::empty();
    lines::law_line_feeds_end_lines(line, Seq::empty(), true);
    lines::law_line_feeds_end_lines(line, Seq::empty(), false);
    assert(none.take(0) =~= none);
    assert(attributes::globs_of(none) =~= Seq::<Seq<char>>::empty());
    if line.len() == 0 {
        assert(line =~= Seq::<u8>::empty());
        assert(text::words(vstd::utf8::decode_utf8(line)).len() == 0);
    } else {
        let text = vstd::utf8::decode_utf8(line);
        assert(all[0] == line);
        assert(all.skip(1) =~= none);
        assert(all.take(0) =~= none);
        assert(all.take(1) =~= all);
        assert(all.drop_last() =~= none);
        attributes::law_line_adds_its_pattern(line);
        attributes::law_which_lines_count(text);
        if attributes::kind_of_text(text) is Pattern {
            attributes::law_patterns_are_plain(text);
            ignore_rules::lemma_trimmed_start(attributes::kind_of_text(text)->Pattern_0);
        }
        let kind = attributes::kind_of_line(line);
        attributes::lemma_clean_len(
            all,
            if attributes::is_bad(kind) {
                0
            } else {
                1
            },
        );
        assert(attributes::taken_globs(all) =~= if attributes::is_bad(kind) {
            Seq::empty()
        } else {
            match attributes::line_glob(line) {
                Some(glob) => seq![glob],
                None => Seq::empty(),
            }
        });
    }
}

/// A matcher comes of files if and only if each is absent, or was read whole,
/// reads well and has patterns that compile; otherwise the first one that does
/// not decides.
pub proof fn law_every_file_must_be_good(files: Seq<AttributesFile>)
    ensures
        good_len(files) == files.len() <==> forall|i: int|
            0 <= i < files.len() ==> match (#[trigger] files[i]).state {
                FileState::Absent => true,
                FileState::Read(contents) => {
                    let all = lines::lines(contents@, true);
                    &&& parse_ends(Ok(()), all, None)
                    &&& attributes::taken_globs(all).len() == 0 || ignore_rules::globs_compile(
                        attributes::taken_globs(all),
                    )
                },
                FileState::Failed { before, error } => false,
            },
        good_len(files) <= files.len(),
        good_len(files) < files.len() ==> {
            &&& good_len(files.take(good_len(files) as int)) == good_len(files)
            &&& good_len(seq![files[good_len(files) as int]]) == 0
        },
{
    assert forall|i: int| 0 <= i < files.len() implies file_is_good(#[trigger] files[i]) == match (
    files[i]).state {
        FileState::Absent => true,
        FileState::Read(contents) => {
            let all = lines::lines(contents@, true);
            &&& parse_ends(Ok(()), all, None)
            &&& attributes::taken_globs(all).len() == 0 || ignore_rules::globs_compile(
                attributes::taken_globs(all),
            )
        },
        FileState::Failed { before, error } => false,
    } by {
        let all = file_lines(files[i].state);
        assert(all.take(all.len() as int) =~= all);
    }
    lemma_good_files(files);
    let n = good_len(files) as int;
    if n < files.len() {
        let before = files.take(n);
        assert forall|i: int| 0 <= i < n implies file_is_good(#[trigger] before[i]) by {
            assert(before[i] == files[i]);
        }
        lemma_good_len(before, n);
    } else {
        assert forall|i: int| 0 <= i < files.len() implies file_is_good(#[trigger] files[i]) by {}
    }
    if forall|i: int| 0 <= i < files.len() ==> file_is_good(#[trigger] files[i]) {
        lemma_good_len(files, files.len() as int);
    }
}

proof fn lemma_good_files(files: Seq<AttributesFile>)
    ensures
        good_len(files) <= files.len(),
        forall|i: int| 0 <= i < good_len(files) ==> file_is_good(#[trigger] files[i]),
        good_len(files) < files.len() ==> !file_is_good(files[good_len(files) as int]),
    decreases files.len(),
{
    if files.len() > 0 && file_is_good(files[0]) {
        let rest = files.skip(1);
        lemma_good_files(rest);
        assert forall|i: int| 0 <= i < good_len(files) implies file_is_good(
            #[trigger] files[i],
        ) by {
            if i > 0 {
                assert(rest[i - 1] == files[i]);
            }
        }
    }
}

/// The error of a file that cannot be taken is that of reading it, if it does
/// not read well, and otherwise one that its patterns give when compiled.
pub proof fn law_which_error_a_file_gives(
    path: RepoPath,
    contents: Vec<u8>,
    failure: std::io::Error,
    err: GitAttributesMatcherError,
)
    ensures
        ({
            let all = lines::lines(contents@, true);
            let file = AttributesFile { path, state: FileState::Read(contents) };
            file_error(file, err) <==> if parse_ends(Ok(()), all, None) {
                err matches GitAttributesMatcherError::GitIgnoreError(why)
                    && ignore_rules::is_build_error(attributes::taken_globs(all), why)
            } else {
                parse_ends(Err(err), all, None)
            }
        }),
        ({
            let file = AttributesFile {
                path,
                state: FileState::Failed { before: contents, error: failure },
            };
            file_error(file, err) <==> parse_ends(
                Err(err),
                lines::lines(contents@, false),
                Some(failure),
            )
        }),
{
    let all = lines::lines(contents@, true);
    assert(all.take(all.len() as int) =~= all);
}

/// Of two files of one directory the later one counts, if it is there; a file
/// that is absent leaves everything as it is.
pub proof fn law_last_file_of_a_directory_counts(
    rules: DirRules,
    repo_root: Seq<char>,
    one: AttributesFile,
    other: AttributesFile,
)
    requires
        one.path@.drop_last() == other.path@.drop_last(),
    ensures
        other.state !is Absent ==> with_file(with_file(rules, repo_root, one), repo_root, other)
            == with_file(rules, repo_root, other),
        other.state is Absent ==> with_file(rules, repo_root, other) == rules,
{
    assert(other.state !is Absent ==> with_file(
        with_file(rules, repo_root, one),
        repo_root,
        other,
    ) =~= with_file(rules, repo_root, other));
}

} // verus!
