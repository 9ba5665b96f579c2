use std::io::BufRead;

use jj_commands::attributes::{parse_line, LineRule};
use jj_commands::attributes_files::attributes_paths;
use jj_commands::custom_matchers::{
    any_ignored, parse_gitattributes, AttributesFile, FileState, GitAttributesMatcher,
    GitAttributesMatcherError, Matcher, Visit,
};
use jj_commands::ignore_rules::{GlobVerdict, PatternBuilder};
use jj_commands::lines::split_lines;
use jj_commands::repo_path::RepoPath;

fn path(s: &str) -> RepoPath {
    RepoPath::from_internal_string(s).unwrap()
}

fn read(p: &str, contents: &str) -> AttributesFile {
    AttributesFile { path: path(p), state: FileState::Read(contents.as_bytes().to_vec()) }
}

fn matcher(files: Vec<AttributesFile>) -> GitAttributesMatcher {
    GitAttributesMatcher::new(files, "/repo").unwrap()
}

fn io_error() -> std::io::Error {
    std::io::Error::new(std::io::ErrorKind::Other, "disk on fire")
}

#[test]
fn lines_end_at_line_feeds() {
    let split = |s: &str, complete: bool| -> Vec<String> {
        split_lines(&s.as_bytes().to_vec(), complete)
            .into_iter()
            .map(|l| String::from_utf8(l).unwrap())
            .collect()
    };
    assert_eq!(split("", true), Vec::<String>::new());
    assert_eq!(split("a\nb\r\nc", true), ["a", "b", "c"]);
    assert_eq!(split("a\nb\r\nc", false), ["a", "b"]);
    assert_eq!(split("\n\n", true), ["", ""]);
    assert_eq!(split("a\r", true), ["a\r"]);
    assert_eq!(split("a\r\r\n", true), ["a\r"]);
}

#[test]
fn lines_split_like_std_does() {
    for s in ["", "x", "x\n", "x\r\n\r\ny", "\n", "a\n\nb\n", "a\rb\n"] {
        let expected: Vec<String> = s.as_bytes().lines().map(|l| l.unwrap()).collect();
        let got: Vec<String> = split_lines(&s.as_bytes().to_vec(), true)
            .into_iter()
            .map(|l| String::from_utf8(l).unwrap())
            .collect();
        assert_eq!(got, expected, "{:?}", s);
    }
}

#[test]
fn lines_are_classified() {
    let pattern = |s: &str| LineRule::Pattern(s.to_string());
    assert_eq!(parse_line(""), LineRule::Skip);
    assert_eq!(parse_line("   \t "), LineRule::Skip);
    assert_eq!(parse_line("# *.bin filter=lfs"), LineRule::Skip);
    assert_eq!(parse_line("  #x filter=lfs"), LineRule::Skip);
    assert_eq!(parse_line("*.bin"), LineRule::Skip);
    assert_eq!(parse_line("*.bin filter=other -text"), LineRule::Skip);
    assert_eq!(parse_line("filter=lfs"), LineRule::Skip);
    assert_eq!(parse_line("*.bin filter=lfs2"), LineRule::Skip);
    assert_eq!(parse_line("*.bin xfilter=lfs"), LineRule::Skip);
    assert_eq!(parse_line("*.bin filter=lfs"), pattern("*.bin"));
    assert_eq!(parse_line("  *.bin\tdiff=lfs filter=lfs -text"), pattern("*.bin"));
    assert_eq!(parse_line("filter=lfs filter=lfs"), pattern("filter=lfs"));
    assert_eq!(parse_line("!*.bin filter=lfs"), LineRule::Negative);
    assert_eq!(parse_line("!*.bin"), LineRule::Skip);
    assert_eq!(parse_line("dir/ filter=lfs"), LineRule::Skip);
    assert_eq!(parse_line("!dir/ filter=lfs"), LineRule::Negative);
    assert_eq!(parse_line("a[[:space:]]b filter=lfs"), pattern("a b"));
}

#[test]
fn only_attributes_files_below_the_tree_are_selected() {
    let paths = vec![
        path(".gitattributes"),
        path("a/.gitattributes"),
        path("a/b/.gitattributes"),
        path("a/x.gitattributes"),
        path("a/.gitattributes/c"),
        path("ab/.gitattributes"),
        path("a/.gitattributes2"),
    ];
    assert_eq!(
        attributes_paths(&RepoPath::root(), &paths),
        [
            path(".gitattributes"),
            path("a/.gitattributes"),
            path("a/b/.gitattributes"),
            path("ab/.gitattributes")
        ]
    );
    assert_eq!(
        attributes_paths(&path("a"), &paths),
        [path("a/.gitattributes"), path("a/b/.gitattributes")]
    );
    assert_eq!(attributes_paths(&path("zzz"), &paths), []);
}

#[test]
fn patterns_hold_no_white_space_but_spaces() {
    let rule = parse_line("\u{2003}a[[:space:]]b[[:space:]][[:space:]]c\tfilter=lfs\u{a0}");
    assert_eq!(rule, LineRule::Pattern("a b  c".to_string()));
    assert_eq!(
        parse_line("[[:sp[[:space:]]ace:]] filter=lfs"),
        LineRule::Pattern("[[:sp ace:]]".to_string())
    );
}

#[test]
fn each_directory_has_one_attributes_file() {
    let paths = vec![
        path(".gitattributes"),
        path("a/.gitattributes"),
        path("a/b"),
        path("a/c/.gitattributes"),
    ];
    let dirs: Vec<RepoPath> = attributes_paths(&RepoPath::root(), &paths)
        .iter()
        .map(|p| p.parent().unwrap())
        .collect();
    assert_eq!(dirs, [RepoPath::root(), path("a"), path("a/c")]);
}

#[test]
fn lfs_files_match() {
    let m = matcher(vec![read(
        ".gitattributes",
        "*.bin filter=lfs diff=lfs merge=lfs -text\n*.txt text\n/top.dat filter=lfs\n",
    )]);
    assert!(m.matches(&path("a.bin")));
    assert!(m.matches(&path("deep/down/a.bin")));
    assert!(m.matches(&path("top.dat")));
    assert!(!m.matches(&path("deep/top.dat")));
    assert!(!m.matches(&path("a.txt")));
    assert!(!m.matches(&path("a.binary")));
    assert!(!m.matches(&RepoPath::root()));
}

#[test]
fn patterns_bind_only_below_their_directory() {
    let m = matcher(vec![
        read("a/.gitattributes", "*.bin filter=lfs\n"),
        read("b/c/.gitattributes", "/x filter=lfs\n"),
    ]);
    assert!(m.matches(&path("a/f.bin")));
    assert!(m.matches(&path("a/z/f.bin")));
    assert!(!m.matches(&path("f.bin")));
    assert!(!m.matches(&path("ab/f.bin")));
    assert!(!m.matches(&path("b/f.bin")));
    assert!(m.matches(&path("b/c/x")));
    assert!(!m.matches(&path("b/c/d/x")));
    assert!(!m.matches(&path("b/x")));
    assert!(!m.matches(&path("x")));
}

#[test]
fn any_directory_above_can_match() {
    let m = matcher(vec![
        read(".gitattributes", "*.bin filter=lfs\n"),
        read("a/.gitattributes", "*.dat filter=lfs\n"),
    ]);
    assert!(m.matches(&path("a/f.bin")));
    assert!(m.matches(&path("a/f.dat")));
    assert!(!m.matches(&path("f.dat")));
    assert_eq!(
        m.verdicts(&path("a/f.dat")),
        [GlobVerdict::NoMatch, GlobVerdict::Ignored]
    );
    assert_eq!(
        m.verdicts(&path("q/r/f.bin")),
        [GlobVerdict::Ignored, GlobVerdict::NoMatch, GlobVerdict::NoMatch]
    );
}

#[test]
fn order_of_files_does_not_matter() {
    let one = || read(".gitattributes", "*.bin filter=lfs\n");
    let two = || read("a/.gitattributes", "*.dat filter=lfs\n");
    let m = matcher(vec![one(), two()]);
    let n = matcher(vec![two(), one()]);
    for f in ["a/f.bin", "a/f.dat", "f.dat", "f.bin", "a/b/c.dat", "x"] {
        assert_eq!(m.matches(&path(f)), n.matches(&path(f)), "{}", f);
    }
}

#[test]
fn a_later_file_of_a_directory_replaces_the_earlier() {
    let m = matcher(vec![
        read("a/.gitattributes", "*.bin filter=lfs\n"),
        read("a/.gitattributes", "*.dat filter=lfs\n"),
    ]);
    assert!(!m.matches(&path("a/f.bin")));
    assert!(m.matches(&path("a/f.dat")));
    let m = matcher(vec![
        read("a/.gitattributes", "*.bin filter=lfs\n"),
        read("a/.gitattributes", "\n"),
    ]);
    assert!(!m.matches(&path("a/f.bin")));
}

#[test]
fn spaces_in_patterns() {
    let m = matcher(vec![read(".gitattributes", "my[[:space:]]file.bin filter=lfs\n")]);
    assert!(m.matches(&path("my file.bin")));
    assert!(!m.matches(&path("my_file.bin")));
    // A pattern that is nothing but a space holds no glob at all.
    let m = matcher(vec![read(".gitattributes", "[[:space:]] filter=lfs\n")]);
    assert!(!m.matches(&path(" ")));
}

#[test]
fn names_that_the_file_system_refuses_do_not_match() {
    let m = matcher(vec![read(".gitattributes", "* filter=lfs\n")]);
    assert!(m.matches(&path("a/b")));
    assert!(!m.matches(&path("../b")));
    assert!(!m.matches(&path("a/./b")));
    assert_eq!(m.verdicts(&path("../b"))[0], GlobVerdict::NoMatch);
}

#[test]
fn an_absent_file_is_passed_over() {
    let m = matcher(vec![
        AttributesFile { path: path(".gitattributes"), state: FileState::Absent },
        read("a/.gitattributes", "*.bin filter=lfs\n"),
    ]);
    assert!(!m.matches(&path("f.bin")));
    assert!(m.matches(&path("a/f.bin")));
}

#[test]
fn no_files_match_nothing() {
    let m = matcher(vec![]);
    for f in ["a", "a/b.bin", ".gitattributes"] {
        assert!(!m.matches(&path(f)));
    }
    assert!(!GitAttributesMatcher::empty().matches(&path("a")));
}

#[test]
fn visit_asks_for_nothing() {
    let m = matcher(vec![read(".gitattributes", "*.bin filter=lfs\n")]);
    assert_eq!(m.visit(&RepoPath::root()), Visit::Nothing);
    assert_eq!(m.visit(&path("a")), Visit::Nothing);
}

#[test]
fn a_copy_matches_the_same_files() {
    let m = matcher(vec![read("a/.gitattributes", "*.bin filter=lfs\n")]);
    let n = m.clone();
    drop(m);
    assert!(n.matches(&path("a/f.bin")));
    assert!(!n.matches(&path("f.bin")));
}

#[test]
fn a_relative_root_works_too() {
    for root in ["", ".", "./", "repo", "./repo", "/repo/"] {
        let m = GitAttributesMatcher::new(
            vec![
                read(".gitattributes", "/top filter=lfs\n*.bin filter=lfs\n"),
                read("sub/.gitattributes", "/x filter=lfs\n"),
            ],
            root,
        )
        .unwrap();
        assert!(m.matches(&path("top")), "{:?}", root);
        assert!(m.matches(&path("a/b.bin")), "{:?}", root);
        assert!(m.matches(&path("sub/x")), "{:?}", root);
        assert!(!m.matches(&path("sub/top")), "{:?}", root);
    }
}

#[test]
fn negative_patterns_are_an_error() {
    let err = GitAttributesMatcher::new(
        vec![read(".gitattributes", "*.bin filter=lfs\n!a.bin filter=lfs\n")],
        "/repo",
    )
    .unwrap_err();
    match &err {
        GitAttributesMatcherError::InvalidPattern(why) => {
            assert_eq!(why, "negative patterns are not allowed in .gitattributes files")
        }
        other => panic!("{:?}", other),
    }
    assert_eq!(
        err.message(),
        "invalid pattern in .gitattributes: negative patterns are not allowed in .gitattributes files"
    );
}

#[test]
fn a_pattern_that_does_not_parse_is_an_error() {
    let err = GitAttributesMatcher::new(vec![read(".gitattributes", "a{b filter=lfs\n")], "/repo")
        .unwrap_err();
    assert!(matches!(err, GitAttributesMatcherError::GitIgnoreError(_)));
    assert_eq!(err.message(), "failed to parse .gitattributes file");
    let err = GitAttributesMatcher::new(vec![read(".gitattributes", "a[z-a] filter=lfs\n")], "/repo")
        .unwrap_err();
    assert!(matches!(err, GitAttributesMatcherError::GitIgnoreError(_)));
}

#[test]
fn bytes_that_are_not_text_are_a_read_error() {
    let file = AttributesFile {
        path: path(".gitattributes"),
        state: FileState::Read(b"*.bin filter=lfs\n\xff\xfe\n".to_vec()),
    };
    let err = GitAttributesMatcher::new(vec![file], "/repo").unwrap_err();
    match &err {
        GitAttributesMatcherError::ReadError(e) => {
            assert_eq!(e.kind(), std::io::ErrorKind::InvalidData);
            assert_eq!(e.to_string(), "stream did not contain valid UTF-8");
        }
        other => panic!("{:?}", other),
    }
    assert_eq!(err.message(), "failed to read .gitattributes file");
}

#[test]
fn a_failure_to_read_is_handed_on() {
    let file = AttributesFile {
        path: path(".gitattributes"),
        state: FileState::Failed {
            before: b"*.bin filter=lfs\n!half a li".to_vec(),
            error: io_error(),
        },
    };
    let err = GitAttributesMatcher::new(vec![file], "/repo").unwrap_err();
    match err {
        GitAttributesMatcherError::ReadError(e) => assert_eq!(e.to_string(), "disk on fire"),
        other => panic!("{:?}", other),
    }
}

#[test]
fn the_first_error_wins() {
    // The negative pattern was read whole before the failure.
    let file = AttributesFile {
        path: path(".gitattributes"),
        state: FileState::Failed { before: b"!x filter=lfs\n".to_vec(), error: io_error() },
    };
    let err = GitAttributesMatcher::new(vec![file], "/repo").unwrap_err();
    assert!(matches!(err, GitAttributesMatcherError::InvalidPattern(_)));
    let err = GitAttributesMatcher::new(
        vec![
            read("a/.gitattributes", "a{b filter=lfs\n"),
            read("b/.gitattributes", "!x filter=lfs\n"),
        ],
        "/repo",
    )
    .unwrap_err();
    assert!(matches!(err, GitAttributesMatcherError::GitIgnoreError(_)));
}

#[test]
fn patterns_before_an_error_stay_in_the_builder() {
    let mut builder = PatternBuilder::new("/repo");
    let r = parse_gitattributes(
        &b"*.bin filter=lfs\n!a filter=lfs\n*.dat filter=lfs\n".to_vec(),
        None,
        &mut builder,
    );
    assert!(matches!(r, Err(GitAttributesMatcherError::InvalidPattern(_))));
    let rules = builder.build().unwrap();
    assert_eq!(rules.path(), "/repo");
    assert_eq!(rules.matched("/repo/x.bin", false), GlobVerdict::Ignored);
    assert_eq!(rules.matched("/repo/x.dat", false), GlobVerdict::NoMatch);
}

#[test]
fn comments_and_blank_lines_add_no_glob() {
    let mut builder = PatternBuilder::new("/repo");
    assert!(builder.add_line("# comment").is_ok());
    assert!(builder.add_line("   ").is_ok());
    assert!(builder.add_line("").is_ok());
    let rules = builder.build().unwrap();
    assert_eq!(rules.path(), "");
    assert_eq!(rules.matched("# comment", false), GlobVerdict::NoMatch);
}

#[test]
fn whitelisting_and_directories() {
    let mut builder = PatternBuilder::new("/repo");
    builder.add_line("*.bin").unwrap();
    builder.add_line("!keep.bin").unwrap();
    builder.add_line("only/").unwrap();
    let rules = builder.build().unwrap().clone();
    assert_eq!(rules.matched("/repo/x.bin", false), GlobVerdict::Ignored);
    assert_eq!(rules.matched("/repo/keep.bin", false), GlobVerdict::Whitelisted);
    assert_eq!(rules.matched("/repo/only", false), GlobVerdict::NoMatch);
    assert_eq!(rules.matched("/repo/only", true), GlobVerdict::Ignored);
}

#[test]
fn a_leading_dot_slash_is_dropped_from_the_root() {
    let mut builder = PatternBuilder::new("./repo");
    builder.add_line("x").unwrap();
    assert_eq!(builder.build().unwrap().path(), "repo");
}

#[test]
fn one_verdict_is_enough() {
    assert!(!any_ignored(&vec![]));
    assert!(!any_ignored(&vec![GlobVerdict::NoMatch, GlobVerdict::Whitelisted]));
    assert!(any_ignored(&vec![GlobVerdict::NoMatch, GlobVerdict::Ignored, GlobVerdict::Whitelisted]));
}

fn rules_after(texts: &[&str]) -> (Vec<bool>, Vec<GlobVerdict>) {
    let mut builder = PatternBuilder::new("/r");
    let mut results = vec![];
    for text in texts {
        let r = parse_gitattributes(&text.as_bytes().to_vec(), None, &mut builder);
        results.push(r.is_ok());
        if r.is_err() {
            break;
        }
    }
    let rules = builder.build().unwrap();
    let verdicts = ["/r/a.x", "/r/a.y", "/r/a.z", "/r/a.w"]
        .iter()
        .map(|path| rules.matched(path, false))
        .collect();
    (results, verdicts)
}

#[test]
fn reading_two_texts_is_reading_one_after_the_other() {
    for one in [
        "",
        "*.x filter=lfs",
        "*.x filter=lfs\r",
        "*.x filter=lfs\n",
        "*.x filter=lfs\n!n filter=lfs\n*.y filter=lfs",
        "*.x filter=lfs\na{b filter=lfs",
    ] {
        for other in ["", "*.z filter=lfs", "*.z filter=lfs\n*.w text\n", "!n filter=lfs\r\n*.w filter=lfs"] {
            let whole = format!("{}\n{}", one, other);
            let (apart, apart_verdicts) = rules_after(&[one, other]);
            let (together, verdicts) = rules_after(&[&whole]);
            assert_eq!(together[0], apart.iter().all(|ok| *ok), "{:?}", whole);
            assert_eq!(verdicts, apart_verdicts, "{:?}", whole);
        }
    }
}

#[test]
fn the_error_is_that_of_the_refused_pattern() {
    let mut builder = PatternBuilder::new("/r");
    let r = parse_gitattributes(
        &b"y[z-a] text\nx[z-a] filter=lfs\n*.bin filter=lfs\n".to_vec(),
        None,
        &mut builder,
    );
    let expected = PatternBuilder::new("/r").add_line("x[z-a]").unwrap_err();
    match r {
        Err(GitAttributesMatcherError::GitIgnoreError(err)) => {
            assert_eq!(err.to_string(), expected.to_string());
            assert!(err.to_string().contains("'x[z-a]'"));
        }
        other => panic!("{:?}", other),
    }
    let rules = builder.build().unwrap();
    assert_eq!(rules.matched("/r/a.bin", false), GlobVerdict::NoMatch);
}

#[test]
fn the_place_of_the_repository_does_not_matter() {
    let files = || {
        vec![
            read(".gitattributes", "/top filter=lfs\n*.bin filter=lfs\nsub/*.raw filter=lfs\n"),
            read("sub/.gitattributes", "/x filter=lfs\nr/y filter=lfs\n"),
        ]
    };
    let m = matcher(files());
    for root in ["/", "/r", "/r/", "/sub", "/a/very/deep/place", "/top/x.bin"] {
        let n = GitAttributesMatcher::new(files(), root).unwrap();
        for f in ["top", "sub/top", "a.bin", "sub/b.raw", "sub/x", "sub/r/y", "x", "r/y", "sub/r/x"] {
            assert_eq!(m.matches(&path(f)), n.matches(&path(f)), "{:?} {:?}", root, f);
        }
    }
    assert!(m.matches(&path("sub/r/y")));
}

#[test]
fn more_lines_never_take_a_match_away() {
    let fewer = matcher(vec![read("a/.gitattributes", "*.bin filter=lfs\n")]);
    let more = matcher(vec![
        read(".gitattributes", "*.txt filter=lfs\n"),
        read("a/.gitattributes", "*.raw filter=lfs\n*.bin filter=lfs\n*.bin text\nc filter=lfs\n"),
    ]);
    for f in ["a/x.bin", "a/b/x.bin", "a/x.raw", "x.bin", "x.txt", "a/c"] {
        assert!(!fewer.matches(&path(f)) || more.matches(&path(f)), "{}", f);
    }
    assert!(fewer.matches(&path("a/x.bin")));
    assert!(!fewer.matches(&path("a/c")) && more.matches(&path("a/c")));
}

#[test]
fn the_last_pattern_decides() {
    let mut builder = PatternBuilder::new("/r");
    for line in ["*.bin", "!a.bin", "a*"] {
        builder.add_line(line).unwrap();
    }
    let rules = builder.build().unwrap();
    assert_eq!(rules.matched("/r/a.bin", false), GlobVerdict::Ignored);
    assert_eq!(rules.matched("/r/b.bin", false), GlobVerdict::Ignored);
    builder.add_line("!a.bin").unwrap();
    let rules = builder.build().unwrap();
    assert_eq!(rules.matched("/r/a.bin", false), GlobVerdict::Whitelisted);
    assert_eq!(rules.matched("/r/a.c", false), GlobVerdict::Ignored);
    assert_eq!(rules.matched("/r/b.c", false), GlobVerdict::NoMatch);
}

#[test]
fn paths_are_taken_relative_to_the_directory() {
    let mut builder = PatternBuilder::new("/r/s");
    builder.add_line("/x").unwrap();
    let rules = builder.build().unwrap();
    assert_eq!(rules.matched("/r/s/x", false), GlobVerdict::Ignored);
    assert_eq!(rules.matched("x", false), GlobVerdict::Ignored);
    assert_eq!(rules.matched("./x", false), GlobVerdict::Ignored);
    assert_eq!(rules.matched("/r/x", false), GlobVerdict::NoMatch);
    assert_eq!(rules.matched("y/x", false), GlobVerdict::NoMatch);
    for here in [".", "././."] {
        let mut builder = PatternBuilder::new(here);
        builder.add_line("/.a/x").unwrap();
        let rules = builder.build().unwrap();
        assert_eq!(rules.matched(".a/x", false), GlobVerdict::Ignored, "{}", here);
    }
}

#[test]
fn a_backslash_separates_no_names() {
    let paths = vec![path("a\\.gitattributes"), path("a/b\\c/.gitattributes")];
    assert_eq!(
        attributes_paths(&RepoPath::root(), &paths),
        [path("a/b\\c/.gitattributes")]
    );
}
