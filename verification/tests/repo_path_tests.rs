use jj_commands::fs_path;
use jj_commands::repo_path::RepoPath;

fn path(s: &str) -> RepoPath {
    RepoPath::from_internal_string(s).unwrap()
}

#[test]
fn text_form_reads_back() {
    for s in ["", "a", "a/b", "dir/.gitattributes", "\u{e9}/\u{1f980}", "a b/c"] {
        let p = path(s);
        assert_eq!(p.to_internal_string(), s);
        assert_eq!(path(&p.to_internal_string()), p);
    }
}

#[test]
fn different_paths_have_different_texts() {
    let paths = [RepoPath::root(), path("a"), path("a/b"), path("ab"), path("a/b/c")];
    for (i, x) in paths.iter().enumerate() {
        for (j, y) in paths.iter().enumerate() {
            assert_eq!(x.to_internal_string() == y.to_internal_string(), i == j);
        }
    }
}

#[test]
fn malformed_text_is_no_path() {
    for s in ["/", "/a", "a/", "a//b", "//"] {
        assert!(RepoPath::from_internal_string(s).is_none(), "{:?}", s);
    }
}

#[test]
fn dir_string_ends_in_a_slash_unless_root() {
    assert_eq!(RepoPath::root().to_internal_dir_string(), "");
    assert_eq!(path("a/b").to_internal_dir_string(), "a/b/");
}

#[test]
fn parts_of_a_path() {
    let p = path("a/b/c");
    assert_eq!(p.len(), 3);
    assert_eq!(p.component(1), "b");
    assert_eq!(p.take(2), path("a/b"));
    assert_eq!(p.skip(2), path("c"));
    assert_eq!(p.parent(), Some(path("a/b")));
    assert_eq!(RepoPath::root().parent(), None);
    assert!(RepoPath::root().is_root());
    assert!(!p.is_root());
    assert_eq!(p.clone(), p);
}

#[test]
fn below_means_strictly_below() {
    assert!(path("a/b").is_below(&path("a")));
    assert!(path("a/b/c").is_below(&RepoPath::root()));
    assert!(!path("a").is_below(&path("a")));
    assert!(!path("ab/c").is_below(&path("a")));
    assert!(!path("b/c").is_below(&path("a")));
    assert!(!path("a").is_below(&path("a/b")));
}

#[test]
fn paths_are_ordered_name_by_name() {
    // By name, not by the text form: '-' sorts before '/'.
    let ordered = ["", "a", "a/b", "a/b/c", "a/c", "a-b", "a-b/x", "b", "\u{e9}", "\u{1f980}"];
    for (i, x) in ordered.iter().enumerate() {
        for (j, y) in ordered.iter().enumerate() {
            assert_eq!(path(x).precedes(&path(y)), i < j, "{:?} {:?}", x, y);
            assert_eq!(path(x).same(&path(y)), i == j);
        }
    }
}

#[test]
fn fs_paths_join_the_names() {
    assert_eq!(
        path("a/b.txt").to_fs_path("/repo"),
        Some(std::path::Path::new("/repo").join("a").join("b.txt").to_str().unwrap().to_string())
    );
    assert_eq!(path("a").to_fs_path(""), Some("a".to_string()));
    assert_eq!(RepoPath::root().to_fs_path(""), Some(".".to_string()));
    assert_eq!(RepoPath::root().to_fs_path("/repo"), Some("/repo".to_string()));
}

#[test]
fn names_that_point_elsewhere_have_no_fs_path() {
    assert_eq!(path("a/../b").to_fs_path("/repo"), None);
    assert_eq!(path("./b").to_fs_path("/repo"), None);
    assert_eq!(path("..").to_fs_path(""), None);
    assert!(path("..a/b..").to_fs_path("").is_some());
}

#[test]
fn a_single_name_is_its_only_part() {
    let some = |s: &str| Some(s.to_string());
    assert!(fs_path::is_single_name("a", &vec![some("a")]));
    assert!(!fs_path::is_single_name("a.", &vec![some("a")]));
    assert!(!fs_path::is_single_name("..", &vec![None]));
    assert!(!fs_path::is_single_name("a", &vec![]));
    assert!(!fs_path::is_single_name("a", &vec![some("a"), some("b")]));
}

#[test]
fn hidden_files_have_an_fs_path() {
    assert_eq!(path(".gitattributes").to_fs_path("/r"), Some("/r/.gitattributes".to_string()));
    assert_eq!(path("-a/.b").to_fs_path("/r/"), Some("/r/-a/.b".to_string()));
    assert_eq!(path("a/.../b").to_fs_path(""), Some("a/.../b".to_string()));
}
