use jj_commands::repo_path::RepoPath;
use jj_commands::snapshot::{SnapshotStats, UntrackedPaths, UntrackedReason};
use jj_commands::track::{
    print_track_snapshot_stats, FileTrackArgs, FileTrackCommand, LargeFileHint, TrackAction,
    TrackEvent,
};

fn path(s: &str) -> RepoPath {
    RepoPath::from_internal_string(s).unwrap()
}

fn large(size: u64) -> UntrackedReason {
    UntrackedReason::FileTooLarge { size, max_size: 10 }
}

const PLAIN: UntrackedReason = UntrackedReason::FileNotAutoTracked;

fn stats(entries: &[(&str, UntrackedReason)]) -> SnapshotStats {
    let mut untracked_paths = UntrackedPaths::new();
    for (p, reason) in entries {
        untracked_paths.insert(path(p), *reason);
    }
    SnapshotStats { untracked_paths }
}

fn entries(untracked: &UntrackedPaths) -> Vec<(String, UntrackedReason)> {
    (0..untracked.len())
        .map(|i| (untracked.path(i).to_internal_string(), untracked.reason(i)))
        .collect()
}

fn named(list: &[(&str, UntrackedReason)]) -> Vec<(String, UntrackedReason)> {
    list.iter().map(|(p, r)| (p.to_string(), *r)).collect()
}

#[test]
fn untracked_paths_keep_path_order() {
    let s = stats(&[("b", PLAIN), ("a/z", large(3)), ("a", PLAIN), ("b", large(7)), ("a-", PLAIN)]);
    assert_eq!(
        entries(&s.untracked_paths),
        named(&[("a", PLAIN), ("a/z", large(3)), ("a-", PLAIN), ("b", large(7))])
    );
}

#[test]
fn untracked_paths_behave_like_a_map() {
    let mut u = stats(&[("a", PLAIN), ("b", large(2)), ("c", PLAIN)]).untracked_paths;
    assert_eq!(u.get(&path("b")), Some(large(2)));
    assert_eq!(u.get(&path("x")), None);
    assert_eq!(u.remove(&path("x")), None);
    assert_eq!(u.remove(&path("b")), Some(large(2)));
    assert_eq!(u.remove(&path("b")), None);
    u.set_reason(1, large(9));
    assert_eq!(entries(&u), named(&[("a", PLAIN), ("c", large(9))]));
    assert_eq!(UntrackedPaths::new().len(), 0);
}

#[test]
fn the_earlier_snapshot_gives_the_better_reason() {
    let auto = stats(&[("big", large(100)), ("gone", large(500)), ("both", large(1))]);
    let track = stats(&[("big", PLAIN), ("small", PLAIN), ("both", large(20))]);
    let out = print_track_snapshot_stats(auto, track);
    assert_eq!(
        entries(&out.untracked_paths),
        named(&[("big", large(100)), ("both", large(20)), ("small", PLAIN)])
    );
    assert_eq!(
        out.large_file_hint,
        Some(LargeFileHint { size: 100, files: vec![path("big"), path("both")] })
    );
}

#[test]
fn a_reason_of_the_same_kind_changes_nothing() {
    let out = print_track_snapshot_stats(stats(&[("a", PLAIN)]), stats(&[("a", PLAIN)]));
    assert_eq!(entries(&out.untracked_paths), named(&[("a", PLAIN)]));
    assert_eq!(out.large_file_hint, None);
}

#[test]
fn no_hint_without_large_files() {
    let out = print_track_snapshot_stats(stats(&[("x", large(5))]), stats(&[("y", PLAIN)]));
    assert_eq!(out.large_file_hint, None);
    let out = print_track_snapshot_stats(stats(&[]), stats(&[]));
    assert_eq!(entries(&out.untracked_paths), named(&[]));
    assert_eq!(out.large_file_hint, None);
}

#[test]
fn the_hint_gives_the_largest_size() {
    let out = print_track_snapshot_stats(
        stats(&[]),
        stats(&[("a", large(3)), ("b", PLAIN), ("c", large(30)), ("d", large(4)), ("e", large(0))]),
    );
    assert_eq!(
        out.large_file_hint,
        Some(LargeFileHint {
            size: 30,
            files: vec![path("a"), path("c"), path("d"), path("e")]
        })
    );
    let out = print_track_snapshot_stats(stats(&[]), stats(&[("e", large(0))]));
    assert_eq!(out.large_file_hint, Some(LargeFileHint { size: 0, files: vec![path("e")] }));
}

fn run(include_ignored: bool, num_rebased: usize) -> Vec<TrackAction<String, Vec<String>>> {
    let mut command = FileTrackCommand::new(FileTrackArgs {
        paths: vec!["a".to_string(), "glob:*.rs".to_string()],
        include_ignored,
    });
    let mut actions = vec![];
    loop {
        let action = command.action();
        let event = match &action {
            TrackAction::OpenWorkspace => TrackEvent::Opened(stats(&[("big", large(100))])),
            TrackAction::TakeSnapshot { .. } => {
                TrackEvent::Snapshotted(stats(&[("big", PLAIN), ("c", PLAIN)]))
            }
            TrackAction::RebaseDescendants => TrackEvent::Rebased(num_rebased),
            TrackAction::PrintReport => {
                actions.push(action);
                let report = command.report();
                assert_eq!(
                    entries(&report.untracked_paths),
                    named(&[("big", large(100)), ("c", PLAIN)])
                );
                assert_eq!(
                    report.large_file_hint,
                    Some(LargeFileHint { size: 100, files: vec![path("big")] })
                );
                return actions;
            }
            _ => TrackEvent::Done,
        };
        actions.push(action);
        assert!(command.answer(event));
    }
}

#[test]
fn tracking_follows_its_script() {
    let paths = vec!["a".to_string(), "glob:*.rs".to_string()];
    assert_eq!(
        run(false, 0),
        vec![
            TrackAction::OpenWorkspace,
            TrackAction::ParsePatterns(paths),
            TrackAction::MakeOptions,
            TrackAction::StartTransaction,
            TrackAction::LockWorkingCopy,
            TrackAction::TakeSnapshot { force_tracking: false },
            TrackAction::RebaseDescendants,
            TrackAction::CommitTransaction("track paths".to_string()),
            TrackAction::FinishWorkingCopy,
            TrackAction::PrintReport,
        ]
    );
}

#[test]
fn tracking_of_ignored_files_is_forced() {
    assert_eq!(run(true, 0)[5], TrackAction::TakeSnapshot { force_tracking: true });
}

#[test]
fn rebased_commits_are_reported() {
    let actions = run(false, 12);
    assert_eq!(
        actions[7],
        TrackAction::WriteStatus("Rebased 12 descendant commits".to_string())
    );
    assert_eq!(actions.len(), 11);
}

#[test]
fn only_the_last_snapshot_decides_what_stays_untracked() {
    let auto = stats(&[("a", PLAIN), ("b", large(8))]);
    let out = print_track_snapshot_stats(auto, stats(&[("c", PLAIN)]));
    assert_eq!(entries(&out.untracked_paths), named(&[("c", PLAIN)]));
}

#[test]
fn a_new_size_wins_over_an_old_one() {
    let out = print_track_snapshot_stats(
        stats(&[("f", large(500)), ("g", PLAIN)]),
        stats(&[("f", large(20)), ("g", large(11))]),
    );
    assert_eq!(entries(&out.untracked_paths), named(&[("f", large(20)), ("g", large(11))]));
    assert_eq!(
        out.large_file_hint,
        Some(LargeFileHint { size: 20, files: vec![path("f"), path("g")] })
    );
}

#[test]
fn an_event_that_does_not_fit_is_not_taken() {
    let mut command =
        FileTrackCommand::new(FileTrackArgs { paths: vec![], include_ignored: false });
    assert!(!command.answer(TrackEvent::Done));
    assert!(!command.answer(TrackEvent::Rebased(3)));
    assert_eq!(command.action(), TrackAction::OpenWorkspace);
    assert!(command.answer(TrackEvent::Opened(stats(&[]))));
    assert_eq!(command.action(), TrackAction::ParsePatterns(vec![]));
    assert!(!command.answer(TrackEvent::Opened(stats(&[]))));
}
