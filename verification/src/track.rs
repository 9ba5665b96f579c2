//! `jj file track`: start tracking paths of the working copy.

use crate::repo_path;
use crate::repo_path::RepoPath;
use crate::runs;
use crate::snapshot;
use crate::snapshot::{SnapshotStats, UntrackedPaths, UntrackedReason};
use crate::text;
use vstd::prelude::*;

verus! {

/// Untracked files by path.
pub type Reasons = Map<Seq<Seq<char>>, UntrackedReason>;

/// What is left untracked after tracking: of a file that only was not tracked
/// by itself, the snapshot before may know a better reason.
pub open spec fn merged(auto_reasons: Reasons, track_reasons: Reasons) -> Reasons {
    Map::new(
        |path: Seq<Seq<char>>| track_reasons.contains_key(path),
        |path: Seq<Seq<char>>|
            if track_reasons[path] is FileNotAutoTracked && auto_reasons.contains_key(path) {
                auto_reasons[path]
            } else {
                track_reasons[path]
            },
    )
}

/// Whether a file was left untracked for its size.
pub open spec fn is_large(reasons: Reasons, path: Seq<Seq<char>>) -> bool {
    reasons.contains_key(path) && reasons[path] is FileTooLarge
}

/// What to say of files that are too large: the size of the largest of them,
/// and which they are.
#[derive(Debug, PartialEq, Eq)]
pub struct LargeFileHint {
    pub size: u64,
    pub files: Vec<RepoPath>,
}

/// What to print once paths have been tracked.
#[derive(Debug, PartialEq, Eq)]
pub struct TrackOutput {
    /// The files that are still untracked.
    pub untracked_paths: UntrackedPaths,
    /// The hint on large files, if there are any.
    pub large_file_hint: Option<LargeFileHint>,
}

/// Whether `hint` is the hint to give on the large files among `reasons`.
pub open spec fn is_hint(
    hint: LargeFileHint,
    reasons: Reasons,
    paths: Seq<Seq<Seq<char>>>,
) -> bool {
    &&& repo_path::path_views(hint.files@) == paths.filter(
        |path: Seq<Seq<char>>| is_large(reasons, path),
    )
    &&& exists|path: Seq<Seq<char>>| #[trigger]
        is_large(reasons, path) && reasons[path]->size == hint.size
    &&& forall|path: Seq<Seq<char>>| #[trigger]
        is_large(reasons, path) ==> reasons[path]->size <= hint.size
}

/// Decides what to print: the files that are still untracked, each with the
/// best reason known, and then a hint if some of them are too large.
pub fn print_track_snapshot_stats(
    auto_stats: SnapshotStats,
    track_stats: SnapshotStats,
) -> (r: TrackOutput)
    ensures
        r.untracked_paths@ == merged(auto_stats.untracked_paths@, track_stats.untracked_paths@),
        r.untracked_paths.paths() == track_stats.untracked_paths.paths(),
        snapshot::ascends(r.untracked_paths.paths()),
        r.large_file_hint is Some <==> exists|path: Seq<Seq<char>>| #[trigger]
            is_large(r.untracked_paths@, path),
        r.large_file_hint matches Some(hint) ==> is_hint(
            hint,
            r.untracked_paths@,
            r.untracked_paths.paths(),
        ),
{
    let untracked_paths = merge_reasons(auto_stats.untracked_paths, track_stats.untracked_paths);
    let large_file_hint = large_file_hint(&untracked_paths);
    TrackOutput { untracked_paths, large_file_hint }
}

/// Replaces the reasons that the snapshot before knows better.
fn merge_reasons(auto_paths: UntrackedPaths, track_paths: UntrackedPaths) -> (r: UntrackedPaths)
    ensures
        r@ == merged(auto_paths@, track_paths@),
        r.paths() == track_paths.paths(),
        snapshot::ascends(r.paths()),
{
    let mut auto_left = auto_paths;
    let mut r = track_paths;
    let n = r.len();
    let ghost paths = track_paths.paths();
    let ghost goal = merged(auto_paths@, track_paths@);
    for i in 0..n
        invariant
            n == paths.len(),
            paths == track_paths.paths(),
            r.paths() == paths,
            snapshot::ascends(paths),
            goal == merged(auto_paths@, track_paths@),
            r@.dom() == track_paths@.dom(),
            forall|p: Seq<Seq<char>>|
                track_paths@.contains_key(p) <==> #[trigger] paths.contains(p),
            forall|j: int| 0 <= j < i ==> r@[#[trigger] paths[j]] == goal[paths[j]],
            forall|j: int| i <= j < n ==> r@[#[trigger] paths[j]] == track_paths@[paths[j]],
            forall|j: int|
                i <= j < n ==> (auto_left@.contains_key(#[trigger] paths[j])
                    <==> auto_paths@.contains_key(paths[j])) && (auto_paths@.contains_key(paths[j])
                    ==> auto_left@[paths[j]] == auto_paths@[paths[j]]),
    {
        proof {
            assert forall|j: int| 0 <= j < n && j != i implies #[trigger] paths[j]
                != paths[i as int] by {
                repo_path::lemma_path_order_irreflexive(paths[j]);
            }
            assert(paths.contains(paths[i as int]));
        }
        if r.reason(i) == UntrackedReason::FileNotAutoTracked {
            let path = r.path(i).clone();
            match auto_left.remove(&path) {
                Some(old_reason) => {
                    r.set_reason(i, old_reason);
                    assert(r@.dom() =~= track_paths@.dom());
                },
                None => {},
            }
        }
    }
    proof {
        assert forall|p: Seq<Seq<char>>| #[trigger] r@.dom().contains(p) implies r@[p] == goal[p] by {
            assert(paths.contains(p));
            let j = paths.index_of(p);
            assert(paths[j] == p);
        }
        assert(r@ =~= goal);
    }
    r
}

/// The hint on the files that are too large.
fn large_file_hint(untracked: &UntrackedPaths) -> (r: Option<LargeFileHint>)
    ensures
        r is Some <==> exists|path: Seq<Seq<char>>| #[trigger] is_large(untracked@, path),
        r matches Some(hint) ==> is_hint(hint, untracked@, untracked.paths()),
{
    let n = untracked.len();
    let ghost paths = untracked.paths();
    let ghost large = |path: Seq<Seq<char>>| is_large(untracked@, path);
    let mut files: Vec<RepoPath> = Vec::new();
    let mut size: u64 = 0;
    proof {
        reveal(Seq::filter);
        assert(paths.take(0).filter(large) =~= Seq::<Seq<Seq<char>>>::empty());
        assert(repo_path::path_views(files@) =~= Seq::<Seq<Seq<char>>>::empty());
    }
    for i in 0..n
        invariant
            n == paths.len(),
            paths == untracked.paths(),
            large == (|path: Seq<Seq<char>>| is_large(untracked@, path)),
            repo_path::path_views(files@) == paths.take(i as int).filter(large),
            forall|j: int|
                0 <= j < i && is_large(untracked@, #[trigger] paths[j]) ==> untracked@[paths[j]]->size
                    <= size,
            files@.len() == 0 ==> forall|j: int|
                0 <= j < i ==> !is_large(untracked@, #[trigger] paths[j]),
            files@.len() > 0 ==> exists|j: int|
                0 <= j < i && is_large(untracked@, #[trigger] paths[j])
                    && untracked@[paths[j]]->size == size,
    {
        proof {
            reveal(Seq::filter);
            assert(paths.take(i + 1).drop_last() =~= paths.take(i as int));
            assert(paths.take(i + 1).last() == paths[i as int]);
        }
        let path = untracked.path(i);
        match untracked.reason(i) {
            UntrackedReason::FileTooLarge { size: this, max_size: _ } => {
                let ghost before = files@;
                assert(is_large(untracked@, paths[i as int]));
                if files.len() == 0 || this > size {
                    size = this;
                }
                files.push(path.clone());
                assert(repo_path::path_views(files@) =~= repo_path::path_views(
                    before,
                ).push(path@));
            },
            UntrackedReason::FileNotAutoTracked => {
                assert(!is_large(untracked@, paths[i as int]));
            },
        }
    }
    proof {
        assert(paths.take(paths.len() as int) =~= paths);
        assert forall|p: Seq<Seq<char>>| #[trigger] is_large(untracked@, p) implies exists|j: int|
            0 <= j < n && #[trigger] paths[j] == p by {
            assert(paths.contains(p));
        }
    }
    if files.len() == 0 {
        None
    } else {
        Some(LargeFileHint { size, files })
    }
}

/// Which files stay untracked is decided by the last snapshot alone.
pub proof fn law_merging_keeps_the_paths(auto_reasons: Reasons, track_reasons: Reasons)
    ensures
        merged(auto_reasons, track_reasons).dom() == track_reasons.dom(),
{
    assert(merged(auto_reasons, track_reasons).dom() =~= track_reasons.dom());
}

/// A file that was too large before, and is now merely not tracked by itself,
/// is reported as too large, with the size known before.
pub proof fn law_large_files_stay_large(
    auto_reasons: Reasons,
    track_reasons: Reasons,
    path: Seq<Seq<char>>,
)
    requires
        is_large(auto_reasons, path),
        track_reasons.contains_key(path),
        track_reasons[path] is FileNotAutoTracked,
    ensures
        is_large(merged(auto_reasons, track_reasons), path),
        merged(auto_reasons, track_reasons)[path] == auto_reasons[path],
{
}

/// The size that the last snapshot found is never replaced.
pub proof fn law_new_sizes_win(
    auto_reasons: Reasons,
    track_reasons: Reasons,
    path: Seq<Seq<char>>,
)
    requires
        is_large(track_reasons, path),
    ensures
        merged(auto_reasons, track_reasons)[path] == track_reasons[path],
{
}

/// The arguments of the command.
#[derive(Debug, PartialEq, Eq)]
pub struct FileTrackArgs {
    /// The paths to track; none stand for all paths that are not ignored.
    pub paths: Vec<String>,
    /// Whether to track paths even if they are ignored or too large.
    pub include_ignored: bool,
}

/// What the command waits for.
#[derive(Clone, Copy, Debug, PartialEq, Eq, Structural)]
pub enum TrackStage {
    Open,
    Parse,
    Options,
    Transaction,
    Lock,
    Snapshot,
    Rebase,
    Status { num_rebased: usize },
    Commit,
    Unlock,
    Print,
}

/// The next thing to do for the command, over a type of texts and a type of
/// lists of texts.
#[derive(Debug, PartialEq, Eq)]
pub enum TrackAction<S, L> {
    /// Open the workspace, which takes a snapshot.
    OpenWorkspace,
    /// Parse these file patterns into a matcher; no pattern at all matches
    /// every path.
    ParsePatterns(L),
    /// Make snapshot options that start to track what matches.
    MakeOptions,
    /// Start a transaction.
    StartTransaction,
    /// Lock the working copy.
    LockWorkingCopy,
    /// Take a snapshot, and track what matches even against the rules if
    /// `force_tracking`.
    TakeSnapshot { force_tracking: bool },
    /// Rebase the descendants of rewritten commits.
    RebaseDescendants,
    /// Write this line to the status output.
    WriteStatus(S),
    /// Commit the transaction under this description.
    CommitTransaction(S),
    /// Finish the work on the working copy at the new operation.
    FinishWorkingCopy,
    /// Print what `report` gives, as the last thing.
    PrintReport,
}

/// What came of an action.
#[derive(Debug)]
pub enum TrackEvent {
    /// It is done.
    Done,
    /// The workspace is open; this is what its snapshot found.
    Opened(SnapshotStats),
    /// This is what the snapshot found.
    Snapshotted(SnapshotStats),
    /// So many commits were rebased.
    Rebased(usize),
}

/// The arguments, as values of the specification.
pub struct TrackArgsView {
    pub paths: Seq<Seq<char>>,
    pub include_ignored: bool,
}

impl View for FileTrackArgs {
    type V = TrackArgsView;

    open spec fn view(&self) -> TrackArgsView {
        TrackArgsView { paths: text::views(self.paths@), include_ignored: self.include_ignored }
    }
}

impl View for TrackAction<String, Vec<String>> {
    type V = TrackAction<Seq<char>, Seq<Seq<char>>>;

    open spec fn view(&self) -> TrackAction<Seq<char>, Seq<Seq<char>>> {
        match self {
            TrackAction::OpenWorkspace => TrackAction::OpenWorkspace,
            TrackAction::ParsePatterns(paths) => TrackAction::ParsePatterns(text::views(paths@)),
            TrackAction::MakeOptions => TrackAction::MakeOptions,
            TrackAction::StartTransaction => TrackAction::StartTransaction,
            TrackAction::LockWorkingCopy => TrackAction::LockWorkingCopy,
            TrackAction::TakeSnapshot { force_tracking } => TrackAction::TakeSnapshot {
                force_tracking: *force_tracking,
            },
            TrackAction::RebaseDescendants => TrackAction::RebaseDescendants,
            TrackAction::WriteStatus(line) => TrackAction::WriteStatus(line@),
            TrackAction::CommitTransaction(text) => TrackAction::CommitTransaction(text@),
            TrackAction::FinishWorkingCopy => TrackAction::FinishWorkingCopy,
            TrackAction::PrintReport => TrackAction::PrintReport,
        }
    }
}

/// The status line on rebased commits.
pub open spec fn rebased_line(num_rebased: nat) -> Seq<char> {
    "Rebased "@ + text::numeral(num_rebased) + " descendant commits"@
}

/// What there is to do in a stage.
pub open spec fn track_action(args: TrackArgsView, stage: TrackStage) -> TrackAction<
    Seq<char>,
    Seq<Seq<char>>,
> {
    match stage {
        TrackStage::Open => TrackAction::OpenWorkspace,
        TrackStage::Parse => TrackAction::ParsePatterns(args.paths),
        TrackStage::Options => TrackAction::MakeOptions,
        TrackStage::Transaction => TrackAction::StartTransaction,
        TrackStage::Lock => TrackAction::LockWorkingCopy,
        TrackStage::Snapshot => TrackAction::TakeSnapshot { force_tracking: args.include_ignored },
        TrackStage::Rebase => TrackAction::RebaseDescendants,
        TrackStage::Status { num_rebased } => TrackAction::WriteStatus(
            rebased_line(num_rebased as nat),
        ),
        TrackStage::Commit => TrackAction::CommitTransaction("track paths"@),
        TrackStage::Unlock => TrackAction::FinishWorkingCopy,
        TrackStage::Print => TrackAction::PrintReport,
    }
}

/// The stage that follows, or none if the event does not answer the stage's
/// action.
pub open spec fn track_next(stage: TrackStage, event: TrackEvent) -> Option<TrackStage> {
    match (stage, event) {
        (TrackStage::Open, TrackEvent::Opened(_)) => Some(TrackStage::Parse),
        (TrackStage::Parse, TrackEvent::Done) => Some(TrackStage::Options),
        (TrackStage::Options, TrackEvent::Done) => Some(TrackStage::Transaction),
        (TrackStage::Transaction, TrackEvent::Done) => Some(TrackStage::Lock),
        (TrackStage::Lock, TrackEvent::Done) => Some(TrackStage::Snapshot),
        (TrackStage::Snapshot, TrackEvent::Snapshotted(_)) => Some(TrackStage::Rebase),
        (TrackStage::Rebase, TrackEvent::Rebased(num_rebased)) => if num_rebased > 0 {
            Some(TrackStage::Status { num_rebased })
        } else {
            Some(TrackStage::Commit)
        },
        (TrackStage::Status { .. }, TrackEvent::Done) => Some(TrackStage::Commit),
        (TrackStage::Commit, TrackEvent::Done) => Some(TrackStage::Unlock),
        (TrackStage::Unlock, TrackEvent::Done) => Some(TrackStage::Print),
        _ => None,
    }
}

/// The command: it says what to do next, and takes what came of it.
#[derive(Debug)]
pub struct FileTrackCommand {
    args: FileTrackArgs,
    stage: TrackStage,
    auto_stats: SnapshotStats,
    track_stats: SnapshotStats,
}

impl FileTrackCommand {
    pub closed spec fn args(self) -> TrackArgsView {
        self.args@
    }

    pub closed spec fn stage(self) -> TrackStage {
        self.stage
    }

    /// What the snapshot on opening the workspace found.
    pub closed spec fn auto_stats(self) -> SnapshotStats {
        self.auto_stats
    }

    /// What the snapshot with the paths found.
    pub closed spec fn track_stats(self) -> SnapshotStats {
        self.track_stats
    }

    /// Starts the command.
    pub fn new(args: FileTrackArgs) -> (r: FileTrackCommand)
        ensures
            r.args() == args@,
            r.stage() == TrackStage::Open,
    {
        FileTrackCommand {
            args,
            stage: TrackStage::Open,
            auto_stats: SnapshotStats { untracked_paths: UntrackedPaths::new() },
            track_stats: SnapshotStats { untracked_paths: UntrackedPaths::new() },
        }
    }

    /// What to do next.
    pub fn action(&self) -> (r: TrackAction<String, Vec<String>>)
        ensures
            r@ == track_action(self.args(), self.stage()),
    {
        match self.stage {
            TrackStage::Open => TrackAction::OpenWorkspace,
            TrackStage::Parse => TrackAction::ParsePatterns(text::copy_strings(&self.args.paths)),
            TrackStage::Options => TrackAction::MakeOptions,
            TrackStage::Transaction => TrackAction::StartTransaction,
            TrackStage::Lock => TrackAction::LockWorkingCopy,
            TrackStage::Snapshot => TrackAction::TakeSnapshot {
                force_tracking: self.args.include_ignored,
            },
            TrackStage::Rebase => TrackAction::RebaseDescendants,
            TrackStage::Status { num_rebased } => {
                let mut line = "Rebased ".to_owned();
                text::push_numeral(&mut line, num_rebased);
                line.append(" descendant commits");
                TrackAction::WriteStatus(line)
            },
            TrackStage::Commit => TrackAction::CommitTransaction("track paths".to_owned()),
            TrackStage::Unlock => TrackAction::FinishWorkingCopy,
            TrackStage::Print => TrackAction::PrintReport,
        }
    }

    /// Takes what came of the action. An event that does not answer it is not
    /// taken, and changes nothing.
    pub fn answer(&mut self, event: TrackEvent) -> (taken: bool)
        ensures
            taken == (track_next(old(self).stage(), event) is Some),
            final(self).args() == old(self).args(),
            final(self).stage() == match track_next(old(self).stage(), event) {
                Some(stage) => stage,
                None => old(self).stage(),
            },
            final(self).auto_stats() == match event {
                TrackEvent::Opened(stats) if taken => stats,
                _ => old(self).auto_stats(),
            },
            final(self).track_stats() == match event {
                TrackEvent::Snapshotted(stats) if taken => stats,
                _ => old(self).track_stats(),
            },
    {
        match (self.stage, event) {
            (TrackStage::Open, TrackEvent::Opened(stats)) => {
                self.auto_stats = stats;
                self.stage = TrackStage::Parse;
            },
            (TrackStage::Parse, TrackEvent::Done) => {
                self.stage = TrackStage::Options;
            },
            (TrackStage::Options, TrackEvent::Done) => {
                self.stage = TrackStage::Transaction;
            },
            (TrackStage::Transaction, TrackEvent::Done) => {
                self.stage = TrackStage::Lock;
            },
            (TrackStage::Lock, TrackEvent::Done) => {
                self.stage = TrackStage::Snapshot;
            },
            (TrackStage::Snapshot, TrackEvent::Snapshotted(stats)) => {
                self.track_stats = stats;
                self.stage = TrackStage::Rebase;
            },
            (TrackStage::Rebase, TrackEvent::Rebased(num_rebased)) => {
                if num_rebased > 0 {
                    self.stage = TrackStage::Status { num_rebased };
                } else {
                    self.stage = TrackStage::Commit;
                }
            },
            (TrackStage::Status { .. }, TrackEvent::Done) => {
                self.stage = TrackStage::Commit;
            },
            (TrackStage::Commit, TrackEvent::Done) => {
                self.stage = TrackStage::Unlock;
            },
            (TrackStage::Unlock, TrackEvent::Done) => {
                self.stage = TrackStage::Print;
            },
            _ => {
                return false;
            },
        }
        true
    }

    /// What to print, from the two snapshots that the command was told of.
    pub fn report(self) -> (r: TrackOutput)
        ensures
            r.untracked_paths@ == merged(
                self.auto_stats().untracked_paths@,
                self.track_stats().untracked_paths@,
            ),
            r.untracked_paths.paths() == self.track_stats().untracked_paths.paths(),
            snapshot::ascends(r.untracked_paths.paths()),
            r.large_file_hint is Some <==> exists|path: Seq<Seq<char>>| #[trigger]
                is_large(r.untracked_paths@, path),
            r.large_file_hint matches Some(hint) ==> is_hint(
                hint,
                r.untracked_paths@,
                r.untracked_paths.paths(),
            ),
    {
        print_track_snapshot_stats(self.auto_stats, self.track_stats)
    }
}

/// What is done, and the stage that is reached, when a stage's action and those
/// that follow are answered by `events`; none if some event is not taken.
pub open spec fn track_run(
    args: TrackArgsView,
    stage: TrackStage,
    events: Seq<TrackEvent>,
) -> Option<(Seq<TrackAction<Seq<char>, Seq<Seq<char>>>>, TrackStage)>
    decreases events.len(),
{
    if events.len() == 0 {
        Some((Seq::empty(), stage))
    } else {
        match track_next(stage, events[0]) {
            None => None,
            Some(next) => match track_run(args, next, events.skip(1)) {
                None => None,
                Some((actions, end)) => Some((seq![track_action(args, stage)] + actions, end)),
            },
        }
    }
}

/// All that the command does before it prints, if `num_rebased` commits had to
/// be rebased.
pub open spec fn track_script(args: TrackArgsView, num_rebased: usize) -> Seq<
    TrackAction<Seq<char>, Seq<Seq<char>>>,
> {
    seq![
        TrackAction::OpenWorkspace,
        TrackAction::ParsePatterns(args.paths),
        TrackAction::MakeOptions,
        TrackAction::StartTransaction,
        TrackAction::LockWorkingCopy,
        TrackAction::TakeSnapshot { force_tracking: args.include_ignored },
        TrackAction::RebaseDescendants,
    ] + if num_rebased > 0 {
        seq![TrackAction::WriteStatus(rebased_line(num_rebased as nat))]
    } else {
        Seq::empty()
    } + seq![TrackAction::CommitTransaction("track paths"@), TrackAction::FinishWorkingCopy]
}

proof fn lemma_track_step(args: TrackArgsView, stage: TrackStage, events: Seq<TrackEvent>)
    requires
        track_run(args, stage, events) matches Some((actions, end)) && end != stage,
    ensures
        events.len() > 0,
        track_next(stage, events[0]) is Some,
        track_run(args, track_next(stage, events[0])->Some_0, events.skip(1)) is Some,
        ({
            let (actions, end) = track_run(args, stage, events)->Some_0;
            let next = track_next(stage, events[0])->Some_0;
            track_run(args, next, events.skip(1)) matches Some((rest, same_end)) && same_end == end
                && actions == seq![track_action(args, stage)] + rest
        }),
{
}

/// What the command is told before it prints, in order.
pub open spec fn track_events(
    auto_stats: SnapshotStats,
    track_stats: SnapshotStats,
    num_rebased: usize,
) -> Seq<TrackEvent> {
    seq![
        TrackEvent::Opened(auto_stats),
        TrackEvent::Done,
        TrackEvent::Done,
        TrackEvent::Done,
        TrackEvent::Done,
        TrackEvent::Snapshotted(track_stats),
        TrackEvent::Rebased(num_rebased),
    ] + if num_rebased > 0 {
        seq![TrackEvent::Done]
    } else {
        Seq::empty()
    } + seq![TrackEvent::Done, TrackEvent::Done]
}

/// An event that is taken may stand before events that lead to the report.
proof fn lemma_one_before(
    args: TrackArgsView,
    stage: TrackStage,
    event: TrackEvent,
    rest: Seq<TrackEvent>,
)
    requires
        track_next(stage, event) is Some,
        track_run(args, track_next(stage, event)->Some_0, rest) matches Some((actions, end)) && end
            == TrackStage::Print,
    ensures
        track_run(args, stage, seq![event] + rest) matches Some((actions, end)) && end
            == TrackStage::Print,
{
    assert((seq![event] + rest).skip(1) =~= rest);
}

/// Whatever the command is told on its way, as its actions ask for it, leads to
/// its report.
pub proof fn law_every_track_script_can_run(
    args: TrackArgsView,
    auto_stats: SnapshotStats,
    track_stats: SnapshotStats,
    num_rebased: usize,
)
    ensures
        track_run(
            args,
            TrackStage::Open,
            track_events(auto_stats, track_stats, num_rebased),
        ) matches Some((actions, end)) && end == TrackStage::Print,
{
    let done = TrackEvent::Done;
    let e10 = Seq::<TrackEvent>::empty();
    lemma_one_before(args, TrackStage::Unlock, done, e10);
    let e9 = seq![done] + e10;
    lemma_one_before(args, TrackStage::Commit, done, e9);
    let e8 = seq![done] + e9;
    let e7 = if num_rebased > 0 {
        lemma_one_before(args, TrackStage::Status { num_rebased }, done, e8);
        seq![done] + e8
    } else {
        e8
    };
    let rebased = TrackEvent::Rebased(num_rebased);
    lemma_one_before(args, TrackStage::Rebase, rebased, e7);
    let e6 = seq![rebased] + e7;
    let snapshotted = TrackEvent::Snapshotted(track_stats);
    lemma_one_before(args, TrackStage::Snapshot, snapshotted, e6);
    let e5 = seq![snapshotted] + e6;
    lemma_one_before(args, TrackStage::Lock, done, e5);
    let e4 = seq![done] + e5;
    lemma_one_before(args, TrackStage::Transaction, done, e4);
    let e3 = seq![done] + e4;
    lemma_one_before(args, TrackStage::Options, done, e3);
    let e2 = seq![done] + e3;
    lemma_one_before(args, TrackStage::Parse, done, e2);
    let e1 = seq![done] + e2;
    let opened = TrackEvent::Opened(auto_stats);
    lemma_one_before(args, TrackStage::Open, opened, e1);
    assert(track_events(auto_stats, track_stats, num_rebased) =~= seq![opened] + e1);
}

/// Whenever the command gets from its start to its report, it has done exactly
/// what its script says: tracking is forced if and only if ignored files are to
/// be included, rebased commits are reported if and only if there are any, and
/// the transaction is committed before the working copy is released.
pub proof fn law_track_follows_its_script(args: TrackArgsView, events: Seq<TrackEvent>)
    requires
        track_run(args, TrackStage::Open, events) matches Some((actions, end)) && end
            == TrackStage::Print,
    ensures
        events.len() > 6,
        events[0] is Opened,
        events[5] is Snapshotted,
        events[6] is Rebased,
        events == track_events(
            events[0]->Opened_0,
            events[5]->Snapshotted_0,
            events[6]->Rebased_0,
        ),
        track_run(args, TrackStage::Open, events)->Some_0.0 == track_script(
            args,
            events[6]->Rebased_0,
        ),
{
    let actions = track_run(args, TrackStage::Open, events)->Some_0.0;
    let num_rebased = events[6]->Rebased_0;
    lemma_track_step(args, TrackStage::Open, events);
    let e1 = events.skip(1);
    lemma_track_step(args, TrackStage::Parse, e1);
    let e2 = e1.skip(1);
    lemma_track_step(args, TrackStage::Options, e2);
    let e3 = e2.skip(1);
    lemma_track_step(args, TrackStage::Transaction, e3);
    let e4 = e3.skip(1);
    lemma_track_step(args, TrackStage::Lock, e4);
    let e5 = e4.skip(1);
    lemma_track_step(args, TrackStage::Snapshot, e5);
    let e6 = e5.skip(1);
    lemma_track_step(args, TrackStage::Rebase, e6);
    assert(e6[0] == events[6]);
    let e7 = e6.skip(1);
    let e8 = if num_rebased > 0 {
        lemma_track_step(args, TrackStage::Status { num_rebased }, e7);
        e7.skip(1)
    } else {
        e7
    };
    lemma_track_step(args, TrackStage::Commit, e8);
    let e9 = e8.skip(1);
    lemma_track_step(args, TrackStage::Unlock, e9);
    let e10 = e9.skip(1);
    assert(track_run(args, TrackStage::Print, e10)->Some_0.0 =~= Seq::empty());
    assert(actions =~= track_script(args, num_rebased));
    assert(e5[0] == events[5]);
    assert(events =~= track_events(events[0]->Opened_0, events[5]->Snapshotted_0, num_rebased));
}

pub type SpecTrackAction = TrackAction<Seq<char>, Seq<Seq<char>>>;

/// If one kind of step is wanted of a whole run, it is found at its place.
proof fn lemma_step_at(
    args: TrackArgsView,
    events: Seq<TrackEvent>,
    wanted: spec_fn(SpecTrackAction) -> bool,
    place: int,
)
    requires
        reaches_report(args, events),
        forall|action: SpecTrackAction| #[trigger] wanted(action) <==> place_of(action) == place,
        0 <= place <= 10,
    ensures
        ({
            let actions = actions_of(args, events);
            let n = events[6]->Rebased_0;
            let at = if place > 7 && n == 0 {
                place - 1
            } else {
                place
            };
            if place == 10 || (place == 7 && n == 0) {
                &&& actions.filter(wanted) == Seq::<SpecTrackAction>::empty()
                &&& runs::replies(actions, events, wanted) == Seq::<TrackEvent>::empty()
            } else {
                &&& actions.filter(wanted) == seq![track_script(args, n)[at]]
                &&& runs::replies(actions, events, wanted) == seq![events[at]]
            }
        }),
{
    law_track_steps_come_in_order(args, events);
    law_track_follows_its_script(args, events);
    let actions = actions_of(args, events);
    let n = events[6]->Rebased_0;
    let at = if place > 7 && n == 0 {
        place - 1
    } else {
        place
    };
    assert forall|i: int| 0 <= i < actions.len() implies place_of(#[trigger] actions[i]) == if n > 0
        || i < 7 {
        i
    } else {
        i + 1
    } by {}
    if place == 10 || (place == 7 && n == 0) {
        runs::lemma_alike(actions, events, wanted);
    } else {
        runs::lemma_range(actions, events, wanted, at, at + 1);
        assert(actions.subrange(at, at + 1) =~= seq![actions[at]]);
        assert(events.subrange(at, at + 1) =~= seq![events[at]]);
    }
}

/// What the command does when it is told `events` from its start on.
pub open spec fn actions_of(args: TrackArgsView, events: Seq<TrackEvent>) -> Seq<SpecTrackAction> {
    track_run(args, TrackStage::Open, events)->Some_0.0
}

/// Whether `events` lead the command from its start to its report.
pub open spec fn reaches_report(args: TrackArgsView, events: Seq<TrackEvent>) -> bool {
    track_run(args, TrackStage::Open, events) matches Some((actions, end)) && end
        == TrackStage::Print
}

/// A run takes one snapshot, in which tracking is forced if and only if ignored
/// files are to be included, whatever the paths are.
pub proof fn law_tracking_is_forced_iff_asked(args: TrackArgsView, events: Seq<TrackEvent>)
    requires
        reaches_report(args, events),
    ensures
        actions_of(args, events).filter(|action: SpecTrackAction| action is TakeSnapshot) == seq![
            SpecTrackAction::TakeSnapshot { force_tracking: args.include_ignored },
        ],
{
    law_track_follows_its_script(args, events);
    let wanted = |action: SpecTrackAction| action is TakeSnapshot;
    lemma_step_at(args, events, wanted, 5);
    assert(actions_of(args, events).filter(wanted) =~= seq![
        SpecTrackAction::TakeSnapshot { force_tracking: args.include_ignored },
    ]);
}

/// A run parses the paths that were given, all of them and no others, once.
pub proof fn law_given_paths_are_tracked(args: TrackArgsView, events: Seq<TrackEvent>)
    requires
        reaches_report(args, events),
    ensures
        actions_of(args, events).filter(|action: SpecTrackAction| action is ParsePatterns) == seq![
            SpecTrackAction::ParsePatterns(args.paths),
        ],
{
    law_track_follows_its_script(args, events);
    let wanted = |action: SpecTrackAction| action is ParsePatterns;
    lemma_step_at(args, events, wanted, 1);
    assert(actions_of(args, events).filter(wanted) =~= seq![
        SpecTrackAction::ParsePatterns(args.paths),
    ]);
}

/// A run says how many commits were rebased, if and only if there are any: it
/// rebases once, and the number that it is told is the one in its status line.
pub proof fn law_rebased_commits_are_counted(
    args: TrackArgsView,
    events: Seq<TrackEvent>,
    num_rebased: usize,
)
    requires
        reaches_report(args, events),
        events.contains(TrackEvent::Rebased(num_rebased)),
    ensures
        runs::replies(
            actions_of(args, events),
            events,
            |action: SpecTrackAction| action is RebaseDescendants,
        ) == seq![TrackEvent::Rebased(num_rebased)],
        actions_of(args, events).filter(|action: SpecTrackAction| action is WriteStatus)
            == if num_rebased > 0 {
            seq![
                SpecTrackAction::WriteStatus(
                    "Rebased "@ + text::numeral(num_rebased as nat) + " descendant commits"@,
                ),
            ]
        } else {
            Seq::empty()
        },
{
    law_track_follows_its_script(args, events);
    let n = events[6]->Rebased_0;
    let at = events.index_of(TrackEvent::Rebased(num_rebased));
    assert(events[at] == track_events(events[0]->Opened_0, events[5]->Snapshotted_0, n)[at]);
    assert(at == 6);
    let wanted = |action: SpecTrackAction| action is RebaseDescendants;
    lemma_step_at(args, events, wanted, 6);
    assert(runs::replies(actions_of(args, events), events, wanted) =~= seq![TrackEvent::Rebased(n)]);
    let says = |action: SpecTrackAction| action is WriteStatus;
    lemma_step_at(args, events, says, 7);
    assert(actions_of(args, events).filter(says) =~= if num_rebased > 0 {
        seq![
            SpecTrackAction::WriteStatus(
                "Rebased "@ + text::numeral(num_rebased as nat) + " descendant commits"@,
            ),
        ]
    } else {
        Seq::empty()
    });
}

/// Every other step is taken once, and the transaction is committed under its
/// description.
pub proof fn law_every_step_is_taken_once(args: TrackArgsView, events: Seq<TrackEvent>)
    requires
        reaches_report(args, events),
    ensures
        actions_of(args, events).filter(|action: SpecTrackAction| action is OpenWorkspace) == seq![
            SpecTrackAction::OpenWorkspace,
        ],
        actions_of(args, events).filter(|action: SpecTrackAction| action is MakeOptions) == seq![
            SpecTrackAction::MakeOptions,
        ],
        actions_of(args, events).filter(|action: SpecTrackAction| action is StartTransaction) == seq![
            SpecTrackAction::StartTransaction,
        ],
        actions_of(args, events).filter(|action: SpecTrackAction| action is LockWorkingCopy) == seq![
            SpecTrackAction::LockWorkingCopy,
        ],
        actions_of(args, events).filter(|action: SpecTrackAction| action is RebaseDescendants) == seq![
            SpecTrackAction::RebaseDescendants,
        ],
        actions_of(args, events).filter(|action: SpecTrackAction| action is FinishWorkingCopy) == seq![
            SpecTrackAction::FinishWorkingCopy,
        ],
        actions_of(args, events).filter(|action: SpecTrackAction| action is CommitTransaction) == seq![
            SpecTrackAction::CommitTransaction("track paths"@),
        ],
        actions_of(args, events).filter(|action: SpecTrackAction| action is PrintReport) == Seq::<SpecTrackAction>::empty(),
{
    law_track_follows_its_script(args, events);
    assert(actions_of(args, events).filter(|action: SpecTrackAction| action is OpenWorkspace) == seq![SpecTrackAction::OpenWorkspace]) by {
        let wanted = |action: SpecTrackAction| action is OpenWorkspace;
        lemma_step_at(args, events, wanted, 0);
    }
    assert(actions_of(args, events).filter(|action: SpecTrackAction| action is MakeOptions) == seq![SpecTrackAction::MakeOptions]) by {
        let wanted = |action: SpecTrackAction| action is MakeOptions;
        lemma_step_at(args, events, wanted, 2);
    }
    assert(actions_of(args, events).filter(|action: SpecTrackAction| action is StartTransaction) == seq![SpecTrackAction::StartTransaction]) by {
        let wanted = |action: SpecTrackAction| action is StartTransaction;
        lemma_step_at(args, events, wanted, 3);
    }
    assert(actions_of(args, events).filter(|action: SpecTrackAction| action is LockWorkingCopy) == seq![SpecTrackAction::LockWorkingCopy]) by {
        let wanted = |action: SpecTrackAction| action is LockWorkingCopy;
        lemma_step_at(args, events, wanted, 4);
    }
    assert(actions_of(args, events).filter(|action: SpecTrackAction| action is RebaseDescendants) == seq![SpecTrackAction::RebaseDescendants]) by {
        let wanted = |action: SpecTrackAction| action is RebaseDescendants;
        lemma_step_at(args, events, wanted, 6);
    }
    assert(actions_of(args, events).filter(|action: SpecTrackAction| action is FinishWorkingCopy) == seq![SpecTrackAction::FinishWorkingCopy]) by {
        let wanted = |action: SpecTrackAction| action is FinishWorkingCopy;
        lemma_step_at(args, events, wanted, 9);
    }
    assert(actions_of(args, events).filter(|action: SpecTrackAction| action is CommitTransaction) == seq![SpecTrackAction::CommitTransaction("track paths"@)]) by {
        let wanted = |action: SpecTrackAction| action is CommitTransaction;
        lemma_step_at(args, events, wanted, 8);
    }
    assert(actions_of(args, events).filter(|action: SpecTrackAction| action is PrintReport) == Seq::<SpecTrackAction>::empty()) by {
        let wanted = |action: SpecTrackAction| action is PrintReport;
        lemma_step_at(args, events, wanted, 10);
    }
}

/// The place of a step among all steps.
pub open spec fn place_of(action: SpecTrackAction) -> int {
    match action {
        TrackAction::OpenWorkspace => 0,
        TrackAction::ParsePatterns(_) => 1,
        TrackAction::MakeOptions => 2,
        TrackAction::StartTransaction => 3,
        TrackAction::LockWorkingCopy => 4,
        TrackAction::TakeSnapshot { .. } => 5,
        TrackAction::RebaseDescendants => 6,
        TrackAction::WriteStatus(_) => 7,
        TrackAction::CommitTransaction(_) => 8,
        TrackAction::FinishWorkingCopy => 9,
        TrackAction::PrintReport => 10,
    }
}

/// The steps come in their order, one event for each.
pub proof fn law_track_steps_come_in_order(args: TrackArgsView, events: Seq<TrackEvent>)
    requires
        reaches_report(args, events),
    ensures
        actions_of(args, events).len() == events.len(),
        forall|i: int, j: int|
            0 <= i < j < events.len() ==> place_of(#[trigger] actions_of(args, events)[i])
                < place_of(#[trigger] actions_of(args, events)[j]),
{
    law_track_follows_its_script(args, events);
    let actions = actions_of(args, events);
    let n = events[6]->Rebased_0;
    assert(actions == track_script(args, n));
    assert forall|i: int| 0 <= i < actions.len() implies place_of(#[trigger] actions[i]) == if n > 0
        || i < 7 {
        i
    } else {
        i + 1
    } by {}
}

/// A command takes the event that its action asks for, and no other; only a
/// report asks for none. So it is never stuck before its report.
pub proof fn law_every_fitting_track_event_is_taken(
    args: TrackArgsView,
    stage: TrackStage,
    event: TrackEvent,
)
    ensures
        track_next(stage, event) is Some <==> match track_action(args, stage) {
            TrackAction::OpenWorkspace => event is Opened,
            TrackAction::TakeSnapshot { .. } => event is Snapshotted,
            TrackAction::RebaseDescendants => event is Rebased,
            TrackAction::PrintReport => false,
            _ => event is Done,
        },
        track_next(stage, event) matches Some(next) ==> place_of(track_action(args, stage))
            < place_of(track_action(args, next)),
        track_action(args, stage) is PrintReport <==> stage == TrackStage::Print,
{
}

/// The reason of a file after tracking, case by case: a file that the last
/// snapshot does not list is not listed; a size that it found stays; and of a
/// file that it only did not track, the reason is the one known before, if there
/// is one, and otherwise stays.
pub proof fn law_reasons_after_tracking(
    auto_reasons: Reasons,
    track_reasons: Reasons,
    path: Seq<Seq<char>>,
)
    ensures
        merged(auto_reasons, track_reasons).contains_key(path) <==> track_reasons.contains_key(path),
        track_reasons.contains_key(path) ==> merged(auto_reasons, track_reasons)[path] == match (
        track_reasons[path]) {
            UntrackedReason::FileTooLarge { size, max_size } => UntrackedReason::FileTooLarge {
                size,
                max_size,
            },
            UntrackedReason::FileNotAutoTracked => if auto_reasons.contains_key(path) {
                auto_reasons[path]
            } else {
                UntrackedReason::FileNotAutoTracked
            },
        },
{
}

/// A hint names, in order, the files among `paths` that are too large and no
/// others, and the largest of their sizes.
pub proof fn law_hint_names_the_large_files(
    hint: LargeFileHint,
    reasons: Reasons,
    paths: Seq<Seq<Seq<char>>>,
    path: Seq<Seq<char>>,
)
    requires
        is_hint(hint, reasons, paths),
        forall|p: Seq<Seq<char>>| reasons.contains_key(p) <==> #[trigger] paths.contains(p),
    ensures
        is_large(reasons, path) <==> reasons.contains_key(path) && reasons[path]
            != UntrackedReason::FileNotAutoTracked,
        repo_path::path_views(hint.files@).contains(path) <==> reasons.contains_key(path)
            && reasons[path] != UntrackedReason::FileNotAutoTracked,
        repo_path::path_views(hint.files@) == paths.filter(
            |p: Seq<Seq<char>>|
                reasons.contains_key(p) && reasons[p] != UntrackedReason::FileNotAutoTracked,
        ),
        hint.files@.len() > 0,
        reasons.contains_key(path) ==> (reasons[path] matches UntrackedReason::FileTooLarge {
            size,
            max_size,
        } ==> size <= hint.size),
        exists|p: Seq<Seq<char>>| #[trigger]
            reasons.contains_key(p) && (reasons[p] matches UntrackedReason::FileTooLarge {
                size,
                max_size,
            } && size == hint.size),
{
    let large = |p: Seq<Seq<char>>| is_large(reasons, p);
    let wanted = |p: Seq<Seq<char>>|
        reasons.contains_key(p) && reasons[p] != UntrackedReason::FileNotAutoTracked;
    assert(large =~= wanted);
    let files = repo_path::path_views(hint.files@);
    assert(files == paths.filter(wanted));
    if files.contains(path) {
        paths.lemma_filter_pred(wanted, files.index_of(path));
    }
    if wanted(path) {
        assert(paths.contains(path));
        paths.lemma_filter_contains(wanted, paths.index_of(path));
    }
    let largest = choose|p: Seq<Seq<char>>| #[trigger]
        is_large(reasons, p) && reasons[p]->size == hint.size;
    assert(paths.contains(largest));
    paths.lemma_filter_contains(wanted, paths.index_of(largest));
    assert(files.len() == hint.files@.len());
}

/// What the arguments hold is what the command goes by.
pub proof fn law_track_arguments_are_kept(args: FileTrackArgs)
    ensures
        args@.include_ignored == args.include_ignored,
        args@.paths.len() == args.paths@.len(),
        forall|i: int| 0 <= i < args.paths@.len() ==> #[trigger] args@.paths[i] == args.paths@[i]@,
{
}

/// An action holds for its reader what it holds for the proofs.
pub proof fn law_track_actions_are_kept(action: TrackAction<String, Vec<String>>)
    ensures
        action@ == match action {
            TrackAction::OpenWorkspace => SpecTrackAction::OpenWorkspace,
            TrackAction::ParsePatterns(paths) => SpecTrackAction::ParsePatterns(
                paths@.map_values(|path: String| path@),
            ),
            TrackAction::MakeOptions => SpecTrackAction::MakeOptions,
            TrackAction::StartTransaction => SpecTrackAction::StartTransaction,
            TrackAction::LockWorkingCopy => SpecTrackAction::LockWorkingCopy,
            TrackAction::TakeSnapshot { force_tracking } => SpecTrackAction::TakeSnapshot {
                force_tracking,
            },
            TrackAction::RebaseDescendants => SpecTrackAction::RebaseDescendants,
            TrackAction::WriteStatus(line) => SpecTrackAction::WriteStatus(line@),
            TrackAction::CommitTransaction(text) => SpecTrackAction::CommitTransaction(text@),
            TrackAction::FinishWorkingCopy => SpecTrackAction::FinishWorkingCopy,
            TrackAction::PrintReport => SpecTrackAction::PrintReport,
        },
{
}

/// A file counts as large if and only if it was left untracked for its size,
/// whatever the size.
pub proof fn law_large_means_too_large(reasons: Reasons, path: Seq<Seq<char>>)
    ensures
        is_large(reasons, path) <==> reasons.contains_key(path) && reasons[path]
            != UntrackedReason::FileNotAutoTracked,
{
}

} // verus!
