//! What every run of `jj commit` comes to, said of what is done and what is told.

use crate::commit;
use crate::commit::{
    CommitAction, CommitAnswers, CommitArgs, CommitArgsView, CommitChoice, CommitEvent, CommitView,
    SpecAction, SpecEvent, TreeChoice,
};
use crate::runs;
use crate::text;
use vstd::prelude::*;

verus! {

/// The place of a step among all steps.
pub open spec fn place_of(action: SpecAction) -> int {
    match action {
        CommitAction::OpenWorkspace => 0,
        CommitAction::LoadCommit(_) => 1,
        CommitAction::MatchFiles(_) => 2,
        CommitAction::FindBookmarks => 3,
        CommitAction::MakeDiffSelector { .. } => 4,
        CommitAction::FindTextEditor => 5,
        CommitAction::StartTransaction => 6,
        CommitAction::LoadBaseTree => 7,
        CommitAction::SelectChanges => 8,
        CommitAction::Warn(_) => 9,
        CommitAction::RewriteCommit { .. } => 10,
        CommitAction::JoinParagraphs(_) => 11,
        CommitAction::AddTrailers(_) => 12,
        CommitAction::WriteDraft(_) => 13,
        CommitAction::RenderTemplate { .. } => 14,
        CommitAction::EditText(_) => 15,
        CommitAction::Hint(_) => 16,
        CommitAction::WriteCommit(_) => 17,
        CommitAction::FindWorkspaces { .. } => 18,
        CommitAction::WriteWorkingCopyCommit { .. } => 19,
        CommitAction::AdvanceBookmarks { .. } => 20,
        CommitAction::EditWorkspace { .. } => 21,
        CommitAction::FinishTransaction(_) => 22,
        CommitAction::Fail(_) => 23,
        CommitAction::Finish => 24,
    }
}

/// Whether steps come in their order, each once but for the workspaces, and have
/// places from `from` up to `to`.
pub open spec fn in_order(actions: Seq<SpecAction>, from: int, to: int) -> bool {
    &&& forall|i: int| 0 <= i < actions.len() ==> from <= place_of(#[trigger] actions[i]) < to
    &&& forall|i: int, j: int|
        0 <= i < j < actions.len() ==> place_of(#[trigger] actions[i]) < place_of(
            #[trigger] actions[j],
        ) || (actions[i] is EditWorkspace && actions[j] is EditWorkspace)
}

proof fn lemma_in_order_sum(x: Seq<SpecAction>, y: Seq<SpecAction>, from: int, mid: int, to: int)
    requires
        in_order(x, from, mid),
        in_order(y, mid, to),
        from <= mid <= to,
    ensures
        in_order(x + y, from, to),
{
    let all = x + y;
    let n = x.len() as int;
    assert forall|i: int| 0 <= i < all.len() implies from <= place_of(#[trigger] all[i]) < to by {
        if i < n {
            assert(all[i] == x[i]);
        } else {
            assert(all[i] == y[i - n]);
        }
    }
    assert forall|i: int, j: int| 0 <= i < j < all.len() implies place_of(#[trigger] all[i])
        < place_of(#[trigger] all[j]) || (all[i] is EditWorkspace && all[j] is EditWorkspace) by {
        if j < n {
            assert(all[i] == x[i] && all[j] == x[j]);
        } else if i < n {
            assert(all[i] == x[i] && all[j] == y[j - n]);
        } else {
            assert(all[i] == y[i - n] && all[j] == y[j - n]);
        }
    }
}

proof fn lemma_script_in_order(args: CommitArgsView, a: CommitAnswers)
    ensures
        in_order(commit::commit_script(args, a), 0, 23),
{
    let p1 = commit::script_opening(args, a);
    let p2 = p1 + commit::script_warning(args, a);
    let p3 = p2 + commit::script_rewrite();
    let p4 = p3 + commit::script_join(args);
    lemma_in_order_sum(p1, commit::script_warning(args, a), 0, 9, 10);
    lemma_in_order_sum(p2, commit::script_rewrite(), 0, 10, 11);
    lemma_in_order_sum(p3, commit::script_join(args), 0, 11, 12);
    let q1 = commit::script_trailers(args, a);
    let q2 = q1 + commit::script_editor(args, a);
    let q3 = q2 + commit::script_hint(args, a);
    let q4 = q3 + commit::script_write(args, a);
    lemma_in_order_sum(q1, commit::script_editor(args, a), 12, 13, 16);
    lemma_in_order_sum(q2, commit::script_hint(args, a), 12, 16, 17);
    lemma_in_order_sum(q3, commit::script_write(args, a), 12, 17, 19);
    lemma_end_in_order(a);
    lemma_in_order_sum(q4, commit::script_end(a), 12, 19, 23);
    lemma_in_order_sum(p4, commit::script_description(args, a), 0, 12, 23);
}

proof fn lemma_end_in_order(a: CommitAnswers)
    ensures
        in_order(commit::script_end(a), 19, 23),
{
    let edits = commit::edit_actions(a.names);
    let first = seq![
        SpecAction::WriteWorkingCopyCommit {
            parent: CommitChoice::Rewritten,
            tree: TreeChoice::Original,
        },
        SpecAction::AdvanceBookmarks { to: CommitChoice::Rewritten },
    ];
    let last = seq![SpecAction::FinishTransaction(commit::transaction_description(a.commit_id))];
    let none = Seq::<SpecAction>::empty();
    assert(in_order(edits, 21, 22));
    lemma_in_order_sum(first, edits, 19, 21, 22);
    lemma_in_order_sum(first + edits, last, 19, 22, 23);
    lemma_in_order_sum(none, last, 19, 22, 23);
    assert(commit::script_end(a) =~= if a.names.len() > 0 {
        first + edits + last
    } else {
        none + last
    });
}

/// What the command does when it is told `events` from its start on.
pub open spec fn actions_of(args: CommitArgsView, events: Seq<SpecEvent>) -> Seq<SpecAction> {
    commit::done_on_the_way(commit::commit_start(args), events)
}

/// Whether `events` lead the command from its start to its end.
pub open spec fn runs_to_its_end(args: CommitArgsView, events: Seq<SpecEvent>) -> bool {
    commit::completes(commit::commit_start(args), events) && commit::countable(events)
}

/// The answers to the actions of a run that are like `wanted`.
pub open spec fn told(
    args: CommitArgsView,
    events: Seq<SpecEvent>,
    wanted: spec_fn(SpecAction) -> bool,
) -> Seq<SpecEvent> {
    runs::replies(actions_of(args, events), events, wanted)
}

/// The actions of a run that are like `wanted`.
pub open spec fn done(
    args: CommitArgsView,
    events: Seq<SpecEvent>,
    wanted: spec_fn(SpecAction) -> bool,
) -> Seq<SpecAction> {
    actions_of(args, events).filter(wanted)
}

/// How many steps stand before the rewrite, the trailers, the editor and the
/// last write of a run.
spec fn rewrite_at(args: CommitArgsView, a: CommitAnswers) -> int {
    9int + commit::script_warning(args, a).len()
}

spec fn trailers_at(args: CommitArgsView, a: CommitAnswers) -> int {
    rewrite_at(args, a) + 1 + commit::script_join(args).len()
}

spec fn editor_at(args: CommitArgsView, a: CommitAnswers) -> int {
    trailers_at(args, a) + commit::script_trailers(args, a).len()
}

spec fn hint_at(args: CommitArgsView, a: CommitAnswers) -> int {
    editor_at(args, a) + commit::script_editor(args, a).len()
}

spec fn write_at(args: CommitArgsView, a: CommitAnswers) -> int {
    hint_at(args, a) + commit::script_hint(args, a).len()
}

proof fn lemma_script_len(args: CommitArgsView, a: CommitAnswers)
    ensures
        commit::commit_script(args, a).len() == write_at(args, a) + 2 + commit::script_end(a).len(),
        commit::commit_events(args, a).len() == commit::commit_script(args, a).len(),
{
}

/// Of steps in order, one that is not about a workspace is found where it
/// stands.
proof fn lemma_found_once(
    actions: Seq<SpecAction>,
    events: Seq<SpecEvent>,
    wanted: spec_fn(SpecAction) -> bool,
    place: int,
    at: int,
)
    requires
        in_order(actions, 0, 23),
        actions.len() == events.len(),
        forall|action: SpecAction| #[trigger] wanted(action) <==> place_of(action) == place,
        place != 21,
        0 <= at < actions.len(),
        place_of(actions[at]) == place,
    ensures
        actions.filter(wanted) == seq![actions[at]],
        runs::replies(actions, events, wanted) == seq![events[at]],
{
    assert forall|i: int| 0 <= i < actions.len() implies (wanted(#[trigger] actions[i]) <==> at <= i
        < at + 1) by {
        if i < at {
            assert(place_of(actions[i]) < place_of(actions[at]) || actions[at] is EditWorkspace);
        } else if i > at {
            assert(place_of(actions[at]) < place_of(actions[i]) || actions[at] is EditWorkspace);
        }
    }
    runs::lemma_range(actions, events, wanted, at, at + 1);
    assert(actions.subrange(at, at + 1) =~= seq![actions[at]]);
    assert(events.subrange(at, at + 1) =~= seq![events[at]]);
}

/// Whether a run did what its script says for the answers `a`, and was told
/// them.
#[verifier::opaque]
spec fn follows(args: CommitArgsView, events: Seq<SpecEvent>, a: CommitAnswers) -> bool {
    &&& actions_of(args, events) == commit::commit_script(args, a)
    &&& events == commit::commit_events(args, a)
}

proof fn lemma_follows(args: CommitArgsView, events: Seq<SpecEvent>) -> (a: CommitAnswers)
    requires
        runs_to_its_end(args, events),
    ensures
        follows(args, events, a),
{
    reveal(follows);
    commit::law_commit_follows_its_script(args, events)
}

/// A step that a run takes once is found where it stands.
proof fn lemma_done_at(
    args: CommitArgsView,
    events: Seq<SpecEvent>,
    a: CommitAnswers,
    wanted: spec_fn(SpecAction) -> bool,
    place: int,
    at: int,
)
    requires
        follows(args, events, a),
        forall|action: SpecAction| #[trigger] wanted(action) <==> place_of(action) == place,
        place != 21,
        0 <= at < commit::commit_script(args, a).len(),
        place_of(commit::commit_script(args, a)[at]) == place,
    ensures
        done(args, events, wanted) == seq![commit::commit_script(args, a)[at]],
        told(args, events, wanted) == seq![events[at]],
{
    reveal(follows);
    lemma_script_in_order(args, a);
    lemma_script_len(args, a);
    lemma_found_once(commit::commit_script(args, a), events, wanted, place, at);
}

/// A step that a run does not take is not found.
proof fn lemma_not_done(
    args: CommitArgsView,
    events: Seq<SpecEvent>,
    a: CommitAnswers,
    wanted: spec_fn(SpecAction) -> bool,
)
    requires
        follows(args, events, a),
        !commit::has_action(commit::commit_script(args, a), wanted),
    ensures
        done(args, events, wanted) == Seq::<SpecAction>::empty(),
        told(args, events, wanted) == Seq::<SpecEvent>::empty(),
{
    reveal(follows);
    lemma_script_len(args, a);
    runs::lemma_alike(commit::commit_script(args, a), events, wanted);
}

/// The first steps of a script are where they stand.
proof fn lemma_opening_steps(args: CommitArgsView, a: CommitAnswers, i: int)
    requires
        0 <= i < 9,
    ensures
        commit::commit_script(args, a).len() > 9,
        commit::commit_script(args, a)[i] == commit::script_opening(args, a)[i],
{
}

/// The steps in the middle of a script are where they stand.
proof fn lemma_middle_steps(args: CommitArgsView, a: CommitAnswers)
    ensures
        commit::commit_script(args, a)[rewrite_at(args, a)] == (SpecAction::RewriteCommit {
            tree: TreeChoice::Selected,
        }),
        commit::commit_events(args, a)[rewrite_at(args, a)] == SpecEvent::Text(a.own_description),
        args.paths.len() > 0 && a.selected == a.base_tree ==> commit::commit_script(args, a)[9]
            == SpecAction::Warn(commit::no_match_warning(args.paths)),
        args.message_paragraphs matches Some(paragraphs) ==> {
            &&& commit::commit_script(args, a)[rewrite_at(args, a) + 1] == SpecAction::JoinParagraphs(
                paragraphs,
            )
            &&& commit::commit_events(args, a)[rewrite_at(args, a) + 1] == SpecEvent::Text(a.message)
        },
{
    lemma_script_len(args, a);
}

/// The steps of a script from the trailers on are where they stand.
proof fn lemma_description_steps(args: CommitArgsView, a: CommitAnswers)
    ensures
        commit::wants_trailers(args, a) ==> {
            &&& commit::commit_script(args, a)[trailers_at(args, a)] == SpecAction::AddTrailers(
                commit::given_description(args, a),
            )
            &&& commit::commit_events(args, a)[trailers_at(args, a)] == SpecEvent::Text(a.trailed)
        },
        args.use_editor() ==> {
            let at = editor_at(args, a);
            &&& commit::commit_script(args, a)[at] == SpecAction::WriteDraft(a.trailed)
            &&& commit::commit_script(args, a)[at + 1] == SpecAction::RenderTemplate { intro: Seq::empty() }
            &&& commit::commit_script(args, a)[at + 2] == SpecAction::EditText(a.template)
            &&& commit::commit_events(args, a)[at + 1] == SpecEvent::Text(a.template)
            &&& commit::commit_events(args, a)[at + 2] == SpecEvent::Text(a.edited)
        },
        args.use_editor() && a.edited.len() == 0 ==> commit::commit_script(args, a)[hint_at(args, a)]
            == SpecAction::Hint(commit::empty_message_hint()),
        commit::commit_script(args, a)[write_at(args, a)] == SpecAction::WriteCommit(
            commit::final_description(args, a),
        ),
        commit::commit_script(args, a)[write_at(args, a) + 1] == (SpecAction::FindWorkspaces {
            at: CommitChoice::Original,
        }),
        commit::commit_events(args, a)[write_at(args, a) + 1] == SpecEvent::Names(a.names),
        a.names.len() > 0 ==> {
            let at = write_at(args, a) + 2;
            &&& commit::commit_script(args, a)[at] == (SpecAction::WriteWorkingCopyCommit {
                parent: CommitChoice::Rewritten,
                tree: TreeChoice::Original,
            })
            &&& commit::commit_script(args, a)[at + 1] == (SpecAction::AdvanceBookmarks {
                to: CommitChoice::Rewritten,
            })
        },
{
    lemma_script_len(args, a);
    let before = commit::script_opening(args, a) + commit::script_warning(args, a) + commit::script_rewrite() + commit::script_join(
        args,
    );
    let n = trailers_at(args, a);
    assert(before.len() == n);
    let rest = commit::script_description(args, a);
    let rest_events = commit::description_events(args, a);
    let all = commit::commit_script(args, a);
    let all_events = commit::commit_events(args, a);
    assert(all.skip(n) =~= rest);
    assert(all_events.skip(n) =~= rest_events);
    assert forall|i: int| 0 <= i < rest.len() implies #[trigger] rest[i] == all[n + i] by {
        assert(all.skip(n)[i] == all[n + i]);
    }
    assert forall|i: int| 0 <= i < rest_events.len() implies #[trigger] rest_events[i]
        == all_events[n + i] by {
        assert(all_events.skip(n)[i] == all_events[n + i]);
    }
    let t = commit::script_trailers(args, a).len() as int;
    let e = t + commit::script_editor(args, a).len();
    let h = e + commit::script_hint(args, a).len();
    if commit::wants_trailers(args, a) {
        assert(rest[0] == SpecAction::AddTrailers(commit::given_description(args, a)));
        assert(rest_events[0] == SpecEvent::Text(a.trailed));
    }
    if args.use_editor() {
        assert(rest[t] == commit::script_editor(args, a)[0]);
        assert(rest[t + 1] == commit::script_editor(args, a)[1]);
        assert(rest[t + 2] == commit::script_editor(args, a)[2]);
        assert(rest_events[t + 1] == SpecEvent::Text(a.template));
        assert(rest_events[t + 2] == SpecEvent::Text(a.edited));
        if a.edited.len() == 0 {
            assert(rest[e] == commit::script_hint(args, a)[0]);
        }
    }
    assert(rest[h] == commit::script_write(args, a)[0]);
    assert(rest[h + 1] == commit::script_write(args, a)[1]);
    assert(rest_events[h + 1] == SpecEvent::Names(a.names));
    if a.names.len() > 0 {
        assert(rest[h + 2] == commit::script_end(a)[0]);
        assert(rest[h + 3] == commit::script_end(a)[1]);
    }
}

/// What a run does of its kind, and what it is told of it.
proof fn lemma_open_workspace(args: CommitArgsView, events: Seq<SpecEvent>, a: CommitAnswers)
    requires
        follows(args, events, a),
    ensures
        done(args, events, |action: SpecAction| action is OpenWorkspace) == seq![SpecAction::OpenWorkspace],
        told(args, events, |action: SpecAction| action is OpenWorkspace) == seq![SpecEvent::Opened(Some(a.commit_id))],
{
    reveal(follows);
    lemma_script_len(args, a);
    lemma_opening_steps(args, a, 0);
    assert(commit::commit_events(args, a)[0] == SpecEvent::Opened(Some(a.commit_id)));
    let wanted = |action: SpecAction| action is OpenWorkspace;
    lemma_done_at(args, events, a, wanted, 0, 0);
}

/// What a run does of its kind, and what it is told of it.
proof fn lemma_load_commit(args: CommitArgsView, events: Seq<SpecEvent>, a: CommitAnswers)
    requires
        follows(args, events, a),
    ensures
        done(args, events, |action: SpecAction| action is LoadCommit) == seq![SpecAction::LoadCommit(a.commit_id)],
{
    reveal(follows);
    lemma_script_len(args, a);
    lemma_opening_steps(args, a, 1);
    let wanted = |action: SpecAction| action is LoadCommit;
    lemma_done_at(args, events, a, wanted, 1, 1);
}

/// What a run does of its kind, and what it is told of it.
proof fn lemma_match_files(args: CommitArgsView, events: Seq<SpecEvent>, a: CommitAnswers)
    requires
        follows(args, events, a),
    ensures
        done(args, events, |action: SpecAction| action is MatchFiles) == seq![SpecAction::MatchFiles(args.paths)],
{
    reveal(follows);
    lemma_script_len(args, a);
    lemma_opening_steps(args, a, 2);
    let wanted = |action: SpecAction| action is MatchFiles;
    lemma_done_at(args, events, a, wanted, 2, 2);
}

/// What a run does of its kind, and what it is told of it.
proof fn lemma_find_bookmarks(args: CommitArgsView, events: Seq<SpecEvent>, a: CommitAnswers)
    requires
        follows(args, events, a),
    ensures
        done(args, events, |action: SpecAction| action is FindBookmarks) == seq![SpecAction::FindBookmarks],
{
    reveal(follows);
    lemma_script_len(args, a);
    lemma_opening_steps(args, a, 3);
    let wanted = |action: SpecAction| action is FindBookmarks;
    lemma_done_at(args, events, a, wanted, 3, 3);
}

/// What a run does of its kind, and what it is told of it.
proof fn lemma_make_diff_selector(args: CommitArgsView, events: Seq<SpecEvent>, a: CommitAnswers)
    requires
        follows(args, events, a),
    ensures
        done(args, events, |action: SpecAction| action is MakeDiffSelector) == seq![SpecAction::MakeDiffSelector { tool: args.tool, interactive: args.interactive }],
{
    reveal(follows);
    lemma_script_len(args, a);
    lemma_opening_steps(args, a, 4);
    let wanted = |action: SpecAction| action is MakeDiffSelector;
    lemma_done_at(args, events, a, wanted, 4, 4);
}

/// What a run does of its kind, and what it is told of it.
proof fn lemma_find_text_editor(args: CommitArgsView, events: Seq<SpecEvent>, a: CommitAnswers)
    requires
        follows(args, events, a),
    ensures
        done(args, events, |action: SpecAction| action is FindTextEditor) == seq![SpecAction::FindTextEditor],
{
    reveal(follows);
    lemma_script_len(args, a);
    lemma_opening_steps(args, a, 5);
    let wanted = |action: SpecAction| action is FindTextEditor;
    lemma_done_at(args, events, a, wanted, 5, 5);
}

/// What a run does of its kind, and what it is told of it.
proof fn lemma_start_transaction(args: CommitArgsView, events: Seq<SpecEvent>, a: CommitAnswers)
    requires
        follows(args, events, a),
    ensures
        done(args, events, |action: SpecAction| action is StartTransaction) == seq![SpecAction::StartTransaction],
{
    reveal(follows);
    lemma_script_len(args, a);
    lemma_opening_steps(args, a, 6);
    let wanted = |action: SpecAction| action is StartTransaction;
    lemma_done_at(args, events, a, wanted, 6, 6);
}

/// What a run does of its kind, and what it is told of it.
proof fn lemma_load_base_tree(args: CommitArgsView, events: Seq<SpecEvent>, a: CommitAnswers)
    requires
        follows(args, events, a),
    ensures
        done(args, events, |action: SpecAction| action is LoadBaseTree) == seq![SpecAction::LoadBaseTree],
        told(args, events, |action: SpecAction| action is LoadBaseTree) == seq![SpecEvent::Tree(a.base_tree)],
{
    reveal(follows);
    lemma_script_len(args, a);
    lemma_opening_steps(args, a, 7);
    assert(commit::commit_events(args, a)[7] == SpecEvent::Tree(a.base_tree));
    let wanted = |action: SpecAction| action is LoadBaseTree;
    lemma_done_at(args, events, a, wanted, 7, 7);
}

/// What a run does of its kind, and what it is told of it.
proof fn lemma_select_changes(args: CommitArgsView, events: Seq<SpecEvent>, a: CommitAnswers)
    requires
        follows(args, events, a),
    ensures
        done(args, events, |action: SpecAction| action is SelectChanges) == seq![SpecAction::SelectChanges],
        told(args, events, |action: SpecAction| action is SelectChanges) == seq![SpecEvent::Tree(a.selected)],
{
    reveal(follows);
    lemma_script_len(args, a);
    lemma_opening_steps(args, a, 8);
    assert(commit::commit_events(args, a)[8] == SpecEvent::Tree(a.selected));
    let wanted = |action: SpecAction| action is SelectChanges;
    lemma_done_at(args, events, a, wanted, 8, 8);
}

/// What a run does of its kind, and what it is told of it.
proof fn lemma_warn(args: CommitArgsView, events: Seq<SpecEvent>, a: CommitAnswers)
    requires
        follows(args, events, a),
    ensures
        args.paths.len() > 0 && a.selected == a.base_tree ==> done(args, events, |action: SpecAction| action is Warn) == seq![SpecAction::Warn(commit::no_match_warning(args.paths))],
        !(args.paths.len() > 0 && a.selected == a.base_tree) ==> done(args, events, |action: SpecAction| action is Warn) == Seq::<SpecAction>::empty(),
{
    reveal(follows);
    lemma_script_len(args, a);
    lemma_middle_steps(args, a);
    let wanted = |action: SpecAction| action is Warn;
    if args.paths.len() > 0 && a.selected == a.base_tree {
        lemma_done_at(args, events, a, wanted, 9, 9);
    } else {
        commit::law_warning_iff_nothing_selected(args, a);
        lemma_not_done(args, events, a, wanted);
    }
}

/// What a run does of its kind, and what it is told of it.
proof fn lemma_rewrite_commit(args: CommitArgsView, events: Seq<SpecEvent>, a: CommitAnswers)
    requires
        follows(args, events, a),
    ensures
        done(args, events, |action: SpecAction| action is RewriteCommit) == seq![SpecAction::RewriteCommit { tree: TreeChoice::Selected }],
        told(args, events, |action: SpecAction| action is RewriteCommit) == seq![SpecEvent::Text(a.own_description)],
{
    reveal(follows);
    lemma_script_len(args, a);
    lemma_middle_steps(args, a);
    let wanted = |action: SpecAction| action is RewriteCommit;
    lemma_done_at(args, events, a, wanted, 10, rewrite_at(args, a));
}

/// What a run does of its kind, and what it is told of it.
proof fn lemma_join_paragraphs(args: CommitArgsView, events: Seq<SpecEvent>, a: CommitAnswers)
    requires
        follows(args, events, a),
    ensures
        args.message_paragraphs is Some ==> done(args, events, |action: SpecAction| action is JoinParagraphs) == seq![SpecAction::JoinParagraphs(args.message_paragraphs->Some_0)],
        args.message_paragraphs is Some ==> told(args, events, |action: SpecAction| action is JoinParagraphs) == seq![SpecEvent::Text(a.message)],
        !(args.message_paragraphs is Some) ==> done(args, events, |action: SpecAction| action is JoinParagraphs) == Seq::<SpecAction>::empty(),
{
    reveal(follows);
    lemma_script_len(args, a);
    lemma_middle_steps(args, a);
    let wanted = |action: SpecAction| action is JoinParagraphs;
    if args.message_paragraphs is Some {
        lemma_done_at(args, events, a, wanted, 11, rewrite_at(args, a) + 1);
    } else {
        commit::lemma_script_parts(args, a, wanted);
        commit::lemma_not_in_end(a, wanted);
        lemma_not_done(args, events, a, wanted);
    }
}

/// What a run does of its kind, and what it is told of it.
proof fn lemma_add_trailers(args: CommitArgsView, events: Seq<SpecEvent>, a: CommitAnswers)
    requires
        follows(args, events, a),
    ensures
        commit::wants_trailers(args, a) ==> done(args, events, |action: SpecAction| action is AddTrailers) == seq![SpecAction::AddTrailers(commit::given_description(args, a))],
        commit::wants_trailers(args, a) ==> told(args, events, |action: SpecAction| action is AddTrailers) == seq![SpecEvent::Text(a.trailed)],
        !(commit::wants_trailers(args, a)) ==> done(args, events, |action: SpecAction| action is AddTrailers) == Seq::<SpecAction>::empty(),
{
    reveal(follows);
    lemma_script_len(args, a);
    lemma_description_steps(args, a);
    let wanted = |action: SpecAction| action is AddTrailers;
    if commit::wants_trailers(args, a) {
        lemma_done_at(args, events, a, wanted, 12, trailers_at(args, a));
    } else {
        commit::law_empty_message_stays_empty(args, a);
        lemma_not_done(args, events, a, wanted);
    }
}

/// What a run does of its kind, and what it is told of it.
proof fn lemma_write_draft(args: CommitArgsView, events: Seq<SpecEvent>, a: CommitAnswers)
    requires
        follows(args, events, a),
    ensures
        args.use_editor() ==> done(args, events, |action: SpecAction| action is WriteDraft) == seq![SpecAction::WriteDraft(a.trailed)],
        !(args.use_editor()) ==> done(args, events, |action: SpecAction| action is WriteDraft) == Seq::<SpecAction>::empty(),
{
    reveal(follows);
    lemma_script_len(args, a);
    lemma_description_steps(args, a);
    let wanted = |action: SpecAction| action is WriteDraft;
    if args.use_editor() {
        lemma_done_at(args, events, a, wanted, 13, editor_at(args, a));
    } else {
        commit::lemma_script_parts(args, a, wanted);
        commit::lemma_not_in_end(a, wanted);
        lemma_not_done(args, events, a, wanted);
    }
}

/// What a run does of its kind, and what it is told of it.
proof fn lemma_render_template(args: CommitArgsView, events: Seq<SpecEvent>, a: CommitAnswers)
    requires
        follows(args, events, a),
    ensures
        args.use_editor() ==> done(args, events, |action: SpecAction| action is RenderTemplate) == seq![SpecAction::RenderTemplate { intro: Seq::empty() }],
        args.use_editor() ==> told(args, events, |action: SpecAction| action is RenderTemplate) == seq![SpecEvent::Text(a.template)],
        !(args.use_editor()) ==> done(args, events, |action: SpecAction| action is RenderTemplate) == Seq::<SpecAction>::empty(),
{
    reveal(follows);
    lemma_script_len(args, a);
    lemma_description_steps(args, a);
    let wanted = |action: SpecAction| action is RenderTemplate;
    if args.use_editor() {
        lemma_done_at(args, events, a, wanted, 14, editor_at(args, a) + 1);
    } else {
        commit::lemma_script_parts(args, a, wanted);
        commit::lemma_not_in_end(a, wanted);
        lemma_not_done(args, events, a, wanted);
    }
}

/// What a run does of its kind, and what it is told of it.
proof fn lemma_edit_text(args: CommitArgsView, events: Seq<SpecEvent>, a: CommitAnswers)
    requires
        follows(args, events, a),
    ensures
        args.use_editor() ==> done(args, events, |action: SpecAction| action is EditText) == seq![SpecAction::EditText(a.template)],
        args.use_editor() ==> told(args, events, |action: SpecAction| action is EditText) == seq![SpecEvent::Text(a.edited)],
        !(args.use_editor()) ==> done(args, events, |action: SpecAction| action is EditText) == Seq::<SpecAction>::empty(),
{
    reveal(follows);
    lemma_script_len(args, a);
    lemma_description_steps(args, a);
    let wanted = |action: SpecAction| action is EditText;
    if args.use_editor() {
        lemma_done_at(args, events, a, wanted, 15, editor_at(args, a) + 2);
    } else {
        commit::law_editor_opens_iff_wanted(args, a);
        lemma_not_done(args, events, a, wanted);
    }
}

/// What a run does of its kind, and what it is told of it.
proof fn lemma_hint(args: CommitArgsView, events: Seq<SpecEvent>, a: CommitAnswers)
    requires
        follows(args, events, a),
    ensures
        args.use_editor() && a.edited.len() == 0 ==> done(args, events, |action: SpecAction| action is Hint) == seq![SpecAction::Hint(commit::empty_message_hint())],
        !(args.use_editor() && a.edited.len() == 0) ==> done(args, events, |action: SpecAction| action is Hint) == Seq::<SpecAction>::empty(),
{
    reveal(follows);
    lemma_script_len(args, a);
    lemma_description_steps(args, a);
    let wanted = |action: SpecAction| action is Hint;
    if args.use_editor() && a.edited.len() == 0 {
        lemma_done_at(args, events, a, wanted, 16, hint_at(args, a));
    } else {
        commit::law_hint_iff_left_empty(args, a);
        lemma_not_done(args, events, a, wanted);
    }
}

/// What a run does of its kind, and what it is told of it.
proof fn lemma_write_commit(args: CommitArgsView, events: Seq<SpecEvent>, a: CommitAnswers)
    requires
        follows(args, events, a),
    ensures
        done(args, events, |action: SpecAction| action is WriteCommit) == seq![SpecAction::WriteCommit(commit::final_description(args, a))],
{
    reveal(follows);
    lemma_script_len(args, a);
    lemma_description_steps(args, a);
    let wanted = |action: SpecAction| action is WriteCommit;
    lemma_done_at(args, events, a, wanted, 17, write_at(args, a));
}

/// What a run does of its kind, and what it is told of it.
proof fn lemma_find_workspaces(args: CommitArgsView, events: Seq<SpecEvent>, a: CommitAnswers)
    requires
        follows(args, events, a),
    ensures
        done(args, events, |action: SpecAction| action is FindWorkspaces) == seq![SpecAction::FindWorkspaces { at: CommitChoice::Original }],
        told(args, events, |action: SpecAction| action is FindWorkspaces) == seq![SpecEvent::Names(a.names)],
{
    reveal(follows);
    lemma_script_len(args, a);
    lemma_description_steps(args, a);
    let wanted = |action: SpecAction| action is FindWorkspaces;
    lemma_done_at(args, events, a, wanted, 18, write_at(args, a) + 1);
}

/// What a run does of its kind, and what it is told of it.
proof fn lemma_write_working_copy_commit(args: CommitArgsView, events: Seq<SpecEvent>, a: CommitAnswers)
    requires
        follows(args, events, a),
    ensures
        a.names.len() > 0 ==> done(args, events, |action: SpecAction| action is WriteWorkingCopyCommit) == seq![SpecAction::WriteWorkingCopyCommit { parent: CommitChoice::Rewritten, tree: TreeChoice::Original }],
        !(a.names.len() > 0) ==> done(args, events, |action: SpecAction| action is WriteWorkingCopyCommit) == Seq::<SpecAction>::empty(),
{
    reveal(follows);
    lemma_script_len(args, a);
    lemma_description_steps(args, a);
    let wanted = |action: SpecAction| action is WriteWorkingCopyCommit;
    if a.names.len() > 0 {
        lemma_done_at(args, events, a, wanted, 19, write_at(args, a) + 2);
    } else {
        commit::law_remaining_changes_move_on(args, a);
        lemma_not_done(args, events, a, wanted);
    }
}

/// What a run does of its kind, and what it is told of it.
proof fn lemma_advance_bookmarks(args: CommitArgsView, events: Seq<SpecEvent>, a: CommitAnswers)
    requires
        follows(args, events, a),
    ensures
        a.names.len() > 0 ==> done(args, events, |action: SpecAction| action is AdvanceBookmarks) == seq![SpecAction::AdvanceBookmarks { to: CommitChoice::Rewritten }],
        !(a.names.len() > 0) ==> done(args, events, |action: SpecAction| action is AdvanceBookmarks) == Seq::<SpecAction>::empty(),
{
    reveal(follows);
    lemma_script_len(args, a);
    lemma_description_steps(args, a);
    let wanted = |action: SpecAction| action is AdvanceBookmarks;
    if a.names.len() > 0 {
        lemma_done_at(args, events, a, wanted, 20, write_at(args, a) + 3);
    } else {
        commit::law_bookmarks_stay_below(args, a);
        lemma_not_done(args, events, a, wanted);
    }
}

/// What a run does of its kind, and what it is told of it.
proof fn lemma_finish_transaction(args: CommitArgsView, events: Seq<SpecEvent>, a: CommitAnswers)
    requires
        follows(args, events, a),
    ensures
        done(args, events, |action: SpecAction| action is FinishTransaction) == seq![SpecAction::FinishTransaction(commit::transaction_description(a.commit_id))],
{
    reveal(follows);
    lemma_script_len(args, a);
    assert(commit::script_end(a).last() == SpecAction::FinishTransaction(commit::transaction_description(a.commit_id)));
    assert(commit::commit_script(args, a)[commit::commit_script(args, a).len() - 1] == commit::script_end(a).last());
    let wanted = |action: SpecAction| action is FinishTransaction;
    lemma_done_at(args, events, a, wanted, 22, commit::commit_script(args, a).len() - 1);
}

/// The workspaces that a run tells of the new commit are those that it was told
/// of.
proof fn lemma_edits_done(args: CommitArgsView, events: Seq<SpecEvent>, a: CommitAnswers)
    requires
        follows(args, events, a),
    ensures
        done(args, events, |action: SpecAction| action is EditWorkspace) == commit::edit_actions(a.names),
{
    reveal(follows);
    let wanted = |action: SpecAction| action is EditWorkspace;
    let actions = commit::commit_script(args, a);
    let from = write_at(args, a) + 4;
    let to = from + a.names.len();
    lemma_script_len(args, a);
    lemma_script_in_order(args, a);
    if a.names.len() > 0 {
        lemma_edits_at(args, a);
        let middle = actions.subrange(from, to);
        assert(middle =~= commit::edit_actions(a.names));
        assert(actions[from] == middle[0]);
        assert(actions[to - 1] == middle[a.names.len() - 1]);
        assert forall|i: int| 0 <= i < actions.len() implies (wanted(#[trigger] actions[i])
            <==> from <= i < to) by {
            if from <= i < to {
                assert(actions[i] == middle[i - from]);
            } else if i < from {
                lemma_nothing_edited_before(args, a, i);
            } else {
                assert(i == actions.len() - 1);
                assert(actions[i] == commit::script_end(a).last());
            }
        }
        runs::lemma_range(actions, events, wanted, from, to);
    } else {
        assert(!commit::has_action(actions, wanted)) by {
            commit::lemma_script_parts(args, a, wanted);
        }
        lemma_not_done(args, events, a, wanted);
        assert(commit::edit_actions(a.names) =~= Seq::empty());
    }
}

proof fn lemma_edits_at(args: CommitArgsView, a: CommitAnswers)
    requires
        a.names.len() > 0,
    ensures
        commit::commit_script(args, a).len() == write_at(args, a) + 5 + a.names.len(),
        commit::commit_script(args, a).subrange(
            write_at(args, a) + 4,
            write_at(args, a) + 4 + a.names.len(),
        ) == commit::edit_actions(a.names),
{
    lemma_script_len(args, a);
    let n = write_at(args, a) + 2;
    let all = commit::commit_script(args, a);
    assert(all.skip(n) =~= commit::script_end(a));
    assert forall|i: int| 0 <= i < a.names.len() implies all[n + 2 + i] == #[trigger] commit::edit_actions(
        a.names,
    )[i] by {
        assert(all.skip(n)[2 + i] == all[n + 2 + i]);
        assert(commit::script_end(a)[2 + i] == commit::edit_actions(a.names)[i]);
    }
    assert(all.subrange(n + 2, n + 2 + a.names.len()) =~= commit::edit_actions(a.names));
}

proof fn lemma_nothing_edited_before(args: CommitArgsView, a: CommitAnswers, i: int)
    requires
        0 <= i < write_at(args, a) + 4,
        a.names.len() > 0,
    ensures
        commit::commit_script(args, a)[i] !is EditWorkspace,
{
    lemma_script_in_order(args, a);
    lemma_script_len(args, a);
    lemma_description_steps(args, a);
    let at = write_at(args, a) + 3;
    let actions = commit::commit_script(args, a);
    assert(actions[at] is AdvanceBookmarks);
    if i < at {
        assert(place_of(actions[i]) < place_of(actions[at]));
    }
}

/// A run makes one selector of changes, with the tool that was named, and
/// interactive if and only if that was asked for, with a tool or without.
pub proof fn law_diff_selector_is_as_asked(args: CommitArgsView, events: Seq<SpecEvent>)
    requires
        runs_to_its_end(args, events),
    ensures
        done(args, events, |action: SpecAction| action is MakeDiffSelector) == seq![
            SpecAction::MakeDiffSelector { tool: args.tool, interactive: args.interactive },
        ],
{
    let a = lemma_follows(args, events);
    lemma_make_diff_selector(args, events, a);
}

/// A run matches files with the paths that were given, all of them and no
/// others, once.
pub proof fn law_given_paths_are_matched(args: CommitArgsView, events: Seq<SpecEvent>)
    requires
        runs_to_its_end(args, events),
    ensures
        done(args, events, |action: SpecAction| action is MatchFiles) == seq![SpecAction::MatchFiles(args.paths)],
{
    let a = lemma_follows(args, events);
    lemma_match_files(args, events, a);
}

/// A run opens the workspace once and is told of a working-copy commit there; it
/// loads that commit, and finishes one transaction, under its id.
pub proof fn law_run_is_about_the_working_copy_commit(
    args: CommitArgsView,
    events: Seq<SpecEvent>,
    commit_id: Seq<char>,
)
    requires
        runs_to_its_end(args, events),
        events[0] == SpecEvent::Opened(Some(commit_id)),
    ensures
        done(args, events, |action: SpecAction| action is OpenWorkspace) == seq![SpecAction::OpenWorkspace],
        told(args, events, |action: SpecAction| action is OpenWorkspace) == seq![
            SpecEvent::Opened(Some(commit_id)),
        ],
        done(args, events, |action: SpecAction| action is LoadCommit) == seq![SpecAction::LoadCommit(commit_id)],
        done(args, events, |action: SpecAction| action is FinishTransaction) == seq![
            SpecAction::FinishTransaction("commit "@ + commit_id),
        ],
{
    let a = lemma_follows(args, events);
    lemma_open_workspace(args, events, a);
    lemma_load_commit(args, events, a);
    lemma_finish_transaction(args, events, a);
    lemma_first_event(args, events, a);
}

proof fn lemma_first_event(args: CommitArgsView, events: Seq<SpecEvent>, a: CommitAnswers)
    requires
        follows(args, events, a),
    ensures
        events.len() > 0,
        events[0] == SpecEvent::Opened(Some(a.commit_id)),
{
    reveal(follows);
    lemma_script_len(args, a);
    assert(commit::commit_events(args, a)[0] == SpecEvent::Opened(Some(a.commit_id)));
}

/// A run that comes to its end began with a working-copy commit, and gives up
/// nowhere.
pub proof fn law_run_needs_a_working_copy(args: CommitArgsView, events: Seq<SpecEvent>)
    requires
        runs_to_its_end(args, events),
    ensures
        events.len() > 0,
        events[0] matches SpecEvent::Opened(Some(_)),
        done(args, events, |action: SpecAction| action is Fail || action is Finish) == Seq::<
            SpecAction,
        >::empty(),
{
    let a = lemma_follows(args, events);
    lemma_first_event(args, events, a);
    lemma_script_in_order(args, a);
    let wanted = |action: SpecAction| action is Fail || action is Finish;
    assert(!commit::has_action(commit::commit_script(args, a), wanted)) by {
        assert forall|i: int| 0 <= i < commit::commit_script(args, a).len() implies !wanted(
            #[trigger] commit::commit_script(args, a)[i],
        ) by {
            assert(place_of(commit::commit_script(args, a)[i]) < 23);
        }
    }
    lemma_not_done(args, events, a, wanted);
}

/// A run finds bookmarks and the editor, starts a transaction, loads the tree to
/// start from and lets changes be selected, each once, and rewrites the commit
/// once, with the selected tree.
pub proof fn law_run_prepares_once(args: CommitArgsView, events: Seq<SpecEvent>)
    requires
        runs_to_its_end(args, events),
    ensures
        done(args, events, |action: SpecAction| action is FindBookmarks) == seq![SpecAction::FindBookmarks],
        done(args, events, |action: SpecAction| action is FindTextEditor) == seq![SpecAction::FindTextEditor],
        done(args, events, |action: SpecAction| action is StartTransaction) == seq![SpecAction::StartTransaction],
        done(args, events, |action: SpecAction| action is LoadBaseTree) == seq![SpecAction::LoadBaseTree],
        done(args, events, |action: SpecAction| action is SelectChanges) == seq![SpecAction::SelectChanges],
        done(args, events, |action: SpecAction| action is RewriteCommit) == seq![
            SpecAction::RewriteCommit { tree: TreeChoice::Selected },
        ],
{
    let a = lemma_follows(args, events);
    lemma_find_bookmarks(args, events, a);
    lemma_find_text_editor(args, events, a);
    lemma_start_transaction(args, events, a);
    lemma_load_base_tree(args, events, a);
    lemma_select_changes(args, events, a);
    lemma_rewrite_commit(args, events, a);
}

/// A run warns once, of all the paths that were given, if there are some and
/// what was selected is what it started from; otherwise it does not warn.
pub proof fn law_warning_names_the_paths(args: CommitArgsView, events: Seq<SpecEvent>)
    requires
        runs_to_its_end(args, events),
    ensures
        done(args, events, |action: SpecAction| action is Warn) == if args.paths.len() > 0 && told(
            args,
            events,
            |action: SpecAction| action is LoadBaseTree,
        ) == told(args, events, |action: SpecAction| action is SelectChanges) {
            seq![
                SpecAction::Warn(
                    "The given paths do not match any file: "@ + text::joined(args.paths, " "@),
                ),
            ]
        } else {
            Seq::empty()
        },
        told(args, events, |action: SpecAction| action is LoadBaseTree).len() == 1,
        told(args, events, |action: SpecAction| action is SelectChanges).len() == 1,
{
    let a = lemma_follows(args, events);
    lemma_load_base_tree(args, events, a);
    lemma_select_changes(args, events, a);
    lemma_warn(args, events, a);
    let base = told(args, events, |action: SpecAction| action is LoadBaseTree);
    let selected = told(args, events, |action: SpecAction| action is SelectChanges);
    assert(base[0] == SpecEvent::Tree(a.base_tree));
    assert(selected[0] == SpecEvent::Tree(a.selected));
}

/// The description that a run starts from: what its paragraphs were joined to,
/// if there are some, and otherwise what the commit had.
pub open spec fn first_description(args: CommitArgsView, events: Seq<SpecEvent>) -> Seq<char> {
    if args.message_paragraphs is Some {
        told(args, events, |action: SpecAction| action is JoinParagraphs)[0]->Text_0
    } else {
        told(args, events, |action: SpecAction| action is RewriteCommit)[0]->Text_0
    }
}

proof fn lemma_first_description(args: CommitArgsView, events: Seq<SpecEvent>, a: CommitAnswers)
    requires
        follows(args, events, a),
    ensures
        first_description(args, events) == commit::given_description(args, a),
{
    lemma_join_paragraphs(args, events, a);
    lemma_rewrite_commit(args, events, a);
}

/// A run joins the paragraphs of the message, all of them, once, if there is a
/// message; otherwise it joins nothing.
pub proof fn law_message_is_joined(args: CommitArgsView, events: Seq<SpecEvent>)
    requires
        runs_to_its_end(args, events),
    ensures
        done(args, events, |action: SpecAction| action is JoinParagraphs) == match args.message_paragraphs {
            Some(paragraphs) => seq![SpecAction::JoinParagraphs(paragraphs)],
            None => Seq::empty(),
        },
{
    let a = lemma_follows(args, events);
    lemma_join_paragraphs(args, events, a);
}

/// A run adds trailers once, to the description that it starts from, if that is
/// not empty or goes to an editor; otherwise it adds none.
pub proof fn law_trailers_follow_the_description(args: CommitArgsView, events: Seq<SpecEvent>)
    requires
        runs_to_its_end(args, events),
    ensures
        done(args, events, |action: SpecAction| action is AddTrailers) == if first_description(args, events).len() > 0
            || args.message_paragraphs is None || args.editor {
            seq![SpecAction::AddTrailers(first_description(args, events))]
        } else {
            Seq::empty()
        },
{
    let a = lemma_follows(args, events);
    lemma_first_description(args, events, a);
    lemma_add_trailers(args, events, a);
}

/// If there is no message, or an editor was asked for, a run writes a draft with
/// the trailers, renders its template, without an intro, and lets the user edit
/// what came of that, each once; otherwise it does none of this.
pub proof fn law_editor_gets_the_template(args: CommitArgsView, events: Seq<SpecEvent>)
    requires
        runs_to_its_end(args, events),
    ensures
        args.message_paragraphs is None || args.editor ==> {
            &&& done(args, events, |action: SpecAction| action is WriteDraft) == seq![
                SpecAction::WriteDraft(told(args, events, |action: SpecAction| action is AddTrailers)[0]->Text_0),
            ]
            &&& done(args, events, |action: SpecAction| action is RenderTemplate) == seq![
                SpecAction::RenderTemplate { intro: Seq::empty() },
            ]
            &&& done(args, events, |action: SpecAction| action is EditText) == seq![
                SpecAction::EditText(told(args, events, |action: SpecAction| action is RenderTemplate)[0]->Text_0),
            ]
        },
        !(args.message_paragraphs is None || args.editor) ==> done(
            args,
            events,
            |action: SpecAction| action is WriteDraft || action is RenderTemplate || action is EditText,
        ) == Seq::<SpecAction>::empty(),
{
    let a = lemma_follows(args, events);
    lemma_add_trailers(args, events, a);
    lemma_write_draft(args, events, a);
    lemma_render_template(args, events, a);
    lemma_edit_text(args, events, a);
    if !args.use_editor() {
        let wanted = |action: SpecAction|
            action is WriteDraft || action is RenderTemplate || action is EditText;
        commit::lemma_script_parts(args, a, wanted);
        commit::lemma_not_in_end(a, wanted);
        lemma_not_done(args, events, a, wanted);
    }
}

/// A run gives the hint once if an editor left the message empty; otherwise it
/// gives none.
pub proof fn law_empty_edit_gets_the_hint(args: CommitArgsView, events: Seq<SpecEvent>)
    requires
        runs_to_its_end(args, events),
    ensures
        done(args, events, |action: SpecAction| action is Hint) == if (args.message_paragraphs is None || args.editor) && told(
            args,
            events,
            |action: SpecAction| action is EditText,
        )[0]->Text_0.len() == 0 {
            seq![
                SpecAction::Hint(
                    "The commit message was left empty.\nIf this was not intentional, run `jj undo` to restore the previous state.\nOr run `jj desc @-` to add a description to the parent commit.\n"@,
                ),
            ]
        } else {
            Seq::empty()
        },
{
    let a = lemma_follows(args, events);
    lemma_edit_text(args, events, a);
    lemma_hint(args, events, a);
}

/// A run writes the commit once, with the description that came out of the
/// editor, if there was one; otherwise with the message and its trailers, or as
/// empty as the message is.
pub proof fn law_commit_gets_its_description(args: CommitArgsView, events: Seq<SpecEvent>)
    requires
        runs_to_its_end(args, events),
    ensures
        done(args, events, |action: SpecAction| action is WriteCommit) == seq![
            SpecAction::WriteCommit(
                if args.message_paragraphs is None || args.editor {
                    told(args, events, |action: SpecAction| action is EditText)[0]->Text_0
                } else if first_description(args, events).len() > 0 {
                    told(args, events, |action: SpecAction| action is AddTrailers)[0]->Text_0
                } else {
                    Seq::empty()
                },
            ),
        ],
{
    let a = lemma_follows(args, events);
    lemma_first_description(args, events, a);
    lemma_add_trailers(args, events, a);
    lemma_edit_text(args, events, a);
    lemma_write_commit(args, events, a);
    if !args.use_editor() && !commit::wants_trailers(args, a) {
        assert(commit::given_description(args, a) =~= Seq::empty());
    }
}

/// A run looks once for the workspaces at the commit as it was. If there are
/// some, it writes one commit, on top of the rewritten one and with the tree that
/// the commit had, moves bookmarks once, to the rewritten commit, and lets each
/// workspace, in order, edit the commit on top. If there are none, it does none
/// of this.
pub proof fn law_workspaces_move_on(args: CommitArgsView, events: Seq<SpecEvent>)
    requires
        runs_to_its_end(args, events),
    ensures
        done(args, events, |action: SpecAction| action is FindWorkspaces) == seq![
            SpecAction::FindWorkspaces { at: CommitChoice::Original },
        ],
        ({
            let names = told(args, events, |action: SpecAction| action is FindWorkspaces)[0]->Names_0;
            &&& done(args, events, |action: SpecAction| action is WriteWorkingCopyCommit) == if names.len() > 0 {
                seq![
                    SpecAction::WriteWorkingCopyCommit {
                        parent: CommitChoice::Rewritten,
                        tree: TreeChoice::Original,
                    },
                ]
            } else {
                Seq::empty()
            }
            &&& done(args, events, |action: SpecAction| action is AdvanceBookmarks) == if names.len() > 0 {
                seq![SpecAction::AdvanceBookmarks { to: CommitChoice::Rewritten }]
            } else {
                Seq::empty()
            }
            &&& done(args, events, |action: SpecAction| action is EditWorkspace) == Seq::new(
                names.len(),
                |i: int|
                    SpecAction::EditWorkspace { name: names[i], commit: CommitChoice::OnTop },
            )
        }),
{
    let a = lemma_follows(args, events);
    lemma_find_workspaces(args, events, a);
    lemma_write_working_copy_commit(args, events, a);
    lemma_advance_bookmarks(args, events, a);
    lemma_edits_done(args, events, a);
}

/// The steps come in their order, one event for each; only workspaces, of which
/// there may be several, share a place.
pub proof fn law_commit_steps_come_in_order(args: CommitArgsView, events: Seq<SpecEvent>)
    requires
        runs_to_its_end(args, events),
    ensures
        actions_of(args, events).len() == events.len(),
        forall|i: int, j: int|
            0 <= i < j < events.len() ==> place_of(#[trigger] actions_of(args, events)[i])
                < place_of(#[trigger] actions_of(args, events)[j]) || (actions_of(
                args,
                events,
            )[i] is EditWorkspace && actions_of(args, events)[j] is EditWorkspace),
{
    let a = lemma_follows(args, events);
    reveal(follows);
    lemma_script_in_order(args, a);
    lemma_script_len(args, a);
}

/// A command takes the event that its action asks for, and no other; only a
/// command that failed or finished asks for none. So it is never stuck on its
/// way.
pub proof fn law_every_fitting_event_is_taken(state: CommitView, event: SpecEvent)
    ensures
        commit::commit_next(state, event) is Some <==> match commit::commit_action(state) {
            CommitAction::OpenWorkspace => event is Opened,
            CommitAction::LoadBaseTree => event is Tree,
            CommitAction::SelectChanges => event is Tree,
            CommitAction::RewriteCommit { .. } => event is Text,
            CommitAction::JoinParagraphs(_) => event is Text,
            CommitAction::AddTrailers(_) => event is Text,
            CommitAction::RenderTemplate { .. } => event is Text,
            CommitAction::EditText(_) => event is Text,
            CommitAction::FindWorkspaces { .. } => event is Names,
            CommitAction::Fail(_) => false,
            CommitAction::Finish => false,
            _ => event is Done,
        },
{
}

/// A command fails if and only if it is told that there is no working copy, and
/// then says so.
pub proof fn law_only_a_missing_working_copy_fails(state: CommitView, event: SpecEvent)
    requires
        commit::commit_next(state, event) is Some,
    ensures
        commit::commit_action(commit::commit_next(state, event)->Some_0) is Fail <==> event == SpecEvent::Opened(
            None,
        ),
        commit::commit_action(commit::commit_next(state, event)->Some_0) matches CommitAction::Fail(message)
            ==> message == "This command requires a working copy"@,
        commit::commit_action(commit::commit_next(state, event)->Some_0) is Finish <==> commit::commit_action(
            state,
        ) is FinishTransaction,
{
}

/// Any command starts by opening the workspace, with the arguments that it was
/// given.
pub proof fn law_every_command_opens_the_workspace(args: CommitArgsView)
    ensures
        commit::commit_action(commit::commit_start(args)) is OpenWorkspace,
        commit::commit_start(args).args == args,
{
}

/// What the user is told when selecting changes names the commit, whole, between
/// fixed words.
pub proof fn law_instructions_name_the_commit(commit_summary: Seq<char>)
    ensures
        commit::instructions(commit_summary) == "You are splitting the working-copy commit: "@
            + commit_summary
            + "\n\nThe diff initially shows all changes. Adjust the right side until it shows the\ncontents you want for the first commit. The remainder will be included in the\nnew working-copy commit.\n"@,
{
}

/// What the arguments hold is what the command goes by.
pub proof fn law_commit_arguments_are_kept(args: CommitArgs)
    ensures
        args@.interactive == args.interactive,
        args@.editor == args.editor,
        args.tool matches Some(tool) ==> args@.tool == Some(tool@),
        args.tool is None ==> args@.tool is None,
        args.message_paragraphs matches Some(paragraphs) ==> args@.message_paragraphs == Some(
            paragraphs@.map_values(|s: String| s@),
        ),
        args.message_paragraphs is None ==> args@.message_paragraphs is None,
        args@.paths == args.paths@.map_values(|s: String| s@),
{
}

/// An action holds for its reader what it holds for the proofs.
pub proof fn law_commit_actions_are_kept(action: CommitAction<String, Vec<String>>)
    ensures
        place_of(action@) == match action {
            CommitAction::OpenWorkspace => 0int,
            CommitAction::LoadCommit(_) => 1,
            CommitAction::MatchFiles(_) => 2,
            CommitAction::FindBookmarks => 3,
            CommitAction::MakeDiffSelector { .. } => 4,
            CommitAction::FindTextEditor => 5,
            CommitAction::StartTransaction => 6,
            CommitAction::LoadBaseTree => 7,
            CommitAction::SelectChanges => 8,
            CommitAction::Warn(_) => 9,
            CommitAction::RewriteCommit { .. } => 10,
            CommitAction::JoinParagraphs(_) => 11,
            CommitAction::AddTrailers(_) => 12,
            CommitAction::WriteDraft(_) => 13,
            CommitAction::RenderTemplate { .. } => 14,
            CommitAction::EditText(_) => 15,
            CommitAction::Hint(_) => 16,
            CommitAction::WriteCommit(_) => 17,
            CommitAction::FindWorkspaces { .. } => 18,
            CommitAction::WriteWorkingCopyCommit { .. } => 19,
            CommitAction::AdvanceBookmarks { .. } => 20,
            CommitAction::EditWorkspace { .. } => 21,
            CommitAction::FinishTransaction(_) => 22,
            CommitAction::Fail(_) => 23,
            CommitAction::Finish => 24,
        },
        action matches CommitAction::Fail(s) ==> action@ == SpecAction::Fail(s@),
        action matches CommitAction::LoadCommit(s) ==> action@ == SpecAction::LoadCommit(s@),
        action matches CommitAction::MatchFiles(l) ==> action@ == SpecAction::MatchFiles(
            l@.map_values(|s: String| s@),
        ),
        action matches CommitAction::MakeDiffSelector { tool, interactive } ==> {
            &&& action@->interactive == interactive
            &&& tool is None <==> action@->tool is None
            &&& tool matches Some(name) ==> action@->tool == Some(name@)
        },
        action matches CommitAction::Warn(s) ==> action@ == SpecAction::Warn(s@),
        action matches CommitAction::RewriteCommit { tree } ==> action@ == (
        SpecAction::RewriteCommit { tree }),
        action matches CommitAction::JoinParagraphs(l) ==> action@ == SpecAction::JoinParagraphs(
            l@.map_values(|s: String| s@),
        ),
        action matches CommitAction::AddTrailers(s) ==> action@ == SpecAction::AddTrailers(s@),
        action matches CommitAction::WriteDraft(s) ==> action@ == SpecAction::WriteDraft(s@),
        action matches CommitAction::RenderTemplate { intro } ==> action@ == (
        SpecAction::RenderTemplate { intro: intro@ }),
        action matches CommitAction::EditText(s) ==> action@ == SpecAction::EditText(s@),
        action matches CommitAction::Hint(s) ==> action@ == SpecAction::Hint(s@),
        action matches CommitAction::WriteCommit(s) ==> action@ == SpecAction::WriteCommit(s@),
        action matches CommitAction::FindWorkspaces { at } ==> action@ == (
        SpecAction::FindWorkspaces { at }),
        action matches CommitAction::WriteWorkingCopyCommit { parent, tree } ==> action@ == (
        SpecAction::WriteWorkingCopyCommit { parent, tree }),
        action matches CommitAction::AdvanceBookmarks { to } ==> action@ == (
        SpecAction::AdvanceBookmarks { to }),
        action matches CommitAction::EditWorkspace { name, commit } ==> action@ == (
        SpecAction::EditWorkspace { name: name@, commit }),
        action matches CommitAction::FinishTransaction(s) ==> action@
            == SpecAction::FinishTransaction(s@),
{
}

/// An event tells the proofs what it tells the command.
pub proof fn law_commit_events_are_kept(event: CommitEvent<String, Vec<String>>)
    ensures
        event is Done <==> event@ is Done,
        event matches CommitEvent::Opened(Some(id)) ==> event@ == SpecEvent::Opened(Some(id@)),
        event matches CommitEvent::Opened(None) ==> event@ == SpecEvent::Opened(None),
        event matches CommitEvent::Tree(l) ==> event@ == SpecEvent::Tree(
            l@.map_values(|s: String| s@),
        ),
        event matches CommitEvent::Text(s) ==> event@ == SpecEvent::Text(s@),
        event matches CommitEvent::Names(l) ==> event@ == SpecEvent::Names(
            l@.map_values(|s: String| s@),
        ),
{
}

} // verus!
