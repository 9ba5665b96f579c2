use jj_commands::commit::{
    format_instructions, CommitAction, CommitArgs, CommitChoice, CommitCommand, CommitEvent,
    TreeChoice,
};

type Action = CommitAction<String, Vec<String>>;

struct World {
    commit_id: Option<&'static str>,
    base_tree: Vec<&'static str>,
    selected: Vec<&'static str>,
    own_description: &'static str,
    edited: &'static str,
    names: Vec<&'static str>,
}

fn world() -> World {
    World {
        commit_id: Some("c0ffee"),
        base_tree: vec!["t0"],
        selected: vec!["t1"],
        own_description: "",
        edited: "edited\n",
        names: vec!["default"],
    }
}

fn args() -> CommitArgs {
    CommitArgs {
        interactive: false,
        tool: None,
        message_paragraphs: None,
        editor: false,
        paths: vec![],
    }
}

fn edits(name: &str) -> Action {
    CommitAction::EditWorkspace { name: name.to_string(), commit: CommitChoice::OnTop }
}

fn strings(list: &[&str]) -> Vec<String> {
    list.iter().map(|s| s.to_string()).collect()
}

fn run(args: CommitArgs, world: World) -> Vec<Action> {
    let mut command = CommitCommand::new(args);
    let mut actions = vec![];
    loop {
        let action = command.action();
        let event = match &action {
            CommitAction::OpenWorkspace => {
                CommitEvent::Opened(world.commit_id.map(|s| s.to_string()))
            }
            CommitAction::LoadBaseTree => CommitEvent::Tree(strings(&world.base_tree)),
            CommitAction::SelectChanges => CommitEvent::Tree(strings(&world.selected)),
            CommitAction::RewriteCommit { .. } => {
                CommitEvent::Text(world.own_description.to_string())
            }
            CommitAction::JoinParagraphs(paragraphs) => CommitEvent::Text(paragraphs.join("\n\n")),
            CommitAction::AddTrailers(text) => CommitEvent::Text(format!("{}+trailers", text)),
            CommitAction::RenderTemplate { intro } => {
                assert_eq!(intro, "");
                CommitEvent::Text("template".to_string())
            }
            CommitAction::EditText(text) => {
                assert_eq!(text, "template");
                CommitEvent::Text(world.edited.to_string())
            }
            CommitAction::FindWorkspaces { .. } => CommitEvent::Names(strings(&world.names)),
            CommitAction::Finish | CommitAction::Fail(_) => {
                actions.push(action);
                assert!(!command.answer(CommitEvent::Done));
                return actions;
            }
            _ => CommitEvent::Done,
        };
        actions.push(action);
        assert!(command.answer(event));
    }
}

fn opening() -> Vec<Action> {
    vec![
        CommitAction::OpenWorkspace,
        CommitAction::LoadCommit("c0ffee".to_string()),
        CommitAction::MatchFiles(vec![]),
        CommitAction::FindBookmarks,
        CommitAction::MakeDiffSelector { tool: None, interactive: false },
        CommitAction::FindTextEditor,
        CommitAction::StartTransaction,
        CommitAction::LoadBaseTree,
        CommitAction::SelectChanges,
    ]
}

fn ending() -> Vec<Action> {
    vec![
        CommitAction::FindWorkspaces { at: CommitChoice::Original },
        CommitAction::WriteWorkingCopyCommit {
            parent: CommitChoice::Rewritten,
            tree: TreeChoice::Original,
        },
        CommitAction::AdvanceBookmarks { to: CommitChoice::Rewritten },
        edits("default"),
        CommitAction::FinishTransaction("commit c0ffee".to_string()),
        CommitAction::Finish,
    ]
}

#[test]
fn plain_commit_goes_through_the_editor() {
    let mut expected = opening();
    expected.extend(vec![
        CommitAction::RewriteCommit { tree: TreeChoice::Selected },
        CommitAction::AddTrailers("".to_string()),
        CommitAction::WriteDraft("+trailers".to_string()),
        CommitAction::RenderTemplate { intro: "".to_string() },
        CommitAction::EditText("template".to_string()),
        CommitAction::WriteCommit("edited\n".to_string()),
    ]);
    expected.extend(ending());
    assert_eq!(run(args(), world()), expected);
}

#[test]
fn a_message_skips_the_editor() {
    let mut a = args();
    a.message_paragraphs = Some(strings(&["subject", "body"]));
    let mut w = world();
    w.own_description = "old";
    let mut expected = opening();
    expected.extend(vec![
        CommitAction::RewriteCommit { tree: TreeChoice::Selected },
        CommitAction::JoinParagraphs(strings(&["subject", "body"])),
        CommitAction::AddTrailers("subject\n\nbody".to_string()),
        CommitAction::WriteCommit("subject\n\nbody+trailers".to_string()),
    ]);
    expected.extend(ending());
    assert_eq!(run(a, w), expected);
}

#[test]
fn an_empty_message_stays_empty() {
    let mut a = args();
    a.message_paragraphs = Some(strings(&[""]));
    let mut expected = opening();
    expected.extend(vec![
        CommitAction::RewriteCommit { tree: TreeChoice::Selected },
        CommitAction::JoinParagraphs(strings(&[""])),
        CommitAction::WriteCommit("".to_string()),
    ]);
    expected.extend(ending());
    assert_eq!(run(a, world()), expected);
}

#[test]
fn the_editor_can_be_forced() {
    let mut a = args();
    a.message_paragraphs = Some(strings(&["subject"]));
    a.editor = true;
    let actions = run(a, world());
    assert!(actions.contains(&CommitAction::WriteDraft("subject+trailers".to_string())));
    assert!(actions.contains(&CommitAction::EditText("template".to_string())));
    assert!(actions.contains(&CommitAction::WriteCommit("edited\n".to_string())));
}

#[test]
fn own_description_is_kept_for_the_editor() {
    let mut w = world();
    w.own_description = "old";
    let actions = run(args(), w);
    assert!(actions.contains(&CommitAction::AddTrailers("old".to_string())));
    assert!(actions.contains(&CommitAction::WriteDraft("old+trailers".to_string())));
}

#[test]
fn a_message_left_empty_gets_a_hint() {
    let mut w = world();
    w.edited = "";
    let actions = run(args(), w);
    let hint = actions.iter().position(|a| matches!(a, CommitAction::Hint(_))).unwrap();
    assert_eq!(
        actions[hint],
        CommitAction::Hint(
            "The commit message was left empty.\n\
             If this was not intentional, run `jj undo` to restore the previous state.\n\
             Or run `jj desc @-` to add a description to the parent commit.\n"
                .to_string()
        )
    );
    assert_eq!(actions[hint + 1], CommitAction::WriteCommit("".to_string()));
}

#[test]
fn paths_that_match_nothing_are_warned_of() {
    let mut a = args();
    a.paths = strings(&["x", "y z"]);
    let mut w = world();
    w.selected = w.base_tree.clone();
    let actions = run(a, w);
    assert_eq!(actions[2], CommitAction::MatchFiles(strings(&["x", "y z"])));
    assert_eq!(
        actions[9],
        CommitAction::Warn("The given paths do not match any file: x y z".to_string())
    );
    assert_eq!(actions[10], CommitAction::RewriteCommit { tree: TreeChoice::Selected });
}

#[test]
fn no_warning_without_paths_or_with_a_match() {
    let mut w = world();
    w.selected = w.base_tree.clone();
    assert!(!run(args(), w).iter().any(|a| matches!(a, CommitAction::Warn(_))));
    let mut a = args();
    a.paths = strings(&["x"]);
    assert!(!run(a, world()).iter().any(|a| matches!(a, CommitAction::Warn(_))));
}

#[test]
fn the_diff_selector_gets_the_tool() {
    let mut a = args();
    a.tool = Some("meld".to_string());
    a.interactive = true;
    assert_eq!(
        run(a, world())[4],
        CommitAction::MakeDiffSelector { tool: Some("meld".to_string()), interactive: true }
    );
}

#[test]
fn every_workspace_moves_to_the_new_commit() {
    let mut w = world();
    w.names = vec!["default", "second", "third"];
    let actions = run(args(), w);
    let n = actions.len();
    assert_eq!(
        actions[n - 7..],
        [
            CommitAction::WriteWorkingCopyCommit {
            parent: CommitChoice::Rewritten,
            tree: TreeChoice::Original,
        },
            CommitAction::AdvanceBookmarks { to: CommitChoice::Rewritten },
            edits("default"),
            edits("second"),
            edits("third"),
            CommitAction::FinishTransaction("commit c0ffee".to_string()),
            CommitAction::Finish,
        ]
    );
}

#[test]
fn without_workspaces_there_is_no_new_commit() {
    let mut w = world();
    w.names = vec![];
    let actions = run(args(), w);
    let n = actions.len();
    assert_eq!(
        actions[n - 3..],
        [
            CommitAction::FindWorkspaces { at: CommitChoice::Original },
            CommitAction::FinishTransaction("commit c0ffee".to_string()),
            CommitAction::Finish,
        ]
    );
}

#[test]
fn without_a_working_copy_the_command_fails() {
    let mut w = world();
    w.commit_id = None;
    assert_eq!(
        run(args(), w),
        vec![
            CommitAction::OpenWorkspace,
            CommitAction::Fail("This command requires a working copy".to_string()),
        ]
    );
}

#[test]
fn an_event_that_answers_nothing_changes_nothing() {
    let mut command = CommitCommand::new(args());
    assert!(!command.answer(CommitEvent::Done));
    assert!(!command.answer(CommitEvent::Text("x".to_string())));
    assert_eq!(command.action(), CommitAction::OpenWorkspace);
    assert!(command.answer(CommitEvent::Opened(Some("id".to_string()))));
    assert_eq!(command.action(), CommitAction::LoadCommit("id".to_string()));
    assert!(!command.answer(CommitEvent::Names(vec![])));
}

#[test]
fn instructions_name_the_commit() {
    assert_eq!(
        format_instructions("abc123 subject"),
        "\
You are splitting the working-copy commit: abc123 subject

The diff initially shows all changes. Adjust the right side until it shows the
contents you want for the first commit. The remainder will be included in the
new working-copy commit.
"
    );
}

#[test]
fn bookmarks_never_move_to_the_new_commit() {
    for names in [vec![], vec!["default"], vec!["default", "second"]] {
        let moved = !names.is_empty();
        let mut w = world();
        w.names = names;
        let targets: Vec<CommitChoice> = run(args(), w)
            .iter()
            .filter_map(|action| match action {
                CommitAction::AdvanceBookmarks { to } => Some(*to),
                _ => None,
            })
            .collect();
        assert_eq!(targets, if moved { vec![CommitChoice::Rewritten] } else { vec![] });
    }
}
