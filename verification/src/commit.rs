//! `jj commit`: describe the working-copy commit and start a new one on top.

use crate::text;
use vstd::prelude::*;

verus! {

/// The arguments of the command.
#[derive(Debug, PartialEq, Eq)]
pub struct CommitArgs {
    /// Choose interactively which changes to keep in the current commit.
    pub interactive: bool,
    /// The diff editor to use.
    pub tool: Option<String>,
    /// The paragraphs of the description to use.
    pub message_paragraphs: Option<Vec<String>>,
    /// Open an editor even if there is a description to use.
    pub editor: bool,
    /// The paths whose changes stay in the current commit.
    pub paths: Vec<String>,
}

/// The arguments, as values of the specification.
pub struct CommitArgsView {
    pub interactive: bool,
    pub tool: Option<Seq<char>>,
    pub message_paragraphs: Option<Seq<Seq<char>>>,
    pub editor: bool,
    pub paths: Seq<Seq<char>>,
}

impl View for CommitArgs {
    type V = CommitArgsView;

    open spec fn view(&self) -> CommitArgsView {
        CommitArgsView {
            interactive: self.interactive,
            tool: match self.tool {
                Some(tool) => Some(tool@),
                None => None,
            },
            message_paragraphs: match self.message_paragraphs {
                Some(paragraphs) => Some(text::views(paragraphs@)),
                None => None,
            },
            editor: self.editor,
            paths: text::views(self.paths@),
        }
    }
}

impl CommitArgsView {
    /// Whether the description goes through an editor: always, unless there is
    /// a message and no wish for an editor.
    pub open spec fn use_editor(self) -> bool {
        self.message_paragraphs is None || self.editor
    }
}

/// A tree that the command has to do with.
#[derive(Clone, Copy, Debug, PartialEq, Eq, Structural)]
pub enum TreeChoice {
    /// The tree of the working-copy commit as it was.
    Original,
    /// The tree with the selected changes only.
    Selected,
}

/// A commit that the command has to do with.
#[derive(Clone, Copy, Debug, PartialEq, Eq, Structural)]
pub enum CommitChoice {
    /// The working-copy commit as it was.
    Original,
    /// The working-copy commit with its new description and tree.
    Rewritten,
    /// The new working-copy commit on top.
    OnTop,
}

/// What the command waits for.
#[derive(Clone, Copy, Debug, PartialEq, Eq, Structural)]
pub enum CommitStage {
    Open,
    NoWorkingCopy,
    Load,
    MatchFiles,
    Bookmarks,
    DiffSelector,
    TextEditor,
    Transaction,
    BaseTree,
    Select,
    Warn,
    Rewrite,
    Join,
    Trailers,
    Draft,
    Template,
    Edit,
    Hint,
    Write,
    Workspaces,
    NewCommit,
    Advance,
    EditWorkspace { index: usize },
    FinishTransaction,
    Finished,
}

/// The next thing to do for the command, over a type of texts and a type of
/// lists of texts.
#[derive(Debug, PartialEq, Eq)]
pub enum CommitAction<S, L> {
    /// Open the workspace, and find its working-copy commit.
    OpenWorkspace,
    /// Give up with this message to the user.
    Fail(S),
    /// Load the commit with this id.
    LoadCommit(S),
    /// Make a matcher of these file patterns.
    MatchFiles(L),
    /// Find the bookmarks that can be moved forward from the commit's parents.
    FindBookmarks,
    /// Make a selector of changes.
    MakeDiffSelector { tool: Option<S>, interactive: bool },
    /// Find the text editor.
    FindTextEditor,
    /// Start a transaction.
    StartTransaction,
    /// Load the tree that the commit is based on.
    LoadBaseTree,
    /// Let the selector choose between the base tree and the original tree.
    SelectChanges,
    /// Warn the user with this line.
    Warn(S),
    /// Start to rewrite the commit with this tree.
    RewriteCommit { tree: TreeChoice },
    /// Join these paragraphs to a description.
    JoinParagraphs(L),
    /// Add the trailers to this description.
    AddTrailers(S),
    /// Write a hidden commit with this description.
    WriteDraft(S),
    /// Render the description template of the hidden commit, with this intro.
    RenderTemplate { intro: S },
    /// Open the editor on this text.
    EditText(S),
    /// Give the user this hint.
    Hint(S),
    /// Write the rewritten commit with this description.
    WriteCommit(S),
    /// Find the workspaces whose working copy is at this commit.
    FindWorkspaces { at: CommitChoice },
    /// Write a new working-copy commit with this parent and this tree.
    WriteWorkingCopyCommit { parent: CommitChoice, tree: TreeChoice },
    /// Move the bookmarks that were found forward to this commit.
    AdvanceBookmarks { to: CommitChoice },
    /// Let this workspace edit this commit.
    EditWorkspace { name: S, commit: CommitChoice },
    /// Finish the transaction under this description.
    FinishTransaction(S),
    /// Nothing.
    Finish,
}

/// What came of an action.
#[derive(Debug)]
pub enum CommitEvent<S, L> {
    /// It is done.
    Done,
    /// The workspace is open; this is its working-copy commit, if it has one.
    Opened(Option<S>),
    /// These are the ids of the tree.
    Tree(L),
    /// This is the text.
    Text(S),
    /// These are the workspaces.
    Names(L),
}

/// The state of the command, as values of the specification.
#[verifier::ext_equal]
pub struct CommitView {
    pub args: CommitArgsView,
    pub stage: CommitStage,
    pub commit_id: Seq<char>,
    pub base_tree: Seq<Seq<char>>,
    pub description: Seq<char>,
    pub names: Seq<Seq<char>>,
}

/// An optional text, as a value of the specification.
pub open spec fn option_view(s: Option<String>) -> Option<Seq<char>> {
    match s {
        Some(s) => Some(s@),
        None => None,
    }
}

pub type SpecAction = CommitAction<Seq<char>, Seq<Seq<char>>>;

pub type SpecEvent = CommitEvent<Seq<char>, Seq<Seq<char>>>;

impl View for CommitAction<String, Vec<String>> {
    type V = SpecAction;

    open spec fn view(&self) -> SpecAction {
        match *self {
            CommitAction::OpenWorkspace => CommitAction::OpenWorkspace,
            CommitAction::Fail(message) => CommitAction::Fail(message@),
            CommitAction::LoadCommit(id) => CommitAction::LoadCommit(id@),
            CommitAction::MatchFiles(paths) => CommitAction::MatchFiles(text::views(paths@)),
            CommitAction::FindBookmarks => CommitAction::FindBookmarks,
            CommitAction::MakeDiffSelector { tool, interactive } => CommitAction::MakeDiffSelector {
                tool: option_view(tool),
                interactive,
            },
            CommitAction::FindTextEditor => CommitAction::FindTextEditor,
            CommitAction::StartTransaction => CommitAction::StartTransaction,
            CommitAction::LoadBaseTree => CommitAction::LoadBaseTree,
            CommitAction::SelectChanges => CommitAction::SelectChanges,
            CommitAction::Warn(line) => CommitAction::Warn(line@),
            CommitAction::RewriteCommit { tree } => CommitAction::RewriteCommit { tree },
            CommitAction::JoinParagraphs(paragraphs) => CommitAction::JoinParagraphs(
                text::views(paragraphs@),
            ),
            CommitAction::AddTrailers(description) => CommitAction::AddTrailers(description@),
            CommitAction::WriteDraft(description) => CommitAction::WriteDraft(description@),
            CommitAction::RenderTemplate { intro } => CommitAction::RenderTemplate {
                intro: intro@,
            },
            CommitAction::EditText(template) => CommitAction::EditText(template@),
            CommitAction::Hint(hint) => CommitAction::Hint(hint@),
            CommitAction::WriteCommit(description) => CommitAction::WriteCommit(description@),
            CommitAction::FindWorkspaces { at } => CommitAction::FindWorkspaces { at },
            CommitAction::WriteWorkingCopyCommit { parent, tree } =>
                CommitAction::WriteWorkingCopyCommit { parent, tree },
            CommitAction::AdvanceBookmarks { to } => CommitAction::AdvanceBookmarks { to },
            CommitAction::EditWorkspace { name, commit } => CommitAction::EditWorkspace {
                name: name@,
                commit,
            },
            CommitAction::FinishTransaction(description) => CommitAction::FinishTransaction(
                description@,
            ),
            CommitAction::Finish => CommitAction::Finish,
        }
    }
}

impl View for CommitEvent<String, Vec<String>> {
    type V = SpecEvent;

    open spec fn view(&self) -> SpecEvent {
        match *self {
            CommitEvent::Done => CommitEvent::Done,
            CommitEvent::Opened(id) => CommitEvent::Opened(option_view(id)),
            CommitEvent::Tree(ids) => CommitEvent::Tree(text::views(ids@)),
            CommitEvent::Text(s) => CommitEvent::Text(s@),
            CommitEvent::Names(names) => CommitEvent::Names(text::views(names@)),
        }
    }
}

/// The message if there is no working copy to commit.
pub open spec fn no_working_copy_message() -> Seq<char> {
    "This command requires a working copy"@
}

/// The warning if the given paths select nothing.
pub open spec fn no_match_warning(paths: Seq<Seq<char>>) -> Seq<char> {
    "The given paths do not match any file: "@ + text::joined(paths, " "@)
}

/// The hint if the description was left empty in the editor.
pub open spec fn empty_message_hint() -> Seq<char> {
    "The commit message was left empty.\nIf this was not intentional, run `jj undo` to restore the previous state.\nOr run `jj desc @-` to add a description to the parent commit.\n"@
}

/// The description of the transaction.
pub open spec fn transaction_description(commit_id: Seq<char>) -> Seq<char> {
    "commit "@ + commit_id
}

/// What the user is told when asked to select changes interactively.
pub open spec fn instructions(commit_summary: Seq<char>) -> Seq<char> {
    "You are splitting the working-copy commit: "@ + commit_summary
        + "\n\nThe diff initially shows all changes. Adjust the right side until it shows the\ncontents you want for the first commit. The remainder will be included in the\nnew working-copy commit.\n"@
}

/// What the user is told when asked to select changes interactively.
pub fn format_instructions(commit_summary: &str) -> (r: String)
    ensures
        r@ == instructions(commit_summary@),
{
    let mut r = "You are splitting the working-copy commit: ".to_owned();
    r.append(commit_summary);
    r.append(
        "\n\nThe diff initially shows all changes. Adjust the right side until it shows the\ncontents you want for the first commit. The remainder will be included in the\nnew working-copy commit.\n",
    );
    r
}

/// What there is to do in a state.
pub open spec fn commit_action(state: CommitView) -> SpecAction {
    match state.stage {
        CommitStage::Open => CommitAction::OpenWorkspace,
        CommitStage::NoWorkingCopy => CommitAction::Fail(no_working_copy_message()),
        CommitStage::Load => CommitAction::LoadCommit(state.commit_id),
        CommitStage::MatchFiles => CommitAction::MatchFiles(state.args.paths),
        CommitStage::Bookmarks => CommitAction::FindBookmarks,
        CommitStage::DiffSelector => CommitAction::MakeDiffSelector {
            tool: state.args.tool,
            interactive: state.args.interactive,
        },
        CommitStage::TextEditor => CommitAction::FindTextEditor,
        CommitStage::Transaction => CommitAction::StartTransaction,
        CommitStage::BaseTree => CommitAction::LoadBaseTree,
        CommitStage::Select => CommitAction::SelectChanges,
        CommitStage::Warn => CommitAction::Warn(no_match_warning(state.args.paths)),
        CommitStage::Rewrite => CommitAction::RewriteCommit { tree: TreeChoice::Selected },
        CommitStage::Join => CommitAction::JoinParagraphs(
            match state.args.message_paragraphs {
                Some(paragraphs) => paragraphs,
                None => Seq::empty(),
            },
        ),
        CommitStage::Trailers => CommitAction::AddTrailers(state.description),
        CommitStage::Draft => CommitAction::WriteDraft(state.description),
        CommitStage::Template => CommitAction::RenderTemplate { intro: Seq::empty() },
        CommitStage::Edit => CommitAction::EditText(state.description),
        CommitStage::Hint => CommitAction::Hint(empty_message_hint()),
        CommitStage::Write => CommitAction::WriteCommit(state.description),
        CommitStage::Workspaces => CommitAction::FindWorkspaces { at: CommitChoice::Original },
        CommitStage::NewCommit => CommitAction::WriteWorkingCopyCommit {
            parent: CommitChoice::Rewritten,
            tree: TreeChoice::Original,
        },
        CommitStage::Advance => CommitAction::AdvanceBookmarks { to: CommitChoice::Rewritten },
        CommitStage::EditWorkspace { index } => CommitAction::EditWorkspace {
            name: state.names[index as int],
            commit: CommitChoice::OnTop,
        },
        CommitStage::FinishTransaction => CommitAction::FinishTransaction(
            transaction_description(state.commit_id),
        ),
        CommitStage::Finished => CommitAction::Finish,
    }
}

/// The state once a description is there that no editor has seen. An empty one
/// gets no trailers, unless it goes to the editor.
pub open spec fn described(state: CommitView, description: Seq<char>) -> CommitView {
    CommitView {
        description,
        stage: if description.len() > 0 || state.args.use_editor() {
            CommitStage::Trailers
        } else {
            CommitStage::Write
        },
        ..state
    }
}

/// The state that follows, or none if the event does not answer the state's
/// action.
pub open spec fn commit_next(state: CommitView, event: SpecEvent) -> Option<CommitView> {
    match (state.stage, event) {
        (CommitStage::Open, CommitEvent::Opened(Some(commit_id))) => Some(
            CommitView { commit_id, stage: CommitStage::Load, ..state },
        ),
        (CommitStage::Open, CommitEvent::Opened(None)) => Some(
            CommitView { stage: CommitStage::NoWorkingCopy, ..state },
        ),
        (CommitStage::Load, CommitEvent::Done) => Some(
            CommitView { stage: CommitStage::MatchFiles, ..state },
        ),
        (CommitStage::MatchFiles, CommitEvent::Done) => Some(
            CommitView { stage: CommitStage::Bookmarks, ..state },
        ),
        (CommitStage::Bookmarks, CommitEvent::Done) => Some(
            CommitView { stage: CommitStage::DiffSelector, ..state },
        ),
        (CommitStage::DiffSelector, CommitEvent::Done) => Some(
            CommitView { stage: CommitStage::TextEditor, ..state },
        ),
        (CommitStage::TextEditor, CommitEvent::Done) => Some(
            CommitView { stage: CommitStage::Transaction, ..state },
        ),
        (CommitStage::Transaction, CommitEvent::Done) => Some(
            CommitView { stage: CommitStage::BaseTree, ..state },
        ),
        (CommitStage::BaseTree, CommitEvent::Tree(base_tree)) => Some(
            CommitView { base_tree, stage: CommitStage::Select, ..state },
        ),
        (CommitStage::Select, CommitEvent::Tree(selected)) => Some(
            CommitView {
                stage: if state.args.paths.len() > 0 && selected == state.base_tree {
                    CommitStage::Warn
                } else {
                    CommitStage::Rewrite
                },
                ..state
            },
        ),
        (CommitStage::Warn, CommitEvent::Done) => Some(
            CommitView { stage: CommitStage::Rewrite, ..state },
        ),
        (CommitStage::Rewrite, CommitEvent::Text(description)) => if state.args.message_paragraphs
            is Some {
            Some(CommitView { stage: CommitStage::Join, ..state })
        } else {
            Some(described(state, description))
        },
        (CommitStage::Join, CommitEvent::Text(description)) => Some(described(state, description)),
        (CommitStage::Trailers, CommitEvent::Text(description)) => Some(
            CommitView {
                description,
                stage: if state.args.use_editor() {
                    CommitStage::Draft
                } else {
                    CommitStage::Write
                },
                ..state
            },
        ),
        (CommitStage::Draft, CommitEvent::Done) => Some(
            CommitView { stage: CommitStage::Template, ..state },
        ),
        (CommitStage::Template, CommitEvent::Text(description)) => Some(
            CommitView { description, stage: CommitStage::Edit, ..state },
        ),
        (CommitStage::Edit, CommitEvent::Text(description)) => Some(
            CommitView {
                description,
                stage: if description.len() == 0 {
                    CommitStage::Hint
                } else {
                    CommitStage::Write
                },
                ..state
            },
        ),
        (CommitStage::Hint, CommitEvent::Done) => Some(
            CommitView { stage: CommitStage::Write, ..state },
        ),
        (CommitStage::Write, CommitEvent::Done) => Some(
            CommitView { stage: CommitStage::Workspaces, ..state },
        ),
        (CommitStage::Workspaces, CommitEvent::Names(names)) => Some(
            CommitView {
                names,
                stage: if names.len() > 0 {
                    CommitStage::NewCommit
                } else {
                    CommitStage::FinishTransaction
                },
                ..state
            },
        ),
        (CommitStage::NewCommit, CommitEvent::Done) => Some(
            CommitView { stage: CommitStage::Advance, ..state },
        ),
        (CommitStage::Advance, CommitEvent::Done) => Some(
            CommitView { stage: CommitStage::EditWorkspace { index: 0 }, ..state },
        ),
        (CommitStage::EditWorkspace { index }, CommitEvent::Done) => Some(
            CommitView {
                stage: if index + 1 < state.names.len() {
                    CommitStage::EditWorkspace { index: (index + 1) as usize }
                } else {
                    CommitStage::FinishTransaction
                },
                ..state
            },
        ),
        (CommitStage::FinishTransaction, CommitEvent::Done) => Some(
            CommitView { stage: CommitStage::Finished, ..state },
        ),
        _ => None,
    }
}

/// The state of a command that starts.
pub open spec fn commit_start(args: CommitArgsView) -> CommitView {
    CommitView {
        args,
        stage: CommitStage::Open,
        commit_id: Seq::empty(),
        base_tree: Seq::empty(),
        description: Seq::empty(),
        names: Seq::empty(),
    }
}

/// The command: it says what to do next, and takes what came of it.
#[derive(Debug)]
pub struct CommitCommand {
    args: CommitArgs,
    stage: CommitStage,
    commit_id: String,
    base_tree: Vec<String>,
    description: String,
    names: Vec<String>,
}

impl View for CommitCommand {
    type V = CommitView;

    closed spec fn view(&self) -> CommitView {
        CommitView {
            args: self.args@,
            stage: self.stage,
            commit_id: self.commit_id@,
            base_tree: text::views(self.base_tree@),
            description: self.description@,
            names: text::views(self.names@),
        }
    }
}

impl CommitCommand {
    /// The workspace at hand is one of those found, and there are some if a
    /// new working-copy commit is made for them.
    #[verifier::type_invariant]
    spec fn in_range(self) -> bool {
        match self.stage {
            CommitStage::NewCommit => self.names@.len() > 0,
            CommitStage::Advance => self.names@.len() > 0,
            CommitStage::EditWorkspace { index } => index < self.names@.len(),
            _ => true,
        }
    }

    /// Starts the command.
    pub fn new(args: CommitArgs) -> (r: CommitCommand)
        ensures
            r@ == commit_start(args@),
    {
        let r = CommitCommand {
            args,
            stage: CommitStage::Open,
            commit_id: String::new(),
            base_tree: Vec::new(),
            description: String::new(),
            names: Vec::new(),
        };
        assert(r@ =~= commit_start(args@));
        r
    }

    /// What to do next.
    pub fn action(&self) -> (r: CommitAction<String, Vec<String>>)
        ensures
            r@ == commit_action(self@),
    {
        proof {
            use_type_invariant(self);
        }
        match self.stage {
            CommitStage::Open => CommitAction::OpenWorkspace,
            CommitStage::NoWorkingCopy => CommitAction::Fail(
                "This command requires a working copy".to_owned(),
            ),
            CommitStage::Load => CommitAction::LoadCommit(self.commit_id.clone()),
            CommitStage::MatchFiles => CommitAction::MatchFiles(
                text::copy_strings(&self.args.paths),
            ),
            CommitStage::Bookmarks => CommitAction::FindBookmarks,
            CommitStage::DiffSelector => {
                let tool = match &self.args.tool {
                    Some(tool) => Some(tool.clone()),
                    None => None,
                };
                CommitAction::MakeDiffSelector { tool, interactive: self.args.interactive }
            },
            CommitStage::TextEditor => CommitAction::FindTextEditor,
            CommitStage::Transaction => CommitAction::StartTransaction,
            CommitStage::BaseTree => CommitAction::LoadBaseTree,
            CommitStage::Select => CommitAction::SelectChanges,
            CommitStage::Warn => {
                let mut line = "The given paths do not match any file: ".to_owned();
                line.append(text::join(&self.args.paths, " ").as_str());
                CommitAction::Warn(line)
            },
            CommitStage::Rewrite => CommitAction::RewriteCommit { tree: TreeChoice::Selected },
            CommitStage::Join => {
                let paragraphs = match &self.args.message_paragraphs {
                    Some(paragraphs) => text::copy_strings(paragraphs),
                    None => Vec::new(),
                };
                assert(text::views(paragraphs@) =~= match self@.args.message_paragraphs {
                    Some(p) => p,
                    None => Seq::empty(),
                });
                CommitAction::JoinParagraphs(paragraphs)
            },
            CommitStage::Trailers => CommitAction::AddTrailers(self.description.clone()),
            CommitStage::Draft => CommitAction::WriteDraft(self.description.clone()),
            CommitStage::Template => CommitAction::RenderTemplate { intro: String::new() },
            CommitStage::Edit => CommitAction::EditText(self.description.clone()),
            CommitStage::Hint => CommitAction::Hint(
                "The commit message was left empty.\nIf this was not intentional, run `jj undo` to restore the previous state.\nOr run `jj desc @-` to add a description to the parent commit.\n".to_owned(),
            ),
            CommitStage::Write => CommitAction::WriteCommit(self.description.clone()),
            CommitStage::Workspaces => CommitAction::FindWorkspaces { at: CommitChoice::Original },
            CommitStage::NewCommit => CommitAction::WriteWorkingCopyCommit {
                parent: CommitChoice::Rewritten,
                tree: TreeChoice::Original,
            },
            CommitStage::Advance => CommitAction::AdvanceBookmarks { to: CommitChoice::Rewritten },
            CommitStage::EditWorkspace { index } => CommitAction::EditWorkspace {
                name: self.names[index].clone(),
                commit: CommitChoice::OnTop,
            },
            CommitStage::FinishTransaction => {
                let mut description = "commit ".to_owned();
                description.append(self.commit_id.as_str());
                CommitAction::FinishTransaction(description)
            },
            CommitStage::Finished => CommitAction::Finish,
        }
    }

    /// Whether the description goes through an editor.
    fn use_editor(&self) -> (r: bool)
        ensures
            r == self@.args.use_editor(),
    {
        self.args.message_paragraphs.is_none() || self.args.editor
    }

    /// Takes a description that no editor has seen.
    fn describe(&mut self, description: String)
        ensures
            final(self)@ == described(old(self)@, description@),
    {
        let stage = if !description.as_str().is_empty() || self.use_editor() {
            CommitStage::Trailers
        } else {
            CommitStage::Write
        };
        self.stage = stage;
        self.description = description;
        assert(self@ =~= described(old(self)@, description@));
    }

    /// Takes what came of the action. An event that does not answer it is not
    /// taken, and changes nothing.
    pub fn answer(&mut self, event: CommitEvent<String, Vec<String>>) -> (taken: bool)
        ensures
            taken == (commit_next(old(self)@, event@) is Some),
            final(self)@ == match commit_next(old(self)@, event@) {
                Some(next) => next,
                None => old(self)@,
            },
    {
        proof {
            use_type_invariant(&*self);
        }
        match (self.stage, event) {
            (CommitStage::Open, CommitEvent::Opened(Some(commit_id))) => {
                self.commit_id = commit_id;
                self.stage = CommitStage::Load;
            },
            (CommitStage::Open, CommitEvent::Opened(None)) => {
                self.stage = CommitStage::NoWorkingCopy;
            },
            (CommitStage::Load, CommitEvent::Done) => {
                self.stage = CommitStage::MatchFiles;
            },
            (CommitStage::MatchFiles, CommitEvent::Done) => {
                self.stage = CommitStage::Bookmarks;
            },
            (CommitStage::Bookmarks, CommitEvent::Done) => {
                self.stage = CommitStage::DiffSelector;
            },
            (CommitStage::DiffSelector, CommitEvent::Done) => {
                self.stage = CommitStage::TextEditor;
            },
            (CommitStage::TextEditor, CommitEvent::Done) => {
                self.stage = CommitStage::Transaction;
            },
            (CommitStage::Transaction, CommitEvent::Done) => {
                self.stage = CommitStage::BaseTree;
            },
            (CommitStage::BaseTree, CommitEvent::Tree(base_tree)) => {
                self.base_tree = base_tree;
                self.stage = CommitStage::Select;
            },
            (CommitStage::Select, CommitEvent::Tree(selected)) => {
                if self.args.paths.len() > 0 && text::same_strings(&selected, &self.base_tree) {
                    self.stage = CommitStage::Warn;
                } else {
                    self.stage = CommitStage::Rewrite;
                }
            },
            (CommitStage::Warn, CommitEvent::Done) => {
                self.stage = CommitStage::Rewrite;
            },
            (CommitStage::Rewrite, CommitEvent::Text(description)) => {
                if self.args.message_paragraphs.is_some() {
                    self.stage = CommitStage::Join;
                } else {
                    self.describe(description);
                }
            },
            (CommitStage::Join, CommitEvent::Text(description)) => {
                self.describe(description);
            },
            (CommitStage::Trailers, CommitEvent::Text(description)) => {
                let stage = if self.use_editor() {
                    CommitStage::Draft
                } else {
                    CommitStage::Write
                };
                self.stage = stage;
                self.description = description;
            },
            (CommitStage::Draft, CommitEvent::Done) => {
                self.stage = CommitStage::Template;
            },
            (CommitStage::Template, CommitEvent::Text(description)) => {
                self.description = description;
                self.stage = CommitStage::Edit;
            },
            (CommitStage::Edit, CommitEvent::Text(description)) => {
                if description.as_str().is_empty() {
                    self.stage = CommitStage::Hint;
                } else {
                    self.stage = CommitStage::Write;
                }
                self.description = description;
            },
            (CommitStage::Hint, CommitEvent::Done) => {
                self.stage = CommitStage::Write;
            },
            (CommitStage::Write, CommitEvent::Done) => {
                self.stage = CommitStage::Workspaces;
            },
            (CommitStage::Workspaces, CommitEvent::Names(names)) => {
                self.names = names;
                if self.names.len() > 0 {
                    self.stage = CommitStage::NewCommit;
                } else {
                    self.stage = CommitStage::FinishTransaction;
                }
            },
            (CommitStage::NewCommit, CommitEvent::Done) => {
                self.stage = CommitStage::Advance;
            },
            (CommitStage::Advance, CommitEvent::Done) => {
                self.stage = CommitStage::EditWorkspace { index: 0 };
            },
            (CommitStage::EditWorkspace { index }, CommitEvent::Done) => {
                if self.names.len() - index > 1 {
                    self.stage = CommitStage::EditWorkspace { index: index + 1 };
                } else {
                    self.stage = CommitStage::FinishTransaction;
                }
            },
            (CommitStage::FinishTransaction, CommitEvent::Done) => {
                self.stage = CommitStage::Finished;
            },
            _ => {
                return false;
            },
        }
        assert(self@ =~= commit_next(old(self)@, event@)->Some_0);
        true
    }
}

/// What is done, and the state that is reached, when a state's action and those
/// that follow are answered by `events`; none if some event is not taken.
pub open spec fn commit_run(state: CommitView, events: Seq<SpecEvent>) -> Option<
    (Seq<SpecAction>, CommitView),
>
    decreases events.len(),
{
    if events.len() == 0 {
        Some((Seq::empty(), state))
    } else {
        match commit_next(state, events[0]) {
            None => None,
            Some(next) => match commit_run(next, events.skip(1)) {
                None => None,
                Some((actions, end)) => Some((seq![commit_action(state)] + actions, end)),
            },
        }
    }
}

/// What the command can be told on its way.
pub struct CommitAnswers {
    /// The id of the working-copy commit.
    pub commit_id: Seq<char>,
    /// The ids of the tree that the commit is based on.
    pub base_tree: Seq<Seq<char>>,
    /// The ids of the tree with the selected changes.
    pub selected: Seq<Seq<char>>,
    /// The description that the commit had.
    pub own_description: Seq<char>,
    /// The paragraphs, joined.
    pub message: Seq<char>,
    /// The description with trailers.
    pub trailed: Seq<char>,
    /// The text for the editor.
    pub template: Seq<char>,
    /// What came out of the editor.
    pub edited: Seq<char>,
    /// The workspaces at the commit.
    pub names: Seq<Seq<char>>,
}

/// The description before trailers and editor: the message, if there is one,
/// and the commit's own description otherwise.
pub open spec fn given_description(args: CommitArgsView, a: CommitAnswers) -> Seq<char> {
    if args.message_paragraphs is Some {
        a.message
    } else {
        a.own_description
    }
}

/// Whether trailers are added: not to an empty description that no editor sees.
pub open spec fn wants_trailers(args: CommitArgsView, a: CommitAnswers) -> bool {
    given_description(args, a).len() > 0 || args.use_editor()
}

/// The description that the commit gets.
pub open spec fn final_description(args: CommitArgsView, a: CommitAnswers) -> Seq<char> {
    if args.use_editor() {
        a.edited
    } else if wants_trailers(args, a) {
        a.trailed
    } else {
        given_description(args, a)
    }
}

/// `actions` if `condition` holds, and nothing otherwise.
pub open spec fn only_if<A>(condition: bool, actions: Seq<A>) -> Seq<A> {
    if condition {
        actions
    } else {
        Seq::empty()
    }
}

/// Each workspace is told once, in order, to edit the new commit.
pub open spec fn edit_actions(names: Seq<Seq<char>>) -> Seq<SpecAction> {
    Seq::new(
        names.len(),
        |i: int| CommitAction::EditWorkspace { name: names[i], commit: CommitChoice::OnTop },
    )
}

/// The answers to `edit_actions`.
pub open spec fn edit_events(names: Seq<Seq<char>>) -> Seq<SpecEvent> {
    Seq::new(names.len(), |i: int| CommitEvent::Done)
}

/// What the command does once the commit is rewritten: if workspaces are at the
/// commit, they all get a new working-copy commit on top with the tree that
/// the commit had.
pub open spec fn script_end(a: CommitAnswers) -> Seq<SpecAction> {
    only_if(
        a.names.len() > 0,
        seq![
            CommitAction::WriteWorkingCopyCommit {
                parent: CommitChoice::Rewritten,
                tree: TreeChoice::Original,
            },
            CommitAction::AdvanceBookmarks { to: CommitChoice::Rewritten },
        ] + edit_actions(a.names),
    ).push(CommitAction::FinishTransaction(transaction_description(a.commit_id)))
}

/// The answers to `script_end`.
pub open spec fn end_events(a: CommitAnswers) -> Seq<SpecEvent> {
    only_if(
        a.names.len() > 0,
        seq![CommitEvent::Done, CommitEvent::Done] + edit_events(a.names),
    ).push(CommitEvent::Done)
}

/// What the command does until the changes are selected.
pub open spec fn script_opening(args: CommitArgsView, a: CommitAnswers) -> Seq<SpecAction> {
    seq![
        CommitAction::OpenWorkspace,
        CommitAction::LoadCommit(a.commit_id),
        CommitAction::MatchFiles(args.paths),
        CommitAction::FindBookmarks,
        CommitAction::MakeDiffSelector { tool: args.tool, interactive: args.interactive },
        CommitAction::FindTextEditor,
        CommitAction::StartTransaction,
        CommitAction::LoadBaseTree,
        CommitAction::SelectChanges,
    ]
}

/// The warning, if there are paths and nothing was selected.
pub open spec fn script_warning(args: CommitArgsView, a: CommitAnswers) -> Seq<SpecAction> {
    only_if(
        args.paths.len() > 0 && a.selected == a.base_tree,
        seq![CommitAction::Warn(no_match_warning(args.paths))],
    )
}

/// The rewrite of the commit starts, with the selected changes.
pub open spec fn script_rewrite() -> Seq<SpecAction> {
    seq![CommitAction::RewriteCommit { tree: TreeChoice::Selected }]
}

/// The paragraphs are joined, if there are any.
pub open spec fn script_join(args: CommitArgsView) -> Seq<SpecAction> {
    only_if(
        args.message_paragraphs is Some,
        seq![CommitAction::JoinParagraphs(args.message_paragraphs->Some_0)],
    )
}

/// The trailers are added, if the description wants them.
pub open spec fn script_trailers(args: CommitArgsView, a: CommitAnswers) -> Seq<SpecAction> {
    only_if(
        wants_trailers(args, a),
        seq![CommitAction::AddTrailers(given_description(args, a))],
    )
}

/// The description goes through the editor, if it is to.
pub open spec fn script_editor(args: CommitArgsView, a: CommitAnswers) -> Seq<SpecAction> {
    only_if(
        args.use_editor(),
        seq![
            CommitAction::WriteDraft(a.trailed),
            CommitAction::RenderTemplate { intro: Seq::empty() },
            CommitAction::EditText(a.template),
        ],
    )
}

/// The hint, if the editor left the description empty.
pub open spec fn script_hint(args: CommitArgsView, a: CommitAnswers) -> Seq<SpecAction> {
    only_if(
        args.use_editor() && a.edited.len() == 0,
        seq![CommitAction::Hint(empty_message_hint())],
    )
}

/// The commit is written.
pub open spec fn script_write(args: CommitArgsView, a: CommitAnswers) -> Seq<SpecAction> {
    seq![
        CommitAction::WriteCommit(final_description(args, a)),
        CommitAction::FindWorkspaces { at: CommitChoice::Original },
    ]
}

/// What the command does once it knows the description to start from.
pub open spec fn script_description(args: CommitArgsView, a: CommitAnswers) -> Seq<SpecAction> {
    script_trailers(args, a) + script_editor(args, a) + script_hint(args, a) + script_write(args, a)
        + script_end(a)
}

/// The answers to `script_description`.
pub open spec fn description_events(args: CommitArgsView, a: CommitAnswers) -> Seq<SpecEvent> {
    only_if(wants_trailers(args, a), seq![CommitEvent::Text(a.trailed)]) + only_if(
        args.use_editor(),
        seq![CommitEvent::Done, CommitEvent::Text(a.template), CommitEvent::Text(a.edited)],
    ) + only_if(args.use_editor() && a.edited.len() == 0, seq![CommitEvent::Done]) + seq![
        CommitEvent::Done,
        CommitEvent::Names(a.names),
    ] + end_events(a)
}

/// All that the command does.
pub open spec fn commit_script(args: CommitArgsView, a: CommitAnswers) -> Seq<SpecAction> {
    script_opening(args, a) + script_warning(args, a) + script_rewrite() + script_join(args)
        + script_description(args, a)
}

/// What the command is told, in order.
pub open spec fn commit_events(args: CommitArgsView, a: CommitAnswers) -> Seq<SpecEvent> {
    seq![
        CommitEvent::Opened(Some(a.commit_id)),
        CommitEvent::Done,
        CommitEvent::Done,
        CommitEvent::Done,
        CommitEvent::Done,
        CommitEvent::Done,
        CommitEvent::Done,
        CommitEvent::Tree(a.base_tree),
        CommitEvent::Tree(a.selected),
    ] + only_if(
        args.paths.len() > 0 && a.selected == a.base_tree,
        seq![CommitEvent::Done],
    ) + seq![CommitEvent::Text(a.own_description)] + only_if(
        args.message_paragraphs is Some,
        seq![CommitEvent::Text(a.message)],
    ) + description_events(args, a)
}

/// Whether `events` lead from `state` to the end of the command.
#[verifier::opaque]
pub open spec fn completes(state: CommitView, events: Seq<SpecEvent>) -> bool {
    commit_run(state, events) matches Some((actions, end)) && end.stage == CommitStage::Finished
}

/// What is done on the way that `events` lead from `state`.
#[verifier::opaque]
pub open spec fn done_on_the_way(state: CommitView, events: Seq<SpecEvent>) -> Seq<SpecAction> {
    commit_run(state, events)->Some_0.0
}

proof fn lemma_commit_step(state: CommitView, events: Seq<SpecEvent>) -> (next: CommitView)
    requires
        completes(state, events),
        state.stage != CommitStage::Finished,
    ensures
        events.len() > 0,
        commit_next(state, events[0]) == Some(next),
        completes(next, events.skip(1)),
        done_on_the_way(state, events) == seq![commit_action(state)] + done_on_the_way(
            next,
            events.skip(1),
        ),
        events == seq![events[0]] + events.skip(1),
{
    reveal(completes);
    reveal(done_on_the_way);
    assert(events =~= seq![events[0]] + events.skip(1));
    commit_next(state, events[0])->Some_0
}

proof fn lemma_edits(state: CommitView, events: Seq<SpecEvent>, index: usize)
    requires
        completes(state, events),
        state.stage == (CommitStage::EditWorkspace { index }),
        index < state.names.len() <= usize::MAX,
    ensures
        done_on_the_way(state, events) == edit_actions(state.names.skip(index as int)).push(
            CommitAction::FinishTransaction(transaction_description(state.commit_id)),
        ),
        events == edit_events(state.names.skip(index as int)).push(CommitEvent::Done),
    decreases state.names.len() - index,
{
    let next = lemma_commit_step(state, events);
    let left = state.names.skip(index as int);
    if index + 1 < state.names.len() {
        lemma_edits(next, events.skip(1), (index + 1) as usize);
        assert(left.skip(1) =~= state.names.skip(index + 1));
    } else {
        let end = lemma_commit_step(next, events.skip(1));
        lemma_nothing_follows(end, events.skip(1).skip(1));
    }
    assert(done_on_the_way(state, events) =~= edit_actions(left).push(
        CommitAction::FinishTransaction(transaction_description(state.commit_id)),
    ));
    assert(events =~= edit_events(left).push(CommitEvent::Done));
}

/// A finished command takes no event.
proof fn lemma_nothing_follows(state: CommitView, events: Seq<SpecEvent>)
    requires
        completes(state, events),
        state.stage == CommitStage::Finished,
    ensures
        events == Seq::<SpecEvent>::empty(),
        done_on_the_way(state, events) == Seq::<SpecAction>::empty(),
{
    reveal(completes);
    reveal(done_on_the_way);
    assert(events =~= Seq::empty());
}

/// Whether no event names more workspaces than can be counted.
pub open spec fn countable(events: Seq<SpecEvent>) -> bool {
    forall|i: int|
        0 <= i < events.len() ==> (#[trigger] events[i] matches CommitEvent::Names(names)
            ==> names.len() <= usize::MAX)
}

/// From the last write of the commit on.
proof fn lemma_from_write(state: CommitView, events: Seq<SpecEvent>) -> (names: Seq<Seq<char>>)
    requires
        completes(state, events),
        countable(events),
        state.stage == CommitStage::Write,
    ensures
        forall|a: CommitAnswers|
            #![trigger script_end(a)]
            a.names == names && a.commit_id == state.commit_id ==> {
                &&& done_on_the_way(state, events) == seq![
                    CommitAction::WriteCommit(state.description),
                    CommitAction::FindWorkspaces { at: CommitChoice::Original },
                ] + script_end(a)
                &&& events == seq![CommitEvent::Done, CommitEvent::Names(names)] + end_events(a)
            },
{
    let s1 = lemma_commit_step(state, events);
    let e1 = events.skip(1);
    let s2 = lemma_commit_step(s1, e1);
    let e2 = e1.skip(1);
    let names = e1[0]->Names_0;
    assert(events[1] == e1[0]);
    if names.len() > 0 {
        let s3 = lemma_commit_step(s2, e2);
        let e3 = e2.skip(1);
        let s4 = lemma_commit_step(s3, e3);
        let e4 = e3.skip(1);
        lemma_edits(s4, e4, 0);
        assert(names.skip(0) =~= names);
    } else {
        let s3 = lemma_commit_step(s2, e2);
        lemma_nothing_follows(s3, e2.skip(1));
    }
    assert forall|a: CommitAnswers|
        #![trigger script_end(a)]
        a.names == names && a.commit_id == state.commit_id implies {
        &&& done_on_the_way(state, events) == seq![
            CommitAction::WriteCommit(state.description),
            CommitAction::FindWorkspaces { at: CommitChoice::Original },
        ] + script_end(a)
        &&& events == seq![CommitEvent::Done, CommitEvent::Names(names)] + end_events(a)
    } by {
        assert(done_on_the_way(state, events) =~= seq![
            CommitAction::WriteCommit(state.description),
            CommitAction::FindWorkspaces { at: CommitChoice::Original },
        ] + script_end(a));
        assert(events =~= seq![CommitEvent::Done, CommitEvent::Names(names)] + end_events(a));
    }
    names
}

/// From the point on where the description to start from is known.
#[verifier::rlimit(60)]
proof fn lemma_from_description(
    before: CommitView,
    events: Seq<SpecEvent>,
    known: CommitAnswers,
) -> (a: CommitAnswers)
    requires
        completes(described(before, given_description(before.args, known)), events),
        countable(events),
        before.commit_id == known.commit_id,
    ensures
        a == (CommitAnswers {
            trailed: a.trailed,
            template: a.template,
            edited: a.edited,
            names: a.names,
            ..known
        }),
        done_on_the_way(described(before, given_description(before.args, known)), events)
            == script_description(before.args, a),
        events == description_events(before.args, a),
{
    let args = before.args;
    let given = given_description(args, known);
    let s0 = described(before, given);
    if !wants_trailers(args, known) {
        let names = lemma_from_write(s0, events);
        let a = CommitAnswers { names, ..known };
        assert(script_description(args, a) =~= seq![
            CommitAction::WriteCommit(given),
            CommitAction::FindWorkspaces { at: CommitChoice::Original },
        ] + script_end(a));
        assert(description_events(args, a) =~= seq![CommitEvent::Done, CommitEvent::Names(names)]
            + end_events(a));
        a
    } else {
        let s1 = lemma_commit_step(s0, events);
        let e1 = events.skip(1);
        let trailed = events[0]->Text_0;
        lemma_countable_rest(events);
        if !args.use_editor() {
            let names = lemma_from_write(s1, e1);
            let a = CommitAnswers { trailed, names, ..known };
            let tail = script_end(a);
            assert(done_on_the_way(s0, events) =~= script_description(args, a));
            assert(events =~= description_events(args, a));
            a
        } else {
            let s2 = lemma_commit_step(s1, e1);
            let e2 = e1.skip(1);
            lemma_countable_rest(e1);
            let s3 = lemma_commit_step(s2, e2);
            let e3 = e2.skip(1);
            let template = e2[0]->Text_0;
            lemma_countable_rest(e2);
            let s4 = lemma_commit_step(s3, e3);
            let e4 = e3.skip(1);
            let edited = e3[0]->Text_0;
            lemma_countable_rest(e3);
            if edited.len() == 0 {
                let s5 = lemma_commit_step(s4, e4);
                let e5 = e4.skip(1);
                lemma_countable_rest(e4);
                let names = lemma_from_write(s5, e5);
                let a = CommitAnswers { trailed, template, edited, names, ..known };
                let tail = script_end(a);
                assert(done_on_the_way(s0, events) =~= script_description(args, a));
                assert(events =~= description_events(args, a));
                a
            } else {
                let names = lemma_from_write(s4, e4);
                let a = CommitAnswers { trailed, template, edited, names, ..known };
                let tail = script_end(a);
                assert(done_on_the_way(s0, events) =~= script_description(args, a));
                assert(events =~= description_events(args, a));
                a
            }
        }
    }
}

proof fn lemma_countable_rest(events: Seq<SpecEvent>)
    requires
        countable(events),
        events.len() > 0,
    ensures
        countable(events.skip(1)),
{
    assert forall|i: int| 0 <= i < events.skip(1).len() implies (#[trigger] events.skip(1)[i] matches CommitEvent::Names(
    names) ==> names.len() <= usize::MAX) by {
        assert(events.skip(1)[i] == events[i + 1]);
    }
}

/// Whenever the command runs to its end, it has done exactly what its script
/// says for the answers that it was given.
#[verifier::rlimit(60)]
pub proof fn law_commit_follows_its_script(args: CommitArgsView, events: Seq<SpecEvent>) -> (a:
    CommitAnswers)
    requires
        completes(commit_start(args), events),
        countable(events),
    ensures
        events == commit_events(args, a),
        done_on_the_way(commit_start(args), events) == commit_script(args, a),
{
    let s0 = commit_start(args);
    if events.len() > 0 && events[0] == CommitEvent::<Seq<char>, Seq<Seq<char>>>::Opened(None) {
        let failed = lemma_commit_step(s0, events);
        lemma_commit_step(failed, events.skip(1));
    }
    let s1 = lemma_commit_step(s0, events);
    let e1 = events.skip(1);
    lemma_countable_rest(events);
    let s2 = lemma_commit_step(s1, e1);
    let e2 = e1.skip(1);
    lemma_countable_rest(e1);
    let s3 = lemma_commit_step(s2, e2);
    let e3 = e2.skip(1);
    lemma_countable_rest(e2);
    let s4 = lemma_commit_step(s3, e3);
    let e4 = e3.skip(1);
    lemma_countable_rest(e3);
    let s5 = lemma_commit_step(s4, e4);
    let e5 = e4.skip(1);
    lemma_countable_rest(e4);
    let s6 = lemma_commit_step(s5, e5);
    let e6 = e5.skip(1);
    lemma_countable_rest(e5);
    let s7 = lemma_commit_step(s6, e6);
    let e7 = e6.skip(1);
    lemma_countable_rest(e6);
    let s8 = lemma_commit_step(s7, e7);
    let e8 = e7.skip(1);
    lemma_countable_rest(e7);
    let s9 = lemma_commit_step(s8, e8);
    let e9 = e8.skip(1);
    lemma_countable_rest(e8);
    let opening = seq![
        CommitAction::OpenWorkspace,
        CommitAction::LoadCommit(s1.commit_id),
        CommitAction::MatchFiles(args.paths),
        CommitAction::FindBookmarks,
        CommitAction::MakeDiffSelector { tool: args.tool, interactive: args.interactive },
        CommitAction::FindTextEditor,
        CommitAction::StartTransaction,
        CommitAction::LoadBaseTree,
        CommitAction::SelectChanges,
    ];
    let heard = seq![
        CommitEvent::Opened(Some(s1.commit_id)),
        CommitEvent::Done,
        CommitEvent::Done,
        CommitEvent::Done,
        CommitEvent::Done,
        CommitEvent::Done,
        CommitEvent::Done,
        CommitEvent::Tree(e7[0]->Tree_0),
        CommitEvent::Tree(e8[0]->Tree_0),
    ];
    assert(done_on_the_way(s0, events) =~= opening + done_on_the_way(s9, e9));
    assert(events =~= heard + e9);
    let warned = s9.stage == CommitStage::Warn;
    let (s10, e10) = if warned {
        let s10 = lemma_commit_step(s9, e9);
        lemma_countable_rest(e9);
        (s10, e9.skip(1))
    } else {
        (s9, e9)
    };
    assert(e9 =~= only_if(warned, seq![CommitEvent::Done]) + e10);
    assert(done_on_the_way(s9, e9) =~= only_if(
        warned,
        seq![CommitAction::Warn(no_match_warning(args.paths))],
    ) + done_on_the_way(s10, e10));
    let s11 = lemma_commit_step(s10, e10);
    let e11 = e10.skip(1);
    lemma_countable_rest(e10);
    let known = CommitAnswers {
        commit_id: s1.commit_id,
        base_tree: e7[0]->Tree_0,
        selected: e8[0]->Tree_0,
        own_description: e10[0]->Text_0,
        message: Seq::empty(),
        trailed: Seq::empty(),
        template: Seq::empty(),
        edited: Seq::empty(),
        names: Seq::empty(),
    };
    if args.message_paragraphs is Some {
        let s12 = lemma_commit_step(s11, e11);
        let e12 = e11.skip(1);
        lemma_countable_rest(e11);
        let known = CommitAnswers { message: e11[0]->Text_0, ..known };
        let a = lemma_from_description(s11, e12, known);
        assert(done_on_the_way(s0, events) =~= commit_script(args, a));
        assert(events =~= commit_events(args, a));
        a
    } else {
        let a = lemma_from_description(s10, e11, known);
        assert(done_on_the_way(s0, events) =~= commit_script(args, a));
        assert(events =~= commit_events(args, a));
        a
    }
}

/// An event that is taken may stand before events that lead to the end.
proof fn lemma_one_before(state: CommitView, event: SpecEvent, rest: Seq<SpecEvent>)
    requires
        commit_next(state, event) is Some,
        completes(commit_next(state, event)->Some_0, rest),
    ensures
        completes(state, seq![event] + rest),
{
    reveal(completes);
    assert((seq![event] + rest).skip(1) =~= rest);
}

/// A finished command is at its end.
proof fn lemma_finished(state: CommitView)
    requires
        state.stage == CommitStage::Finished,
    ensures
        completes(state, Seq::empty()),
{
    reveal(completes);
}

/// From the last step of the transaction on.
proof fn lemma_finish_runs(state: CommitView)
    requires
        state.stage == CommitStage::FinishTransaction,
    ensures
        completes(state, seq![CommitEvent::Done]),
{
    let done = CommitEvent::<Seq<char>, Seq<Seq<char>>>::Done;
    lemma_finished(commit_next(state, done)->Some_0);
    lemma_one_before(state, done, Seq::empty());
    assert(seq![done] + Seq::empty() =~= seq![done]);
}

/// From a workspace that is to be told of the new commit on.
proof fn lemma_edits_run(state: CommitView, index: usize)
    requires
        state.stage == (CommitStage::EditWorkspace { index }),
        index < state.names.len() <= usize::MAX,
    ensures
        completes(state, edit_events(state.names.skip(index as int)).push(CommitEvent::Done)),
    decreases state.names.len() - index,
{
    let done = CommitEvent::<Seq<char>, Seq<Seq<char>>>::Done;
    let left = state.names.skip(index as int);
    let next = commit_next(state, done)->Some_0;
    let rest = edit_events(left.skip(1)).push(done);
    if index + 1 < state.names.len() {
        lemma_edits_run(next, (index + 1) as usize);
        assert(left.skip(1) =~= state.names.skip(index + 1));
    } else {
        lemma_finish_runs(next);
        assert(rest =~= seq![done]);
    }
    lemma_one_before(state, done, rest);
    assert(seq![done] + rest =~= edit_events(left).push(done));
}

/// From the last write of the commit on.
proof fn lemma_write_runs(state: CommitView, a: CommitAnswers)
    requires
        state.stage == CommitStage::Write,
        a.names.len() <= usize::MAX,
    ensures
        completes(state, seq![CommitEvent::Done, CommitEvent::Names(a.names)] + end_events(a)),
{
    let done = CommitEvent::<Seq<char>, Seq<Seq<char>>>::Done;
    let named = CommitEvent::<Seq<char>, Seq<Seq<char>>>::Names(a.names);
    let s1 = commit_next(state, done)->Some_0;
    let s2 = commit_next(s1, named)->Some_0;
    if a.names.len() > 0 {
        let s3 = commit_next(s2, done)->Some_0;
        let s4 = commit_next(s3, done)->Some_0;
        let edits = edit_events(a.names).push(done);
        lemma_edits_run(s4, 0);
        assert(a.names.skip(0) =~= a.names);
        lemma_one_before(s3, done, edits);
        lemma_one_before(s2, done, seq![done] + edits);
        assert(end_events(a) =~= seq![done] + (seq![done] + edits));
    } else {
        lemma_finish_runs(s2);
        assert(end_events(a) =~= seq![done]);
    }
    lemma_one_before(s1, named, end_events(a));
    lemma_one_before(state, done, seq![named] + end_events(a));
    assert(seq![done] + (seq![named] + end_events(a)) =~= seq![done, named] + end_events(a));
}

/// From the point on where the description to start from is known.
proof fn lemma_description_runs(before: CommitView, a: CommitAnswers)
    requires
        a.names.len() <= usize::MAX,
    ensures
        completes(
            described(before, given_description(before.args, a)),
            description_events(before.args, a),
        ),
{
    let args = before.args;
    let s0 = described(before, given_description(args, a));
    let done = CommitEvent::<Seq<char>, Seq<Seq<char>>>::Done;
    let trailed = CommitEvent::<Seq<char>, Seq<Seq<char>>>::Text(a.trailed);
    let template = CommitEvent::<Seq<char>, Seq<Seq<char>>>::Text(a.template);
    let edited = CommitEvent::<Seq<char>, Seq<Seq<char>>>::Text(a.edited);
    let writing = seq![CommitEvent::Done, CommitEvent::Names(a.names)] + end_events(a);
    if !wants_trailers(args, a) {
        lemma_write_runs(s0, a);
        assert(description_events(args, a) =~= writing);
    } else {
        let s1 = commit_next(s0, trailed)->Some_0;
        if !args.use_editor() {
            lemma_write_runs(s1, a);
            lemma_one_before(s0, trailed, writing);
            assert(description_events(args, a) =~= seq![trailed] + writing);
        } else {
            let s2 = commit_next(s1, done)->Some_0;
            let s3 = commit_next(s2, template)->Some_0;
            let s4 = commit_next(s3, edited)->Some_0;
            let after_editor = only_if(a.edited.len() == 0, seq![done]) + writing;
            if a.edited.len() == 0 {
                let s5 = commit_next(s4, done)->Some_0;
                lemma_write_runs(s5, a);
                lemma_one_before(s4, done, writing);
            } else {
                lemma_write_runs(s4, a);
                assert(after_editor =~= writing);
            }
            lemma_one_before(s3, edited, after_editor);
            let e3 = seq![edited] + after_editor;
            lemma_one_before(s2, template, e3);
            let e2 = seq![template] + e3;
            lemma_one_before(s1, done, e2);
            let e1 = seq![done] + e2;
            lemma_one_before(s0, trailed, e1);
            assert(description_events(args, a) =~= seq![trailed] + e1);
        }
    }
}

/// Whatever the command is told on its way, as its actions ask for it, leads to
/// its end.
#[verifier::rlimit(60)]
pub proof fn law_every_script_can_run(args: CommitArgsView, a: CommitAnswers)
    requires
        a.names.len() <= usize::MAX,
    ensures
        completes(commit_start(args), commit_events(args, a)),
{
    let done = CommitEvent::<Seq<char>, Seq<Seq<char>>>::Done;
    let opened = CommitEvent::<Seq<char>, Seq<Seq<char>>>::Opened(Some(a.commit_id));
    let base = CommitEvent::<Seq<char>, Seq<Seq<char>>>::Tree(a.base_tree);
    let selected = CommitEvent::<Seq<char>, Seq<Seq<char>>>::Tree(a.selected);
    let own = CommitEvent::<Seq<char>, Seq<Seq<char>>>::Text(a.own_description);
    let message = CommitEvent::<Seq<char>, Seq<Seq<char>>>::Text(a.message);
    let warned = args.paths.len() > 0 && a.selected == a.base_tree;
    let s0 = commit_start(args);
    let s1 = commit_next(s0, opened)->Some_0;
    let s2 = commit_next(s1, done)->Some_0;
    let s3 = commit_next(s2, done)->Some_0;
    let s4 = commit_next(s3, done)->Some_0;
    let s5 = commit_next(s4, done)->Some_0;
    let s6 = commit_next(s5, done)->Some_0;
    let s7 = commit_next(s6, done)->Some_0;
    let s8 = commit_next(s7, base)->Some_0;
    let s9 = commit_next(s8, selected)->Some_0;
    let s10 = if warned {
        commit_next(s9, done)->Some_0
    } else {
        s9
    };
    let s11 = commit_next(s10, own)->Some_0;
    let e12 = description_events(args, a);
    let e11 = only_if(args.message_paragraphs is Some, seq![message]) + e12;
    if args.message_paragraphs is Some {
        lemma_description_runs(s11, a);
        lemma_one_before(s11, message, e12);
    } else {
        lemma_description_runs(s10, a);
        assert(e11 =~= e12);
    }
    lemma_one_before(s10, own, e11);
    let e10 = seq![own] + e11;
    let e9 = only_if(warned, seq![done]) + e10;
    if warned {
        lemma_one_before(s9, done, e10);
    } else {
        assert(e9 =~= e10);
    }
    lemma_one_before(s8, selected, e9);
    let e8 = seq![selected] + e9;
    lemma_one_before(s7, base, e8);
    let e7 = seq![base] + e8;
    lemma_one_before(s6, done, e7);
    let e6 = seq![done] + e7;
    lemma_one_before(s5, done, e6);
    let e5 = seq![done] + e6;
    lemma_one_before(s4, done, e5);
    let e4 = seq![done] + e5;
    lemma_one_before(s3, done, e4);
    let e3 = seq![done] + e4;
    lemma_one_before(s2, done, e3);
    let e2 = seq![done] + e3;
    lemma_one_before(s1, done, e2);
    let e1 = seq![done] + e2;
    lemma_one_before(s0, opened, e1);
    assert(commit_events(args, a) =~= seq![opened] + e1);
}

/// Without a working copy the command gives up with its message, and takes no
/// further event.
pub proof fn law_no_working_copy_ends_the_command(args: CommitArgsView, event: SpecEvent)
    ensures
        ({
            let failed = commit_next(
                commit_start(args),
                CommitEvent::<Seq<char>, Seq<Seq<char>>>::Opened(None),
            );
            &&& failed is Some
            &&& commit_action(failed->Some_0) == SpecAction::Fail(no_working_copy_message())
            &&& commit_next(failed->Some_0, event) is None
        }),
{
}

/// Whether some action of `script` is like `wanted`.
pub open spec fn has_action(script: Seq<SpecAction>, wanted: spec_fn(SpecAction) -> bool) -> bool {
    exists|i: int| 0 <= i < script.len() && wanted(#[trigger] script[i])
}

pub(crate) proof fn lemma_has_action_in_sum(
    x: Seq<SpecAction>,
    y: Seq<SpecAction>,
    wanted: spec_fn(SpecAction) -> bool,
)
    ensures
        has_action(x + y, wanted) == (has_action(x, wanted) || has_action(y, wanted)),
{
    if has_action(x, wanted) {
        let i = choose|i: int| 0 <= i < x.len() && wanted(#[trigger] x[i]);
        assert((x + y)[i] == x[i]);
    }
    if has_action(y, wanted) {
        let i = choose|i: int| 0 <= i < y.len() && wanted(#[trigger] y[i]);
        assert((x + y)[x.len() + i] == y[i]);
    }
    if has_action(x + y, wanted) {
        let i = choose|i: int| 0 <= i < (x + y).len() && wanted(#[trigger] (x + y)[i]);
        if i < x.len() {
            assert(x[i] == (x + y)[i]);
        } else {
            assert(y[i - x.len()] == (x + y)[i]);
        }
    }
}

/// A script has an action if and only if one of its parts has it.
pub(crate) proof fn lemma_script_parts(
    args: CommitArgsView,
    a: CommitAnswers,
    wanted: spec_fn(SpecAction) -> bool,
)
    ensures
        has_action(commit_script(args, a), wanted) <==> {
            ||| has_action(script_opening(args, a), wanted)
            ||| has_action(script_warning(args, a), wanted)
            ||| has_action(script_rewrite(), wanted)
            ||| has_action(script_join(args), wanted)
            ||| has_action(script_trailers(args, a), wanted)
            ||| has_action(script_editor(args, a), wanted)
            ||| has_action(script_hint(args, a), wanted)
            ||| has_action(script_write(args, a), wanted)
            ||| has_action(script_end(a), wanted)
        },
{
    let p1 = script_opening(args, a);
    let p2 = p1 + script_warning(args, a);
    let p3 = p2 + script_rewrite();
    let p4 = p3 + script_join(args);
    lemma_has_action_in_sum(p1, script_warning(args, a), wanted);
    lemma_has_action_in_sum(p2, script_rewrite(), wanted);
    lemma_has_action_in_sum(p3, script_join(args), wanted);
    lemma_has_action_in_sum(p4, script_description(args, a), wanted);
    let q1 = script_trailers(args, a);
    let q2 = q1 + script_editor(args, a);
    let q3 = q2 + script_hint(args, a);
    let q4 = q3 + script_write(args, a);
    lemma_has_action_in_sum(q1, script_editor(args, a), wanted);
    lemma_has_action_in_sum(q2, script_hint(args, a), wanted);
    lemma_has_action_in_sum(q3, script_write(args, a), wanted);
    lemma_has_action_in_sum(q4, script_end(a), wanted);
}

/// What the last part of a script is made of.
pub(crate) proof fn lemma_end_actions(a: CommitAnswers, i: int)
    requires
        0 <= i < script_end(a).len(),
    ensures
        ({
            let action = script_end(a)[i];
            ||| a.names.len() > 0 && action == SpecAction::WriteWorkingCopyCommit {
                parent: CommitChoice::Rewritten,
                tree: TreeChoice::Original,
            }
            ||| a.names.len() > 0 && action == SpecAction::AdvanceBookmarks {
                to: CommitChoice::Rewritten,
            }
            ||| action is EditWorkspace && action->EditWorkspace_commit == CommitChoice::OnTop
            ||| action is FinishTransaction
        }),
{
}

/// A run opens the editor if and only if there is no message or the editor was
/// asked for.
pub proof fn law_editor_opens_iff_wanted(args: CommitArgsView, a: CommitAnswers)
    ensures
        has_action(commit_script(args, a), |action: SpecAction| action is EditText) <==> (
        args.message_paragraphs is None || args.editor),
{
    let wanted = |action: SpecAction| action is EditText;
    lemma_script_parts(args, a, wanted);
    lemma_not_in_end(a, wanted);
    if args.use_editor() {
        assert(wanted(script_editor(args, a)[2]));
    }
}

pub(crate) proof fn lemma_not_in_end(a: CommitAnswers, wanted: spec_fn(SpecAction) -> bool)
    requires
        forall|action: SpecAction|
            #![trigger wanted(action)]
            wanted(action) ==> action !is WriteWorkingCopyCommit && action !is AdvanceBookmarks
                && action !is EditWorkspace && action !is FinishTransaction,
    ensures
        !has_action(script_end(a), wanted),
{
    assert forall|i: int| 0 <= i < script_end(a).len() implies !wanted(
        #[trigger] script_end(a)[i],
    ) by {
        lemma_end_actions(a, i);
    }
}

/// A run adds trailers if and only if the description to start from is not
/// empty or goes to the editor; an empty message alone stays empty.
pub proof fn law_empty_message_stays_empty(args: CommitArgsView, a: CommitAnswers)
    ensures
        has_action(commit_script(args, a), |action: SpecAction| action is AddTrailers) <==> (
        given_description(args, a).len() > 0 || args.use_editor()),
        given_description(args, a).len() == 0 && !args.use_editor() ==> final_description(
            args,
            a,
        ).len() == 0,
{
    let wanted = |action: SpecAction| action is AddTrailers;
    lemma_script_parts(args, a, wanted);
    lemma_not_in_end(a, wanted);
    if wants_trailers(args, a) {
        assert(wanted(script_trailers(args, a)[0]));
    }
}

/// A run gives the hint on an empty message if and only if an editor left it
/// empty.
pub proof fn law_hint_iff_left_empty(args: CommitArgsView, a: CommitAnswers)
    ensures
        has_action(commit_script(args, a), |action: SpecAction| action is Hint) <==> (
        args.use_editor() && a.edited.len() == 0),
{
    let wanted = |action: SpecAction| action is Hint;
    lemma_script_parts(args, a, wanted);
    lemma_not_in_end(a, wanted);
    if args.use_editor() && a.edited.len() == 0 {
        assert(wanted(script_hint(args, a)[0]));
    }
}

/// A run warns that the paths match nothing if and only if there are paths and
/// the selected tree is the base tree.
pub proof fn law_warning_iff_nothing_selected(args: CommitArgsView, a: CommitAnswers)
    ensures
        has_action(commit_script(args, a), |action: SpecAction| action is Warn) <==> (
        args.paths.len() > 0 && a.selected == a.base_tree),
{
    let wanted = |action: SpecAction| action is Warn;
    lemma_script_parts(args, a, wanted);
    lemma_not_in_end(a, wanted);
    if args.paths.len() > 0 && a.selected == a.base_tree {
        assert(wanted(script_warning(args, a)[0]));
    }
}

/// The selected changes stay in the commit, and the remaining ones move to a
/// new working-copy commit: the commit is rewritten with the selected tree and
/// no other, and a commit on top of the rewritten one, if there is to be one,
/// has the tree that the commit had.
pub proof fn law_remaining_changes_move_on(args: CommitArgsView, a: CommitAnswers)
    ensures
        forall|i: int|
            0 <= i < commit_script(args, a).len() ==> (#[trigger] commit_script(
                args,
                a,
            )[i] matches CommitAction::RewriteCommit { tree } ==> tree == TreeChoice::Selected),
        forall|i: int|
            0 <= i < commit_script(args, a).len() ==> (#[trigger] commit_script(
                args,
                a,
            )[i] matches CommitAction::WriteWorkingCopyCommit { parent, tree } ==> parent
                == CommitChoice::Rewritten && tree == TreeChoice::Original),
        has_action(commit_script(args, a), |action: SpecAction| action is RewriteCommit),
        has_action(commit_script(args, a), |action: SpecAction| action is WriteWorkingCopyCommit)
            <==> a.names.len() > 0,
{
    let bad = |action: SpecAction|
        (action is RewriteCommit && action != SpecAction::RewriteCommit {
            tree: TreeChoice::Selected,
        }) || (action is WriteWorkingCopyCommit && action != SpecAction::WriteWorkingCopyCommit {
            parent: CommitChoice::Rewritten,
            tree: TreeChoice::Original,
        });
    lemma_script_parts(args, a, bad);
    assert(!has_action(script_end(a), bad)) by {
        assert forall|i: int| 0 <= i < script_end(a).len() implies !bad(
            #[trigger] script_end(a)[i],
        ) by {
            lemma_end_actions(a, i);
        }
    }
    assert(!has_action(commit_script(args, a), bad));
    assert forall|i: int| 0 <= i < commit_script(args, a).len() implies !bad(
        #[trigger] commit_script(args, a)[i],
    ) by {}
    let rewrites = |action: SpecAction| action is RewriteCommit;
    lemma_script_parts(args, a, rewrites);
    assert(rewrites(script_rewrite()[0]));
    let news = |action: SpecAction| action is WriteWorkingCopyCommit;
    lemma_script_parts(args, a, news);
    if a.names.len() > 0 {
        assert(news(script_end(a)[0]));
    } else {
        assert forall|i: int| 0 <= i < script_end(a).len() implies !news(
            #[trigger] script_end(a)[i],
        ) by {
            lemma_end_actions(a, i);
        }
    }
}

/// Bookmarks are never moved to the commit on top: if they are moved at all, it
/// is to the rewritten commit. The workspaces, and they alone, go to the commit
/// on top.
pub proof fn law_bookmarks_stay_below(args: CommitArgsView, a: CommitAnswers)
    ensures
        forall|i: int|
            0 <= i < commit_script(args, a).len() ==> (#[trigger] commit_script(
                args,
                a,
            )[i] matches CommitAction::AdvanceBookmarks { to } ==> to == CommitChoice::Rewritten),
        forall|i: int|
            0 <= i < commit_script(args, a).len() ==> (#[trigger] commit_script(
                args,
                a,
            )[i] matches CommitAction::EditWorkspace { name, commit } ==> commit
                == CommitChoice::OnTop),
        has_action(commit_script(args, a), |action: SpecAction| action is AdvanceBookmarks)
            <==> a.names.len() > 0,
{
    let bad = |action: SpecAction|
        (action is AdvanceBookmarks && action != SpecAction::AdvanceBookmarks {
            to: CommitChoice::Rewritten,
        }) || (action is EditWorkspace && action->EditWorkspace_commit != CommitChoice::OnTop);
    lemma_script_parts(args, a, bad);
    assert(!has_action(script_end(a), bad)) by {
        assert forall|i: int| 0 <= i < script_end(a).len() implies !bad(
            #[trigger] script_end(a)[i],
        ) by {
            lemma_end_actions(a, i);
        }
    }
    assert(!has_action(commit_script(args, a), bad));
    assert forall|i: int| 0 <= i < commit_script(args, a).len() implies !bad(
        #[trigger] commit_script(args, a)[i],
    ) by {}
    let moves = |action: SpecAction| action is AdvanceBookmarks;
    lemma_script_parts(args, a, moves);
    if a.names.len() > 0 {
        assert(moves(script_end(a)[1]));
    } else {
        assert forall|i: int| 0 <= i < script_end(a).len() implies !moves(
            #[trigger] script_end(a)[i],
        ) by {
            lemma_end_actions(a, i);
        }
    }
}

/// How far a stage is from the end.
pub open spec fn stages_left(stage: CommitStage) -> nat {
    match stage {
        CommitStage::Open => 23,
        CommitStage::NoWorkingCopy => 0,
        CommitStage::Load => 22,
        CommitStage::MatchFiles => 21,
        CommitStage::Bookmarks => 20,
        CommitStage::DiffSelector => 19,
        CommitStage::TextEditor => 18,
        CommitStage::Transaction => 17,
        CommitStage::BaseTree => 16,
        CommitStage::Select => 15,
        CommitStage::Warn => 14,
        CommitStage::Rewrite => 13,
        CommitStage::Join => 12,
        CommitStage::Trailers => 11,
        CommitStage::Draft => 10,
        CommitStage::Template => 9,
        CommitStage::Edit => 8,
        CommitStage::Hint => 7,
        CommitStage::Write => 6,
        CommitStage::Workspaces => 5,
        CommitStage::NewCommit => 4,
        CommitStage::Advance => 3,
        CommitStage::EditWorkspace { .. } => 2,
        CommitStage::FinishTransaction => 1,
        CommitStage::Finished => 0,
    }
}

/// How many workspaces are left to be told of the new commit.
pub open spec fn workspaces_left(state: CommitView) -> int {
    match state.stage {
        CommitStage::EditWorkspace { index } => state.names.len() - index,
        _ => 0,
    }
}

/// No run is endless: every event that is taken brings the command closer to
/// its end.
pub proof fn law_every_event_leads_on(state: CommitView, event: SpecEvent)
    requires
        commit_next(state, event) is Some,
        state.names.len() <= usize::MAX,
    ensures
        ({
            let next = commit_next(state, event)->Some_0;
            ||| stages_left(next.stage) < stages_left(state.stage)
            ||| stages_left(next.stage) == stages_left(state.stage) && 0 <= workspaces_left(next)
                < workspaces_left(state)
        }),
{
}

} // verus!
