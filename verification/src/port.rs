//! The values that herdr, git and GitHub's command line are asked with and answer with.

use vstd::prelude::*;

use crate::shapes;
use crate::text;
use crate::text::{chars_of, find_char};

verus! {

// ---------------------------------------------------------------- git

/// Where a ref lives.
#[derive(Debug, Clone, Copy, PartialEq, Eq, Structural)]
pub enum RefKind {
    Local,
    Remote,
}

/// How a branch stands to the branch it is compared with. Every count is above zero.
#[derive(Debug, Clone, Copy, PartialEq, Eq, Structural)]
pub enum Track {
    /// The branch it was compared with is no longer there.
    Gone,
    Ahead(u32),
    Behind(u32),
    Diverged { ahead: u32, behind: u32 },
    /// git said something that could not be read.
    Unreadable,
}

impl Track {
    /// Every count that a track carries is above zero.
    pub open spec fn counts(self) -> bool {
        match self {
            Track::Gone | Track::Unreadable => true,
            Track::Ahead(n) => n > 0,
            Track::Behind(n) => n > 0,
            Track::Diverged { ahead, behind } => ahead > 0 && behind > 0,
        }
    }
}

/// One ref of a repository.
#[derive(Debug, Clone, PartialEq, Eq)]
pub struct GitRef {
    pub name: String,
    pub kind: RefKind,
    pub committed_at: Option<i64>,
    pub subject: Option<String>,
    pub upstream: Option<String>,
    pub track: Option<Track>,
    pub worktree_path: Option<String>,
}

#[verifier::ext_equal]
pub struct GitRefView {
    pub name: Seq<char>,
    pub kind: RefKind,
    pub committed_at: Option<i64>,
    pub subject: Option<Seq<char>>,
    pub upstream: Option<Seq<char>>,
    pub track: Option<Track>,
    pub worktree_path: Option<Seq<char>>,
}

impl View for GitRef {
    type V = GitRefView;

    open spec fn view(&self) -> GitRefView {
        GitRefView {
            name: self.name@,
            kind: self.kind,
            committed_at: self.committed_at,
            subject: shapes::opt(self.subject),
            upstream: shapes::opt(self.upstream),
            track: self.track,
            worktree_path: shapes::opt(self.worktree_path),
        }
    }
}

/// The refs that a walk read, and what git said of those it left out.
#[derive(Debug, Clone, PartialEq, Eq)]
pub struct RefWalk {
    pub refs: Vec<GitRef>,
    pub dropped: Option<String>,
}

#[verifier::ext_equal]
pub struct RefWalkView {
    pub refs: Seq<GitRefView>,
    pub dropped: Option<Seq<char>>,
}

impl View for RefWalk {
    type V = RefWalkView;

    open spec fn view(&self) -> RefWalkView {
        RefWalkView { refs: shapes::views(self.refs@), dropped: shapes::opt(self.dropped) }
    }
}

impl RefWalk {
    /// A walk that left nothing out.
    pub fn of(refs: Vec<GitRef>) -> (walk: RefWalk)
        ensures
            walk@ == (RefWalkView { refs: shapes::views(refs@), dropped: None }),
    {
        RefWalk { refs, dropped: None }
    }
}

/// The repository, the checkout and the branch that a directory is in.
#[derive(Debug, Clone, PartialEq, Eq)]
pub struct RepoIdentity {
    pub repo_key: String,
    pub checkout_path: String,
    pub branch: Option<String>,
}

#[verifier::ext_equal]
pub struct RepoIdentityView {
    pub repo_key: Seq<char>,
    pub checkout_path: Seq<char>,
    pub branch: Option<Seq<char>>,
}

impl View for RepoIdentity {
    type V = RepoIdentityView;

    open spec fn view(&self) -> RepoIdentityView {
        RepoIdentityView {
            repo_key: self.repo_key@,
            checkout_path: self.checkout_path@,
            branch: shapes::opt(self.branch),
        }
    }
}

/// The name that GitHub knows a repository by: `owner/repo`.
#[derive(Debug, Clone, PartialEq, Eq)]
pub struct Slug(String);

/// Whether `name` can be one half of a slug: it holds something, and no slash.
pub open spec fn slug_half(name: Seq<char>) -> bool {
    name.len() > 0 && text::find(name, '/') == name.len()
}

/// The slug that an owner and a repository make, where both can be halves of one.
pub open spec fn slug(owner: Seq<char>, repo: Seq<char>) -> Option<Seq<char>> {
    if slug_half(owner) && slug_half(repo) {
        Some(owner + "/"@ + repo)
    } else {
        None
    }
}

impl View for Slug {
    type V = Seq<char>;

    closed spec fn view(&self) -> Seq<char> {
        self.0@
    }
}

impl Slug {
    /// The slug of an owner's repository; nothing where a half is empty or holds a slash.
    pub fn owner_repo(owner: &str, repo: &str) -> (made: Option<Slug>)
        ensures
            shapes::opt(made) == slug(owner@, repo@),
    {
        let o = chars_of(owner);
        let r = chars_of(repo);
        if o.len() == 0 || r.len() == 0 {
            return None;
        }
        if find_char(o.as_slice(), '/') != o.len() || find_char(r.as_slice(), '/') != r.len() {
            return None;
        }
        let mut name = owner.to_owned();
        name.append("/");
        name.append(repo);
        Some(Slug(name))
    }

    pub fn as_str(&self) -> (name: &str)
        ensures
            name@ == self@,
    {
        self.0.as_str()
    }
}

/// What a program that ran to its end left behind. `code` is missing where a signal ended it.
#[derive(Debug, Clone, PartialEq, Eq)]
pub struct Output {
    pub code: Option<i32>,
    pub stdout: Vec<u8>,
    pub stderr: Vec<u8>,
}

#[verifier::ext_equal]
pub struct OutputView {
    pub code: Option<i32>,
    pub stdout: Seq<u8>,
    pub stderr: Seq<u8>,
}

impl View for Output {
    type V = OutputView;

    open spec fn view(&self) -> OutputView {
        OutputView { code: self.code, stdout: self.stdout@, stderr: self.stderr@ }
    }
}

/// A program to run: its name, its arguments and the variables set for it.
#[derive(Debug, Clone, PartialEq, Eq)]
pub struct Invocation {
    pub program: String,
    pub args: Vec<String>,
    pub envs: Vec<(String, String)>,
}

#[verifier::ext_equal]
pub struct InvocationView {
    pub program: Seq<char>,
    pub args: Seq<Seq<char>>,
    pub envs: Seq<(Seq<char>, Seq<char>)>,
}

impl View for Invocation {
    type V = InvocationView;

    open spec fn view(&self) -> InvocationView {
        InvocationView {
            program: self.program@,
            args: text::texts(self.args@),
            envs: Seq::new(self.envs@.len(), |i: int| (self.envs@[i].0@, self.envs@[i].1@)),
        }
    }
}

// ---------------------------------------------------------------- GitHub

/// An open pull request.
#[derive(Debug, Clone, PartialEq, Eq)]
pub struct PullRequest {
    pub number: u64,
    pub title: String,
    pub head_ref: String,
    pub is_draft: bool,
}

#[verifier::ext_equal]
pub struct PullRequestView {
    pub number: u64,
    pub title: Seq<char>,
    pub head_ref: Seq<char>,
    pub is_draft: bool,
}

impl View for PullRequest {
    type V = PullRequestView;

    open spec fn view(&self) -> PullRequestView {
        PullRequestView {
            number: self.number,
            title: self.title@,
            head_ref: self.head_ref@,
            is_draft: self.is_draft,
        }
    }
}

/// How a pull request that is no longer open ended.
#[derive(Debug, Clone, Copy, PartialEq, Eq, Structural)]
pub enum PullRequestOutcome {
    Merged,
    Closed,
}

/// A pull request that is no longer open.
#[derive(Debug, Clone, PartialEq, Eq)]
pub struct SettledPullRequest {
    pub number: u64,
    pub head_ref: String,
    pub from_a_fork: bool,
    pub outcome: PullRequestOutcome,
}

#[verifier::ext_equal]
pub struct SettledPullRequestView {
    pub number: u64,
    pub head_ref: Seq<char>,
    pub from_a_fork: bool,
    pub outcome: PullRequestOutcome,
}

impl View for SettledPullRequest {
    type V = SettledPullRequestView;

    open spec fn view(&self) -> SettledPullRequestView {
        SettledPullRequestView {
            number: self.number,
            head_ref: self.head_ref@,
            from_a_fork: self.from_a_fork,
            outcome: self.outcome,
        }
    }
}

/// The pull requests of a repository that are no longer open: all of them, or as many as could
/// be seen.
#[derive(Debug, Clone, PartialEq, Eq)]
pub enum SettledPullRequests {
    All(Vec<SettledPullRequest>),
    Window(Vec<SettledPullRequest>),
}

#[verifier::ext_equal]
pub enum SettledPullRequestsView {
    All(Seq<SettledPullRequestView>),
    Window(Seq<SettledPullRequestView>),
}

impl View for SettledPullRequests {
    type V = SettledPullRequestsView;

    open spec fn view(&self) -> SettledPullRequestsView {
        match self {
            SettledPullRequests::All(list) => SettledPullRequestsView::All(shapes::views(list@)),
            SettledPullRequests::Window(list) => SettledPullRequestsView::Window(
                shapes::views(list@),
            ),
        }
    }
}

// ---------------------------------------------------------------- removals

/// What became of a checkout, and of its branch where that was to go too.
#[derive(Debug, Clone, PartialEq, Eq)]
pub enum RemovalOutcome {
    /// It is gone, and so is the branch where it was to go.
    Removed,
    /// It is still there, for the reason git gave.
    Refused(String),
    /// It is gone, and the branch is still there for the reason git gave.
    BranchKept(String),
}

#[verifier::ext_equal]
pub enum RemovalOutcomeView {
    Removed,
    Refused(Seq<char>),
    BranchKept(Seq<char>),
}

impl View for RemovalOutcome {
    type V = RemovalOutcomeView;

    open spec fn view(&self) -> RemovalOutcomeView {
        match self {
            RemovalOutcome::Removed => RemovalOutcomeView::Removed,
            RemovalOutcome::Refused(words) => RemovalOutcomeView::Refused(words@),
            RemovalOutcome::BranchKept(words) => RemovalOutcomeView::BranchKept(words@),
        }
    }
}

/// The sound that a notification is shown with.
#[derive(Debug, Clone, Copy, PartialEq, Eq, Structural)]
pub enum NotificationSound {
    Silent,
    Request,
}

impl NotificationSound {
    /// The word for the sound.
    pub open spec fn word(self) -> Seq<char> {
        match self {
            NotificationSound::Silent => "none"@,
            NotificationSound::Request => "request"@,
        }
    }

    /// The word for the sound.
    pub fn as_str(&self) -> (word: &'static str)
        ensures
            word@ == self.word(),
    {
        match self {
            NotificationSound::Silent => "none",
            NotificationSound::Request => "request",
        }
    }
}

/// A notification for herdr to show.
#[derive(Debug, Clone, PartialEq, Eq)]
pub struct Notification {
    pub title: String,
    pub body: Option<String>,
    pub sound: NotificationSound,
}

#[verifier::ext_equal]
pub struct NotificationView {
    pub title: Seq<char>,
    pub body: Option<Seq<char>>,
    pub sound: NotificationSound,
}

impl View for Notification {
    type V = NotificationView;

    open spec fn view(&self) -> NotificationView {
        NotificationView { title: self.title@, body: shapes::opt(self.body), sound: self.sound }
    }
}

// ---------------------------------------------------------------- herdr

/// What the agent in a pane is doing.
#[derive(Debug, Clone, Copy, PartialEq, Eq, Structural)]
pub enum AgentStatus {
    Idle,
    Working,
    Blocked,
    Done,
    Unknown,
}

/// The checkout that a workspace is in.
#[derive(Debug, Clone, PartialEq, Eq)]
pub struct WorkspaceWorktree {
    pub repo_key: String,
    pub repo_name: String,
    pub repo_root: String,
    pub checkout_path: String,
    pub is_linked_worktree: bool,
}

#[verifier::ext_equal]
pub struct WorkspaceWorktreeView {
    pub repo_key: Seq<char>,
    pub repo_name: Seq<char>,
    pub repo_root: Seq<char>,
    pub checkout_path: Seq<char>,
    pub is_linked_worktree: bool,
}

impl View for WorkspaceWorktree {
    type V = WorkspaceWorktreeView;

    open spec fn view(&self) -> WorkspaceWorktreeView {
        WorkspaceWorktreeView {
            repo_key: self.repo_key@,
            repo_name: self.repo_name@,
            repo_root: self.repo_root@,
            checkout_path: self.checkout_path@,
            is_linked_worktree: self.is_linked_worktree,
        }
    }
}

/// A workspace of the session.
#[derive(Debug, Clone, PartialEq, Eq)]
pub struct Workspace {
    pub workspace_id: String,
    pub label: String,
    pub number: u32,
    pub focused: bool,
    pub active_tab_id: Option<String>,
    pub agent_status: AgentStatus,
    pub worktree: Option<WorkspaceWorktree>,
}

#[verifier::ext_equal]
pub struct WorkspaceView {
    pub workspace_id: Seq<char>,
    pub label: Seq<char>,
    pub number: u32,
    pub focused: bool,
    pub active_tab_id: Option<Seq<char>>,
    pub agent_status: AgentStatus,
    pub worktree: Option<WorkspaceWorktreeView>,
}

impl View for Workspace {
    type V = WorkspaceView;

    open spec fn view(&self) -> WorkspaceView {
        WorkspaceView {
            workspace_id: self.workspace_id@,
            label: self.label@,
            number: self.number,
            focused: self.focused,
            active_tab_id: shapes::opt(self.active_tab_id),
            agent_status: self.agent_status,
            worktree: shapes::opt(self.worktree),
        }
    }
}

/// A pane of the session.
#[derive(Debug, Clone, PartialEq, Eq)]
pub struct Pane {
    pub pane_id: String,
    pub tab_id: String,
    pub workspace_id: String,
    pub terminal_id: String,
    pub cwd: Option<String>,
    pub foreground_cwd: Option<String>,
    pub focused: bool,
    pub agent: Option<String>,
    pub agent_status: AgentStatus,
    pub title: Option<String>,
    pub terminal_title_stripped: Option<String>,
    pub label: Option<String>,
}

#[verifier::ext_equal]
pub struct PaneView {
    pub pane_id: Seq<char>,
    pub tab_id: Seq<char>,
    pub workspace_id: Seq<char>,
    pub terminal_id: Seq<char>,
    pub cwd: Option<Seq<char>>,
    pub foreground_cwd: Option<Seq<char>>,
    pub focused: bool,
    pub agent: Option<Seq<char>>,
    pub agent_status: AgentStatus,
    pub title: Option<Seq<char>>,
    pub terminal_title_stripped: Option<Seq<char>>,
    pub label: Option<Seq<char>>,
}

impl View for Pane {
    type V = PaneView;

    open spec fn view(&self) -> PaneView {
        PaneView {
            pane_id: self.pane_id@,
            tab_id: self.tab_id@,
            workspace_id: self.workspace_id@,
            terminal_id: self.terminal_id@,
            cwd: shapes::opt(self.cwd),
            foreground_cwd: shapes::opt(self.foreground_cwd),
            focused: self.focused,
            agent: shapes::opt(self.agent),
            agent_status: self.agent_status,
            title: shapes::opt(self.title),
            terminal_title_stripped: shapes::opt(self.terminal_title_stripped),
            label: shapes::opt(self.label),
        }
    }
}

/// The session as herdr describes it.
#[derive(Debug, Clone, PartialEq, Eq)]
pub struct Snapshot {
    pub version: String,
    pub protocol: u32,
    pub workspaces: Vec<Workspace>,
    pub panes: Vec<Pane>,
}

#[verifier::ext_equal]
pub struct SnapshotView {
    pub version: Seq<char>,
    pub protocol: u32,
    pub workspaces: Seq<WorkspaceView>,
    pub panes: Seq<PaneView>,
}

impl View for Snapshot {
    type V = SnapshotView;

    open spec fn view(&self) -> SnapshotView {
        SnapshotView {
            version: self.version@,
            protocol: self.protocol,
            workspaces: shapes::views(self.workspaces@),
            panes: shapes::views(self.panes@),
        }
    }
}

/// Whether a pane of this id is among the panes.
pub open spec fn has_pane(panes: Seq<PaneView>, id: Seq<char>) -> bool {
    exists|i: int| 0 <= i < panes.len() && (#[trigger] panes[i]).pane_id == id
}

impl Snapshot {
    /// Whether the session has a pane of this id.
    pub fn has(&self, id: &str) -> (has: bool)
        ensures
            has == has_pane(self@.panes, id@),
    {
        let ghost all = self@.panes;
        let mut i: usize = 0;
        while i < self.panes.len()
            invariant
                i <= self.panes@.len(),
                all == self@.panes,
                forall|j: int| 0 <= j < i ==> (#[trigger] all[j]).pane_id != id@,
            decreases self.panes@.len() - i,
        {
            if text::same(self.panes[i].pane_id.as_str(), id) {
                assert(all[i as int].pane_id == id@);
                return true;
            }
            i = i + 1;
        }
        false
    }
}

/// A checkout as herdr lists it.
#[derive(Debug, Clone, PartialEq, Eq)]
pub struct Worktree {
    pub branch: Option<String>,
    pub path: String,
    pub label: String,
    pub is_bare: bool,
    pub is_detached: bool,
    pub is_linked_worktree: bool,
    pub is_prunable: bool,
    pub open_workspace_id: Option<String>,
}

#[verifier::ext_equal]
pub struct WorktreeView {
    pub branch: Option<Seq<char>>,
    pub path: Seq<char>,
    pub label: Seq<char>,
    pub is_bare: bool,
    pub is_detached: bool,
    pub is_linked_worktree: bool,
    pub is_prunable: bool,
    pub open_workspace_id: Option<Seq<char>>,
}

impl View for Worktree {
    type V = WorktreeView;

    open spec fn view(&self) -> WorktreeView {
        WorktreeView {
            branch: shapes::opt(self.branch),
            path: self.path@,
            label: self.label@,
            is_bare: self.is_bare,
            is_detached: self.is_detached,
            is_linked_worktree: self.is_linked_worktree,
            is_prunable: self.is_prunable,
            open_workspace_id: shapes::opt(self.open_workspace_id),
        }
    }
}

/// The repository that a listing is of.
#[derive(Debug, Clone, PartialEq, Eq)]
pub struct WorktreeSource {
    pub repo_key: String,
    pub repo_name: String,
    pub repo_root: String,
    pub source_checkout_path: String,
    pub source_workspace_id: Option<String>,
}

#[verifier::ext_equal]
pub struct WorktreeSourceView {
    pub repo_key: Seq<char>,
    pub repo_name: Seq<char>,
    pub repo_root: Seq<char>,
    pub source_checkout_path: Seq<char>,
    pub source_workspace_id: Option<Seq<char>>,
}

impl View for WorktreeSource {
    type V = WorktreeSourceView;

    open spec fn view(&self) -> WorktreeSourceView {
        WorktreeSourceView {
            repo_key: self.repo_key@,
            repo_name: self.repo_name@,
            repo_root: self.repo_root@,
            source_checkout_path: self.source_checkout_path@,
            source_workspace_id: shapes::opt(self.source_workspace_id),
        }
    }
}

/// The checkouts of a repository as herdr lists them.
#[derive(Debug, Clone, PartialEq, Eq)]
pub struct WorktreeList {
    pub source: WorktreeSource,
    pub worktrees: Vec<Worktree>,
}

#[verifier::ext_equal]
pub struct WorktreeListView {
    pub source: WorktreeSourceView,
    pub worktrees: Seq<WorktreeView>,
}

impl View for WorktreeList {
    type V = WorktreeListView;

    open spec fn view(&self) -> WorktreeListView {
        WorktreeListView {
            source: self.source@,
            worktrees: shapes::views(self.worktrees@),
        }
    }
}

impl Default for Snapshot {
    /// A session with nothing in it.
    fn default() -> (snapshot: Snapshot)
        ensures
            snapshot@ == (SnapshotView {
                version: seq![],
                protocol: 0,
                workspaces: seq![],
                panes: seq![],
            }),
    {
        Snapshot {
            version: String::new(),
            protocol: 0,
            workspaces: Vec::new(),
            panes: Vec::new(),
        }
    }
}

impl PaneView {
    /// The directory that the pane is in: that of the program in front, or its own.
    pub open spec fn effective_cwd(self) -> Option<Seq<char>> {
        match self.foreground_cwd {
            Some(cwd) => Some(cwd),
            None => self.cwd,
        }
    }
}

impl Pane {
    /// The directory that the pane is in.
    pub fn effective_cwd(&self) -> (cwd: Option<&str>)
        ensures
            match cwd {
                Some(c) => self@.effective_cwd() == Some(c@),
                None => self@.effective_cwd() is None,
            },
    {
        match &self.foreground_cwd {
            Some(cwd) => Some(cwd.as_str()),
            None => match &self.cwd {
                Some(cwd) => Some(cwd.as_str()),
                None => None,
            },
        }
    }
}

// ---------------------------------------------------------------- requests

/// Which side of a pane a new one goes to.
#[derive(Debug, Clone, Copy, PartialEq, Eq, Structural)]
pub enum SplitDirection {
    Right,
    Down,
}

impl SplitDirection {
    /// The word that herdr knows the direction by.
    pub open spec fn word(self) -> Seq<char> {
        match self {
            SplitDirection::Right => "right"@,
            SplitDirection::Down => "down"@,
        }
    }

    /// The word that herdr knows the direction by.
    pub fn as_str(&self) -> (word: &'static str)
        ensures
            word@ == self.word(),
    {
        match self {
            SplitDirection::Right => "right",
            SplitDirection::Down => "down",
        }
    }
}

/// Asks herdr for a new checkout.
#[derive(Debug, Clone, PartialEq, Eq)]
pub struct WorktreeCreate {
    pub cwd: String,
    pub branch: Option<String>,
    pub base: Option<String>,
    pub focus: bool,
}

#[verifier::ext_equal]
pub struct WorktreeCreateView {
    pub cwd: Seq<char>,
    pub branch: Option<Seq<char>>,
    pub base: Option<Seq<char>>,
    pub focus: bool,
}

impl View for WorktreeCreate {
    type V = WorktreeCreateView;

    open spec fn view(&self) -> WorktreeCreateView {
        WorktreeCreateView {
            cwd: self.cwd@,
            branch: shapes::opt(self.branch),
            base: shapes::opt(self.base),
            focus: self.focus,
        }
    }
}

/// Asks herdr to open a checkout that is there.
#[derive(Debug, Clone, PartialEq, Eq)]
pub struct WorktreeOpen {
    pub cwd: String,
    pub path: Option<String>,
    pub branch: Option<String>,
    pub focus: bool,
}

#[verifier::ext_equal]
pub struct WorktreeOpenView {
    pub cwd: Seq<char>,
    pub path: Option<Seq<char>>,
    pub branch: Option<Seq<char>>,
    pub focus: bool,
}

impl View for WorktreeOpen {
    type V = WorktreeOpenView;

    open spec fn view(&self) -> WorktreeOpenView {
        WorktreeOpenView {
            cwd: self.cwd@,
            path: shapes::opt(self.path),
            branch: shapes::opt(self.branch),
            focus: self.focus,
        }
    }
}

/// Asks herdr for a new pane beside another.
#[derive(Debug, Clone, PartialEq, Eq)]
pub struct PaneSplit {
    pub target_pane_id: String,
    pub direction: SplitDirection,
    pub cwd: Option<String>,
    pub focus: bool,
}

#[verifier::ext_equal]
pub struct PaneSplitView {
    pub target_pane_id: Seq<char>,
    pub direction: SplitDirection,
    pub cwd: Option<Seq<char>>,
    pub focus: bool,
}

impl View for PaneSplit {
    type V = PaneSplitView;

    open spec fn view(&self) -> PaneSplitView {
        PaneSplitView {
            target_pane_id: self.target_pane_id@,
            direction: self.direction,
            cwd: shapes::opt(self.cwd),
            focus: self.focus,
        }
    }
}

/// Asks herdr for a pane that runs the plugin.
#[derive(Debug, Clone, PartialEq, Eq)]
pub struct PluginPaneOpen {
    pub plugin_id: String,
    pub entrypoint: String,
    pub placement: String,
    pub cwd: Option<String>,
    /// The variables that are set for it, with their values.
    pub env: Vec<(String, String)>,
    pub focus: bool,
}

#[verifier::ext_equal]
pub struct PluginPaneOpenView {
    pub plugin_id: Seq<char>,
    pub entrypoint: Seq<char>,
    pub placement: Seq<char>,
    pub cwd: Option<Seq<char>>,
    pub env: Seq<(Seq<char>, Seq<char>)>,
    pub focus: bool,
}

impl View for PluginPaneOpen {
    type V = PluginPaneOpenView;

    open spec fn view(&self) -> PluginPaneOpenView {
        PluginPaneOpenView {
            plugin_id: self.plugin_id@,
            entrypoint: self.entrypoint@,
            placement: self.placement@,
            cwd: shapes::opt(self.cwd),
            env: shapes::pairs(self.env@),
            focus: self.focus,
        }
    }
}

/// Where a pane is moved to.
#[derive(Debug, Clone, PartialEq, Eq)]
pub enum PaneDestination {
    /// Beside a pane of a tab.
    Tab { tab_id: String, split: SplitDirection, target_pane_id: Option<String> },
    /// Into a tab of its own.
    NewTab { workspace_id: String },
}

#[verifier::ext_equal]
pub enum PaneDestinationView {
    Tab { tab_id: Seq<char>, split: SplitDirection, target_pane_id: Option<Seq<char>> },
    NewTab { workspace_id: Seq<char> },
}

impl PaneDestination {
    /// Another of the same.
    pub fn copy(&self) -> (destination: PaneDestination)
        ensures
            destination@ == self@,
    {
        match self {
            PaneDestination::Tab { tab_id, split, target_pane_id } => PaneDestination::Tab {
                tab_id: tab_id.clone(),
                split: *split,
                target_pane_id: text::copied(target_pane_id),
            },
            PaneDestination::NewTab { workspace_id } => PaneDestination::NewTab {
                workspace_id: workspace_id.clone(),
            },
        }
    }
}

impl View for PaneDestination {
    type V = PaneDestinationView;

    open spec fn view(&self) -> PaneDestinationView {
        match self {
            PaneDestination::Tab { tab_id, split, target_pane_id } => PaneDestinationView::Tab {
                tab_id: tab_id@,
                split: *split,
                target_pane_id: shapes::opt(*target_pane_id),
            },
            PaneDestination::NewTab { workspace_id } => PaneDestinationView::NewTab {
                workspace_id: workspace_id@,
            },
        }
    }
}

// ---------------------------------------------------------------- laws

/// An owner and a repository make a slug exactly where both hold something and neither a slash,
/// and the slug is the two with one slash between them.
pub proof fn law_slug_is_two_halves(owner: Seq<char>, repo: Seq<char>)
    ensures
        slug(owner, repo) is Some <==> owner.len() > 0 && repo.len() > 0 && !owner.contains('/')
            && !repo.contains('/'),
        slug(owner, repo) is Some ==> slug(owner, repo) == Some(owner + seq!['/'] + repo),
{
    reveal_strlit("/");
    assert("/"@ =~= seq!['/']);
    lemma_half_holds_no_slash(owner);
    lemma_half_holds_no_slash(repo);
}

proof fn lemma_half_holds_no_slash(name: Seq<char>)
    ensures
        slug_half(name) <==> name.len() > 0 && !name.contains('/'),
{
    text::lemma_find(name, '/');
    if name.contains('/') {
        let i = choose|i: int| 0 <= i < name.len() && name[i] == '/';
        if text::find(name, '/') == name.len() {
            assert(name[i] != '/');
        }
    } else if text::find(name, '/') < name.len() {
        assert(name.contains(name[text::find(name, '/')]));
    }
}

/// A pane is where the program in front of it is, and only where that is not known where it was
/// itself started.
pub proof fn law_pane_is_where_its_program_is(pane: PaneView, front: Seq<char>)
    ensures
        pane.foreground_cwd == Some(front) ==> pane.effective_cwd() == Some(front),
        pane.foreground_cwd is None ==> pane.effective_cwd() == pane.cwd,
{
}

/// A count is never of nothing, and a branch that stands to another by none stands level.
pub proof fn law_counts_are_above_zero(n: u32, m: u32)
    ensures
        Track::Ahead(n).counts() <==> n > 0,
        Track::Behind(n).counts() <==> n > 0,
        (Track::Diverged { ahead: n, behind: m }).counts() <==> n > 0 && m > 0,
        Track::Gone.counts(),
        Track::Unreadable.counts(),
{
}

/// The words that herdr knows sounds and sides by.
pub proof fn law_words_of_herdr()
    ensures
        NotificationSound::Silent.word() == "none"@,
        NotificationSound::Request.word() == "request"@,
        SplitDirection::Right.word() == "right"@,
        SplitDirection::Down.word() == "down"@,
{
}

/// A session has a pane where one of its panes has that id.
pub proof fn law_pane_is_had_by_its_id(
    first: Seq<PaneView>,
    second: Seq<PaneView>,
    pane: PaneView,
    id: Seq<char>,
)
    ensures
        has_pane(first + second, id) <==> has_pane(first, id) || has_pane(second, id),
        has_pane(seq![pane], id) <==> pane.pane_id == id,
        !has_pane(seq![], id),
{
    let both = first + second;
    if has_pane(first, id) {
        let i = choose|i: int| 0 <= i < first.len() && (#[trigger] first[i]).pane_id == id;
        assert(both[i].pane_id == id);
    }
    if has_pane(second, id) {
        let i = choose|i: int| 0 <= i < second.len() && (#[trigger] second[i]).pane_id == id;
        assert(both[first.len() + i].pane_id == id);
    }
    if has_pane(both, id) {
        let i = choose|i: int| 0 <= i < both.len() && (#[trigger] both[i]).pane_id == id;
        if i < first.len() {
            assert(first[i].pane_id == id);
        } else {
            assert(second[i - first.len()].pane_id == id);
        }
    }
    if pane.pane_id == id {
        assert(seq![pane][0].pane_id == id);
    }
}

} // verus!
