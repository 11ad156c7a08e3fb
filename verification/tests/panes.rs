//! The panes picker, driven over answers that are made up here.

use std::cell::{Cell, RefCell};
use std::collections::BTreeMap;
use std::rc::Rc;

use herdr_worktree_nav::collect;
use herdr_worktree_nav::collect::{Placed, Probed, Reply};
use herdr_worktree_nav::dirty::{self, Walk, WalkReply};
use herdr_worktree_nav::model::{
    Branch, PaneNode, Refs, RepoNode, Tree, Trouble, Unlisted, WorkingTree, WorktreeNode,
};
use herdr_worktree_nav::ordered::OrderedMap;
use herdr_worktree_nav::panes::{self, Ended, Exit, Performed, ReRead};
use herdr_worktree_nav::panes_state::{Action, Asked, Key, PanesState};
use herdr_worktree_nav::port::{
    AgentStatus, GitRef, Pane, PaneSplit, PullRequestOutcome, RefKind, RefWalk, RemovalOutcome,
    RepoIdentity, SettledPullRequest, SettledPullRequests, Slug, Snapshot, Track, Workspace,
    WorkspaceWorktree, Worktree, WorktreeList, WorktreeOpen, WorktreeSource,
};
use herdr_worktree_nav::removals::{self, Removal, Step};
use herdr_worktree_nav::remove::Args;
use herdr_worktree_nav::settled::{self, Question, SettledReply};
use herdr_worktree_nav::tree::{PanePlacement, RepoInput};

const STALE: &str = "the list could not be read again";

const READ_AGAIN: &str = "the list has been read again since";

const WITHDRAWN: &str = "the list changed while that was up — ask again";

/// A result whose failure is told in words, as every port tells it.
type Result<T, E = String> = std::result::Result<T, E>;

fn refused(method: &str) -> ! {
    unreachable!("{method} is not one of the answers this fake gives")
}

/// The questions that are put to git, each answered only by the fakes that have an answer.
trait FakeGit {
    fn identify(&self, _cwd: &str) -> Result<Option<RepoIdentity>> {
        refused("identify")
    }
    fn github_slug(&self, _repo_root: &str) -> Result<Option<Slug>> {
        refused("github_slug")
    }
    fn local_refs(&self, _repo_root: &str) -> Result<RefWalk> {
        refused("local_refs")
    }
    fn is_dirty(&self, _checkout_path: &str) -> Result<bool> {
        refused("is_dirty")
    }
    /// Whether what was asked ever comes to an end.
    fn finishes(&self) -> bool {
        true
    }
}

/// The questions that are put to herdr, each answered only by the fakes that have an answer.
trait FakeHerdr {
    fn snapshot(&self) -> Result<Snapshot> {
        refused("snapshot")
    }
    fn worktree_list(&self, _cwd: &str) -> Result<WorktreeList> {
        refused("worktree_list")
    }
    fn worktree_open(&self, _request: &WorktreeOpen) -> Result<()> {
        refused("worktree_open")
    }
    fn pane_focus(&self, _pane_id: &str) -> Result<()> {
        refused("pane_focus")
    }
    fn pane_split(&self, _request: &PaneSplit) -> Result<()> {
        refused("pane_split")
    }
    fn pane_close(&self, _pane_id: &str) -> Result<()> {
        refused("pane_close")
    }
}

/// The questions that are put to gh, each answered only by the fakes that have an answer.
trait FakeGh {
    fn settled_pull_requests(&self, _slug: &Slug) -> Result<SettledPullRequests> {
        refused("settled_pull_requests")
    }
}

fn reply<T>(git: &dyn FakeGit, ask: impl FnOnce() -> Result<T>) -> Reply<T> {
    match git.finishes() {
        true => Reply::Answered(ask()),
        false => Reply::Lost,
    }
}

fn placed(
    snapshot: &Snapshot,
    git: &dyn FakeGit,
) -> (OrderedMap<PanePlacement>, OrderedMap<String>) {
    let mut answers: OrderedMap<Placed> = OrderedMap::new();
    for cwd in collect::unresolved(snapshot) {
        let placed = collect::identify_one(reply(git, || git.identify(&cwd)));
        answers.insert(cwd, placed);
    }
    collect::resolve_placements(snapshot, &answers)
}

fn listed_repos(
    herdr: &dyn FakeHerdr,
    git: &dyn FakeGit,
    placements: &OrderedMap<PanePlacement>,
) -> (Vec<RepoInput>, Vec<Unlisted>) {
    let groups = collect::repositories(placements);
    let mut outcomes = Vec::new();
    for group in &groups {
        let mut answers = Vec::new();
        let slug = loop {
            match collect::probe(group, &answers) {
                Probed::Ask(cwd) => answers.push(herdr.worktree_list(&cwd)),
                Probed::Listed { repo_root, .. } => break git.github_slug(&repo_root),
                Probed::NotListed(_) => break Ok(None),
            }
        };
        outcomes.extend(collect::outcome(group, answers, &slug));
    }
    collect::filed(&groups, outcomes)
}

fn walked(git: &dyn FakeGit, repo: RepoInput) -> RepoInput {
    let root = repo.repo_root.clone();
    collect::read_refs(repo, reply(git, || git.local_refs(&root)))
}

fn collect_tree(herdr: &dyn FakeHerdr, git: &dyn FakeGit) -> Result<(Snapshot, Tree)> {
    let snapshot = herdr.snapshot()?;
    let (placements, unplaced) = placed(&snapshot, git);
    let (repos, unlisted) = listed_repos(herdr, git, &placements);
    let repos = repos.into_iter().map(|repo| walked(git, repo)).collect();
    let tree = collect::collect_tree(&snapshot, &repos, &placements, unlisted, unplaced);
    Ok((snapshot, tree))
}

fn reading(herdr: &dyn FakeHerdr, git: &dyn FakeGit) -> Result<Tree> {
    collect_tree(herdr, git).map(|(_, tree)| tree)
}

/// A herdr that keeps what it was asked to do, and has no session to show.
#[derive(Default)]
struct Recorder {
    did: RefCell<Vec<String>>,
    refuse: Option<String>,
}

impl Recorder {
    fn refusing(pane_id: &str) -> Self {
        Self {
            refuse: Some(pane_id.to_string()),
            ..Self::default()
        }
    }

    fn record(&self, what: String) {
        self.did.borrow_mut().push(what);
    }

    fn did(&self) -> Vec<String> {
        self.did.borrow().clone()
    }
}

impl FakeHerdr for Recorder {
    fn pane_close(&self, pane_id: &str) -> Result<()> {
        if self.refuse.as_deref() == Some(pane_id) {
            return Err("herdr rejected pane.close: no such pane (not_found)".to_string());
        }
        self.record(format!("close {pane_id}"));
        Ok(())
    }

    fn snapshot(&self) -> Result<Snapshot> {
        Err("herdr is not answering".to_string())
    }
}

/// What starts a removal. A removal that started ends at once.
trait RemovalPort {
    fn start(&self, args: &Args) -> Result<Result<RemovalOutcome>>;
}

struct Started<'a>(&'a Recorder);

impl RemovalPort for Started<'_> {
    fn start(&self, args: &Args) -> Result<Result<RemovalOutcome>> {
        let branch = match args.delete_branch {
            true => " deleting the branch",
            false => "",
        };
        self.0.record(format!(
            "start {} after {}{branch}",
            args.checkout_path, args.panes_closed
        ));
        Ok(Ok(RemovalOutcome::Removed))
    }
}

struct RefusesFirst<'a> {
    rest: Started<'a>,
    asked: Cell<bool>,
}

impl<'a> RefusesFirst<'a> {
    fn new(recorder: &'a Recorder) -> Self {
        Self {
            rest: Started(recorder),
            asked: Cell::new(false),
        }
    }
}

impl RemovalPort for RefusesFirst<'_> {
    fn start(&self, args: &Args) -> Result<Result<RemovalOutcome>> {
        if !self.asked.replace(true) {
            return Err("could not spawn: no such file or directory".to_string());
        }
        self.rest.start(args)
    }
}

struct Reports(RemovalOutcome);

impl RemovalPort for Reports {
    fn start(&self, _args: &Args) -> Result<Result<RemovalOutcome>> {
        Ok(Ok(self.0.clone()))
    }
}

struct Lost;

impl RemovalPort for Lost {
    fn start(&self, args: &Args) -> Result<Result<RemovalOutcome>> {
        Ok(Err(format!(
            "the removal of {} ended without saying what happened",
            args.label
        )))
    }
}

struct Unwaited;

impl RemovalPort for Unwaited {
    fn start(&self, args: &Args) -> Result<Result<RemovalOutcome>> {
        Ok(Err(format!(
            "waiting for the removal of {}: No child processes (os error 10)",
            args.label
        )))
    }
}

#[derive(Default)]
struct LostFirst {
    asked: Cell<bool>,
}

impl RemovalPort for LostFirst {
    fn start(&self, args: &Args) -> Result<Result<RemovalOutcome>> {
        match self.asked.replace(true) {
            false => Lost.start(args),
            true => Reports(RemovalOutcome::Removed).start(args),
        }
    }
}

struct Refuses;

impl RemovalPort for Refuses {
    fn start(&self, _args: &Args) -> Result<Result<RemovalOutcome>> {
        Err("could not spawn: no such file or directory".to_string())
    }
}

/// The removals, and the ends that nobody has taken in.
struct Removals<'a> {
    removals: removals::Removals,
    port: &'a dyn RemovalPort,
    ends: Vec<Ended>,
}

impl<'a> Removals<'a> {
    fn new(port: &'a dyn RemovalPort) -> Self {
        Self {
            removals: removals::Removals::new(),
            port,
            ends: Vec::new(),
        }
    }

    fn remove(&mut self, herdr: &dyn FakeHerdr, removal: &Removal) -> Result<()> {
        let mut closed = Vec::new();
        let mut started = None;
        let mut end = None;
        loop {
            match self.removals.remove(removal, &closed, &started) {
                Step::Close(pane_id) => closed.push(herdr.pane_close(&pane_id)),
                Step::Start(args) => {
                    started = Some(self.port.start(&args).map(|outcome| end = Some(outcome)));
                }
                Step::Running => {
                    let outcome = end.take().expect("it was started");
                    self.ends.push((removal.checkout_path.clone(), outcome));
                    return Ok(());
                }
                Step::Refused(words) => return Err(words),
            }
        }
    }

    fn paths(&self) -> Vec<String> {
        self.removals.paths()
    }

    fn is_empty(&self) -> bool {
        self.removals.is_empty()
    }

    fn reported(&self) -> usize {
        self.ends.len()
    }
}

/// The walks, each answered as soon as it is started.
struct Dirty {
    dirty: dirty::Dirty,
    port: Rc<dyn FakeGit>,
    replies: Vec<WalkReply>,
}

impl Dirty {
    fn new(port: Rc<dyn FakeGit>) -> Self {
        Self {
            dirty: dirty::Dirty::new(),
            port,
            replies: Vec::new(),
        }
    }

    fn start(&mut self, walks: Vec<Walk>) {
        for walk in walks {
            self.replies.push(WalkReply {
                generation: walk.generation,
                dirty: self.port.is_dirty(&walk.checkout_path).ok(),
                checkout_path: walk.checkout_path,
            });
        }
    }

    fn ask(&mut self, tree: &Tree) {
        let walks = self.dirty.ask(tree);
        self.start(walks);
    }

    fn drain(&mut self) {
        let replies = std::mem::take(&mut self.replies);
        let walks = self.dirty.drain(&replies);
        self.start(walks);
    }

    fn answers(&self) -> BTreeMap<String, WorkingTree> {
        self.dirty.answers().into_iter().collect()
    }
}

/// The questions about pull requests, each answered as soon as it is put.
struct Settled {
    settled: settled::Settled,
    git: Rc<dyn FakeGit>,
    gh: Rc<dyn FakeGh>,
    replies: Vec<SettledReply>,
}

impl Settled {
    fn new(git: Rc<dyn FakeGit>, gh: Rc<dyn FakeGh>) -> Self {
        Self {
            settled: settled::Settled::new(),
            git,
            gh,
            replies: Vec::new(),
        }
    }

    fn put(&mut self, questions: Vec<Question>) {
        for question in questions {
            if !self.git.finishes() {
                continue;
            }
            let answer = match settled::after_slug(self.git.github_slug(&question.repo_root)) {
                Ok(slug) => settled::after_gh(self.gh.settled_pull_requests(&slug)),
                Err(answer) => answer,
            };
            self.replies.push(SettledReply {
                generation: question.generation,
                repo_root: question.repo_root,
                answer,
            });
        }
    }

    fn ask(&mut self, tree: &Tree) {
        let questions = self.settled.ask(tree);
        self.put(questions);
    }

    fn forget(&mut self) {
        self.settled.forget();
    }

    fn answers(&self, tree: &Tree) -> usize {
        self.settled.answers(tree).len()
    }
}

struct Pending {
    dirty: Dirty,
    settled: Settled,
}

fn until(what: &str, mut ready: impl FnMut() -> bool) {
    for _ in 0..2000 {
        if ready() {
            return;
        }
    }
    panic!("{what}");
}

fn show_answers(state: &mut PanesState, pending: &mut Pending) -> bool {
    let walked = std::mem::take(&mut pending.dirty.replies);
    let answered = std::mem::take(&mut pending.settled.replies);
    let shown = panes::show_answers(
        state,
        &mut pending.dirty.dirty,
        &mut pending.settled.settled,
        &walked,
        answered,
    );
    pending.dirty.start(shown.walks);
    pending.settled.put(shown.questions);
    shown.coming
}

fn re_read(
    state: &mut PanesState,
    pending: &mut Pending,
    herdr: &dyn FakeHerdr,
    git: &dyn FakeGit,
    why: ReRead,
) {
    let walks = panes::re_read(
        state,
        &mut pending.dirty.dirty,
        &mut pending.settled.settled,
        reading(herdr, git),
        why,
    );
    pending.dirty.start(walks);
}

fn drain_finished(
    state: &mut PanesState,
    pending: &mut Pending,
    removals: &mut Removals,
    herdr: &dyn FakeHerdr,
    git: &dyn FakeGit,
) {
    let ends = std::mem::take(&mut removals.ends);
    let read = match ends.is_empty() {
        true => None,
        false => Some(reading(herdr, git)),
    };
    let dirty = &mut pending.dirty.dirty;
    let walks = panes::drain_finished(state, dirty, &mut removals.removals, ends, read);
    pending.dirty.start(walks);
}

fn start_sweep(
    state: &mut PanesState,
    removals: &mut Removals,
    herdr: &dyn FakeHerdr,
    sweep: &Vec<Removal>,
) {
    let mut outcomes = Vec::new();
    while let Some(next) = panes::start_sweep(state, &removals.removals, sweep, &outcomes) {
        outcomes.push(removals.remove(herdr, &next).err());
    }
}

fn start_removal(
    state: &mut PanesState,
    dirty: &mut Dirty,
    removals: &mut Removals,
    herdr: &dyn FakeHerdr,
    git: &dyn FakeGit,
    removal: &Removal,
) {
    let refused = removals.remove(herdr, removal).err();
    let read = match removal.panes.is_empty() {
        true => None,
        false => Some(reading(herdr, git)),
    };
    let running = &removals.removals;
    let walks = panes::start_removal(state, &mut dirty.dirty, running, removal, refused, read);
    dirty.start(walks);
}

fn finish(herdr: &dyn FakeHerdr, action: Action, state: &PanesState) -> Result<Exit> {
    let next = panes::finish(action, state);
    let answer = match &next {
        Performed::End(_) => Ok(()),
        Performed::FocusPane(pane_id) => herdr.pane_focus(pane_id),
        Performed::OpenWorktree(request) => herdr.worktree_open(request),
        Performed::SplitPane(request) => herdr.pane_split(request),
    };
    panes::performed_exit(&next, answer)
}

fn act(
    state: &mut PanesState,
    pending: &mut Pending,
    herdr: &dyn FakeHerdr,
    git: &dyn FakeGit,
    action: Action,
) -> Option<Exit> {
    let asked = panes::asked_for(&action);
    let answer = finish(herdr, action, state);
    let read = match answer {
        Ok(_) => None,
        Err(_) => Some(reading(herdr, git)),
    };
    let (exit, walks) = panes::act(state, &mut pending.dirty.dirty, asked, answer, read);
    pending.dirty.start(walks);
    exit
}

fn key(key: char) -> Key {
    match key {
        'y' => Key::Yes,
        'D' => Key::Remove,
        'S' => Key::Sweep,
        'n' => Key::NewPane,
        'p' => Key::ToggleEmpty,
        'r' => Key::Reload,
        'q' => Key::Quit,
        _ => Key::Other,
    }
}

fn press(state: &mut PanesState, pressed: char) {
    state.handle_key(key(pressed));
}

fn pending_sweep(state: &PanesState) -> Option<&Vec<Removal>> {
    match &state.asked {
        Some(Asked::Sweep(removals)) => Some(removals),
        _ => None,
    }
}

fn pending_removal(state: &PanesState) -> Option<&Removal> {
    match &state.asked {
        Some(Asked::Removal(removal)) => Some(removal),
        _ => None,
    }
}

/// Whether a row of the list says that its checkout is going.
fn is_removing(state: &PanesState) -> bool {
    state
        .tree
        .repos
        .iter()
        .flat_map(|repo| &repo.worktrees)
        .any(|worktree| state.removing.contains(&worktree.checkout_path))
}

fn pane_rows(state: &PanesState) -> Vec<String> {
    state
        .tree
        .repos
        .iter()
        .flat_map(|repo| &repo.worktrees)
        .flat_map(|worktree| &worktree.panes)
        .map(|pane| pane.pane_id.clone())
        .collect()
}

struct Answers(Option<bool>);

impl FakeGit for Answers {
    fn is_dirty(&self, _checkout_path: &str) -> Result<bool> {
        self.0
            .ok_or_else(|| "fatal: not a git repository".to_string())
    }
}

impl FakeGh for Answers {}

struct Never;

impl FakeGit for Never {
    fn finishes(&self) -> bool {
        false
    }
}

impl FakeGh for Never {}

#[derive(Default)]
struct Answering {
    asked: RefCell<Vec<String>>,
    answer: Option<Result<SettledPullRequests>>,
}

impl Answering {
    fn asked(&self) -> Vec<String> {
        self.asked.borrow_mut().clone()
    }
}

impl FakeGit for Answering {
    fn github_slug(&self, repo_root: &str) -> Result<Option<Slug>> {
        self.asked.borrow_mut().push(repo_root.to_string());
        Ok(Slug::owner_repo("me", "app"))
    }

    fn is_dirty(&self, _checkout_path: &str) -> Result<bool> {
        Ok(false)
    }
}

impl FakeGh for Answering {
    fn settled_pull_requests(
        &self,
        _slug: &Slug,
    ) -> Result<SettledPullRequests> {
        self.answer
            .clone()
            .unwrap_or_else(|| Ok(SettledPullRequests::All(Vec::new())))
    }
}

#[derive(Default)]
struct Recovering {
    asked: RefCell<usize>,
}

impl Recovering {
    fn asked(&self) -> usize {
        *self.asked.borrow_mut()
    }
}

impl FakeGit for Recovering {
    fn github_slug(&self, _repo_root: &str) -> Result<Option<Slug>> {
        Ok(Slug::owner_repo("me", "app"))
    }

    fn is_dirty(&self, _checkout_path: &str) -> Result<bool> {
        Ok(false)
    }
}

impl FakeGh for Recovering {
    fn settled_pull_requests(
        &self,
        _slug: &Slug,
    ) -> Result<SettledPullRequests> {
        let mut asked = self.asked.borrow_mut();
        *asked += 1;
        if *asked == 1 {
            return Err("gh refused the question this asked: could not connect".into());
        }
        Ok(SettledPullRequests::All(Vec::new()))
    }
}

const FEAT_LOGIN: &str = "/wt/feat-login";

const FIX_CRASH: &str = "/wt/fix-crash";

struct Session {
    pane_opens: bool,
    file_written: bool,
    stale_rows: bool,
    readings: RefCell<usize>,
    walks: RefCell<BTreeMap<String, usize>>,
}

impl Session {
    fn new(pane_opens: bool, file_written: bool) -> Self {
        Self {
            pane_opens,
            file_written,
            stale_rows: false,
            readings: RefCell::new(0),
            walks: RefCell::new(BTreeMap::new()),
        }
    }

    fn with_stale_rows() -> Self {
        Self {
            stale_rows: true,
            ..Self::new(false, false)
        }
    }

    fn pane_is_open(&self) -> bool {
        self.pane_opens && *self.readings.borrow_mut() >= 2
    }

    fn walks_of(&self, checkout_path: &str) -> usize {
        self.walks
            .borrow_mut()
            .get(checkout_path)
            .copied()
            .unwrap_or(0)
    }
}

fn snapshot_pane(id: &str, cwd: &str) -> Pane {
    let workspace = id.split(':').next().unwrap().to_string();
    Pane {
        pane_id: id.into(),
        tab_id: format!("{workspace}:t1"),
        workspace_id: workspace,
        terminal_id: String::new(),
        cwd: Some(cwd.into()),
        foreground_cwd: None,
        focused: false,
        agent: Some("codex".into()),
        agent_status: AgentStatus::Idle,
        title: None,
        terminal_title_stripped: None,
        label: None,
    }
}

fn workspace(id: &str, checkout_path: &str, linked: bool) -> Workspace {
    Workspace {
        workspace_id: id.into(),
        label: String::new(),
        number: 0,
        focused: false,
        active_tab_id: None,
        agent_status: AgentStatus::Unknown,
        worktree: Some(WorkspaceWorktree {
            repo_key: "/src/app/.git".into(),
            repo_name: "app".into(),
            repo_root: "/src/app".into(),
            checkout_path: checkout_path.into(),
            is_linked_worktree: linked,
        }),
    }
}

fn listed(branch: &str, path: &str, linked: bool, open_in: Option<&str>) -> Worktree {
    Worktree {
        branch: Some(branch.into()),
        path: path.into(),
        label: String::new(),
        is_bare: false,
        is_detached: false,
        is_linked_worktree: linked,
        is_prunable: false,
        open_workspace_id: open_in.map(str::to_string),
    }
}

fn gone(branch: &str, path: &str) -> GitRef {
    GitRef {
        name: branch.into(),
        kind: RefKind::Local,
        committed_at: None,
        subject: None,
        upstream: Some(format!("origin/{branch}")),
        track: Some(Track::Gone),
        worktree_path: Some(path.into()),
    }
}

impl FakeHerdr for Session {
    fn snapshot(&self) -> Result<Snapshot> {
        *self.readings.borrow_mut() += 1;
        let mut workspaces = vec![workspace("w1", "/src/app", false)];
        let mut panes = vec![snapshot_pane("w1:p1", "/src/app")];
        if self.pane_is_open() {
            workspaces.push(workspace("w2", FEAT_LOGIN, true));
            panes.push(snapshot_pane("w2:p1", FEAT_LOGIN));
        }
        Ok(Snapshot {
            workspaces,
            panes,
            ..Snapshot::default()
        })
    }

    fn worktree_list(&self, _cwd: &str) -> Result<WorktreeList> {
        Ok(WorktreeList {
            source: WorktreeSource {
                repo_key: "/src/app/.git".into(),
                repo_name: "app".into(),
                repo_root: "/src/app".into(),
                source_checkout_path: "/src/app".into(),
                source_workspace_id: None,
            },
            worktrees: vec![
                listed("main", "/src/app", false, Some("w1")),
                listed(
                    "feat/login",
                    FEAT_LOGIN,
                    true,
                    self.pane_is_open().then_some("w2"),
                ),
                listed("fix/crash", FIX_CRASH, true, None),
            ],
        })
    }

    fn worktree_open(&self, _req: &WorktreeOpen) -> Result<()> {
        assert!(self.stale_rows, "only a stale row opens a checkout here");
        Err("herdr rejected worktree.open: no such path (not_found)".to_string())
    }

    fn pane_focus(&self, _pane_id: &str) -> Result<()> {
        match self.stale_rows {
            true => Err("herdr rejected pane.focus: no such pane (not_found)".to_string()),
            false => Ok(()),
        }
    }
}

impl FakeGit for Session {
    fn is_dirty(&self, checkout_path: &str) -> Result<bool> {
        let mut walks = self.walks.borrow_mut();
        let walked = walks.entry(checkout_path.to_string()).or_insert(0);
        *walked += 1;
        Ok(self.file_written && checkout_path == FEAT_LOGIN && *walked >= 2)
    }

    fn github_slug(&self, _repo_root: &str) -> Result<Option<Slug>> {
        Ok(Slug::owner_repo("me", "app"))
    }

    fn local_refs(&self, _repo_root: &str) -> Result<RefWalk> {
        Ok(RefWalk::of(vec![
            gone("feat/login", FEAT_LOGIN),
            gone("fix/crash", FIX_CRASH),
        ]))
    }
}

impl FakeGh for Session {
    fn settled_pull_requests(
        &self,
        _slug: &Slug,
    ) -> Result<SettledPullRequests> {
        Ok(SettledPullRequests::All(Vec::new()))
    }
}

const FIRST_PANE: &str = "w2:p1";

const SECOND_PANE: &str = "w2:p2";

struct Closing {
    refuses: &'static str,
    open: RefCell<Vec<String>>,
    removed_with_its_panes: bool,
}

impl Closing {
    fn refusing(pane_id: &'static str) -> Self {
        Self {
            refuses: pane_id,
            open: RefCell::new(vec![FIRST_PANE.to_string(), SECOND_PANE.to_string()]),
            removed_with_its_panes: false,
        }
    }

    fn where_the_checkout_goes_too() -> Self {
        Self {
            refuses: "",
            removed_with_its_panes: true,
            ..Self::refusing("")
        }
    }

    fn listed(&self) -> bool {
        !self.removed_with_its_panes || !self.open.borrow_mut().is_empty()
    }
}

impl FakeHerdr for Closing {
    fn pane_close(&self, pane_id: &str) -> Result<()> {
        if pane_id == self.refuses {
            return Err("herdr rejected pane.close: no such pane (not_found)".to_string());
        }
        self.open.borrow_mut().retain(|open| open != pane_id);
        Ok(())
    }

    fn snapshot(&self) -> Result<Snapshot> {
        let mut workspaces = vec![workspace("w1", "/src/app", false)];
        let mut panes = match self.removed_with_its_panes {
            true => vec![snapshot_pane("w1:p9", "/src/app")],
            false => Vec::new(),
        };
        if self.listed() {
            workspaces.push(workspace("w2", FEAT_LOGIN, true));
        }
        panes.extend(
            self.open
                .borrow_mut()
                .iter()
                .map(|pane_id| snapshot_pane(pane_id, FEAT_LOGIN)),
        );
        Ok(Snapshot {
            workspaces,
            panes,
            ..Snapshot::default()
        })
    }

    fn worktree_list(&self, _cwd: &str) -> Result<WorktreeList> {
        let mut worktrees = vec![listed("main", "/src/app", false, Some("w1"))];
        if self.listed() {
            worktrees.push(listed("feat/login", FEAT_LOGIN, true, Some("w2")));
        }
        Ok(WorktreeList {
            source: WorktreeSource {
                repo_key: "/src/app/.git".into(),
                repo_name: "app".into(),
                repo_root: "/src/app".into(),
                source_checkout_path: "/src/app".into(),
                source_workspace_id: None,
            },
            worktrees,
        })
    }
}

impl FakeGit for Closing {
    fn is_dirty(&self, _checkout_path: &str) -> Result<bool> {
        Ok(false)
    }

    fn local_refs(&self, _repo_root: &str) -> Result<RefWalk> {
        Ok(RefWalk::of(vec![gone("feat/login", FEAT_LOGIN)]))
    }

    fn github_slug(&self, _repo_root: &str) -> Result<Option<Slug>> {
        Ok(Slug::owner_repo("me", "app"))
    }
}

struct Chained;

impl FakeHerdr for Chained {
    fn pane_close(&self, _pane_id: &str) -> Result<()> {
        Ok(())
    }

    fn snapshot(&self) -> Result<Snapshot> {
        Err("sending session.snapshot to herdr: broken pipe".to_string())
    }
}

fn enter_pressed(session: &Rc<Session>) -> (PanesState, Pending) {
    let (_, tree) = collect_tree(&**session, &**session).expect("the first reading");
    let mut state = PanesState::new(tree);
    let mut pending = Pending {
        dirty: Dirty::new(session.clone()),
        settled: Settled::new(session.clone(), session.clone()),
    };
    pending.dirty.ask(&state.tree);
    press(&mut state, 'S');
    settle(&mut state, &mut pending);
    let chosen: Vec<String> =
        state.chosen().into_iter().map(|removal| removal.checkout_path).collect();
    assert_eq!(
        chosen,
        [FEAT_LOGIN, FIX_CRASH],
        "both are gone, clean, and have nothing running in them"
    );
    assert_eq!(state.handle_key(Key::Enter), Action::SweepReload);
    (state, pending)
}

fn sweep_asked(session: &Rc<Session>) -> (PanesState, Pending) {
    let (mut state, mut pending) = enter_pressed(session);
    re_read(
        &mut state,
        &mut pending,
        &**session,
        &**session,
        ReRead::ForSweep,
    );
    settle(&mut state, &mut pending);
    (state, pending)
}

fn box_paths(state: &PanesState) -> Vec<String> {
    pending_sweep(state)
        .map(|removals| removals.iter().map(|removal| removal.checkout_path.clone()).collect())
        .unwrap_or_default()
}

fn settle(state: &mut PanesState, pending: &mut Pending) {
    until("the frame never stopped waiting", || {
        !show_answers(state, pending)
    });
}

fn pending_on_gh(dirty: Dirty) -> Pending {
    let port = Rc::new(Never);
    Pending {
        dirty,
        settled: Settled::new(port.clone(), port),
    }
}

fn pending(dirty: Dirty) -> Pending {
    let port = Rc::new(Answers(Some(false)));
    Pending {
        dirty,
        settled: Settled::new(port.clone(), port),
    }
}

fn no_pane_tree() -> Tree {
    let mut tree = one_pane_tree();
    tree.repos[0].worktrees[0].panes.clear();
    tree
}

fn one_pane_tree() -> Tree {
    Tree {
        repos: vec![RepoNode {
            repo_key: "/src/app/.git".into(),
            repo_root: "/src/app".into(),
            display_name: "me/app".into(),
            refs: Refs::Read,
            worktrees: vec![WorktreeNode {
                branch: Branch::Out("feat/login".into()),
                checkout_path: "/wt/feat-login".into(),
                is_primary: false,
                open_workspace_id: Some("w2".into()),
                track: None,
                panes: vec![PaneNode {
                    pane_id: "w2:p1".into(),
                    workspace_id: "w2".into(),
                    tab_id: "w2:t1".into(),
                    display_name: Some("codex".into()),
                    agent_status: AgentStatus::Idle,
                    focused: false,
                }],
            }],
        }],
        ungrouped: Vec::new(),
        trouble: Trouble::none(),
    }
}

fn opened(session: &Rc<Session>) -> (PanesState, Pending) {
    let (_, tree) = collect_tree(&**session, &**session).expect("the first reading");
    let state = PanesState::new(tree);
    let mut pending = Pending {
        dirty: Dirty::new(session.clone()),
        settled: Settled::new(session.clone(), session.clone()),
    };
    pending.dirty.ask(&state.tree);
    (state, pending)
}

fn only_removal(state: &PanesState) -> Removal {
    let repo = &state.tree.repos[0];
    Removal::of(&repo.repo_root, &repo.worktrees[0])
}

fn removal_of(state: &PanesState, checkout_path: &str) -> Removal {
    let repo = &state.tree.repos[0];
    let worktree = repo
        .worktrees
        .iter()
        .find(|worktree| worktree.checkout_path == checkout_path)
        .expect("the tree has that checkout");
    Removal::of(&repo.repo_root, worktree)
}

fn two_pane_tree() -> Tree {
    let mut tree = one_pane_tree();
    let panes = &mut tree.repos[0].worktrees[0].panes;
    let mut second = panes[0].clone();
    second.pane_id = SECOND_PANE.into();
    panes.push(second);
    tree
}

#[test]
fn panes_a_pane_opened_after_the_sweep_began_takes_that_checkout_off_the_list_before_anything_is_removed() {
    let session = Rc::new(Session::new(true, false));
    let (mut state, _pending) = sweep_asked(&session);
    assert_eq!(
        box_paths(&state),
        [FIX_CRASH],
        "the checkout with the pane is off the list"
    );
    assert_eq!(state.message.as_deref(), Some("no longer marked: feat/login"));

    let recorder = Recorder::default();
    let port = Started(&recorder);
    let mut removals = Removals::new(&port);
    let Action::RemoveWorktrees(sweep) = state.handle_key(key('y')) else {
        panic!("`y` is the answer that goes ahead");
    };
    start_sweep(&mut state, &mut removals, &recorder, &sweep);
    assert_eq!(
        recorder.did(),
        ["start /wt/fix-crash after 0 deleting the branch"]
    );
}

#[test]
fn tests_a_pane_opened_after_the_sweep_began_takes_that_checkout_off_the_list_before_anything_is_removed() {
    let session = Rc::new(Session::new(true, false));
    let (mut state, _pending) = sweep_asked(&session);
    assert_eq!(
        box_paths(&state),
        [FIX_CRASH],
        "the checkout with the pane is off the list"
    );
    assert_eq!(state.message.as_deref(), Some("no longer marked: feat/login"));

    let recorder = Recorder::default();
    let port = Started(&recorder);
    let mut removals = Removals::new(&port);
    let Action::RemoveWorktrees(sweep) = state.handle_key(key('y')) else {
        panic!("`y` is the answer that goes ahead");
    };
    start_sweep(&mut state, &mut removals, &recorder, &sweep);
    assert_eq!(
        recorder.did(),
        ["start /wt/fix-crash after 0 deleting the branch"]
    );
}

#[test]
fn panes_a_file_written_after_the_sweep_began_does_the_same() {
    let session = Rc::new(Session::new(false, true));
    let (state, _pending) = sweep_asked(&session);
    assert_eq!(
        session.walks_of(FEAT_LOGIN),
        2,
        "the working tree was walked again"
    );
    assert_eq!(box_paths(&state), [FIX_CRASH]);
    assert_eq!(state.message.as_deref(), Some("no longer marked: feat/login"));
}

#[test]
fn tests_a_file_written_after_the_sweep_began_does_the_same() {
    let session = Rc::new(Session::new(false, true));
    let (state, _pending) = sweep_asked(&session);
    assert_eq!(
        session.walks_of(FEAT_LOGIN),
        2,
        "the working tree was walked again"
    );
    assert_eq!(box_paths(&state), [FIX_CRASH]);
    assert_eq!(state.message.as_deref(), Some("no longer marked: feat/login"));
}

#[test]
fn panes_one_refusal_to_start_does_not_stop_the_rest_of_the_sweep() {
    let session = Rc::new(Session::new(false, false));
    let (mut state, _pending) = sweep_asked(&session);
    assert_eq!(box_paths(&state), [FEAT_LOGIN, FIX_CRASH]);

    let recorder = Recorder::default();
    let port = RefusesFirst::new(&recorder);
    let mut removals = Removals::new(&port);
    let Action::RemoveWorktrees(sweep) = state.handle_key(key('y')) else {
        panic!("`y` is the answer that goes ahead");
    };
    start_sweep(&mut state, &mut removals, &recorder, &sweep);

    assert_eq!(
        recorder.did(),
        ["start /wt/fix-crash after 0 deleting the branch"],
        "the second started although the first would not"
    );
    assert_eq!(
        state.message.as_deref(),
        Some(
            "could not start removing feat/login: could not spawn: no such file or \
             directory"
        )
    );
    assert_eq!(removals.paths(), [FIX_CRASH.to_string()]);
    assert!(
        is_removing(&state),
        "and the row that is going says so"
    );
}

#[test]
fn tests_one_refusal_to_start_does_not_stop_the_rest_of_the_sweep() {
    let session = Rc::new(Session::new(false, false));
    let (mut state, _pending) = sweep_asked(&session);
    assert_eq!(box_paths(&state), [FEAT_LOGIN, FIX_CRASH]);

    let recorder = Recorder::default();
    let port = RefusesFirst::new(&recorder);
    let mut removals = Removals::new(&port);
    let Action::RemoveWorktrees(sweep) = state.handle_key(key('y')) else {
        panic!("`y` is the answer that goes ahead");
    };
    start_sweep(&mut state, &mut removals, &recorder, &sweep);

    assert_eq!(
        recorder.did(),
        ["start /wt/fix-crash after 0 deleting the branch"],
        "the second started although the first would not"
    );
    assert_eq!(
        state.message.as_deref(),
        Some(
            "could not start removing feat/login: could not spawn: no such file or \
             directory"
        )
    );
    assert_eq!(removals.paths(), [FIX_CRASH.to_string()]);
    assert!(
        is_removing(&state),
        "and the row that is going says so"
    );
}

#[test]
fn panes_a_re_read_that_fails_asks_nothing_over_the_old_facts() {
    let session = Rc::new(Session::new(false, false));
    let (mut state, mut pending) = enter_pressed(&session);
    re_read(
        &mut state,
        &mut pending,
        &Recorder::default(),
        &*session,
        ReRead::ForSweep,
    );
    settle(&mut state, &mut pending);

    assert!(pending_sweep(&state).is_none());
    assert_eq!(state.message.as_deref(), Some("nothing was asked"));
    assert_eq!(
        state.stale.as_deref(),
        Some("the list could not be read again: herdr is not answering")
    );
    assert_eq!(
        state.handle_key(key('y')),
        Action::Ignored,
        "and `y` answers nothing"
    );
    assert_eq!(
        state.handle_key(Key::Enter),
        Action::SweepReload,
        "asking again asks for the re-read again"
    );
}

#[test]
fn tests_a_re_read_that_fails_asks_nothing_over_the_old_facts() {
    let session = Rc::new(Session::new(false, false));
    let (mut state, mut pending) = enter_pressed(&session);
    re_read(
        &mut state,
        &mut pending,
        &Recorder::default(),
        &*session,
        ReRead::ForSweep,
    );
    settle(&mut state, &mut pending);

    assert!(pending_sweep(&state).is_none());
    assert_eq!(state.message.as_deref(), Some("nothing was asked"));
    assert_eq!(
        state.stale.as_deref(),
        Some("the list could not be read again: herdr is not answering")
    );
    assert_eq!(
        state.handle_key(key('y')),
        Action::Ignored,
        "and `y` answers nothing"
    );
    assert_eq!(
        state.handle_key(Key::Enter),
        Action::SweepReload,
        "asking again asks for the re-read again"
    );
}

#[test]
fn panes_enter_keeps_what_gh_said_and_r_does_not() {
    let session = Rc::new(Session::new(false, false));
    let (mut state, mut pending) = enter_pressed(&session);
    assert_eq!(
        pending.settled.answers(&state.tree),
        1,
        "the sweep asked gh"
    );

    re_read(
        &mut state,
        &mut pending,
        &*session,
        &*session,
        ReRead::ForSweep,
    );
    assert_eq!(
        pending.settled.answers(&state.tree),
        1,
        "and `Enter` kept it"
    );

    re_read(&mut state, &mut pending, &*session, &*session, ReRead::Key);
    assert!(
        pending.settled.answers(&state.tree) == 0,
        "`r` forgets it"
    );
}

#[test]
fn tests_enter_keeps_what_gh_said_and_r_does_not() {
    let session = Rc::new(Session::new(false, false));
    let (mut state, mut pending) = enter_pressed(&session);
    assert_eq!(
        pending.settled.answers(&state.tree),
        1,
        "the sweep asked gh"
    );

    re_read(
        &mut state,
        &mut pending,
        &*session,
        &*session,
        ReRead::ForSweep,
    );
    assert_eq!(
        pending.settled.answers(&state.tree),
        1,
        "and `Enter` kept it"
    );

    re_read(&mut state, &mut pending, &*session, &*session, ReRead::Key);
    assert!(
        pending.settled.answers(&state.tree) == 0,
        "`r` forgets it"
    );
}

#[test]
fn a_pane_herdr_no_longer_has_leaves_the_picker_up_and_says_what_herdr_said() {
    let session = Rc::new(Session::with_stale_rows());
    let (mut state, mut pending) = opened(&session);
    let before = *session.readings.borrow_mut();

    let exit = act(
        &mut state,
        &mut pending,
        &*session,
        &*session,
        Action::Jump("w1:p1".into()),
    );

    assert!(exit.is_none(), "the picker stays up");
    let said = state.message.as_deref().expect("the prompt line says what happened");
    assert!(said.starts_with("could not go to that pane"), "{said}");
    assert!(said.contains("not_found"), "herdr's own words: {said}");
    assert!(
        *session.readings.borrow_mut() > before,
        "and the list that was behind is read again"
    );
    assert!(
        state.stale.is_none(),
        "the reading worked, so nothing is"
    );
}

#[test]
fn a_checkout_that_is_no_longer_there_does_the_same() {
    let session = Rc::new(Session::with_stale_rows());
    let (mut state, mut pending) = opened(&session);

    let exit = act(
        &mut state,
        &mut pending,
        &*session,
        &*session,
        Action::OpenWorktree {
            repo_root: "/src/app".into(),
            checkout_path: FIX_CRASH.into(),
        },
    );

    assert!(exit.is_none(), "the picker stays up");
    let said = state.message.as_deref().expect("the prompt line says what happened");
    assert!(said.starts_with("could not open that checkout"), "{said}");
    assert!(said.contains("not_found"), "herdr's own words: {said}");
}

#[test]
fn a_jump_that_worked_still_closes_the_picker() {
    let session = Rc::new(Session::new(false, false));
    let (mut state, mut pending) = opened(&session);

    let exit = act(
        &mut state,
        &mut pending,
        &*session,
        &*session,
        Action::Jump("w1:p1".into()),
    );

    assert!(
        matches!(exit, Some(Exit::Closed)),
        "a jump that worked closes the picker"
    );
    assert_eq!(state.message.as_deref(), None);
}

#[test]
fn panes_the_branches_exit_carries_the_runtime_no_pane_toggle() {
    let mut state = PanesState::new(no_pane_tree());
    state.handle_key(key('p'));
    let action = state.handle_key(Key::Switch);

    match finish(&Recorder::default(), action, &state).unwrap() {
        Exit::ShowBranches {
            show_worktrees_without_panes,
            ..
        } => assert!(!show_worktrees_without_panes),
        Exit::Closed => panic!("Tab must switch to the branches view"),
    }
}

#[test]
fn tests_the_branches_exit_carries_the_runtime_no_pane_toggle() {
    let mut state = PanesState::new(no_pane_tree());
    state.handle_key(key('p'));
    let action = state.handle_key(Key::Switch);

    match finish(&Recorder::default(), action, &state).unwrap() {
        Exit::ShowBranches {
            show_worktrees_without_panes,
            ..
        } => assert!(!show_worktrees_without_panes),
        Exit::Closed => panic!("Tab must switch to the branches view"),
    }
}

#[test]
fn panes_the_loop_hands_on_a_dirty_answer_too_or_nothing_is_ever_protected() {
    let mut state = PanesState::new(one_pane_tree());
    let mut dirty = Dirty::new(Rc::new(Answers(Some(true))));
    dirty.ask(&state.tree);

    let mut pending = pending(dirty);
    until(
        "the walk never answered for the only checkout there is",
        || !show_answers(&mut state, &mut pending),
    );

    state.handle_key(key('D'));
    assert!(
        pending_removal(&state).is_none(),
        "a checkout holding uncommitted work is not offered"
    );
    assert_eq!(
        state.message.as_deref(),
        Some("that checkout is holding work nobody has committed"),
        "and it says which of the refusals this is"
    );
}

#[test]
fn tests_the_loop_hands_on_a_dirty_answer_too_or_nothing_is_ever_protected() {
    let mut state = PanesState::new(one_pane_tree());
    let mut dirty = Dirty::new(Rc::new(Answers(Some(true))));
    dirty.ask(&state.tree);

    let mut pending = pending(dirty);
    until(
        "the walk never answered for the only checkout there is",
        || !show_answers(&mut state, &mut pending),
    );

    state.handle_key(key('D'));
    assert!(
        pending_removal(&state).is_none(),
        "a checkout holding uncommitted work is not offered"
    );
    assert_eq!(
        state.message.as_deref(),
        Some("that checkout is holding work nobody has committed"),
        "and it says which of the refusals this is"
    );
}

#[test]
fn panes_gh_is_asked_when_a_sweep_is_entered_and_not_before() {
    let port = Rc::new(Answering::default());
    let mut state = PanesState::new(no_pane_tree());
    let mut pending = Pending {
        dirty: Dirty::new(port.clone()),
        settled: Settled::new(port.clone(), port.clone()),
    };
    pending.dirty.ask(&state.tree);
    settle(&mut state, &mut pending);
    assert!(
        port.asked().is_empty(),
        "the picker opened and nobody swept"
    );

    press(&mut state, 'S');
    settle(&mut state, &mut pending);
    assert_eq!(
        port.asked(),
        ["/src/app"],
        "asked once, about the repository root"
    );

    settle(&mut state, &mut pending);
    press(&mut state, 'q');
    press(&mut state, 'S');
    settle(&mut state, &mut pending);
    assert_eq!(port.asked().len(), 1);
}

#[test]
fn tests_gh_is_asked_when_a_sweep_is_entered_and_not_before() {
    let port = Rc::new(Answering::default());
    let mut state = PanesState::new(no_pane_tree());
    let mut pending = Pending {
        dirty: Dirty::new(port.clone()),
        settled: Settled::new(port.clone(), port.clone()),
    };
    pending.dirty.ask(&state.tree);
    settle(&mut state, &mut pending);
    assert!(
        port.asked().is_empty(),
        "the picker opened and nobody swept"
    );

    press(&mut state, 'S');
    settle(&mut state, &mut pending);
    assert_eq!(
        port.asked(),
        ["/src/app"],
        "asked once, about the repository root"
    );

    settle(&mut state, &mut pending);
    press(&mut state, 'q');
    press(&mut state, 'S');
    settle(&mut state, &mut pending);
    assert_eq!(port.asked().len(), 1);
}

#[test]
fn panes_what_gh_said_reaches_the_rows_and_what_went_wrong_reaches_the_prompt() {
    let port = Rc::new(Answering {
        answer: Some(Err(
            "gh refused the question this asked: no auth".to_string()
        )),
        ..Answering::default()
    });
    let mut state = PanesState::new(no_pane_tree());
    let mut pending = Pending {
        dirty: Dirty::new(port.clone()),
        settled: Settled::new(port.clone(), port.clone()),
    };
    pending.dirty.ask(&state.tree);

    press(&mut state, 'S');
    settle(&mut state, &mut pending);

    assert_eq!(
        state.sweep_trouble.as_deref(),
        Some("me/app: gh refused the question this asked: no auth"),
        "the rows can say a checkout could not be judged; only this says which and why"
    );
    assert!(!state.asking_gh, "and the spinner has stopped");
}

#[test]
fn tests_what_gh_said_reaches_the_rows_and_what_went_wrong_reaches_the_prompt() {
    let port = Rc::new(Answering {
        answer: Some(Err(
            "gh refused the question this asked: no auth".to_string()
        )),
        ..Answering::default()
    });
    let mut state = PanesState::new(no_pane_tree());
    let mut pending = Pending {
        dirty: Dirty::new(port.clone()),
        settled: Settled::new(port.clone(), port.clone()),
    };
    pending.dirty.ask(&state.tree);

    press(&mut state, 'S');
    settle(&mut state, &mut pending);

    assert_eq!(
        state.sweep_trouble.as_deref(),
        Some("me/app: gh refused the question this asked: no auth"),
        "the rows can say a checkout could not be judged; only this says which and why"
    );
    assert!(!state.asking_gh, "and the spinner has stopped");
}

#[test]
fn panes_a_pull_request_gh_found_widens_the_sweep_through_the_loop() {
    let port = Rc::new(Answering {
        answer: Some(Ok(SettledPullRequests::All(vec![
            SettledPullRequest {
                number: 9,
                head_ref: "feat/login".to_string(),
                from_a_fork: false,
                outcome: PullRequestOutcome::Merged,
            },
        ]))),
        ..Answering::default()
    });
    let mut state = PanesState::new(no_pane_tree());
    let mut pending = Pending {
        dirty: Dirty::new(port.clone()),
        settled: Settled::new(port.clone(), port.clone()),
    };
    pending.dirty.ask(&state.tree);

    press(&mut state, 'S');
    settle(&mut state, &mut pending);

    assert_eq!(
        state
            .chosen()
            .iter()
            .map(|removal| (removal.repo_root.as_str(), removal.checkout_path.as_str()))
            .collect::<Vec<_>>(),
        [("/src/app", "/wt/feat-login")],
        "git had nothing to say about it; gh may only widen, and this is widening"
    );
}

#[test]
fn tests_a_pull_request_gh_found_widens_the_sweep_through_the_loop() {
    let port = Rc::new(Answering {
        answer: Some(Ok(SettledPullRequests::All(vec![
            SettledPullRequest {
                number: 9,
                head_ref: "feat/login".to_string(),
                from_a_fork: false,
                outcome: PullRequestOutcome::Merged,
            },
        ]))),
        ..Answering::default()
    });
    let mut state = PanesState::new(no_pane_tree());
    let mut pending = Pending {
        dirty: Dirty::new(port.clone()),
        settled: Settled::new(port.clone(), port.clone()),
    };
    pending.dirty.ask(&state.tree);

    press(&mut state, 'S');
    settle(&mut state, &mut pending);

    assert_eq!(
        state
            .chosen()
            .iter()
            .map(|removal| (removal.repo_root.as_str(), removal.checkout_path.as_str()))
            .collect::<Vec<_>>(),
        [("/src/app", "/wt/feat-login")],
        "git had nothing to say about it; gh may only widen, and this is widening"
    );
}

#[test]
fn panes_a_reload_asks_gh_again_because_a_pull_request_can_land_while_the_picker_is_up() {
    let port = Rc::new(Answering::default());
    let mut state = PanesState::new(no_pane_tree());
    let mut pending = Pending {
        dirty: Dirty::new(port.clone()),
        settled: Settled::new(port.clone(), port.clone()),
    };
    pending.dirty.ask(&state.tree);
    press(&mut state, 'S');
    settle(&mut state, &mut pending);
    assert_eq!(port.asked().len(), 1);

    pending.settled.forget();
    settle(&mut state, &mut pending);
    assert_eq!(
        port.asked().len(),
        2,
        "the reload asks again rather than showing what it had"
    );
}

#[test]
fn tests_a_reload_asks_gh_again_because_a_pull_request_can_land_while_the_picker_is_up() {
    let port = Rc::new(Answering::default());
    let mut state = PanesState::new(no_pane_tree());
    let mut pending = Pending {
        dirty: Dirty::new(port.clone()),
        settled: Settled::new(port.clone(), port.clone()),
    };
    pending.dirty.ask(&state.tree);
    press(&mut state, 'S');
    settle(&mut state, &mut pending);
    assert_eq!(port.asked().len(), 1);

    pending.settled.forget();
    settle(&mut state, &mut pending);
    assert_eq!(
        port.asked().len(),
        2,
        "the reload asks again rather than showing what it had"
    );
}

#[test]
fn panes_entering_a_sweep_again_asks_gh_again_where_it_refused() {
    let port = Rc::new(Recovering::default());
    let mut state = PanesState::new(no_pane_tree());
    let mut pending = Pending {
        dirty: Dirty::new(port.clone()),
        settled: Settled::new(port.clone(), port.clone()),
    };
    pending.dirty.ask(&state.tree);

    press(&mut state, 'S');
    settle(&mut state, &mut pending);
    assert_eq!(
        state.sweep_trouble.as_deref(),
        Some("me/app: gh refused the question this asked: could not connect")
    );

    press(&mut state, 'S');
    press(&mut state, 'S');
    settle(&mut state, &mut pending);
    assert_eq!(
        state.sweep_trouble.as_deref(),
        None,
        "asked again on the way back in, and this time it answered"
    );
    assert_eq!(port.asked(), 2, "and not on any frame between");
}

#[test]
fn tests_entering_a_sweep_again_asks_gh_again_where_it_refused() {
    let port = Rc::new(Recovering::default());
    let mut state = PanesState::new(no_pane_tree());
    let mut pending = Pending {
        dirty: Dirty::new(port.clone()),
        settled: Settled::new(port.clone(), port.clone()),
    };
    pending.dirty.ask(&state.tree);

    press(&mut state, 'S');
    settle(&mut state, &mut pending);
    assert_eq!(
        state.sweep_trouble.as_deref(),
        Some("me/app: gh refused the question this asked: could not connect")
    );

    press(&mut state, 'S');
    press(&mut state, 'S');
    settle(&mut state, &mut pending);
    assert_eq!(
        state.sweep_trouble.as_deref(),
        None,
        "asked again on the way back in, and this time it answered"
    );
    assert_eq!(port.asked(), 2, "and not on any frame between");
}

#[test]
fn panes_the_loop_keeps_its_clock_while_the_sweep_is_waiting_on_gh() {
    let mut state = PanesState::new(no_pane_tree());
    let mut pending = pending_on_gh(Dirty::new(Rc::new(Answers(Some(false)))));

    state.handle_key(key('S'));
    assert!(state.sweeping);
    pending.settled.ask(&state.tree);

    assert!(
        show_answers(&mut state, &mut pending),
        "gh is still out, so the loop still has something to wake up for"
    );
    assert!(state.asking_gh, "and the prompt line says which");
}

#[test]
fn tests_the_loop_keeps_its_clock_while_the_sweep_is_waiting_on_gh() {
    let mut state = PanesState::new(no_pane_tree());
    let mut pending = pending_on_gh(Dirty::new(Rc::new(Answers(Some(false)))));

    state.handle_key(key('S'));
    assert!(state.sweeping);
    pending.settled.ask(&state.tree);

    assert!(
        show_answers(&mut state, &mut pending),
        "gh is still out, so the loop still has something to wake up for"
    );
    assert!(state.asking_gh, "and the prompt line says which");
}

#[test]
fn panes_a_yes_starts_the_removal_and_says_on_the_row_that_it_is_going() {
    let recorder = Recorder::default();
    let port = Started(&recorder);
    let mut removals = Removals::new(&port);
    let mut state = PanesState::new(no_pane_tree());
    let mut dirty = Dirty::new(Rc::new(Answers(Some(false))));
    let removal = only_removal(&state);

    start_removal(
        &mut state,
        &mut dirty,
        &mut removals,
        &recorder,
        &Answers(Some(false)),
        &removal,
    );

    assert_eq!(recorder.did(), ["start /wt/feat-login after 0"]);
    assert_eq!(removals.paths(), ["/wt/feat-login".to_string()]);
    assert!(
        is_removing(&state),
        "and the row it is happening to says so"
    );
    assert_eq!(state.message.as_deref(), None, "the row is the report");
}

#[test]
fn tests_a_yes_starts_the_removal_and_says_on_the_row_that_it_is_going() {
    let recorder = Recorder::default();
    let port = Started(&recorder);
    let mut removals = Removals::new(&port);
    let mut state = PanesState::new(no_pane_tree());
    let mut dirty = Dirty::new(Rc::new(Answers(Some(false))));
    let removal = only_removal(&state);

    start_removal(
        &mut state,
        &mut dirty,
        &mut removals,
        &recorder,
        &Answers(Some(false)),
        &removal,
    );

    assert_eq!(recorder.did(), ["start /wt/feat-login after 0"]);
    assert_eq!(removals.paths(), ["/wt/feat-login".to_string()]);
    assert!(
        is_removing(&state),
        "and the row it is happening to says so"
    );
    assert_eq!(state.message.as_deref(), None, "the row is the report");
}

#[test]
fn panes_a_removal_that_will_not_start_puts_the_reason_where_the_user_is_looking() {
    let recorder = Recorder::default();
    let mut removals = Removals::new(&Refuses);
    let mut state = PanesState::new(no_pane_tree());
    let mut dirty = Dirty::new(Rc::new(Answers(Some(false))));
    let removal = only_removal(&state);

    start_removal(
        &mut state,
        &mut dirty,
        &mut removals,
        &recorder,
        &Answers(Some(false)),
        &removal,
    );

    assert_eq!(
        state.message.as_deref(),
        Some(
            "could not start removing feat/login: could not spawn: no such file or \
             directory"
        )
    );
    assert!(!is_removing(&state));
}

#[test]
fn tests_a_removal_that_will_not_start_puts_the_reason_where_the_user_is_looking() {
    let recorder = Recorder::default();
    let mut removals = Removals::new(&Refuses);
    let mut state = PanesState::new(no_pane_tree());
    let mut dirty = Dirty::new(Rc::new(Answers(Some(false))));
    let removal = only_removal(&state);

    start_removal(
        &mut state,
        &mut dirty,
        &mut removals,
        &recorder,
        &Answers(Some(false)),
        &removal,
    );

    assert_eq!(
        state.message.as_deref(),
        Some(
            "could not start removing feat/login: could not spawn: no such file or \
             directory"
        )
    );
    assert!(!is_removing(&state));
}

#[test]
fn panes_panes_that_have_certainly_closed_are_not_left_on_screen_without_a_word() {
    let recorder = Recorder::default();
    let port = Started(&recorder);
    let mut removals = Removals::new(&port);
    let mut state = PanesState::new(one_pane_tree());
    let mut dirty = Dirty::new(Rc::new(Answers(Some(false))));
    let removal = only_removal(&state);

    start_removal(
        &mut state,
        &mut dirty,
        &mut removals,
        &recorder,
        &Answers(Some(false)),
        &removal,
    );

    assert_eq!(
        state.message.as_deref(),
        None,
        "the removal started; it is the list that could not be caught up"
    );
    assert_eq!(
        state.stale.as_deref(),
        Some("the list could not be read again: herdr is not answering")
    );
    assert!(
        is_removing(&state),
        "and the removal is still shown as going, because it is"
    );
}

#[test]
fn tests_panes_that_have_certainly_closed_are_not_left_on_screen_without_a_word() {
    let recorder = Recorder::default();
    let port = Started(&recorder);
    let mut removals = Removals::new(&port);
    let mut state = PanesState::new(one_pane_tree());
    let mut dirty = Dirty::new(Rc::new(Answers(Some(false))));
    let removal = only_removal(&state);

    start_removal(
        &mut state,
        &mut dirty,
        &mut removals,
        &recorder,
        &Answers(Some(false)),
        &removal,
    );

    assert_eq!(
        state.message.as_deref(),
        None,
        "the removal started; it is the list that could not be caught up"
    );
    assert_eq!(
        state.stale.as_deref(),
        Some("the list could not be read again: herdr is not answering")
    );
    assert!(
        is_removing(&state),
        "and the removal is still shown as going, because it is"
    );
}

#[test]
fn panes_a_close_that_stopped_partway_takes_the_panes_it_closed_off_the_list() {
    let herdr = Rc::new(Closing::refusing(SECOND_PANE));
    let mut removals = Removals::new(&Refuses);
    let (_, tree) = collect_tree(&*herdr, &*herdr).expect("the first reading");
    let mut state = PanesState::new(tree);
    let mut dirty = Dirty::new(herdr.clone());
    let removal = removal_of(&state, FEAT_LOGIN);
    assert_eq!(pane_rows(&state), [FIRST_PANE, SECOND_PANE]);

    start_removal(
        &mut state,
        &mut dirty,
        &mut removals,
        &*herdr,
        &*herdr,
        &removal,
    );

    assert_eq!(
        state.message.as_deref(),
        Some(
            "could not close w2:p2: herdr rejected pane.close: no such pane (not_found) \
             — 1 of its 2 panes was closed first, and the checkout was not removed"
        ),
        "the account of what happened is kept whole"
    );
    assert_eq!(
        pane_rows(&state),
        [SECOND_PANE],
        "and the pane that did close is off the list without anyone pressing `r`"
    );
}

#[test]
fn tests_a_close_that_stopped_partway_takes_the_panes_it_closed_off_the_list() {
    let herdr = Rc::new(Closing::refusing(SECOND_PANE));
    let mut removals = Removals::new(&Refuses);
    let (_, tree) = collect_tree(&*herdr, &*herdr).expect("the first reading");
    let mut state = PanesState::new(tree);
    let mut dirty = Dirty::new(herdr.clone());
    let removal = removal_of(&state, FEAT_LOGIN);
    assert_eq!(pane_rows(&state), [FIRST_PANE, SECOND_PANE]);

    start_removal(
        &mut state,
        &mut dirty,
        &mut removals,
        &*herdr,
        &*herdr,
        &removal,
    );

    assert_eq!(
        state.message.as_deref(),
        Some(
            "could not close w2:p2: herdr rejected pane.close: no such pane (not_found) \
             — 1 of its 2 panes was closed first, and the checkout was not removed"
        ),
        "the account of what happened is kept whole"
    );
    assert_eq!(
        pane_rows(&state),
        [SECOND_PANE],
        "and the pane that did close is off the list without anyone pressing `r`"
    );
}

#[test]
fn panes_a_close_that_stopped_partway_says_so_when_the_list_will_not_be_read_either() {
    let recorder = Recorder::refusing(SECOND_PANE);
    let git = Answers(Some(false));
    let mut removals = Removals::new(&Refuses);
    let mut state = PanesState::new(two_pane_tree());
    let mut dirty = Dirty::new(Rc::new(Answers(Some(false))));
    let removal = only_removal(&state);

    start_removal(
        &mut state,
        &mut dirty,
        &mut removals,
        &recorder,
        &git,
        &removal,
    );

    assert_eq!(state.message.as_deref(), Some("could not close w2:p2: herdr rejected pane.close: no such pane (not_found) — 1 of its 2 panes was closed first, and the checkout was not removed"));
    assert_eq!(
        state.stale.as_deref(),
        Some("the list could not be read again: herdr is not answering")
    );
}

#[test]
fn tests_a_close_that_stopped_partway_says_so_when_the_list_will_not_be_read_either() {
    let recorder = Recorder::refusing(SECOND_PANE);
    let git = Answers(Some(false));
    let mut removals = Removals::new(&Refuses);
    let mut state = PanesState::new(two_pane_tree());
    let mut dirty = Dirty::new(Rc::new(Answers(Some(false))));
    let removal = only_removal(&state);

    start_removal(
        &mut state,
        &mut dirty,
        &mut removals,
        &recorder,
        &git,
        &removal,
    );

    assert_eq!(state.message.as_deref(), Some("could not close w2:p2: herdr rejected pane.close: no such pane (not_found) — 1 of its 2 panes was closed first, and the checkout was not removed"));
    assert_eq!(
        state.stale.as_deref(),
        Some("the list could not be read again: herdr is not answering")
    );
}

#[test]
fn panes_a_close_that_refused_at_the_first_pane_reads_the_list_anyway() {
    let recorder = Recorder::refusing(FIRST_PANE);
    let git = Answers(Some(false));
    let mut removals = Removals::new(&Refuses);
    let mut state = PanesState::new(two_pane_tree());
    let mut dirty = Dirty::new(Rc::new(Answers(Some(false))));
    let removal = only_removal(&state);

    start_removal(
        &mut state,
        &mut dirty,
        &mut removals,
        &recorder,
        &git,
        &removal,
    );

    assert_eq!(state.message.as_deref(), Some("could not close w2:p1: herdr rejected pane.close: no such pane (not_found) — none of its 2 panes were closed, and the checkout was not removed"));
    assert_eq!(
        state.stale.as_deref(),
        Some("the list could not be read again: herdr is not answering")
    );
}

#[test]
fn tests_a_close_that_refused_at_the_first_pane_reads_the_list_anyway() {
    let recorder = Recorder::refusing(FIRST_PANE);
    let git = Answers(Some(false));
    let mut removals = Removals::new(&Refuses);
    let mut state = PanesState::new(two_pane_tree());
    let mut dirty = Dirty::new(Rc::new(Answers(Some(false))));
    let removal = only_removal(&state);

    start_removal(
        &mut state,
        &mut dirty,
        &mut removals,
        &recorder,
        &git,
        &removal,
    );

    assert_eq!(state.message.as_deref(), Some("could not close w2:p1: herdr rejected pane.close: no such pane (not_found) — none of its 2 panes were closed, and the checkout was not removed"));
    assert_eq!(
        state.stale.as_deref(),
        Some("the list could not be read again: herdr is not answering")
    );
}

#[test]
fn panes_a_working_tree_git_would_not_read_is_handed_on_as_its_own_refusal() {
    let mut state = PanesState::new(one_pane_tree());
    let mut dirty = Dirty::new(Rc::new(Answers(None)));
    dirty.ask(&state.tree);

    let mut pending = pending(dirty);
    until(
        "the walk never answered for the only checkout there is",
        || !show_answers(&mut state, &mut pending),
    );

    state.handle_key(key('D'));
    assert!(pending_removal(&state).is_none());
    assert_eq!(
        state.message.as_deref(),
        Some("git would not read that working tree")
    );
}

#[test]
fn tests_a_working_tree_git_would_not_read_is_handed_on_as_its_own_refusal() {
    let mut state = PanesState::new(one_pane_tree());
    let mut dirty = Dirty::new(Rc::new(Answers(None)));
    dirty.ask(&state.tree);

    let mut pending = pending(dirty);
    until(
        "the walk never answered for the only checkout there is",
        || !show_answers(&mut state, &mut pending),
    );

    state.handle_key(key('D'));
    assert!(pending_removal(&state).is_none());
    assert_eq!(
        state.message.as_deref(),
        Some("git would not read that working tree")
    );
}

#[test]
fn panes_the_loop_hands_on_what_the_walk_answered_or_nothing_can_be_deleted() {
    let mut state = PanesState::new(one_pane_tree());
    let mut dirty = Dirty::new(Rc::new(Answers(Some(false))));
    dirty.ask(&state.tree);

    let mut pending = pending(dirty);
    until(
        "the walk never answered for the only checkout there is",
        || !show_answers(&mut state, &mut pending),
    );

    state.handle_key(key('D'));
    assert!(
        pending_removal(&state).is_some(),
        "the walk answered, so the question can be asked: {:?}",
        state.message.as_deref()
    );
}

#[test]
fn tests_the_loop_hands_on_what_the_walk_answered_or_nothing_can_be_deleted() {
    let mut state = PanesState::new(one_pane_tree());
    let mut dirty = Dirty::new(Rc::new(Answers(Some(false))));
    dirty.ask(&state.tree);

    let mut pending = pending(dirty);
    until(
        "the walk never answered for the only checkout there is",
        || !show_answers(&mut state, &mut pending),
    );

    state.handle_key(key('D'));
    assert!(
        pending_removal(&state).is_some(),
        "the walk answered, so the question can be asked: {:?}",
        state.message.as_deref()
    );
}

#[test]
fn panes_every_refusal_to_start_is_on_the_prompt_line() {
    let session = Rc::new(Session::new(false, false));
    let (mut state, _pending) = sweep_asked(&session);
    let recorder = Recorder::default();
    let mut removals = Removals::new(&Refuses);
    let Action::RemoveWorktrees(sweep) = state.handle_key(key('y')) else {
        panic!("`y` is the answer that goes ahead");
    };
    start_sweep(&mut state, &mut removals, &recorder, &sweep);

    assert_eq!(
        state.message.as_deref(),
        Some(
            "could not start removing feat/login: could not spawn: no such file or \
             directory; could not start removing fix/crash: could not spawn: no such \
             file or directory"
        )
    );
    assert!(removals.is_empty(), "nothing started");
    assert!(!state.sweeping, "and the sweep is over either way");
}

#[test]
fn tests_every_refusal_to_start_is_on_the_prompt_line() {
    let session = Rc::new(Session::new(false, false));
    let (mut state, _pending) = sweep_asked(&session);
    let recorder = Recorder::default();
    let mut removals = Removals::new(&Refuses);
    let Action::RemoveWorktrees(sweep) = state.handle_key(key('y')) else {
        panic!("`y` is the answer that goes ahead");
    };
    start_sweep(&mut state, &mut removals, &recorder, &sweep);

    assert_eq!(
        state.message.as_deref(),
        Some(
            "could not start removing feat/login: could not spawn: no such file or \
             directory; could not start removing fix/crash: could not spawn: no such \
             file or directory"
        )
    );
    assert!(removals.is_empty(), "nothing started");
    assert!(!state.sweeping, "and the sweep is over either way");
}

#[test]
fn panes_a_reload_that_fails_leaves_the_list_saying_it_is_behind() {
    let session = Rc::new(Session::new(false, false));
    let (mut state, mut pending) = enter_pressed(&session);
    re_read(
        &mut state,
        &mut pending,
        &Recorder::default(),
        &*session,
        ReRead::Key,
    );
    assert_eq!(state.message.as_deref(), None);
    assert_eq!(
        state.stale.as_deref(),
        Some("the list could not be read again: herdr is not answering")
    );
}

#[test]
fn tests_a_reload_that_fails_leaves_the_list_saying_it_is_behind() {
    let session = Rc::new(Session::new(false, false));
    let (mut state, mut pending) = enter_pressed(&session);
    re_read(
        &mut state,
        &mut pending,
        &Recorder::default(),
        &*session,
        ReRead::Key,
    );
    assert_eq!(state.message.as_deref(), None);
    assert_eq!(
        state.stale.as_deref(),
        Some("the list could not be read again: herdr is not answering")
    );
}

#[test]
fn panes_two_removals_reporting_in_one_frame_share_the_line() {
    let session = Rc::new(Session::new(false, false));
    let (mut state, mut pending) = sweep_asked(&session);
    let port = Reports(RemovalOutcome::BranchKept("error: not fully merged".into()));
    let mut removals = Removals::new(&port);
    let Action::RemoveWorktrees(sweep) = state.handle_key(key('y')) else {
        panic!("`y` is the answer that goes ahead");
    };
    start_sweep(&mut state, &mut removals, &Recorder::default(), &sweep);
    until("both reported", || removals.reported() == 2);
    drain_finished(
        &mut state,
        &mut pending,
        &mut removals,
        &*session,
        &*session,
    );

    let line = state.message.as_deref().expect("two kept branches are said");
    for said in [
        "removed feat/login, branch kept: error: not fully merged",
        "removed fix/crash, branch kept: error: not fully merged",
    ] {
        assert!(line.contains(said), "{said:?} missing from {line:?}");
    }
    assert_eq!(
        line.matches("; ").count(),
        1,
        "one line, two reports: {line:?}"
    );
}

#[test]
fn tests_two_removals_reporting_in_one_frame_share_the_line() {
    let session = Rc::new(Session::new(false, false));
    let (mut state, mut pending) = sweep_asked(&session);
    let port = Reports(RemovalOutcome::BranchKept("error: not fully merged".into()));
    let mut removals = Removals::new(&port);
    let Action::RemoveWorktrees(sweep) = state.handle_key(key('y')) else {
        panic!("`y` is the answer that goes ahead");
    };
    start_sweep(&mut state, &mut removals, &Recorder::default(), &sweep);
    until("both reported", || removals.reported() == 2);
    drain_finished(
        &mut state,
        &mut pending,
        &mut removals,
        &*session,
        &*session,
    );

    let line = state.message.as_deref().expect("two kept branches are said");
    for said in [
        "removed feat/login, branch kept: error: not fully merged",
        "removed fix/crash, branch kept: error: not fully merged",
    ] {
        assert!(line.contains(said), "{said:?} missing from {line:?}");
    }
    assert_eq!(
        line.matches("; ").count(),
        1,
        "one line, two reports: {line:?}"
    );
}

#[test]
fn panes_a_question_the_re_read_took_back_is_said_last() {
    let session = Rc::new(Session::new(false, false));
    let (mut state, mut pending) = sweep_asked(&session);
    let port = Reports(RemovalOutcome::BranchKept("error: not fully merged".into()));
    let mut removals = Removals::new(&port);
    let earlier = Removal::sweeping("/src/app", &state.tree.repos[0].worktrees[1]);
    removals.remove(&Recorder::default(), &earlier).unwrap();
    until("it reported", || {
        drain_finished(
            &mut state,
            &mut pending,
            &mut removals,
            &*session,
            &*session,
        );
        removals.is_empty()
    });

    assert!(
        pending_sweep(&state).is_none(),
        "the box went with the re-read"
    );
    assert_eq!(
        state.message.as_deref(),
        Some(
            "removed feat/login, branch kept: error: not fully merged; the list changed \
             while that was up — ask again"
        )
    );
}

#[test]
fn tests_a_question_the_re_read_took_back_is_said_last() {
    let session = Rc::new(Session::new(false, false));
    let (mut state, mut pending) = sweep_asked(&session);
    let port = Reports(RemovalOutcome::BranchKept("error: not fully merged".into()));
    let mut removals = Removals::new(&port);
    let earlier = Removal::sweeping("/src/app", &state.tree.repos[0].worktrees[1]);
    removals.remove(&Recorder::default(), &earlier).unwrap();
    until("it reported", || {
        drain_finished(
            &mut state,
            &mut pending,
            &mut removals,
            &*session,
            &*session,
        );
        removals.is_empty()
    });

    assert!(
        pending_sweep(&state).is_none(),
        "the box went with the re-read"
    );
    assert_eq!(
        state.message.as_deref(),
        Some(
            "removed feat/login, branch kept: error: not fully merged; the list changed \
             while that was up — ask again"
        )
    );
}

#[test]
fn panes_a_question_taken_back_after_two_reports_is_still_said_last() {
    let session = Rc::new(Session::new(false, false));
    let (mut state, mut pending) = sweep_asked(&session);
    let port = Reports(RemovalOutcome::BranchKept("error: not fully merged".into()));
    let mut removals = Removals::new(&port);
    let earlier: Vec<Removal> = state.tree.repos[0].worktrees[1..=2]
        .iter()
        .map(|worktree| Removal::sweeping("/src/app", worktree))
        .collect();
    for removal in &earlier {
        removals.remove(&Recorder::default(), removal).unwrap();
    }
    until("both reported", || removals.reported() == 2);
    drain_finished(
        &mut state,
        &mut pending,
        &mut removals,
        &*session,
        &*session,
    );

    assert!(removals.is_empty(), "both came home in the one drain");
    let line = state.message.as_deref()
        .expect("two reports and a withdrawal are said");
    assert!(
        line.ends_with(WITHDRAWN),
        "the withdrawal comes last: {line:?}"
    );
    assert_eq!(
        line.matches("; ").count(),
        2,
        "three things on one line: {line:?}"
    );
}

#[test]
fn tests_a_question_taken_back_after_two_reports_is_still_said_last() {
    let session = Rc::new(Session::new(false, false));
    let (mut state, mut pending) = sweep_asked(&session);
    let port = Reports(RemovalOutcome::BranchKept("error: not fully merged".into()));
    let mut removals = Removals::new(&port);
    let earlier: Vec<Removal> = state.tree.repos[0].worktrees[1..=2]
        .iter()
        .map(|worktree| Removal::sweeping("/src/app", worktree))
        .collect();
    for removal in &earlier {
        removals.remove(&Recorder::default(), removal).unwrap();
    }
    until("both reported", || removals.reported() == 2);
    drain_finished(
        &mut state,
        &mut pending,
        &mut removals,
        &*session,
        &*session,
    );

    assert!(removals.is_empty(), "both came home in the one drain");
    let line = state.message.as_deref()
        .expect("two reports and a withdrawal are said");
    assert!(
        line.ends_with(WITHDRAWN),
        "the withdrawal comes last: {line:?}"
    );
    assert_eq!(
        line.matches("; ").count(),
        2,
        "three things on one line: {line:?}"
    );
}

#[test]
fn panes_a_removal_that_ended_without_saying_what_happened_reads_the_list_again_and_says_so() {
    let session = Rc::new(Session::new(true, false));
    let (_, tree) = collect_tree(&*session, &*session).expect("the first reading");
    let mut state = PanesState::new(tree);
    let mut pending = pending(Dirty::new(session.clone()));
    let mut removals = Removals::new(&Lost);
    let removal = Removal::sweeping("/src/app", &state.tree.repos[0].worktrees[1]);
    removals.remove(&Recorder::default(), &removal).unwrap();
    assert_eq!(pane_rows(&state), ["w1:p1"]);

    until("it reported", || {
        drain_finished(
            &mut state,
            &mut pending,
            &mut removals,
            &*session,
            &*session,
        );
        removals.is_empty()
    });

    assert_eq!(
        pane_rows(&state),
        ["w1:p1", "w2:p1"],
        "the list really was read again, and not only said to have been"
    );
    assert_eq!(
        state.message.as_deref(),
        Some(
            "the removal of feat/login ended without saying what happened; the list has \
             been read again since"
        )
    );
}

#[test]
fn tests_a_removal_that_ended_without_saying_what_happened_reads_the_list_again_and_says_so() {
    let session = Rc::new(Session::new(true, false));
    let (_, tree) = collect_tree(&*session, &*session).expect("the first reading");
    let mut state = PanesState::new(tree);
    let mut pending = pending(Dirty::new(session.clone()));
    let mut removals = Removals::new(&Lost);
    let removal = Removal::sweeping("/src/app", &state.tree.repos[0].worktrees[1]);
    removals.remove(&Recorder::default(), &removal).unwrap();
    assert_eq!(pane_rows(&state), ["w1:p1"]);

    until("it reported", || {
        drain_finished(
            &mut state,
            &mut pending,
            &mut removals,
            &*session,
            &*session,
        );
        removals.is_empty()
    });

    assert_eq!(
        pane_rows(&state),
        ["w1:p1", "w2:p1"],
        "the list really was read again, and not only said to have been"
    );
    assert_eq!(
        state.message.as_deref(),
        Some(
            "the removal of feat/login ended without saying what happened; the list has \
             been read again since"
        )
    );
}

#[test]
fn panes_an_ending_nobody_could_read_and_a_list_nobody_could_read_are_both_said() {
    let recorder = Recorder::default();
    let git = Answers(Some(false));
    let mut state = PanesState::new(one_pane_tree());
    let mut pending = pending(Dirty::new(Rc::new(Answers(Some(false)))));
    let mut removals = Removals::new(&Lost);
    let removal = only_removal(&state);
    removals.remove(&recorder, &removal).unwrap();

    until("it reported", || {
        drain_finished(&mut state, &mut pending, &mut removals, &recorder, &git);
        removals.is_empty()
    });

    assert_eq!(state.message.as_deref(), Some("the removal of feat/login ended without saying what happened — its 1 pane was closed first"));
    assert_eq!(
        state.stale.as_deref(),
        Some("the list could not be read again: herdr is not answering")
    );
}

#[test]
fn tests_an_ending_nobody_could_read_and_a_list_nobody_could_read_are_both_said() {
    let recorder = Recorder::default();
    let git = Answers(Some(false));
    let mut state = PanesState::new(one_pane_tree());
    let mut pending = pending(Dirty::new(Rc::new(Answers(Some(false)))));
    let mut removals = Removals::new(&Lost);
    let removal = only_removal(&state);
    removals.remove(&recorder, &removal).unwrap();

    until("it reported", || {
        drain_finished(&mut state, &mut pending, &mut removals, &recorder, &git);
        removals.is_empty()
    });

    assert_eq!(state.message.as_deref(), Some("the removal of feat/login ended without saying what happened — its 1 pane was closed first"));
    assert_eq!(
        state.stale.as_deref(),
        Some("the list could not be read again: herdr is not answering")
    );
}

#[test]
fn panes_a_removal_that_worked_says_when_the_list_could_not_be_caught_up_with_it() {
    let recorder = Recorder::default();
    let git = Answers(Some(false));
    let port = Reports(RemovalOutcome::Removed);
    let mut state = PanesState::new(one_pane_tree());
    let mut pending = pending(Dirty::new(Rc::new(Answers(Some(false)))));
    let mut removals = Removals::new(&port);
    let removal = only_removal(&state);
    removals.remove(&recorder, &removal).unwrap();

    until("it reported", || {
        drain_finished(&mut state, &mut pending, &mut removals, &recorder, &git);
        removals.is_empty()
    });

    assert_eq!(state.message.as_deref(), None);
    assert_eq!(
        state.stale.as_deref(),
        Some("the list could not be read again: herdr is not answering")
    );
}

#[test]
fn tests_a_removal_that_worked_says_when_the_list_could_not_be_caught_up_with_it() {
    let recorder = Recorder::default();
    let git = Answers(Some(false));
    let port = Reports(RemovalOutcome::Removed);
    let mut state = PanesState::new(one_pane_tree());
    let mut pending = pending(Dirty::new(Rc::new(Answers(Some(false)))));
    let mut removals = Removals::new(&port);
    let removal = only_removal(&state);
    removals.remove(&recorder, &removal).unwrap();

    until("it reported", || {
        drain_finished(&mut state, &mut pending, &mut removals, &recorder, &git);
        removals.is_empty()
    });

    assert_eq!(state.message.as_deref(), None);
    assert_eq!(
        state.stale.as_deref(),
        Some("the list could not be read again: herdr is not answering")
    );
}

#[test]
fn panes_what_became_of_the_list_is_said_before_the_question_that_went_with_it() {
    let session = Rc::new(Session::new(false, false));
    let (mut state, mut pending) = sweep_asked(&session);
    let mut removals = Removals::new(&Lost);
    let earlier = Removal::sweeping("/src/app", &state.tree.repos[0].worktrees[1]);
    removals.remove(&Recorder::default(), &earlier).unwrap();

    until("it reported", || {
        drain_finished(
            &mut state,
            &mut pending,
            &mut removals,
            &*session,
            &*session,
        );
        removals.is_empty()
    });

    assert!(
        pending_sweep(&state).is_none(),
        "the box went with the reading"
    );
    assert_eq!(
        state.message.as_deref(),
        Some(
            "the removal of feat/login ended without saying what happened; the list has \
             been read again since; the list changed while that was up — ask again"
        )
    );
}

#[test]
fn tests_what_became_of_the_list_is_said_before_the_question_that_went_with_it() {
    let session = Rc::new(Session::new(false, false));
    let (mut state, mut pending) = sweep_asked(&session);
    let mut removals = Removals::new(&Lost);
    let earlier = Removal::sweeping("/src/app", &state.tree.repos[0].worktrees[1]);
    removals.remove(&Recorder::default(), &earlier).unwrap();

    until("it reported", || {
        drain_finished(
            &mut state,
            &mut pending,
            &mut removals,
            &*session,
            &*session,
        );
        removals.is_empty()
    });

    assert!(
        pending_sweep(&state).is_none(),
        "the box went with the reading"
    );
    assert_eq!(
        state.message.as_deref(),
        Some(
            "the removal of feat/login ended without saying what happened; the list has \
             been read again since; the list changed while that was up — ask again"
        )
    );
}

#[test]
fn panes_a_refusal_reads_the_list_again_too_because_nothing_else_retries_it() {
    let recorder = Recorder::default();
    let git = Answers(Some(false));
    let port = Reports(RemovalOutcome::Refused("fatal: refused".into()));
    let mut state = PanesState::new(one_pane_tree());
    let mut pending = pending(Dirty::new(Rc::new(Answers(Some(false)))));
    let mut removals = Removals::new(&port);
    let removal = only_removal(&state);
    removals.remove(&recorder, &removal).unwrap();

    until("it reported", || {
        drain_finished(&mut state, &mut pending, &mut removals, &recorder, &git);
        removals.is_empty()
    });

    assert_eq!(
        state.message.as_deref(),
        Some("could not remove feat/login: fatal: refused — its 1 pane was closed first")
    );
    assert_eq!(
        state.stale.as_deref(),
        Some("the list could not be read again: herdr is not answering")
    );
}

#[test]
fn tests_a_refusal_reads_the_list_again_too_because_nothing_else_retries_it() {
    let recorder = Recorder::default();
    let git = Answers(Some(false));
    let port = Reports(RemovalOutcome::Refused("fatal: refused".into()));
    let mut state = PanesState::new(one_pane_tree());
    let mut pending = pending(Dirty::new(Rc::new(Answers(Some(false)))));
    let mut removals = Removals::new(&port);
    let removal = only_removal(&state);
    removals.remove(&recorder, &removal).unwrap();

    until("it reported", || {
        drain_finished(&mut state, &mut pending, &mut removals, &recorder, &git);
        removals.is_empty()
    });

    assert_eq!(
        state.message.as_deref(),
        Some("could not remove feat/login: fatal: refused — its 1 pane was closed first")
    );
    assert_eq!(
        state.stale.as_deref(),
        Some("the list could not be read again: herdr is not answering")
    );
}

#[test]
fn panes_a_question_over_a_list_this_could_not_read_goes_back_with_it() {
    let session = Rc::new(Session::new(false, false));
    let (mut state, mut pending) = sweep_asked(&session);
    let port = Reports(RemovalOutcome::BranchKept("error: not fully merged".into()));
    let mut removals = Removals::new(&port);
    let earlier = Removal::sweeping("/src/app", &state.tree.repos[0].worktrees[1]);
    removals.remove(&Recorder::default(), &earlier).unwrap();
    assert!(pending_sweep(&state).is_some(), "the box is up");

    let recorder = Recorder::default();
    let git = Answers(Some(false));
    until("it reported", || {
        drain_finished(&mut state, &mut pending, &mut removals, &recorder, &git);
        removals.is_empty()
    });

    assert!(
        pending_sweep(&state).is_none(),
        "the box went with the reading it was waiting on"
    );
    assert_eq!(
        state.message.as_deref(),
        Some("removed feat/login, branch kept: error: not fully merged; the question went back"),
        "and not `WITHDRAWN`, which would say the list changed when nothing replaced it"
    );
    assert_eq!(
        state.stale.as_deref(),
        Some("the list could not be read again: herdr is not answering")
    );
}

#[test]
fn tests_a_question_over_a_list_this_could_not_read_goes_back_with_it() {
    let session = Rc::new(Session::new(false, false));
    let (mut state, mut pending) = sweep_asked(&session);
    let port = Reports(RemovalOutcome::BranchKept("error: not fully merged".into()));
    let mut removals = Removals::new(&port);
    let earlier = Removal::sweeping("/src/app", &state.tree.repos[0].worktrees[1]);
    removals.remove(&Recorder::default(), &earlier).unwrap();
    assert!(pending_sweep(&state).is_some(), "the box is up");

    let recorder = Recorder::default();
    let git = Answers(Some(false));
    until("it reported", || {
        drain_finished(&mut state, &mut pending, &mut removals, &recorder, &git);
        removals.is_empty()
    });

    assert!(
        pending_sweep(&state).is_none(),
        "the box went with the reading it was waiting on"
    );
    assert_eq!(
        state.message.as_deref(),
        Some("removed feat/login, branch kept: error: not fully merged; the question went back"),
        "and not `WITHDRAWN`, which would say the list changed when nothing replaced it"
    );
    assert_eq!(
        state.stale.as_deref(),
        Some("the list could not be read again: herdr is not answering")
    );
}

#[test]
fn panes_two_endings_nobody_could_read_are_settled_by_the_one_list_once() {
    let session = Rc::new(Session::new(false, false));
    let (_, tree) = collect_tree(&*session, &*session).expect("the first reading");
    let mut state = PanesState::new(tree);
    let mut pending = pending(Dirty::new(session.clone()));
    let mut removals = Removals::new(&Lost);
    for worktree in &state.tree.repos[0].worktrees[1..=2] {
        let removal = Removal::sweeping("/src/app", worktree);
        removals.remove(&Recorder::default(), &removal).unwrap();
    }
    until("both reported", || removals.reported() == 2);
    drain_finished(
        &mut state,
        &mut pending,
        &mut removals,
        &*session,
        &*session,
    );

    let line = state.message.as_deref()
        .expect("two endings nobody could read are said");
    assert_eq!(
        line.matches(READ_AGAIN).count(),
        1,
        "one list, one sentence: {line:?}"
    );
    assert!(line.ends_with(READ_AGAIN), "and it comes last: {line:?}");
    assert_eq!(
        line.matches("; ").count(),
        2,
        "two reports and the one sentence: {line:?}"
    );
}

#[test]
fn tests_two_endings_nobody_could_read_are_settled_by_the_one_list_once() {
    let session = Rc::new(Session::new(false, false));
    let (_, tree) = collect_tree(&*session, &*session).expect("the first reading");
    let mut state = PanesState::new(tree);
    let mut pending = pending(Dirty::new(session.clone()));
    let mut removals = Removals::new(&Lost);
    for worktree in &state.tree.repos[0].worktrees[1..=2] {
        let removal = Removal::sweeping("/src/app", worktree);
        removals.remove(&Recorder::default(), &removal).unwrap();
    }
    until("both reported", || removals.reported() == 2);
    drain_finished(
        &mut state,
        &mut pending,
        &mut removals,
        &*session,
        &*session,
    );

    let line = state.message.as_deref()
        .expect("two endings nobody could read are said");
    assert_eq!(
        line.matches(READ_AGAIN).count(),
        1,
        "one list, one sentence: {line:?}"
    );
    assert!(line.ends_with(READ_AGAIN), "and it comes last: {line:?}");
    assert_eq!(
        line.matches("; ").count(),
        2,
        "two reports and the one sentence: {line:?}"
    );
}

#[test]
fn panes_two_reports_over_one_reading_that_failed_say_what_failed_once() {
    let session = Rc::new(Session::new(false, false));
    let (_, tree) = collect_tree(&*session, &*session).expect("the first reading");
    let mut state = PanesState::new(tree);
    let mut pending = pending(Dirty::new(session.clone()));
    let mut removals = Removals::new(&Lost);
    for worktree in &state.tree.repos[0].worktrees[1..=2] {
        let removal = Removal::sweeping("/src/app", worktree);
        removals.remove(&Recorder::default(), &removal).unwrap();
    }
    until("both reported", || removals.reported() == 2);
    let recorder = Recorder::default();
    let git = Answers(Some(false));
    drain_finished(&mut state, &mut pending, &mut removals, &recorder, &git);

    let line = state.message.as_deref()
        .expect("two endings nobody could read are said");
    assert!(
        !line.contains(STALE),
        "what became of the list is not one of the reports: {line:?}"
    );
    assert_eq!(
        state.stale.as_deref(),
        Some("the list could not be read again: herdr is not answering"),
        "one list, one sentence — and being a condition is what makes it one, however \
         many removals reported over the reading that failed"
    );
    assert!(
        !line.contains(READ_AGAIN),
        "and not the one that says it was read: {line:?}"
    );
    assert_eq!(
        line.matches("; ").count(),
        1,
        "the two reports, and nothing else on the line: {line:?}"
    );
}

#[test]
fn tests_two_reports_over_one_reading_that_failed_say_what_failed_once() {
    let session = Rc::new(Session::new(false, false));
    let (_, tree) = collect_tree(&*session, &*session).expect("the first reading");
    let mut state = PanesState::new(tree);
    let mut pending = pending(Dirty::new(session.clone()));
    let mut removals = Removals::new(&Lost);
    for worktree in &state.tree.repos[0].worktrees[1..=2] {
        let removal = Removal::sweeping("/src/app", worktree);
        removals.remove(&Recorder::default(), &removal).unwrap();
    }
    until("both reported", || removals.reported() == 2);
    let recorder = Recorder::default();
    let git = Answers(Some(false));
    drain_finished(&mut state, &mut pending, &mut removals, &recorder, &git);

    let line = state.message.as_deref()
        .expect("two endings nobody could read are said");
    assert!(
        !line.contains(STALE),
        "what became of the list is not one of the reports: {line:?}"
    );
    assert_eq!(
        state.stale.as_deref(),
        Some("the list could not be read again: herdr is not answering"),
        "one list, one sentence — and being a condition is what makes it one, however \
         many removals reported over the reading that failed"
    );
    assert!(
        !line.contains(READ_AGAIN),
        "and not the one that says it was read: {line:?}"
    );
    assert_eq!(
        line.matches("; ").count(),
        1,
        "the two reports, and nothing else on the line: {line:?}"
    );
}

#[test]
fn panes_a_reading_that_worked_takes_back_the_sentence_saying_one_could_not() {
    let session = Rc::new(Session::new(false, false));
    let (_, tree) = collect_tree(&*session, &*session).expect("the first reading");
    let mut state = PanesState::new(tree);
    let mut pending = pending(Dirty::new(session.clone()));
    let git = session.clone();

    let mut lost = Removals::new(&Lost);
    let first = Removal::sweeping("/src/app", &state.tree.repos[0].worktrees[1]);
    lost.remove(&Recorder::default(), &first).unwrap();
    until("the first reported", || lost.reported() == 1);
    drain_finished(
        &mut state,
        &mut pending,
        &mut lost,
        &Recorder::default(),
        &*git,
    );
    assert_eq!(
        state.stale.as_deref(),
        Some("the list could not be read again: herdr is not answering"),
        "the rows are behind, and the line says so"
    );

    let mut removed = Removals::new(&Reports(RemovalOutcome::Removed));
    let second = Removal::sweeping("/src/app", &state.tree.repos[0].worktrees[2]);
    removed.remove(&Recorder::default(), &second).unwrap();
    until("the second reported", || removed.reported() == 1);
    drain_finished(&mut state, &mut pending, &mut removed, &*session, &*git);

    assert_eq!(
        state.stale,
        None,
        "and the reading that put the list right is what takes the sentence back"
    );
    assert!(
        !state.message.clone().unwrap_or_default().contains(STALE),
        "with nothing else on screen still saying it either: {:?}",
        state.message.as_deref()
    );
}

#[test]
fn tests_a_reading_that_worked_takes_back_the_sentence_saying_one_could_not() {
    let session = Rc::new(Session::new(false, false));
    let (_, tree) = collect_tree(&*session, &*session).expect("the first reading");
    let mut state = PanesState::new(tree);
    let mut pending = pending(Dirty::new(session.clone()));
    let git = session.clone();

    let mut lost = Removals::new(&Lost);
    let first = Removal::sweeping("/src/app", &state.tree.repos[0].worktrees[1]);
    lost.remove(&Recorder::default(), &first).unwrap();
    until("the first reported", || lost.reported() == 1);
    drain_finished(
        &mut state,
        &mut pending,
        &mut lost,
        &Recorder::default(),
        &*git,
    );
    assert_eq!(
        state.stale.as_deref(),
        Some("the list could not be read again: herdr is not answering"),
        "the rows are behind, and the line says so"
    );

    let mut removed = Removals::new(&Reports(RemovalOutcome::Removed));
    let second = Removal::sweeping("/src/app", &state.tree.repos[0].worktrees[2]);
    removed.remove(&Recorder::default(), &second).unwrap();
    until("the second reported", || removed.reported() == 1);
    drain_finished(&mut state, &mut pending, &mut removed, &*session, &*git);

    assert_eq!(
        state.stale,
        None,
        "and the reading that put the list right is what takes the sentence back"
    );
    assert!(
        !state.message.clone().unwrap_or_default().contains(STALE),
        "with nothing else on screen still saying it either: {:?}",
        state.message.as_deref()
    );
}

#[test]
fn panes_a_sweeps_enter_still_waiting_for_its_box_goes_back_too() {
    let session = Rc::new(Session::new(false, false));
    let (mut state, mut pending) = enter_pressed(&session);
    assert!(
        pending_sweep(&state).is_none(),
        "the box is waiting on the walk"
    );
    let mut removals = Removals::new(&Lost);
    let earlier = Removal::sweeping("/src/app", &state.tree.repos[0].worktrees[1]);
    removals.remove(&Recorder::default(), &earlier).unwrap();

    let git = Answers(Some(false));
    until("it reported", || {
        drain_finished(&mut state, &mut pending, &mut removals, &Chained, &git);
        removals.is_empty()
    });

    assert_eq!(state.message.as_deref(), Some("the removal of feat/login ended without saying what happened; nothing was asked"), "the `Enter` went, and the line says which of the two it was: nothing was asked, so the marks stand and `Enter` again is the whole of the way back");
    assert_eq!(
        state.stale.as_deref(),
        Some("the list could not be read again: sending session.snapshot to herdr: broken pipe")
    );
    settle(&mut state, &mut pending);
    assert!(
        pending_sweep(&state).is_none(),
        "and no box comes up afterwards over the list nobody could read"
    );
}

#[test]
fn tests_a_sweeps_enter_still_waiting_for_its_box_goes_back_too() {
    let session = Rc::new(Session::new(false, false));
    let (mut state, mut pending) = enter_pressed(&session);
    assert!(
        pending_sweep(&state).is_none(),
        "the box is waiting on the walk"
    );
    let mut removals = Removals::new(&Lost);
    let earlier = Removal::sweeping("/src/app", &state.tree.repos[0].worktrees[1]);
    removals.remove(&Recorder::default(), &earlier).unwrap();

    let git = Answers(Some(false));
    until("it reported", || {
        drain_finished(&mut state, &mut pending, &mut removals, &Chained, &git);
        removals.is_empty()
    });

    assert_eq!(state.message.as_deref(), Some("the removal of feat/login ended without saying what happened; nothing was asked"), "the `Enter` went, and the line says which of the two it was: nothing was asked, so the marks stand and `Enter` again is the whole of the way back");
    assert_eq!(
        state.stale.as_deref(),
        Some("the list could not be read again: sending session.snapshot to herdr: broken pipe")
    );
    settle(&mut state, &mut pending);
    assert!(
        pending_sweep(&state).is_none(),
        "and no box comes up afterwards over the list nobody could read"
    );
}

#[test]
fn panes_a_shift_d_box_over_a_list_this_could_not_read_goes_back_too() {
    let mut state = PanesState::new(one_pane_tree());
    let mut dirty = Dirty::new(Rc::new(Answers(Some(false))));
    dirty.ask(&state.tree);
    let mut pending = pending(dirty);
    until("the walk answered", || {
        !show_answers(&mut state, &mut pending)
    });
    press(&mut state, 'D');
    assert!(pending_removal(&state).is_some(), "the box is up");

    let recorder = Recorder::default();
    let git = Answers(Some(false));
    let mut removals = Removals::new(&Lost);
    let removal = only_removal(&state);
    removals.remove(&recorder, &removal).unwrap();
    until("it reported", || {
        drain_finished(&mut state, &mut pending, &mut removals, &recorder, &git);
        removals.is_empty()
    });

    assert!(pending_removal(&state).is_none(), "and it went back");
    assert_eq!(state.message.as_deref(), Some("the removal of feat/login ended without saying what happened — its 1 pane was closed first; the question went back"));
    assert_eq!(
        state.stale.as_deref(),
        Some("the list could not be read again: herdr is not answering")
    );
}

#[test]
fn tests_a_shift_d_box_over_a_list_this_could_not_read_goes_back_too() {
    let mut state = PanesState::new(one_pane_tree());
    let mut dirty = Dirty::new(Rc::new(Answers(Some(false))));
    dirty.ask(&state.tree);
    let mut pending = pending(dirty);
    until("the walk answered", || {
        !show_answers(&mut state, &mut pending)
    });
    press(&mut state, 'D');
    assert!(pending_removal(&state).is_some(), "the box is up");

    let recorder = Recorder::default();
    let git = Answers(Some(false));
    let mut removals = Removals::new(&Lost);
    let removal = only_removal(&state);
    removals.remove(&recorder, &removal).unwrap();
    until("it reported", || {
        drain_finished(&mut state, &mut pending, &mut removals, &recorder, &git);
        removals.is_empty()
    });

    assert!(pending_removal(&state).is_none(), "and it went back");
    assert_eq!(state.message.as_deref(), Some("the removal of feat/login ended without saying what happened — its 1 pane was closed first; the question went back"));
    assert_eq!(
        state.stale.as_deref(),
        Some("the list could not be read again: herdr is not answering")
    );
}

#[test]
fn panes_a_checkout_that_left_the_list_is_forgotten_by_the_walk() {
    let herdr = Rc::new(Closing::where_the_checkout_goes_too());
    let recorder = Recorder::default();
    let port = Started(&recorder);
    let mut removals = Removals::new(&port);
    let (_, tree) = collect_tree(&*herdr, &*herdr).expect("the first reading");
    let mut state = PanesState::new(tree);
    let mut dirty = Dirty::new(herdr.clone());
    dirty.ask(&state.tree);
    until("both checkouts were walked", || {
        dirty.drain();
        dirty.answers().len() == 2
    });
    let removal = removal_of(&state, FEAT_LOGIN);

    start_removal(
        &mut state,
        &mut dirty,
        &mut removals,
        &*herdr,
        &*herdr,
        &removal,
    );

    assert_eq!(
        dirty.answers().keys().collect::<Vec<_>>(),
        ["/src/app"],
        "the checkout that went is not one the walk still has an answer about, and the \
         one that stayed is"
    );
}

#[test]
fn tests_a_checkout_that_left_the_list_is_forgotten_by_the_walk() {
    let herdr = Rc::new(Closing::where_the_checkout_goes_too());
    let recorder = Recorder::default();
    let port = Started(&recorder);
    let mut removals = Removals::new(&port);
    let (_, tree) = collect_tree(&*herdr, &*herdr).expect("the first reading");
    let mut state = PanesState::new(tree);
    let mut dirty = Dirty::new(herdr.clone());
    dirty.ask(&state.tree);
    until("both checkouts were walked", || {
        dirty.drain();
        dirty.answers().len() == 2
    });
    let removal = removal_of(&state, FEAT_LOGIN);

    start_removal(
        &mut state,
        &mut dirty,
        &mut removals,
        &*herdr,
        &*herdr,
        &removal,
    );

    assert_eq!(
        dirty.answers().keys().collect::<Vec<_>>(),
        ["/src/app"],
        "the checkout that went is not one the walk still has an answer about, and the \
         one that stayed is"
    );
}

#[test]
fn panes_what_herdr_said_reaches_the_line_with_its_cause_under_it() {
    let recorder = Recorder::default();
    let port = Started(&recorder);
    let mut removals = Removals::new(&port);
    let mut state = PanesState::new(one_pane_tree());
    let mut dirty = Dirty::new(Rc::new(Answers(Some(false))));
    let removal = only_removal(&state);

    start_removal(
        &mut state,
        &mut dirty,
        &mut removals,
        &Chained,
        &Answers(Some(false)),
        &removal,
    );

    assert_eq!(state.message.as_deref(), None);
    assert_eq!(
        state.stale.as_deref(),
        Some("the list could not be read again: sending session.snapshot to herdr: broken pipe")
    );
}

#[test]
fn tests_what_herdr_said_reaches_the_line_with_its_cause_under_it() {
    let recorder = Recorder::default();
    let port = Started(&recorder);
    let mut removals = Removals::new(&port);
    let mut state = PanesState::new(one_pane_tree());
    let mut dirty = Dirty::new(Rc::new(Answers(Some(false))));
    let removal = only_removal(&state);

    start_removal(
        &mut state,
        &mut dirty,
        &mut removals,
        &Chained,
        &Answers(Some(false)),
        &removal,
    );

    assert_eq!(state.message.as_deref(), None);
    assert_eq!(
        state.stale.as_deref(),
        Some("the list could not be read again: sending session.snapshot to herdr: broken pipe")
    );
}

#[test]
fn panes_a_frame_with_nothing_to_take_in_leaves_the_list_alone() {
    let recorder = Recorder::default();
    let git = Answers(Some(false));
    let mut state = PanesState::new(one_pane_tree());
    let mut pending = pending(Dirty::new(Rc::new(Answers(Some(false)))));
    let mut removals = Removals::new(&Refuses);

    drain_finished(&mut state, &mut pending, &mut removals, &recorder, &git);

    assert_eq!(
        state.message.as_deref(),
        None,
        "nothing reported, so nothing was read"
    );
}

#[test]
fn tests_a_frame_with_nothing_to_take_in_leaves_the_list_alone() {
    let recorder = Recorder::default();
    let git = Answers(Some(false));
    let mut state = PanesState::new(one_pane_tree());
    let mut pending = pending(Dirty::new(Rc::new(Answers(Some(false)))));
    let mut removals = Removals::new(&Refuses);

    drain_finished(&mut state, &mut pending, &mut removals, &recorder, &git);

    assert_eq!(
        state.message.as_deref(),
        None,
        "nothing reported, so nothing was read"
    );
}

#[test]
fn panes_a_removal_that_worked_over_a_list_that_read_says_nothing_at_all() {
    let herdr = Rc::new(Closing::where_the_checkout_goes_too());
    let port = Reports(RemovalOutcome::Removed);
    let mut removals = Removals::new(&port);
    let (_, tree) = collect_tree(&*herdr, &*herdr).expect("the first reading");
    let mut state = PanesState::new(tree);
    let mut pending = pending(Dirty::new(herdr.clone()));
    let removal = removal_of(&state, FEAT_LOGIN);
    removals.remove(&*herdr, &removal).unwrap();

    until("it reported", || {
        drain_finished(&mut state, &mut pending, &mut removals, &*herdr, &*herdr);
        removals.is_empty()
    });

    assert_eq!(state.message.as_deref(), None, "the row leaving is the whole report");
    assert_eq!(
        pane_rows(&state),
        ["w1:p9"],
        "and it left: the panes that were in it are off the list"
    );
}

#[test]
fn tests_a_removal_that_worked_over_a_list_that_read_says_nothing_at_all() {
    let herdr = Rc::new(Closing::where_the_checkout_goes_too());
    let port = Reports(RemovalOutcome::Removed);
    let mut removals = Removals::new(&port);
    let (_, tree) = collect_tree(&*herdr, &*herdr).expect("the first reading");
    let mut state = PanesState::new(tree);
    let mut pending = pending(Dirty::new(herdr.clone()));
    let removal = removal_of(&state, FEAT_LOGIN);
    removals.remove(&*herdr, &removal).unwrap();

    until("it reported", || {
        drain_finished(&mut state, &mut pending, &mut removals, &*herdr, &*herdr);
        removals.is_empty()
    });

    assert_eq!(state.message.as_deref(), None, "the row leaving is the whole report");
    assert_eq!(
        pane_rows(&state),
        ["w1:p9"],
        "and it left: the panes that were in it are off the list"
    );
}

#[test]
fn panes_a_sweeps_enter_still_waiting_survives_a_reading_that_worked() {
    let session = Rc::new(Session::new(false, false));
    let (mut state, mut pending) = enter_pressed(&session);
    let port = Reports(RemovalOutcome::Removed);
    let mut removals = Removals::new(&port);
    let earlier = Removal::sweeping("/src/app", &state.tree.repos[0].worktrees[1]);
    removals.remove(&Recorder::default(), &earlier).unwrap();

    until("it reported", || {
        drain_finished(
            &mut state,
            &mut pending,
            &mut removals,
            &*session,
            &*session,
        );
        removals.is_empty()
    });

    settle(&mut state, &mut pending);
    assert!(
        !box_paths(&state).is_empty(),
        "the box the `Enter` asked for still comes up: {:?}",
        state.message.as_deref()
    );
}

#[test]
fn tests_a_sweeps_enter_still_waiting_survives_a_reading_that_worked() {
    let session = Rc::new(Session::new(false, false));
    let (mut state, mut pending) = enter_pressed(&session);
    let port = Reports(RemovalOutcome::Removed);
    let mut removals = Removals::new(&port);
    let earlier = Removal::sweeping("/src/app", &state.tree.repos[0].worktrees[1]);
    removals.remove(&Recorder::default(), &earlier).unwrap();

    until("it reported", || {
        drain_finished(
            &mut state,
            &mut pending,
            &mut removals,
            &*session,
            &*session,
        );
        removals.is_empty()
    });

    settle(&mut state, &mut pending);
    assert!(
        !box_paths(&state).is_empty(),
        "the box the `Enter` asked for still comes up: {:?}",
        state.message.as_deref()
    );
}

#[test]
fn panes_a_reading_that_failed_reaches_the_line_with_its_cause_under_it_too() {
    let session = Rc::new(Session::new(false, false));
    let (mut state, mut pending) = sweep_asked(&session);
    let mut removals = Removals::new(&Lost);
    let earlier = Removal::sweeping("/src/app", &state.tree.repos[0].worktrees[1]);
    removals.remove(&Recorder::default(), &earlier).unwrap();

    let git = Answers(Some(false));
    until("it reported", || {
        drain_finished(&mut state, &mut pending, &mut removals, &Chained, &git);
        removals.is_empty()
    });

    assert_eq!(
        state.message.as_deref(),
        Some(
            "the removal of feat/login ended without saying what happened; the question went back"
        )
    );
    assert_eq!(
        state.stale.as_deref(),
        Some("the list could not be read again: sending session.snapshot to herdr: broken pipe")
    );
}

#[test]
fn tests_a_reading_that_failed_reaches_the_line_with_its_cause_under_it_too() {
    let session = Rc::new(Session::new(false, false));
    let (mut state, mut pending) = sweep_asked(&session);
    let mut removals = Removals::new(&Lost);
    let earlier = Removal::sweeping("/src/app", &state.tree.repos[0].worktrees[1]);
    removals.remove(&Recorder::default(), &earlier).unwrap();

    let git = Answers(Some(false));
    until("it reported", || {
        drain_finished(&mut state, &mut pending, &mut removals, &Chained, &git);
        removals.is_empty()
    });

    assert_eq!(
        state.message.as_deref(),
        Some(
            "the removal of feat/login ended without saying what happened; the question went back"
        )
    );
    assert_eq!(
        state.stale.as_deref(),
        Some("the list could not be read again: sending session.snapshot to herdr: broken pipe")
    );
}

#[test]
fn panes_a_removal_that_could_not_be_waited_on_reaches_the_line_whole() {
    let session = Rc::new(Session::new(false, false));
    let (_, tree) = collect_tree(&*session, &*session).expect("the first reading");
    let mut state = PanesState::new(tree);
    let mut pending = pending(Dirty::new(session.clone()));
    let mut removals = Removals::new(&Unwaited);
    let removal = Removal::sweeping("/src/app", &state.tree.repos[0].worktrees[1]);
    removals.remove(&Recorder::default(), &removal).unwrap();

    until("it reported", || {
        drain_finished(
            &mut state,
            &mut pending,
            &mut removals,
            &*session,
            &*session,
        );
        removals.is_empty()
    });

    assert_eq!(
        state.message.as_deref(),
        Some(
            "waiting for the removal of feat/login: No child processes (os error 10); \
             the list has been read again since"
        )
    );
}

#[test]
fn tests_a_removal_that_could_not_be_waited_on_reaches_the_line_whole() {
    let session = Rc::new(Session::new(false, false));
    let (_, tree) = collect_tree(&*session, &*session).expect("the first reading");
    let mut state = PanesState::new(tree);
    let mut pending = pending(Dirty::new(session.clone()));
    let mut removals = Removals::new(&Unwaited);
    let removal = Removal::sweeping("/src/app", &state.tree.repos[0].worktrees[1]);
    removals.remove(&Recorder::default(), &removal).unwrap();

    until("it reported", || {
        drain_finished(
            &mut state,
            &mut pending,
            &mut removals,
            &*session,
            &*session,
        );
        removals.is_empty()
    });

    assert_eq!(
        state.message.as_deref(),
        Some(
            "waiting for the removal of feat/login: No child processes (os error 10); \
             the list has been read again since"
        )
    );
}

#[test]
fn panes_one_ending_nobody_could_read_among_reports_that_worked_is_settled_once() {
    let session = Rc::new(Session::new(false, false));
    let (_, tree) = collect_tree(&*session, &*session).expect("the first reading");
    let mut state = PanesState::new(tree);
    let mut pending = pending(Dirty::new(session.clone()));
    let port = LostFirst::default();
    let mut removals = Removals::new(&port);
    for worktree in &state.tree.repos[0].worktrees[1..=2] {
        let removal = Removal::sweeping("/src/app", worktree);
        removals.remove(&Recorder::default(), &removal).unwrap();
    }
    until("both reported", || removals.reported() == 2);
    drain_finished(
        &mut state,
        &mut pending,
        &mut removals,
        &*session,
        &*session,
    );

    let line = state.message.as_deref()
        .expect("the ending nobody could read is said");
    assert_eq!(
        line,
        "the removal of feat/login ended without saying what happened; the list has \
         been read again since",
        "the one that worked says nothing, and the list is settled once, last"
    );
}

#[test]
fn tests_one_ending_nobody_could_read_among_reports_that_worked_is_settled_once() {
    let session = Rc::new(Session::new(false, false));
    let (_, tree) = collect_tree(&*session, &*session).expect("the first reading");
    let mut state = PanesState::new(tree);
    let mut pending = pending(Dirty::new(session.clone()));
    let port = LostFirst::default();
    let mut removals = Removals::new(&port);
    for worktree in &state.tree.repos[0].worktrees[1..=2] {
        let removal = Removal::sweeping("/src/app", worktree);
        removals.remove(&Recorder::default(), &removal).unwrap();
    }
    until("both reported", || removals.reported() == 2);
    drain_finished(
        &mut state,
        &mut pending,
        &mut removals,
        &*session,
        &*session,
    );

    let line = state.message.as_deref()
        .expect("the ending nobody could read is said");
    assert_eq!(
        line,
        "the removal of feat/login ended without saying what happened; the list has \
         been read again since",
        "the one that worked says nothing, and the list is settled once, last"
    );
}

#[test]
fn panes_a_refused_removal_stops_its_row_spinning_when_it_reports() {
    let session = Rc::new(Session::new(false, false));
    let (mut state, mut pending) = sweep_asked(&session);
    let port = Reports(RemovalOutcome::Refused("fatal: refused".into()));
    let mut removals = Removals::new(&port);
    let Action::RemoveWorktrees(sweep) = state.handle_key(key('y')) else {
        panic!("`y` is the answer that goes ahead");
    };
    start_sweep(&mut state, &mut removals, &Recorder::default(), &sweep);
    assert!(is_removing(&state));
    until("both reported", || {
        drain_finished(
            &mut state,
            &mut pending,
            &mut removals,
            &*session,
            &*session,
        );
        removals.is_empty()
    });

    assert!(
        !is_removing(&state),
        "a refused row is an ordinary row again: {:?}",
        state.message.as_deref()
    );
}

#[test]
fn tests_a_refused_removal_stops_its_row_spinning_when_it_reports() {
    let session = Rc::new(Session::new(false, false));
    let (mut state, mut pending) = sweep_asked(&session);
    let port = Reports(RemovalOutcome::Refused("fatal: refused".into()));
    let mut removals = Removals::new(&port);
    let Action::RemoveWorktrees(sweep) = state.handle_key(key('y')) else {
        panic!("`y` is the answer that goes ahead");
    };
    start_sweep(&mut state, &mut removals, &Recorder::default(), &sweep);
    assert!(is_removing(&state));
    until("both reported", || {
        drain_finished(
            &mut state,
            &mut pending,
            &mut removals,
            &*session,
            &*session,
        );
        removals.is_empty()
    });

    assert!(
        !is_removing(&state),
        "a refused row is an ordinary row again: {:?}",
        state.message.as_deref()
    );
}

#[test]
fn the_picker_opens_on_the_pane_it_was_called_from() {
    let options = |pane: Option<&str>| panes::Options {
        initial_pane: pane.map(str::to_string),
        show_worktrees_without_panes: false,
        config_complaint: Some("plugin config.toml: unknown field `pane`".to_string()),
    };
    let removals = removals::Removals::new();
    let state = panes::open(two_pane_tree(), options(Some(SECOND_PANE)), &removals);
    assert_eq!(state.selected_pane.as_deref(), Some(SECOND_PANE));
    assert_eq!(state.selected.as_deref(), Some(FEAT_LOGIN));
    assert!(!state.show_worktrees_without_panes);
    assert_eq!(
        state.message.as_deref(),
        Some("plugin config.toml: unknown field `pane`")
    );

    let state = panes::open(two_pane_tree(), options(Some("w9:p9")), &removals);
    assert_eq!((state.selected_pane, state.selected.as_deref()), (None, Some(FEAT_LOGIN)));
}

#[test]
fn a_question_that_does_not_fit_the_pane_is_taken_back() {
    let mut state = PanesState::new(one_pane_tree());
    state.asked = Some(Asked::Removal(only_removal(&state)));
    panes::take_back(&mut state);
    assert!(pending_removal(&state).is_none());
    assert_eq!(
        state.message.as_deref(),
        Some("this pane is too small to ask that safely")
    );
}

#[test]
fn going_somewhere_closes_the_picker_or_comes_out_as_herdr_said() {
    let jump = || panes::perform(Action::Jump(FIRST_PANE.to_string()), true);
    assert!(matches!(panes::performed_exit(&jump(), Ok(())), Ok(Exit::Closed)));
    match panes::performed_exit(&jump(), Err("no such pane".to_string())) {
        Err(words) => assert_eq!(words, "no such pane"),
        Ok(_) => panic!("herdr refused"),
    }
    let other = panes::perform(
        Action::ShowBranches { repo_root: Some("/src/app".to_string()) },
        true,
    );
    match panes::performed_exit(&other, Ok(())) {
        Ok(Exit::ShowBranches { repo_root, show_worktrees_without_panes }) => {
            assert_eq!(repo_root.as_deref(), Some("/src/app"));
            assert!(show_worktrees_without_panes);
        }
        _ => panic!("nothing was asked of herdr"),
    }
}

#[test]
fn every_removal_of_a_sweep_is_tried_whatever_came_of_the_others() {
    let removal = |path: &str| Removal {
        repo_root: "/src/app".to_string(),
        checkout_path: path.to_string(),
        label: path.to_string(),
        panes: Vec::new(),
        delete_branch: true,
    };
    let sweep = vec![removal("/wt/a"), removal("/wt/b"), removal("/wt/c")];
    let running = removals::Removals::new();
    let nowhere = panes::Options {
        initial_pane: None,
        show_worktrees_without_panes: true,
        config_complaint: None,
    };
    let mut state = panes::open(two_pane_tree(), nowhere, &running);
    let mut outcomes = Vec::new();
    let mut tried = Vec::new();
    while let Some(next) = panes::start_sweep(&mut state, &running, &sweep, &outcomes) {
        outcomes.push(match next.checkout_path.as_str() {
            "/wt/b" => None,
            path => Some(format!("{path} would not start")),
        });
        tried.push(next.checkout_path);
    }
    assert_eq!(tried, ["/wt/a", "/wt/b", "/wt/c"]);
    assert_eq!(
        state.message.as_deref(),
        Some("/wt/a would not start; /wt/c would not start")
    );
}
