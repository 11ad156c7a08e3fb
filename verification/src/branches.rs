//! What the branches picker knows of each repository, and what it does to get onto a branch.

use vstd::prelude::*;

use crate::model;
use crate::model::{
    find_pane, name_of_path, normalize_path, Branch, BranchView, Refs, RefsView, RepoNode,
    RepoNodeView, WorktreeNode, WorktreeNodeView,
};
use crate::ordered::OrderedMap;
use crate::port::{
    GitRef, GitRefView, PaneDestination, PaneDestinationView, PaneView, PullRequest,
    PullRequestView, RefKind, Snapshot, SplitDirection, WorktreeCreate, WorktreeCreateView,
    WorktreeOpen, WorktreeOpenView,
};
use crate::shapes;
use crate::text;
use crate::text::{copied, copies, same};

verus! {

/// How the picker ends.
#[derive(Debug, Clone, Copy, PartialEq, Eq, Structural)]
pub enum Exit {
    Closed,
    ShowPanes,
}

// ---------------------------------------------------------------- what is known remotely

/// What is known of the remote of a repository.
#[derive(Debug, Clone, PartialEq, Eq)]
pub struct Remote {
    pub heads: Vec<String>,
    pub pull_requests: Vec<PullRequest>,
    /// Whether the remote is still being asked.
    pub loading: bool,
}

#[verifier::ext_equal]
pub struct RemoteView {
    pub heads: Seq<Seq<char>>,
    pub pull_requests: Seq<PullRequestView>,
    pub loading: bool,
}

impl View for Remote {
    type V = RemoteView;

    open spec fn view(&self) -> RemoteView {
        RemoteView {
            heads: text::texts(self.heads@),
            pull_requests: shapes::views(self.pull_requests@),
            loading: self.loading,
        }
    }
}

/// An answer about the remote of a repository.
pub enum Answer {
    /// The branches that it has.
    Heads(Vec<String>),
    /// It could not be asked.
    Unavailable,
    PullRequests(Vec<PullRequest>),
    /// It was fetched: what was known of it is out of date.
    Refetched,
}

/// What is known of a remote that is only now asked.
pub open spec fn starting() -> RemoteView {
    RemoteView { heads: seq![], pull_requests: seq![], loading: true }
}

/// What is known of a remote after an answer about it.
pub open spec fn answered(remote: RemoteView, answer: Answer) -> RemoteView {
    match answer {
        Answer::Heads(heads) => RemoteView {
            heads: text::texts(heads@),
            loading: false,
            ..remote
        },
        Answer::Unavailable => RemoteView { loading: false, ..remote },
        Answer::PullRequests(list) => RemoteView { pull_requests: shapes::views(list@), ..remote },
        Answer::Refetched => remote,
    }
}

/// What is known of the remotes after an answer about one of them: one that was asked is known
/// better, and one that was fetched is forgotten.
pub open spec fn kept(
    listings: Map<Seq<char>, RemoteView>,
    repo_root: Seq<char>,
    answer: Answer,
) -> Map<Seq<char>, RemoteView> {
    if answer is Refetched {
        listings.remove(repo_root)
    } else if listings.contains_key(repo_root) {
        listings.insert(repo_root, answered(listings[repo_root], answer))
    } else {
        listings
    }
}

/// What is known of a remote after an answer about it, where that is known better.
pub open spec fn known(
    listings: Map<Seq<char>, RemoteView>,
    repo_root: Seq<char>,
    answer: Answer,
) -> Option<RemoteView> {
    if !(answer is Refetched) && listings.contains_key(repo_root) {
        Some(answered(listings[repo_root], answer))
    } else {
        None
    }
}

/// An answer about a repository that nobody asked about changes nothing.
pub proof fn law_unasked_answer_changes_nothing(
    listings: Map<Seq<char>, RemoteView>,
    repo_root: Seq<char>,
    answer: Answer,
)
    requires
        !listings.contains_key(repo_root),
    ensures
        kept(listings, repo_root, answer) == listings,
        known(listings, repo_root, answer) is None,
{
    assert(kept(listings, repo_root, answer) =~= listings);
}

fn copied_pull_requests(list: &Vec<PullRequest>) -> (out: Vec<PullRequest>)
    ensures
        shapes::views(out@) == shapes::views(list@),
{
    let ghost all = shapes::views(list@);
    let mut out: Vec<PullRequest> = Vec::new();
    let mut i: usize = 0;
    while i < list.len()
        invariant
            i <= list@.len(),
            all == shapes::views(list@),
            shapes::views(out@) == all.take(i as int),
        decreases list@.len() - i,
    {
        let one = PullRequest {
            number: list[i].number,
            title: list[i].title.clone(),
            head_ref: list[i].head_ref.clone(),
            is_draft: list[i].is_draft,
        };
        proof {
            shapes::lemma_views_push(out@, one);
            assert(all.take(i + 1) =~= all.take(i as int).push(one@));
        }
        out.push(one);
        i = i + 1;
    }
    assert(all.take(i as int) =~= all);
    out
}

impl Remote {
    /// A remote that is only now asked.
    pub fn starting() -> (remote: Remote)
        ensures
            remote@ == starting(),
    {
        let remote = Remote { heads: Vec::new(), pull_requests: Vec::new(), loading: true };
        assert(remote@ =~= starting());
        remote
    }

    fn copy(&self) -> (remote: Remote)
        ensures
            remote@ == self@,
    {
        Remote {
            heads: copies(&self.heads),
            pull_requests: copied_pull_requests(&self.pull_requests),
            loading: self.loading,
        }
    }

    fn after(&self, answer: Answer) -> (remote: Remote)
        ensures
            remote@ == answered(self@, answer),
    {
        match answer {
            Answer::Heads(heads) => Remote {
                heads,
                pull_requests: copied_pull_requests(&self.pull_requests),
                loading: false,
            },
            Answer::Unavailable => Remote {
                heads: copies(&self.heads),
                pull_requests: copied_pull_requests(&self.pull_requests),
                loading: false,
            },
            Answer::PullRequests(list) => Remote {
                heads: copies(&self.heads),
                pull_requests: list,
                loading: self.loading,
            },
            Answer::Refetched => self.copy(),
        }
    }
}

/// What is known of the remotes of the repositories. It outlives the picker.
pub type Listings = OrderedMap<Remote>;

/// Takes in an answer about the remote of a repository, where that was asked. Gives what is known
/// of it then.
pub fn apply(listings: &mut Listings, repo_root: &str, answer: Answer) -> (remote: Option<Remote>)
    ensures
        shapes::map_views(final(listings)@) == kept(
            shapes::map_views(old(listings)@),
            repo_root@,
            answer,
        ),
        shapes::opt(remote) == known(shapes::map_views(old(listings)@), repo_root@, answer),
{
    match answer {
        Answer::Refetched => {
            proof {
                shapes::lemma_map_views_remove(listings@, repo_root@);
            }
            listings.remove(repo_root);
            return None;
        },
        _ => {},
    }
    let remote = match listings.get(repo_root) {
        Some(remote) => remote.after(answer),
        None => {
            return None;
        },
    };
    let copy = remote.copy();
    proof {
        shapes::lemma_map_views_insert(listings@, repo_root@, remote);
    }
    listings.insert(repo_root.to_owned(), remote);
    Some(copy)
}

// ---------------------------------------------------------------- what is shown

/// What the picker shows of a repository.
#[derive(Debug, PartialEq, Eq)]
pub struct BranchData {
    pub local_refs: Vec<GitRef>,
    pub remote_heads: Vec<String>,
    pub pull_requests: Vec<PullRequest>,
    /// Whether the remote is still being asked.
    pub loading: bool,
    /// Whether it is being fetched.
    pub fetching: bool,
}

#[verifier::ext_equal]
pub struct BranchDataView {
    pub local_refs: Seq<GitRefView>,
    pub remote_heads: Seq<Seq<char>>,
    pub pull_requests: Seq<PullRequestView>,
    pub loading: bool,
    pub fetching: bool,
}

impl View for BranchData {
    type V = BranchDataView;

    open spec fn view(&self) -> BranchDataView {
        BranchDataView {
            local_refs: shapes::views(self.local_refs@),
            remote_heads: text::texts(self.remote_heads@),
            pull_requests: shapes::views(self.pull_requests@),
            loading: self.loading,
            fetching: self.fetching,
        }
    }
}

/// What is shown of a repository with these refs, whose remote is known like this.
pub open spec fn shown_of(local_refs: Seq<GitRefView>, remote: RemoteView) -> BranchDataView {
    BranchDataView {
        local_refs,
        remote_heads: remote.heads,
        pull_requests: remote.pull_requests,
        loading: remote.loading,
        fetching: false,
    }
}

/// What is shown of a repository.
pub fn shown(local_refs: Vec<GitRef>, remote: Remote) -> (data: BranchData)
    ensures
        data@ == shown_of(shapes::views(local_refs@), remote@),
{
    BranchData {
        local_refs,
        remote_heads: remote.heads,
        pull_requests: remote.pull_requests,
        loading: remote.loading,
        fetching: false,
    }
}

/// Whether the remote of a repository has to be asked: nothing is known of it, or an answer that was
/// to come never did.
pub open spec fn has_to_ask(listings: Map<Seq<char>, RemoteView>, repo_root: Seq<char>) -> bool {
    !listings.contains_key(repo_root) || listings[repo_root].loading
}

/// What is known of the remotes once a repository is read.
pub open spec fn listings_read(
    listings: Map<Seq<char>, RemoteView>,
    repo_root: Seq<char>,
) -> Map<Seq<char>, RemoteView> {
    if has_to_ask(listings, repo_root) {
        listings.insert(repo_root, starting())
    } else {
        listings
    }
}

/// What is shown of a repository that is read.
pub open spec fn data_read(
    listings: Map<Seq<char>, RemoteView>,
    repo_root: Seq<char>,
    local_refs: Seq<GitRefView>,
) -> BranchDataView {
    shown_of(local_refs, listings_read(listings, repo_root)[repo_root])
}

/// A repository that was fetched has its remote asked again when it is read.
pub proof fn law_fetched_is_asked_again(
    listings: Map<Seq<char>, RemoteView>,
    repo_root: Seq<char>,
)
    ensures
        has_to_ask(kept(listings, repo_root, Answer::Refetched), repo_root),
{
}

/// A remote that answered is not asked again, however often its repository is read.
pub proof fn law_answered_is_not_asked_again(
    listings: Map<Seq<char>, RemoteView>,
    repo_root: Seq<char>,
    heads: Vec<String>,
)
    requires
        listings.contains_key(repo_root),
    ensures
        !has_to_ask(kept(listings, repo_root, Answer::Heads(heads)), repo_root),
        !has_to_ask(kept(listings, repo_root, Answer::Unavailable), repo_root),
{
}

/// What is shown of a repository that is read now, and whether its remote has to be asked.
pub fn read(listings: &mut Listings, repo_root: &str, local_refs: Vec<GitRef>) -> (result: (
    BranchData,
    bool,
))
    ensures
        result.0@ == data_read(
            shapes::map_views(old(listings)@),
            repo_root@,
            shapes::views(local_refs@),
        ),
        result.1 == has_to_ask(shapes::map_views(old(listings)@), repo_root@),
        shapes::map_views(final(listings)@) == listings_read(
            shapes::map_views(old(listings)@),
            repo_root@,
        ),
{
    match listings.get(repo_root) {
        Some(remote) => {
            if !remote.loading {
                let remote = remote.copy();
                return (shown(local_refs, remote), false);
            }
        },
        None => {},
    }
    let waiting = Remote::starting();
    proof {
        shapes::lemma_map_views_insert(listings@, repo_root@, waiting);
    }
    listings.insert(repo_root.to_owned(), waiting);
    (shown(local_refs, Remote::starting()), true)
}

/// What is shown of a repository of which nothing is known.
pub open spec fn no_data() -> BranchDataView {
    BranchDataView {
        local_refs: seq![],
        remote_heads: seq![],
        pull_requests: seq![],
        loading: false,
        fetching: false,
    }
}

fn copied_refs(list: &Vec<GitRef>) -> (out: Vec<GitRef>)
    ensures
        shapes::views(out@) == shapes::views(list@),
{
    let ghost all = shapes::views(list@);
    let mut out: Vec<GitRef> = Vec::new();
    let mut i: usize = 0;
    while i < list.len()
        invariant
            i <= list@.len(),
            all == shapes::views(list@),
            shapes::views(out@) == all.take(i as int),
        decreases list@.len() - i,
    {
        let one = GitRef {
            name: list[i].name.clone(),
            kind: list[i].kind,
            committed_at: list[i].committed_at,
            subject: copied(&list[i].subject),
            upstream: copied(&list[i].upstream),
            track: list[i].track,
            worktree_path: copied(&list[i].worktree_path),
        };
        proof {
            shapes::lemma_views_push(out@, one);
            assert(all.take(i + 1) =~= all.take(i as int).push(one@));
        }
        out.push(one);
        i = i + 1;
    }
    assert(all.take(i as int) =~= all);
    out
}

impl BranchData {
    /// Another of the same.
    pub fn copy(&self) -> (data: BranchData)
        ensures
            data@ == self@,
    {
        BranchData {
            local_refs: copied_refs(&self.local_refs),
            remote_heads: copies(&self.remote_heads),
            pull_requests: copied_pull_requests(&self.pull_requests),
            loading: self.loading,
            fetching: self.fetching,
        }
    }

    /// What is shown of a repository of which nothing is known.
    pub fn empty() -> (data: BranchData)
        ensures
            data@ == no_data(),
    {
        let data = BranchData {
            local_refs: Vec::new(),
            remote_heads: Vec::new(),
            pull_requests: Vec::new(),
            loading: false,
            fetching: false,
        };
        assert(data@.local_refs =~= seq![]);
        assert(data@.remote_heads =~= seq![]);
        assert(data@.pull_requests =~= seq![]);
        data
    }

    /// Shows what is known of the remote now.
    pub fn set_remote(&mut self, remote: Remote)
        ensures
            final(self)@ == (BranchDataView {
                remote_heads: remote@.heads,
                pull_requests: remote@.pull_requests,
                loading: remote@.loading,
                ..old(self)@
            }),
    {
        self.remote_heads = remote.heads;
        self.pull_requests = remote.pull_requests;
        self.loading = remote.loading;
    }

    /// Starts a fetch, unless one is running. Gives whether it did.
    pub fn start_fetch(&mut self) -> (started: bool)
        ensures
            started == !old(self)@.fetching,
            final(self)@ == (BranchDataView { fetching: true, ..old(self)@ }),
    {
        let started = !self.fetching;
        self.fetching = true;
        started
    }

    /// Ends a fetch that failed.
    pub fn end_fetch(&mut self)
        ensures
            final(self)@ == (BranchDataView { fetching: false, ..old(self)@ }),
    {
        self.fetching = false;
    }
}

// ---------------------------------------------------------------- updates

/// What the picker is doing to get onto a branch.
#[derive(Debug, Clone, PartialEq, Eq)]
pub enum Stage {
    Starting { branch: String },
    Fetching { remote: String, branch: String },
    Creating { branch: String },
    Opening { branch: String },
    /// The pane goes there, or stays in the space that it was opened in.
    Landing { destination: Option<PaneDestination> },
}

/// Something that arrived behind the picker.
pub enum Update {
    RemoteHeads { repo_root: String, heads: Vec<String> },
    RemoteUnavailable { repo_root: String },
    PullRequests { repo_root: String, pull_requests: Vec<PullRequest> },
    Fetched { repo_root: String, result: Result<(), String> },
    Working(Stage),
    Done(Result<(), String>),
}

/// The repository that an update is about.
pub open spec fn root_of(update: Update) -> Option<Seq<char>> {
    match update {
        Update::RemoteHeads { repo_root, .. } => Some(repo_root@),
        Update::RemoteUnavailable { repo_root } => Some(repo_root@),
        Update::PullRequests { repo_root, .. } => Some(repo_root@),
        Update::Fetched { repo_root, .. } => Some(repo_root@),
        Update::Working(_) => None,
        Update::Done(_) => None,
    }
}

impl Update {
    /// The repository that the update is about.
    pub fn repo_root(&self) -> (root: Option<&str>)
        ensures
            match root {
                Some(path) => root_of(*self) == Some(path@),
                None => root_of(*self) is None,
            },
    {
        match self {
            Update::RemoteHeads { repo_root, .. } => Some(repo_root.as_str()),
            Update::RemoteUnavailable { repo_root } => Some(repo_root.as_str()),
            Update::PullRequests { repo_root, .. } => Some(repo_root.as_str()),
            Update::Fetched { repo_root, .. } => Some(repo_root.as_str()),
            Update::Working(_) => None,
            Update::Done(_) => None,
        }
    }
}

/// The answer about a remote that an update carries. A fetch that failed carries none, and neither
/// does what is about no repository.
pub fn answer(update: Update) -> (answer: Option<Answer>)
    ensures
        answer == match update {
            Update::RemoteHeads { heads, .. } => Some(Answer::Heads(heads)),
            Update::RemoteUnavailable { .. } => Some(Answer::Unavailable),
            Update::PullRequests { pull_requests, .. } => Some(Answer::PullRequests(pull_requests)),
            Update::Fetched { result: Ok(_), .. } => Some(Answer::Refetched),
            _ => None,
        },
{
    match update {
        Update::RemoteHeads { heads, .. } => Some(Answer::Heads(heads)),
        Update::RemoteUnavailable { .. } => Some(Answer::Unavailable),
        Update::PullRequests { pull_requests, .. } => Some(Answer::PullRequests(pull_requests)),
        Update::Fetched { result: Ok(_), .. } => Some(Answer::Refetched),
        _ => None,
    }
}

// ---------------------------------------------------------------- repositories

/// A repository of which only the root is known.
pub open spec fn bare_repo(repo_root: Seq<char>) -> RepoNodeView {
    let root = model::normal_path(repo_root);
    RepoNodeView {
        repo_key: seq![],
        repo_root: root,
        display_name: model::path_name(root),
        refs: RefsView::Read,
        worktrees: seq![],
    }
}

/// A repository of which only the root is known: called by the last component of that.
pub fn bare(repo_root: &str) -> (repo: RepoNode)
    ensures
        repo@ == bare_repo(repo_root@),
{
    let root = normalize_path(repo_root);
    let display_name = name_of_path(root.as_str());
    let repo = RepoNode {
        repo_key: String::new(),
        repo_root: root,
        display_name,
        refs: Refs::Read,
        worktrees: Vec::new(),
    };
    assert(repo@.worktrees =~= seq![]);
    assert(repo@.repo_key =~= seq![]);
    repo
}

/// Whether a path is the root of a repository or one of its checkouts.
pub open spec fn is_of(repo: RepoNodeView, path: Seq<char>) -> bool {
    repo.repo_root == path || exists|i: int|
        0 <= i < repo.worktrees.len() && (#[trigger] repo.worktrees[i]).checkout_path == path
}

fn holds_path(repo: &RepoNode, path: &str) -> (holds: bool)
    ensures
        holds == is_of(repo@, path@),
{
    if same(repo.repo_root.as_str(), path) {
        return true;
    }
    let ghost worktrees = repo@.worktrees;
    let mut i: usize = 0;
    while i < repo.worktrees.len()
        invariant
            i <= repo.worktrees@.len(),
            worktrees == repo@.worktrees,
            forall|j: int| 0 <= j < i ==> (#[trigger] worktrees[j]).checkout_path != path@,
        decreases repo.worktrees@.len() - i,
    {
        assert(worktrees[i as int] == repo.worktrees@[i as int]@);
        if same(repo.worktrees[i].checkout_path.as_str(), path) {
            return true;
        }
        i = i + 1;
    }
    false
}

/// The first repository that a path is of.
pub open spec fn located(repos: Seq<RepoNodeView>, path: Seq<char>) -> int
    decreases repos.len(),
{
    if repos.len() == 0 {
        0
    } else if is_of(repos[0], path) {
        0
    } else {
        1 + located(repos.skip(1), path)
    }
}

/// The first repository that a path is of.
pub fn locate(repos: &Vec<RepoNode>, path: &str) -> (at: Option<usize>)
    ensures
        match at {
            Some(i) => i < repos@.len() && i == located(
                shapes::views(repos@),
                model::normal_path(path@),
            ),
            None => located(shapes::views(repos@), model::normal_path(path@)) == repos@.len(),
        },
{
    let wanted = normalize_path(path);
    let ghost all = shapes::views(repos@);
    assert(all.skip(0) =~= all);
    let mut i: usize = 0;
    while i < repos.len()
        invariant
            i <= repos@.len(),
            all == shapes::views(repos@),
            wanted@ == model::normal_path(path@),
            located(all, wanted@) == i + located(all.skip(i as int), wanted@),
        decreases repos@.len() - i,
    {
        assert(all.skip(i as int)[0] == repos@[i as int]@);
        assert(all.skip(i as int).skip(1) =~= all.skip(i + 1));
        if holds_path(&repos[i], wanted.as_str()) {
            return Some(i);
        }
        i = i + 1;
    }
    None
}

/// What the picker starts from: the repositories to choose from, and where it was called from.
pub struct Start {
    pub repos: Vec<RepoNode>,
    pub from: Option<String>,
}

/// Where the picker was called from: the checkout of the calling pane, or else the repository.
pub open spec fn called_from(
    repos: Seq<RepoNodeView>,
    pane: Option<Seq<char>>,
    repo_root: Option<Seq<char>>,
) -> Option<Seq<char>> {
    match pane {
        Some(pane_id) => match model::pane_checkout(repos, pane_id) {
            Some(path) => Some(path),
            None => repo_root,
        },
        None => repo_root,
    }
}

/// The repositories to choose from: those of the tree, and the one that the picker was called from
/// where the tree has it not.
pub open spec fn choices(
    repos: Seq<RepoNodeView>,
    from: Option<Seq<char>>,
    repo_root: Option<Seq<char>>,
) -> Seq<RepoNodeView> {
    let known = match from {
        Some(path) => located(repos, model::normal_path(path)) < repos.len(),
        None => false,
    };
    match repo_root {
        Some(root) => if known {
            repos
        } else {
            repos.push(bare_repo(root))
        },
        None => repos,
    }
}

/// What the picker starts from; nothing where there is no repository to choose.
pub fn start(repos: Vec<RepoNode>, pane: &Option<String>, repo_root: &Option<String>) -> (start:
    Option<Start>)
    ensures
        ({
            let from = called_from(
                shapes::views(repos@),
                shapes::opt(*pane),
                shapes::opt(*repo_root),
            );
            let shown = choices(shapes::views(repos@), from, shapes::opt(*repo_root));
            match start {
                Some(start) => shown.len() > 0 && shapes::views(start.repos@) == shown
                    && shapes::opt(start.from) == from,
                None => shown.len() == 0,
            }
        }),
{
    let ghost all = shapes::views(repos@);
    let found = match pane {
        Some(pane_id) => find_pane(&repos, pane_id.as_str()),
        None => None,
    };
    let from = match found {
        Some(path) => Some(path),
        None => copied(repo_root),
    };
    let known = match &from {
        Some(path) => locate(&repos, path.as_str()).is_some(),
        None => false,
    };
    let mut repos = repos;
    if !known {
        if let Some(root) = repo_root {
            let node = bare(root.as_str());
            proof {
                shapes::lemma_views_push(repos@, node);
            }
            repos.push(node);
        }
    }
    if repos.len() == 0 {
        return None;
    }
    Some(Start { repos, from })
}

/// What a key of the picker comes to.
pub enum BranchAction {
    Consumed,
    Ignored,
    Quit,
    ShowPanes,
    Jump { pane_id: String },
    LoadRepo { repo_root: String },
    Fetch { repo_root: String },
}

/// What an action that ends the picker comes to: an end, and a pane to go to before it.
pub fn perform(action: BranchAction) -> (end: (Exit, Option<String>))
    ensures
        match action {
            BranchAction::ShowPanes => end == (Exit::ShowPanes, None::<String>),
            BranchAction::Jump { pane_id } => end == (Exit::Closed, Some(pane_id)),
            _ => end == (Exit::Closed, None::<String>),
        },
{
    match action {
        BranchAction::ShowPanes => (Exit::ShowPanes, None),
        BranchAction::Jump { pane_id } => (Exit::Closed, Some(pane_id)),
        _ => (Exit::Closed, None),
    }
}

// ---------------------------------------------------------------- getting onto a branch

/// What a branch already is.
#[derive(Debug, Clone, PartialEq, Eq)]
pub enum Standing {
    /// Open in a pane.
    Running { pane_id: String },
    /// Checked out, with nothing running in it.
    CheckedOut { checkout_path: String },
    /// A branch of this repository.
    Local,
    /// Only on the remote, but fetched.
    Fetched,
    /// Only on the remote, and never fetched.
    RemoteOnly,
    /// Nothing at all.
    New,
}

/// A branch, and what it already is.
#[derive(Debug, Clone, PartialEq, Eq)]
pub struct BranchEntry {
    pub name: String,
    pub standing: Standing,
}

#[verifier::ext_equal]
pub enum StandingView {
    Running { pane_id: Seq<char> },
    CheckedOut { checkout_path: Seq<char> },
    Local,
    Fetched,
    RemoteOnly,
    New,
}

impl View for Standing {
    type V = StandingView;

    open spec fn view(&self) -> StandingView {
        match self {
            Standing::Running { pane_id } => StandingView::Running { pane_id: pane_id@ },
            Standing::CheckedOut { checkout_path } => StandingView::CheckedOut {
                checkout_path: checkout_path@,
            },
            Standing::Local => StandingView::Local,
            Standing::Fetched => StandingView::Fetched,
            Standing::RemoteOnly => StandingView::RemoteOnly,
            Standing::New => StandingView::New,
        }
    }
}

impl View for BranchEntry {
    type V = (Seq<char>, StandingView);

    open spec fn view(&self) -> (Seq<char>, StandingView) {
        (self.name@, self.standing@)
    }
}

/// What a branch of a repository already is, by the first checkout that has it out.
pub open spec fn local_standing(worktrees: Seq<WorktreeNodeView>, name: Seq<char>) -> StandingView
    decreases worktrees.len(),
{
    if worktrees.len() == 0 {
        StandingView::Local
    } else if worktrees[0].branch == BranchView::Out(name) {
        if worktrees[0].panes.len() > 0 {
            StandingView::Running { pane_id: worktrees[0].panes[0].pane_id }
        } else {
            StandingView::CheckedOut { checkout_path: worktrees[0].checkout_path }
        }
    } else {
        local_standing(worktrees.skip(1), name)
    }
}

fn standing_of(worktrees: &Vec<WorktreeNode>, name: &str) -> (standing: Standing)
    ensures
        standing@ == local_standing(shapes::views(worktrees@), name@),
{
    let ghost all = shapes::views(worktrees@);
    assert(all.skip(0) =~= all);
    let mut i: usize = 0;
    while i < worktrees.len()
        invariant
            i <= worktrees@.len(),
            all == shapes::views(worktrees@),
            local_standing(all, name@) == local_standing(all.skip(i as int), name@),
        decreases worktrees@.len() - i,
    {
        let worktree = &worktrees[i];
        assert(all.skip(i as int)[0] == worktree@);
        assert(all.skip(i as int).skip(1) =~= all.skip(i + 1));
        let out = match &worktree.branch {
            Branch::Out(branch) => same(branch.as_str(), name),
            _ => false,
        };
        if out {
            if worktree.panes.len() > 0 {
                assert(worktree@.panes[0] == worktree.panes@[0]@);
                return Standing::Running { pane_id: worktree.panes[0].pane_id.clone() };
            }
            return Standing::CheckedOut { checkout_path: worktree.checkout_path.clone() };
        }
        i = i + 1;
    }
    Standing::Local
}

/// Whether a ref of this kind and name is among the refs.
pub open spec fn has_ref(refs: Seq<GitRefView>, kind: RefKind, name: Seq<char>) -> bool {
    exists|i: int| 0 <= i < refs.len() && is_ref(#[trigger] refs[i], kind, name)
}

/// Whether a ref has this kind and name.
pub open spec fn is_ref(found: GitRefView, kind: RefKind, name: Seq<char>) -> bool {
    found.kind == kind && found.name == name
}

fn finds_ref(refs: &Vec<GitRef>, kind: RefKind, name: &str) -> (has: bool)
    ensures
        has == has_ref(shapes::views(refs@), kind, name@),
{
    let ghost all = shapes::views(refs@);
    let mut i: usize = 0;
    while i < refs.len()
        invariant
            i <= refs@.len(),
            all == shapes::views(refs@),
            forall|j: int| 0 <= j < i ==> !is_ref(#[trigger] all[j], kind, name@),
        decreases refs@.len() - i,
    {
        assert(all[i as int] == refs@[i as int]@);
        if refs[i].kind == kind && same(refs[i].name.as_str(), name) {
            return true;
        }
        i = i + 1;
    }
    false
}

/// The branches of the repository itself, in the order of its refs.
pub open spec fn local_entries(refs: Seq<GitRefView>, worktrees: Seq<WorktreeNodeView>) -> Seq<
    (Seq<char>, StandingView),
>
    decreases refs.len(),
{
    if refs.len() == 0 {
        seq![]
    } else {
        let before = local_entries(refs.drop_last(), worktrees);
        if refs.last().kind == RefKind::Local {
            before.push((refs.last().name, local_standing(worktrees, refs.last().name)))
        } else {
            before
        }
    }
}

/// The branches that only the remote has, in its order.
pub open spec fn remote_entries(heads: Seq<Seq<char>>, refs: Seq<GitRefView>) -> Seq<
    (Seq<char>, StandingView),
>
    decreases heads.len(),
{
    if heads.len() == 0 {
        seq![]
    } else {
        let before = remote_entries(heads.drop_last(), refs);
        let name = heads.last();
        if has_ref(refs, RefKind::Local, name) {
            before
        } else if has_ref(refs, RefKind::Remote, name) {
            before.push((name, StandingView::Fetched))
        } else {
            before.push((name, StandingView::RemoteOnly))
        }
    }
}

/// A branch that the repository has itself is not listed a second time as one of its remote.
pub proof fn law_own_branch_is_listed_once(heads: Seq<Seq<char>>, refs: Seq<GitRefView>, i: int)
    requires
        0 <= i < remote_entries(heads, refs).len(),
    ensures
        !has_ref(refs, RefKind::Local, remote_entries(heads, refs)[i].0),
    decreases heads.len(),
{
    if i < remote_entries(heads.drop_last(), refs).len() {
        law_own_branch_is_listed_once(heads.drop_last(), refs, i);
    }
}

/// The branches to choose from: those of the repository, and then those that only its remote has.
pub fn entries(repo: &RepoNode, data: &BranchData) -> (list: Vec<BranchEntry>)
    ensures
        shapes::views(list@) == local_entries(data@.local_refs, repo@.worktrees) + remote_entries(
            data@.remote_heads,
            data@.local_refs,
        ),
{
    let ghost refs = data@.local_refs;
    let mut list: Vec<BranchEntry> = Vec::new();
    let mut i: usize = 0;
    assert(shapes::views(list@) =~= local_entries(refs.take(0), repo@.worktrees));
    while i < data.local_refs.len()
        invariant
            i <= data.local_refs@.len(),
            refs == data@.local_refs,
            shapes::views(list@) == local_entries(refs.take(i as int), repo@.worktrees),
        decreases data.local_refs@.len() - i,
    {
        let found = &data.local_refs[i];
        assert(refs.take(i + 1).drop_last() =~= refs.take(i as int));
        assert(refs.take(i + 1).last() == found@);
        if found.kind == RefKind::Local {
            let entry = BranchEntry {
                name: found.name.clone(),
                standing: standing_of(&repo.worktrees, found.name.as_str()),
            };
            proof {
                shapes::lemma_views_push(list@, entry);
            }
            list.push(entry);
        }
        i = i + 1;
    }
    assert(refs.take(i as int) =~= refs);
    let ghost own = shapes::views(list@);
    let ghost heads = data@.remote_heads;
    let mut k: usize = 0;
    assert(own + remote_entries(heads.take(0), refs) =~= own);
    while k < data.remote_heads.len()
        invariant
            k <= data.remote_heads@.len(),
            refs == data@.local_refs,
            heads == data@.remote_heads,
            shapes::views(list@) == own + remote_entries(heads.take(k as int), refs),
        decreases data.remote_heads@.len() - k,
    {
        let name = data.remote_heads[k].as_str();
        assert(heads.take(k + 1).drop_last() =~= heads.take(k as int));
        assert(heads.take(k + 1).last() == name@);
        let ghost so_far = remote_entries(heads.take(k as int), refs);
        if !finds_ref(&data.local_refs, RefKind::Local, name) {
            let standing = if finds_ref(&data.local_refs, RefKind::Remote, name) {
                Standing::Fetched
            } else {
                Standing::RemoteOnly
            };
            let entry = BranchEntry { name: name.to_owned(), standing };
            proof {
                shapes::lemma_views_push(list@, entry);
                assert((own + so_far).push(entry@) =~= own + so_far.push(entry@));
            }
            list.push(entry);
        }
        k = k + 1;
    }
    assert(heads.take(k as int) =~= heads);
    list
}

/// What gets onto a branch.
#[derive(Debug, Clone, PartialEq, Eq)]
pub enum BranchPlan {
    /// Go to the pane that it is open in.
    Focus { pane_id: String },
    /// Open its checkout.
    Open { checkout_path: String },
    /// Cut a worktree: from the branch itself, or from a base that makes it.
    Create { branch: String, base: Option<String> },
    /// Fetch it first, and then cut a worktree from what was fetched.
    FetchThenCreate { branch: String, base: String },
}

#[verifier::ext_equal]
pub enum BranchPlanView {
    Focus { pane_id: Seq<char> },
    Open { checkout_path: Seq<char> },
    Create { branch: Seq<char>, base: Option<Seq<char>> },
    FetchThenCreate { branch: Seq<char>, base: Seq<char> },
}

impl View for BranchPlan {
    type V = BranchPlanView;

    open spec fn view(&self) -> BranchPlanView {
        match self {
            BranchPlan::Focus { pane_id } => BranchPlanView::Focus { pane_id: pane_id@ },
            BranchPlan::Open { checkout_path } => BranchPlanView::Open {
                checkout_path: checkout_path@,
            },
            BranchPlan::Create { branch, base } => BranchPlanView::Create {
                branch: branch@,
                base: shapes::opt(*base),
            },
            BranchPlan::FetchThenCreate { branch, base } => BranchPlanView::FetchThenCreate {
                branch: branch@,
                base: base@,
            },
        }
    }
}

/// What gets onto a branch, by what it already is. A branch that is nothing yet is made from what
/// is checked out.
pub open spec fn planned(entry: BranchEntry, head: Seq<char>) -> BranchPlanView {
    match entry.standing {
        Standing::Running { pane_id } => BranchPlanView::Focus { pane_id: pane_id@ },
        Standing::CheckedOut { checkout_path } => BranchPlanView::Open {
            checkout_path: checkout_path@,
        },
        Standing::Local => BranchPlanView::Create { branch: entry.name@, base: None },
        Standing::Fetched => BranchPlanView::Create {
            branch: entry.name@,
            base: Some("origin/"@ + entry.name@),
        },
        Standing::RemoteOnly => BranchPlanView::FetchThenCreate {
            branch: entry.name@,
            base: "origin/"@ + entry.name@,
        },
        Standing::New => BranchPlanView::Create { branch: entry.name@, base: Some(head) },
    }
}

fn on_origin(name: &str) -> (full: String)
    ensures
        full@ == "origin/"@ + name@,
{
    let mut full = "origin/".to_owned();
    full.append(name);
    full
}

/// What gets onto a branch.
pub fn plan(entry: &BranchEntry, head: &str) -> (plan: BranchPlan)
    ensures
        plan@ == planned(*entry, head@),
{
    match &entry.standing {
        Standing::Running { pane_id } => BranchPlan::Focus { pane_id: pane_id.clone() },
        Standing::CheckedOut { checkout_path } => BranchPlan::Open {
            checkout_path: checkout_path.clone(),
        },
        Standing::Local => BranchPlan::Create { branch: entry.name.clone(), base: None },
        Standing::Fetched => BranchPlan::Create {
            branch: entry.name.clone(),
            base: Some(on_origin(entry.name.as_str())),
        },
        Standing::RemoteOnly => BranchPlan::FetchThenCreate {
            branch: entry.name.clone(),
            base: on_origin(entry.name.as_str()),
        },
        Standing::New => BranchPlan::Create {
            branch: entry.name.clone(),
            base: Some(head.to_owned()),
        },
    }
}

/// A branch that is checked out already never gets a second checkout.
pub proof fn law_no_second_checkout(entry: BranchEntry, head: Seq<char>)
    requires
        entry.standing is Running || entry.standing is CheckedOut,
    ensures
        !(planned(entry, head) is Create),
        !(planned(entry, head) is FetchThenCreate),
{
}

/// The place of the first pane of this id, or the number of panes.
pub open spec fn pane_place(panes: Seq<PaneView>, id: Seq<char>) -> int
    decreases panes.len(),
{
    if panes.len() == 0 || panes[0].pane_id == id {
        0
    } else {
        1 + pane_place(panes.skip(1), id)
    }
}

/// Where a pane goes that is to stand to the right of another; nowhere in particular where the
/// session has no such pane.
pub open spec fn right_of(panes: Seq<PaneView>, pane: Option<Seq<char>>) -> Option<
    PaneDestinationView,
> {
    match pane {
        Some(id) => {
            let at = pane_place(panes, id);
            if at < panes.len() {
                Some(
                    PaneDestinationView::Tab {
                        tab_id: panes[at].tab_id,
                        split: SplitDirection::Right,
                        target_pane_id: Some(id),
                    },
                )
            } else {
                None
            }
        },
        None => None,
    }
}

/// Where the pane of a branch goes that nobody chose a place for: to the right of the pane that the
/// picker was called from.
pub fn beside(snapshot: &Snapshot, pane: &Option<String>) -> (to: Option<PaneDestination>)
    ensures
        shapes::opt(to) == right_of(snapshot@.panes, shapes::opt(*pane)),
{
    let id = match pane {
        Some(id) => id,
        None => {
            return None;
        },
    };
    let ghost all = snapshot@.panes;
    let mut i: usize = 0;
    assert(all.skip(0) =~= all);
    while i < snapshot.panes.len()
        invariant
            i <= snapshot.panes@.len(),
            all == snapshot@.panes,
            *pane == Some(*id),
            pane_place(all, id@) == i + pane_place(all.skip(i as int), id@),
        decreases snapshot.panes@.len() - i,
    {
        let found = &snapshot.panes[i];
        assert(all.skip(i as int)[0] == all[i as int]);
        if same(found.pane_id.as_str(), id.as_str()) {
            return Some(
                PaneDestination::Tab {
                    tab_id: found.tab_id.clone(),
                    split: SplitDirection::Right,
                    target_pane_id: Some(id.clone()),
                },
            );
        }
        assert(all.skip(i as int).skip(1) =~= all.skip(i + 1));
        i = i + 1;
    }
    None
}

/// The pane of a checkout that herdr opened.
#[derive(Debug, Clone, PartialEq, Eq)]
pub struct Opened {
    pub pane_id: String,
    /// Whether it was open before it was asked for.
    pub already_open: bool,
}

/// What was answered so far on the way onto a branch.
pub struct Replies {
    /// What is checked out.
    pub head: Option<Result<String, String>>,
    pub fetched: Option<Result<(), String>>,
    /// The checkout that was opened or created.
    pub opened: Option<Result<Opened, String>>,
    /// Whether going to the pane, or moving it, went well.
    pub landed: Option<Result<(), String>>,
}

/// What comes next on the way onto a branch.
pub enum OpenStep {
    /// Ask what is checked out.
    AskHead,
    Fetch { branch: String },
    Open(WorktreeOpen),
    Create(WorktreeCreate),
    /// Go to this pane.
    Focus { pane_id: String },
    /// Move this pane where it was wanted, and go there with it where `focus` says so.
    Move { pane_id: String, destination: PaneDestination, focus: bool },
    Done,
    Failed(String),
}

#[verifier::ext_equal]
pub enum OpenStepView {
    AskHead,
    Fetch { branch: Seq<char> },
    Open(WorktreeOpenView),
    Create(WorktreeCreateView),
    Focus { pane_id: Seq<char> },
    Move { pane_id: Seq<char>, destination: PaneDestinationView, focus: bool },
    Done,
    Failed(Seq<char>),
}

impl View for OpenStep {
    type V = OpenStepView;

    open spec fn view(&self) -> OpenStepView {
        match self {
            OpenStep::AskHead => OpenStepView::AskHead,
            OpenStep::Fetch { branch } => OpenStepView::Fetch { branch: branch@ },
            OpenStep::Open(request) => OpenStepView::Open(request@),
            OpenStep::Create(request) => OpenStepView::Create(request@),
            OpenStep::Focus { pane_id } => OpenStepView::Focus { pane_id: pane_id@ },
            OpenStep::Move { pane_id, destination, focus } => OpenStepView::Move {
                pane_id: pane_id@,
                destination: destination@,
                focus: *focus,
            },
            OpenStep::Done => OpenStepView::Done,
            OpenStep::Failed(words) => OpenStepView::Failed(words@),
        }
    }
}

/// What an answer that only has to go well leads to.
pub open spec fn ended(reply: Option<Result<(), String>>, before: OpenStepView) -> OpenStepView {
    match reply {
        None => before,
        Some(Ok(_)) => OpenStepView::Done,
        Some(Err(words)) => OpenStepView::Failed(words@),
    }
}

/// What comes once the checkout is open in a pane: that is moved where it was wanted and gone to,
/// or only gone to where it is wanted in the space that it was opened in.
pub open spec fn landing(
    replies: Replies,
    to: Option<PaneDestinationView>,
    pane_id: Seq<char>,
) -> OpenStepView {
    ended(
        replies.landed,
        match to {
            Some(destination) => OpenStepView::Move { pane_id, destination, focus: true },
            None => OpenStepView::Focus { pane_id },
        },
    )
}

/// The request for a new checkout.
pub open spec fn creation(repo_root: Seq<char>, branch: Seq<char>, base: Option<Seq<char>>) -> OpenStepView {
    OpenStepView::Create(
        WorktreeCreateView { cwd: repo_root, branch: Some(branch), base, focus: false },
    )
}

/// What comes once a new checkout was asked for.
pub open spec fn created(replies: Replies, to: Option<PaneDestinationView>, before: OpenStepView) -> OpenStepView {
    match replies.opened {
        None => before,
        Some(Err(words)) => OpenStepView::Failed(words@),
        Some(Ok(opened)) => landing(replies, to, opened.pane_id@),
    }
}

/// What comes next on the way onto a branch, from what was answered so far. A failure ends it.
pub open spec fn next_step(
    repo_root: Seq<char>,
    entry: BranchEntry,
    to: Option<PaneDestinationView>,
    replies: Replies,
) -> OpenStepView {
    match replies.head {
        None => OpenStepView::AskHead,
        Some(Err(words)) => OpenStepView::Failed(words@),
        Some(Ok(head)) => match planned(entry, head@) {
            BranchPlanView::Focus { pane_id } => ended(
                replies.landed,
                OpenStepView::Focus { pane_id },
            ),
            BranchPlanView::Open { checkout_path } => match replies.opened {
                None => OpenStepView::Open(
                    WorktreeOpenView {
                        cwd: repo_root,
                        path: Some(checkout_path),
                        branch: None,
                        focus: false,
                    },
                ),
                Some(Err(words)) => OpenStepView::Failed(words@),
                Some(Ok(opened)) => if opened.already_open {
                    OpenStepView::Failed(
                        checkout_path
                            + " was opened by something else while the picker was up"@,
                    )
                } else {
                    landing(replies, to, opened.pane_id@)
                },
            },
            BranchPlanView::Create { branch, base } => created(
                replies,
                to,
                creation(repo_root, branch, base),
            ),
            BranchPlanView::FetchThenCreate { branch, base } => match replies.fetched {
                None => OpenStepView::Fetch { branch },
                Some(Err(words)) => OpenStepView::Failed(words@),
                Some(Ok(_)) => created(replies, to, creation(repo_root, branch, Some(base))),
            },
        },
    }
}

fn end_of(reply: &Option<Result<(), String>>, before: OpenStep) -> (step: OpenStep)
    ensures
        step@ == ended(*reply, before@),
{
    match reply {
        None => before,
        Some(Ok(_)) => OpenStep::Done,
        Some(Err(words)) => OpenStep::Failed(words.clone()),
    }
}

fn land(replies: &Replies, to: &Option<PaneDestination>, pane_id: &str) -> (step: OpenStep)
    ensures
        step@ == landing(*replies, shapes::opt(*to), pane_id@),
{
    let pane_id = pane_id.to_owned();
    let before = match to {
        Some(destination) => OpenStep::Move { pane_id, destination: destination.copy(), focus: true },
        None => OpenStep::Focus { pane_id },
    };
    end_of(&replies.landed, before)
}

fn create(
    replies: &Replies,
    to: &Option<PaneDestination>,
    repo_root: &str,
    branch: String,
    base: Option<String>,
) -> (step: OpenStep)
    ensures
        step@ == created(
            *replies,
            shapes::opt(*to),
            creation(repo_root@, branch@, shapes::opt(base)),
        ),
{
    match &replies.opened {
        None => OpenStep::Create(
            WorktreeCreate { cwd: repo_root.to_owned(), branch: Some(branch), base, focus: false },
        ),
        Some(Err(words)) => OpenStep::Failed(words.clone()),
        Some(Ok(opened)) => land(replies, to, opened.pane_id.as_str()),
    }
}

fn open_existing(replies: &Replies, to: &Option<PaneDestination>, repo_root: &str, checkout_path: String) -> (step:
    OpenStep)
    ensures
        step@ == match replies.opened {
            None => OpenStepView::Open(
                WorktreeOpenView {
                    cwd: repo_root@,
                    path: Some(checkout_path@),
                    branch: None,
                    focus: false,
                },
            ),
            Some(Err(words)) => OpenStepView::Failed(words@),
            Some(Ok(opened)) => if opened.already_open {
                OpenStepView::Failed(
                    checkout_path@ + " was opened by something else while the picker was up"@,
                )
            } else {
                landing(*replies, shapes::opt(*to), opened.pane_id@)
            },
        },
{
    match &replies.opened {
        None => OpenStep::Open(
            WorktreeOpen {
                cwd: repo_root.to_owned(),
                path: Some(checkout_path),
                branch: None,
                focus: false,
            },
        ),
        Some(Err(words)) => OpenStep::Failed(words.clone()),
        Some(Ok(opened)) => if opened.already_open {
            let mut words = checkout_path;
            words.append(" was opened by something else while the picker was up");
            OpenStep::Failed(words)
        } else {
            land(replies, to, opened.pane_id.as_str())
        },
    }
}

/// What comes next on the way onto a branch, whose pane is wanted in `to`, or in the space that
/// herdr opens it in.
pub fn open(repo_root: &str, entry: &BranchEntry, to: &Option<PaneDestination>, replies: &Replies) -> (step: OpenStep)
    ensures
        step@ == next_step(repo_root@, *entry, shapes::opt(*to), *replies),
{
    let head = match &replies.head {
        None => {
            return OpenStep::AskHead;
        },
        Some(Err(words)) => {
            return OpenStep::Failed(words.clone());
        },
        Some(Ok(head)) => head,
    };
    match plan(entry, head.as_str()) {
        BranchPlan::Focus { pane_id } => end_of(&replies.landed, OpenStep::Focus { pane_id }),
        BranchPlan::Open { checkout_path } => open_existing(
            replies,
            to,
            repo_root,
            checkout_path,
        ),
        BranchPlan::Create { branch, base } => create(replies, to, repo_root, branch, base),
        BranchPlan::FetchThenCreate { branch, base } => match &replies.fetched {
            None => OpenStep::Fetch { branch },
            Some(Err(words)) => OpenStep::Failed(words.clone()),
            Some(Ok(_)) => create(replies, to, repo_root, branch, Some(base)),
        },
    }
}

/// The stage that a step is shown as, where it is shown.
pub fn stage(step: &OpenStep, entry: &BranchEntry) -> (stage: Option<Stage>)
    ensures
        match *step {
            OpenStep::Fetch { branch } => stage matches Some(Stage::Fetching { remote, branch: b })
                && remote@ == "origin"@ && b@ == branch@,
            OpenStep::Create(_) => stage matches Some(Stage::Creating { branch: b }) && b@
                == entry.name@,
            OpenStep::Open(_) => stage matches Some(Stage::Opening { branch: b }) && b@
                == entry.name@,
            OpenStep::Move { destination, .. } => stage matches Some(Stage::Landing {
                destination: Some(d),
            }) && d@ == destination@,
            OpenStep::Focus { .. } => stage == (if entry.standing is Running {
                None
            } else {
                Some(Stage::Landing { destination: None })
            }),
            _ => stage is None,
        },
{
    match step {
        OpenStep::Fetch { branch } => Some(
            Stage::Fetching { remote: "origin".to_owned(), branch: branch.clone() },
        ),
        OpenStep::Create(_) => Some(Stage::Creating { branch: entry.name.clone() }),
        OpenStep::Open(_) => Some(Stage::Opening { branch: entry.name.clone() }),
        OpenStep::Move { destination, .. } => Some(
            Stage::Landing { destination: Some(destination.copy()) },
        ),
        OpenStep::Focus { .. } => match &entry.standing {
            Standing::Running { .. } => None,
            _ => Some(Stage::Landing { destination: None }),
        },
        _ => None,
    }
}

/// A pane is only ever moved to where it was wanted, and the picker goes there with it; where it is
/// wanted in the space that it was opened in, it is not moved.
pub proof fn law_moved_where_it_was_wanted(
    repo_root: Seq<char>,
    entry: BranchEntry,
    to: Option<PaneDestinationView>,
    replies: Replies,
)
    ensures
        match next_step(repo_root, entry, to, replies) {
            OpenStepView::Move { pane_id, destination, focus } => to == Some(destination) && focus
                && (replies.opened matches Some(Ok(opened)) && opened.pane_id@ == pane_id),
            _ => true,
        },
{
}

/// A branch that was never fetched gets no checkout before it is.
pub proof fn law_fetched_before_created(
    repo_root: Seq<char>,
    entry: BranchEntry,
    to: Option<PaneDestinationView>,
    replies: Replies,
)
    requires
        entry.standing is RemoteOnly,
        next_step(repo_root, entry, to, replies) is Create,
    ensures
        replies.fetched matches Some(Ok(_)),
{
}

// ---------------------------------------------------------------- laws

/// A branch that is checked out is got onto by opening that checkout, of that repository, and
/// nothing else: no checkout is created for it and nothing is fetched, whatever was answered so
/// far. Then its pane goes where it was wanted.
pub proof fn law_checked_out_is_opened_where_it_is(
    repo_root: Seq<char>,
    entry: BranchEntry,
    to: Option<PaneDestinationView>,
    replies: Replies,
)
    requires
        entry.standing is CheckedOut,
    ensures
        ({
            let step = next_step(repo_root, entry, to, replies);
            let path = entry.standing->checkout_path@;
            &&& !(step is Create) && !(step is Fetch)
            &&& replies.head is None ==> step is AskHead
            &&& (replies.head matches Some(Ok(_))) && replies.opened is None ==> step
                == OpenStepView::Open(
                WorktreeOpenView { cwd: repo_root, path: Some(path), branch: None, focus: false },
            )
            &&& (replies.head matches Some(Ok(_))) && replies.landed is None ==> (replies.opened
                matches Some(Ok(opened)) ==> if opened.already_open {
                step is Failed
            } else {
                step == match to {
                    Some(destination) => OpenStepView::Move {
                        pane_id: opened.pane_id@,
                        destination,
                        focus: true,
                    },
                    None => OpenStepView::Focus { pane_id: opened.pane_id@ },
                }
            })
        }),
{
}

/// A branch that is open in a pane is got onto by going to that pane: nothing is opened, created,
/// fetched or moved.
pub proof fn law_running_is_gone_to(
    repo_root: Seq<char>,
    entry: BranchEntry,
    to: Option<PaneDestinationView>,
    replies: Replies,
)
    requires
        entry.standing is Running,
    ensures
        ({
            let step = next_step(repo_root, entry, to, replies);
            &&& !(step is Open) && !(step is Create) && !(step is Fetch) && !(step is Move)
            &&& replies.head is None ==> step is AskHead
            &&& (replies.head matches Some(Ok(_))) && replies.landed is None ==> step
                == OpenStepView::Focus { pane_id: entry.standing->pane_id@ }
        }),
{
}

/// A checkout is created only for a branch that has none: for a branch of the repository from the
/// branch itself, for one of its remote from what was fetched of it, and for one that is nothing
/// yet from what is checked out; always in that repository, under the branch's own name, and
/// without going there before its pane is where it was wanted.
pub proof fn law_created_from_what_the_branch_is(
    repo_root: Seq<char>,
    entry: BranchEntry,
    to: Option<PaneDestinationView>,
    replies: Replies,
)
    ensures
        match next_step(repo_root, entry, to, replies) {
            OpenStepView::Create(request) => {
                &&& request.cwd == repo_root
                &&& request.branch == Some(entry.name@)
                &&& !request.focus
                &&& replies.opened is None
                &&& match entry.standing {
                    Standing::Local => request.base is None,
                    Standing::Fetched => request.base == Some("origin/"@ + entry.name@),
                    Standing::RemoteOnly => request.base == Some("origin/"@ + entry.name@) && (
                    replies.fetched matches Some(Ok(_))),
                    Standing::New => replies.head matches Some(Ok(head)) && request.base == Some(
                        head@,
                    ),
                    _ => false,
                }
            },
            OpenStepView::Open(request) => entry.standing is CheckedOut,
            OpenStepView::Fetch { branch } => entry.standing is RemoteOnly && branch == entry.name@
                && replies.fetched is None,
            _ => true,
        },
{
}

/// A branch that has no checkout gets one: that is asked for as soon as what is checked out is
/// known, and for a branch that was never fetched as soon as it is.
pub proof fn law_branch_without_checkout_gets_one(
    repo_root: Seq<char>,
    entry: BranchEntry,
    to: Option<PaneDestinationView>,
    replies: Replies,
)
    requires
        replies.head matches Some(Ok(_)),
        replies.opened is None,
    ensures
        entry.standing is Local || entry.standing is Fetched || entry.standing is New ==> next_step(
            repo_root,
            entry,
            to,
            replies,
        ) is Create,
        entry.standing is RemoteOnly && replies.fetched is None ==> next_step(
            repo_root,
            entry,
            to,
            replies,
        ) is Fetch,
        entry.standing is RemoteOnly && (replies.fetched matches Some(Ok(_))) ==> next_step(
            repo_root,
            entry,
            to,
            replies,
        ) is Create,
{
}

/// The pane of a checkout that was opened or created goes where it was wanted, and the way ends
/// there: well where that went well.
pub proof fn law_created_pane_goes_where_it_was_wanted(
    repo_root: Seq<char>,
    entry: BranchEntry,
    to: Option<PaneDestinationView>,
    replies: Replies,
)
    requires
        replies.head matches Some(Ok(_)),
        !(entry.standing is Running) && !(entry.standing is CheckedOut),
        entry.standing is RemoteOnly ==> (replies.fetched matches Some(Ok(_))),
        replies.opened matches Some(Ok(_)),
    ensures
        ({
            let step = next_step(repo_root, entry, to, replies);
            let pane_id = replies.opened->0->Ok_0.pane_id@;
            match replies.landed {
                None => step == match to {
                    Some(destination) => OpenStepView::Move { pane_id, destination, focus: true },
                    None => OpenStepView::Focus { pane_id },
                },
                Some(Ok(_)) => step is Done,
                Some(Err(words)) => step == OpenStepView::Failed(words@),
            }
        }),
{
}

/// The way onto a branch ends well only where the last step did, and what went wrong on it ends it
/// in the words of whoever refused.
pub proof fn law_what_went_wrong_ends_the_way(
    repo_root: Seq<char>,
    entry: BranchEntry,
    to: Option<PaneDestinationView>,
    replies: Replies,
)
    ensures
        next_step(repo_root, entry, to, replies) is Done ==> (replies.landed matches Some(Ok(_)))
            && (replies.head matches Some(Ok(_))),
        replies.head matches Some(Err(words)) ==> next_step(repo_root, entry, to, replies)
            == OpenStepView::Failed(words@),
        (replies.head matches Some(Ok(_))) && entry.standing is RemoteOnly ==> (replies.fetched
            matches Some(Err(words)) ==> next_step(repo_root, entry, to, replies)
            == OpenStepView::Failed(words@)),
        (replies.head matches Some(Ok(_))) && !(entry.standing is Running) && (
        entry.standing is RemoteOnly ==> (replies.fetched matches Some(Ok(_)))) ==> (replies.opened
            matches Some(Err(words)) ==> next_step(repo_root, entry, to, replies)
            == OpenStepView::Failed(words@)),
{
}

/// A branch is what its first checkout makes it: open in the first pane of that, or checked out
/// there where it has no pane; and a branch that no checkout has out is only local.
pub proof fn law_branch_is_what_its_checkout_makes_it(
    worktrees: Seq<WorktreeNodeView>,
    name: Seq<char>,
    i: int,
)
    requires
        0 <= i <= worktrees.len(),
        forall|j: int| 0 <= j < i ==> (#[trigger] worktrees[j]).branch != BranchView::Out(name),
        i < worktrees.len() ==> worktrees[i].branch == BranchView::Out(name),
    ensures
        i == worktrees.len() ==> local_standing(worktrees, name) == StandingView::Local,
        i < worktrees.len() && worktrees[i].panes.len() > 0 ==> local_standing(worktrees, name)
            == (StandingView::Running { pane_id: worktrees[i].panes[0].pane_id }),
        i < worktrees.len() && worktrees[i].panes.len() == 0 ==> local_standing(worktrees, name)
            == (StandingView::CheckedOut { checkout_path: worktrees[i].checkout_path }),
    decreases i,
{
    if i > 0 {
        assert(worktrees[0].branch != BranchView::Out(name));
        let rest = worktrees.skip(1);
        assert forall|j: int| 0 <= j < i - 1 implies (#[trigger] rest[j]).branch
            != BranchView::Out(name) by {
            assert(rest[j] == worktrees[j + 1]);
        }
        if i < worktrees.len() {
            assert(rest[i - 1] == worktrees[i]);
        }
        law_branch_is_what_its_checkout_makes_it(rest, name, i - 1);
    }
}

/// The branches of a repository are listed one by one in the order of its refs, each as what its
/// checkouts make it, and no other ref is.
pub proof fn law_own_branches_are_listed_in_order(
    one: Seq<GitRefView>,
    other: Seq<GitRefView>,
    found: GitRefView,
    worktrees: Seq<WorktreeNodeView>,
)
    ensures
        local_entries(one + other, worktrees) == local_entries(one, worktrees) + local_entries(
            other,
            worktrees,
        ),
        found.kind == RefKind::Local ==> local_entries(seq![found], worktrees) == seq![
            (found.name, local_standing(worktrees, found.name)),
        ],
        found.kind == RefKind::Remote ==> local_entries(seq![found], worktrees).len() == 0,
    decreases other.len(),
{
    assert(seq![found].drop_last() =~= seq![]);
    assert(local_entries(seq![found].drop_last(), worktrees) =~= seq![]);
    if other.len() == 0 {
        assert(one + other =~= one);
        assert(local_entries(one, worktrees) + local_entries(other, worktrees) =~= local_entries(
            one,
            worktrees,
        ));
    } else {
        law_own_branches_are_listed_in_order(one, other.drop_last(), found, worktrees);
        assert((one + other).drop_last() =~= one + other.drop_last());
        assert((one + other).last() == other.last());
        assert(local_entries(one + other, worktrees) =~= local_entries(one, worktrees)
            + local_entries(other, worktrees));
    }
}

/// The branches that a remote has and the repository has not are listed one by one in the remote's
/// order: as fetched where the repository holds the remote's branch of that name, and else as
/// never fetched.
pub proof fn law_remote_branches_are_listed_in_order(
    one: Seq<Seq<char>>,
    other: Seq<Seq<char>>,
    name: Seq<char>,
    refs: Seq<GitRefView>,
)
    ensures
        remote_entries(one + other, refs) == remote_entries(one, refs) + remote_entries(
            other,
            refs,
        ),
        ({
            let own = exists|i: int|
                0 <= i < refs.len() && (#[trigger] refs[i]).kind == RefKind::Local && refs[i].name
                    == name;
            let fetched = exists|i: int|
                0 <= i < refs.len() && (#[trigger] refs[i]).kind == RefKind::Remote && refs[i].name
                    == name;
            remote_entries(seq![name], refs) == if own {
                seq![]
            } else if fetched {
                seq![(name, StandingView::Fetched)]
            } else {
                seq![(name, StandingView::RemoteOnly)]
            }
        }),
    decreases other.len(),
{
    assert(seq![name].drop_last() =~= seq![]);
    assert(remote_entries(seq![name].drop_last(), refs) =~= seq![]);
    assert(has_ref(refs, RefKind::Local, name) <==> exists|i: int|
        0 <= i < refs.len() && (#[trigger] refs[i]).kind == RefKind::Local && refs[i].name == name) by {
        if exists|i: int|
            0 <= i < refs.len() && (#[trigger] refs[i]).kind == RefKind::Local && refs[i].name
                == name {
            let i = choose|i: int|
                0 <= i < refs.len() && (#[trigger] refs[i]).kind == RefKind::Local && refs[i].name
                    == name;
            assert(is_ref(refs[i], RefKind::Local, name));
        }
    }
    assert(has_ref(refs, RefKind::Remote, name) <==> exists|i: int|
        0 <= i < refs.len() && (#[trigger] refs[i]).kind == RefKind::Remote && refs[i].name
            == name) by {
        if exists|i: int|
            0 <= i < refs.len() && (#[trigger] refs[i]).kind == RefKind::Remote && refs[i].name
                == name {
            let i = choose|i: int|
                0 <= i < refs.len() && (#[trigger] refs[i]).kind == RefKind::Remote && refs[i].name
                    == name;
            assert(is_ref(refs[i], RefKind::Remote, name));
        }
    }
    if other.len() == 0 {
        assert(one + other =~= one);
        assert(remote_entries(one, refs) + remote_entries(other, refs) =~= remote_entries(
            one,
            refs,
        ));
    } else {
        law_remote_branches_are_listed_in_order(one, other.drop_last(), name, refs);
        assert((one + other).drop_last() =~= one + other.drop_last());
        assert((one + other).last() == other.last());
        assert(remote_entries(one + other, refs) =~= remote_entries(one, refs) + remote_entries(
            other,
            refs,
        ));
    }
}

/// An answer about a remote that was asked says just what it carries of that remote: its branches
/// and that it answered, or that it cannot be asked, or its pull requests. The rest that is known
/// of it stays, and so does all that is known of the others.
pub proof fn law_answer_says_what_it_carries(
    listings: Map<Seq<char>, RemoteView>,
    repo_root: Seq<char>,
    other: Seq<char>,
    heads: Vec<String>,
    pull_requests: Vec<PullRequest>,
)
    requires
        listings.contains_key(repo_root),
        other != repo_root,
    ensures
        ({
            let was = listings[repo_root];
            let headed = kept(listings, repo_root, Answer::Heads(heads));
            let silent = kept(listings, repo_root, Answer::Unavailable);
            let pulled = kept(listings, repo_root, Answer::PullRequests(pull_requests));
            let fetched = kept(listings, repo_root, Answer::Refetched);
            &&& headed[repo_root].heads == text::texts(heads@) && !headed[repo_root].loading
                && headed[repo_root].pull_requests == was.pull_requests
            &&& silent[repo_root].heads == was.heads && !silent[repo_root].loading
                && silent[repo_root].pull_requests == was.pull_requests
            &&& pulled[repo_root].heads == was.heads && pulled[repo_root].loading == was.loading
                && pulled[repo_root].pull_requests == shapes::views(pull_requests@)
            &&& !fetched.contains_key(repo_root)
            &&& headed.contains_key(repo_root) && silent.contains_key(repo_root)
                && pulled.contains_key(repo_root)
            &&& headed.remove(repo_root) == listings.remove(repo_root)
            &&& silent.remove(repo_root) == listings.remove(repo_root)
            &&& pulled.remove(repo_root) == listings.remove(repo_root)
            &&& fetched == listings.remove(repo_root)
            &&& known(listings, repo_root, Answer::Heads(heads)) == Some(headed[repo_root])
            &&& known(listings, repo_root, Answer::Unavailable) == Some(silent[repo_root])
            &&& known(listings, repo_root, Answer::PullRequests(pull_requests)) == Some(
                pulled[repo_root],
            )
        }),
{
    let headed = kept(listings, repo_root, Answer::Heads(heads));
    let silent = kept(listings, repo_root, Answer::Unavailable);
    let pulled = kept(listings, repo_root, Answer::PullRequests(pull_requests));
    assert(headed.remove(repo_root) =~= listings.remove(repo_root));
    assert(silent.remove(repo_root) =~= listings.remove(repo_root));
    assert(pulled.remove(repo_root) =~= listings.remove(repo_root));
}

/// A repository that is read is shown with the refs that were read of it and all that its remote
/// answered; nothing that is known of another is touched. One whose remote did not answer yet is
/// shown as waiting for it, with nothing of it.
pub proof fn law_read_repository_shows_what_is_known(
    listings: Map<Seq<char>, RemoteView>,
    repo_root: Seq<char>,
    local_refs: Seq<GitRefView>,
)
    ensures
        ({
            let data = data_read(listings, repo_root, local_refs);
            let later = listings_read(listings, repo_root);
            &&& data.local_refs == local_refs && !data.fetching
            &&& later.remove(repo_root) == listings.remove(repo_root)
            &&& later.contains_key(repo_root)
            &&& listings.contains_key(repo_root) && !listings[repo_root].loading ==> data.remote_heads
                == listings[repo_root].heads && data.pull_requests
                == listings[repo_root].pull_requests && !data.loading && later == listings
                && !has_to_ask(listings, repo_root)
            &&& !listings.contains_key(repo_root) || listings[repo_root].loading
                ==> data.remote_heads.len() == 0 && data.pull_requests.len() == 0 && data.loading
                && later[repo_root].loading && has_to_ask(listings, repo_root)
        }),
{
    let later = listings_read(listings, repo_root);
    assert(later.remove(repo_root) =~= listings.remove(repo_root));
}

/// The repository that a path is of is the first whose root it is, or one of whose checkouts.
pub proof fn law_path_is_of_the_first_that_has_it(repos: Seq<RepoNodeView>, path: Seq<char>, i: int)
    requires
        0 <= i <= repos.len(),
        forall|j: int| 0 <= j < i ==> (#[trigger] repos[j]).repo_root != path,
        forall|j: int, k: int|
            0 <= j < i && 0 <= k < repos[j].worktrees.len() ==> (
            #[trigger] repos[j].worktrees[k]).checkout_path != path,
        i < repos.len() ==> repos[i].repo_root == path || exists|k: int|
            0 <= k < repos[i].worktrees.len() && (#[trigger] repos[i].worktrees[k]).checkout_path
                == path,
    ensures
        located(repos, path) == i,
    decreases i,
{
    if i > 0 {
        assert(!is_of(repos[0], path));
        let rest = repos.skip(1);
        assert forall|j: int| 0 <= j < i - 1 implies (#[trigger] rest[j]).repo_root != path by {
            assert(rest[j] == repos[j + 1]);
        }
        assert forall|j: int, k: int|
            0 <= j < i - 1 && 0 <= k < rest[j].worktrees.len() implies (
        #[trigger] rest[j].worktrees[k]).checkout_path != path by {
            assert(rest[j] == repos[j + 1]);
            assert(repos[j + 1].worktrees[k].checkout_path != path);
        }
        if i < repos.len() {
            assert(rest[i - 1] == repos[i]);
        }
        law_path_is_of_the_first_that_has_it(rest, path, i - 1);
    } else if repos.len() > 0 {
        assert(is_of(repos[0], path));
    }
}

/// Every repository of the tree can be chosen, in its order. The one that the picker was called
/// from can be chosen too where the tree does not have it, last, by its root; and no other.
pub proof fn law_calling_repository_can_be_chosen(
    repos: Seq<RepoNodeView>,
    from: Option<Seq<char>>,
    repo_root: Option<Seq<char>>,
)
    ensures
        repos.is_prefix_of(choices(repos, from, repo_root)),
        choices(repos, from, repo_root).len() <= repos.len() + 1,
        repo_root is None ==> choices(repos, from, repo_root) == repos,
        (from matches Some(path) && located(repos, model::normal_path(path)) < repos.len())
            ==> choices(repos, from, repo_root) == repos,
        (from matches Some(path) ==> located(repos, model::normal_path(path)) >= repos.len())
            ==> (repo_root matches Some(root) ==> choices(repos, from, repo_root).len()
            == repos.len() + 1 && choices(repos, from, repo_root).last().repo_root
            == model::normal_path(root) && choices(repos, from, repo_root).last().worktrees.len()
            == 0),
{
    let all = choices(repos, from, repo_root);
    assert(repos.is_prefix_of(all)) by {
        assert(all.subrange(0, repos.len() as int) =~= repos);
    }
}

/// The picker counts as called from the checkout of the calling pane where a repository has that
/// pane, and else from the repository that was named.
pub proof fn law_called_from_the_pane_first(
    repos: Seq<RepoNodeView>,
    pane: Option<Seq<char>>,
    repo_root: Option<Seq<char>>,
)
    ensures
        pane is None ==> called_from(repos, pane, repo_root) == repo_root,
        pane matches Some(id) ==> called_from(repos, pane, repo_root) == match model::pane_checkout(
            repos,
            id,
        ) {
            Some(path) => Some(path),
            None => repo_root,
        },
{
}

/// What gets onto a branch is what it already is: its pane, its checkout, a new checkout of it, or
/// one from what was fetched or is fetched first. Only a branch that is nothing yet is made from
/// what is checked out.
pub proof fn law_plan_is_what_the_branch_is(entry: BranchEntry, head: Seq<char>)
    ensures
        entry.standing matches Standing::Running { pane_id } ==> planned(entry, head)
            == (BranchPlanView::Focus { pane_id: pane_id@ }),
        entry.standing matches Standing::CheckedOut { checkout_path } ==> planned(entry, head)
            == (BranchPlanView::Open { checkout_path: checkout_path@ }),
        entry.standing is Local ==> planned(entry, head) == (BranchPlanView::Create {
            branch: entry.name@,
            base: None,
        }),
        entry.standing is Fetched ==> planned(entry, head) == (BranchPlanView::Create {
            branch: entry.name@,
            base: Some("origin/"@ + entry.name@),
        }),
        entry.standing is RemoteOnly ==> planned(entry, head) == (BranchPlanView::FetchThenCreate {
            branch: entry.name@,
            base: "origin/"@ + entry.name@,
        }),
        entry.standing is New ==> planned(entry, head) == (BranchPlanView::Create {
            branch: entry.name@,
            base: Some(head),
        }),
{
}

/// A pane that is to stand beside another goes to the tab that the other is in, to its right; and
/// nowhere in particular where the session has no such pane, or none is named.
pub proof fn law_pane_goes_to_the_right_of_its_neighbour(
    panes: Seq<PaneView>,
    id: Seq<char>,
    i: int,
)
    requires
        0 <= i <= panes.len(),
        forall|j: int| 0 <= j < i ==> (#[trigger] panes[j]).pane_id != id,
        i < panes.len() ==> panes[i].pane_id == id,
    ensures
        i < panes.len() ==> right_of(panes, Some(id)) == Some(
            PaneDestinationView::Tab {
                tab_id: panes[i].tab_id,
                split: SplitDirection::Right,
                target_pane_id: Some(id),
            },
        ),
        i == panes.len() ==> right_of(panes, Some(id)) is None,
        right_of(panes, None) is None,
{
    lemma_pane_place(panes, id, i);
}

proof fn lemma_pane_place(panes: Seq<PaneView>, id: Seq<char>, i: int)
    requires
        0 <= i <= panes.len(),
        forall|j: int| 0 <= j < i ==> (#[trigger] panes[j]).pane_id != id,
        i < panes.len() ==> panes[i].pane_id == id,
    ensures
        pane_place(panes, id) == i,
    decreases i,
{
    if i > 0 {
        let rest = panes.skip(1);
        assert(panes[0].pane_id != id);
        assert forall|j: int| 0 <= j < i - 1 implies (#[trigger] rest[j]).pane_id != id by {
            assert(rest[j] == panes[j + 1]);
        }
        if i < panes.len() {
            assert(rest[i - 1] == panes[i]);
        }
        lemma_pane_place(rest, id, i - 1);
    }
}

/// A repository of which only the root is known has that root in its one spelling, is called by the
/// last component of it, and has no checkout. Before anything is read nothing is shown.
pub proof fn law_bare_root_is_called_by_its_path(repo_root: Seq<char>)
    ensures
        bare_repo(repo_root).repo_root == model::normal_path(repo_root),
        bare_repo(repo_root).display_name == model::path_name(model::normal_path(repo_root)),
        bare_repo(repo_root).worktrees.len() == 0,
        bare_repo(repo_root).repo_key.len() == 0,
        bare_repo(repo_root).refs is Read,
        no_data().local_refs.len() == 0,
        no_data().remote_heads.len() == 0,
        no_data().pull_requests.len() == 0,
        !no_data().loading,
        !no_data().fetching,
        starting().heads.len() == 0,
        starting().pull_requests.len() == 0,
        starting().loading,
{
}

} // verus!
