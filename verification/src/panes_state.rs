//! What the panes picker shows and what it is asking: its tree, its prompt line, and its questions.

use vstd::prelude::*;

use crate::dirty;
use crate::model;
use crate::model::{
    find_pane, BranchView, RepoNode, RepoNodeView, Tree, WorkingTree, WorktreeNode, WorktreeNodeView,
};
use crate::ordered::OrderedMap;
use crate::port::{
    SettledPullRequest, SettledPullRequestView, SettledPullRequests, SettledPullRequestsView, Track,
};
use crate::removals;
use crate::removals::{Removal, RemovalView};
use crate::settled;
use crate::shapes;
use crate::text;
use crate::text::{joined, listed, same};

verus! {

/// A question that waits for a yes.
#[derive(Debug, Clone, PartialEq, Eq)]
pub enum Asked {
    /// Whether one checkout is to go.
    Removal(Removal),
    /// Whether these are to go, with their branches.
    Sweep(Vec<Removal>),
}

#[verifier::ext_equal]
pub enum AskedView {
    Removal(RemovalView),
    Sweep(Seq<RemovalView>),
}

impl View for Asked {
    type V = AskedView;

    open spec fn view(&self) -> AskedView {
        match self {
            Asked::Removal(removal) => AskedView::Removal(removal@),
            Asked::Sweep(removals) => AskedView::Sweep(shapes::views(removals@)),
        }
    }
}

/// What taking a question back took.
#[derive(Debug, Clone, Copy, PartialEq, Eq, Structural)]
pub enum Cancelled {
    /// A question that was up.
    Question,
    /// An `Enter` whose question was still to come up.
    Enter,
    /// There was neither.
    Nothing,
}

/// The state of the panes picker.
pub struct PanesState {
    pub tree: Tree,
    /// What the prompt line says.
    pub message: Option<String>,
    /// Why the list is behind, while it is.
    pub stale: Option<String>,
    /// The checkouts that are being removed.
    pub removing: Vec<String>,
    /// What is known of the working trees.
    pub working_trees: Vec<(String, WorkingTree)>,
    /// Whether working trees are still being read.
    pub waiting: bool,
    /// Whether the finished checkouts are being swept.
    pub sweeping: bool,
    /// Whether a sweep was entered since the last look.
    pub sweep_entered: bool,
    /// What is known of the pull requests of the repositories.
    pub settled: OrderedMap<Option<SettledPullRequests>>,
    /// What stands in the way of knowing more of them.
    pub sweep_trouble: Option<String>,
    /// Whether a question about them is out.
    pub asking_gh: bool,
    /// What was marked when `Enter` asked for the sweep's question, until that comes up.
    pub enter: Option<Vec<Removal>>,
    pub asked: Option<Asked>,
    pub show_worktrees_without_panes: bool,
    /// The checkout under the cursor, and the pane where the cursor is on one.
    pub selected: Option<String>,
    pub selected_pane: Option<String>,
}

// ---------------------------------------------------------------- what is marked

/// What is known of the working tree at `path`.
pub open spec fn working_tree(known: Seq<(Seq<char>, WorkingTree)>, path: Seq<char>) -> Option<
    WorkingTree,
>
    decreases known.len(),
{
    if known.len() == 0 {
        None
    } else if known.last().0 == path {
        Some(known.last().1)
    } else {
        working_tree(known.drop_last(), path)
    }
}

/// The pull requests that a repository is known to have settled.
pub open spec fn settled_list(
    settled: Map<Seq<char>, Option<SettledPullRequests>>,
    root: Seq<char>,
) -> Seq<SettledPullRequestView> {
    if settled.contains_key(root) {
        match shapes::opt(settled[root]) {
            Some(SettledPullRequestsView::All(list)) => list,
            Some(SettledPullRequestsView::Window(list)) => list,
            None => seq![],
        }
    } else {
        seq![]
    }
}

/// Whether a pull request of this repository's own branch `name` is among the list.
pub open spec fn is_settled(list: Seq<SettledPullRequestView>, name: Seq<char>) -> bool {
    exists|i: int| 0 <= i < list.len() && (#[trigger] list[i]).head_ref == name && !list[i].from_a_fork
}

/// Whether a checkout is finished: linked, with nothing running in it, nothing uncommitted, not
/// being removed already, and its branch gone from where it was pushed or settled on GitHub.
pub open spec fn finished(state: PanesState, root: Seq<char>, worktree: WorktreeNodeView) -> bool {
    &&& !worktree.is_primary
    &&& worktree.panes.len() == 0
    &&& working_tree(dirty::answer_views(state.working_trees@), worktree.checkout_path) == Some(
        WorkingTree::Clean,
    )
    &&& !text::texts(state.removing@).contains(worktree.checkout_path)
    &&& match worktree.branch {
        BranchView::Out(name) => worktree.track == Some(Track::Gone) || is_settled(
            settled_list(state.settled@, root),
            name,
        ),
        _ => false,
    }
}

/// The removals of the finished checkouts of a repository.
pub open spec fn finished_in(
    state: PanesState,
    root: Seq<char>,
    worktrees: Seq<WorktreeNodeView>,
) -> Seq<RemovalView>
    decreases worktrees.len(),
{
    if worktrees.len() == 0 {
        seq![]
    } else {
        let so_far = finished_in(state, root, worktrees.drop_last());
        if finished(state, root, worktrees.last()) {
            so_far.push(removals::removal_of(root, worktrees.last(), true))
        } else {
            so_far
        }
    }
}

/// The removals of the finished checkouts of the repositories.
pub open spec fn finished_among(state: PanesState, repos: Seq<RepoNodeView>) -> Seq<RemovalView>
    decreases repos.len(),
{
    if repos.len() == 0 {
        seq![]
    } else {
        finished_among(state, repos.drop_last()) + finished_in(
            state,
            repos.last().repo_root,
            repos.last().worktrees,
        )
    }
}

/// What a sweep marks.
pub open spec fn marked(state: PanesState) -> Seq<RemovalView> {
    finished_among(state, shapes::views(state.tree.repos@))
}

/// Whether one of the removals is of the checkout at `path`.
pub open spec fn removes(removals: Seq<RemovalView>, path: Seq<char>) -> bool {
    exists|i: int| 0 <= i < removals.len() && (#[trigger] removals[i]).checkout_path == path
}

/// The removals among `all` that `others` has too.
pub open spec fn also_in(all: Seq<RemovalView>, others: Seq<RemovalView>) -> Seq<RemovalView>
    decreases all.len(),
{
    if all.len() == 0 {
        seq![]
    } else if removes(others, all.last().checkout_path) {
        also_in(all.drop_last(), others).push(all.last())
    } else {
        also_in(all.drop_last(), others)
    }
}

/// The labels of the removals among `all` that `others` has not.
pub open spec fn labels_missing(all: Seq<RemovalView>, others: Seq<RemovalView>) -> Seq<Seq<char>>
    decreases all.len(),
{
    if all.len() == 0 {
        seq![]
    } else if removes(others, all.last().checkout_path) {
        labels_missing(all.drop_last(), others)
    } else {
        labels_missing(all.drop_last(), others).push(all.last().label)
    }
}

fn known_working_tree(known: &Vec<(String, WorkingTree)>, path: &str) -> (answer: Option<
    WorkingTree,
>)
    ensures
        answer == working_tree(dirty::answer_views(known@), path@),
{
    let ghost all = dirty::answer_views(known@);
    let mut i: usize = known.len();
    assert(all.take(i as int) =~= all);
    while i > 0
        invariant
            i <= known@.len(),
            all == dirty::answer_views(known@),
            working_tree(all.take(i as int), path@) == working_tree(all, path@),
        decreases i,
    {
        i = i - 1;
        assert(all.take(i + 1).drop_last() =~= all.take(i as int));
        assert(all.take(i + 1).last() == all[i as int]);
        if same(known[i].0.as_str(), path) {
            return Some(known[i].1);
        }
    }
    None
}

fn lists_settled(list: &Vec<SettledPullRequest>, name: &str) -> (is: bool)
    ensures
        is == is_settled(shapes::views(list@), name@),
{
    let ghost all = shapes::views(list@);
    let mut i: usize = 0;
    while i < list.len()
        invariant
            i <= list@.len(),
            all == shapes::views(list@),
            forall|j: int|
                0 <= j < i ==> !((#[trigger] all[j]).head_ref == name@ && !all[j].from_a_fork),
        decreases list@.len() - i,
    {
        if !list[i].from_a_fork && same(list[i].head_ref.as_str(), name) {
            assert(all[i as int].head_ref == name@);
            return true;
        }
        i = i + 1;
    }
    false
}

fn list_has(removals: &Vec<Removal>, path: &str) -> (has: bool)
    ensures
        has == removes(shapes::views(removals@), path@),
{
    let ghost all = shapes::views(removals@);
    let mut i: usize = 0;
    while i < removals.len()
        invariant
            i <= removals@.len(),
            all == shapes::views(removals@),
            forall|j: int| 0 <= j < i ==> (#[trigger] all[j]).checkout_path != path@,
        decreases removals@.len() - i,
    {
        if same(removals[i].checkout_path.as_str(), path) {
            assert(all[i as int].checkout_path == path@);
            return true;
        }
        i = i + 1;
    }
    false
}

impl PanesState {
    /// A picker that shows a tree and asks nothing.
    pub fn new(tree: Tree) -> (state: PanesState)
        ensures
            state.tree == tree,
            state.message is None,
            state.stale is None,
            state.removing@.len() == 0,
            state.working_trees@.len() == 0,
            !state.waiting,
            !state.sweeping,
            !state.sweep_entered,
            state.settled@ == Map::<Seq<char>, Option<SettledPullRequests>>::empty(),
            state.sweep_trouble is None,
            !state.asking_gh,
            state.enter is None,
            state.asked is None,
            state.show_worktrees_without_panes,
            shapes::opt(state.selected) == first_path(shapes::views(tree.repos@)),
            state.selected_pane is None,
    {
        let selected = first_checkout(&tree);
        PanesState {
            tree,
            message: None,
            stale: None,
            removing: Vec::new(),
            working_trees: Vec::new(),
            waiting: false,
            sweeping: false,
            sweep_entered: false,
            settled: OrderedMap::new(),
            sweep_trouble: None,
            asking_gh: false,
            enter: None,
            asked: None,
            show_worktrees_without_panes: true,
            selected,
            selected_pane: None,
        }
    }

    /// Puts the cursor on a pane, where the tree has it in a checkout.
    pub fn focus_pane(&mut self, pane_id: String)
        ensures
            match model::pane_checkout(shapes::views(old(self).tree.repos@), pane_id@) {
                Some(path) => {
                    &&& *final(self) == (PanesState {
                        selected: final(self).selected,
                        selected_pane: Some(pane_id),
                        ..*old(self)
                    })
                    &&& shapes::opt(final(self).selected) == Some(path)
                },
                None => *final(self) == *old(self),
            },
    {
        if let Some(path) = find_pane(&self.tree.repos, pane_id.as_str()) {
            self.selected = Some(path);
            self.selected_pane = Some(pane_id);
        }
    }

    /// Says this.
    pub fn set_message(&mut self, message: String)
        ensures
            *final(self) == (PanesState { message: Some(message), ..*old(self) }),
    {
        self.message = Some(message);
    }

    /// Says that the list is behind, and why.
    pub fn set_stale(&mut self, words: String)
        ensures
            *final(self) == (PanesState { stale: Some(words), ..*old(self) }),
    {
        self.stale = Some(words);
    }

    pub fn set_removing(&mut self, paths: Vec<String>)
        ensures
            *final(self) == (PanesState { removing: paths, ..*old(self) }),
    {
        self.removing = paths;
    }

    pub fn set_working_trees(&mut self, answers: Vec<(String, WorkingTree)>)
        ensures
            *final(self) == (PanesState { working_trees: answers, ..*old(self) }),
    {
        self.working_trees = answers;
    }

    /// What is known of the pull requests, what stands in the way, and whether a question is out.
    pub fn set_settled(
        &mut self,
        answered: OrderedMap<Option<SettledPullRequests>>,
        trouble: Option<String>,
        asking: bool,
    )
        ensures
            *final(self) == (PanesState {
                settled: answered,
                sweep_trouble: trouble,
                asking_gh: asking,
                ..*old(self)
            }),
    {
        self.settled = answered;
        self.sweep_trouble = trouble;
        self.asking_gh = asking;
    }

    /// Shows a tree that was read since. A question over the tree before is taken back; gives
    /// whether one was up. The list is no longer behind.
    pub fn replace_tree(&mut self, tree: Tree) -> (withdrawn: bool)
        ensures
            *final(self) == (PanesState { tree, stale: None, asked: None, ..*old(self) }),
            withdrawn == (old(self).asked is Some),
    {
        let withdrawn = self.asked.is_some();
        self.tree = tree;
        self.stale = None;
        self.asked = None;
        withdrawn
    }

    /// Takes back the question that is up, and the one that is still to come up.
    pub fn cancel_removal(&mut self) -> (cancelled: Cancelled)
        ensures
            *final(self) == (PanesState { asked: None, enter: None, ..*old(self) }),
            cancelled == if old(self).asked is Some {
                Cancelled::Question
            } else if old(self).enter is Some {
                Cancelled::Enter
            } else {
                Cancelled::Nothing
            },
    {
        let cancelled = if self.asked.is_some() {
            Cancelled::Question
        } else if self.enter.is_some() {
            Cancelled::Enter
        } else {
            Cancelled::Nothing
        };
        self.asked = None;
        self.enter = None;
        cancelled
    }

    /// Whether a sweep was entered since the last look.
    pub fn take_sweep_entered(&mut self) -> (entered: bool)
        ensures
            *final(self) == (PanesState { sweep_entered: false, ..*old(self) }),
            entered == old(self).sweep_entered,
    {
        let entered = self.sweep_entered;
        self.sweep_entered = false;
        entered
    }

    /// Whether a checkout is finished.
    fn is_finished(&self, root: &str, worktree: &WorktreeNode) -> (is: bool)
        ensures
            is == finished(*self, root@, worktree@),
    {
        assert(worktree@.panes.len() == worktree.panes@.len());
        if worktree.is_primary || worktree.panes.len() > 0 || listed(
            &self.removing,
            worktree.checkout_path.as_str(),
        ) {
            return false;
        }
        match known_working_tree(&self.working_trees, worktree.checkout_path.as_str()) {
            Some(WorkingTree::Clean) => {},
            _ => {
                return false;
            },
        }
        match worktree.branch.name() {
            None => false,
            Some(name) => {
                let gone = match worktree.track {
                    Some(Track::Gone) => true,
                    _ => false,
                };
                let merged = match self.settled.get(root) {
                    Some(Some(SettledPullRequests::All(list))) => lists_settled(list, name),
                    Some(Some(SettledPullRequests::Window(list))) => lists_settled(list, name),
                    _ => false,
                };
                gone || merged
            },
        }
    }

    /// What a sweep marks: the finished checkouts, in the order of the tree.
    pub fn chosen(&self) -> (removals: Vec<Removal>)
        ensures
            shapes::views(removals@) == marked(*self),
    {
        let ghost all = shapes::views(self.tree.repos@);
        let mut out: Vec<Removal> = Vec::new();
        let mut i: usize = 0;
        while i < self.tree.repos.len()
            invariant
                i <= self.tree.repos@.len(),
                all == shapes::views(self.tree.repos@),
                shapes::views(out@) == finished_among(*self, all.take(i as int)),
            decreases self.tree.repos@.len() - i,
        {
            let repo = &self.tree.repos[i];
            assert(all.take(i + 1).drop_last() =~= all.take(i as int));
            assert(all.take(i + 1).last() == repo@);
            let ghost start = shapes::views(out@);
            let ghost ws = repo@.worktrees;
            let ghost root = repo.repo_root@;
            assert(start + finished_in(*self, root, ws.take(0)) =~= start);
            let mut k: usize = 0;
            while k < repo.worktrees.len()
                invariant
                    k <= repo.worktrees@.len(),
                    ws == repo@.worktrees,
                    root == repo.repo_root@,
                    shapes::views(out@) == start + finished_in(*self, root, ws.take(k as int)),
                decreases repo.worktrees@.len() - k,
            {
                let worktree = &repo.worktrees[k];
                assert(ws.take(k + 1).drop_last() =~= ws.take(k as int));
                assert(ws.take(k + 1).last() == worktree@);
                if self.is_finished(repo.repo_root.as_str(), worktree) {
                    let removal = Removal::sweeping(repo.repo_root.as_str(), worktree);
                    proof {
                        shapes::lemma_views_push(out@, removal);
                    }
                    let ghost before = shapes::views(out@);
                    out.push(removal);
                    assert(before.push(removal@) =~= start + finished_in(
                        *self,
                        root,
                        ws.take(k + 1),
                    ));
                }
                k = k + 1;
            }
            assert(ws.take(k as int) =~= ws);
            i = i + 1;
        }
        assert(all.take(i as int) =~= all);
        out
    }

    /// Brings up the question of a sweep that `Enter` asked for, once everything it rests on has
    /// been read: about what is still marked of what was. What no longer is, is said.
    pub fn confirm_sweep_if_settled(&mut self)
        ensures
            confirmed(*old(self), *final(self)),
    {
        if !self.sweeping || self.waiting || self.asking_gh || self.asked.is_some() {
            return;
        }
        let ghost before = *self;
        let now = self.chosen();
        match self.enter.take() {
            None => {
                assert(*self == before);
            },
            Some(marks) => {
                let ghost all = shapes::views(marks@);
                let ghost others = shapes::views(now@);
                let mut still: Vec<Removal> = Vec::new();
                let mut missing: Vec<String> = Vec::new();
                let mut i: usize = 0;
                while i < marks.len()
                    invariant
                        i <= marks@.len(),
                        all == shapes::views(marks@),
                        others == shapes::views(now@),
                        shapes::views(still@) == also_in(all.take(i as int), others),
                        text::texts(missing@) == labels_missing(all.take(i as int), others),
                    decreases marks@.len() - i,
                {
                    assert(all.take(i + 1).drop_last() =~= all.take(i as int));
                    assert(all.take(i + 1).last() == marks@[i as int]@);
                    if list_has(&now, marks[i].checkout_path.as_str()) {
                        let removal = marks[i].copy();
                        proof {
                            shapes::lemma_views_push(still@, removal);
                        }
                        still.push(removal);
                    } else {
                        let ghost so_far = text::texts(missing@);
                        missing.push(marks[i].label.clone());
                        assert(text::texts(missing@) =~= so_far.push(marks@[i as int].label@));
                    }
                    i = i + 1;
                }
                assert(all.take(i as int) =~= all);
                assert(shapes::views(still@).len() == still@.len());
                assert(text::texts(missing@).len() == missing@.len());
                if still.len() > 0 {
                    self.asked = Some(Asked::Sweep(still));
                }
                if missing.len() > 0 {
                    let mut message = "no longer marked: ".to_owned();
                    message.append(joined(&missing, ", ").as_str());
                    self.message = Some(message);
                }
            },
        }
    }
}

/// The state `after` is that of `before` once the question of a sweep has come up, where it can.
pub open spec fn confirmed(before: PanesState, after: PanesState) -> bool {
    if is_ready(before) {
        let marks = shapes::views(before.enter->0@);
        let still = also_in(marks, marked(before));
        let missing = labels_missing(marks, marked(before));
        &&& after == (PanesState {
            enter: None,
            asked: after.asked,
            message: after.message,
            ..before
        })
        &&& shapes::opt(after.asked) == if still.len() == 0 {
            None::<AskedView>
        } else {
            Some(AskedView::Sweep(still))
        }
        &&& if missing.len() == 0 {
            after.message == before.message
        } else {
            shapes::opt(after.message) == Some("no longer marked: "@ + text::join(missing, ", "@))
        }
    } else {
        after == before
    }
}

/// Whether the question of a sweep can come up: `Enter` asked for it, and nothing that it rests on
/// is still being read.
pub open spec fn is_ready(state: PanesState) -> bool {
    state.sweeping && !state.waiting && !state.asking_gh && state.asked is None && state.enter is Some
}

/// The path of the first checkout.
pub open spec fn first_path(repos: Seq<RepoNodeView>) -> Option<Seq<char>> {
    if model::paths_of(repos).len() == 0 {
        None
    } else {
        Some(model::paths_of(repos)[0])
    }
}

fn first_checkout(tree: &Tree) -> (path: Option<String>)
    ensures
        shapes::opt(path) == first_path(shapes::views(tree.repos@)),
{
    let paths = model::checkout_paths(tree);
    assert(text::texts(paths@).len() == paths@.len());
    if paths.len() == 0 {
        None
    } else {
        assert(text::texts(paths@)[0] == paths@[0]@);
        Some(paths[0].clone())
    }
}

// ---------------------------------------------------------------- keys

/// What a key asks of the picker.
#[derive(Debug, Clone, Copy, PartialEq, Eq, Structural)]
pub enum Key {
    /// Go where the cursor is, or ask the sweep's question.
    Enter,
    /// Say yes to the question that is up.
    Yes,
    /// Ask whether the checkout under the cursor is to go.
    Remove,
    /// Enter a sweep, or leave it.
    Sweep,
    /// Add a pane in the checkout under the cursor.
    NewPane,
    /// Show the checkouts without panes, or leave them out.
    ToggleEmpty,
    /// Go to the other picker.
    Switch,
    /// Read the list again.
    Reload,
    /// Leave the sweep, or the picker.
    Quit,
    /// Nothing that means anything here.
    Other,
}

/// What a key makes the loop do.
#[derive(Debug, Clone, PartialEq, Eq)]
pub enum Action {
    /// Nothing: the key was for the picker alone.
    Consumed,
    /// Nothing: the key meant nothing.
    Ignored,
    Quit,
    /// Go to this pane.
    Jump(String),
    OpenWorktree { repo_root: String, checkout_path: String },
    NewPane { checkout_path: String, beside_pane_id: String },
    ShowBranches { repo_root: Option<String> },
    /// Read the list again.
    Reload,
    /// Read the list again, and then ask the sweep's question.
    SweepReload,
    RemoveWorktree(Removal),
    RemoveWorktrees(Vec<Removal>),
}

#[verifier::ext_equal]
pub enum ActionView {
    Consumed,
    Ignored,
    Quit,
    Jump(Seq<char>),
    OpenWorktree { repo_root: Seq<char>, checkout_path: Seq<char> },
    NewPane { checkout_path: Seq<char>, beside_pane_id: Seq<char> },
    ShowBranches { repo_root: Option<Seq<char>> },
    Reload,
    SweepReload,
    RemoveWorktree(RemovalView),
    RemoveWorktrees(Seq<RemovalView>),
}

impl View for Action {
    type V = ActionView;

    open spec fn view(&self) -> ActionView {
        match self {
            Action::Consumed => ActionView::Consumed,
            Action::Ignored => ActionView::Ignored,
            Action::Quit => ActionView::Quit,
            Action::Jump(pane) => ActionView::Jump(pane@),
            Action::OpenWorktree { repo_root, checkout_path } => ActionView::OpenWorktree {
                repo_root: repo_root@,
                checkout_path: checkout_path@,
            },
            Action::NewPane { checkout_path, beside_pane_id } => ActionView::NewPane {
                checkout_path: checkout_path@,
                beside_pane_id: beside_pane_id@,
            },
            Action::ShowBranches { repo_root } => ActionView::ShowBranches {
                repo_root: shapes::opt(*repo_root),
            },
            Action::Reload => ActionView::Reload,
            Action::SweepReload => ActionView::SweepReload,
            Action::RemoveWorktree(removal) => ActionView::RemoveWorktree(removal@),
            Action::RemoveWorktrees(removals) => ActionView::RemoveWorktrees(
                shapes::views(removals@),
            ),
        }
    }
}

/// The first checkout at `path` among those of one repository.
pub open spec fn find_worktree(worktrees: Seq<WorktreeNodeView>, path: Seq<char>) -> Option<
    WorktreeNodeView,
>
    decreases worktrees.len(),
{
    if worktrees.len() == 0 {
        None
    } else if worktrees[0].checkout_path == path {
        Some(worktrees[0])
    } else {
        find_worktree(worktrees.skip(1), path)
    }
}

/// The first checkout at `path`, with the root of its repository.
pub open spec fn find_checkout(repos: Seq<RepoNodeView>, path: Seq<char>) -> Option<
    (Seq<char>, WorktreeNodeView),
>
    decreases repos.len(),
{
    if repos.len() == 0 {
        None
    } else {
        match find_worktree(repos[0].worktrees, path) {
            Some(worktree) => Some((repos[0].repo_root, worktree)),
            None => find_checkout(repos.skip(1), path),
        }
    }
}

/// The checkout under the cursor.
pub open spec fn under_cursor(state: PanesState) -> Option<(Seq<char>, WorktreeNodeView)> {
    match state.selected {
        Some(path) => find_checkout(shapes::views(state.tree.repos@), path@),
        None => None,
    }
}

/// Why a checkout is not offered for removal; nothing where it is.
pub open spec fn not_offered(state: PanesState, worktree: WorktreeNodeView) -> Option<Seq<char>> {
    if worktree.is_primary {
        Some("that is the repository's own checkout"@)
    } else if text::texts(state.removing@).contains(worktree.checkout_path) {
        Some("that checkout is being removed already"@)
    } else {
        match working_tree(dirty::answer_views(state.working_trees@), worktree.checkout_path) {
            Some(WorkingTree::Clean) => None,
            Some(WorkingTree::Dirty) => Some("that checkout is holding work nobody has committed"@),
            Some(WorkingTree::Unreadable) => Some("git would not read that working tree"@),
            None => Some("still reading that working tree"@),
        }
    }
}

fn worktree_at<'a>(worktrees: &'a Vec<WorktreeNode>, path: &str) -> (found: Option<&'a WorktreeNode>)
    ensures
        match found {
            Some(worktree) => find_worktree(shapes::views(worktrees@), path@) == Some(worktree@),
            None => find_worktree(shapes::views(worktrees@), path@) is None,
        },
{
    let ghost all = shapes::views(worktrees@);
    let mut i: usize = 0;
    assert(all.skip(0) =~= all);
    while i < worktrees.len()
        invariant
            i <= worktrees@.len(),
            all == shapes::views(worktrees@),
            find_worktree(all.skip(i as int), path@) == find_worktree(all, path@),
        decreases worktrees@.len() - i,
    {
        assert(all.skip(i as int)[0] == worktrees@[i as int]@);
        if same(worktrees[i].checkout_path.as_str(), path) {
            return Some(&worktrees[i]);
        }
        assert(all.skip(i as int).skip(1) =~= all.skip(i + 1));
        i = i + 1;
    }
    None
}

fn checkout_at<'a>(repos: &'a Vec<RepoNode>, path: &str) -> (found: Option<
    (&'a RepoNode, &'a WorktreeNode),
>)
    ensures
        match found {
            Some((repo, worktree)) => find_checkout(shapes::views(repos@), path@) == Some(
                (repo.repo_root@, worktree@),
            ),
            None => find_checkout(shapes::views(repos@), path@) is None,
        },
{
    let ghost all = shapes::views(repos@);
    let mut i: usize = 0;
    assert(all.skip(0) =~= all);
    while i < repos.len()
        invariant
            i <= repos@.len(),
            all == shapes::views(repos@),
            find_checkout(all.skip(i as int), path@) == find_checkout(all, path@),
        decreases repos@.len() - i,
    {
        assert(all.skip(i as int)[0] == repos@[i as int]@);
        match worktree_at(&repos[i].worktrees, path) {
            Some(worktree) => {
                return Some((&repos[i], worktree));
            },
            None => {},
        }
        assert(all.skip(i as int).skip(1) =~= all.skip(i + 1));
        i = i + 1;
    }
    None
}

/// What a key does where no question is up.
pub open spec fn key_action(state: PanesState, key: Key) -> ActionView {
    match key {
        Key::Enter => if state.sweeping {
            if marked(state).len() == 0 {
                ActionView::Consumed
            } else {
                ActionView::SweepReload
            }
        } else {
            match state.selected_pane {
                Some(pane) => ActionView::Jump(pane@),
                None => match under_cursor(state) {
                    Some((root, worktree)) => ActionView::OpenWorktree {
                        repo_root: root,
                        checkout_path: worktree.checkout_path,
                    },
                    None => ActionView::Ignored,
                },
            }
        },
        Key::Yes | Key::Other => ActionView::Ignored,
        Key::Remove | Key::Sweep | Key::ToggleEmpty => ActionView::Consumed,
        Key::NewPane => match (under_cursor(state), state.selected_pane) {
            (Some((_, worktree)), Some(pane)) => ActionView::NewPane {
                checkout_path: worktree.checkout_path,
                beside_pane_id: pane@,
            },
            _ => ActionView::Ignored,
        },
        Key::Switch => ActionView::ShowBranches {
            repo_root: match under_cursor(state) {
                Some((root, _)) => Some(root),
                None => None,
            },
        },
        Key::Reload => ActionView::Reload,
        Key::Quit => if state.sweeping {
            ActionView::Consumed
        } else {
            ActionView::Quit
        },
    }
}

/// What the prompt line says after a key where no question is up.
pub open spec fn key_message(state: PanesState, key: Key) -> Option<Seq<char>> {
    match key {
        Key::Remove => match under_cursor(state) {
            None => Some("there is no checkout to remove there"@),
            Some((_, worktree)) => not_offered(state, worktree),
        },
        Key::Enter => if state.sweeping && marked(state).len() == 0 {
            Some("nothing is marked"@)
        } else {
            None
        },
        _ => None,
    }
}

/// The question that is up after a key where none was.
pub open spec fn key_asked(state: PanesState, key: Key) -> Option<AskedView> {
    match key {
        Key::Remove => match under_cursor(state) {
            Some((root, worktree)) => if not_offered(state, worktree) is None {
                Some(AskedView::Removal(removals::removal_of(root, worktree, false)))
            } else {
                None
            },
            None => None,
        },
        _ => None,
    }
}

/// What was marked when `Enter` asked, after a key.
pub open spec fn key_enter(state: PanesState, key: Key) -> Option<Seq<RemovalView>> {
    match key {
        Key::Enter => if state.sweeping && marked(state).len() > 0 {
            Some(marked(state))
        } else {
            entered(state)
        },
        Key::Sweep => None,
        Key::Quit => if state.sweeping {
            None
        } else {
            entered(state)
        },
        _ => entered(state),
    }
}

/// What was marked when `Enter` asked.
pub open spec fn entered(state: PanesState) -> Option<Seq<RemovalView>> {
    match state.enter {
        Some(marks) => Some(shapes::views(marks@)),
        None => None,
    }
}

/// Whether a sweep is on after a key where no question is up.
pub open spec fn key_sweeping(state: PanesState, key: Key) -> bool {
    match key {
        Key::Sweep => !state.sweeping,
        Key::Quit => false,
        _ => state.sweeping,
    }
}

impl PanesState {
    /// What a key does. A question that is up takes it: a yes goes ahead, and anything else takes
    /// the question back.
    pub fn handle_key(&mut self, key: Key) -> (action: Action)
        ensures
            match old(self).asked {
                Some(asked) => if key == Key::Yes {
                    &&& *final(self) == (PanesState {
                        asked: None,
                        message: None,
                        sweeping: match asked {
                            Asked::Removal(_) => old(self).sweeping,
                            Asked::Sweep(_) => false,
                        },
                        ..*old(self)
                    })
                    &&& action@ == match asked@ {
                        AskedView::Removal(removal) => ActionView::RemoveWorktree(removal),
                        AskedView::Sweep(removals) => ActionView::RemoveWorktrees(removals),
                    }
                } else {
                    &&& *final(self) == (PanesState { asked: None, message: None, ..*old(self) })
                    &&& action@ == ActionView::Consumed
                },
                None => {
                    &&& action@ == key_action(*old(self), key)
                    &&& *final(self) == (PanesState {
                        message: final(self).message,
                        asked: final(self).asked,
                        enter: final(self).enter,
                        sweeping: key_sweeping(*old(self), key),
                        sweep_entered: old(self).sweep_entered || (key == Key::Sweep && !old(self).sweeping),
                        show_worktrees_without_panes: if key == Key::ToggleEmpty {
                            !old(self).show_worktrees_without_panes
                        } else {
                            old(self).show_worktrees_without_panes
                        },
                        ..*old(self)
                    })
                    &&& shapes::opt(final(self).message) == key_message(*old(self), key)
                    &&& shapes::opt(final(self).asked) == key_asked(*old(self), key)
                    &&& entered(*final(self)) == key_enter(*old(self), key)
                },
            },
    {
        match self.asked.take() {
            Some(asked) => {
                self.message = None;
                if key == Key::Yes {
                    match asked {
                        Asked::Removal(removal) => Action::RemoveWorktree(removal),
                        Asked::Sweep(removals) => {
                            self.sweeping = false;
                            Action::RemoveWorktrees(removals)
                        },
                    }
                } else {
                    Action::Consumed
                }
            },
            None => {
                assert(*self == *old(self));
                self.plain_key(key)
            },
        }
    }

    fn plain_key(&mut self, key: Key) -> (action: Action)
        requires
            old(self).asked is None,
        ensures
            action@ == key_action(*old(self), key),
            *final(self) == (PanesState {
                message: final(self).message,
                asked: final(self).asked,
                enter: final(self).enter,
                sweeping: key_sweeping(*old(self), key),
                sweep_entered: old(self).sweep_entered || (key == Key::Sweep && !old(self).sweeping),
                show_worktrees_without_panes: if key == Key::ToggleEmpty {
                    !old(self).show_worktrees_without_panes
                } else {
                    old(self).show_worktrees_without_panes
                },
                ..*old(self)
            }),
            shapes::opt(final(self).message) == key_message(*old(self), key),
            shapes::opt(final(self).asked) == key_asked(*old(self), key),
            entered(*final(self)) == key_enter(*old(self), key),
    {
        match key {
            Key::Enter => {
                if self.sweeping {
                    let marks = self.chosen();
                    assert(shapes::views(marks@).len() == marks@.len());
                    if marks.len() == 0 {
                        self.message = Some("nothing is marked".to_owned());
                        Action::Consumed
                    } else {
                        self.enter = Some(marks);
                        self.message = None;
                        Action::SweepReload
                    }
                } else {
                    let action = match &self.selected_pane {
                        Some(pane) => Action::Jump(pane.clone()),
                        None => match &self.selected {
                            Some(path) => match checkout_at(&self.tree.repos, path.as_str()) {
                                Some((repo, worktree)) => Action::OpenWorktree {
                                    repo_root: repo.repo_root.clone(),
                                    checkout_path: worktree.checkout_path.clone(),
                                },
                                None => Action::Ignored,
                            },
                            None => Action::Ignored,
                        },
                    };
                    self.message = None;
                    action
                }
            },
            Key::Yes => {
                self.message = None;
                Action::Ignored
            },
            Key::Other => {
                self.message = None;
                Action::Ignored
            },
            Key::Remove => {
                let (message, asked) = self.offer();
                self.message = message;
                self.asked = asked;
                Action::Consumed
            },
            Key::Sweep => {
                self.message = None;
                self.enter = None;
                if self.sweeping {
                    self.sweeping = false;
                } else {
                    self.sweeping = true;
                    self.sweep_entered = true;
                }
                Action::Consumed
            },
            Key::ToggleEmpty => {
                self.message = None;
                self.show_worktrees_without_panes = !self.show_worktrees_without_panes;
                Action::Consumed
            },
            Key::NewPane => {
                let action = match (&self.selected, &self.selected_pane) {
                    (Some(path), Some(pane)) => match checkout_at(&self.tree.repos, path.as_str()) {
                        Some((_, worktree)) => Action::NewPane {
                            checkout_path: worktree.checkout_path.clone(),
                            beside_pane_id: pane.clone(),
                        },
                        None => Action::Ignored,
                    },
                    _ => Action::Ignored,
                };
                self.message = None;
                action
            },
            Key::Switch => {
                let repo_root = match &self.selected {
                    Some(path) => match checkout_at(&self.tree.repos, path.as_str()) {
                        Some((repo, _)) => Some(repo.repo_root.clone()),
                        None => None,
                    },
                    None => None,
                };
                self.message = None;
                Action::ShowBranches { repo_root }
            },
            Key::Reload => {
                self.message = None;
                Action::Reload
            },
            Key::Quit => {
                self.message = None;
                if self.sweeping {
                    self.sweeping = false;
                    self.enter = None;
                    Action::Consumed
                } else {
                    Action::Quit
                }
            },
        }
    }

    /// Whether the checkout under the cursor is offered for removal: the question, or why not.
    fn offer(&self) -> (offered: (Option<String>, Option<Asked>))
        ensures
            shapes::opt(offered.0) == key_message(*self, Key::Remove),
            shapes::opt(offered.1) == key_asked(*self, Key::Remove),
    {
        let found = match &self.selected {
            Some(path) => checkout_at(&self.tree.repos, path.as_str()),
            None => None,
        };
        let (repo, worktree) = match found {
            Some(found) => found,
            None => {
                return (Some("there is no checkout to remove there".to_owned()), None);
            },
        };
        let path = worktree.checkout_path.as_str();
        if worktree.is_primary {
            return (Some("that is the repository's own checkout".to_owned()), None);
        }
        if listed(&self.removing, path) {
            return (Some("that checkout is being removed already".to_owned()), None);
        }
        match known_working_tree(&self.working_trees, path) {
            Some(WorkingTree::Clean) => (
                None,
                Some(Asked::Removal(Removal::of(repo.repo_root.as_str(), worktree))),
            ),
            Some(WorkingTree::Dirty) => (
                Some("that checkout is holding work nobody has committed".to_owned()),
                None,
            ),
            Some(WorkingTree::Unreadable) => (
                Some("git would not read that working tree".to_owned()),
                None,
            ),
            None => (Some("still reading that working tree".to_owned()), None),
        }
    }
}

// ---------------------------------------------------------------- laws

/// A checkout that is not known to be clean is never offered for removal.
pub proof fn law_only_clean_is_offered(state: PanesState, root: Seq<char>, worktree: WorktreeNodeView)
    requires
        under_cursor(state) == Some((root, worktree)),
        key_asked(state, Key::Remove) is Some,
    ensures
        working_tree(dirty::answer_views(state.working_trees@), worktree.checkout_path) == Some(
            WorkingTree::Clean,
        ),
        !worktree.is_primary,
{
}

/// The question of a sweep is only about checkouts that are marked now.
pub proof fn law_sweep_asks_only_about_marked(all: Seq<RemovalView>, now: Seq<RemovalView>, i: int)
    requires
        0 <= i < also_in(all, now).len(),
    ensures
        removes(now, also_in(all, now)[i].checkout_path),
    decreases all.len(),
{
    if all.len() > 0 && i < also_in(all.drop_last(), now).len() {
        law_sweep_asks_only_about_marked(all.drop_last(), now, i);
    }
}

/// Everything that a sweep marks is finished: nothing runs in it, and nothing in it is
/// uncommitted.
pub proof fn law_marked_is_finished(state: PanesState, i: int)
    requires
        0 <= i < marked(state).len(),
    ensures
        marked(state)[i].panes.len() == 0,
        marked(state)[i].delete_branch,
        working_tree(
            dirty::answer_views(state.working_trees@),
            marked(state)[i].checkout_path,
        ) == Some(WorkingTree::Clean),
{
    lemma_finished_among(state, shapes::views(state.tree.repos@), i);
}

proof fn lemma_finished_in(
    state: PanesState,
    root: Seq<char>,
    worktrees: Seq<WorktreeNodeView>,
    i: int,
)
    requires
        0 <= i < finished_in(state, root, worktrees).len(),
    ensures
        finished_in(state, root, worktrees)[i].panes.len() == 0,
        finished_in(state, root, worktrees)[i].delete_branch,
        working_tree(
            dirty::answer_views(state.working_trees@),
            finished_in(state, root, worktrees)[i].checkout_path,
        ) == Some(WorkingTree::Clean),
    decreases worktrees.len(),
{
    if i < finished_in(state, root, worktrees.drop_last()).len() {
        lemma_finished_in(state, root, worktrees.drop_last(), i);
    }
}

proof fn lemma_finished_among(state: PanesState, repos: Seq<RepoNodeView>, i: int)
    requires
        0 <= i < finished_among(state, repos).len(),
    ensures
        finished_among(state, repos)[i].panes.len() == 0,
        finished_among(state, repos)[i].delete_branch,
        working_tree(
            dirty::answer_views(state.working_trees@),
            finished_among(state, repos)[i].checkout_path,
        ) == Some(WorkingTree::Clean),
    decreases repos.len(),
{
    let front = finished_among(state, repos.drop_last());
    if i < front.len() {
        lemma_finished_among(state, repos.drop_last(), i);
    } else {
        lemma_finished_in(
            state,
            repos.last().repo_root,
            repos.last().worktrees,
            i - front.len(),
        );
    }
}

/// What is known of a working tree is what was said of it last, and where nothing was said nothing
/// is known.
pub proof fn law_last_word_on_a_working_tree_counts(
    front: Seq<(Seq<char>, WorkingTree)>,
    path: Seq<char>,
    answer: WorkingTree,
    behind: Seq<(Seq<char>, WorkingTree)>,
)
    requires
        forall|i: int| 0 <= i < behind.len() ==> (#[trigger] behind[i]).0 != path,
    ensures
        working_tree(front.push((path, answer)) + behind, path) == Some(answer),
        working_tree(behind, path) is None,
    decreases behind.len(),
{
    let all = front.push((path, answer)) + behind;
    if behind.len() == 0 {
        assert(all =~= front.push((path, answer)));
    } else {
        let rest = behind.drop_last();
        assert forall|i: int| 0 <= i < rest.len() implies (#[trigger] rest[i]).0 != path by {
            assert(behind[i].0 != path);
        }
        law_last_word_on_a_working_tree_counts(front, path, answer, rest);
        assert(all.drop_last() =~= front.push((path, answer)) + rest);
        assert(all.last() == behind[behind.len() - 1]);
    }
}

/// Whether a checkout can go in a sweep: it is not the repository's own, nothing runs in it, git
/// said that nothing in it is uncommitted, it is not going already, and its branch is gone from
/// where it was pushed or has a settled pull request of its own, one that is not from a fork.
pub open spec fn can_go(state: PanesState, root: Seq<char>, worktree: WorktreeNodeView) -> bool {
    &&& !worktree.is_primary
    &&& worktree.panes.len() == 0
    &&& working_tree(dirty::answer_views(state.working_trees@), worktree.checkout_path) == Some(
        WorkingTree::Clean,
    )
    &&& !(exists|i: int|
        0 <= i < state.removing@.len() && (#[trigger] state.removing@[i])@
            == worktree.checkout_path)
    &&& worktree.branch matches BranchView::Out(name) && (worktree.track == Some(Track::Gone) || (
    state.settled@.contains_key(root) && match state.settled@[root] {
        Some(SettledPullRequests::All(list)) => exists|i: int|
            0 <= i < list@.len() && (#[trigger] list@[i]).head_ref@ == name
                && !list@[i].from_a_fork,
        Some(SettledPullRequests::Window(list)) => exists|i: int|
            0 <= i < list@.len() && (#[trigger] list@[i]).head_ref@ == name
                && !list@[i].from_a_fork,
        None => false,
    }))
}

proof fn lemma_listed_settled(list: Vec<SettledPullRequest>, name: Seq<char>)
    ensures
        is_settled(shapes::views(list@), name) <==> exists|i: int|
            0 <= i < list@.len() && (#[trigger] list@[i]).head_ref@ == name
                && !list@[i].from_a_fork,
{
    let all = shapes::views(list@);
    if is_settled(all, name) {
        let i = choose|i: int|
            0 <= i < all.len() && (#[trigger] all[i]).head_ref == name && !all[i].from_a_fork;
        assert(list@[i].head_ref@ == name);
    }
    if exists|i: int|
        0 <= i < list@.len() && (#[trigger] list@[i]).head_ref@ == name && !list@[i].from_a_fork {
        let i = choose|i: int|
            0 <= i < list@.len() && (#[trigger] list@[i]).head_ref@ == name && !list@[i].from_a_fork;
        assert(all[i].head_ref == name);
    }
}

proof fn lemma_finished_can_go(state: PanesState, root: Seq<char>, worktree: WorktreeNodeView)
    ensures
        finished(state, root, worktree) <==> can_go(state, root, worktree),
{
    let going = text::texts(state.removing@);
    if going.contains(worktree.checkout_path) {
        let i = choose|i: int| 0 <= i < going.len() && going[i] == worktree.checkout_path;
        assert(state.removing@[i]@ == worktree.checkout_path);
    }
    if exists|i: int|
        0 <= i < state.removing@.len() && (#[trigger] state.removing@[i])@
            == worktree.checkout_path {
        let i = choose|i: int|
            0 <= i < state.removing@.len() && (#[trigger] state.removing@[i])@
                == worktree.checkout_path;
        assert(going[i] == worktree.checkout_path);
    }
    match worktree.branch {
        BranchView::Out(name) => {
            if state.settled@.contains_key(root) {
                match state.settled@[root] {
                    Some(SettledPullRequests::All(list)) => {
                        lemma_listed_settled(list, name);
                    },
                    Some(SettledPullRequests::Window(list)) => {
                        lemma_listed_settled(list, name);
                    },
                    None => {},
                }
            }
        },
        _ => {},
    }
}

/// A sweep marks exactly the checkouts that can go, each with its branch: every one of them, and no
/// other.
pub proof fn law_sweep_marks_exactly_what_can_go(state: PanesState, removal: RemovalView)
    ensures
        marked(state).contains(removal) <==> exists|r: int, w: int|
            0 <= r < state.tree.repos@.len() && 0 <= w < state.tree.repos@[r].worktrees@.len()
                && can_go(
                state,
                state.tree.repos@[r].repo_root@,
                (#[trigger] state.tree.repos@[r].worktrees@[w])@,
            ) && removal == removals::removal_of(
                state.tree.repos@[r].repo_root@,
                state.tree.repos@[r].worktrees@[w]@,
                true,
            ),
{
    let repos = shapes::views(state.tree.repos@);
    lemma_marked_among(state, repos, removal);
    if marked(state).contains(removal) {
        let (r, w) = choose|r: int, w: int|
            0 <= r < repos.len() && 0 <= w < repos[r].worktrees.len() && finished(
                state,
                repos[r].repo_root,
                #[trigger] repos[r].worktrees[w],
            ) && removal == removals::removal_of(repos[r].repo_root, repos[r].worktrees[w], true);
        lemma_finished_can_go(state, repos[r].repo_root, repos[r].worktrees[w]);
        assert(state.tree.repos@[r].worktrees@[w]@ == repos[r].worktrees[w]);
    }
    if exists|r: int, w: int|
        0 <= r < state.tree.repos@.len() && 0 <= w < state.tree.repos@[r].worktrees@.len() && can_go(
            state,
            state.tree.repos@[r].repo_root@,
            (#[trigger] state.tree.repos@[r].worktrees@[w])@,
        ) && removal == removals::removal_of(
            state.tree.repos@[r].repo_root@,
            state.tree.repos@[r].worktrees@[w]@,
            true,
        ) {
        let (r, w) = choose|r: int, w: int|
            0 <= r < state.tree.repos@.len() && 0 <= w < state.tree.repos@[r].worktrees@.len()
                && can_go(
                state,
                state.tree.repos@[r].repo_root@,
                (#[trigger] state.tree.repos@[r].worktrees@[w])@,
            ) && removal == removals::removal_of(
                state.tree.repos@[r].repo_root@,
                state.tree.repos@[r].worktrees@[w]@,
                true,
            );
        lemma_finished_can_go(state, repos[r].repo_root, repos[r].worktrees[w]);
        assert(repos[r].worktrees[w] == state.tree.repos@[r].worktrees@[w]@);
    }
}

proof fn lemma_marked_in(
    state: PanesState,
    root: Seq<char>,
    worktrees: Seq<WorktreeNodeView>,
    removal: RemovalView,
)
    ensures
        finished_in(state, root, worktrees).contains(removal) <==> exists|w: int|
            0 <= w < worktrees.len() && finished(state, root, #[trigger] worktrees[w]) && removal
                == removals::removal_of(root, worktrees[w], true),
    decreases worktrees.len(),
{
    let all = finished_in(state, root, worktrees);
    if worktrees.len() > 0 {
        let front = worktrees.drop_last();
        let so_far = finished_in(state, root, front);
        lemma_marked_in(state, root, front, removal);
        if all.contains(removal) {
            let k = choose|k: int| 0 <= k < all.len() && all[k] == removal;
            if k < so_far.len() {
                assert(so_far[k] == removal);
                let w = choose|w: int|
                    0 <= w < front.len() && finished(state, root, #[trigger] front[w]) && removal
                        == removals::removal_of(root, front[w], true);
                assert(worktrees[w] == front[w]);
            } else {
                assert(finished(state, root, worktrees[worktrees.len() - 1]));
            }
        }
        if exists|w: int|
            0 <= w < worktrees.len() && finished(state, root, #[trigger] worktrees[w]) && removal
                == removals::removal_of(root, worktrees[w], true) {
            let w = choose|w: int|
                0 <= w < worktrees.len() && finished(state, root, #[trigger] worktrees[w])
                    && removal == removals::removal_of(root, worktrees[w], true);
            if w < front.len() {
                assert(front[w] == worktrees[w]);
                let k = choose|k: int| 0 <= k < so_far.len() && so_far[k] == removal;
                assert(all[k] == removal);
            } else {
                assert(all[all.len() - 1] == removal);
            }
        }
    }
}

proof fn lemma_marked_among(state: PanesState, repos: Seq<RepoNodeView>, removal: RemovalView)
    ensures
        finished_among(state, repos).contains(removal) <==> exists|r: int, w: int|
            0 <= r < repos.len() && 0 <= w < repos[r].worktrees.len() && finished(
                state,
                repos[r].repo_root,
                #[trigger] repos[r].worktrees[w],
            ) && removal == removals::removal_of(repos[r].repo_root, repos[r].worktrees[w], true),
    decreases repos.len(),
{
    let all = finished_among(state, repos);
    if repos.len() > 0 {
        let front = repos.drop_last();
        let last = repos.last();
        let so_far = finished_among(state, front);
        let own = finished_in(state, last.repo_root, last.worktrees);
        lemma_marked_among(state, front, removal);
        lemma_marked_in(state, last.repo_root, last.worktrees, removal);
        if all.contains(removal) {
            let k = choose|k: int| 0 <= k < all.len() && all[k] == removal;
            if k < so_far.len() {
                assert(so_far[k] == removal);
                let (r, w) = choose|r: int, w: int|
                    0 <= r < front.len() && 0 <= w < front[r].worktrees.len() && finished(
                        state,
                        front[r].repo_root,
                        #[trigger] front[r].worktrees[w],
                    ) && removal == removals::removal_of(
                        front[r].repo_root,
                        front[r].worktrees[w],
                        true,
                    );
                assert(repos[r] == front[r]);
                assert(finished(state, repos[r].repo_root, repos[r].worktrees[w]));
            } else {
                assert(own[k - so_far.len()] == removal);
                let w = choose|w: int|
                    0 <= w < last.worktrees.len() && finished(
                        state,
                        last.repo_root,
                        #[trigger] last.worktrees[w],
                    ) && removal == removals::removal_of(last.repo_root, last.worktrees[w], true);
                let r = repos.len() - 1;
                assert(repos[r] == last);
                assert(finished(state, repos[r].repo_root, repos[r].worktrees[w]));
            }
        }
        if exists|r: int, w: int|
            0 <= r < repos.len() && 0 <= w < repos[r].worktrees.len() && finished(
                state,
                repos[r].repo_root,
                #[trigger] repos[r].worktrees[w],
            ) && removal == removals::removal_of(repos[r].repo_root, repos[r].worktrees[w], true) {
            let (r, w) = choose|r: int, w: int|
                0 <= r < repos.len() && 0 <= w < repos[r].worktrees.len() && finished(
                    state,
                    repos[r].repo_root,
                    #[trigger] repos[r].worktrees[w],
                ) && removal == removals::removal_of(
                    repos[r].repo_root,
                    repos[r].worktrees[w],
                    true,
                );
            if r < front.len() {
                assert(front[r] == repos[r]);
                assert(finished(state, front[r].repo_root, front[r].worktrees[w]));
                let k = choose|k: int| 0 <= k < so_far.len() && so_far[k] == removal;
                assert(all[k] == removal);
            } else {
                assert(finished(state, last.repo_root, last.worktrees[w]));
                let k = choose|k: int| 0 <= k < own.len() && own[k] == removal;
                assert(all[so_far.len() + k] == removal);
            }
        }
    }
}

/// The question of a sweep is about every checkout that was marked and still is, and each that no
/// longer is is named: nothing that was marked is passed over.
pub proof fn law_nothing_marked_is_passed_over(
    all: Seq<RemovalView>,
    now: Seq<RemovalView>,
    removal: RemovalView,
)
    ensures
        also_in(all, now).contains(removal) <==> all.contains(removal) && exists|i: int|
            0 <= i < now.len() && (#[trigger] now[i]).checkout_path == removal.checkout_path,
        also_in(all, now).len() + labels_missing(all, now).len() == all.len(),
        all.contains(removal) && !(exists|i: int|
            0 <= i < now.len() && (#[trigger] now[i]).checkout_path == removal.checkout_path)
            ==> labels_missing(all, now).contains(removal.label),
    decreases all.len(),
{
    if all.len() > 0 {
        let front = all.drop_last();
        let last = all.last();
        law_nothing_marked_is_passed_over(front, now, removal);
        let still = also_in(front, now);
        let missing = labels_missing(front, now);
        assert(all[all.len() - 1] == last);
        if all.contains(removal) && removal != last {
            let k = choose|k: int| 0 <= k < all.len() && all[k] == removal;
            assert(front[k] == removal);
        }
        if front.contains(removal) {
            let k = choose|k: int| 0 <= k < front.len() && front[k] == removal;
            assert(all[k] == removal);
        }
        if removes(now, last.checkout_path) {
            let kept = still.push(last);
            assert(also_in(all, now) == kept);
            if still.contains(removal) {
                let k = choose|k: int| 0 <= k < still.len() && still[k] == removal;
                assert(kept[k] == removal);
            }
            if kept.contains(removal) && removal != last {
                let k = choose|k: int| 0 <= k < kept.len() && kept[k] == removal;
                assert(still[k] == removal);
            }
            assert(kept[still.len() as int] == last);
        } else {
            let named = missing.push(last.label);
            assert(labels_missing(all, now) == named);
            assert(named[missing.len() as int] == last.label);
            if missing.contains(removal.label) {
                let k = choose|k: int| 0 <= k < missing.len() && missing[k] == removal.label;
                assert(named[k] == removal.label);
            }
        }
    }
}

/// The question of a sweep comes up only where it was asked for in a sweep and nothing that it rests
/// on is still being read; where it cannot, nothing changes.
pub proof fn law_sweep_waits_for_what_it_rests_on(before: PanesState, after: PanesState)
    requires
        confirmed(before, after),
    ensures
        before.asked is None && after.asked is Some ==> before.sweeping && !before.waiting
            && !before.asking_gh && before.enter is Some,
        !before.sweeping || before.waiting || before.asking_gh || before.asked is Some
            || before.enter is None ==> after == before,
        after.asked matches Some(Asked::Removal(_)) ==> before.asked == after.asked,
{
    if is_ready(before) {
        match after.asked {
            Some(Asked::Removal(removal)) => {
                assert(shapes::opt(after.asked) == Some(AskedView::Removal(removal@)));
            },
            _ => {},
        }
    }
}

/// The checkout at a path is the first at that path, of the first repository that has one.
pub proof fn law_checkout_is_found_by_its_path(repos: Seq<RepoNodeView>, path: Seq<char>)
    ensures
        match find_checkout(repos, path) {
            Some((root, worktree)) => worktree.checkout_path == path && exists|r: int, w: int|
                0 <= r < repos.len() && 0 <= w < repos[r].worktrees.len() && (
                #[trigger] repos[r].worktrees[w]) == worktree && repos[r].repo_root == root,
            None => forall|r: int, w: int|
                0 <= r < repos.len() && 0 <= w < repos[r].worktrees.len() ==> (
                #[trigger] repos[r].worktrees[w]).checkout_path != path,
        },
    decreases repos.len(),
{
    if repos.len() > 0 {
        lemma_found_by_path(repos[0].worktrees, path);
        match find_worktree(repos[0].worktrees, path) {
            Some(worktree) => {
                let w = choose|w: int|
                    0 <= w < repos[0].worktrees.len() && (#[trigger] repos[0].worktrees[w])
                        == worktree;
                assert(repos[0].worktrees[w] == worktree);
            },
            None => {
                let rest = repos.skip(1);
                law_checkout_is_found_by_its_path(rest, path);
                match find_checkout(rest, path) {
                    Some((root, worktree)) => {
                        let (r, w) = choose|r: int, w: int|
                            0 <= r < rest.len() && 0 <= w < rest[r].worktrees.len() && (
                            #[trigger] rest[r].worktrees[w]) == worktree && rest[r].repo_root
                                == root;
                        assert(rest[r] == repos[r + 1]);
                        assert(repos[r + 1].worktrees[w] == worktree);
                    },
                    None => {
                        assert forall|r: int, w: int|
                            0 <= r < repos.len() && 0 <= w < repos[r].worktrees.len() implies (
                        #[trigger] repos[r].worktrees[w]).checkout_path != path by {
                            if r > 0 {
                                assert(rest[r - 1] == repos[r]);
                                assert(rest[r - 1].worktrees[w].checkout_path != path);
                            }
                        }
                    },
                }
            },
        }
    }
}

proof fn lemma_found_by_path(worktrees: Seq<WorktreeNodeView>, path: Seq<char>)
    ensures
        match find_worktree(worktrees, path) {
            Some(worktree) => worktree.checkout_path == path && exists|w: int|
                0 <= w < worktrees.len() && (#[trigger] worktrees[w]) == worktree,
            None => forall|w: int|
                0 <= w < worktrees.len() ==> (#[trigger] worktrees[w]).checkout_path != path,
        },
    decreases worktrees.len(),
{
    if worktrees.len() > 0 && worktrees[0].checkout_path != path {
        let rest = worktrees.skip(1);
        lemma_found_by_path(rest, path);
        match find_worktree(rest, path) {
            Some(worktree) => {
                let w = choose|w: int| 0 <= w < rest.len() && (#[trigger] rest[w]) == worktree;
                assert(worktrees[w + 1] == worktree);
            },
            None => {
                assert forall|w: int| 0 <= w < worktrees.len() implies (
                #[trigger] worktrees[w]).checkout_path != path by {
                    if w > 0 {
                        assert(rest[w - 1] == worktrees[w]);
                    }
                }
            },
        }
    }
}

/// A key goes where the cursor is: to the pane, or into the checkout where it is on no pane; and a
/// new pane goes beside the pane under the cursor. The other picker is told the repository. Nothing
/// is removed by a key alone.
pub proof fn law_key_goes_where_the_cursor_is(state: PanesState, key: Key)
    ensures
        !(key_action(state, key) is RemoveWorktree) && !(key_action(state, key) is RemoveWorktrees),
        !state.sweeping ==> (state.selected_pane matches Some(pane) ==> key_action(state, Key::Enter)
            == ActionView::Jump(pane@)),
        !state.sweeping && state.selected_pane is None ==> (under_cursor(state) matches Some(
            (root, worktree),
        ) ==> key_action(state, Key::Enter) == (ActionView::OpenWorktree {
            repo_root: root,
            checkout_path: worktree.checkout_path,
        })),
        state.sweeping ==> (key_action(state, Key::Enter) is SweepReload <==> marked(state).len()
            > 0),
        under_cursor(state) matches Some((root, worktree)) ==> key_action(state, Key::Switch) == (
        ActionView::ShowBranches { repo_root: Some(root) }) && (state.selected_pane matches Some(
            pane,
        ) ==> key_action(state, Key::NewPane) == (ActionView::NewPane {
            checkout_path: worktree.checkout_path,
            beside_pane_id: pane@,
        })),
        under_cursor(state) is None ==> key_action(state, Key::Switch) == (
        ActionView::ShowBranches { repo_root: None }) && key_action(state, Key::NewPane) is Ignored,
        key_action(state, Key::Reload) is Reload,
        key_action(state, Key::Quit) is Quit <==> !state.sweeping,
        key_action(state, key) is Quit ==> key == Key::Quit,
{
}

/// Only the key for it asks whether a checkout is to go, and only about the one under the cursor
/// where that can: not the repository's own, not going already, and known to be clean. Its branch
/// stays. Else the prompt line says why not.
pub proof fn law_only_what_can_go_is_asked_about(state: PanesState, key: Key)
    ensures
        key_asked(state, key) is Some ==> key == Key::Remove,
        match under_cursor(state) {
            Some((root, worktree)) => {
                let can = !worktree.is_primary && !(exists|i: int|
                    0 <= i < state.removing@.len() && (#[trigger] state.removing@[i])@
                        == worktree.checkout_path) && working_tree(
                    dirty::answer_views(state.working_trees@),
                    worktree.checkout_path,
                ) == Some(WorkingTree::Clean);
                if can {
                    key_asked(state, Key::Remove) == Some(
                        AskedView::Removal(removals::removal_of(root, worktree, false)),
                    ) && key_message(state, Key::Remove) is None
                } else {
                    key_asked(state, Key::Remove) is None && key_message(state, Key::Remove) is Some
                }
            },
            None => key_asked(state, Key::Remove) is None && key_message(state, Key::Remove) is Some,
        },
{
    match under_cursor(state) {
        Some((root, worktree)) => {
            let going = text::texts(state.removing@);
            if going.contains(worktree.checkout_path) {
                let i = choose|i: int| 0 <= i < going.len() && going[i] == worktree.checkout_path;
                assert(state.removing@[i]@ == worktree.checkout_path);
            }
            if exists|i: int|
                0 <= i < state.removing@.len() && (#[trigger] state.removing@[i])@
                    == worktree.checkout_path {
                let i = choose|i: int|
                    0 <= i < state.removing@.len() && (#[trigger] state.removing@[i])@
                        == worktree.checkout_path;
                assert(going[i] == worktree.checkout_path);
            }
        },
        None => {},
    }
}

/// The key for a sweep enters it, and leaves it again; leaving the picker leaves it too, and no
/// other key does either.
pub proof fn law_sweep_is_entered_and_left(state: PanesState, key: Key)
    ensures
        key_sweeping(state, Key::Sweep) == !state.sweeping,
        !key_sweeping(state, Key::Quit),
        key != Key::Sweep && key != Key::Quit ==> key_sweeping(state, key) == state.sweeping,
        key_enter(state, Key::Sweep) is None,
        state.sweeping && marked(state).len() > 0 ==> key_enter(state, Key::Enter) == Some(
            marked(state),
        ),
{
}

/// A checkout is offered for removal exactly where it is linked, is not going already, and git
/// found nothing uncommitted in it; and where it is not offered, the first of these that fails is
/// said.
pub proof fn law_what_stands_in_the_way_is_said(state: PanesState, worktree: WorktreeNodeView)
    ensures
        ({
            let path = worktree.checkout_path;
            let found = working_tree(dirty::answer_views(state.working_trees@), path);
            let going = text::texts(state.removing@).contains(path);
            let why = not_offered(state, worktree);
            &&& why is None <==> !worktree.is_primary && !going && found == Some(WorkingTree::Clean)
            &&& worktree.is_primary ==> why == Some("that is the repository's own checkout"@)
            &&& !worktree.is_primary && going ==> why == Some(
                "that checkout is being removed already"@,
            )
            &&& !worktree.is_primary && !going && found == Some(WorkingTree::Dirty) ==> why == Some(
                "that checkout is holding work nobody has committed"@,
            )
            &&& !worktree.is_primary && !going && found == Some(WorkingTree::Unreadable) ==> why
                == Some("git would not read that working tree"@)
            &&& !worktree.is_primary && !going && found is None ==> why == Some(
                "still reading that working tree"@,
            )
        }),
{
}

/// Once everything that a sweep rests on has been read, its question comes up over what was marked
/// and still is; what is no longer marked is named, in its order, and where nothing is left nothing
/// is asked. What was asked for is done with, and nothing else changes.
pub proof fn law_sweep_asks_about_what_is_still_marked(before: PanesState, after: PanesState)
    requires
        confirmed(before, after),
        before.sweeping,
        !before.waiting,
        !before.asking_gh,
        before.asked is None,
        before.enter is Some,
    ensures
        ({
            let marks = shapes::views(before.enter->0@);
            let still = also_in(marks, marked(before));
            let missing = labels_missing(marks, marked(before));
            &&& after.enter is None
            &&& still.len() > 0 ==> shapes::opt(after.asked) == Some(AskedView::Sweep(still))
            &&& still.len() == 0 ==> after.asked is None
            &&& missing.len() == 0 ==> after.message == before.message
            &&& missing.len() > 0 ==> shapes::opt(after.message) == Some(
                "no longer marked: "@ + text::join(missing, ", "@),
            )
            &&& after.tree == before.tree
            &&& after.sweeping
            &&& after.selected == before.selected
            &&& after.removing == before.removing
        }),
{
    if also_in(shapes::views(before.enter->0@), marked(before)).len() == 0 {
        assert(shapes::opt(after.asked) is None);
    }
}

/// Each key says what there is to say of it and nothing else: that there is no checkout under the
/// cursor to remove, why the one there cannot go, or that nothing is marked.
pub proof fn law_key_says_why_it_does_nothing(state: PanesState, key: Key)
    ensures
        under_cursor(state) is None ==> key_message(state, Key::Remove) == Some(
            "there is no checkout to remove there"@,
        ),
        under_cursor(state) matches Some((root, worktree)) ==> key_message(state, Key::Remove)
            == not_offered(state, worktree),
        state.sweeping && marked(state).len() == 0 ==> key_message(state, Key::Enter) == Some(
            "nothing is marked"@,
        ) && key_action(state, Key::Enter) is Consumed,
        !state.sweeping || marked(state).len() > 0 ==> key_message(state, Key::Enter) is None,
        key != Key::Remove && key != Key::Enter ==> key_message(state, key) is None,
        key == Key::Yes || key == Key::Other ==> key_action(state, key) is Ignored,
        key == Key::Remove || key == Key::Sweep || key == Key::ToggleEmpty ==> key_action(
            state,
            key,
        ) is Consumed,
        !state.sweeping && state.selected_pane is None && under_cursor(state) is None
            ==> key_action(state, Key::Enter) is Ignored,
        state.selected_pane is None ==> key_action(state, Key::NewPane) is Ignored,
{
}

/// What `Enter` asked for stays asked for under every key but those that enter or leave the sweep,
/// and is asked anew only by `Enter` in a sweep that has something marked.
pub proof fn law_what_was_entered_stays(state: PanesState, key: Key)
    ensures
        ({
            let was = match state.enter {
                Some(marks) => Some(shapes::views(marks@)),
                None => None,
            };
            &&& key != Key::Enter && key != Key::Sweep && key != Key::Quit ==> key_enter(state, key)
                == was
            &&& !state.sweeping ==> key_enter(state, Key::Enter) == was && key_enter(
                state,
                Key::Quit,
            ) == was
            &&& state.sweeping && marked(state).len() == 0 ==> key_enter(state, Key::Enter) == was
            &&& state.sweeping ==> key_enter(state, Key::Quit) is None
        }),
{
}

} // verus!
