//! The tree that the picker shows: repositories, their checkouts, and the panes in them.

use vstd::prelude::*;
use vstd::slice::slice_subrange;

use crate::ordered::OrderedMap;
use crate::port::{AgentStatus, Track};
use crate::shapes;
use crate::text;
use crate::text::{before_suffix, chars_of, same, text_of, without_end_char};

verus! {

// ---------------------------------------------------------------- paths

/// A path without the slashes at its end. A path of slashes alone is one slash.
pub open spec fn normal_path(path: Seq<char>) -> Seq<char> {
    let bare = text::trim_end_char(path, '/');
    if bare.len() == 0 && path.len() > 0 {
        seq!['/']
    } else {
        bare
    }
}

/// One spelling of a path: without the slashes at its end.
pub fn normalize_path(path: &str) -> (out: String)
    ensures
        out@ == normal_path(path@),
{
    let cs = chars_of(path);
    let bare = without_end_char(cs.as_slice(), '/');
    if bare.len() == 0 && cs.len() > 0 {
        let mut out = String::new();
        out.push('/');
        assert(out@ =~= seq!['/']);
        out
    } else {
        text_of(bare)
    }
}

/// Trimming a character off the end leaves a text that does not end in it.
pub proof fn lemma_trim_end_char(s: Seq<char>, c: char)
    ensures
        text::trim_end_char(s, c).len() > 0 ==> text::trim_end_char(s, c).last() != c,
        text::trim_end_char(s, c).len() <= s.len(),
    decreases s.len(),
{
    if s.len() > 0 && s.last() == c {
        lemma_trim_end_char(s.drop_last(), c);
    }
}

/// A path that has its one spelling keeps it.
pub proof fn law_normal_path_is_normal(path: Seq<char>)
    ensures
        normal_path(normal_path(path)) == normal_path(path),
{
    let bare = text::trim_end_char(path, '/');
    lemma_trim_end_char(path, '/');
    if bare.len() == 0 && path.len() > 0 {
        let one = seq!['/'];
        assert(one.last() == '/');
        assert(one.drop_last() =~= seq![]);
        assert(text::trim_end_char(one.drop_last(), '/') =~= seq![]);
    }
}

/// What stands behind the last slash of a path.
pub open spec fn last_component(path: Seq<char>) -> Seq<char>
    decreases path.len(),
{
    if path.len() == 0 {
        path
    } else if path.last() == '/' {
        seq![]
    } else {
        last_component(path.drop_last()).push(path.last())
    }
}

fn component_of<'a>(path: &'a [char]) -> (out: &'a [char])
    ensures
        out@ == last_component(path@),
{
    let mut at: usize = path.len();
    assert(path@.take(at as int) =~= path@);
    assert(last_component(path@.take(at as int)) + path@.skip(at as int) =~= last_component(path@));
    while at > 0 && path[at - 1] != '/'
        invariant
            at <= path@.len(),
            last_component(path@.take(at as int)) + path@.skip(at as int) == last_component(path@),
        decreases at,
    {
        let ghost was = path@.take(at as int);
        let ghost rest = path@.skip(at as int);
        assert(was.drop_last() =~= path@.take(at - 1));
        assert(was.last() == path@[at - 1]);
        assert(path@.skip(at - 1) =~= seq![was.last()] + rest);
        assert(last_component(was) + rest =~= last_component(was.drop_last()) + (seq![was.last()]
            + rest));
        at = at - 1;
    }
    assert(last_component(path@.take(at as int)) =~= seq![]);
    let out = slice_subrange(path, at, path.len());
    assert(out@ =~= path@.skip(at as int));
    out
}

/// The name that a path is called by: its last component, or all of it where that is empty.
pub open spec fn path_name(path: Seq<char>) -> Seq<char> {
    if last_component(path).len() == 0 {
        path
    } else {
        last_component(path)
    }
}

/// The name that a path is called by.
pub fn name_of_path(path: &str) -> (name: String)
    ensures
        name@ == path_name(path@),
{
    let cs = chars_of(path);
    let last = component_of(cs.as_slice());
    if last.len() == 0 {
        path.to_owned()
    } else {
        text_of(last)
    }
}

// ---------------------------------------------------------------- the tree

/// The branch that a checkout has out.
#[derive(Debug, Clone, PartialEq, Eq)]
pub enum Branch {
    /// The branch of this name.
    Out(String),
    /// None: a detached head.
    NothingOut,
    /// Nobody said: herdr did not list the checkout.
    NotSaid,
}

#[verifier::ext_equal]
pub enum BranchView {
    Out(Seq<char>),
    NothingOut,
    NotSaid,
}

impl View for Branch {
    type V = BranchView;

    open spec fn view(&self) -> BranchView {
        match self {
            Branch::Out(name) => BranchView::Out(name@),
            Branch::NothingOut => BranchView::NothingOut,
            Branch::NotSaid => BranchView::NotSaid,
        }
    }
}

impl Branch {
    /// The name of the branch that is out.
    pub fn name(&self) -> (name: Option<&str>)
        ensures
            match name {
                Some(n) => self@ == BranchView::Out(n@),
                None => !(self@ is Out),
            },
    {
        match self {
            Branch::Out(name) => Some(name.as_str()),
            Branch::NothingOut => None,
            Branch::NotSaid => None,
        }
    }
}

/// Whether the refs of a repository were read.
#[derive(Debug, Clone, PartialEq, Eq)]
pub enum Refs {
    Read,
    Unreadable(String),
}

#[verifier::ext_equal]
pub enum RefsView {
    Read,
    Unreadable(Seq<char>),
}

impl View for Refs {
    type V = RefsView;

    open spec fn view(&self) -> RefsView {
        match self {
            Refs::Read => RefsView::Read,
            Refs::Unreadable(words) => RefsView::Unreadable(words@),
        }
    }
}

impl Refs {
    /// Whether they were read.
    pub fn is_read(&self) -> (read: bool)
        ensures
            read == (self@ is Read),
    {
        match self {
            Refs::Read => true,
            Refs::Unreadable(_) => false,
        }
    }
}

/// Whether a checkout holds work that is not committed.
#[derive(Debug, Clone, Copy, PartialEq, Eq, Structural)]
pub enum WorkingTree {
    Dirty,
    Clean,
    Unreadable,
}

/// A pane in the tree.
#[derive(Debug, Clone, PartialEq, Eq)]
pub struct PaneNode {
    pub pane_id: String,
    pub workspace_id: String,
    pub tab_id: String,
    pub display_name: Option<String>,
    pub agent_status: AgentStatus,
    pub focused: bool,
}

#[verifier::ext_equal]
pub struct PaneNodeView {
    pub pane_id: Seq<char>,
    pub workspace_id: Seq<char>,
    pub tab_id: Seq<char>,
    pub display_name: Option<Seq<char>>,
    pub agent_status: AgentStatus,
    pub focused: bool,
}

impl View for PaneNode {
    type V = PaneNodeView;

    open spec fn view(&self) -> PaneNodeView {
        PaneNodeView {
            pane_id: self.pane_id@,
            workspace_id: self.workspace_id@,
            tab_id: self.tab_id@,
            display_name: shapes::opt(self.display_name),
            agent_status: self.agent_status,
            focused: self.focused,
        }
    }
}

/// A checkout in the tree, with the panes in it.
#[derive(Debug, Clone, PartialEq, Eq)]
pub struct WorktreeNode {
    pub branch: Branch,
    pub checkout_path: String,
    pub is_primary: bool,
    pub open_workspace_id: Option<String>,
    pub track: Option<Track>,
    pub panes: Vec<PaneNode>,
}

#[verifier::ext_equal]
pub struct WorktreeNodeView {
    pub branch: BranchView,
    pub checkout_path: Seq<char>,
    pub is_primary: bool,
    pub open_workspace_id: Option<Seq<char>>,
    pub track: Option<Track>,
    pub panes: Seq<PaneNodeView>,
}

impl View for WorktreeNode {
    type V = WorktreeNodeView;

    open spec fn view(&self) -> WorktreeNodeView {
        WorktreeNodeView {
            branch: self.branch@,
            checkout_path: self.checkout_path@,
            is_primary: self.is_primary,
            open_workspace_id: shapes::opt(self.open_workspace_id),
            track: self.track,
            panes: shapes::views(self.panes@),
        }
    }
}

/// A repository in the tree, with its checkouts.
#[derive(Debug, Clone, PartialEq, Eq)]
pub struct RepoNode {
    pub repo_key: String,
    pub repo_root: String,
    pub display_name: String,
    pub refs: Refs,
    pub worktrees: Vec<WorktreeNode>,
}

#[verifier::ext_equal]
pub struct RepoNodeView {
    pub repo_key: Seq<char>,
    pub repo_root: Seq<char>,
    pub display_name: Seq<char>,
    pub refs: RefsView,
    pub worktrees: Seq<WorktreeNodeView>,
}

impl View for RepoNode {
    type V = RepoNodeView;

    open spec fn view(&self) -> RepoNodeView {
        RepoNodeView {
            repo_key: self.repo_key@,
            repo_root: self.repo_root@,
            display_name: self.display_name@,
            refs: self.refs@,
            worktrees: shapes::views(self.worktrees@),
        }
    }
}

/// A repository that herdr would not list: what was said of it, and where its panes are.
#[derive(Debug, PartialEq, Eq)]
pub struct Unlisted {
    pub repo_key: String,
    pub words: String,
    /// The checkout of each pane.
    pub panes: Vec<(String, String)>,
}

#[verifier::ext_equal]
pub struct UnlistedView {
    pub repo_key: Seq<char>,
    pub words: Seq<char>,
    pub panes: Seq<(Seq<char>, Seq<char>)>,
}

impl View for Unlisted {
    type V = UnlistedView;

    open spec fn view(&self) -> UnlistedView {
        UnlistedView { repo_key: self.repo_key@, words: self.words@, panes: shapes::pairs(self.panes@) }
    }
}

/// The key of a repository without the `/.git` at its end.
pub open spec fn key_directory(repo_key: Seq<char>) -> Seq<char> {
    match text::strip_suffix(repo_key, "/.git"@) {
        Some(directory) => directory,
        None => repo_key,
    }
}

impl Unlisted {
    /// The name that the repository is called by: that of the directory it is in.
    pub fn name(&self) -> (name: String)
        ensures
            name@ == path_name(key_directory(self.repo_key@)),
    {
        let cs = chars_of(self.repo_key.as_str());
        match before_suffix(cs.as_slice(), "/.git") {
            Some(directory) => name_of_path(text_of(directory).as_str()),
            None => name_of_path(self.repo_key.as_str()),
        }
    }
}

/// What could not be read while the tree was: repositories, and panes that git would not place.
#[derive(Debug, PartialEq, Eq)]
pub struct Trouble {
    pub unlisted: Vec<Unlisted>,
    pub unplaced: OrderedMap<String>,
}

/// Everything that is open, by repository and checkout.
#[derive(Debug, PartialEq, Eq)]
pub struct Tree {
    pub repos: Vec<RepoNode>,
    /// The panes that are in no repository.
    pub ungrouped: Vec<PaneNode>,
    pub trouble: Trouble,
}

impl Trouble {
    /// No trouble at all.
    pub fn none() -> (trouble: Trouble)
        ensures
            trouble.unlisted@.len() == 0,
            trouble.unplaced@ == Map::<Seq<char>, String>::empty(),
    {
        Trouble { unlisted: Vec::new(), unplaced: OrderedMap::new() }
    }
}

/// What a checkout is called: its branch, or the last component of its path.
pub open spec fn label_of(worktree: WorktreeNodeView) -> Seq<char> {
    match worktree.branch {
        BranchView::Out(name) => name,
        _ => path_name(worktree.checkout_path),
    }
}

impl WorktreeNode {
    /// What the checkout is called.
    pub fn label(&self) -> (label: String)
        ensures
            label@ == label_of(self@),
    {
        match self.branch.name() {
            Some(name) => name.to_owned(),
            None => name_of_path(self.checkout_path.as_str()),
        }
    }
}

/// The paths of the checkouts of a repository.
pub open spec fn worktree_paths(worktrees: Seq<WorktreeNodeView>) -> Seq<Seq<char>> {
    Seq::new(worktrees.len(), |i: int| worktrees[i].checkout_path)
}

/// The paths of all checkouts, in the order of the tree.
pub open spec fn paths_of(repos: Seq<RepoNodeView>) -> Seq<Seq<char>>
    decreases repos.len(),
{
    if repos.len() == 0 {
        seq![]
    } else {
        paths_of(repos.drop_last()) + worktree_paths(repos.last().worktrees)
    }
}

/// The paths of all checkouts, in the order of the tree.
pub fn checkout_paths(tree: &Tree) -> (paths: Vec<String>)
    ensures
        text::texts(paths@) == paths_of(shapes::views(tree.repos@)),
{
    let ghost all = shapes::views(tree.repos@);
    let mut paths: Vec<String> = Vec::new();
    let mut i: usize = 0;
    while i < tree.repos.len()
        invariant
            i <= tree.repos@.len(),
            all == shapes::views(tree.repos@),
            text::texts(paths@) == paths_of(all.take(i as int)),
        decreases tree.repos@.len() - i,
    {
        let repo = &tree.repos[i];
        assert(all.take(i + 1).drop_last() =~= all.take(i as int));
        assert(all.take(i + 1).last() == repo@);
        let ghost start = text::texts(paths@);
        let ghost own = worktree_paths(repo@.worktrees);
        assert(start + own.take(0) =~= start);
        let mut k: usize = 0;
        while k < repo.worktrees.len()
            invariant
                k <= repo.worktrees@.len(),
                own == worktree_paths(repo@.worktrees),
                text::texts(paths@) == start + own.take(k as int),
            decreases repo.worktrees@.len() - k,
        {
            let ghost before = text::texts(paths@);
            paths.push(repo.worktrees[k].checkout_path.clone());
            assert(text::texts(paths@) =~= before.push(own[k as int]));
            assert(start + own.take(k + 1) =~= before.push(own[k as int]));
            k = k + 1;
        }
        assert(own.take(k as int) =~= own);
        i = i + 1;
    }
    assert(all.take(i as int) =~= all);
    paths
}

/// Whether a checkout holds a pane.
pub open spec fn holds_pane(worktree: WorktreeNodeView, pane_id: Seq<char>) -> bool {
    exists|i: int|
        0 <= i < worktree.panes.len() && (#[trigger] worktree.panes[i]).pane_id == pane_id
}

fn has_pane(worktree: &WorktreeNode, pane_id: &str) -> (has: bool)
    ensures
        has == holds_pane(worktree@, pane_id@),
{
    let ghost panes = worktree@.panes;
    let mut i: usize = 0;
    while i < worktree.panes.len()
        invariant
            i <= worktree.panes@.len(),
            panes == worktree@.panes,
            forall|j: int| 0 <= j < i ==> (#[trigger] panes[j]).pane_id != pane_id@,
        decreases worktree.panes@.len() - i,
    {
        assert(panes[i as int] == worktree.panes@[i as int]@);
        if same(worktree.panes[i].pane_id.as_str(), pane_id) {
            return true;
        }
        i = i + 1;
    }
    false
}

/// The checkout that holds a pane: the first one.
pub open spec fn checkout_of_pane(worktrees: Seq<WorktreeNodeView>, pane_id: Seq<char>) -> Option<
    Seq<char>,
>
    decreases worktrees.len(),
{
    if worktrees.len() == 0 {
        None
    } else if holds_pane(worktrees[0], pane_id) {
        Some(worktrees[0].checkout_path)
    } else {
        checkout_of_pane(worktrees.skip(1), pane_id)
    }
}

fn find_in_repo(repo: &RepoNode, pane_id: &str) -> (path: Option<String>)
    ensures
        shapes::opt(path) == checkout_of_pane(repo@.worktrees, pane_id@),
{
    let ghost all = repo@.worktrees;
    assert(all.skip(0) =~= all);
    let mut i: usize = 0;
    while i < repo.worktrees.len()
        invariant
            i <= repo.worktrees@.len(),
            all == repo@.worktrees,
            checkout_of_pane(all, pane_id@) == checkout_of_pane(all.skip(i as int), pane_id@),
        decreases repo.worktrees@.len() - i,
    {
        let worktree = &repo.worktrees[i];
        assert(all.skip(i as int)[0] == worktree@);
        assert(all.skip(i as int).skip(1) =~= all.skip(i + 1));
        if has_pane(worktree, pane_id) {
            return Some(worktree.checkout_path.clone());
        }
        i = i + 1;
    }
    None
}

/// The checkout that holds a pane, in the first repository that has one.
pub open spec fn pane_checkout(repos: Seq<RepoNodeView>, pane_id: Seq<char>) -> Option<Seq<char>>
    decreases repos.len(),
{
    if repos.len() == 0 {
        None
    } else {
        match checkout_of_pane(repos[0].worktrees, pane_id) {
            Some(path) => Some(path),
            None => pane_checkout(repos.skip(1), pane_id),
        }
    }
}

/// The checkout that holds a pane, in the first repository that has one.
pub fn find_pane(repos: &Vec<RepoNode>, pane_id: &str) -> (path: Option<String>)
    ensures
        shapes::opt(path) == pane_checkout(shapes::views(repos@), pane_id@),
{
    let ghost all = shapes::views(repos@);
    assert(all.skip(0) =~= all);
    let mut i: usize = 0;
    while i < repos.len()
        invariant
            i <= repos@.len(),
            all == shapes::views(repos@),
            pane_checkout(all, pane_id@) == pane_checkout(all.skip(i as int), pane_id@),
        decreases repos@.len() - i,
    {
        assert(all.skip(i as int)[0] == repos@[i as int]@);
        assert(all.skip(i as int).skip(1) =~= all.skip(i + 1));
        if let Some(path) = find_in_repo(&repos[i], pane_id) {
            return Some(path);
        }
        i = i + 1;
    }
    None
}

// ---------------------------------------------------------------- laws

/// A path keeps everything but the slashes at its end, however many those are; and a path of
/// slashes alone is one slash.
pub proof fn law_only_the_slashes_at_the_end_go(base: Seq<char>, slashes: Seq<char>)
    requires
        forall|i: int| 0 <= i < slashes.len() ==> #[trigger] slashes[i] == '/',
        base.len() > 0 ==> base.last() != '/',
    ensures
        base.len() > 0 ==> normal_path(base + slashes) == base,
        base.len() == 0 && slashes.len() > 0 ==> normal_path(base + slashes) == seq!['/'],
        base.len() == 0 && slashes.len() == 0 ==> normal_path(base + slashes).len() == 0,
{
    lemma_slashes_go(base, slashes);
}

proof fn lemma_slashes_go(base: Seq<char>, slashes: Seq<char>)
    requires
        forall|i: int| 0 <= i < slashes.len() ==> #[trigger] slashes[i] == '/',
        base.len() > 0 ==> base.last() != '/',
    ensures
        text::trim_end_char(base + slashes, '/') == base,
    decreases slashes.len(),
{
    let whole = base + slashes;
    if slashes.len() == 0 {
        assert(whole =~= base);
    } else {
        assert(whole.last() == slashes[slashes.len() - 1]);
        assert(whole.drop_last() =~= base + slashes.drop_last());
        lemma_slashes_go(base, slashes.drop_last());
    }
}

/// A path is called by what stands behind its last slash.
pub proof fn law_path_is_called_by_its_last_component(front: Seq<char>, name: Seq<char>)
    requires
        text::lacks(name, '/'),
        name.len() > 0,
    ensures
        path_name(front + seq!['/'] + name) == name,
        path_name(name) == name,
    decreases name.len(),
{
    lemma_last_component(front + seq!['/'], name);
    lemma_last_component(seq![], name);
    assert(seq![] + name =~= name);
}

proof fn lemma_last_component(front: Seq<char>, name: Seq<char>)
    requires
        text::lacks(name, '/'),
        front.len() > 0 ==> front.last() == '/',
    ensures
        last_component(front + name) == name,
    decreases name.len(),
{
    let whole = front + name;
    if name.len() == 0 {
        assert(whole =~= front);
        assert(last_component(whole) =~= name);
    } else {
        assert(whole.last() == name.last());
        assert(whole.drop_last() =~= front + name.drop_last());
        assert(name.last() != '/') by {
            assert(name[name.len() - 1] != '/');
        }
        assert forall|i: int| 0 <= i < name.drop_last().len() implies #[trigger] name.drop_last()[i]
            != '/' by {
            assert(name[i] != '/');
        }
        lemma_last_component(front, name.drop_last());
        assert(last_component(whole) =~= name);
    }
}

/// Every checkout of every repository is among the paths of the tree, in its order: those of one
/// list of repositories come before those of the next, and those of one repository in its own.
pub proof fn law_every_checkout_has_its_path(
    one: Seq<RepoNodeView>,
    other: Seq<RepoNodeView>,
    repo: RepoNodeView,
    i: int,
)
    requires
        0 <= i < repo.worktrees.len(),
    ensures
        paths_of(one + other) == paths_of(one) + paths_of(other),
        paths_of(seq![repo]).len() == repo.worktrees.len(),
        paths_of(seq![repo])[i] == repo.worktrees[i].checkout_path,
    decreases other.len(),
{
    assert(seq![repo].drop_last() =~= seq![]);
    assert(paths_of(seq![repo].drop_last()) =~= seq![]);
    assert(paths_of(seq![repo]) =~= worktree_paths(repo.worktrees));
    if other.len() == 0 {
        assert(one + other =~= one);
        assert(paths_of(one) + paths_of(other) =~= paths_of(one));
    } else {
        law_every_checkout_has_its_path(one, other.drop_last(), repo, i);
        assert((one + other).drop_last() =~= one + other.drop_last());
        assert((one + other).last() == other.last());
        assert(paths_of(one + other) =~= paths_of(one) + paths_of(other));
    }
}

/// A pane is found in the first checkout that has it: where one is found the pane is in it, and
/// where none is, no checkout has the pane.
pub proof fn law_pane_is_found_where_it_is(repos: Seq<RepoNodeView>, pane_id: Seq<char>)
    ensures
        match pane_checkout(repos, pane_id) {
            Some(path) => exists|r: int, w: int, p: int|
                0 <= r < repos.len() && 0 <= w < repos[r].worktrees.len() && 0 <= p
                    < repos[r].worktrees[w].panes.len() && (
                #[trigger] repos[r].worktrees[w].panes[p]).pane_id == pane_id
                    && repos[r].worktrees[w].checkout_path == path,
            None => forall|r: int, w: int, p: int|
                0 <= r < repos.len() && 0 <= w < repos[r].worktrees.len() && 0 <= p
                    < repos[r].worktrees[w].panes.len() ==> (
                #[trigger] repos[r].worktrees[w].panes[p]).pane_id != pane_id,
        },
    decreases repos.len(),
{
    if repos.len() > 0 {
        let rest = repos.skip(1);
        lemma_found_in_checkouts(repos[0].worktrees, pane_id);
        match checkout_of_pane(repos[0].worktrees, pane_id) {
            Some(path) => {
                let (w, p) = choose|w: int, p: int|
                    0 <= w < repos[0].worktrees.len() && 0 <= p < repos[0].worktrees[w].panes.len()
                        && (#[trigger] repos[0].worktrees[w].panes[p]).pane_id == pane_id
                        && repos[0].worktrees[w].checkout_path == path;
                assert(repos[0].worktrees[w].panes[p].pane_id == pane_id);
            },
            None => {
                law_pane_is_found_where_it_is(rest, pane_id);
                match pane_checkout(rest, pane_id) {
                    Some(path) => {
                        let (r, w, p) = choose|r: int, w: int, p: int|
                            0 <= r < rest.len() && 0 <= w < rest[r].worktrees.len() && 0 <= p
                                < rest[r].worktrees[w].panes.len() && (
                            #[trigger] rest[r].worktrees[w].panes[p]).pane_id == pane_id
                                && rest[r].worktrees[w].checkout_path == path;
                        assert(rest[r] == repos[r + 1]);
                        assert(repos[r + 1].worktrees[w].panes[p].pane_id == pane_id);
                    },
                    None => {
                        assert forall|r: int, w: int, p: int|
                            0 <= r < repos.len() && 0 <= w < repos[r].worktrees.len() && 0 <= p
                                < repos[r].worktrees[w].panes.len() implies (
                        #[trigger] repos[r].worktrees[w].panes[p]).pane_id != pane_id by {
                            if r > 0 {
                                assert(rest[r - 1] == repos[r]);
                                assert(rest[r - 1].worktrees[w].panes[p].pane_id != pane_id);
                            }
                        }
                    },
                }
            },
        }
    }
}

proof fn lemma_found_in_checkouts(worktrees: Seq<WorktreeNodeView>, pane_id: Seq<char>)
    ensures
        match checkout_of_pane(worktrees, pane_id) {
            Some(path) => exists|w: int, p: int|
                0 <= w < worktrees.len() && 0 <= p < worktrees[w].panes.len() && (
                #[trigger] worktrees[w].panes[p]).pane_id == pane_id && worktrees[w].checkout_path
                    == path,
            None => forall|w: int, p: int|
                0 <= w < worktrees.len() && 0 <= p < worktrees[w].panes.len() ==> (
                #[trigger] worktrees[w].panes[p]).pane_id != pane_id,
        },
    decreases worktrees.len(),
{
    if worktrees.len() > 0 {
        if holds_pane(worktrees[0], pane_id) {
            let p = choose|p: int|
                0 <= p < worktrees[0].panes.len() && (#[trigger] worktrees[0].panes[p]).pane_id
                    == pane_id;
            assert(worktrees[0].panes[p].pane_id == pane_id);
        } else {
            let rest = worktrees.skip(1);
            lemma_found_in_checkouts(rest, pane_id);
            match checkout_of_pane(rest, pane_id) {
                Some(path) => {
                    let (w, p) = choose|w: int, p: int|
                        0 <= w < rest.len() && 0 <= p < rest[w].panes.len() && (
                        #[trigger] rest[w].panes[p]).pane_id == pane_id && rest[w].checkout_path
                            == path;
                    assert(rest[w] == worktrees[w + 1]);
                    assert(worktrees[w + 1].panes[p].pane_id == pane_id);
                },
                None => {
                    assert forall|w: int, p: int|
                        0 <= w < worktrees.len() && 0 <= p < worktrees[w].panes.len() implies (
                    #[trigger] worktrees[w].panes[p]).pane_id != pane_id by {
                        if w > 0 {
                            assert(rest[w - 1] == worktrees[w]);
                            assert(rest[w - 1].panes[p].pane_id != pane_id);
                        }
                    }
                },
            }
        }
    }
}

/// The key of a repository is in its directory: the `.git` at the end goes with the slash before
/// it, once, and a key that ends otherwise is that directory itself.
pub proof fn law_key_is_in_its_directory(dir: Seq<char>, key: Seq<char>)
    ensures
        key_directory(dir + "/.git"@) == dir,
        (forall|front: Seq<char>| key != #[trigger] (front + "/.git"@)) ==> key_directory(key)
            == key,
{
    let end = "/.git"@;
    let whole = dir + end;
    assert(whole.subrange(whole.len() - end.len(), whole.len() as int) =~= end);
    assert(whole.take(whole.len() - end.len()) =~= dir);
    if end.is_suffix_of(key) {
        let front = key.take(key.len() - end.len());
        assert(key.subrange(key.len() - end.len(), key.len() as int) == end);
        assert(key =~= front + end) by {
            assert forall|i: int| front.len() <= i < key.len() implies key[i] == (front + end)[i] by {
                assert(key.subrange(key.len() - end.len(), key.len() as int)[i - front.len()]
                    == key[i]);
            }
        }
    }
}

} // verus!
